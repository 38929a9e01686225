//! Base64 encoding and decoding of asset payloads, through the `base64`
//! crate's standard engine.

use vstd::prelude::*;

verus! {

/// The byte sequence that the standard base64 alphabet (with canonical
/// padding) decodes `s` to, or `None` when `s` is not valid base64.
pub uninterp spec fn base64_decoding(s: Seq<char>) -> Option<Seq<u8>>;

/// The base64 encoding of the UTF-8 bytes of the text `s`.
pub uninterp spec fn base64_of_text(s: Seq<char>) -> Seq<char>;

/// Relies on `base64`'s `Engine::decode` with the `STANDARD` engine: the
/// result is a function of the input characters alone, and invalid input
/// yields an error.
#[verifier::external_body]
pub(crate) fn base64_decode(s: &str) -> (r: Option<Vec<u8>>)
    ensures
        r is Some <==> base64_decoding(s@) is Some,
        r is Some ==> r->0@ == base64_decoding(s@)->0,
{
    base64::Engine::decode(&base64::engine::general_purpose::STANDARD, s.as_bytes()).ok()
}

/// Relies on `base64`'s `Engine::encode` with the `STANDARD` engine: the
/// result is a function of the input bytes alone.
#[verifier::external_body]
pub(crate) fn base64_encode_text(s: &str) -> (r: String)
    ensures
        r@ == base64_of_text(s@),
{
    base64::Engine::encode(&base64::engine::general_purpose::STANDARD, s.as_bytes())
}

} // verus!
