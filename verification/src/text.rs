//! The text-or-array normalizer: many notebook fields hold either a single
//! string or an ordered list of string fragments that concatenate with no
//! separator.

use vstd::prelude::*;

verus! {

use vstd::string::StrSliceExecFns;
use vstd::string::StringExecFns;
use vstd::utf8::encode_utf8;

/// Character-wise string equality: true exactly when the two views agree.
pub fn str_eq(a: &str, b: &str) -> (r: bool)
    ensures
        r == (a@ == b@),
{
    let alen = a.unicode_len();
    let blen = b.unicode_len();
    if alen != blen {
        return false;
    }
    let mut i: usize = 0;
    while i < alen
        invariant
            alen == a@.len(),
            blen == b@.len(),
            alen == blen,
            i <= alen,
            forall|j: int| 0 <= j < i ==> a@[j] == b@[j],
        decreases alen - i,
    {
        if a.get_char(i) != b.get_char(i) {
            return false;
        }
        i = i + 1;
    }
    proof {
        assert(a@ =~= b@);
    }
    true
}

/// A notebook text field: one string, or fragments to be joined in order.
#[derive(Debug)]
pub enum MultilineString {
    Single(String),
    Multi(Vec<String>),
}

/// Concatenation of the first `n` fragments, in order, with no separator.
pub open spec fn frags_text(frags: Seq<String>, n: int) -> Seq<char>
    decreases n,
{
    if n <= 0 {
        Seq::empty()
    } else {
        frags_text(frags, n - 1) + frags[n - 1]@
    }
}

/// Number of bytes in the UTF-8 encoding of `s`.
pub open spec fn byte_len(s: Seq<char>) -> nat {
    encode_utf8(s).len()
}

/// Sum of the UTF-8 byte lengths of the first `n` fragments.
pub open spec fn frags_byte_len(frags: Seq<String>, n: int) -> nat
    decreases n,
{
    if n <= 0 {
        0
    } else {
        frags_byte_len(frags, n - 1) + byte_len(frags[n - 1]@)
    }
}

impl View for MultilineString {
    type V = Seq<char>;

    /// The normalized text: the single string, or the fragments joined.
    open spec fn view(&self) -> Seq<char> {
        match self {
            MultilineString::Single(s) => s@,
            MultilineString::Multi(frags) => frags_text(frags@, frags@.len() as int),
        }
    }
}

/// UTF-8 byte length of the normalized text, computed without joining:
/// the sum of the fragments' byte lengths.
pub open spec fn ms_byte_len(m: &MultilineString) -> nat {
    match m {
        MultilineString::Single(s) => byte_len(s@),
        MultilineString::Multi(frags) => frags_byte_len(frags@, frags@.len() as int),
    }
}

impl MultilineString {
    /// Materializes the normalized text as one owned string.
    pub fn into_string(self) -> (r: String)
        ensures
            r@ == self@,
    {
        match self {
            MultilineString::Single(s) => s,
            MultilineString::Multi(frags) => {
                let mut acc = String::new();
                let mut i: usize = 0;
                while i < frags.len()
                    invariant
                        i <= frags.len(),
                        acc@ == frags_text(frags@, i as int),
                    decreases frags.len() - i,
                {
                    acc.append(frags[i].as_str());
                    i = i + 1;
                }
                acc
            }
        }
    }

    /// The normalized text as one owned string, leaving `self` intact.
    pub fn as_string(&self) -> (r: String)
        ensures
            r@ == self@,
    {
        match self {
            MultilineString::Single(s) => s.clone(),
            MultilineString::Multi(frags) => {
                let mut acc = String::new();
                let mut i: usize = 0;
                while i < frags.len()
                    invariant
                        i <= frags.len(),
                        acc@ == frags_text(frags@, i as int),
                    decreases frags.len() - i,
                {
                    acc.append(frags[i].as_str());
                    i = i + 1;
                }
                acc
            }
        }
    }

    /// Byte length of the normalized text, without materializing it; used
    /// only for output-buffer pre-sizing.
    pub fn len(&self) -> (r: usize)
        ensures
            ms_byte_len(self) <= usize::MAX ==> r == ms_byte_len(self),
    {
        match self {
            MultilineString::Single(s) => s.as_str().len(),
            MultilineString::Multi(frags) => {
                let mut acc: usize = 0;
                let mut i: usize = 0;
                while i < frags.len()
                    invariant
                        i <= frags.len(),
                        frags_byte_len(frags@, i as int) <= usize::MAX ==> acc
                            == frags_byte_len(frags@, i as int),
                    decreases frags.len() - i,
                {
                    let fl = frags[i].as_str().len();
                    acc = if acc > usize::MAX - fl {
                        usize::MAX
                    } else {
                        acc + fl
                    };
                    i = i + 1;
                }
                acc
            }
        }
    }
}

} // verus!
