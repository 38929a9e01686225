//! Conversion of Jupyter notebook documents (JSON cells of markdown, code
//! and recorded outputs) into a single Markdown string, with image outputs
//! either externalized as named asset files or inlined as base64 data URIs.

use vstd::prelude::*;

pub mod codec;
pub mod convert;
pub mod json;
pub mod notebook;
pub mod render;
pub mod text;

verus! {

use crate::text::str_eq;

/// The Jupyter preprocessor: converts notebook chapters to Markdown. The
/// host integration hands each chapter's parsed JSON to the conversion
/// entry points and writes the returned assets out.
#[derive(Debug)]
pub struct JupyterPreprocessor;

impl JupyterPreprocessor {
    pub fn new() -> (r: Self)
        ensures
            r == (JupyterPreprocessor {  }),
    {
        JupyterPreprocessor
    }

    /// The name this preprocessor registers under.
    pub fn name(&self) -> (r: &'static str)
        ensures
            r@ == "jupyter"@,
    {
        "jupyter"
    }

    /// Whether a renderer is supported: exactly `html` and `markdown` are.
    pub fn supports_renderer(&self, renderer: &str) -> (r: bool)
        ensures
            r == (renderer@ == "html"@ || renderer@ == "markdown"@),
    {
        str_eq(renderer, "html") || str_eq(renderer, "markdown")
    }
}

impl Default for JupyterPreprocessor {
    fn default() -> (r: Self)
        ensures
            r == (JupyterPreprocessor {  }),
    {
        JupyterPreprocessor::new()
    }
}

} // verus!
