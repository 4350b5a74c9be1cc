//! The Rust source-code output format.

use crate::Format;
use vstd::prelude::*;

verus! {

/// Render as Rust source: text becomes a quoted, escaped string literal.
#[derive(Copy, Clone, Eq, PartialEq, Ord, PartialOrd, Hash, Structural, Debug)]
pub struct Rust;

/// The debug rendering of a string: the text in quotes, with the characters
/// escaped as in a source literal.  It depends on the characters alone; its
/// exact escaping tables belong to the standard library and are not restated
/// here.
pub uninterp spec fn rust_escaped(s: Seq<char>) -> Seq<char>;

/// Relies on the standard `Debug` formatting of `str`: the result is a
/// function of the characters alone.
#[verifier::external_body]
pub(crate) fn debug_str(s: &str) -> (r: String)
    ensures
        r@ == rust_escaped(s@),
{
    format!("{:?}", s)
}

impl Format for Rust {
    open spec fn escaped(s: Seq<char>) -> Seq<char> {
        rust_escaped(s)
    }

    fn escape(f: &mut String, s: &str) {
        let d = debug_str(s);
        f.append(d.as_str());
    }

    open spec fn mime_text() -> Seq<char> {
        "text/x-rust"@
    }

    fn mime() -> mime::Mime {
        crate::parse_mime("text/x-rust")
    }

    fn this_format() -> Self {
        Rust
    }
}

} // verus!
