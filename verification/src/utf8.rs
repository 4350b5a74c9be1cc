//! The raw UTF-8 output format.

use crate::escape::escaped_by;
use crate::escape::lemma_escaped_by_clean;
use crate::Format;
use vstd::prelude::*;

verus! {

/// Render as raw UTF-8 text: nothing is escaped.
#[derive(Copy, Clone, Eq, PartialEq, Ord, PartialOrd, Hash, Structural, Debug)]
pub struct UTF8;

/// The identity escaping rule of raw UTF-8 output.
pub open spec fn utf8_escaped(s: Seq<char>) -> Seq<char> {
    escaped_by(s, |c: char| seq![c])
}

impl Format for UTF8 {
    open spec fn escaped(s: Seq<char>) -> Seq<char> {
        utf8_escaped(s)
    }

    fn escape(f: &mut String, s: &str) {
        f.append(s);
        proof {
            lemma_utf8_escape_identity(s@);
        }
    }

    open spec fn mime_text() -> Seq<char> {
        "text/plain; charset=utf-8"@
    }

    fn mime() -> mime::Mime {
        crate::parse_mime("text/plain; charset=utf-8")
    }

    fn this_format() -> Self {
        UTF8
    }
}

/// Raw UTF-8 escaping keeps every string unchanged.
pub proof fn lemma_utf8_escape_identity(s: Seq<char>)
    ensures
        utf8_escaped(s) == s,
{
    lemma_escaped_by_clean(s, |c: char| seq![c]);
}

} // verus!
