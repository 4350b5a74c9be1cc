//! The LaTeX math-mode output format.

use crate::latex::escape_latex_into;
use crate::latex::latex_escaped;
use crate::Format;
use vstd::prelude::*;

verus! {

/// Render as LaTeX math mode: the escaping rule is that of LaTeX text, but
/// numbers render without the surrounding `$` delimiters.
#[derive(Copy, Clone, Eq, PartialEq, Ord, PartialOrd, Hash, Structural, Debug)]
pub struct Math;

impl Format for Math {
    open spec fn escaped(s: Seq<char>) -> Seq<char> {
        latex_escaped(s)
    }

    fn escape(f: &mut String, s: &str) {
        escape_latex_into(f, s);
    }

    open spec fn mime_text() -> Seq<char> {
        "text/x-latex"@
    }

    fn mime() -> mime::Mime {
        crate::parse_mime("text/x-latex")
    }

    fn this_format() -> Self {
        Math
    }
}

} // verus!
