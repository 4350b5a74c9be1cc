//! A verified template-compilation library.
//!
//! The crate models a small template language: a stream of host-language
//! tokens mixing literal text with expressions, conditionals, loops, match
//! arms, named sub-templates and spliced template files.  A verified
//! compiler rewrites such a stream into the statements that render it, a
//! verified numeric formatter renders decomposed floating-point values, and
//! each output format carries a proven escaping function.

pub mod compile;
pub mod driver;
pub mod escape;
pub mod float;
pub mod html;
pub mod latex;
pub mod literal;
pub mod mathlatex;
pub mod numbers;
pub mod parse;
pub mod resolve;
pub mod roundtrip;
pub mod rust;
pub mod scan;
pub mod token;
pub mod url;
pub mod utf8;

pub use crate::compile::CompileError;
pub use crate::compile::GStmt;
pub use crate::compile::Stmt;
pub use crate::compile::TemplateEnv;
pub use crate::compile::TemplateFile;
pub use crate::driver::format_as;
pub use crate::driver::with_template_format;
pub use crate::driver::with_template_source;
pub use crate::driver::write_as;
pub use crate::driver::TemplateSource;
pub use crate::float::Floating;
pub use crate::float::GFloating;
pub use crate::html::HTML;
pub use crate::parse::parse_template;
pub use crate::parse::Template;
pub use crate::scan::parse_rust;
pub use crate::scan::Rule;
pub use crate::literal::literal_value;
pub use crate::resolve::count_pounds;
pub use crate::resolve::find_template_file;
pub use crate::resolve::ResolveError;
pub use crate::resolve::SourceDir;
pub use crate::latex::LaTeX;
pub use crate::mathlatex::Math;
pub use crate::rust::Rust;
pub use crate::token::Delim;
pub use crate::token::GToken;
pub use crate::token::Token;
pub use crate::url::URL;
pub use crate::utf8::UTF8;

use vstd::prelude::*;

verus! {

/// Relies on the `mime` crate: `Mime` is its parsed media-type value,
/// carried opaquely by this library.
#[verifier::external_type_specification]
#[verifier::external_body]
pub struct ExMime(mime::Mime);

/// The media type that parsing the given text yields.  It depends on the
/// text alone; the parsed value's structure belongs to the `mime` crate and
/// is not restated here.
pub uninterp spec fn media_type_of(s: Seq<char>) -> mime::Mime;

/// Relies on `mime`'s `FromStr` implementation for `Mime`.  Every string
/// the precondition allows is a well-formed media type that the parser
/// accepts, so the call cannot fail; the result is a function of the text
/// alone.
#[verifier::external_body]
pub(crate) fn parse_mime(s: &str) -> (r: mime::Mime)
    requires
        s@ == "text/html; charset=utf-8"@ || s@ == "text/plain; charset=utf-8"@ || s@
            == "text/x-latex"@ || s@ == "text/x-rust"@ || s@ == "text/x-url"@,
    ensures
        r == media_type_of(s@),
{
    s.parse().unwrap()
}

/// A format that data can be displayed in: an escaping rule, stated both
/// mathematically and executably, together with a media type.
pub trait Format: Sized + Copy + PartialEq + Eq + PartialOrd + Ord + core::hash::Hash + Send + Sync {
    /// The mathematical escaping rule of this format.
    spec fn escaped(s: Seq<char>) -> Seq<char>;

    /// Append the escaped form of `s` to `f`.
    fn escape(f: &mut String, s: &str)
        ensures
            final(f)@ == old(f)@ + Self::escaped(s@),
    ;

    /// The media-type text of this format.
    spec fn mime_text() -> Seq<char>;

    /// The media type of this format: the parse of its media-type text.
    fn mime() -> (r: mime::Mime)
        ensures
            r == media_type_of(Self::mime_text()),
    ;

    /// The canonical instance of this format.
    fn this_format() -> Self;
}

/// The analogue of display formatting, parametrized by a [`Format`]: a value
/// knows how to append its rendering in that format to an output string.
pub trait DisplayAs<F: Format>: Sized {
    /// The exact text this value renders as.
    spec fn displayed(&self) -> Seq<char>;

    /// Append this value's rendering to `f`.
    fn fmt(&self, f: &mut String)
        ensures
            final(f)@ == old(f)@ + self.displayed(),
    ;

    /// A guess at the rendered size, used only for buffer pre-sizing.
    fn estimate_size(&self) -> usize {
        4
    }
}

/// A `String` that is already formatted in `F`: rendering it again writes it
/// through unescaped.
#[derive(Clone, Hash)]
pub struct FormattedString<F> {
    inner: String,
    _format: F,
}

impl<F> View for FormattedString<F> {
    type V = Seq<char>;

    closed spec fn view(&self) -> Seq<char> {
        self.inner@
    }
}

impl<F: Format> FormattedString<F> {
    /// Wrap an already-formatted `String`.
    pub fn from_formatted(s: String) -> (r: Self)
        ensures
            r@ == s@,
    {
        FormattedString { inner: s, _format: F::this_format() }
    }

    /// Convert back into a plain string.
    pub fn into_string(self) -> (r: String)
        ensures
            r@ == self@,
    {
        self.inner
    }

    /// Borrow the formatted text.
    pub fn as_str(&self) -> (r: &str)
        ensures
            r@ == self@,
    {
        self.inner.as_str()
    }
}

impl<F> PartialEq for FormattedString<F> {
    fn eq(&self, other: &Self) -> (r: bool) {
        crate::token::str_eq(self.inner.as_str(), other.inner.as_str())
    }
}

impl<F> vstd::std_specs::cmp::PartialEqSpecImpl for FormattedString<F> {
    open spec fn obeys_eq_spec() -> bool {
        true
    }

    open spec fn eq_spec(&self, other: &Self) -> bool {
        self@ == other@
    }
}

impl<F: Format> DisplayAs<F> for FormattedString<F> {
    open spec fn displayed(&self) -> Seq<char> {
        self@
    }

    fn fmt(&self, f: &mut String) {
        f.append(self.inner.as_str());
    }
}

impl<F: Format> DisplayAs<F> for String {
    open spec fn displayed(&self) -> Seq<char> {
        F::escaped(self@)
    }

    fn fmt(&self, f: &mut String) {
        F::escape(f, self.as_str());
    }
}

impl<'a, F: Format> DisplayAs<F> for &'a str {
    open spec fn displayed(&self) -> Seq<char> {
        F::escaped((*self)@)
    }

    fn fmt(&self, f: &mut String) {
        F::escape(f, self);
    }
}

} // verus!
