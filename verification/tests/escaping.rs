//! Escaping behaviour of each format, driven through compiled templates.

use display_as::Delim;
use display_as::DisplayAs;
use display_as::Format;
use display_as::Stmt;
use display_as::TemplateEnv;
use display_as::Token;
use display_as::HTML;
use display_as::LaTeX;
use display_as::Math;
use display_as::Rust;
use display_as::UTF8;
use display_as::URL;

fn lit(s: &str) -> Token {
    Token::Literal(s.to_string())
}

fn atom(s: &str) -> Token {
    Token::Atom(s.to_string())
}

fn env() -> TemplateEnv {
    TemplateEnv { files: Vec::new() }
}

/// Compile `FORMAT, ( "<text>" )` and render the one escaped expression.
fn escape_template<F: Format>(fmt_name: &str, text: &str) -> String {
    let quoted = format!("{:?}", text);
    let tokens = vec![
        atom(fmt_name),
        atom(","),
        Token::Group(Delim::Paren, vec![lit(&quoted)]),
    ];
    let (fmt, stmts) = display_as::format_as(&tokens, &env(), 8).unwrap();
    assert_eq!(fmt, atom(fmt_name));
    // One statement: write the expression escaped under the ambient format.
    assert_eq!(stmts.len(), 1);
    match &stmts[0] {
        Stmt::WriteExpr { expr, format } => {
            assert_eq!(expr.len(), 1);
            assert_eq!(format, &atom(fmt_name));
        }
        other => panic!("unexpected statement {:?}", other),
    }
    let mut out = String::new();
    F::escape(&mut out, text);
    out
}

#[test]
fn html_escaping() {
    assert_eq!(&escape_template::<HTML>("HTML", "&"), "&amp;");
    assert_eq!(
        &escape_template::<HTML>("HTML", "hello &>this is cool"),
        "hello &amp;&gt;this is cool"
    );
    assert_eq!(
        &escape_template::<HTML>("HTML", "hello &>this is 'cool"),
        "hello &amp;&gt;this is &#x27;cool"
    );
}

#[test]
fn latex_escaping() {
    assert_eq!(&escape_template::<LaTeX>("LaTeX", "&"), r"\&");
    assert_eq!(
        &escape_template::<LaTeX>("LaTeX", "hello &>this is cool"),
        r"hello \&>this is cool"
    );
    assert_eq!(
        &escape_template::<LaTeX>("LaTeX", "hello &>this is 'cool"),
        r"hello \&>this is 'cool"
    );
}

#[test]
fn mathlatex_escaping() {
    assert_eq!(&escape_template::<Math>("Math", "&"), r"\&");
    assert_eq!(
        &escape_template::<Math>("Math", "hello &>this is cool"),
        r"hello \&>this is cool"
    );
    assert_eq!(
        &escape_template::<Math>("Math", "hello &>this is 'cool"),
        r"hello \&>this is 'cool"
    );
}

#[test]
fn rust_escaping() {
    assert_eq!(&escape_template::<Rust>("Rust", "&"), r#""&""#);
}

#[test]
fn url_escaping() {
    assert_eq!(&escape_template::<URL>("URL", "&"), "&");
    assert_eq!(
        &escape_template::<URL>("URL", "hello &>this is cool"),
        "hello%20&%3Ethis%20is%20cool"
    );
    assert_eq!(
        &escape_template::<URL>("URL", "hello &>this is 'cool"),
        "hello%20&%3Ethis%20is%20\'cool"
    );
}

#[test]
fn utf8_escaping() {
    assert_eq!(&escape_template::<UTF8>("UTF8", "&"), "&");
}

#[test]
fn url_escaping_multibyte() {
    // A non-ASCII character is percent-encoded byte by byte.
    let mut out = String::new();
    URL::escape(&mut out, "a\u{e9}b");
    assert_eq!(&out, "a%C3%A9b");
    let mut out2 = String::new();
    URL::escape(&mut out2, "\u{20ac}");
    assert_eq!(&out2, "%E2%82%AC");
}

#[test]
fn escaping_clean_strings_kept() {
    // Strings without dangerous characters pass through every text format.
    let clean = "plain text without anything special";
    let mut a = String::new();
    HTML::escape(&mut a, clean);
    assert_eq!(&a, clean);
    let mut b = String::new();
    LaTeX::escape(&mut b, clean);
    assert_eq!(&b, clean);
    let mut c = String::new();
    Math::escape(&mut c, clean);
    assert_eq!(&c, clean);
    let mut d = String::new();
    URL::escape(&mut d, "plain-text_without.anything~special");
    assert_eq!(&d, "plain-text_without.anything~special");
    let mut e = String::new();
    UTF8::escape(&mut e, clean);
    assert_eq!(&e, clean);
}

#[test]
fn html_entities_exact() {
    let mut out = String::new();
    HTML::escape(&mut out, "<>&\"'/");
    assert_eq!(&out, "&lt;&gt;&amp;&quot;&#x27;&#x2f;");
}

#[test]
fn string_display_escapes() {
    let s = "a<b".to_string();
    let mut out = String::new();
    <String as DisplayAs<HTML>>::fmt(&s, &mut out);
    assert_eq!(&out, "a&lt;b");
}

#[test]
fn formatted_string_passes_through() {
    let f = display_as::FormattedString::<HTML>::from_formatted("a<b".to_string());
    assert_eq!(f.as_str(), "a<b");
    let mut out = String::new();
    <display_as::FormattedString<HTML> as DisplayAs<HTML>>::fmt(&f, &mut out);
    assert_eq!(&out, "a<b");
    assert_eq!(f.into_string(), "a<b".to_string());
}

#[test]
fn mime_types_of_formats() {
    assert_eq!(HTML::mime().as_ref(), "text/html; charset=utf-8");
    assert_eq!(LaTeX::mime().as_ref(), "text/x-latex");
    assert_eq!(Math::mime().as_ref(), "text/x-latex");
    assert_eq!(Rust::mime().as_ref(), "text/x-rust");
    assert_eq!(URL::mime().as_ref(), "text/x-url");
    assert_eq!(UTF8::mime().as_ref(), "text/plain; charset=utf-8");
}
