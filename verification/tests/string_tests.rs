//! The string-producing entry point, template by template.

use display_as::literal_value;
use display_as::Delim;
use display_as::DisplayAs;
use display_as::Floating;
use display_as::Stmt;
use display_as::TemplateEnv;
use display_as::Token;
use display_as::HTML;

fn lit(s: &str) -> Token {
    Token::Literal(s.to_string())
}

fn atom(s: &str) -> Token {
    Token::Atom(s.to_string())
}

fn brace(v: Vec<Token>) -> Token {
    Token::Group(Delim::Brace, v)
}

fn env() -> TemplateEnv {
    TemplateEnv { files: Vec::new() }
}

fn compile_under(fmt_name: &str, mut template: Vec<Token>) -> Vec<Stmt> {
    let mut tokens = vec![atom(fmt_name), atom(",")];
    tokens.append(&mut template);
    let (fmt, stmts) = display_as::format_as(&tokens, &env(), 8).unwrap();
    assert_eq!(fmt, atom(fmt_name));
    stmts
}

fn unlit(st: &Stmt) -> String {
    match st {
        Stmt::WriteLit(l) => literal_value(l).unwrap(),
        other => panic!("expected a literal write, got {:?}", other),
    }
}

fn show_int(n: i64) -> String {
    let mut s = String::new();
    <i64 as DisplayAs<HTML>>::fmt(&n, &mut s);
    s
}

fn floating_of(x: f64) -> Floating {
    if !x.is_normal() {
        return Floating::Abnormal(format!("{}", x));
    }
    let neg = x < 0.0;
    let ax = if neg { -x } else { x };
    Floating::from_e_notation(&format!("{:e}", ax), neg).unwrap()
}

#[test]
fn display_as_string_just_string() {
    let stmts = compile_under("HTML", vec![lit(r#"r"Hello world""#)]);
    assert_eq!(stmts, vec![Stmt::WriteLit(r#"r"Hello world""#.to_string())]);
    assert_eq!(unlit(&stmts[0]), r"Hello world");
}

fn number_line(expr: Vec<Token>, value: i64) -> String {
    let mut template = vec![lit(r#"r"Number ""#)];
    let mut expr2 = expr;
    template.append(&mut expr2);
    template.push(lit(r#"r" is odd""#));
    let stmts = compile_under("HTML", template);
    assert_eq!(stmts.len(), 3);
    let mut out = unlit(&stmts[0]);
    out.push_str(&show_int(value));
    out.push_str(&unlit(&stmts[2]));
    out
}

#[test]
fn display_as_string_string_and_integer() {
    assert_eq!(number_line(vec![lit("3")], 3), r"Number 3 is odd");
    assert_eq!(number_line(vec![lit("2"), atom("+"), lit("1")], 2 + 1), r"Number 3 is odd");
    assert_eq!(number_line(vec![lit("4"), atom("-"), lit("1")], 4 - 1), r"Number 3 is odd");
    assert_eq!(
        number_line(vec![lit("8"), atom("/"), lit("2"), atom("-"), lit("1")], 8 / 2 - 1),
        r"Number 3 is odd"
    );
    assert_eq!(number_line(vec![lit("1"), atom("*"), lit("3")], 1 * 3), r"Number 3 is odd");
}

#[test]
fn display_as_string_integer_reference() {
    assert_eq!(number_line(vec![atom("&"), lit("3u64")], *&3i64), r"Number 3 is odd");
}

#[test]
fn display_as_string_string_and_float() {
    let stmts = compile_under(
        "HTML",
        vec![lit(r#"r"Number ""#), lit("3.0"), lit(r#"r" is odd""#)],
    );
    let mut out = unlit(&stmts[0]);
    <Floating as DisplayAs<HTML>>::fmt(&floating_of(3.0), &mut out);
    out.push_str(&unlit(&stmts[2]));
    assert_eq!(out, r"Number 3 is odd");

    fn rust_number(text: &str, x: f64) -> String {
        let stmts = compile_under(
            "Rust",
            vec![lit(r#"r"Number ""#), lit(text), lit(r#"r" is even""#)],
        );
        let mut out = unlit(&stmts[0]);
        <Floating as DisplayAs<display_as::Rust>>::fmt(&floating_of(x), &mut out);
        out.push_str(&unlit(&stmts[2]));
        out
    }
    assert_eq!(rust_number("1e10", 1e10), r"Number 1e10 is even");
    assert_eq!(rust_number("1e2", 1e2), r"Number 100 is even");
    assert_eq!(rust_number("1.2345e2", 1.2345e2), r"Number 123.45 is even");
}

#[test]
fn display_as_string_test_conditionals() {
    let foo = 3.0;
    let bar = 2.0;
    let stmts = compile_under(
        "HTML",
        vec![
            lit(r#"r"Game: ""#),
            atom("if"),
            atom("foo"),
            atom(">"),
            atom("bar"),
            brace(vec![lit(r#"r"foo wins""#)]),
        ],
    );
    let mut out = unlit(&stmts[0]);
    if foo > bar {
        match &stmts[5] {
            Stmt::Block(body) => out.push_str(&unlit(&body[0])),
            other => panic!("expected a block, got {:?}", other),
        }
    }
    assert_eq!(out, r"Game: foo wins");

    let stmts = compile_under(
        "HTML",
        vec![
            lit(r#"r"Counting: ""#),
            atom("for"),
            atom("i"),
            atom("in"),
            lit("0"),
            atom("."),
            atom("."),
            lit("5"),
            brace(vec![atom("i"), lit(r#"" ""#)]),
        ],
    );
    let last = stmts.len() - 1;
    let mut out = unlit(&stmts[0]);
    for i in 0..5 {
        match &stmts[last] {
            Stmt::Block(body) => {
                out.push_str(&show_int(i));
                out.push_str(&unlit(&body[1]));
            }
            other => panic!("expected a block, got {:?}", other),
        }
    }
    assert_eq!(out, r"Counting: 0 1 2 3 4 ");
}

#[test]
fn display_as_string_test_mixed_formats() {
    let foo = 3e6;
    let stmts = compile_under(
        "HTML",
        vec![
            lit(r#"r"Number: ""#),
            atom("foo"),
            lit(r#"r" and ""#),
            atom("foo"),
            atom("as"),
            atom("Rust"),
            lit(r#"r"!""#),
        ],
    );
    let mut out = unlit(&stmts[0]);
    <Floating as DisplayAs<HTML>>::fmt(&floating_of(foo), &mut out);
    out.push_str(&unlit(&stmts[2]));
    <Floating as DisplayAs<display_as::Rust>>::fmt(&floating_of(foo), &mut out);
    out.push_str(&unlit(&stmts[4]));
    assert_eq!(out, "Number: 3\u{d7}10<sup>6</sup> and 3e6!");
}
