//! The `format_as` entry point: compile a template and render its output.

use display_as::literal_value;
use display_as::Delim;
use display_as::DisplayAs;
use display_as::Floating;
use display_as::Stmt;
use display_as::TemplateEnv;
use display_as::Token;
use display_as::HTML;

fn lit(s: &str) -> Token {
    Token::Literal(s.to_string())
}

fn atom(s: &str) -> Token {
    Token::Atom(s.to_string())
}

fn brace(v: Vec<Token>) -> Token {
    Token::Group(Delim::Brace, v)
}

fn env() -> TemplateEnv {
    TemplateEnv { files: Vec::new() }
}

fn compile(mut template: Vec<Token>) -> Vec<Stmt> {
    let mut tokens = vec![atom("HTML"), atom(",")];
    tokens.append(&mut template);
    let (fmt, stmts) = display_as::format_as(&tokens, &env(), 8).unwrap();
    assert_eq!(fmt, atom("HTML"));
    stmts
}

fn unlit(st: &Stmt) -> String {
    match st {
        Stmt::WriteLit(l) => literal_value(l).unwrap(),
        other => panic!("expected a literal write, got {:?}", other),
    }
}

fn show_int(n: i64) -> String {
    let mut s = String::new();
    <i64 as DisplayAs<HTML>>::fmt(&n, &mut s);
    s
}

fn floating_of(x: f64) -> Floating {
    if !x.is_normal() {
        return Floating::Abnormal(format!("{}", x));
    }
    let neg = x < 0.0;
    let ax = if neg { -x } else { x };
    Floating::from_e_notation(&format!("{:e}", ax), neg).unwrap()
}

#[test]
fn format_as_just_string() {
    let stmts = compile(vec![lit(r#"r"Hello world""#)]);
    assert_eq!(stmts, vec![Stmt::WriteLit(r#"r"Hello world""#.to_string())]);
    let out = display_as::FormattedString::<HTML>::from_formatted(unlit(&stmts[0]));
    assert_eq!(out.into_string(), r"Hello world");
}

fn render_number_template(expr: Vec<Token>, value: i64) -> String {
    let expr_len = expr.len();
    let mut template = vec![lit(r#"r"Number ""#)];
    let mut expr2 = expr;
    template.append(&mut expr2);
    template.push(lit(r#"r" is odd""#));
    let stmts = compile(template);
    assert_eq!(stmts.len(), 3);
    match &stmts[1] {
        Stmt::WriteExpr { expr, format } => {
            assert_eq!(expr.len(), expr_len);
            assert_eq!(format, &atom("HTML"));
        }
        other => panic!("expected an expression write, got {:?}", other),
    }
    let mut out = unlit(&stmts[0]);
    out.push_str(&show_int(value));
    out.push_str(&unlit(&stmts[2]));
    out
}

#[test]
fn format_as_string_and_integer() {
    assert_eq!(render_number_template(vec![lit("3")], 3), r"Number 3 is odd");
    assert_eq!(
        render_number_template(vec![lit("2"), atom("+"), lit("1")], 2 + 1),
        r"Number 3 is odd"
    );
    assert_eq!(
        render_number_template(vec![lit("4"), atom("-"), lit("1")], 4 - 1),
        r"Number 3 is odd"
    );
    assert_eq!(
        render_number_template(
            vec![lit("8"), atom("/"), lit("2"), atom("-"), lit("1")],
            8 / 2 - 1
        ),
        r"Number 3 is odd"
    );
    assert_eq!(
        render_number_template(vec![lit("1"), atom("*"), lit("3")], 1 * 3),
        r"Number 3 is odd"
    );
}

#[test]
fn format_as_integer_reference() {
    assert_eq!(
        render_number_template(vec![atom("&"), lit("3u64")], *&3i64),
        r"Number 3 is odd"
    );
    assert_eq!(render_number_template(vec![lit("3u64")], 3), r"Number 3 is odd");
    assert_eq!(
        render_number_template(vec![atom("&"), atom("&"), lit("3u64")], **&&3i64),
        r"Number 3 is odd"
    );
}

#[test]
fn format_as_string_and_float() {
    // Under HTML: `"Number " 3.0 " is odd"`.
    let stmts = compile(vec![lit(r#"r"Number ""#), lit("3.0"), lit(r#"r" is odd""#)]);
    assert_eq!(stmts.len(), 3);
    let mut out = unlit(&stmts[0]);
    <Floating as DisplayAs<HTML>>::fmt(&floating_of(3.0), &mut out);
    out.push_str(&unlit(&stmts[2]));
    assert_eq!(out, r"Number 3 is odd");

    // Under Rust: `"Number " X " is even"` for several values.
    fn rust_number(text: &str, x: f64) -> String {
        let tokens = vec![
            atom("Rust"),
            atom(","),
            lit(r#"r"Number ""#),
            lit(text),
            lit(r#"r" is even""#),
        ];
        let (_, stmts) = display_as::format_as(&tokens, &env(), 8).unwrap();
        let mut out = unlit(&stmts[0]);
        <Floating as DisplayAs<display_as::Rust>>::fmt(&floating_of(x), &mut out);
        out.push_str(&unlit(&stmts[2]));
        out
    }
    assert_eq!(rust_number("1e10", 1e10), r"Number 1e10 is even");
    assert_eq!(rust_number("1e2", 1e2), r"Number 100 is even");
    assert_eq!(rust_number("1.2345e2", 1.2345e2), r"Number 123.45 is even");
}

#[test]
fn format_as_test_conditionals() {
    let foo = 3.0;
    let bar = 2.0;
    let stmts = compile(vec![
        lit(r#"r"Game: ""#),
        atom("if"),
        atom("foo"),
        atom(">"),
        atom("bar"),
        brace(vec![lit(r#"r"foo wins""#)]),
    ]);
    assert_eq!(stmts.len(), 6);
    let mut out = unlit(&stmts[0]);
    if foo > bar {
        match &stmts[5] {
            Stmt::Block(body) => out.push_str(&unlit(&body[0])),
            other => panic!("expected a block, got {:?}", other),
        }
    }
    assert_eq!(out, r"Game: foo wins");

    let stmts = compile(vec![
        lit(r#"r"Counting: ""#),
        atom("for"),
        atom("i"),
        atom("in"),
        lit("0"),
        atom("."),
        atom("."),
        lit("5"),
        brace(vec![atom("i"), lit(r#"" ""#)]),
    ]);
    let last = stmts.len() - 1;
    let mut out = unlit(&stmts[0]);
    for i in 0..5 {
        match &stmts[last] {
            Stmt::Block(body) => {
                assert!(matches!(&body[0], Stmt::WriteExpr { .. }));
                out.push_str(&show_int(i));
                out.push_str(&unlit(&body[1]));
            }
            other => panic!("expected a block, got {:?}", other),
        }
    }
    assert_eq!(out, r"Counting: 0 1 2 3 4 ");
}

#[test]
fn format_as_test_mixed_formats() {
    let foo = 3e6;
    let stmts = compile(vec![
        lit(r#"r"Number: ""#),
        atom("foo"),
        lit(r#"r" and ""#),
        atom("foo"),
        atom("as"),
        atom("Rust"),
        lit(r#"r"!""#),
    ]);
    assert_eq!(stmts.len(), 5);
    // The `as Rust` cast overrides the format of the second expression only.
    match &stmts[1] {
        Stmt::WriteExpr { format, .. } => assert_eq!(format, &atom("HTML")),
        other => panic!("expected an expression write, got {:?}", other),
    }
    match &stmts[3] {
        Stmt::WriteExpr { expr, format } => {
            assert_eq!(expr, &vec![atom("foo")]);
            assert_eq!(format, &atom("Rust"));
        }
        other => panic!("expected an expression write, got {:?}", other),
    }
    let mut out = unlit(&stmts[0]);
    <Floating as DisplayAs<HTML>>::fmt(&floating_of(foo), &mut out);
    out.push_str(&unlit(&stmts[2]));
    <Floating as DisplayAs<display_as::Rust>>::fmt(&floating_of(foo), &mut out);
    out.push_str(&unlit(&stmts[4]));
    assert_eq!(out, "Number: 3\u{d7}10<sup>6</sup> and 3e6!");
}

#[test]
fn format_as_test_let() {
    // `let foo = { for i in 0..3 { "counting " i " " } }; foo`
    let stmts = compile(vec![
        atom("let"),
        atom("foo"),
        atom("="),
        brace(vec![
            atom("for"),
            atom("i"),
            atom("in"),
            lit("0"),
            atom("."),
            atom("."),
            lit("3"),
            brace(vec![lit(r#""counting ""#), atom("i"), lit(r#"" ""#)]),
        ]),
        atom(";"),
        atom("foo"),
    ]);
    // `let foo =` passes through raw; the brace becomes a captured renderer.
    assert_eq!(stmts[0], Stmt::Raw(atom("let")));
    assert_eq!(stmts[1], Stmt::Raw(atom("foo")));
    assert_eq!(stmts[2], Stmt::Raw(atom("=")));
    let captured = match &stmts[3] {
        Stmt::Closure { format, body } => {
            assert_eq!(format, &atom("HTML"));
            body
        }
        other => panic!("expected a captured sub-template, got {:?}", other),
    };
    assert_eq!(stmts[4], Stmt::Raw(atom(";")));
    assert!(matches!(&stmts[5], Stmt::WriteExpr { .. }));
    // Rendering the capture for each loop turn, then using it once.
    let block = match &captured[captured.len() - 1] {
        Stmt::Block(b) => b,
        other => panic!("expected a loop body block, got {:?}", other),
    };
    let mut foo = String::new();
    for i in 0..3 {
        foo.push_str(&unlit(&block[0]));
        foo.push_str(&show_int(i));
        foo.push_str(&unlit(&block[2]));
    }
    assert_eq!(foo, r"counting 0 counting 1 counting 2 ");
}
