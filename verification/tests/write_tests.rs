//! The `write_as` entry point: a writer argument precedes the template.

use display_as::literal_value;
use display_as::Delim;
use display_as::DisplayAs;
use display_as::Stmt;
use display_as::TemplateEnv;
use display_as::Token;
use display_as::CompileError;
use display_as::HTML;

fn lit(s: &str) -> Token {
    Token::Literal(s.to_string())
}

fn atom(s: &str) -> Token {
    Token::Atom(s.to_string())
}

fn brace(v: Vec<Token>) -> Token {
    Token::Group(Delim::Brace, v)
}

fn env() -> TemplateEnv {
    TemplateEnv { files: Vec::new() }
}

fn unlit(st: &Stmt) -> String {
    match st {
        Stmt::WriteLit(l) => literal_value(l).unwrap(),
        other => panic!("expected a literal write, got {:?}", other),
    }
}

#[test]
fn write_to_string() {
    // `write_as!(HTML, s, r"Hello world")`
    let tokens = vec![
        atom("HTML"),
        atom(","),
        atom("s"),
        atom(","),
        lit(r#"r"Hello world""#),
    ];
    let (fmt, writer, stmts) = display_as::write_as(&tokens, &env(), 8).unwrap();
    assert_eq!(fmt, atom("HTML"));
    assert_eq!(writer, vec![atom("s")]);
    let mut s = String::new();
    s.push_str(&unlit(&stmts[0]));
    assert_eq!(&s, r"Hello world");
}

#[test]
fn write_to_mut_ref_string() {
    // `write_as!(HTML, &mut s, r"Hello world")`
    let tokens = vec![
        atom("HTML"),
        atom(","),
        atom("&"),
        atom("mut"),
        atom("s"),
        atom(","),
        lit(r#"r"Hello world""#),
    ];
    let (_, writer, stmts) = display_as::write_as(&tokens, &env(), 8).unwrap();
    assert_eq!(writer, vec![atom("&"), atom("mut"), atom("s")]);
    let mut s = String::new();
    s.push_str(&unlit(&stmts[0]));
    assert_eq!(&s, r"Hello world");
}

#[test]
fn write_integer() {
    // `write_as!(HTML, s, 137)`
    let tokens = vec![atom("HTML"), atom(","), atom("s"), atom(","), lit("137")];
    let (_, writer, stmts) = display_as::write_as(&tokens, &env(), 8).unwrap();
    assert_eq!(writer, vec![atom("s")]);
    match &stmts[0] {
        Stmt::WriteExpr { expr, format } => {
            assert_eq!(expr, &vec![lit("137")]);
            assert_eq!(format, &atom("HTML"));
        }
        other => panic!("expected an expression write, got {:?}", other),
    }
    let mut s = String::new();
    <u64 as DisplayAs<HTML>>::fmt(&137u64, &mut s);
    assert_eq!(&s, r"137");
}

#[test]
fn write_nice_loop() {
    // `write_as!(HTML, s, for d in data.iter() { " " d })`
    let data = ["hello", "world"];
    let tokens = vec![
        atom("HTML"),
        atom(","),
        atom("s"),
        atom(","),
        atom("for"),
        atom("d"),
        atom("in"),
        atom("data"),
        atom("."),
        atom("iter"),
        Token::Group(Delim::Paren, vec![]),
        brace(vec![lit(r#"" ""#), atom("d")]),
    ];
    let (_, writer, stmts) = display_as::write_as(&tokens, &env(), 8).unwrap();
    assert_eq!(writer, vec![atom("s")]);
    let body = match &stmts[stmts.len() - 1] {
        Stmt::Block(b) => b,
        other => panic!("expected a block, got {:?}", other),
    };
    let mut s = String::new();
    for d in data.iter() {
        s.push_str(&unlit(&body[0]));
        <HTML as display_as::Format>::escape(&mut s, d);
    }
    assert_eq!(&s, r" hello world");
}

#[test]
fn write_nice_loop_strings() {
    let data = ["hello".to_string(), "world".to_string()];
    let tokens = vec![
        atom("HTML"),
        atom(","),
        atom("s"),
        atom(","),
        atom("for"),
        atom("d"),
        atom("in"),
        atom("data"),
        atom("."),
        atom("iter"),
        Token::Group(Delim::Paren, vec![]),
        brace(vec![lit(r#"" ""#), atom("d")]),
    ];
    let (_, writer, stmts) = display_as::write_as(&tokens, &env(), 8).unwrap();
    assert_eq!(writer, vec![atom("s")]);
    let body = match &stmts[stmts.len() - 1] {
        Stmt::Block(b) => b,
        other => panic!("expected a block, got {:?}", other),
    };
    let mut s = String::new();
    for d in data.iter() {
        s.push_str(&unlit(&body[0]));
        <String as DisplayAs<HTML>>::fmt(d, &mut s);
    }
    assert_eq!(&s, r" hello world");
}

#[test]
fn write_as_needs_a_writer() {
    // A comma straight after the format leaves the writer empty.
    let tokens = vec![atom("HTML"), atom(","), atom(","), lit(r#""x""#)];
    assert_eq!(
        display_as::write_as(&tokens, &env(), 8),
        Err(CompileError::NeedsWriter)
    );
}

#[test]
fn entry_points_report_missing_arguments() {
    let none: Vec<Token> = Vec::new();
    assert_eq!(
        display_as::format_as(&none, &env(), 8),
        Err(CompileError::NeedsFormat)
    );
    let only_fmt = vec![atom("HTML")];
    assert_eq!(
        display_as::format_as(&only_fmt, &env(), 8),
        Err(CompileError::NeedsComma(None))
    );
    let wrong = vec![atom("HTML"), atom("!"), lit(r#""x""#)];
    assert_eq!(
        display_as::format_as(&wrong, &env(), 8),
        Err(CompileError::NeedsComma(Some("!".to_string())))
    );
    assert_eq!(
        CompileError::NeedsFormat.message(),
        "needs a Format as its first argument".to_string()
    );
}
