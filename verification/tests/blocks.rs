//! Loops, bindings, patterns and match arms in templates.

use display_as::literal_value;
use display_as::Delim;
use display_as::DisplayAs;
use display_as::Floating;
use display_as::Stmt;
use display_as::TemplateEnv;
use display_as::Token;
use display_as::HTML;
use display_as::URL;

fn lit(s: &str) -> Token {
    Token::Literal(s.to_string())
}

fn atom(s: &str) -> Token {
    Token::Atom(s.to_string())
}

fn brace(v: Vec<Token>) -> Token {
    Token::Group(Delim::Brace, v)
}

fn env() -> TemplateEnv {
    TemplateEnv { files: Vec::new() }
}

fn compile(mut template: Vec<Token>) -> Vec<Stmt> {
    let mut tokens = vec![atom("HTML"), atom(",")];
    tokens.append(&mut template);
    let (_, stmts) = display_as::format_as(&tokens, &env(), 8).unwrap();
    stmts
}

fn unlit(st: &Stmt) -> String {
    match st {
        Stmt::WriteLit(l) => literal_value(l).unwrap(),
        other => panic!("expected a literal write, got {:?}", other),
    }
}

fn show_int(n: i64) -> String {
    let mut s = String::new();
    <i64 as DisplayAs<HTML>>::fmt(&n, &mut s);
    s
}

fn block_of(st: &Stmt) -> &Vec<Stmt> {
    match st {
        Stmt::Block(b) => b,
        other => panic!("expected a block, got {:?}", other),
    }
}

fn capture_of(st: &Stmt) -> &Vec<Stmt> {
    match st {
        Stmt::Closure { body, .. } => body,
        other => panic!("expected a captured sub-template, got {:?}", other),
    }
}

#[test]
fn loop_in_let_test_let() {
    // `let foo = { for i in foos.iter() { "counting " i " " } }; foo`
    let foos = vec!["hello", "world"];
    let stmts = compile(vec![
        atom("let"),
        atom("foo"),
        atom("="),
        brace(vec![
            atom("for"),
            atom("i"),
            atom("in"),
            atom("foos"),
            atom("."),
            atom("iter"),
            Token::Group(Delim::Paren, vec![]),
            brace(vec![lit(r#""counting ""#), atom("i"), lit(r#"" ""#)]),
        ]),
        atom(";"),
        atom("foo"),
    ]);
    let captured = capture_of(&stmts[3]);
    let body = block_of(&captured[captured.len() - 1]);
    let mut out = String::new();
    for i in foos.iter() {
        out.push_str(&unlit(&body[0]));
        <HTML as display_as::Format>::escape(&mut out, i);
        out.push_str(&unlit(&body[2]));
    }
    assert_eq!(out, r"counting hello counting world ");
}

#[test]
fn test_loop_no_let() {
    // `for i in [1u8, 2].iter() { "counting " *i }`
    let stmts = compile(vec![
        atom("for"),
        atom("i"),
        atom("in"),
        Token::Group(Delim::Bracket, vec![lit("1u8"), atom(","), lit("2")]),
        atom("."),
        atom("iter"),
        Token::Group(Delim::Paren, vec![]),
        brace(vec![lit(r#""counting ""#), atom("*"), atom("i")]),
    ]);
    let last = stmts.len() - 1;
    let body = block_of(&stmts[last]);
    let mut out = String::new();
    for i in [1u8, 2].iter() {
        out.push_str(&unlit(&body[0]));
        out.push_str(&show_int(*i as i64));
    }
    assert_eq!(out, r"counting 1counting 2");
}

#[test]
fn test_loop_no_let_b() {
    // `for i in [1u8,2].iter() { let j: u8 = *i; "counting " j }`
    let stmts = compile(vec![
        atom("for"),
        atom("i"),
        atom("in"),
        Token::Group(Delim::Bracket, vec![lit("1u8"), atom(","), lit("2")]),
        atom("."),
        atom("iter"),
        Token::Group(Delim::Paren, vec![]),
        brace(vec![
            atom("let"),
            atom("j"),
            atom(":"),
            atom("u8"),
            atom("="),
            atom("*"),
            atom("i"),
            atom(";"),
            lit(r#""counting ""#),
            atom("j"),
        ]),
    ]);
    let last = stmts.len() - 1;
    let body = block_of(&stmts[last]);
    // The `let j ...;` passes through raw; the literal and `j` render.
    assert_eq!(body[0], Stmt::Raw(atom("let")));
    let mut out = String::new();
    for i in [1u8, 2].iter() {
        let j: u8 = *i;
        let lit_pos = body.len() - 2;
        out.push_str(&unlit(&body[lit_pos]));
        out.push_str(&show_int(j as i64));
    }
    assert_eq!(out, r"counting 1counting 2");
}

#[test]
fn test_no_loop_no_let_c() {
    // `let i = 1u8; i`
    let stmts = compile(vec![
        atom("let"),
        atom("i"),
        atom("="),
        lit("1u8"),
        atom(";"),
        atom("i"),
    ]);
    // A plain `let` without a brace passes through raw up to the semicolon.
    assert_eq!(stmts[0], Stmt::Raw(atom("let")));
    assert_eq!(stmts[4], Stmt::Raw(atom(";")));
    let i = 1u8;
    assert!(matches!(&stmts[5], Stmt::WriteExpr { .. }));
    assert_eq!(show_int(i as i64), r"1");
}

#[test]
fn test_if_let() {
    // `if let Foo { x } = foo { x }`: the first brace is a pattern, not a
    // template block, because the pending tokens hold no `=`.
    let stmts = compile(vec![
        atom("if"),
        atom("let"),
        atom("Foo"),
        brace(vec![atom("x")]),
        atom("="),
        atom("foo"),
        brace(vec![atom("x")]),
    ]);
    // Everything up to the second brace passes through raw; the second brace
    // is an ordinary nested block (an `=` now occurs among the pending
    // tokens, so the pattern rule no longer applies).
    let last = stmts.len() - 1;
    let body = block_of(&stmts[last]);
    assert!(matches!(&body[0], Stmt::WriteExpr { .. }));
    struct Foo {
        x: usize,
    }
    let foo = Foo { x: 37 };
    let Foo { x } = foo;
    assert_eq!(show_int(x as i64), r"37");
}

#[test]
fn test_let_with_braces_match() {
    // `{ let Foo { x } = foo; x }`: a bare block whose interior is a
    // template; the destructuring `let` inside passes through raw.
    let stmts = compile(vec![brace(vec![
        atom("let"),
        atom("Foo"),
        brace(vec![atom("x")]),
        atom("="),
        atom("foo"),
        atom(";"),
        atom("x"),
    ])]);
    let body = block_of(&stmts[0]);
    assert_eq!(body[0], Stmt::Raw(atom("let")));
    let last = body.len() - 1;
    assert!(matches!(&body[last], Stmt::WriteExpr { .. }));
    struct Foo {
        x: usize,
    }
    let foo = Foo { x: 37 };
    let Foo { x } = foo;
    assert_eq!(show_int(x as i64), r"37");
}

#[test]
fn test_match() {
    // `match someone { Some(x) => { x } None => { "None!" } }`
    let template = vec![
        atom("match"),
        atom("someone"),
        brace(vec![
            atom("Some"),
            Token::Group(Delim::Paren, vec![atom("x")]),
            atom("="),
            atom(">"),
            brace(vec![atom("x")]),
            atom("None"),
            atom("="),
            atom(">"),
            brace(vec![lit(r#""None!""#)]),
        ]),
    ];
    let stmts = compile(template);
    // `match someone` passes through raw; the arms' brace bodies become
    // compiled blocks while the patterns pass through.
    assert_eq!(stmts[0], Stmt::Raw(atom("match")));
    assert_eq!(stmts[1], Stmt::Raw(atom("someone")));
    let arms = block_of(&stmts[2]);
    let some_body = block_of(&arms[4]);
    assert!(matches!(&some_body[0], Stmt::WriteExpr { .. }));
    let none_body = block_of(&arms[arms.len() - 1]);

    let mut someone = Some(1);
    let first = match someone {
        Some(x) => show_int(x),
        None => unlit(&none_body[0]),
    };
    assert_eq!(first, r"1");
    someone = None;
    let second = match someone {
        Some(x) => show_int(x),
        None => unlit(&none_body[0]),
    };
    assert_eq!(second, r"None!");
}

#[test]
fn mixed_types() {
    // `"hello world " 5 as URL " urls are " 5.0`
    let stmts = compile(vec![
        lit(r#""hello world ""#),
        lit("5"),
        atom("as"),
        atom("URL"),
        lit(r#"" urls are ""#),
        lit("5.0"),
    ]);
    assert_eq!(stmts.len(), 4);
    match &stmts[1] {
        Stmt::WriteExpr { expr, format } => {
            assert_eq!(expr, &vec![lit("5")]);
            assert_eq!(format, &atom("URL"));
        }
        other => panic!("expected an expression write, got {:?}", other),
    }
    let mut out = unlit(&stmts[0]);
    let mut five = String::new();
    <u64 as DisplayAs<URL>>::fmt(&5u64, &mut five);
    out.push_str(&five);
    out.push_str(&unlit(&stmts[2]));
    let f = Floating::from_e_notation("5", false);
    assert!(f.is_none());
    let f5 = Floating::from_e_notation("5e0", false).unwrap();
    <Floating as DisplayAs<HTML>>::fmt(&f5, &mut out);
    assert_eq!(out, "hello world 5 urls are 5");
}

#[test]
fn mixed_formats_in_let() {
    // `let foo = { "hello world " 5 as URL " urls are " 5.0 }; foo`
    let stmts = compile(vec![
        atom("let"),
        atom("foo"),
        atom("="),
        brace(vec![
            lit(r#""hello world ""#),
            lit("5"),
            atom("as"),
            atom("URL"),
            lit(r#"" urls are ""#),
            lit("5.0"),
        ]),
        atom(";"),
        atom("foo"),
    ]);
    let body = capture_of(&stmts[3]);
    let mut out = unlit(&body[0]);
    let mut five = String::new();
    <u64 as DisplayAs<URL>>::fmt(&5u64, &mut five);
    out.push_str(&five);
    out.push_str(&unlit(&body[2]));
    let f5 = Floating::from_e_notation("5e0", false).unwrap();
    <Floating as DisplayAs<HTML>>::fmt(&f5, &mut out);
    assert_eq!(out, "hello world 5 urls are 5");
}
