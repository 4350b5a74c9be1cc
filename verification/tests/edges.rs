//! Edge cases: attribute arguments, splice errors, literals and names.

use display_as::literal_value;
use display_as::CompileError;
use display_as::Delim;
use display_as::TemplateEnv;
use display_as::TemplateSource;
use display_as::Token;

fn lit(s: &str) -> Token {
    Token::Literal(s.to_string())
}

fn atom(s: &str) -> Token {
    Token::Atom(s.to_string())
}

fn env() -> TemplateEnv {
    TemplateEnv { files: Vec::new() }
}

#[test]
fn attribute_arguments_classify() {
    // One string: a template file name, quotes stripped.
    let one = vec![lit("\"page.html\"")];
    assert_eq!(
        display_as::with_template_source(&one),
        TemplateSource::File { name: "page.html".to_string() }
    );
    // Three strings: two delimiters and a file name.
    let three = vec![lit("\"}}\""), lit("\"{{\""), lit("\"delimiters.html\"")];
    assert_eq!(
        display_as::with_template_source(&three),
        TemplateSource::FileDelims {
            left: "}}".to_string(),
            right: "{{".to_string(),
            name: "delimiters.html".to_string(),
        }
    );
    // Anything else is an inline template.
    let inline = vec![lit("\"Foo \""), atom("self"), atom("."), lit("0")];
    assert_eq!(display_as::with_template_source(&inline), TemplateSource::Inline);
}

#[test]
fn attribute_target_names_the_format() {
    // `impl DisplayAs<HTML> for Foo {}`
    let impl_toks = vec![
        atom("impl"),
        atom("DisplayAs"),
        atom("<"),
        atom("HTML"),
        atom(">"),
        atom("for"),
        atom("Foo"),
        Token::Group(Delim::Brace, vec![]),
    ];
    assert_eq!(
        display_as::with_template_format(&impl_toks),
        Ok(Some(atom("HTML")))
    );
    // Not an impl at all.
    let not_impl = vec![atom("fn"), atom("x"), Token::Group(Delim::Brace, vec![])];
    assert_eq!(
        display_as::with_template_format(&not_impl),
        Err(CompileError::NotDisplayAsImpl)
    );
    // An impl that does not end in an empty brace group.
    let not_empty = vec![
        atom("impl"),
        atom("DisplayAs"),
        atom("<"),
        atom("HTML"),
        atom(">"),
        atom("for"),
        atom("Foo"),
        Token::Group(Delim::Brace, vec![atom("x")]),
    ];
    assert_eq!(
        display_as::with_template_format(&not_empty),
        Err(CompileError::ImplNotEmpty)
    );
}

#[test]
fn splice_arguments_are_checked() {
    let splice_kw: String = ['i', 'n', 'c', 'l', 'u', 'd', 'e'].iter().collect();
    // Two arguments: an arity error.
    let two_args = vec![
        atom("HTML"),
        atom(","),
        Token::Atom(splice_kw.clone()),
        atom("!"),
        Token::Group(Delim::Paren, vec![lit("\"a.html\""), lit("\"b.html\"")]),
    ];
    assert_eq!(
        display_as::format_as(&two_args, &env(), 8),
        Err(CompileError::SpliceArity)
    );
    // A non-string argument.
    let non_string = vec![
        atom("HTML"),
        atom(","),
        Token::Atom(splice_kw.clone()),
        atom("!"),
        Token::Group(Delim::Paren, vec![atom("name")]),
    ];
    assert_eq!(
        display_as::format_as(&non_string, &env(), 8),
        Err(CompileError::SpliceNotString)
    );
    // A self-splicing file runs out of depth.
    let cyclic = TemplateEnv {
        files: vec![display_as::TemplateFile {
            name: "loop.html".to_string(),
            tokens: vec![
                Token::Atom(splice_kw.clone()),
                atom("!"),
                Token::Group(Delim::Paren, vec![lit("\"loop.html\"")]),
            ],
        }],
    };
    let tokens = vec![
        atom("HTML"),
        atom(","),
        Token::Atom(splice_kw),
        atom("!"),
        Token::Group(Delim::Paren, vec![lit("\"loop.html\"")]),
    ];
    assert_eq!(
        display_as::format_as(&tokens, &cyclic, 8),
        Err(CompileError::SpliceTooDeep)
    );
}

#[test]
fn literal_values_of_each_form() {
    assert_eq!(literal_value("\"plain\""), Some("plain".to_string()));
    assert_eq!(literal_value("\"a\\nb\""), Some("a\nb".to_string()));
    assert_eq!(literal_value("\"say \\\"hi\\\"\""), Some("say \"hi\"".to_string()));
    assert_eq!(literal_value("r\"raw\\n\""), Some("raw\\n".to_string()));
    assert_eq!(literal_value("r#\"with \"quotes\"\"#"), Some("with \"quotes\"".to_string()));
    assert_eq!(literal_value("42"), None);
    assert_eq!(literal_value("\"dangling\\\""), None);
}

#[test]
fn template_names_derive_from_code_files() {
    assert_eq!(
        display_as::resolve::template_name_of("page_html.rs"),
        "page.html".to_string()
    );
    assert_eq!(
        display_as::resolve::template_name_of("plain"),
        "plain".to_string()
    );
    assert_eq!(display_as::resolve::add_rs_extension("page.html"), "page.html.rs".to_string());
}

#[test]
fn replacement_scans_left_to_right() {
    assert_eq!(display_as::resolve::replace_all("a[%b[%c", "[%", "<"), "a<b<c".to_string());
    assert_eq!(display_as::resolve::replace_all("aaa", "aa", "b"), "ba".to_string());
    assert_eq!(display_as::resolve::replace_all("x", "", "y"), "x".to_string());
}

#[test]
fn scanning_source_for_template_bindings() {
    let code = " display_as_template!(HTML; impl DisplayAs<HTML> for Simple { } ; \"template_html.rs\");";
    let rules = display_as::parse_rust(code);
    assert_eq!(rules.len(), 1);
    assert_eq!(rules[0].format, "HTML".to_string());
    assert_eq!(rules[0].impl_text, " impl DisplayAs<HTML> for Simple ".to_string());
    assert_eq!(rules[0].template_name, "template_html.rs".to_string());
    // Without the leading whitespace, or with a nonempty brace pair, the
    // declaration is not recognized.
    assert_eq!(display_as::parse_rust(code.trim_start()).len(), 0);
    let bad = " display_as_template!(HTML; impl Foo { x } ; \"t.rs\");";
    assert_eq!(display_as::parse_rust(bad).len(), 0);
}

#[test]
fn generated_code_lines() {
    let t = display_as::Template::RawString("a\"b".to_string());
    assert_eq!(t.rust_code(), "  f.write_str(\"a\\\"b\")?;".to_string());
    let e = display_as::Template::Expression("self.x".to_string());
    assert_eq!(e.rust_code(), "  (&(self.x) as &DisplayAs<HTML>).fmt(f)?;".to_string());
    let code = display_as::parse::templates_code(&vec![t, e]);
    assert!(code.starts_with("|f: &mut ::std::fmt::Formatter| {\n"));
    assert!(code.ends_with("Ok(()) }\n"));
    let r = display_as::Rule {
        impl_text: "impl DisplayAs<HTML> for Foo".to_string(),
        format: "HTML".to_string(),
        template_name: "foo_html.rs".to_string(),
    };
    assert_eq!(r.rust_code(), "impl DisplayAs<HTML> for Foo {".to_string());
}
