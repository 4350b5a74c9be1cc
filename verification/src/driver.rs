//! The macro-level entry points of the template language.
//!
//! A template invocation names a format, then a comma, then the template
//! tokens; the writing form names a writer between two commas first.  An
//! implementation attribute carries the template either inline, as one
//! string naming a template file, or as three strings: two custom delimiters
//! and a file name.

use crate::compile::gtok_text;
use crate::compile::spec_compile;
use crate::compile::strip_quotes;
use crate::compile::CompileError;
use crate::compile::GCompileError;
use crate::compile::GFile;
use crate::compile::GStmt;
use crate::compile::Stmt;
use crate::compile::TemplateEnv;
use crate::token::gtok_text_is;
use crate::token::vec_view;
use crate::token::GToken;
use crate::token::Token;
use vstd::prelude::*;

verus! {

/// The position of the first comma token at or after `i`.
pub open spec fn first_comma_at(ts: Seq<GToken>, i: int) -> Option<int>
    decreases ts.len() - i,
{
    if i < 0 || i >= ts.len() {
        None
    } else if gtok_text_is(ts[i], ","@) {
        Some(i)
    } else {
        first_comma_at(ts, i + 1)
    }
}

/// Searching may start after any comma-free prefix.
proof fn lemma_first_comma_skip(ts: Seq<GToken>, i: int)
    requires
        0 <= i <= ts.len(),
        forall|k: int| 0 <= k < i ==> !gtok_text_is(#[trigger] ts[k], ","@),
    ensures
        first_comma_at(ts, 0) == first_comma_at(ts, i),
    decreases i,
{
    if i > 0 {
        lemma_first_comma_skip(ts, i - 1);
    }
}

/// What `format_as` produces from its argument tokens: the format token and
/// the compiled template, or the exact error.  The first token is the
/// format; a comma must follow; the rest is the template.
pub open spec fn spec_format_as(ts: Seq<GToken>, env: Seq<GFile>, fuel: nat) -> Result<
    (GToken, Seq<GStmt>),
    GCompileError,
> {
    if ts.len() == 0 {
        Err(GCompileError::NeedsFormat)
    } else if ts.len() < 2 {
        Err(GCompileError::NeedsComma(None))
    } else if !gtok_text_is(ts[1], ","@) {
        Err(GCompileError::NeedsComma(Some(gtok_text(ts[1]))))
    } else {
        match spec_compile(ts.skip(2), Seq::empty(), ts[0], env, fuel) {
            Ok(s) => Ok((ts[0], s)),
            Err(e) => Err(e),
        }
    }
}

/// What `write_as` produces: the format token, the writer tokens (everything
/// up to the next comma) and the compiled template, or the exact error.
pub open spec fn spec_write_as(ts: Seq<GToken>, env: Seq<GFile>, fuel: nat) -> Result<
    (GToken, Seq<GToken>, Seq<GStmt>),
    GCompileError,
> {
    if ts.len() == 0 {
        Err(GCompileError::NeedsFormat)
    } else if ts.len() < 2 {
        Err(GCompileError::NeedsComma(None))
    } else if !gtok_text_is(ts[1], ","@) {
        Err(GCompileError::NeedsComma(Some(gtok_text(ts[1]))))
    } else {
        let rest = ts.skip(2);
        let writer = match first_comma_at(rest, 0) {
            Some(c) => rest.take(c),
            None => rest,
        };
        let template = match first_comma_at(rest, 0) {
            Some(c) => rest.skip(c + 1),
            None => Seq::empty(),
        };
        if writer.len() == 0 {
            Err(GCompileError::NeedsWriter)
        } else {
            match spec_compile(template, Seq::empty(), ts[0], env, fuel) {
                Ok(s) => Ok((ts[0], writer, s)),
                Err(e) => Err(e),
            }
        }
    }
}

/// A copy of the tokens from position `from` on.
fn duplicate_from(ts: &Vec<Token>, from: usize) -> (r: Vec<Token>)
    requires
        from <= ts@.len(),
    ensures
        vec_view(r) == vec_view(*ts).skip(from as int),
{
    let n = ts.len();
    let mut out: Vec<Token> = Vec::new();
    let mut i = from;
    while i < n
        invariant
            from <= i <= n,
            n == ts@.len(),
            out@.len() == i - from,
            forall|k: int| 0 <= k < out@.len() ==> out@[k]@ == ts@[from + k]@,
        decreases n - i,
    {
        out.push(ts[i].duplicate());
        i += 1;
    }
    proof {
        assert(vec_view(out) =~= vec_view(*ts).skip(from as int));
    }
    out
}

/// Compile a `format_as` invocation: the format token, a comma, then the
/// template.  Returns the format token and the compiled statements.
pub fn format_as(tokens: &Vec<Token>, env: &TemplateEnv, fuel: u32) -> (r: Result<
    (Token, Vec<Stmt>),
    CompileError,
>)
    ensures
        match r {
            Ok((f, s)) => spec_format_as(vec_view(*tokens), env@, fuel as nat) == Ok::<
                _,
                GCompileError,
            >((f@, crate::compile::stmts_view(s))),
            Err(e) => spec_format_as(vec_view(*tokens), env@, fuel as nat) == Err::<
                (GToken, Seq<GStmt>),
                _,
            >(e@),
        },
{
    if tokens.len() == 0 {
        return Err(CompileError::NeedsFormat);
    }
    if tokens.len() < 2 {
        return Err(CompileError::NeedsComma(None));
    }
    if !tokens[1].text_is(",") {
        let found = match &tokens[1] {
            Token::Literal(s) | Token::Atom(s) => s.clone(),
            Token::Group(_, _) => String::new(),
        };
        proof {
            assert(found@ == gtok_text(vec_view(*tokens)[1]));
        }
        return Err(CompileError::NeedsComma(Some(found)));
    }
    let template = duplicate_from(tokens, 2);
    let fmt = tokens[0].duplicate();
    match crate::compile::template_to_statements(&template, &fmt, env, fuel) {
        Ok(s) => Ok((fmt, s)),
        Err(e) => Err(e),
    }
}

/// Compile a `write_as` invocation: the format token, a comma, the writer
/// tokens, a comma, then the template.  Returns the format token, the
/// writer tokens and the compiled statements.
#[verifier::loop_isolation(false)]
pub fn write_as(tokens: &Vec<Token>, env: &TemplateEnv, fuel: u32) -> (r: Result<
    (Token, Vec<Token>, Vec<Stmt>),
    CompileError,
>)
    ensures
        match r {
            Ok((f, w, s)) => spec_write_as(vec_view(*tokens), env@, fuel as nat) == Ok::<
                _,
                GCompileError,
            >((f@, vec_view(w), crate::compile::stmts_view(s))),
            Err(e) => spec_write_as(vec_view(*tokens), env@, fuel as nat) == Err::<
                (GToken, Seq<GToken>, Seq<GStmt>),
                _,
            >(e@),
        },
{
    if tokens.len() == 0 {
        return Err(CompileError::NeedsFormat);
    }
    if tokens.len() < 2 {
        return Err(CompileError::NeedsComma(None));
    }
    if !tokens[1].text_is(",") {
        let found = match &tokens[1] {
            Token::Literal(s) | Token::Atom(s) => s.clone(),
            Token::Group(_, _) => String::new(),
        };
        proof {
            assert(found@ == gtok_text(vec_view(*tokens)[1]));
        }
        return Err(CompileError::NeedsComma(Some(found)));
    }
    let ghost rest = vec_view(*tokens).skip(2);
    let n = tokens.len();
    // Collect the writer: everything up to the next comma.
    let mut i: usize = 2;
    let mut writer: Vec<Token> = Vec::new();
    let mut saw_comma = false;
    while i < n && !saw_comma
        invariant
            2 <= i <= n,
            n == tokens@.len(),
            rest == vec_view(*tokens).skip(2),
            !saw_comma ==> {
                &&& writer@.len() == i - 2
                &&& (forall|k: int| 0 <= k < i - 2 ==> !gtok_text_is(#[trigger] rest[k], ","@))
                &&& (forall|k: int| 0 <= k < writer@.len() ==> writer@[k]@ == rest[k])
            },
            saw_comma ==> {
                &&& i >= 3
                &&& writer@.len() == i - 3
                &&& gtok_text_is(rest[i - 3], ","@)
                &&& (forall|k: int| 0 <= k < i - 3 ==> !gtok_text_is(#[trigger] rest[k], ","@))
                &&& (forall|k: int| 0 <= k < writer@.len() ==> writer@[k]@ == rest[k])
            },
        decreases n - i, 1int - if saw_comma { 1int } else { 0int },
    {
        if tokens[i].text_is(",") {
            saw_comma = true;
        } else {
            writer.push(tokens[i].duplicate());
        }
        i += 1;
    }
    proof {
        if saw_comma {
            lemma_first_comma_skip(rest, i - 3);
            assert(first_comma_at(rest, 0) == Some(i - 3));
            assert(vec_view(writer) =~= rest.take(i - 3));
        } else {
            lemma_first_comma_skip(rest, rest.len() as int);
            assert(first_comma_at(rest, 0) is None);
            assert(vec_view(writer) =~= rest);
        }
    }
    if writer.len() == 0 {
        return Err(CompileError::NeedsWriter);
    }
    let template = duplicate_from(tokens, i);
    proof {
        if saw_comma {
            assert(vec_view(template) =~= rest.skip(i - 3 + 1));
        } else {
            assert(vec_view(template) =~= Seq::<GToken>::empty());
        }
    }
    let fmt = tokens[0].duplicate();
    match crate::compile::template_to_statements(&template, &fmt, env, fuel) {
        Ok(s) => Ok((fmt, writer, s)),
        Err(e) => Err(e),
    }
}

/// Where an implementation attribute's template comes from: the attribute's
/// own tokens, a named file, or a named file read under custom delimiters.
#[derive(Debug, PartialEq, Eq)]
pub enum TemplateSource {
    /// The attribute's tokens are the template.
    Inline,
    /// One string argument: the name of a template file.
    File {
        /// The file's name, quotes stripped.
        name: String,
    },
    /// Three string arguments: the custom left and right delimiters, then
    /// the name of a template file.
    FileDelims {
        /// The custom left delimiter, quotes stripped.
        left: String,
        /// The custom right delimiter, quotes stripped.
        right: String,
        /// The file's name, quotes stripped.
        name: String,
    },
}

/// The mathematical shape of a [`TemplateSource`].
#[verifier::ext_equal]
pub enum GTemplateSource {
    /// The attribute's tokens are the template.
    Inline,
    /// A named template file.
    File {
        /// The file's name.
        name: Seq<char>,
    },
    /// A named template file under custom delimiters.
    FileDelims {
        /// The custom left delimiter.
        left: Seq<char>,
        /// The custom right delimiter.
        right: Seq<char>,
        /// The file's name.
        name: Seq<char>,
    },
}

impl View for TemplateSource {
    type V = GTemplateSource;

    open spec fn view(&self) -> GTemplateSource {
        match self {
            TemplateSource::Inline => GTemplateSource::Inline,
            TemplateSource::File { name } => GTemplateSource::File { name: name@ },
            TemplateSource::FileDelims { left, right, name } => GTemplateSource::FileDelims {
                left: left@,
                right: right@,
                name: name@,
            },
        }
    }
}

/// How an implementation attribute's arguments are read: one token is a file
/// name, three quote-bearing tokens are two delimiters and a file name, and
/// anything else is an inline template.
pub open spec fn spec_template_source(input: Seq<GToken>) -> GTemplateSource {
    if input.len() == 1 {
        GTemplateSource::File { name: strip_quotes(gtok_text(input[0])) }
    } else if input.len() == 3 && gtok_text(input[0]).contains('"') && gtok_text(
        input[1],
    ).contains('"') && gtok_text(input[2]).contains('"') {
        GTemplateSource::FileDelims {
            left: strip_quotes(gtok_text(input[0])),
            right: strip_quotes(gtok_text(input[1])),
            name: strip_quotes(gtok_text(input[2])),
        }
    } else {
        GTemplateSource::Inline
    }
}

/// The text of a literal or atom token (groups have none).
fn token_text(t: &Token) -> (r: String)
    ensures
        r@ == gtok_text(t@),
{
    match t {
        Token::Literal(s) | Token::Atom(s) => s.clone(),
        Token::Group(_, _) => String::new(),
    }
}

/// Whether the token's text holds a quote character.
fn token_has_quote(t: &Token) -> (r: bool)
    ensures
        r == gtok_text(t@).contains('"'),
{
    match t {
        Token::Literal(s) | Token::Atom(s) => crate::token::str_contains_char(s.as_str(), '"'),
        Token::Group(_, _) => {
            proof {
                if gtok_text(t@).contains('"') {
                    let w = choose|w: int|
                        0 <= w < gtok_text(t@).len() && gtok_text(t@)[w] == '"';
                }
            }
            false
        },
    }
}

/// Classify an implementation attribute's arguments as a template source.
pub fn with_template_source(input: &Vec<Token>) -> (r: TemplateSource)
    ensures
        r@ == spec_template_source(vec_view(*input)),
{
    if input.len() == 1 {
        let t = token_text(&input[0]);
        TemplateSource::File { name: crate::compile::strip_quotes_text(t.as_str()) }
    } else if input.len() == 3 && token_has_quote(&input[0]) && token_has_quote(&input[1])
        && token_has_quote(&input[2]) {
        let l = token_text(&input[0]);
        let r0 = token_text(&input[1]);
        let n = token_text(&input[2]);
        TemplateSource::FileDelims {
            left: crate::compile::strip_quotes_text(l.as_str()),
            right: crate::compile::strip_quotes_text(r0.as_str()),
            name: crate::compile::strip_quotes_text(n.as_str()),
        }
    } else {
        TemplateSource::Inline
    }
}

/// The position of the first `DisplayAs <` pair at or after `i`, the place
/// the implemented format is read from.
pub open spec fn find_display_as_at(ts: Seq<GToken>, i: int) -> Option<int>
    decreases ts.len() - i,
{
    if i < 0 || i + 2 >= ts.len() {
        None
    } else if gtok_text_is(ts[i], "DisplayAs"@) && gtok_text_is(ts[i + 1], "<"@) {
        Some(i)
    } else {
        find_display_as_at(ts, i + 1)
    }
}

/// Searching may start after any prefix without the pair.
proof fn lemma_find_display_as_skip(ts: Seq<GToken>, i: int)
    requires
        0 <= i,
        i + 2 <= ts.len() + 2,
        forall|k: int|
            0 <= k < i && k + 2 < ts.len() ==> !(gtok_text_is(#[trigger] ts[k], "DisplayAs"@)
                && gtok_text_is(ts[k + 1], "<"@)),
    ensures
        find_display_as_at(ts, 0) == find_display_as_at(ts, i),
    decreases i,
{
    if i > 0 {
        lemma_find_display_as_skip(ts, i - 1);
    }
}

/// What the implementation attribute reads from the implementation's own
/// tokens: the format token after `DisplayAs <` if the pair occurs, or
/// nothing; an error when the tokens are not an `impl` of at least three
/// tokens ending in an empty brace group.
pub open spec fn spec_with_template_format(ts: Seq<GToken>) -> Result<
    Option<GToken>,
    GCompileError,
> {
    if ts.len() < 3 || !gtok_text_is(ts[0], "impl"@) {
        Err(GCompileError::NotDisplayAsImpl)
    } else if ts.last() != GToken::Group(crate::token::Delim::Brace, Seq::empty()) {
        Err(GCompileError::ImplNotEmpty)
    } else {
        match find_display_as_at(ts, 0) {
            Some(i) => Ok(Some(ts[i + 2])),
            None => Ok(None),
        }
    }
}

/// Whether the token is a brace group with nothing inside.
fn is_empty_brace(t: &Token) -> (r: bool)
    ensures
        r == (t@ == GToken::Group(crate::token::Delim::Brace, Seq::<GToken>::empty())),
{
    broadcast use crate::compile::lemma_vec_view_empty;

    match t {
        Token::Group(d, inner) => {
            let r = match d {
                crate::token::Delim::Brace => inner.len() == 0,
                _ => false,
            };
            proof {
                assert(t@ == GToken::Group(*d, vec_view(*inner)));
                if r {
                    assert(t@ =~= GToken::Group(crate::token::Delim::Brace, Seq::<GToken>::empty()));
                } else {
                    if *d == crate::token::Delim::Brace {
                        assert(vec_view(*inner).len() == inner@.len());
                        assert(t@ != GToken::Group(
                            crate::token::Delim::Brace,
                            Seq::<GToken>::empty(),
                        ));
                    }
                }
            }
            r
        },
        _ => false,
    }
}

/// Read the implemented format from an implementation attribute's target:
/// the token after the first `DisplayAs <`.  The target must be an `impl`
/// ending in an empty brace group.
#[verifier::loop_isolation(false)]
pub fn with_template_format(impl_toks: &Vec<Token>) -> (r: Result<Option<Token>, CompileError>)
    ensures
        match r {
            Ok(Some(f)) => spec_with_template_format(vec_view(*impl_toks)) == Ok::<
                _,
                GCompileError,
            >(Some(f@)),
            Ok(None) => spec_with_template_format(vec_view(*impl_toks)) == Ok::<
                Option<GToken>,
                GCompileError,
            >(None),
            Err(e) => spec_with_template_format(vec_view(*impl_toks)) == Err::<
                Option<GToken>,
                _,
            >(e@),
        },
{
    broadcast use crate::compile::lemma_vec_view_empty;

    let ghost gts = vec_view(*impl_toks);
    let n = impl_toks.len();
    if n < 3 || !impl_toks[0].text_is("impl") {
        return Err(CompileError::NotDisplayAsImpl);
    }
    let empty_last = is_empty_brace(&impl_toks[n - 1]);
    proof {
        assert(gts.last() == gts[n - 1]);
    }
    if !empty_last {
        return Err(CompileError::ImplNotEmpty);
    }
    let mut i: usize = 0;
    while i < n - 2
        invariant
            0 <= i,
            n >= 3,
            i + 2 <= n + 2,
            n == gts.len(),
            forall|k: int|
                0 <= k < i && k + 2 < gts.len() ==> !(gtok_text_is(#[trigger] gts[k], "DisplayAs"@)
                    && gtok_text_is(gts[k + 1], "<"@)),
        decreases n - i,
    {
        if impl_toks[i].text_is("DisplayAs") && impl_toks[i + 1].text_is("<") {
            proof {
                lemma_find_display_as_skip(gts, i as int);
                assert(find_display_as_at(gts, 0) == Some(i as int));
            }
            return Ok(Some(impl_toks[i + 2].duplicate()));
        }
        i += 1;
    }
    proof {
        lemma_find_display_as_skip(gts, i as int);
        assert(find_display_as_at(gts, i as int) is None);
    }
    Ok(None)
}

} // verus!
