//! The template compiler: a token-stream-to-statement-stream transducer.
//!
//! The compiler walks a template's tokens once, keeping two accumulators: the
//! statements already emitted and the pending tokens of the expression being
//! collected.  A semicolon flushes the pending tokens through untouched; a
//! string literal flushes them as an escaped-output statement and then writes
//! itself verbatim; a brace group is compiled recursively as a nested
//! template, a `let NAME = { ... }` binding becomes a captured sub-template,
//! the arms of a `match` are compiled individually, and the file-splicing
//! macro is resolved against an environment of named, already-tokenized
//! template files.

use crate::token::gtok_is_str;
use crate::token::gtok_text_is;
use crate::token::seq_height;
use crate::token::vec_view;
use crate::token::Delim;
use crate::token::GToken;
use crate::token::Token;
use vstd::prelude::*;

verus! {

/// One compiled statement of a rendered template.
#[derive(Debug, PartialEq, Eq)]
pub enum Stmt {
    /// A host-language token passed through untouched.
    Raw(Token),
    /// Write this literal token's text directly, unescaped, by the literal's
    /// own textual form.
    WriteLit(String),
    /// Evaluate the expression and write its rendering, escaped under the
    /// named format.
    WriteExpr {
        /// The expression's tokens.
        expr: Vec<Token>,
        /// The format the result is escaped under: the ambient format, or
        /// the override named by a trailing `as` cast.
        format: Token,
    },
    /// A nested block of compiled statements.
    Block(Vec<Stmt>),
    /// A sub-template captured as a deferred renderer under the given
    /// format, to be bound to a name.
    Closure {
        /// The format the captured renderer writes in.
        format: Token,
        /// The captured statements.
        body: Vec<Stmt>,
    },
}

/// The mathematical shape of a [`Stmt`].
#[verifier::ext_equal]
pub enum GStmt {
    /// A token passed through untouched.
    Raw(GToken),
    /// Write this literal text directly.
    WriteLit(Seq<char>),
    /// Evaluate an expression and write its escaped rendering.
    WriteExpr {
        /// The expression's tokens.
        expr: Seq<GToken>,
        /// The format in force.
        format: GToken,
    },
    /// A nested block.
    Block(Seq<GStmt>),
    /// A captured sub-template.
    Closure {
        /// The format the captured renderer writes in.
        format: GToken,
        /// The captured statements.
        body: Seq<GStmt>,
    },
}

/// The mathematical value of one statement.
pub open spec fn stmt_view(s: Stmt) -> GStmt
    decreases s,
{
    match s {
        Stmt::Raw(t) => GStmt::Raw(t@),
        Stmt::WriteLit(l) => GStmt::WriteLit(l@),
        Stmt::WriteExpr { expr, format } => GStmt::WriteExpr {
            expr: vec_view(expr),
            format: format@,
        },
        Stmt::Block(b) => GStmt::Block(stmts_view(b)),
        Stmt::Closure { format, body } => GStmt::Closure {
            format: format@,
            body: stmts_view(body),
        },
    }
}

/// The mathematical value of a statement vector, element by element.
pub open spec fn stmts_view(ss: Vec<Stmt>) -> Seq<GStmt>
    decreases ss,
{
    Seq::new(
        ss@.len(),
        |i: int|
            if 0 <= i < ss@.len() {
                stmt_view(ss[i])
            } else {
                GStmt::WriteLit(Seq::empty())
            },
    )
}

impl View for Stmt {
    type V = GStmt;

    open spec fn view(&self) -> GStmt {
        stmt_view(*self)
    }
}

/// A fatal template error, reported at compile time.
#[derive(Debug, PartialEq, Eq)]
pub enum CompileError {
    /// The first macro argument, a format, is missing.
    NeedsFormat,
    /// The comma after the format is missing or another token stands in its
    /// place (carried here by its text).
    NeedsComma(Option<String>),
    /// The writer argument is missing.
    NeedsWriter,
    /// The file-splicing macro got more or fewer than one argument.
    SpliceArity,
    /// The file-splicing macro's argument is not a string literal.
    SpliceNotString,
    /// No template file of this name is known.
    NoSuchTemplate(String),
    /// Template files splice one another too deeply.
    SpliceTooDeep,
    /// The implementation attribute's target is not an `impl` of the
    /// display trait.
    NotDisplayAsImpl,
    /// The implementation attribute's target does not end in an empty
    /// brace group.
    ImplNotEmpty,
}

/// The mathematical shape of a [`CompileError`].
#[verifier::ext_equal]
pub enum GCompileError {
    /// The format argument is missing.
    NeedsFormat,
    /// The comma after the format is missing or wrong.
    NeedsComma(Option<Seq<char>>),
    /// The writer argument is missing.
    NeedsWriter,
    /// The file-splicing macro got more or fewer than one argument.
    SpliceArity,
    /// The file-splicing macro's argument is not a string literal.
    SpliceNotString,
    /// No template file of this name is known.
    NoSuchTemplate(Seq<char>),
    /// Template files splice one another too deeply.
    SpliceTooDeep,
    /// The attribute's target is not an `impl` of the display trait.
    NotDisplayAsImpl,
    /// The attribute's target does not end in an empty brace group.
    ImplNotEmpty,
}

impl View for CompileError {
    type V = GCompileError;

    open spec fn view(&self) -> GCompileError {
        match self {
            CompileError::NeedsFormat => GCompileError::NeedsFormat,
            CompileError::NeedsComma(t) => GCompileError::NeedsComma(
                match t {
                    Some(s) => Some(s@),
                    None => None,
                },
            ),
            CompileError::NeedsWriter => GCompileError::NeedsWriter,
            CompileError::SpliceArity => GCompileError::SpliceArity,
            CompileError::SpliceNotString => GCompileError::SpliceNotString,
            CompileError::NoSuchTemplate(n) => GCompileError::NoSuchTemplate(n@),
            CompileError::SpliceTooDeep => GCompileError::SpliceTooDeep,
            CompileError::NotDisplayAsImpl => GCompileError::NotDisplayAsImpl,
            CompileError::ImplNotEmpty => GCompileError::ImplNotEmpty,
        }
    }
}

impl CompileError {
    /// The human-readable description of this error, naming the violated
    /// expectation.
    pub fn message(&self) -> (r: String)
        ensures
            r@ == match self@ {
                GCompileError::NeedsFormat => "needs a Format as its first argument"@,
                GCompileError::NeedsComma(None) => "needs a Format followed by a comma"@,
                GCompileError::NeedsComma(Some(t)) => "needs a Format followed by a comma, not "@
                    + t,
                GCompileError::NeedsWriter => "needs a Writer as its second argument followed by comma"@,
                GCompileError::SpliceArity => "the file-splicing macro within a template must have one argument, a string literal"@,
                GCompileError::SpliceNotString => "the file-splicing macro's argument must be a string literal"@,
                GCompileError::NoSuchTemplate(n) => "no such template file: "@ + n,
                GCompileError::SpliceTooDeep => "template files splice one another too deeply"@,
                GCompileError::NotDisplayAsImpl => "with_template can only be applied to an impl of DisplayAs"@,
                GCompileError::ImplNotEmpty => "with_template must be applied to an impl that ends in an empty brace group"@,
            },
    {
        match self {
            CompileError::NeedsFormat => String::from_str("needs a Format as its first argument"),
            CompileError::NeedsComma(None) => String::from_str(
                "needs a Format followed by a comma",
            ),
            CompileError::NeedsComma(Some(t)) => {
                let mut m = String::from_str("needs a Format followed by a comma, not ");
                m.append(t.as_str());
                m
            },
            CompileError::NeedsWriter => String::from_str(
                "needs a Writer as its second argument followed by comma",
            ),
            CompileError::SpliceArity => String::from_str(
                "the file-splicing macro within a template must have one argument, a string literal",
            ),
            CompileError::SpliceNotString => String::from_str(
                "the file-splicing macro's argument must be a string literal",
            ),
            CompileError::NoSuchTemplate(n) => {
                let mut m = String::from_str("no such template file: ");
                m.append(n.as_str());
                m
            },
            CompileError::SpliceTooDeep => String::from_str(
                "template files splice one another too deeply",
            ),
            CompileError::NotDisplayAsImpl => String::from_str(
                "with_template can only be applied to an impl of DisplayAs",
            ),
            CompileError::ImplNotEmpty => String::from_str(
                "with_template must be applied to an impl that ends in an empty brace group",
            ),
        }
    }
}

/// One named, already-tokenized template file.
pub struct TemplateFile {
    /// The file's name, as the splicing macro refers to it.
    pub name: String,
    /// The file's wrapped content, tokenized.
    pub tokens: Vec<Token>,
}

/// The mathematical shape of a [`TemplateFile`].
#[verifier::ext_equal]
pub struct GFile {
    /// The file's name.
    pub name: Seq<char>,
    /// The file's tokens.
    pub tokens: Seq<GToken>,
}

impl View for TemplateFile {
    type V = GFile;

    open spec fn view(&self) -> GFile {
        GFile { name: self.name@, tokens: vec_view(self.tokens) }
    }
}

/// The environment of template files a compilation may splice.
pub struct TemplateEnv {
    /// The known files.
    pub files: Vec<TemplateFile>,
}

impl View for TemplateEnv {
    type V = Seq<GFile>;

    open spec fn view(&self) -> Seq<GFile> {
        Seq::new(self.files@.len(), |i: int| self.files@[i]@)
    }
}

/// The tokens of the first environment entry of the given name.
pub open spec fn lookup_file(env: Seq<GFile>, name: Seq<char>) -> Option<Seq<GToken>>
    decreases env.len(),
{
    if env.len() == 0 {
        None
    } else if env[0].name == name {
        Some(env[0].tokens)
    } else {
        lookup_file(env.drop_first(), name)
    }
}

/// The text of a literal or atom token (groups have none).
pub open spec fn gtok_text(t: GToken) -> Seq<char> {
    match t {
        GToken::Literal(s) => s,
        GToken::Atom(s) => s,
        GToken::Group(_, _) => Seq::empty(),
    }
}

/// The text with every quote character removed.
pub open spec fn strip_quotes(s: Seq<char>) -> Seq<char>
    decreases s.len(),
{
    if s.len() == 0 {
        Seq::empty()
    } else if s[0] == '"' {
        strip_quotes(s.drop_first())
    } else {
        seq![s[0]] + strip_quotes(s.drop_first())
    }
}

/// The template keyword that splices another template file.
pub open spec fn splice_keyword() -> Seq<char> {
    seq!['i', 'n', 'c', 'l', 'u', 'd', 'e']
}

/// Whether any of the pending tokens is a bare `=`.
pub open spec fn has_eq(p: Seq<GToken>) -> bool {
    exists|i: int| 0 <= i < p.len() && gtok_text_is(#[trigger] p[i], "="@)
}

/// Flushing the pending tokens as one escaped-output statement: a trailing
/// `as F` overrides the ambient format for this one expression; nothing is
/// emitted when no tokens are pending.
pub open spec fn flush_expr(p: Seq<GToken>, fmt: GToken) -> Seq<GStmt> {
    if p.len() > 2 && gtok_text_is(p[p.len() - 2], "as"@) {
        seq![GStmt::WriteExpr { expr: p.take(p.len() - 2), format: p.last() }]
    } else if p.len() > 0 {
        seq![GStmt::WriteExpr { expr: p, format: fmt }]
    } else {
        Seq::empty()
    }
}

/// Flushing the pending tokens through untouched, one raw statement each.
pub open spec fn flush_raw(p: Seq<GToken>) -> Seq<GStmt> {
    p.map_values(|t: GToken| GStmt::Raw(t))
}

/// Prefix the statements of a compilation result.
pub open spec fn prepend(
    pre: Seq<GStmt>,
    r: Result<Seq<GStmt>, GCompileError>,
) -> Result<Seq<GStmt>, GCompileError> {
    match r {
        Ok(s) => Ok(pre + s),
        Err(e) => Err(e),
    }
}

/// Whether the pending tokens end with the two-token splice marker.
pub open spec fn pending_ends_splice(p: Seq<GToken>) -> bool {
    p.len() >= 2 && gtok_text_is(p[p.len() - 1], "!"@) && gtok_text_is(
        p[p.len() - 2],
        splice_keyword(),
    )
}

/// The exact compilation of a token stream, given the pending tokens so far,
/// the ambient format token, the splice environment and the splice-depth
/// fuel.  This is the reference the executable compiler is proved against.
pub open spec fn spec_compile(
    ts: Seq<GToken>,
    p: Seq<GToken>,
    fmt: GToken,
    env: Seq<GFile>,
    fuel: nat,
) -> Result<Seq<GStmt>, GCompileError>
    decreases fuel, seq_height(ts),
    via spec_compile_dec
{
    if ts.len() == 0 {
        Ok(flush_expr(p, fmt))
    } else {
        let t = ts[0];
        let rest = ts.drop_first();
        match t {
            GToken::Group(d, inner) => {
                if d == Delim::Brace {
                    if p.len() > 2 && !has_eq(p) && gtok_text_is(p[0], "if"@) && gtok_text_is(
                        p[1],
                        "let"@,
                    ) {
                        // An `if let` destructuring pattern: the brace is
                        // part of the pattern, not a template block.
                        spec_compile(rest, p.push(t), fmt, env, fuel)
                    } else if p.len() > 1 && !gtok_text_is(p[p.len() - 1], "="@) && gtok_text_is(
                        p[0],
                        "let"@,
                    ) {
                        // A destructuring `let` without a trailing `=`.
                        spec_compile(rest, p.push(t), fmt, env, fuel)
                    } else if p.len() > 2 && gtok_text_is(p[p.len() - 1], "="@) && gtok_text_is(
                        p[0],
                        "let"@,
                    ) {
                        // `let NAME = { ... }`: capture the brace's interior
                        // as a named sub-template.
                        match spec_compile(inner, Seq::empty(), fmt, env, fuel) {
                            Err(e) => Err(e),
                            Ok(body) => prepend(
                                flush_raw(p).push(GStmt::Closure { format: fmt, body }),
                                spec_compile(rest, Seq::empty(), fmt, env, fuel),
                            ),
                        }
                    } else if p.len() > 0 && gtok_text_is(p[0], "match"@) {
                        // A `match` block: compile only the brace-delimited
                        // arm bodies, passing the rest through.
                        match spec_compile_arms(inner, fmt, env, fuel) {
                            Err(e) => Err(e),
                            Ok(arms) => prepend(
                                flush_raw(p).push(GStmt::Block(arms)),
                                spec_compile(rest, Seq::empty(), fmt, env, fuel),
                            ),
                        }
                    } else {
                        // An ordinary nested block (`if`, `for`, a bare
                        // block): compile the interior as a template.
                        match spec_compile(inner, Seq::empty(), fmt, env, fuel) {
                            Err(e) => Err(e),
                            Ok(body) => prepend(
                                flush_raw(p).push(GStmt::Block(body)),
                                spec_compile(rest, Seq::empty(), fmt, env, fuel),
                            ),
                        }
                    }
                } else if d == Delim::Paren && pending_ends_splice(p) {
                    // The file-splicing macro: one string-literal argument
                    // naming a file of the environment, whose tokens are
                    // compiled and spliced in as a sub-expression closed by
                    // a synthetic semicolon.
                    if inner.len() != 1 {
                        Err(GCompileError::SpliceArity)
                    } else if !gtok_is_str(inner[0]) {
                        Err(GCompileError::SpliceNotString)
                    } else {
                        let name = strip_quotes(gtok_text(inner[0]));
                        match lookup_file(env, name) {
                            None => Err(GCompileError::NoSuchTemplate(name)),
                            Some(toks) => {
                                if fuel == 0 {
                                    Err(GCompileError::SpliceTooDeep)
                                } else {
                                    match spec_compile(
                                        toks,
                                        Seq::empty(),
                                        fmt,
                                        env,
                                        (fuel - 1) as nat,
                                    ) {
                                        Err(e) => Err(e),
                                        Ok(body) => prepend(
                                            flush_raw(p.take(p.len() - 2)) + seq![
                                                GStmt::Block(body),
                                                GStmt::Raw(GToken::Atom(";"@)),
                                                GStmt::Raw(t),
                                            ],
                                            spec_compile(rest, Seq::empty(), fmt, env, fuel),
                                        ),
                                    }
                                }
                            },
                        }
                    }
                } else {
                    // Parenthesis and bracket groups are ordinary expression
                    // tokens.
                    spec_compile(rest, p.push(t), fmt, env, fuel)
                }
            },
            _ => {
                if gtok_text_is(t, ";"@) {
                    // A semicolon: pass the pending tokens and the semicolon
                    // through, preserving host-language statements.
                    prepend(
                        flush_raw(p).push(GStmt::Raw(t)),
                        spec_compile(rest, Seq::empty(), fmt, env, fuel),
                    )
                } else if gtok_is_str(t) {
                    // A string literal: flush the pending expression, then
                    // write the literal directly, unescaped.
                    prepend(
                        flush_expr(p, fmt).push(GStmt::WriteLit(gtok_text(t))),
                        spec_compile(rest, Seq::empty(), fmt, env, fuel),
                    )
                } else {
                    spec_compile(rest, p.push(t), fmt, env, fuel)
                }
            },
        }
    }
}

/// The compilation of a `match` block's interior: each brace-delimited arm
/// body is compiled as a template, everything else passes through.
pub open spec fn spec_compile_arms(
    inner: Seq<GToken>,
    fmt: GToken,
    env: Seq<GFile>,
    fuel: nat,
) -> Result<Seq<GStmt>, GCompileError>
    decreases fuel, seq_height(inner),
    via spec_compile_arms_dec
{
    if inner.len() == 0 {
        Ok(Seq::empty())
    } else {
        let head: Result<Seq<GStmt>, GCompileError> = match inner[0] {
            GToken::Group(Delim::Brace, body) => {
                match spec_compile(body, Seq::empty(), fmt, env, fuel) {
                    Err(e) => Err(e),
                    Ok(st) => Ok(seq![GStmt::Block(st)]),
                }
            },
            _ => Ok(seq![GStmt::Raw(inner[0])]),
        };
        match head {
            Err(e) => Err(e),
            Ok(pre) => prepend(pre, spec_compile_arms(inner.drop_first(), fmt, env, fuel)),
        }
    }
}

/// An empty token vector's value is the empty sequence.
pub broadcast proof fn lemma_vec_view_empty(v: Vec<Token>)
    ensures
        v@.len() == 0 ==> #[trigger] vec_view(v) == Seq::<GToken>::empty(),
{
    if v@.len() == 0 {
        assert(vec_view(v) =~= Seq::<GToken>::empty());
    }
}

/// An empty statement vector's value is the empty sequence.
pub broadcast proof fn lemma_stmts_view_empty(v: Vec<Stmt>)
    ensures
        v@.len() == 0 ==> #[trigger] stmts_view(v) == Seq::<GStmt>::empty(),
{
    if v@.len() == 0 {
        assert(stmts_view(v) =~= Seq::<GStmt>::empty());
    }
}

/// The mathematical value of a compilation result.
pub open spec fn compile_res_view(r: Result<Vec<Stmt>, CompileError>) -> Result<
    Seq<GStmt>,
    GCompileError,
> {
    match r {
        Ok(v) => Ok(stmts_view(v)),
        Err(e) => Err(e@),
    }
}

/// Whether this token's textual form is the file-splicing keyword.
fn is_splice_atom(t: &Token) -> (r: bool)
    ensures
        r == gtok_text_is(t@, splice_keyword()),
{
    match t {
        Token::Literal(s) | Token::Atom(s) => {
            let st = s.as_str();
            let r = st.unicode_len() == 7 && st.get_char(0) == 'i' && st.get_char(1) == 'n'
                && st.get_char(2) == 'c' && st.get_char(3) == 'l' && st.get_char(4) == 'u'
                && st.get_char(5) == 'd' && st.get_char(6) == 'e';
            proof {
                if r {
                    assert(st@ =~= splice_keyword());
                } else if st@ == splice_keyword() {
                    assert(st@.len() == 7 && st@[0] == 'i' && st@[1] == 'n' && st@[2] == 'c'
                        && st@[3] == 'l' && st@[4] == 'u' && st@[5] == 'd' && st@[6] == 'e');
                }
            }
            r
        },
        Token::Group(_, _) => false,
    }
}

/// The text with every quote character removed.
#[verifier::loop_isolation(false)]
pub fn strip_quotes_text(s: &str) -> (r: String)
    ensures
        r@ == strip_quotes(s@),
{
    let n = s.unicode_len();
    let mut out = String::new();
    let mut i: usize = 0;
    proof {
        assert(s@.skip(0) =~= s@);
    }
    while i < n
        invariant
            i <= n,
            out@ + strip_quotes(s@.skip(i as int)) == strip_quotes(s@),
        decreases n - i,
    {
        let c = s.get_char(i);
        proof {
            assert(s@.skip(i as int)[0] == s@[i as int]);
            assert(s@.skip(i as int).drop_first() =~= s@.skip(i + 1));
        }
        if c != '"' {
            out.push(c);
            proof {
                assert(strip_quotes(s@.skip(i as int)) =~= seq![c] + strip_quotes(s@.skip(i + 1)));
                assert(out@ + strip_quotes(s@.skip(i + 1)) =~= strip_quotes(s@));
            }
        }
        i += 1;
    }
    proof {
        assert(strip_quotes(s@.skip(n as int)) =~= Seq::<char>::empty());
        assert(out@ =~= strip_quotes(s@));
    }
    out
}

/// Searching may start after any prefix of differently named files.
proof fn lemma_lookup_skip(env: Seq<GFile>, name: Seq<char>, i: int)
    requires
        0 <= i <= env.len(),
        forall|k: int| 0 <= k < i ==> (#[trigger] env[k]).name != name,
    ensures
        lookup_file(env, name) == lookup_file(env.skip(i), name),
    decreases i,
{
    if i > 0 {
        lemma_lookup_skip(env, name, i - 1);
        assert(env.skip(i - 1)[0] == env[i - 1]);
        assert(env.skip(i - 1).drop_first() =~= env.skip(i));
    } else {
        assert(env.skip(0) =~= env);
    }
}

/// The tokens of the first environment entry of the given name.
#[verifier::loop_isolation(false)]
fn lookup_exec<'a>(env: &'a TemplateEnv, name: &str) -> (r: Option<&'a Vec<Token>>)
    ensures
        match r {
            Some(v) => lookup_file(env@, name@) == Some(vec_view(*v)),
            None => lookup_file(env@, name@) is None,
        },
{
    let n = env.files.len();
    let mut i: usize = 0;
    while i < n
        invariant
            i <= n,
            forall|k: int| 0 <= k < i ==> (#[trigger] env@[k]).name != name@,
        decreases n - i,
    {
        let f = &env.files[i];
        if crate::token::str_eq(f.name.as_str(), name) {
            proof {
                lemma_lookup_skip(env@, name@, i as int);
                assert(env@.skip(i as int)[0] == env@[i as int]);
            }
            return Some(&f.tokens);
        }
        i += 1;
    }
    proof {
        lemma_lookup_skip(env@, name@, n as int);
        assert(env@.skip(n as int).len() == 0);
    }
    None
}

/// Whether any of the pending tokens is a bare `=`.
#[verifier::loop_isolation(false)]
fn has_eq_exec(p: &Vec<Token>) -> (r: bool)
    ensures
        r == has_eq(vec_view(*p)),
{
    let n = p.len();
    let mut i: usize = 0;
    while i < n
        invariant
            i <= n,
            forall|k: int| 0 <= k < i ==> !gtok_text_is(#[trigger] vec_view(*p)[k], "="@),
        decreases n - i,
    {
        if p[i].text_is("=") {
            proof {
                assert(gtok_text_is(vec_view(*p)[i as int], "="@));
            }
            return true;
        }
        i += 1;
    }
    proof {
        if has_eq(vec_view(*p)) {
            let w = choose|w: int|
                0 <= w < vec_view(*p).len() && gtok_text_is(#[trigger] vec_view(*p)[w], "="@);
            assert(!gtok_text_is(vec_view(*p)[w], "="@));
        }
    }
    false
}

/// The pending tokens flushed as one escaped-output statement.
fn flush_expr_exec(p: Vec<Token>, fmt: &Token) -> (r: Vec<Stmt>)
    ensures
        stmts_view(r) == flush_expr(vec_view(p), fmt@),
{
    let ghost gp = vec_view(p);
    let mut p = p;
    let mut out: Vec<Stmt> = Vec::new();
    let plen = p.len();
    if plen > 2 && p[plen - 2].text_is("as") {
        let format = p.pop().unwrap();
        let _ = p.pop();
        proof {
            assert(vec_view(p) =~= gp.take(gp.len() - 2));
            assert(format@ == gp.last());
        }
        out.push(Stmt::WriteExpr { expr: p, format });
        proof {
            assert(stmts_view(out) =~= flush_expr(gp, fmt@));
        }
    } else if plen > 0 {
        out.push(Stmt::WriteExpr { expr: p, format: fmt.duplicate() });
        proof {
            assert(stmts_view(out) =~= flush_expr(gp, fmt@));
        }
    } else {
        proof {
            assert(stmts_view(out) =~= flush_expr(gp, fmt@));
        }
    }
    out
}

/// The pending tokens flushed through untouched, one raw statement each.
#[verifier::loop_isolation(false)]
fn flush_raw_exec(p: Vec<Token>) -> (r: Vec<Stmt>)
    ensures
        stmts_view(r) == flush_raw(vec_view(p)),
{
    let n = p.len();
    let mut i: usize = 0;
    let mut out: Vec<Stmt> = Vec::new();
    while i < n
        invariant
            i <= n,
            n == p@.len(),
            stmts_view(out) == flush_raw(vec_view(p)).take(i as int),
        decreases n - i,
    {
        let t = p[i].duplicate();
        let ghost gt = t@;
        out.push(Stmt::Raw(t));
        proof {
            assert(gt == vec_view(p)[i as int]);
            assert(flush_raw(vec_view(p)).take(i + 1) =~= flush_raw(vec_view(p)).take(
                i as int,
            ).push(GStmt::Raw(vec_view(p)[i as int])));
            assert(stmts_view(out) =~= flush_raw(vec_view(p)).take(i + 1));
        }
        i += 1;
    }
    proof {
        assert(flush_raw(vec_view(p)).take(n as int) =~= flush_raw(vec_view(p)));
    }
    out
}

/// Compile the token stream `ts` from position `i` on, with the given
/// pending tokens, ambient format, splice environment and splice fuel.
#[verifier::loop_isolation(false)]
fn compile_at(
    ts: &Vec<Token>,
    i: usize,
    pending: Vec<Token>,
    fmt: &Token,
    env: &TemplateEnv,
    fuel: u32,
) -> (r: Result<Vec<Stmt>, CompileError>)
    requires
        i <= ts@.len(),
    ensures
        compile_res_view(r) == spec_compile(
            vec_view(*ts).skip(i as int),
            vec_view(pending),
            fmt@,
            env@,
            fuel as nat,
        ),
    decreases fuel, seq_height(vec_view(*ts).skip(i as int)), 2nat,
{
    broadcast use lemma_vec_view_empty, lemma_stmts_view_empty;

    let ghost gts = vec_view(*ts).skip(i as int);
    let ghost gp = vec_view(pending);
    if i == ts.len() {
        let out = flush_expr_exec(pending, fmt);
        proof {
            assert(gts.len() == 0);
        }
        return Ok(out);
    }
    proof {
        assert(gts[0] == vec_view(*ts)[i as int]);
        assert(gts.drop_first() =~= vec_view(*ts).skip(i + 1));
        crate::token::lemma_seq_height_drop_first(gts);
    }
    let t = &ts[i];
    match t {
        Token::Group(d, inner) => {
            proof {
                assert(t@ == GToken::Group(*d, vec_view(*inner)));
            }
            if *d == Delim::Brace {
                compile_brace_at(ts, i, pending, fmt, env, fuel)
            } else {
                compile_nonbrace_at(ts, i, pending, fmt, env, fuel)
            }
        },
        _ => {
            if t.text_is(";") {
                let mut out: Vec<Stmt> = flush_raw_exec(pending);
                out.push(Stmt::Raw(t.duplicate()));
                match compile_at(ts, i + 1, Vec::new(), fmt, env, fuel) {
                    Err(e) => Err(e),
                    Ok(mut rest) => {
                        let ghost grest = stmts_view(rest);
                        out.append(&mut rest);
                        proof {
                            assert(stmts_view(out) =~= flush_raw(gp).push(GStmt::Raw(t@)) + grest);
                        }
                        Ok(out)
                    },
                }
            } else if t.is_str() {
                let lit = match t {
                    Token::Literal(s) => s.clone(),
                    _ => {
                        proof {
                            assert(false);
                        }
                        String::new()
                    },
                };
                proof {
                    assert(lit@ == gtok_text(t@));
                }
                let mut out: Vec<Stmt> = flush_expr_exec(pending, fmt);
                out.push(Stmt::WriteLit(lit));
                match compile_at(ts, i + 1, Vec::new(), fmt, env, fuel) {
                    Err(e) => Err(e),
                    Ok(mut rest) => {
                        let ghost grest = stmts_view(rest);
                        out.append(&mut rest);
                        proof {
                            assert(stmts_view(out) =~= flush_expr(gp, fmt@).push(
                                GStmt::WriteLit(gtok_text(t@)),
                            ) + grest);
                        }
                        Ok(out)
                    },
                }
            } else {
                let mut p2 = pending;
                p2.push(t.duplicate());
                proof {
                    assert(vec_view(p2) =~= gp.push(t@));
                }
                compile_at(ts, i + 1, p2, fmt, env, fuel)
            }
        },
    }
}

/// Compile one brace-group token of the stream: a destructuring pattern, a
/// captured sub-template, a match block, or an ordinary nested block.
#[verifier::rlimit(60)]
fn compile_brace_at(
    ts: &Vec<Token>,
    i: usize,
    pending: Vec<Token>,
    fmt: &Token,
    env: &TemplateEnv,
    fuel: u32,
) -> (r: Result<Vec<Stmt>, CompileError>)
    requires
        i < ts@.len(),
        vec_view(*ts)[i as int] matches GToken::Group(Delim::Brace, _),
    ensures
        compile_res_view(r) == spec_compile(
            vec_view(*ts).skip(i as int),
            vec_view(pending),
            fmt@,
            env@,
            fuel as nat,
        ),
    decreases fuel, seq_height(vec_view(*ts).skip(i as int)), 1nat,
{
    broadcast use lemma_vec_view_empty, lemma_stmts_view_empty;

    let _n = ts.len();
    let ghost gts = vec_view(*ts).skip(i as int);
    let ghost gp = vec_view(pending);
    proof {
        assert(gts[0] == vec_view(*ts)[i as int]);
        assert(gts.drop_first() =~= vec_view(*ts).skip(i + 1));
        crate::token::lemma_seq_height_drop_first(gts);
    }
    let t = &ts[i];
    match t {
        Token::Group(d, inner) => {
            proof {
                assert(t@ == GToken::Group(*d, vec_view(*inner)));
                crate::token::lemma_seq_height_inner(gts, 0, *d, vec_view(*inner));
                assert(vec_view(*inner).skip(0) =~= vec_view(*inner));
            }
            let plen = pending.len();
            let destructuring_if_let = plen > 2 && !has_eq_exec(&pending) && pending[0].text_is(
                "if",
            ) && pending[1].text_is("let");
            let destructuring_let = plen > 1 && !pending[plen - 1].text_is("=")
                && pending[0].text_is("let");
            let capture_let = plen > 2 && pending[plen - 1].text_is("=") && pending[0].text_is(
                "let",
            );
            if destructuring_if_let || (!destructuring_if_let && destructuring_let) {
                // A destructuring pattern: the brace is part of it.
                let mut p2 = pending;
                p2.push(t.duplicate());
                proof {
                    assert(vec_view(p2) =~= gp.push(t@));
                }
                compile_at(ts, i + 1, p2, fmt, env, fuel)
            } else if capture_let {
                // `let NAME = { ... }`: capture a sub-template.
                match compile_at(inner, 0, Vec::new(), fmt, env, fuel) {
                    Err(e) => Err(e),
                    Ok(body) => {
                        let ghost gbody = stmts_view(body);
                        let mut out: Vec<Stmt> = flush_raw_exec(pending);
                        out.push(Stmt::Closure { format: fmt.duplicate(), body });
                        match compile_at(ts, i + 1, Vec::new(), fmt, env, fuel) {
                            Err(e) => Err(e),
                            Ok(mut rest) => {
                                let ghost grest = stmts_view(rest);
                                out.append(&mut rest);
                                proof {
                                    assert(stmts_view(out) =~= flush_raw(gp).push(
                                        GStmt::Closure { format: fmt@, body: gbody },
                                    ) + grest);
                                }
                                Ok(out)
                            },
                        }
                    },
                }
            } else if plen > 0 && pending[0].text_is("match") {
                // A match block: compile the arm bodies only.
                match compile_arms_at(inner, 0, fmt, env, fuel) {
                    Err(e) => Err(e),
                    Ok(arms) => {
                        let ghost garms = stmts_view(arms);
                        let mut out: Vec<Stmt> = flush_raw_exec(pending);
                        out.push(Stmt::Block(arms));
                        match compile_at(ts, i + 1, Vec::new(), fmt, env, fuel) {
                            Err(e) => Err(e),
                            Ok(mut rest) => {
                                let ghost grest = stmts_view(rest);
                                out.append(&mut rest);
                                proof {
                                    assert(stmts_view(out) =~= flush_raw(gp).push(
                                        GStmt::Block(garms),
                                    ) + grest);
                                }
                                Ok(out)
                            },
                        }
                    },
                }
            } else {
                // An ordinary nested block.
                match compile_at(inner, 0, Vec::new(), fmt, env, fuel) {
                    Err(e) => Err(e),
                    Ok(body) => {
                        let ghost gbody = stmts_view(body);
                        let mut out: Vec<Stmt> = flush_raw_exec(pending);
                        out.push(Stmt::Block(body));
                        match compile_at(ts, i + 1, Vec::new(), fmt, env, fuel) {
                            Err(e) => Err(e),
                            Ok(mut rest) => {
                                let ghost grest = stmts_view(rest);
                                out.append(&mut rest);
                                proof {
                                    assert(stmts_view(out) =~= flush_raw(gp).push(
                                        GStmt::Block(gbody),
                                    ) + grest);
                                }
                                Ok(out)
                            },
                        }
                    },
                }
            }
        },
        _ => {
            proof {
                assert(gts[0] == vec_view(*ts)[i as int]);
                assert(t@ == gts[0]);
                assert(t@ is Group);
                assert(false);
            }
            Err(CompileError::SpliceArity)
        },
    }
}

/// Compile one parenthesis or bracket group of the stream: the file-splicing
/// macro when the pending tokens end with its marker, otherwise an ordinary
/// expression token.
#[verifier::rlimit(100)]
fn compile_nonbrace_at(
    ts: &Vec<Token>,
    i: usize,
    pending: Vec<Token>,
    fmt: &Token,
    env: &TemplateEnv,
    fuel: u32,
) -> (r: Result<Vec<Stmt>, CompileError>)
    requires
        i < ts@.len(),
        vec_view(*ts)[i as int] matches GToken::Group(_, _),
        !(vec_view(*ts)[i as int] matches GToken::Group(Delim::Brace, _)),
    ensures
        compile_res_view(r) == spec_compile(
            vec_view(*ts).skip(i as int),
            vec_view(pending),
            fmt@,
            env@,
            fuel as nat,
        ),
    decreases fuel, seq_height(vec_view(*ts).skip(i as int)), 1nat,
{
    broadcast use lemma_vec_view_empty, lemma_stmts_view_empty;

    let _n = ts.len();
    let ghost gts = vec_view(*ts).skip(i as int);
    let ghost gp = vec_view(pending);
    proof {
        assert(gts[0] == vec_view(*ts)[i as int]);
        assert(gts.drop_first() =~= vec_view(*ts).skip(i + 1));
        crate::token::lemma_seq_height_drop_first(gts);
    }
    let t = &ts[i];
    match t {
        Token::Group(d, inner) => {
            proof {
                assert(t@ == GToken::Group(*d, vec_view(*inner)));
                crate::token::lemma_seq_height_inner(gts, 0, *d, vec_view(*inner));
                assert(vec_view(*inner).skip(0) =~= vec_view(*inner));
            }
            let plen = pending.len();
            let splicing = *d == Delim::Paren && plen >= 2 && pending[plen - 1].text_is("!")
                && is_splice_atom(&pending[plen - 2]);
            if splicing {
                proof {
                    assert(pending_ends_splice(gp));
                }
                if inner.len() != 1 {
                    return Err(CompileError::SpliceArity);
                }
                if !inner[0].is_str() {
                    return Err(CompileError::SpliceNotString);
                }
                let name = match &inner[0] {
                    Token::Literal(s) => strip_quotes_text(s.as_str()),
                    _ => {
                        proof {
                            assert(false);
                        }
                        String::new()
                    },
                };
                proof {
                    assert(name@ == strip_quotes(gtok_text(vec_view(*inner)[0])));
                }
                let toks = match lookup_exec(env, name.as_str()) {
                    None => {
                        return Err(CompileError::NoSuchTemplate(name));
                    },
                    Some(toks) => toks,
                };
                proof {
                    assert(vec_view(*toks).skip(0) =~= vec_view(*toks));
                }
                if fuel == 0 {
                    return Err(CompileError::SpliceTooDeep);
                }
                match compile_at(toks, 0, Vec::new(), fmt, env, fuel - 1) {
                    Err(e) => {
                        proof {
                            assert(vec_view(*toks).skip(0) =~= vec_view(*toks));
                        }
                        return Err(e);
                    },
                    Ok(body) => {
                        let ghost gbody = stmts_view(body);
                        let mut p2 = pending;
                        let _ = p2.pop();
                        let _ = p2.pop();
                        proof {
                            assert(vec_view(p2) =~= gp.take(gp.len() - 2));
                        }
                        let mut out: Vec<Stmt> = flush_raw_exec(p2);
                        out.push(Stmt::Block(body));
                        out.push(Stmt::Raw(Token::Atom(String::from_str(";"))));
                        out.push(Stmt::Raw(t.duplicate()));
                        match compile_at(ts, i + 1, Vec::new(), fmt, env, fuel) {
                            Err(e) => Err(e),
                            Ok(mut rest) => {
                                let ghost grest = stmts_view(rest);
                                out.append(&mut rest);
                                proof {
                                    assert(vec_view(*toks).skip(0) =~= vec_view(*toks));
                                    assert(stmts_view(out) =~= flush_raw(gp.take(gp.len() - 2))
                                        + seq![
                                        GStmt::Block(gbody),
                                        GStmt::Raw(GToken::Atom(";"@)),
                                        GStmt::Raw(t@),
                                    ] + grest);
                                }
                                return Ok(out);
                            },
                        }
                    },
                }
            } else {
                proof {
                    assert(!(t@->Group_0 == Delim::Paren && pending_ends_splice(gp)));
                }
                let mut p2 = pending;
                p2.push(t.duplicate());
                proof {
                    assert(vec_view(p2) =~= gp.push(t@));
                }
                return compile_at(ts, i + 1, p2, fmt, env, fuel);
            }
        },
        _ => {
            proof {
                assert(gts[0] == vec_view(*ts)[i as int]);
                assert(t@ == gts[0]);
                assert(t@ is Group);
                assert(false);
            }
            Err(CompileError::SpliceArity)
        },
    }
}

/// Compile a match block's interior from position `j` on: brace-delimited
/// arm bodies become compiled blocks, everything else passes through.
#[verifier::loop_isolation(false)]
fn compile_arms_at(
    inner: &Vec<Token>,
    j: usize,
    fmt: &Token,
    env: &TemplateEnv,
    fuel: u32,
) -> (r: Result<Vec<Stmt>, CompileError>)
    requires
        j <= inner@.len(),
    ensures
        compile_res_view(r) == spec_compile_arms(
            vec_view(*inner).skip(j as int),
            fmt@,
            env@,
            fuel as nat,
        ),
    decreases fuel, seq_height(vec_view(*inner).skip(j as int)), 2nat,
{
    broadcast use lemma_vec_view_empty, lemma_stmts_view_empty;

    let ghost gin = vec_view(*inner).skip(j as int);
    if j == inner.len() {
        proof {
            assert(gin.len() == 0);
        }
        return Ok(Vec::new());
    }
    proof {
        assert(gin[0] == vec_view(*inner)[j as int]);
        assert(gin.drop_first() =~= vec_view(*inner).skip(j + 1));
        crate::token::lemma_seq_height_drop_first(gin);
    }
    let t = &inner[j];
    let head: Stmt = match t {
        Token::Group(Delim::Brace, body) => {
            proof {
                assert(t@ == GToken::Group(Delim::Brace, vec_view(*body)));
                crate::token::lemma_seq_height_inner(gin, 0, Delim::Brace, vec_view(*body));
                assert(vec_view(*body).skip(0) =~= vec_view(*body));
            }
            match compile_at(body, 0, Vec::new(), fmt, env, fuel) {
                Err(e) => {
                    proof {
                        assert(vec_view(*body).skip(0) =~= vec_view(*body));
                    }
                    return Err(e);
                },
                Ok(st) => {
                    proof {
                        assert(vec_view(*body).skip(0) =~= vec_view(*body));
                    }
                    Stmt::Block(st)
                },
            }
        },
        _ => Stmt::Raw(t.duplicate()),
    };
    let ghost ghead = head@;
    match compile_arms_at(inner, j + 1, fmt, env, fuel) {
        Err(e) => Err(e),
        Ok(rest) => {
            let ghost grest = stmts_view(rest);
            let mut out: Vec<Stmt> = Vec::new();
            out.push(head);
            let mut rest = rest;
            out.append(&mut rest);
            proof {
                assert(stmts_view(out) =~= seq![ghead] + grest);
            }
            Ok(out)
        },
    }
}

/// Compile a whole template: the token stream becomes the statement list
/// that renders it, exactly as [`spec_compile`] states, with an empty
/// pending accumulator and the given splice-depth allowance.
pub fn template_to_statements(
    template: &Vec<Token>,
    fmt: &Token,
    env: &TemplateEnv,
    fuel: u32,
) -> (r: Result<Vec<Stmt>, CompileError>)
    ensures
        compile_res_view(r) == spec_compile(
            vec_view(*template),
            Seq::empty(),
            fmt@,
            env@,
            fuel as nat,
        ),
{
    broadcast use lemma_vec_view_empty;

    let r = compile_at(template, 0, Vec::new(), fmt, env, fuel);
    proof {
        assert(vec_view(*template).skip(0) =~= vec_view(*template));
    }
    r
}

#[via_fn]
proof fn spec_compile_dec(ts: Seq<GToken>, p: Seq<GToken>, fmt: GToken, env: Seq<GFile>, fuel: nat) {
    if ts.len() > 0 {
        crate::token::lemma_seq_height_drop_first(ts);
        match ts[0] {
            GToken::Group(d, inner) => {
                crate::token::lemma_seq_height_inner(ts, 0, d, inner);
            },
            _ => {},
        }
    }
}

#[via_fn]
proof fn spec_compile_arms_dec(inner: Seq<GToken>, fmt: GToken, env: Seq<GFile>, fuel: nat) {
    if inner.len() > 0 {
        crate::token::lemma_seq_height_drop_first(inner);
        match inner[0] {
            GToken::Group(d, body) => {
                crate::token::lemma_seq_height_inner(inner, 0, d, body);
            },
            _ => {},
        }
    }
}

} // verus!
