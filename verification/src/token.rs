//! The token model of the template language.
//!
//! A template is a sequence of host-language tokens: literal constants,
//! delimited groups owning their interior tokens, and atoms (identifiers,
//! operators, punctuation).  The compiler never looks inside an expression;
//! it only classifies tokens, so this sum type carries each token's textual
//! form and, for groups, the interior token sequence.

use vstd::prelude::*;

verus! {

broadcast use vstd::std_specs::vec::axiom_vec_index_decreases;

/// The delimiter kind of a group token.
#[derive(Clone, Copy, PartialEq, Eq, Structural, Debug)]
pub enum Delim {
    /// A `{ ... }` group.
    Brace,
    /// A `( ... )` group.
    Paren,
    /// A `[ ... ]` group.
    Bracket,
}

/// One lexical token of a template stream.
#[derive(Debug, PartialEq, Eq)]
pub enum Token {
    /// A literal constant (string, number, character, ...), by its textual
    /// form exactly as written, with quotes and prefixes.
    Literal(String),
    /// A delimited group owning its interior tokens.
    Group(Delim, Vec<Token>),
    /// Any other atomic token (identifier, operator, punctuation), by its
    /// textual form.
    Atom(String),
}

/// The mathematical shape of a [`Token`]: the same structure over `Seq`.
#[verifier::ext_equal]
pub enum GToken {
    /// A literal constant, as a character sequence.
    Literal(Seq<char>),
    /// A delimited group and its interior.
    Group(Delim, Seq<GToken>),
    /// Any other atomic token, as a character sequence.
    Atom(Seq<char>),
}

/// The mathematical value of one token.
pub open spec fn token_view(t: Token) -> GToken
    decreases t,
{
    match t {
        Token::Literal(s) => GToken::Literal(s@),
        Token::Group(d, ts) => GToken::Group(d, vec_view(ts)),
        Token::Atom(s) => GToken::Atom(s@),
    }
}

/// The mathematical value of a token vector, element by element.
pub open spec fn vec_view(ts: Vec<Token>) -> Seq<GToken>
    decreases ts,
{
    Seq::new(
        ts@.len(),
        |i: int|
            if 0 <= i < ts@.len() {
                token_view(ts[i])
            } else {
                GToken::Atom(Seq::empty())
            },
    )
}

impl View for Token {
    type V = GToken;

    open spec fn view(&self) -> GToken {
        token_view(*self)
    }
}

/// The height of a token tree, used as a termination measure: a group is
/// taller than its interior, and every token has height at least one.
pub open spec fn tok_height(t: GToken) -> nat
    decreases t,
{
    match t {
        GToken::Group(_, ts) => 1 + seq_height(ts),
        _ => 1,
    }
}

/// The summed height of a token sequence.
pub open spec fn seq_height(ts: Seq<GToken>) -> nat
    decreases ts,
{
    if ts.len() == 0 {
        0
    } else {
        tok_height(ts[0]) + seq_height(ts.drop_first())
    }
}

/// Dropping the first token strictly shrinks a nonempty sequence's height.
pub proof fn lemma_seq_height_drop_first(ts: Seq<GToken>)
    requires
        ts.len() > 0,
    ensures
        seq_height(ts.drop_first()) < seq_height(ts),
{
    assert(tok_height(ts[0]) >= 1) by {
        match ts[0] {
            GToken::Group(_, inner) => {}
            _ => {}
        }
    }
}

/// A group's interior is strictly lower than the sequence holding the group.
pub proof fn lemma_seq_height_inner(ts: Seq<GToken>, i: int, d: Delim, inner: Seq<GToken>)
    requires
        0 <= i < ts.len(),
        ts[i] == GToken::Group(d, inner),
    ensures
        seq_height(inner) < seq_height(ts),
    decreases i,
{
    if i == 0 {
        assert(seq_height(ts) == tok_height(ts[0]) + seq_height(ts.drop_first()));
        assert(tok_height(ts[0]) == 1 + seq_height(inner));
    } else {
        lemma_seq_height_inner(ts.drop_first(), i - 1, d, inner);
        assert(ts.drop_first()[i - 1] == ts[i]);
        assert(tok_height(ts[0]) >= 1);
    }
}

/// An element's height is at most the height of the sequence holding it.
pub proof fn lemma_elem_height_le(ts: Seq<GToken>, i: int)
    requires
        0 <= i < ts.len(),
    ensures
        tok_height(ts[i]) <= seq_height(ts),
    decreases i,
{
    if i == 0 {
    } else {
        lemma_elem_height_le(ts.drop_first(), i - 1);
        assert(ts.drop_first()[i - 1] == ts[i]);
    }
}

/// Whether this token's textual form equals the given keyword text.  Group
/// tokens render with their delimiters, so they never equal a keyword.
pub open spec fn gtok_text_is(t: GToken, kw: Seq<char>) -> bool {
    match t {
        GToken::Literal(s) => s == kw,
        GToken::Atom(s) => s == kw,
        GToken::Group(_, _) => false,
    }
}

/// Whether this token is a string literal: a literal whose text contains a
/// quote character and does not begin with the byte-string marker `b`.
pub open spec fn gtok_is_str(t: GToken) -> bool {
    match t {
        GToken::Literal(s) => s.len() > 0 && s.contains('"') && s[0] != 'b',
        _ => false,
    }
}

/// Character-sequence equality of two string slices.
pub fn str_eq(a: &str, b: &str) -> (r: bool)
    ensures
        r == (a@ == b@),
{
    let an = a.unicode_len();
    let bn = b.unicode_len();
    if an != bn {
        proof {
            assert(a@ != b@) by {
                if a@ == b@ {
                    assert(a@.len() == b@.len());
                }
            }
        }
        return false;
    }
    let mut i: usize = 0;
    while i < an
        invariant
            i <= an,
            an == a@.len(),
            an == b@.len(),
            forall|j: int| 0 <= j < i ==> a@[j] == b@[j],
        decreases an - i,
    {
        if a.get_char(i) != b.get_char(i) {
            proof {
                assert(a@[i as int] != b@[i as int]);
            }
            return false;
        }
        i += 1;
    }
    proof {
        assert(a@ =~= b@);
    }
    true
}

/// Whether the string contains the given character.
pub fn str_contains_char(s: &str, c: char) -> (r: bool)
    ensures
        r == s@.contains(c),
{
    let n = s.unicode_len();
    let mut i: usize = 0;
    while i < n
        invariant
            i <= n,
            n == s@.len(),
            forall|j: int| 0 <= j < i ==> s@[j] != c,
        decreases n - i,
    {
        if s.get_char(i) == c {
            return true;
        }
        i += 1;
    }
    proof {
        if s@.contains(c) {
            let w = choose|w: int| 0 <= w < s@.len() && s@[w] == c;
            assert(s@[w] != c);
        }
    }
    false
}

impl Token {
    /// Whether this token's textual form equals the given keyword text.
    pub fn text_is(&self, kw: &str) -> (r: bool)
        ensures
            r == gtok_text_is(self@, kw@),
    {
        match self {
            Token::Literal(s) => str_eq(s.as_str(), kw),
            Token::Atom(s) => str_eq(s.as_str(), kw),
            Token::Group(_, _) => false,
        }
    }

    /// Whether this token is a string literal (a literal containing a quote
    /// and not beginning with `b`), the classifier that decides which tokens
    /// render as direct literal output.
    pub fn is_str(&self) -> (r: bool)
        ensures
            r == gtok_is_str(self@),
    {
        match self {
            Token::Literal(s) => {
                let st = s.as_str();
                st.unicode_len() > 0 && str_contains_char(st, '"') && st.get_char(0) != 'b'
            }
            _ => false,
        }
    }

    /// A deep copy whose mathematical value equals this token's.
    pub fn duplicate(&self) -> (r: Token)
        ensures
            r@ == self@,
        decreases tok_height(token_view(*self)), 0nat,
    {
        match self {
            Token::Literal(s) => Token::Literal(s.clone()),
            Token::Atom(s) => Token::Atom(s.clone()),
            Token::Group(d, ts) => {
                let inner = duplicate_tokens(ts);
                Token::Group(*d, inner)
            }
        }
    }
}

/// A deep copy of a token vector, value preserved element by element.
pub fn duplicate_tokens(ts: &Vec<Token>) -> (r: Vec<Token>)
    ensures
        vec_view(r) == vec_view(*ts),
    decreases seq_height(vec_view(*ts)), 1nat,
{
    let mut out: Vec<Token> = Vec::new();
    let n = ts.len();
    let mut i: usize = 0;
    while i < n
        invariant
            i <= n,
            n == ts@.len(),
            out@.len() == i,
            forall|j: int| 0 <= j < i ==> out@[j]@ == ts@[j]@,
        decreases n - i,
    {
        proof {
            lemma_elem_height_le(vec_view(*ts), i as int);
        }
        out.push(ts[i].duplicate());
        i += 1;
    }
    proof {
        assert(vec_view(out) =~= vec_view(*ts));
    }
    out
}

} // verus!
