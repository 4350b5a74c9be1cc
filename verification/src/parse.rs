//! Parsing template text into raw and expression pieces.
//!
//! A template's text alternates literal runs with expression regions
//! delimited by `{{` and `}}`.  A raw run extends to the next opening
//! delimiter; an expression extends to the next closing one.  Text in which
//! a `{%` region marker stands outside an expression, or an expression never
//! closes, is rejected.

use crate::rust::rust_escaped;
use vstd::prelude::*;

verus! {

/// One piece of a parsed template: literal text or an expression.
#[derive(Debug, PartialEq, Eq, Clone)]
pub enum Template {
    /// Literal text, written through as it stands.
    RawString(String),
    /// An expression region, rendered by the host language.
    Expression(String),
}

/// The mathematical shape of a [`Template`].
#[verifier::ext_equal]
pub enum GTemplate {
    /// Literal text.
    RawString(Seq<char>),
    /// An expression region.
    Expression(Seq<char>),
}

impl View for Template {
    type V = GTemplate;

    open spec fn view(&self) -> GTemplate {
        match self {
            Template::RawString(s) => GTemplate::RawString(s@),
            Template::Expression(s) => GTemplate::Expression(s@),
        }
    }
}

/// The view of a template-piece vector, element by element.
pub open spec fn templates_view(ts: Seq<Template>) -> Seq<GTemplate> {
    Seq::new(ts.len(), |i: int| ts[i]@)
}

/// The first position at or after `i` where an opening marker (`{{` or
/// `{%`) begins.
pub open spec fn find_open(s: Seq<char>, i: int) -> Option<int>
    decreases s.len() - i,
{
    if i < 0 || i >= s.len() {
        None
    } else if s[i] == '{' && i + 1 < s.len() && (s[i + 1] == '{' || s[i + 1] == '%') {
        Some(i)
    } else {
        find_open(s, i + 1)
    }
}

/// The first position at or after `i` where the closing marker `}}` begins.
pub open spec fn find_close(s: Seq<char>, i: int) -> Option<int>
    decreases s.len() - i,
{
    if i < 0 || i >= s.len() {
        None
    } else if s[i] == '}' && i + 1 < s.len() && s[i + 1] == '}' {
        Some(i)
    } else {
        find_close(s, i + 1)
    }
}

/// A found opening marker lies within the text and is one.
proof fn lemma_find_open_bounds(s: Seq<char>, i: int)
    ensures
        match find_open(s, i) {
            Some(j) => i <= j && j + 1 < s.len() && s[j] == '{' && (s[j + 1] == '{' || s[j + 1]
                == '%'),
            None => true,
        },
    decreases s.len() - i,
{
    if 0 <= i < s.len() {
        lemma_find_open_bounds(s, i + 1);
    }
}

/// A found closing marker lies within the text and is one.
proof fn lemma_find_close_bounds(s: Seq<char>, i: int)
    ensures
        match find_close(s, i) {
            Some(j) => i <= j && j + 1 < s.len() && s[j] == '}' && s[j + 1] == '}',
            None => true,
        },
    decreases s.len() - i,
{
    if 0 <= i < s.len() {
        lemma_find_close_bounds(s, i + 1);
    }
}

/// The exact parse of template text: expressions between `{{` and `}}`,
/// raw runs between them; nothing on an unclosed expression or on a region
/// marker that no rule can consume.
pub open spec fn spec_parse_template(s: Seq<char>) -> Option<Seq<GTemplate>>
    decreases s.len(),
    via spec_parse_template_dec
{
    if s.len() == 0 {
        Some(Seq::empty())
    } else if s.len() >= 2 && s[0] == '{' && s[1] == '{' {
        match find_close(s, 2) {
            None => None,
            Some(j) => match spec_parse_template(s.skip(j + 2)) {
                None => None,
                Some(r) => Some(seq![GTemplate::Expression(s.subrange(2, j))] + r),
            },
        }
    } else {
        match find_open(s, 0) {
            None => Some(seq![GTemplate::RawString(s)]),
            Some(k) => {
                if k == 0 {
                    // The text begins with `{%`: the raw rule would consume
                    // nothing, so the parse cannot make progress.
                    None
                } else {
                    match spec_parse_template(s.skip(k)) {
                        None => None,
                        Some(r) => Some(seq![GTemplate::RawString(s.take(k))] + r),
                    }
                }
            },
        }
    }
}

#[via_fn]
proof fn spec_parse_template_dec(s: Seq<char>) {
    lemma_find_close_bounds(s, 2);
    lemma_find_open_bounds(s, 0);
}

/// The first position at or after `from` where an opening marker begins.
#[verifier::loop_isolation(false)]
fn find_open_exec(s: &str, from: usize) -> (r: Option<usize>)
    requires
        from <= s@.len(),
    ensures
        match r {
            Some(k) => from <= k && k + 1 < s@.len() && find_open(s@, from as int) == Some(
                k as int,
            ),
            None => find_open(s@, from as int) is None,
        },
{
    let n = s.unicode_len();
    let mut i = from;
    while i < n
        invariant
            from <= i <= n,
            find_open(s@, from as int) == find_open(s@, i as int),
        decreases n - i,
    {
        if s.get_char(i) == '{' && i + 1 < n {
            let c2 = s.get_char(i + 1);
            if c2 == '{' || c2 == '%' {
                return Some(i);
            }
        }
        i += 1;
    }
    None
}

/// The first position at or after `from` where the closing marker begins.
#[verifier::loop_isolation(false)]
fn find_close_exec(s: &str, from: usize) -> (r: Option<usize>)
    requires
        from <= s@.len(),
    ensures
        match r {
            Some(k) => from <= k && k + 1 < s@.len() && find_close(s@, from as int) == Some(
                k as int,
            ),
            None => find_close(s@, from as int) is None,
        },
{
    let n = s.unicode_len();
    let mut i = from;
    while i < n
        invariant
            from <= i <= n,
            find_close(s@, from as int) == find_close(s@, i as int),
        decreases n - i,
    {
        if s.get_char(i) == '}' && i + 1 < n && s.get_char(i + 1) == '}' {
            return Some(i);
        }
        i += 1;
    }
    None
}

/// Parse template text into raw and expression pieces, exactly as
/// [`spec_parse_template`] states; nothing on malformed text.
#[verifier::loop_isolation(false)]
pub fn parse_template(s: &str) -> (r: Option<Vec<Template>>)
    ensures
        match r {
            Some(v) => spec_parse_template(s@) == Some(templates_view(v@)),
            None => spec_parse_template(s@) is None,
        },
{
    let n = s.unicode_len();
    let mut out: Vec<Template> = Vec::new();
    let mut i: usize = 0;
    proof {
        assert(s@.skip(0) =~= s@);
        assert(templates_view(out@) =~= Seq::<GTemplate>::empty());
    }
    while i < n
        invariant
            i <= n,
            match spec_parse_template(s@.skip(i as int)) {
                Some(rest) => spec_parse_template(s@) == Some(templates_view(out@) + rest),
                None => spec_parse_template(s@) is None,
            },
        decreases n - i,
    {
        let ghost suf = s@.skip(i as int);
        proof {
            assert(suf[0] == s@[i as int]);
            if i + 1 < n {
                assert(suf[1] == s@[i + 1]);
            }
        }
        if s.get_char(i) == '{' && i + 1 < n && s.get_char(i + 1) == '{' {
            // An expression region: find the closing marker.
            match find_close_exec(s, i + 2) {
                None => {
                    proof {
                        lemma_find_close_shift(s@, i as int, i + 2, n as int);
                    }
                    return None;
                },
                Some(j) => {
                    let body = s.substring_char(i + 2, j);
                    proof {
                        lemma_find_close_shift(s@, i as int, i + 2, j as int);
                        assert(body@ =~= suf.subrange(2, j - i));
                        assert(suf.skip(j - i + 2) =~= s@.skip(j + 2));
                    }
                    out.push(Template::Expression(String::from_str(body)));
                    proof {
                        assert(templates_view(out@) =~= templates_view(out@.drop_last()).push(
                            GTemplate::Expression(suf.subrange(2, j - i)),
                        ));
                    }
                    i = j + 2;
                },
            }
        } else {
            // A raw run: up to the next opening marker.
            match find_open_exec(s, i) {
                None => {
                    let body = s.substring_char(i, n);
                    proof {
                        lemma_find_open_shift(s@, i as int, i as int, n as int);
                        assert(body@ =~= suf);
                        assert(!(suf.len() >= 2 && suf[0] == '{' && suf[1] == '{'));
                    }
                    out.push(Template::RawString(String::from_str(body)));
                    proof {
                        assert(s@.skip(n as int) =~= Seq::<char>::empty());
                        assert(templates_view(out@) =~= templates_view(out@.drop_last()).push(
                            GTemplate::RawString(suf),
                        ));
                    }
                    i = n;
                },
                Some(k) => {
                    proof {
                        lemma_find_open_shift(s@, i as int, i as int, k as int);
                        assert(!(suf.len() >= 2 && suf[0] == '{' && suf[1] == '{'));
                    }
                    if k == i {
                        // The text begins with `{%` here: no progress.
                        return None;
                    }
                    let body = s.substring_char(i, k);
                    proof {
                        assert(body@ =~= suf.take(k - i));
                        assert(suf.skip(k - i) =~= s@.skip(k as int));
                    }
                    out.push(Template::RawString(String::from_str(body)));
                    proof {
                        assert(templates_view(out@) =~= templates_view(out@.drop_last()).push(
                            GTemplate::RawString(suf.take(k - i)),
                        ));
                    }
                    i = k;
                },
            }
        }
    }
    proof {
        assert(s@.skip(n as int) =~= Seq::<char>::empty());
        assert(templates_view(out@) + Seq::<GTemplate>::empty() =~= templates_view(out@));
    }
    Some(out)
}

/// A search over the whole text restates as a search over a suffix.
proof fn lemma_find_close_shift(s: Seq<char>, base: int, from: int, upto: int)
    requires
        0 <= base <= from <= s.len(),
    ensures
        match find_close(s, from) {
            Some(j) => find_close(s.skip(base), from - base) == Some(j - base),
            None => find_close(s.skip(base), from - base) is None,
        },
    decreases s.len() - from,
{
    if from < s.len() {
        lemma_find_close_shift(s, base, from + 1, upto);
        assert(s.skip(base)[from - base] == s[from]);
        if from + 1 < s.len() {
            assert(s.skip(base)[from - base + 1] == s[from + 1]);
        }
    }
}

/// A search over the whole text restates as a search over a suffix.
proof fn lemma_find_open_shift(s: Seq<char>, base: int, from: int, upto: int)
    requires
        0 <= base <= from <= s.len(),
    ensures
        match find_open(s, from) {
            Some(j) => find_open(s.skip(base), from - base) == Some(j - base),
            None => find_open(s.skip(base), from - base) is None,
        },
    decreases s.len() - from,
{
    if from < s.len() {
        lemma_find_open_shift(s, base, from + 1, upto);
        assert(s.skip(base)[from - base] == s[from]);
        if from + 1 < s.len() {
            assert(s.skip(base)[from - base + 1] == s[from + 1]);
        }
    }
}

/// The text a parsed template reassembles into: raw runs verbatim, each
/// expression back between its markers.
pub open spec fn reassembled(ts: Seq<GTemplate>) -> Seq<char>
    decreases ts.len(),
{
    if ts.len() == 0 {
        Seq::empty()
    } else {
        (match ts[0] {
            GTemplate::RawString(s) => s,
            GTemplate::Expression(e) => "{{"@ + e + "}}"@,
        }) + reassembled(ts.drop_first())
    }
}

/// Parsing loses nothing: whenever template text parses, the pieces
/// reassemble into exactly the input, raw runs verbatim and each expression
/// back between its markers.
pub proof fn lemma_parse_template_reassemble(s: Seq<char>)
    ensures
        match spec_parse_template(s) {
            Some(v) => reassembled(v) == s,
            None => true,
        },
    decreases s.len(),
{
    reveal_strlit("{{");
    reveal_strlit("}}");
    assert("{{"@ =~= seq!['{', '{']);
    assert("}}"@ =~= seq!['}', '}']);
    if s.len() == 0 {
        if spec_parse_template(s) is Some {
            assert(reassembled(spec_parse_template(s)->0) =~= s);
        }
    } else if s.len() >= 2 && s[0] == '{' && s[1] == '{' {
        lemma_find_close_bounds(s, 2);
        match find_close(s, 2) {
            None => {},
            Some(j) => {
                lemma_parse_template_reassemble(s.skip(j + 2));
                match spec_parse_template(s.skip(j + 2)) {
                    None => {},
                    Some(r) => {
                        let v = seq![GTemplate::Expression(s.subrange(2, j))] + r;
                        assert(spec_parse_template(s) == Some(v));
                        assert(v.drop_first() =~= r);
                        assert(v[0] == GTemplate::Expression(s.subrange(2, j)));
                        assert(reassembled(v) == ("{{"@ + s.subrange(2, j) + "}}"@) + reassembled(
                            r,
                        ));
                        assert(("{{"@ + s.subrange(2, j) + "}}"@) + s.skip(j + 2) =~= s);
                    },
                }
            },
        }
    } else {
        lemma_find_open_bounds(s, 0);
        match find_open(s, 0) {
            None => {
                let v = seq![GTemplate::RawString(s)];
                assert(spec_parse_template(s) == Some(v));
                assert(v.drop_first() =~= Seq::<GTemplate>::empty());
                assert(v[0] == GTemplate::RawString(s));
                assert(reassembled(Seq::<GTemplate>::empty()) == Seq::<char>::empty());
                assert(reassembled(v) == s + reassembled(v.drop_first()));
                assert(reassembled(v) =~= s);
            },
            Some(k) => {
                if k > 0 {
                    lemma_parse_template_reassemble(s.skip(k));
                    match spec_parse_template(s.skip(k)) {
                        None => {},
                        Some(r) => {
                            let v = seq![GTemplate::RawString(s.take(k))] + r;
                            assert(spec_parse_template(s) == Some(v));
                            assert(v.drop_first() =~= r);
                            assert(v[0] == GTemplate::RawString(s.take(k)));
                            assert(reassembled(v) == s.take(k) + reassembled(r));
                            assert(s.take(k) + s.skip(k) =~= s);
                        },
                    }
                }
            },
        }
    }
}

impl Template {
    /// The host-language statement this piece renders as in generated
    /// formatting code: a literal write for raw text, an escaped display
    /// for an expression.
    pub fn rust_code(&self) -> (r: String)
        ensures
            r@ == match self@ {
                GTemplate::RawString(s) => "  f.write_str("@ + rust_escaped(s) + ")?;"@,
                GTemplate::Expression(s) => "  (&("@ + s + ") as &DisplayAs<HTML>).fmt(f)?;"@,
            },
    {
        match self {
            Template::RawString(s) => {
                let mut m = String::from_str("  f.write_str(");
                let d = crate::rust::debug_str(s.as_str());
                m.append(d.as_str());
                m.append(")?;");
                m
            },
            Template::Expression(s) => {
                let mut m = String::from_str("  (&(");
                m.append(s.as_str());
                m.append(") as &DisplayAs<HTML>).fmt(f)?;");
                m
            },
        }
    }
}

/// The generated formatting-closure text of a parsed template: a closure
/// header, one statement line per piece, and a closing success line.
pub open spec fn spec_templates_code(ts: Seq<GTemplate>) -> Seq<char>
    decreases ts.len(),
{
    if ts.len() == 0 {
        Seq::empty()
    } else {
        (match ts[0] {
            GTemplate::RawString(s) => "  f.write_str("@ + rust_escaped(s) + ")?;"@,
            GTemplate::Expression(s) => "  (&("@ + s + ") as &DisplayAs<HTML>).fmt(f)?;"@,
        }) + "\n"@ + spec_templates_code(ts.drop_first())
    }
}

/// The generated formatting-closure text of a parsed template.
#[verifier::loop_isolation(false)]
pub fn templates_code(ts: &Vec<Template>) -> (r: String)
    ensures
        r@ == "|f: &mut ::std::fmt::Formatter| {\n"@ + spec_templates_code(templates_view(ts@))
            + "Ok(()) }\n"@,
{
    let mut out = String::from_str("|f: &mut ::std::fmt::Formatter| {\n");
    let n = ts.len();
    let mut i: usize = 0;
    proof {
        assert(templates_view(ts@).skip(0) =~= templates_view(ts@));
    }
    while i < n
        invariant
            i <= n,
            n == ts@.len(),
            out@ + spec_templates_code(templates_view(ts@).skip(i as int))
                == "|f: &mut ::std::fmt::Formatter| {\n"@ + spec_templates_code(
                templates_view(ts@),
            ),
        decreases n - i,
    {
        let line = ts[i].rust_code();
        out.append(line.as_str());
        out.append("\n");
        proof {
            let gts = templates_view(ts@);
            assert(gts.skip(i as int)[0] == gts[i as int]);
            assert(gts.skip(i as int).drop_first() =~= gts.skip(i + 1));
            assert(gts[i as int] == ts@[i as int]@);
            assert(out@ + spec_templates_code(gts.skip(i + 1))
                =~= "|f: &mut ::std::fmt::Formatter| {\n"@ + spec_templates_code(gts));
        }
        i += 1;
    }
    out.append("Ok(()) }\n");
    proof {
        assert(spec_templates_code(templates_view(ts@).skip(n as int)) == Seq::<char>::empty());
        assert(out@ =~= "|f: &mut ::std::fmt::Formatter| {\n"@ + spec_templates_code(
            templates_view(ts@),
        ) + "Ok(()) }\n"@);
    }
    out
}

} // verus!
