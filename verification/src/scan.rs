//! Scanning host source text for template-binding declarations.
//!
//! Build-time template compilation reads source files and collects every
//! declaration of the form `display_as_template!(FORMAT; IMPL { } ; "FILE");`
//! preceded by whitespace: the format up to the first semicolon, the
//! implementation header closed by an empty brace pair, and the quoted name
//! of the generated code file.  The scan is leftmost-first and resumes after
//! each complete declaration.

use vstd::prelude::*;

verus! {

/// One template-binding rule read from a source file: the implementation
/// header to emit, the format it renders in, and the name of the generated
/// code file.
#[derive(Debug, PartialEq, Eq, Clone)]
pub struct Rule {
    /// The implementation header text.
    pub impl_text: String,
    /// The format name.
    pub format: String,
    /// The name of the generated code file.
    pub template_name: String,
}

/// The mathematical shape of a [`Rule`].
#[verifier::ext_equal]
pub struct GRule {
    /// The implementation header text.
    pub impl_text: Seq<char>,
    /// The format name.
    pub format: Seq<char>,
    /// The name of the generated code file.
    pub template_name: Seq<char>,
}

impl View for Rule {
    type V = GRule;

    open spec fn view(&self) -> GRule {
        GRule {
            impl_text: self.impl_text@,
            format: self.format@,
            template_name: self.template_name@,
        }
    }
}

/// The view of a rule vector, element by element.
pub open spec fn rules_view(rs: Seq<Rule>) -> Seq<GRule> {
    Seq::new(rs.len(), |i: int| rs[i]@)
}

impl Rule {
    /// The first generated line of this rule's output: the implementation
    /// header, opened.
    pub fn rust_code(&self) -> (r: String)
        ensures
            r@ == self.impl_text@ + " {"@,
    {
        let mut m = self.impl_text.clone();
        m.append(" {");
        m
    }
}

/// The marker text that begins a template-binding declaration.
pub open spec fn marker() -> Seq<char> {
    "display_as_template!("@
}

/// The whitespace characters of host source.
pub open spec fn is_space(c: char) -> bool {
    c == ' ' || c == '\t' || c == '\n' || c == '\u{c}' || c == '\r'
}

/// Whether a declaration marker, preceded by whitespace, begins at `p`.
pub open spec fn marker_at(s: Seq<char>, p: int) -> bool {
    p >= 1 && p + marker().len() <= s.len() && s.subrange(p, p + marker().len()) == marker()
        && is_space(s[p - 1])
}

/// The first position at or after `i`, below `hi`, holding character `c`.
pub open spec fn first_char_in(s: Seq<char>, i: int, hi: int, c: char) -> Option<int>
    decreases hi - i,
{
    if i < 0 || i >= hi || hi > s.len() {
        None
    } else if s[i] == c {
        Some(i)
    } else {
        first_char_in(s, i + 1, hi, c)
    }
}

/// The first position at or after `i`, below `hi`, holding a non-space.
pub open spec fn first_nonspace_in(s: Seq<char>, i: int, hi: int) -> Option<int>
    decreases hi - i,
{
    if i < 0 || i >= hi || hi > s.len() {
        None
    } else if !is_space(s[i]) {
        Some(i)
    } else {
        first_nonspace_in(s, i + 1, hi)
    }
}

/// The last position in `[lo, hi)` holding character `c`.
pub open spec fn last_char_in(s: Seq<char>, lo: int, hi: int, c: char) -> Option<int>
    decreases hi - lo,
{
    if lo < 0 || hi <= lo || hi > s.len() {
        None
    } else if s[hi - 1] == c {
        Some(hi - 1)
    } else {
        last_char_in(s, lo, hi - 1, c)
    }
}

/// Whether every character in `[lo, hi)` is whitespace.
pub open spec fn all_space_in(s: Seq<char>, lo: int, hi: int) -> bool {
    forall|j: int| lo <= j < hi ==> is_space(#[trigger] s[j])
}

/// The declaration read at marker position `p`, with the position after its
/// closing semicolon; nothing when the text after the marker is not a
/// well-formed declaration.
pub open spec fn rule_at(s: Seq<char>, p: int) -> Option<(GRule, int)> {
    let q0 = p + marker().len();
    match first_char_in(s, q0, s.len() as int, ';') {
        None => None,
        Some(a) => if a == q0 {
            None
        } else {
            match first_char_in(s, a + 1, s.len() as int, ';') {
                None => None,
                Some(d) => match last_char_in(s, a + 1, d, '{') {
                    None => None,
                    Some(u) => if u == a + 1 {
                        None
                    } else {
                        match first_nonspace_in(s, u + 1, d) {
                            None => None,
                            Some(v) => if s[v] != '}' || !all_space_in(s, v + 1, d) {
                                None
                            } else {
                                match first_nonspace_in(s, d + 1, s.len() as int) {
                                    None => None,
                                    Some(e0) => if s[e0] != '"' {
                                        None
                                    } else {
                                        match first_char_in(s, e0 + 1, s.len() as int, ')') {
                                            None => None,
                                            Some(w) => match last_char_in(s, e0 + 1, w, '"') {
                                                None => None,
                                                Some(q) => if q == e0 + 1 || !all_space_in(
                                                    s,
                                                    q + 1,
                                                    w,
                                                ) || w + 1 >= s.len() || s[w + 1] != ';' {
                                                    None
                                                } else {
                                                    Some(
                                                        (
                                                            GRule {
                                                                impl_text: s.subrange(a + 1, u),
                                                                format: s.subrange(q0, a),
                                                                template_name: s.subrange(
                                                                    e0 + 1,
                                                                    q,
                                                                ),
                                                            },
                                                            w + 2,
                                                        ),
                                                    )
                                                },
                                            },
                                        }
                                    },
                                }
                            },
                        }
                    },
                },
            }
        },
    }
}

/// A found character lies within the asked-for range.
proof fn lemma_first_char_bounds(s: Seq<char>, i: int, hi: int, c: char)
    ensures
        match first_char_in(s, i, hi, c) {
            Some(j) => i <= j < hi <= s.len() && s[j] == c,
            None => true,
        },
    decreases hi - i,
{
    if 0 <= i < hi <= s.len() {
        lemma_first_char_bounds(s, i + 1, hi, c);
    }
}

/// A found non-space lies within the asked-for range.
proof fn lemma_first_nonspace_bounds(s: Seq<char>, i: int, hi: int)
    ensures
        match first_nonspace_in(s, i, hi) {
            Some(j) => i <= j < hi <= s.len() && !is_space(s[j]),
            None => true,
        },
    decreases hi - i,
{
    if 0 <= i < hi <= s.len() {
        lemma_first_nonspace_bounds(s, i + 1, hi);
    }
}

/// The declarations of the text from position `p` on, leftmost first,
/// resuming after each complete declaration.
pub open spec fn scan_rules(s: Seq<char>, p: int) -> Seq<GRule>
    decreases s.len() - p,
    via scan_rules_dec
{
    if p < 0 || p >= s.len() {
        Seq::empty()
    } else if marker_at(s, p) {
        match rule_at(s, p) {
            Some((r, np)) => seq![r] + scan_rules(s, np),
            None => scan_rules(s, p + 1),
        }
    } else {
        scan_rules(s, p + 1)
    }
}

/// A complete declaration ends after its marker and within the text.
proof fn lemma_rule_at_bounds(s: Seq<char>, p: int)
    ensures
        match rule_at(s, p) {
            Some((r, np)) => p + marker().len() < np <= s.len(),
            None => true,
        },
{
    let q0 = p + marker().len();
    lemma_first_char_bounds(s, q0, s.len() as int, ';');
    if let Some(a) = first_char_in(s, q0, s.len() as int, ';') {
        lemma_first_char_bounds(s, a + 1, s.len() as int, ';');
        if let Some(d) = first_char_in(s, a + 1, s.len() as int, ';') {
            lemma_first_nonspace_bounds(s, d + 1, s.len() as int);
            if let Some(e0) = first_nonspace_in(s, d + 1, s.len() as int) {
                lemma_first_char_bounds(s, e0 + 1, s.len() as int, ')');
            }
        }
    }
}


/// Searching may start after any stretch free of the character.
proof fn lemma_first_char_skip(s: Seq<char>, i0: int, i: int, hi: int, c: char)
    requires
        0 <= i0 <= i <= hi <= s.len(),
        forall|k: int| i0 <= k < i ==> s[k] != c,
    ensures
        first_char_in(s, i0, hi, c) == first_char_in(s, i, hi, c),
    decreases i - i0,
{
    if i > i0 {
        lemma_first_char_skip(s, i0 + 1, i, hi, c);
    }
}

/// Searching may start after any whitespace stretch.
proof fn lemma_first_nonspace_skip(s: Seq<char>, i0: int, i: int, hi: int)
    requires
        0 <= i0 <= i <= hi <= s.len(),
        forall|k: int| i0 <= k < i ==> is_space(#[trigger] s[k]),
    ensures
        first_nonspace_in(s, i0, hi) == first_nonspace_in(s, i, hi),
    decreases i - i0,
{
    if i > i0 {
        lemma_first_nonspace_skip(s, i0 + 1, i, hi);
        assert(is_space(s[i0]));
    }
}

/// A backward search may start below any stretch free of the character.
proof fn lemma_last_char_skip(s: Seq<char>, lo: int, h2: int, hi: int, c: char)
    requires
        0 <= lo,
        lo <= h2 <= hi <= s.len(),
        forall|k: int| h2 <= k < hi ==> s[k] != c,
    ensures
        last_char_in(s, lo, hi, c) == last_char_in(s, lo, h2, c),
    decreases hi - h2,
{
    if hi > h2 {
        lemma_last_char_skip(s, lo, h2, hi - 1, c);
    }
}

/// Whether the character is host-source whitespace.
fn is_space_exec(c: char) -> (r: bool)
    ensures
        r == is_space(c),
{
    c == ' ' || c == '\t' || c == '\n' || c == '\u{c}' || c == '\r'
}

/// The first position at or after `i`, below `hi`, holding character `c`.
#[verifier::loop_isolation(false)]
fn find_char_in(s: &str, i: usize, hi: usize, c: char) -> (r: Option<usize>)
    requires
        i <= hi <= s@.len(),
    ensures
        match r {
            Some(j) => first_char_in(s@, i as int, hi as int, c) == Some(j as int) && i <= j < hi,
            None => first_char_in(s@, i as int, hi as int, c) is None,
        },
{
    let mut j = i;
    while j < hi
        invariant
            i <= j <= hi,
            forall|k: int| i <= k < j ==> s@[k] != c,
        decreases hi - j,
    {
        if s.get_char(j) == c {
            proof {
                lemma_first_char_skip(s@, i as int, j as int, hi as int, c);
            }
            return Some(j);
        }
        j += 1;
    }
    proof {
        lemma_first_char_skip(s@, i as int, hi as int, hi as int, c);
    }
    None
}

/// The first position at or after `i`, below `hi`, holding a non-space.
#[verifier::loop_isolation(false)]
fn find_nonspace_in(s: &str, i: usize, hi: usize) -> (r: Option<usize>)
    requires
        i <= hi <= s@.len(),
    ensures
        match r {
            Some(j) => first_nonspace_in(s@, i as int, hi as int) == Some(j as int) && i <= j < hi,
            None => first_nonspace_in(s@, i as int, hi as int) is None,
        },
{
    let mut j = i;
    while j < hi
        invariant
            i <= j <= hi,
            forall|k: int| i <= k < j ==> is_space(#[trigger] s@[k]),
        decreases hi - j,
    {
        if !is_space_exec(s.get_char(j)) {
            proof {
                lemma_first_nonspace_skip(s@, i as int, j as int, hi as int);
            }
            return Some(j);
        }
        j += 1;
    }
    proof {
        lemma_first_nonspace_skip(s@, i as int, hi as int, hi as int);
    }
    None
}

/// The last position in `[lo, hi)` holding character `c`.
#[verifier::loop_isolation(false)]
fn rfind_char_in(s: &str, lo: usize, hi: usize, c: char) -> (r: Option<usize>)
    requires
        lo <= hi <= s@.len(),
    ensures
        match r {
            Some(j) => last_char_in(s@, lo as int, hi as int, c) == Some(j as int) && lo <= j < hi,
            None => last_char_in(s@, lo as int, hi as int, c) is None,
        },
{
    let mut j = hi;
    while j > lo
        invariant
            lo <= j <= hi,
            forall|k: int| j <= k < hi ==> s@[k] != c,
        decreases j,
    {
        if s.get_char(j - 1) == c {
            proof {
                lemma_last_char_skip(s@, lo as int, j as int, hi as int, c);
            }
            return Some(j - 1);
        }
        j -= 1;
    }
    proof {
        lemma_last_char_skip(s@, lo as int, lo as int, hi as int, c);
    }
    None
}

/// Whether every character in `[lo, hi)` is whitespace.
#[verifier::loop_isolation(false)]
fn all_space_exec(s: &str, lo: usize, hi: usize) -> (r: bool)
    requires
        lo <= hi <= s@.len(),
    ensures
        r == all_space_in(s@, lo as int, hi as int),
{
    let mut j = lo;
    while j < hi
        invariant
            lo <= j <= hi,
            forall|k: int| lo <= k < j ==> is_space(#[trigger] s@[k]),
        decreases hi - j,
    {
        if !is_space_exec(s.get_char(j)) {
            proof {
                assert(!is_space(s@[j as int]));
            }
            return false;
        }
        j += 1;
    }
    true
}

/// Read the declaration at marker position `p`, with the position after its
/// closing semicolon.
fn try_rule_at(s: &str, p: usize) -> (r: Option<(Rule, usize)>)
    requires
        p + marker().len() <= s@.len(),
    ensures
        match r {
            Some((rule, np)) => rule_at(s@, p as int) == Some((rule@, np as int)) && p < np
                <= s@.len(),
            None => rule_at(s@, p as int) is None,
        },
{
    let n = s.unicode_len();
    proof {
        reveal_strlit("display_as_template!(");
    }
    let q0 = p + 21;
    let a = match find_char_in(s, q0, n, ';') {
        None => {
            return None;
        },
        Some(a) => a,
    };
    if a == q0 {
        return None;
    }
    let d = match find_char_in(s, a + 1, n, ';') {
        None => {
            return None;
        },
        Some(d) => d,
    };
    let u = match rfind_char_in(s, a + 1, d, '{') {
        None => {
            return None;
        },
        Some(u) => u,
    };
    if u == a + 1 {
        return None;
    }
    let v = match find_nonspace_in(s, u + 1, d) {
        None => {
            return None;
        },
        Some(v) => v,
    };
    if s.get_char(v) != '}' || !all_space_exec(s, v + 1, d) {
        return None;
    }
    let e0 = match find_nonspace_in(s, d + 1, n) {
        None => {
            return None;
        },
        Some(e0) => e0,
    };
    if s.get_char(e0) != '"' {
        return None;
    }
    let w = match find_char_in(s, e0 + 1, n, ')') {
        None => {
            return None;
        },
        Some(w) => w,
    };
    let q = match rfind_char_in(s, e0 + 1, w, '"') {
        None => {
            return None;
        },
        Some(q) => q,
    };
    if q == e0 + 1 || !all_space_exec(s, q + 1, w) || w + 1 >= n || s.get_char(w + 1) != ';' {
        return None;
    }
    let rule = Rule {
        impl_text: String::from_str(s.substring_char(a + 1, u)),
        format: String::from_str(s.substring_char(q0, a)),
        template_name: String::from_str(s.substring_char(e0 + 1, q)),
    };
    proof {
        assert(s@.subrange(a + 1, u as int) =~= s@.subrange(a + 1, u as int));
        assert(rule@ =~= (GRule {
            impl_text: s@.subrange(a + 1, u as int),
            format: s@.subrange(q0 as int, a as int),
            template_name: s@.subrange(e0 + 1, q as int),
        }));
    }
    Some((rule, w + 2))
}

/// Collect every template-binding declaration in the text, leftmost first.
#[verifier::loop_isolation(false)]
pub fn parse_rust(s: &str) -> (r: Vec<Rule>)
    ensures
        rules_view(r@) == scan_rules(s@, 0),
{
    let n = s.unicode_len();
    let mut out: Vec<Rule> = Vec::new();
    let mut p: usize = 0;
    proof {
        assert(rules_view(out@) =~= Seq::<GRule>::empty());
        if n == 0 {
            assert(rules_view(out@) + scan_rules(s@, 0) =~= rules_view(out@));
        }
    }
    while p < n
        invariant
            p <= n || p <= n + 1,
            rules_view(out@) + scan_rules(s@, p as int) == scan_rules(s@, 0),
        decreases n - p,
    {
        proof {
            reveal_strlit("display_as_template!(");
        }
        let is_marker = p >= 1 && n - p >= 21 && crate::resolve::match_at(
            s,
            p,
            "display_as_template!(",
        ) && is_space_exec(s.get_char(p - 1));
        proof {
            assert(is_marker == marker_at(s@, p as int));
        }
        if is_marker {
            match try_rule_at(s, p) {
                Some((rule, np)) => {
                    let ghost grule = rule@;
                    out.push(rule);
                    proof {
                        assert(scan_rules(s@, p as int) =~= seq![grule] + scan_rules(
                            s@,
                            np as int,
                        ));
                        assert(rules_view(out@) =~= rules_view(out@.drop_last()).push(grule));
                        assert(rules_view(out@) + scan_rules(s@, np as int) =~= scan_rules(
                            s@,
                            0,
                        ));
                    }
                    p = np;
                },
                None => {
                    proof {
                        assert(scan_rules(s@, p as int) == scan_rules(s@, p + 1));
                    }
                    p = p + 1;
                },
            }
        } else {
            proof {
                assert(scan_rules(s@, p as int) == scan_rules(s@, p + 1));
            }
            p = p + 1;
        }
    }
    proof {
        assert(scan_rules(s@, p as int) == Seq::<GRule>::empty());
        assert(rules_view(out@) =~= scan_rules(s@, 0));
    }
    out
}

#[via_fn]
proof fn scan_rules_dec(s: Seq<char>, p: int) {
    if 0 <= p < s.len() {
        reveal_strlit("display_as_template!(");
        lemma_rule_at_bounds(s, p);
    }
}

} // verus!
