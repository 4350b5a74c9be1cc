//! Character-by-character escaping, shared by every output format.
//!
//! An escaping rule is a function from one character to its replacement
//! sequence; escaping a string substitutes each character independently,
//! left to right.  The lemmas here give the three facts every format needs:
//! appending one character appends its replacement, clean strings are kept
//! verbatim, and escaping distributes over concatenation (so replacement
//! text is never escaped again).

use vstd::prelude::*;

verus! {

/// Relies on `alloc::string::String::push`: appends exactly the given
/// character to the string.
pub assume_specification[ String::push ](s: &mut String, c: char)
    ensures
        final(s)@ == old(s)@.push(c),
;

/// The string `s` escaped by the per-character rule `rule`.
pub open spec fn escaped_by(s: Seq<char>, rule: spec_fn(char) -> Seq<char>) -> Seq<char>
    decreases s.len(),
{
    if s.len() == 0 {
        Seq::empty()
    } else {
        rule(s[0]) + escaped_by(s.drop_first(), rule)
    }
}

/// Escaping one more character appends that character's replacement.
pub proof fn lemma_escaped_by_push(s: Seq<char>, c: char, rule: spec_fn(char) -> Seq<char>)
    ensures
        escaped_by(s.push(c), rule) == escaped_by(s, rule) + rule(c),
    decreases s.len(),
{
    if s.len() == 0 {
        assert(s.push(c).len() == 1);
        assert(s.push(c)[0] == c);
        assert(s.push(c).drop_first() =~= Seq::<char>::empty());
        assert(escaped_by(s.push(c), rule) == rule(c) + escaped_by(
            s.push(c).drop_first(),
            rule,
        ));
        assert(escaped_by(s.push(c).drop_first(), rule) == Seq::<char>::empty());
        assert(rule(c) + Seq::<char>::empty() =~= rule(c));
        assert(escaped_by(s, rule) + rule(c) =~= rule(c));
    } else {
        assert(s.push(c).drop_first() =~= s.drop_first().push(c));
        lemma_escaped_by_push(s.drop_first(), c, rule);
        assert(escaped_by(s.push(c), rule) == rule(s[0]) + (escaped_by(s.drop_first(), rule)
            + rule(c)));
        assert(rule(s[0]) + (escaped_by(s.drop_first(), rule) + rule(c)) =~= (rule(s[0])
            + escaped_by(s.drop_first(), rule)) + rule(c));
    }
}

/// A string none of whose characters the rule touches is escaped to itself.
pub proof fn lemma_escaped_by_clean(s: Seq<char>, rule: spec_fn(char) -> Seq<char>)
    requires
        forall|i: int| 0 <= i < s.len() ==> rule(#[trigger] s[i]) == seq![s[i]],
    ensures
        escaped_by(s, rule) == s,
    decreases s.len(),
{
    if s.len() == 0 {
        assert(escaped_by(s, rule) =~= s);
    } else {
        assert(forall|i: int|
            0 <= i < s.drop_first().len() ==> rule(#[trigger] s.drop_first()[i]) == seq![
                s.drop_first()[i],
            ]);
        lemma_escaped_by_clean(s.drop_first(), rule);
        assert(rule(s[0]) == seq![s[0]]);
        assert(escaped_by(s, rule) =~= s);
    }
}

/// Escaping distributes over concatenation: each character of the input is
/// replaced once, and replacement text is never escaped again.
pub proof fn lemma_escaped_by_concat(a: Seq<char>, b: Seq<char>, rule: spec_fn(char) -> Seq<char>)
    ensures
        escaped_by(a + b, rule) == escaped_by(a, rule) + escaped_by(b, rule),
    decreases a.len(),
{
    if a.len() == 0 {
        assert(a + b =~= b);
        assert(escaped_by(a, rule) + escaped_by(b, rule) =~= escaped_by(b, rule));
    } else {
        assert((a + b).drop_first() =~= a.drop_first() + b);
        lemma_escaped_by_concat(a.drop_first(), b, rule);
        assert(escaped_by(a + b, rule) == rule(a[0]) + (escaped_by(a.drop_first(), rule)
            + escaped_by(b, rule)));
        assert(rule(a[0]) + (escaped_by(a.drop_first(), rule) + escaped_by(b, rule)) =~= (rule(a[0])
            + escaped_by(a.drop_first(), rule)) + escaped_by(b, rule));
    }
}

} // verus!
