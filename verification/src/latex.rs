//! The LaTeX output format.

use crate::escape::escaped_by;
use crate::escape::lemma_escaped_by_clean;
use crate::escape::lemma_escaped_by_concat;
use crate::escape::lemma_escaped_by_push;
use crate::Format;
use vstd::prelude::*;

verus! {

/// Render as LaTeX: the control characters become escaped sequences.
#[derive(Copy, Clone, Eq, PartialEq, Ord, PartialOrd, Hash, Structural, Debug)]
pub struct LaTeX;

/// The characters LaTeX escaping replaces.
pub open spec fn latex_dangerous(c: char) -> bool {
    c == '&' || c == '{' || c == '}' || c == '#' || c == '%' || c == '\\' || c == '~' || c == '$'
        || c == '_' || c == '^'
}

/// The replacement of one character under LaTeX escaping.
pub open spec fn latex_escape_char(c: char) -> Seq<char> {
    if c == '&' {
        seq!['\\', '&']
    } else if c == '{' {
        seq!['\\', '{']
    } else if c == '}' {
        seq!['\\', '}']
    } else if c == '#' {
        seq!['\\', '#']
    } else if c == '%' {
        seq!['\\', '%']
    } else if c == '\\' {
        seq!['\\', 't', 'e', 'x', 't', 'b', 'a', 'c', 'k', 's', 'l', 'a', 's', 'h', '{', '}']
    } else if c == '~' {
        seq!['\\', 't', 'e', 'x', 't', 'a', 's', 'c', 'i', 'i', 't', 'i', 'l', 'd', 'e', '{', '}']
    } else if c == '$' {
        seq!['\\', '$']
    } else if c == '_' {
        seq!['\\', '_']
    } else if c == '^' {
        seq!['\\', '^']
    } else {
        seq![c]
    }
}

/// A string escaped for LaTeX, character by character.
pub open spec fn latex_escaped(s: Seq<char>) -> Seq<char> {
    escaped_by(s, |c: char| latex_escape_char(c))
}

/// Escaping one more character appends that character's replacement.
pub proof fn lemma_latex_escaped_push(s: Seq<char>, c: char)
    ensures
        latex_escaped(s.push(c)) == latex_escaped(s) + latex_escape_char(c),
{
    lemma_escaped_by_push(s, c, |c: char| latex_escape_char(c));
}

/// Append the LaTeX-escaped form of `s` to `f`, shared by the text and the
/// math-mode formats, whose escaping rules coincide.
pub fn escape_latex_into(f: &mut String, s: &str)
    ensures
        final(f)@ == old(f)@ + latex_escaped(s@),
{
    let n = s.unicode_len();
    let mut i: usize = 0;
    proof {
        assert(s@.take(0) =~= Seq::<char>::empty());
        assert(f@ == old(f)@ + latex_escaped(s@.take(0)));
    }
    while i < n
        invariant
            i <= n,
            n == s@.len(),
            f@ == old(f)@ + latex_escaped(s@.take(i as int)),
        decreases n - i,
    {
        let c = s.get_char(i);
        if c == '&' {
            f.append("\\&");
            proof {
                reveal_strlit("\\&");
                assert("\\&"@ =~= latex_escape_char(c));
            }
        } else if c == '{' {
            f.append("\\{");
            proof {
                reveal_strlit("\\{");
                assert("\\{"@ =~= latex_escape_char(c));
            }
        } else if c == '}' {
            f.append("\\}");
            proof {
                reveal_strlit("\\}");
                assert("\\}"@ =~= latex_escape_char(c));
            }
        } else if c == '#' {
            f.append("\\#");
            proof {
                reveal_strlit("\\#");
                assert("\\#"@ =~= latex_escape_char(c));
            }
        } else if c == '%' {
            f.append("\\%");
            proof {
                reveal_strlit("\\%");
                assert("\\%"@ =~= latex_escape_char(c));
            }
        } else if c == '\\' {
            f.append("\\textbackslash{}");
            proof {
                reveal_strlit("\\textbackslash{}");
                assert("\\textbackslash{}"@ =~= latex_escape_char(c));
            }
        } else if c == '~' {
            f.append("\\textasciitilde{}");
            proof {
                reveal_strlit("\\textasciitilde{}");
                assert("\\textasciitilde{}"@ =~= latex_escape_char(c));
            }
        } else if c == '$' {
            f.append("\\$");
            proof {
                reveal_strlit("\\$");
                assert("\\$"@ =~= latex_escape_char(c));
            }
        } else if c == '_' {
            f.append("\\_");
            proof {
                reveal_strlit("\\_");
                assert("\\_"@ =~= latex_escape_char(c));
            }
        } else if c == '^' {
            f.append("\\^");
            proof {
                reveal_strlit("\\^");
                assert("\\^"@ =~= latex_escape_char(c));
            }
        } else {
            f.push(c);
            proof {
                assert(seq![c] =~= latex_escape_char(c));
                assert(f@ =~= old(f)@ + latex_escaped(s@.take(i as int)) + latex_escape_char(c));
            }
        }
        proof {
            lemma_latex_escaped_push(s@.take(i as int), s@[i as int]);
            assert(s@.take(i + 1) =~= s@.take(i as int).push(s@[i as int]));
            assert(f@ =~= old(f)@ + latex_escaped(s@.take(i + 1)));
        }
        i += 1;
    }
    proof {
        assert(s@.take(n as int) =~= s@);
    }
}

impl Format for LaTeX {
    open spec fn escaped(s: Seq<char>) -> Seq<char> {
        latex_escaped(s)
    }

    fn escape(f: &mut String, s: &str) {
        escape_latex_into(f, s);
    }

    open spec fn mime_text() -> Seq<char> {
        "text/x-latex"@
    }

    fn mime() -> mime::Mime {
        crate::parse_mime("text/x-latex")
    }

    fn this_format() -> Self {
        LaTeX
    }
}

/// Escaping a string in which no dangerous character occurs returns the
/// string unchanged.
pub proof fn lemma_latex_escape_clean(s: Seq<char>)
    requires
        forall|i: int| 0 <= i < s.len() ==> !latex_dangerous(#[trigger] s[i]),
    ensures
        latex_escaped(s) == s,
{
    let rule = |c: char| latex_escape_char(c);
    assert forall|i: int| 0 <= i < s.len() implies rule(#[trigger] s[i]) == seq![s[i]] by {
        assert(!latex_dangerous(s[i]));
    }
    lemma_escaped_by_clean(s, rule);
}

/// LaTeX escaping distributes over concatenation: each input character is
/// replaced once, and replacement text is never escaped again.
pub proof fn lemma_latex_escape_concat(a: Seq<char>, b: Seq<char>)
    ensures
        latex_escaped(a + b) == latex_escaped(a) + latex_escaped(b),
{
    lemma_escaped_by_concat(a, b, |c: char| latex_escape_char(c));
}

} // verus!
