//! The HTML output format.

use crate::escape::escaped_by;
use crate::escape::lemma_escaped_by_clean;
use crate::escape::lemma_escaped_by_concat;
use crate::escape::lemma_escaped_by_push;
use crate::Format;
use vstd::prelude::*;

verus! {

/// Render as HTML: the markup metacharacters become entity references.
#[derive(Copy, Clone, Eq, PartialEq, Ord, PartialOrd, Hash, Structural, Debug)]
pub struct HTML;

/// The characters HTML escaping replaces.
pub open spec fn html_dangerous(c: char) -> bool {
    c == '<' || c == '>' || c == '&' || c == '"' || c == '\'' || c == '/'
}

/// The replacement of one character under HTML escaping.
pub open spec fn html_escape_char(c: char) -> Seq<char> {
    if c == '<' {
        seq!['&', 'l', 't', ';']
    } else if c == '>' {
        seq!['&', 'g', 't', ';']
    } else if c == '&' {
        seq!['&', 'a', 'm', 'p', ';']
    } else if c == '"' {
        seq!['&', 'q', 'u', 'o', 't', ';']
    } else if c == '\'' {
        seq!['&', '#', 'x', '2', '7', ';']
    } else if c == '/' {
        seq!['&', '#', 'x', '2', 'f', ';']
    } else {
        seq![c]
    }
}

/// A string escaped for HTML, character by character.
pub open spec fn html_escaped(s: Seq<char>) -> Seq<char> {
    escaped_by(s, |c: char| html_escape_char(c))
}

/// Escaping one more character appends that character's replacement.
pub proof fn lemma_html_escaped_push(s: Seq<char>, c: char)
    ensures
        html_escaped(s.push(c)) == html_escaped(s) + html_escape_char(c),
{
    lemma_escaped_by_push(s, c, |c: char| html_escape_char(c));
}

impl Format for HTML {
    open spec fn escaped(s: Seq<char>) -> Seq<char> {
        html_escaped(s)
    }

    fn escape(f: &mut String, s: &str) {
        let n = s.unicode_len();
        let mut i: usize = 0;
        proof {
            assert(s@.take(0) =~= Seq::<char>::empty());
            assert(f@ == old(f)@ + html_escaped(s@.take(0)));
        }
        while i < n
            invariant
                i <= n,
                n == s@.len(),
                f@ == old(f)@ + html_escaped(s@.take(i as int)),
            decreases n - i,
        {
            let c = s.get_char(i);
            if c == '<' {
                f.append("&lt;");
                proof {
                    reveal_strlit("&lt;");
                    assert("&lt;"@ =~= html_escape_char(c));
                }
            } else if c == '>' {
                f.append("&gt;");
                proof {
                    reveal_strlit("&gt;");
                    assert("&gt;"@ =~= html_escape_char(c));
                }
            } else if c == '&' {
                f.append("&amp;");
                proof {
                    reveal_strlit("&amp;");
                    assert("&amp;"@ =~= html_escape_char(c));
                }
            } else if c == '"' {
                f.append("&quot;");
                proof {
                    reveal_strlit("&quot;");
                    assert("&quot;"@ =~= html_escape_char(c));
                }
            } else if c == '\'' {
                f.append("&#x27;");
                proof {
                    reveal_strlit("&#x27;");
                    assert("&#x27;"@ =~= html_escape_char(c));
                }
            } else if c == '/' {
                f.append("&#x2f;");
                proof {
                    reveal_strlit("&#x2f;");
                    assert("&#x2f;"@ =~= html_escape_char(c));
                }
            } else {
                f.push(c);
                proof {
                    assert(seq![c] =~= html_escape_char(c));
                    assert(f@ =~= old(f)@ + html_escaped(s@.take(i as int)) + html_escape_char(c));
                }
            }
            proof {
                lemma_html_escaped_push(s@.take(i as int), s@[i as int]);
                assert(s@.take(i + 1) =~= s@.take(i as int).push(s@[i as int]));
                assert(f@ =~= old(f)@ + html_escaped(s@.take(i + 1)));
            }
            i += 1;
        }
        proof {
            assert(s@.take(n as int) =~= s@);
        }
    }

    open spec fn mime_text() -> Seq<char> {
        "text/html; charset=utf-8"@
    }

    fn mime() -> mime::Mime {
        crate::parse_mime("text/html; charset=utf-8")
    }

    fn this_format() -> Self {
        HTML
    }
}

/// Escaping a string in which no dangerous character occurs returns the
/// string unchanged.
pub proof fn lemma_html_escape_clean(s: Seq<char>)
    requires
        forall|i: int| 0 <= i < s.len() ==> !html_dangerous(#[trigger] s[i]),
    ensures
        html_escaped(s) == s,
{
    let rule = |c: char| html_escape_char(c);
    assert forall|i: int| 0 <= i < s.len() implies rule(#[trigger] s[i]) == seq![s[i]] by {
        assert(!html_dangerous(s[i]));
    }
    lemma_escaped_by_clean(s, rule);
}

/// Each dangerous character maps to its fixed entity reference, and escaping
/// distributes over concatenation, so replacement text is written once and
/// never escaped again.
pub proof fn lemma_html_escape_entities(a: Seq<char>, b: Seq<char>)
    ensures
        html_escaped(seq!['<']) == seq!['&', 'l', 't', ';'],
        html_escaped(seq!['>']) == seq!['&', 'g', 't', ';'],
        html_escaped(seq!['&']) == seq!['&', 'a', 'm', 'p', ';'],
        html_escaped(seq!['"']) == seq!['&', 'q', 'u', 'o', 't', ';'],
        html_escaped(seq!['\'']) == seq!['&', '#', 'x', '2', '7', ';'],
        html_escaped(seq!['/']) == seq!['&', '#', 'x', '2', 'f', ';'],
        html_escaped(a + b) == html_escaped(a) + html_escaped(b),
{
    assert forall|c: char| true implies #[trigger] html_escaped(seq![c]) == html_escape_char(
        c,
    ) by {
        assert(seq![c] =~= Seq::<char>::empty().push(c));
        lemma_html_escaped_push(Seq::<char>::empty(), c);
        assert(html_escaped(Seq::<char>::empty()) == Seq::<char>::empty());
        assert(Seq::<char>::empty() + html_escape_char(c) =~= html_escape_char(c));
    }
    lemma_escaped_by_concat(a, b, |c: char| html_escape_char(c));
}

} // verus!
