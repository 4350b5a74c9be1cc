//! The value of a string-literal token.
//!
//! The compiler emits literal tokens by their textual form, quotes and all;
//! rendering writes the literal's value.  This module reads that value: a
//! plain quoted literal with the common escape sequences, or a raw literal
//! fenced by hash characters.

use vstd::prelude::*;

verus! {

/// The number of consecutive hash characters at or after position `i`.
pub open spec fn leading_hashes(s: Seq<char>, i: int) -> int
    decreases s.len() - i,
{
    if i < 0 || i >= s.len() || s[i] != '#' {
        0
    } else {
        1 + leading_hashes(s, i + 1)
    }
}

/// The escaped character a backslash-pair denotes, if it is a common one.
pub open spec fn escape_value(c: char) -> Option<char> {
    if c == 'n' {
        Some('\n')
    } else if c == 't' {
        Some('\t')
    } else if c == 'r' {
        Some('\r')
    } else if c == '\\' {
        Some('\\')
    } else if c == '"' {
        Some('"')
    } else if c == '\'' {
        Some('\'')
    } else if c == '0' {
        Some('\0')
    } else {
        None
    }
}

/// The text with its escape sequences resolved, or nothing on an unknown
/// or dangling escape.
pub open spec fn unescaped(s: Seq<char>) -> Option<Seq<char>>
    decreases s.len(),
{
    if s.len() == 0 {
        Some(Seq::empty())
    } else if s[0] == '\\' {
        if s.len() < 2 {
            None
        } else {
            match escape_value(s[1]) {
                None => None,
                Some(e) => match unescaped(s.skip(2)) {
                    None => None,
                    Some(r) => Some(seq![e] + r),
                },
            }
        }
    } else {
        match unescaped(s.drop_first()) {
            None => None,
            Some(r) => Some(seq![s[0]] + r),
        }
    }
}

/// The value of a string-literal token's text: the unescaped interior of a
/// plain quoted literal, or the verbatim interior of a raw literal whose
/// hash fence matches; nothing for any other text.
pub open spec fn spec_literal_value(s: Seq<char>) -> Option<Seq<char>> {
    if s.len() >= 2 && s[0] == '"' && s.last() == '"' {
        unescaped(s.subrange(1, s.len() - 1))
    } else if s.len() >= 1 && s[0] == 'r' {
        let k = leading_hashes(s, 1);
        if s.len() >= 2 * k + 3 && s[1 + k] == '"' && s[s.len() - 1 - k] == '"' && (forall|j: int|
            s.len() - k <= j < s.len() ==> s[j] == '#') {
            Some(s.subrange(2 + k, s.len() - 1 - k))
        } else {
            None
        }
    } else {
        None
    }
}

/// The text with its escape sequences resolved, or nothing on an unknown
/// or dangling escape.
#[verifier::loop_isolation(false)]
fn unescape_text(s: &str) -> (r: Option<String>)
    ensures
        match r {
            Some(v) => unescaped(s@) == Some(v@),
            None => unescaped(s@) is None,
        },
{
    let n = s.unicode_len();
    let mut out = String::new();
    let mut i: usize = 0;
    proof {
        assert(s@.skip(0) =~= s@);
    }
    while i < n
        invariant
            i <= n,
            match unescaped(s@.skip(i as int)) {
                Some(rest) => unescaped(s@) == Some(out@ + rest),
                None => unescaped(s@) is None,
            },
        decreases n - i,
    {
        let c = s.get_char(i);
        proof {
            assert(s@.skip(i as int)[0] == s@[i as int]);
            assert(s@.skip(i as int).drop_first() =~= s@.skip(i + 1));
        }
        if c == '\\' {
            if i + 1 >= n {
                proof {
                    assert(s@.skip(i as int).len() < 2);
                }
                return None;
            }
            let e = s.get_char(i + 1);
            proof {
                assert(s@.skip(i as int)[1] == s@[i + 1]);
                assert(s@.skip(i as int).skip(2) =~= s@.skip(i + 2));
            }
            let v: char = if e == 'n' {
                '\n'
            } else if e == 't' {
                '\t'
            } else if e == 'r' {
                '\r'
            } else if e == '\\' {
                '\\'
            } else if e == '"' {
                '"'
            } else if e == '\'' {
                '\''
            } else if e == '0' {
                '\0'
            } else {
                return None;
            };
            proof {
                assert(escape_value(s@[i + 1]) == Some(v));
            }
            out.push(v);
            i += 2;
        } else {
            out.push(c);
            i += 1;
        }
    }
    proof {
        assert(s@.skip(n as int) =~= Seq::<char>::empty());
    }
    Some(out)
}

/// The value of a string-literal token's text, or nothing when the text is
/// not a well-formed plain or raw string literal.
#[verifier::loop_isolation(false)]
pub fn literal_value(s: &str) -> (r: Option<String>)
    ensures
        match r {
            Some(v) => spec_literal_value(s@) == Some(v@),
            None => spec_literal_value(s@) is None,
        },
{
    let n = s.unicode_len();
    if n >= 2 && s.get_char(0) == '"' && s.get_char(n - 1) == '"' {
        let inner = s.substring_char(1, n - 1);
        proof {
            assert(inner@ =~= s@.subrange(1, s@.len() - 1));
        }
        return unescape_text(inner);
    }
    if n >= 1 && s.get_char(0) == 'r' {
        // Count the hash fence.
        let mut k: usize = 0;
        while 1 + k < n && s.get_char(1 + k) == '#'
            invariant
                k < n,
                forall|j: int| 1 <= j < 1 + k ==> s@[j] == '#',
            decreases n - k,
        {
            k += 1;
        }
        proof {
            assert(leading_hashes(s@, 1) == k as int) by {
                lemma_leading_hashes_count(s@, 1, k as int);
            }
        }
        if n >= 3 && k <= (n - 3) / 2 && s.get_char(1 + k) == '"' && s.get_char(n - 1 - k) == '"' {
            proof {
                assert(s@.len() >= 2 * (k as int) + 3);
            }
            // The trailing fence must be all hashes.
            let mut j: usize = n - k;
            while j < n
                invariant
                    n - k <= j <= n,
                    forall|m: int| n - k <= m < j ==> s@[m] == '#',
                decreases n - j,
            {
                if s.get_char(j) != '#' {
                    proof {
                        assert(s@[j as int] != '#');
                    }
                    return None;
                }
                j += 1;
            }
            let inner = s.substring_char(2 + k, n - 1 - k);
            proof {
                assert(inner@ =~= s@.subrange(2 + k, s@.len() - 1 - k));
            }
            return Some(String::from_str(inner));
        }
        return None;
    }
    proof {
        if n >= 2 && s@[0] == '"' && s@.last() == '"' {
            assert(false);
        }
    }
    None
}

/// Counting the hash fence: a run of `k` hashes not followed by another.
proof fn lemma_leading_hashes_count(s: Seq<char>, i: int, k: int)
    requires
        0 <= i,
        k >= 0,
        i + k <= s.len(),
        forall|j: int| i <= j < i + k ==> s[j] == '#',
        i + k >= s.len() || s[i + k] != '#',
    ensures
        leading_hashes(s, i) == k,
    decreases k,
{
    if k == 0 {
    } else {
        lemma_leading_hashes_count(s, i + 1, k - 1);
    }
}

} // verus!
