//! The URL output format: percent-encoding.

use crate::escape::escaped_by;
use crate::escape::lemma_escaped_by_clean;
use crate::escape::lemma_escaped_by_push;
use crate::Format;
use vstd::prelude::*;

verus! {

/// Render as a URL: unsafe characters are percent-encoded.
#[derive(Copy, Clone, Eq, PartialEq, Ord, PartialOrd, Hash, Structural, Debug)]
pub struct URL;

/// The characters URL escaping percent-encodes: the ASCII controls, the
/// delete character and everything beyond ASCII, together with space and
/// the URL metacharacters.
pub open spec fn url_unsafe(c: char) -> bool {
    (c as u32) < 0x20 || (c as u32) > 0x7e || c == ' ' || c == '"' || c == '#' || c == '<' || c
        == '>' || c == '`' || c == '?' || c == '{' || c == '}'
}

/// The UTF-8 encoding of one character, by the standard arithmetic rules.
pub open spec fn utf8_bytes(c: char) -> Seq<u8> {
    let n = c as u32;
    if n < 0x80 {
        seq![n as u8]
    } else if n < 0x800 {
        seq![(192 + n / 64) as u8, (128 + n % 64) as u8]
    } else if n < 0x10000 {
        seq![(224 + n / 4096) as u8, (128 + (n / 64) % 64) as u8, (128 + n % 64) as u8]
    } else {
        seq![
            (240 + n / 262144) as u8,
            (128 + (n / 4096) % 64) as u8,
            (128 + (n / 64) % 64) as u8,
            (128 + n % 64) as u8,
        ]
    }
}

/// The upper-case hexadecimal digit of a value below sixteen.
pub open spec fn hex_digit(n: int) -> char {
    if n == 0 {
        '0'
    } else if n == 1 {
        '1'
    } else if n == 2 {
        '2'
    } else if n == 3 {
        '3'
    } else if n == 4 {
        '4'
    } else if n == 5 {
        '5'
    } else if n == 6 {
        '6'
    } else if n == 7 {
        '7'
    } else if n == 8 {
        '8'
    } else if n == 9 {
        '9'
    } else if n == 10 {
        'A'
    } else if n == 11 {
        'B'
    } else if n == 12 {
        'C'
    } else if n == 13 {
        'D'
    } else if n == 14 {
        'E'
    } else {
        'F'
    }
}

/// The percent-encoding of one byte.
pub open spec fn pct(b: u8) -> Seq<char> {
    seq!['%', hex_digit(b as int / 16), hex_digit(b as int % 16)]
}

/// The percent-encoding of a byte sequence.
pub open spec fn pct_all(bs: Seq<u8>) -> Seq<char>
    decreases bs.len(),
{
    if bs.len() == 0 {
        Seq::empty()
    } else {
        pct(bs[0]) + pct_all(bs.drop_first())
    }
}

/// The replacement of one character under URL escaping: unsafe characters
/// have each byte of their UTF-8 form percent-encoded.
pub open spec fn url_escape_char(c: char) -> Seq<char> {
    if url_unsafe(c) {
        pct_all(utf8_bytes(c))
    } else {
        seq![c]
    }
}

/// A string escaped for use in a URL, character by character.
pub open spec fn url_escaped(s: Seq<char>) -> Seq<char> {
    escaped_by(s, |c: char| url_escape_char(c))
}

/// Escaping one more character appends that character's replacement.
pub proof fn lemma_url_escaped_push(s: Seq<char>, c: char)
    ensures
        url_escaped(s.push(c)) == url_escaped(s) + url_escape_char(c),
{
    lemma_escaped_by_push(s, c, |c: char| url_escape_char(c));
}

/// The upper-case hexadecimal digit of a value below sixteen.
fn hex_digit_exec(n: u8) -> (c: char)
    requires
        n < 16,
    ensures
        c == hex_digit(n as int),
{
    match n {
        0 => '0',
        1 => '1',
        2 => '2',
        3 => '3',
        4 => '4',
        5 => '5',
        6 => '6',
        7 => '7',
        8 => '8',
        9 => '9',
        10 => 'A',
        11 => 'B',
        12 => 'C',
        13 => 'D',
        14 => 'E',
        _ => 'F',
    }
}

/// Append the percent-encoding of one byte.
fn push_pct(f: &mut String, b: u8)
    ensures
        final(f)@ == old(f)@ + pct(b),
{
    f.push('%');
    f.push(hex_digit_exec(b / 16));
    f.push(hex_digit_exec(b % 16));
    proof {
        assert(f@ =~= old(f)@ + pct(b));
    }
}

/// Append the percent-encoded UTF-8 form of one unsafe character.
fn push_encoded_char(f: &mut String, c: char)
    ensures
        final(f)@ == old(f)@ + pct_all(utf8_bytes(c)),
{
    let n: u32 = c as u32;
    if n < 0x80 {
        push_pct(f, n as u8);
        proof {
            reveal_with_fuel(pct_all, 6);
            let bs = utf8_bytes(c);
            assert(bs =~= seq![n as u8]);
            assert(bs.drop_first() =~= Seq::<u8>::empty());
            assert(pct_all(bs) =~= pct(n as u8));
        }
    } else if n < 0x800 {
        let b0: u8 = (192 + n / 64) as u8;
        let b1: u8 = (128 + n % 64) as u8;
        push_pct(f, b0);
        push_pct(f, b1);
        proof {
            reveal_with_fuel(pct_all, 6);
            let bs = utf8_bytes(c);
            assert(bs =~= seq![b0, b1]);
            assert(bs.drop_first() =~= seq![b1]);
            assert(bs.drop_first().drop_first() =~= Seq::<u8>::empty());
            assert(pct_all(bs) =~= pct(b0) + pct(b1));
            assert(f@ =~= old(f)@ + pct_all(bs));
        }
    } else if n < 0x10000 {
        let b0: u8 = (224 + n / 4096) as u8;
        let b1: u8 = (128 + (n / 64) % 64) as u8;
        let b2: u8 = (128 + n % 64) as u8;
        push_pct(f, b0);
        push_pct(f, b1);
        push_pct(f, b2);
        proof {
            reveal_with_fuel(pct_all, 6);
            let bs = utf8_bytes(c);
            assert(bs =~= seq![b0, b1, b2]);
            assert(bs.drop_first() =~= seq![b1, b2]);
            assert(bs.drop_first().drop_first() =~= seq![b2]);
            assert(bs.drop_first().drop_first().drop_first() =~= Seq::<u8>::empty());
            assert(pct_all(bs) =~= pct(b0) + (pct(b1) + (pct(b2) + Seq::<char>::empty())));
            assert(f@ =~= old(f)@ + pct_all(bs));
        }
    } else {
        let b0: u8 = (240 + n / 262144) as u8;
        let b1: u8 = (128 + (n / 4096) % 64) as u8;
        let b2: u8 = (128 + (n / 64) % 64) as u8;
        let b3: u8 = (128 + n % 64) as u8;
        push_pct(f, b0);
        push_pct(f, b1);
        push_pct(f, b2);
        push_pct(f, b3);
        proof {
            reveal_with_fuel(pct_all, 6);
            let bs = utf8_bytes(c);
            assert(bs =~= seq![b0, b1, b2, b3]);
            assert(bs.drop_first() =~= seq![b1, b2, b3]);
            assert(bs.drop_first().drop_first() =~= seq![b2, b3]);
            assert(bs.drop_first().drop_first().drop_first() =~= seq![b3]);
            assert(bs.drop_first().drop_first().drop_first().drop_first() =~= Seq::<u8>::empty());
            assert(pct_all(bs) =~= pct(b0) + (pct(b1) + (pct(b2) + (pct(b3)
                + Seq::<char>::empty()))));
            assert(f@ =~= old(f)@ + pct_all(bs));
        }
    }
}

impl Format for URL {
    open spec fn escaped(s: Seq<char>) -> Seq<char> {
        url_escaped(s)
    }

    fn escape(f: &mut String, s: &str) {
        let n = s.unicode_len();
        let mut i: usize = 0;
        proof {
            assert(s@.take(0) =~= Seq::<char>::empty());
            assert(f@ == old(f)@ + url_escaped(s@.take(0)));
        }
        while i < n
            invariant
                i <= n,
                n == s@.len(),
                f@ == old(f)@ + url_escaped(s@.take(i as int)),
            decreases n - i,
        {
            let c = s.get_char(i);
            let v: u32 = c as u32;
            if v < 0x20 || v > 0x7e || c == ' ' || c == '"' || c == '#' || c == '<' || c == '>' || c
                == '`' || c == '?' || c == '{' || c == '}' {
                push_encoded_char(f, c);
                proof {
                    assert(url_escape_char(c) == pct_all(utf8_bytes(c)));
                }
            } else {
                f.push(c);
                proof {
                    assert(seq![c] =~= url_escape_char(c));
                    assert(f@ =~= old(f)@ + url_escaped(s@.take(i as int)) + url_escape_char(c));
                }
            }
            proof {
                lemma_url_escaped_push(s@.take(i as int), s@[i as int]);
                assert(s@.take(i + 1) =~= s@.take(i as int).push(s@[i as int]));
                assert(f@ =~= old(f)@ + url_escaped(s@.take(i + 1)));
            }
            i += 1;
        }
        proof {
            assert(s@.take(n as int) =~= s@);
        }
    }

    open spec fn mime_text() -> Seq<char> {
        "text/x-url"@
    }

    fn mime() -> mime::Mime {
        crate::parse_mime("text/x-url")
    }

    fn this_format() -> Self {
        URL
    }
}

/// Escaping a string in which no unsafe character occurs returns the string
/// unchanged.
pub proof fn lemma_url_escape_clean(s: Seq<char>)
    requires
        forall|i: int| 0 <= i < s.len() ==> !url_unsafe(#[trigger] s[i]),
    ensures
        url_escaped(s) == s,
{
    let rule = |c: char| url_escape_char(c);
    assert forall|i: int| 0 <= i < s.len() implies rule(#[trigger] s[i]) == seq![s[i]] by {
        assert(!url_unsafe(s[i]));
    }
    lemma_escaped_by_clean(s, rule);
}

} // verus!
