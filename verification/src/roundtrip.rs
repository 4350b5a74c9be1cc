//! The numeric round trip: rendered numbers read back to the same value.
//!
//! A normal number is a digit string `m` and an exponent `E`, standing for
//! the value `m` (read as `d.ddd`) times ten to the `E`.  The laws here say
//! that the text the formatter renders, re-read as a decimal numeral, denotes
//! exactly that value with exactly the digits of `m`: fixed-point text parses
//! to `m`'s digits at the scale the exponent demands, scientific text splits
//! into a `d.ddd` numeral carrying `m`'s digits and an exponent numeral that
//! reads back to `E` itself.

use crate::float::all_digits;
use crate::float::digit_val;
use crate::float::digits_val;
use crate::float::is_digit;
use crate::float::parse_exponent;
use crate::float::spec_fixed;
use crate::float::spec_scientific;
use crate::float::uses_scientific;
use crate::float::zeros;
use crate::numbers::dec_digits;
use crate::numbers::dec_signed;
use crate::numbers::digit_char;
use vstd::prelude::*;

verus! {

/// Ten to the `n`.
pub open spec fn pow10(n: nat) -> int
    decreases n,
{
    if n == 0 {
        1
    } else {
        10 * pow10((n - 1) as nat)
    }
}

/// The position of the first decimal point at or after `i`.
pub open spec fn first_dot_at(s: Seq<char>, i: int) -> Option<int>
    decreases s.len() - i,
{
    if i < 0 || i >= s.len() {
        None
    } else if s[i] == '.' {
        Some(i)
    } else {
        first_dot_at(s, i + 1)
    }
}

/// A fixed-point numeral read back as digits and a scale: `D1.D2` denotes
/// the integer `D1 D2` over ten to the length of `D2`; a bare digit string
/// has scale zero.
pub open spec fn parse_fixed(s: Seq<char>) -> Option<(int, int)> {
    match first_dot_at(s, 0) {
        None => if s.len() > 0 && all_digits(s) {
            Some((digits_val(s), 0))
        } else {
            None
        },
        Some(d) => {
            let d1 = s.take(d);
            let d2 = s.skip(d + 1);
            if d >= 1 && all_digits(d1) && all_digits(d2) {
                Some((digits_val(d1 + d2), s.len() - d - 1))
            } else {
                None
            }
        },
    }
}

/// Digit strings hold no decimal point.
proof fn lemma_no_dot_in_digits(s: Seq<char>, i: int)
    requires
        0 <= i <= s.len(),
        all_digits(s),
    ensures
        first_dot_at(s, i) is None,
    decreases s.len() - i,
{
    if i < s.len() {
        assert(is_digit(s[i]));
        lemma_no_dot_in_digits(s, i + 1);
    }
}

/// Searching for the point may start after any digit prefix.
proof fn lemma_first_dot_skip(s: Seq<char>, i: int)
    requires
        0 <= i <= s.len(),
        forall|k: int| 0 <= k < i ==> is_digit(#[trigger] s[k]),
    ensures
        first_dot_at(s, 0) == first_dot_at(s, i),
    decreases i,
{
    if i > 0 {
        lemma_first_dot_skip(s, i - 1);
        assert(is_digit(s[i - 1]));
    }
}

/// A run of zeros is all digits, has the asked-for length, and reads as
/// nought.
proof fn lemma_zeros_facts(k: int)
    ensures
        all_digits(zeros(k)),
        zeros(k).len() == if k >= 0 {
            k
        } else {
            0
        },
        digits_val(zeros(k)) == 0,
    decreases k,
{
    if k > 0 {
        lemma_zeros_facts(k - 1);
        assert(zeros(k) == zeros(k - 1).push('0'));
        assert(zeros(k).take(zeros(k).len() - 1) =~= zeros(k - 1));
        assert(digit_val('0') == 0);
        assert(forall|j: int| 0 <= j < zeros(k).len() ==> is_digit(#[trigger] zeros(k)[j])) by {
            assert(forall|j: int|
                0 <= j < zeros(k - 1).len() ==> is_digit(#[trigger] zeros(k - 1)[j]));
        }
    }
}

/// The value of concatenated digit strings: the left digits shifted past the
/// right ones.
proof fn lemma_digits_val_concat(a: Seq<char>, b: Seq<char>)
    requires
        all_digits(a),
        all_digits(b),
    ensures
        all_digits(a + b),
        digits_val(a + b) == digits_val(a) * pow10(b.len()) + digits_val(b),
    decreases b.len(),
{
    assert(all_digits(a + b)) by {
        assert(forall|j: int| 0 <= j < a.len() ==> is_digit(#[trigger] (a + b)[j]));
        assert(forall|j: int|
            a.len() <= j < a.len() + b.len() ==> is_digit(#[trigger] (a + b)[j]));
    }
    if b.len() == 0 {
        assert(a + b =~= a);
        assert(pow10(0) == 1);
    } else {
        let b1 = b.take(b.len() - 1);
        let c = b.last();
        assert(all_digits(b1));
        lemma_digits_val_concat(a, b1);
        assert((a + b).take((a + b).len() - 1) =~= a + b1);
        assert((a + b).last() == c);
        assert(b.take(b.len() - 1) == b1);
        assert(digits_val(a + b) == digits_val(a + b1) * 10 + digit_val(c));
        assert(digits_val(b) == digits_val(b1) * 10 + digit_val(c));
        assert(pow10(b.len()) == 10 * pow10(b1.len()));
        assert((digits_val(a) * pow10(b1.len()) + digits_val(b1)) * 10 == digits_val(a) * (pow10(
            b1.len(),
        ) * 10) + digits_val(b1) * 10) by (nonlinear_arith);
        assert(pow10(b1.len()) * 10 == 10 * pow10(b1.len()));
    }
}

/// Rendering a non-negative integer as decimal text and reading the digits
/// back is the identity.
pub proof fn lemma_dec_digits_value(n: int)
    requires
        n >= 0,
    ensures
        all_digits(dec_digits(n)),
        dec_digits(n).len() >= 1,
        digits_val(dec_digits(n)) == n,
    decreases n,
{
    if n < 10 {
        assert(is_digit(digit_char(n)) && digit_val(digit_char(n)) == n);
        assert(dec_digits(n) == seq![digit_char(n)]);
        assert(dec_digits(n).take(0) =~= Seq::<char>::empty());
        assert(digits_val(dec_digits(n)) == digits_val(dec_digits(n).take(0)) * 10 + digit_val(
            digit_char(n),
        ));
    } else {
        lemma_dec_digits_value(n / 10);
        let d = dec_digits(n / 10).push(digit_char(n % 10));
        assert(dec_digits(n) == d);
        assert(d.take(d.len() - 1) =~= dec_digits(n / 10));
        assert(is_digit(digit_char(n % 10)) && digit_val(digit_char(n % 10)) == n % 10);
        assert(digits_val(d) == (n / 10) * 10 + n % 10);
        assert(forall|j: int| 0 <= j < d.len() ==> is_digit(#[trigger] d[j])) by {
            assert(forall|j: int|
                0 <= j < dec_digits(n / 10).len() ==> is_digit(#[trigger] dec_digits(n / 10)[j]));
        }
    }
}

/// Rendering an exponent as signed decimal text and reading it back with the
/// exponent parser is the identity.
pub proof fn lemma_parse_exponent_roundtrip(e: int)
    requires
        -32768 <= e <= 32767,
    ensures
        parse_exponent(dec_signed(e)) == Some(e),
{
    if e < 0 {
        lemma_dec_digits_value(-e);
        let s = seq!['-'] + dec_digits(-e);
        assert(dec_signed(e) == s);
        assert(s[0] == '-');
        assert(s.skip(1) =~= dec_digits(-e));
        assert(digits_val(s.skip(1)) == -e);
    } else {
        lemma_dec_digits_value(e);
        let s = dec_digits(e);
        assert(dec_signed(e) == s);
        assert(is_digit(s[0]));
        assert(s[0] != '-' && s[0] != '+');
    }
}

/// The numeric round trip of fixed-point rendering: the rendered text reads
/// back as exactly the mantissa's digits, scaled as the exponent demands, so
/// the value it denotes is the mantissa's value times ten to the exponent,
/// to the full precision of the digits emitted.
pub proof fn lemma_fixed_round_trip(m: Seq<char>, exponent: int)
    requires
        all_digits(m),
        m.len() >= 1,
    ensures
        match parse_fixed(spec_fixed(m, exponent)) {
            Some((v, f)) => f >= 0 && exponent + 1 - m.len() + f >= 0 && v == digits_val(m)
                * pow10((exponent + 1 - m.len() + f) as nat),
            None => false,
        },
{
    let s = spec_fixed(m, exponent);
    if exponent + 1 > m.len() {
        let k = exponent + 1 - m.len();
        lemma_zeros_facts(k);
        lemma_digits_val_concat(m, zeros(k));
        assert(s == m + zeros(k));
        lemma_no_dot_in_digits(s, 0);
        assert(s.len() > 0);
        assert(digits_val(s) == digits_val(m) * pow10(k as nat) + 0);
    } else if exponent < 0 {
        let k = -exponent - 1;
        lemma_zeros_facts(k);
        assert(s == seq!['0', '.'] + zeros(k) + m);
        assert(s[0] == '0');
        assert(s[1] == '.');
        assert(first_dot_at(s, 0) == Some(1int)) by {
            reveal_with_fuel(first_dot_at, 3);
            assert(s[0] != '.');
        }
        let d1 = s.take(1);
        let d2 = s.skip(2);
        assert(d1 =~= seq!['0']);
        assert(d2 =~= zeros(k) + m);
        assert(all_digits(d1)) by {
            assert(is_digit('0'));
            assert(forall|j: int| 0 <= j < d1.len() ==> is_digit(#[trigger] d1[j]));
        }
        lemma_digits_val_concat(zeros(k), m);
        assert(digits_val(d2) == 0 * pow10(m.len()) + digits_val(m));
        lemma_digits_val_concat(d1, d2);
        assert(digits_val(d1) == 0) by {
            assert(d1.take(0) =~= Seq::<char>::empty());
            assert(digits_val(Seq::<char>::empty()) == 0);
            assert(digit_val('0') == 0);
        }
        assert(digits_val(d1 + d2) == 0 * pow10(d2.len()) + digits_val(d2));
        let f = s.len() - 2;
        assert(f == k + m.len());
        assert(exponent + 1 - m.len() + f == 0);
        assert(pow10(0) == 1);
    } else if exponent + 1 == m.len() {
        assert(s == m);
        lemma_no_dot_in_digits(s, 0);
        assert(digits_val(s) == digits_val(m));
        assert(pow10(0) == 1);
    } else {
        let cut = exponent + 1;
        assert(s == m.take(cut) + seq!['.'] + m.skip(cut));
        assert(all_digits(m.take(cut))) by {
            assert(forall|j: int| 0 <= j < cut ==> is_digit(#[trigger] m.take(cut)[j]));
        }
        assert(all_digits(m.skip(cut))) by {
            assert(forall|j: int|
                0 <= j < m.len() - cut ==> is_digit(#[trigger] m.skip(cut)[j]));
        }
        assert(first_dot_at(s, 0) == Some(cut)) by {
            assert(forall|k: int| 0 <= k < cut ==> is_digit(#[trigger] s[k])) by {
                assert(forall|k: int| 0 <= k < cut ==> s[k] == m[k]);
            }
            lemma_first_dot_skip(s, cut);
            assert(s[cut] == '.');
        }
        let d1 = s.take(cut);
        let d2 = s.skip(cut + 1);
        assert(d1 =~= m.take(cut));
        assert(d2 =~= m.skip(cut));
        assert(d1 + d2 =~= m);
        let f = s.len() - cut - 1;
        assert(f == m.len() - cut);
        assert(exponent + 1 - m.len() + f == 0);
        assert(pow10(0) == 1);
    }
}

/// The numeric round trip of scientific rendering: the text splits into a
/// `d.ddd` numeral that reads back as exactly the mantissa's digits at the
/// scale that makes its value `d.ddd`, the exponent delimiter, the signed
/// exponent numeral (which reads back to the exponent itself, by
/// [`lemma_parse_exponent_roundtrip`]), and the closing delimiter.
///
/// The one rendering left out by the precondition is the mantissa of
/// exactly `1` under a configured power-of-ten shorthand: there the format
/// mandates a bare power of ten whose text omits the digit itself, so no
/// digit-for-digit reading of the output exists by design; the value is
/// one times ten to the exponent by construction.
pub proof fn lemma_scientific_round_trip(
    m: Seq<char>,
    exponent: int,
    e: Seq<char>,
    after_e: Seq<char>,
    power_ten: Option<Seq<char>>,
)
    requires
        all_digits(m),
        m.len() >= 1,
        m.len() > 1 || !(m == seq!['1'] && power_ten is Some),
    ensures
        m.len() > 1 ==> {
            let mant = m.take(1) + seq!['.'] + m.skip(1);
            &&& spec_scientific(m, exponent, e, after_e, power_ten) == mant + e + dec_signed(
                exponent,
            ) + after_e
            &&& parse_fixed(mant) == Some((digits_val(m), m.len() - 1))
        },
        m.len() == 1 ==> {
            &&& spec_scientific(m, exponent, e, after_e, power_ten) == m + e + dec_signed(exponent)
                + after_e
            &&& parse_fixed(m) == Some((digits_val(m), 0int))
        },
{
    if m.len() > 1 {
        let mant = m.take(1) + seq!['.'] + m.skip(1);
        assert(spec_scientific(m, exponent, e, after_e, power_ten) =~= mant + e + dec_signed(
            exponent,
        ) + after_e);
        assert(all_digits(m.take(1))) by {
            assert(forall|j: int| 0 <= j < 1 ==> is_digit(#[trigger] m.take(1)[j]));
        }
        assert(all_digits(m.skip(1))) by {
            assert(forall|j: int| 0 <= j < m.len() - 1 ==> is_digit(#[trigger] m.skip(1)[j]));
        }
        assert(first_dot_at(mant, 0) == Some(1int)) by {
            reveal_with_fuel(first_dot_at, 3);
            assert(mant[0] == m[0]);
            assert(is_digit(m[0]));
            assert(mant[0] != '.');
            assert(mant[1] == '.');
        }
        assert(mant.take(1) =~= m.take(1));
        assert(mant.skip(2) =~= m.skip(1));
        assert(m.take(1) + m.skip(1) =~= m);
        assert(mant.len() - 1 - 1 == m.len() - 1);
    } else {
        assert(m.len() == 1);
        assert(spec_scientific(m, exponent, e, after_e, power_ten) =~= m + e + dec_signed(exponent)
            + after_e);
        lemma_no_dot_in_digits(m, 0);
    }
}

/// The formatter's whole output reads back to the value it was given: in
/// fixed-point range the one rendered numeral denotes the mantissa's digits
/// at the exponent's scale, and in scientific range the text splits into a
/// mantissa numeral and an exponent numeral that each read back exactly.
pub proof fn lemma_float_round_trip(m: Seq<char>, exponent: int, e_waste: int)
    requires
        all_digits(m),
        m.len() >= 1,
        -32768 <= exponent <= 32767,
    ensures
        !uses_scientific(exponent, e_waste) ==> match parse_fixed(spec_fixed(m, exponent)) {
            Some((v, f)) => f >= 0 && exponent + 1 - m.len() + f >= 0 && v == digits_val(m)
                * pow10((exponent + 1 - m.len() + f) as nat),
            None => false,
        },
        parse_exponent(dec_signed(exponent)) == Some(exponent),
{
    lemma_fixed_round_trip(m, exponent);
    lemma_parse_exponent_roundtrip(exponent);
}

} // verus!
