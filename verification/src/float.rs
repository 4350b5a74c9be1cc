//! Rendering of decomposed floating-point numbers.
//!
//! A floating-point value arrives here already decomposed into a sign, a
//! mantissa digit string without a decimal point, and a decimal exponent (the
//! form of the host language's scientific-notation text).  The formatter
//! decides between fixed-point and scientific notation under a per-format
//! waste threshold and renders the exact text.

use crate::numbers::append_dec_i128;
use crate::numbers::dec_signed;
use crate::token::str_eq;
use vstd::prelude::*;

verus! {

/// A floating-point number decomposed for rendering: either a normal value
/// as sign, mantissa digits and decimal exponent, or the textual form of a
/// NaN, an infinity, a zero or a subnormal value, passed through verbatim.
#[derive(Debug, PartialEq, Eq)]
pub enum Floating {
    /// A normal floating point number.
    Normal {
        /// The exponent: the value is the mantissa, read as `d.ddd`, times
        /// ten to this power.
        exponent: i16,
        /// The mantissa digits, without any decimal point.
        mantissa: String,
        /// Whether the value is negative.
        is_negative: bool,
    },
    /// A NaN, infinity or other non-normal value, by its textual form.
    Abnormal(String),
}

/// The mathematical shape of a [`Floating`].
#[verifier::ext_equal]
pub enum GFloating {
    /// A normal floating point number.
    Normal {
        /// The exponent.
        exponent: int,
        /// The mantissa digits.
        mantissa: Seq<char>,
        /// Whether the value is negative.
        is_negative: bool,
    },
    /// A non-normal value, by its textual form.
    Abnormal(Seq<char>),
}

impl View for Floating {
    type V = GFloating;

    open spec fn view(&self) -> GFloating {
        match self {
            Floating::Normal { exponent, mantissa, is_negative } => GFloating::Normal {
                exponent: *exponent as int,
                mantissa: mantissa@,
                is_negative: *is_negative,
            },
            Floating::Abnormal(s) => GFloating::Abnormal(s@),
        }
    }
}

/// A run of `n` zero digits (empty when `n` is not positive).
pub open spec fn zeros(n: int) -> Seq<char>
    decreases n,
{
    if n <= 0 {
        Seq::empty()
    } else {
        zeros(n - 1).push('0')
    }
}

/// Whether an exponent asks for scientific notation under the given waste
/// threshold.
pub open spec fn uses_scientific(exponent: int, e_waste: int) -> bool {
    exponent > 1 + e_waste || exponent < -2 - e_waste
}

/// The fixed-point text of an unsigned mantissa and exponent: the digits with
/// trailing zeros, a leading `0.` with padding zeros, or a decimal point cut
/// into the digits, as the exponent demands.
pub open spec fn spec_fixed(mantissa: Seq<char>, exponent: int) -> Seq<char> {
    if exponent + 1 > mantissa.len() {
        mantissa + zeros(exponent + 1 - mantissa.len())
    } else if exponent < 0 {
        seq!['0', '.'] + zeros(-exponent - 1) + mantissa
    } else if exponent + 1 == mantissa.len() {
        mantissa
    } else {
        mantissa.take(exponent + 1) + seq!['.'] + mantissa.skip(exponent + 1)
    }
}

/// The scientific-notation text of an unsigned mantissa and exponent: the
/// digits with a decimal point after the first, the exponent between `e` and
/// `after_e`; a mantissa of exactly `1` renders as the `power_ten` shorthand
/// when one is given.
pub open spec fn spec_scientific(
    mantissa: Seq<char>,
    exponent: int,
    e: Seq<char>,
    after_e: Seq<char>,
    power_ten: Option<Seq<char>>,
) -> Seq<char> {
    if mantissa.len() > 1 {
        mantissa.take(1) + seq!['.'] + mantissa.skip(1) + e + dec_signed(exponent) + after_e
    } else if mantissa == seq!['1'] && power_ten is Some {
        power_ten->0 + dec_signed(exponent) + after_e
    } else {
        mantissa + e + dec_signed(exponent) + after_e
    }
}

/// The exact text `fmt_with` renders: an abnormal value passes through
/// verbatim; a normal one renders its sign, then its digits in scientific or
/// fixed-point notation by the waste threshold.
pub open spec fn spec_fmt_with(
    v: GFloating,
    e: Seq<char>,
    after_e: Seq<char>,
    e_waste: int,
    power_ten: Option<Seq<char>>,
) -> Seq<char> {
    match v {
        GFloating::Abnormal(s) => s,
        GFloating::Normal { exponent, mantissa, is_negative } => {
            let sign: Seq<char> = if is_negative {
                seq!['-']
            } else {
                Seq::empty()
            };
            if uses_scientific(exponent, e_waste) {
                sign + spec_scientific(mantissa, exponent, e, after_e, power_ten)
            } else {
                sign + spec_fixed(mantissa, exponent)
            }
        }
    }
}

/// The view of an optional string parameter.
pub open spec fn opt_str_view(p: Option<&str>) -> Option<Seq<char>> {
    match p {
        Some(s) => Some(s@),
        None => None,
    }
}

/// Append `n` zero digits.
fn append_zeros(f: &mut String, n: usize)
    ensures
        final(f)@ == old(f)@ + zeros(n as int),
{
    let mut j: usize = 0;
    proof {
        assert(f@ =~= old(f)@ + zeros(0));
    }
    while j < n
        invariant
            j <= n,
            f@ == old(f)@ + zeros(j as int),
        decreases n - j,
    {
        f.push('0');
        proof {
            assert(zeros(j + 1) == zeros(j as int).push('0'));
            assert(f@ =~= old(f)@ + zeros(j + 1));
        }
        j += 1;
    }
}

/// Append the fixed-point text of a mantissa and exponent.
fn append_fixed(f: &mut String, ms: &str, exp: i32)
    requires
        -32768 <= exp <= 32767,
    ensures
        final(f)@ == old(f)@ + spec_fixed(ms@, exp as int),
{
    let mlen = ms.unicode_len();
    if exp >= 0 && mlen <= exp as usize {
        f.append(ms);
        let pad: usize = (exp as usize) + 1 - mlen;
        append_zeros(f, pad);
        proof {
            assert(exp as int + 1 > ms@.len());
            assert(pad as int == exp as int + 1 - ms@.len());
            assert(f@ =~= old(f)@ + spec_fixed(ms@, exp as int));
        }
    } else if exp < 0 {
        f.append("0.");
        let pad64: i64 = -(exp as i64) - 1;
        let pad: usize = pad64 as usize;
        append_zeros(f, pad);
        f.append(ms);
        proof {
            reveal_strlit("0.");
            assert("0."@ =~= seq!['0', '.']);
            assert(!(exp as int + 1 > ms@.len()));
            assert(pad as int == -(exp as int) - 1);
            assert(f@ =~= old(f)@ + spec_fixed(ms@, exp as int));
        }
    } else if mlen == (exp as usize) + 1 {
        f.append(ms);
        proof {
            assert(f@ =~= old(f)@ + spec_fixed(ms@, exp as int));
        }
    } else {
        let cut: usize = (exp as usize) + 1;
        let head = ms.substring_char(0, cut);
        let tail = ms.substring_char(cut, mlen);
        f.append(head);
        f.push('.');
        f.append(tail);
        proof {
            assert(head@ =~= ms@.take(exp as int + 1));
            assert(tail@ =~= ms@.skip(exp as int + 1));
            assert(f@ =~= old(f)@ + spec_fixed(ms@, exp as int));
        }
    }
}

/// Append the scientific-notation text of a mantissa and exponent.
fn append_scientific(f: &mut String, ms: &str, exp: i32, e: &str, after_e: &str, power_ten: Option<
    &str,
>)
    ensures
        final(f)@ == old(f)@ + spec_scientific(
            ms@,
            exp as int,
            e@,
            after_e@,
            opt_str_view(power_ten),
        ),
{
    let mlen = ms.unicode_len();
    if mlen > 1 {
        let head = ms.substring_char(0, 1);
        let tail = ms.substring_char(1, mlen);
        f.append(head);
        f.push('.');
        f.append(tail);
        f.append(e);
        append_dec_i128(f, exp as i128);
        f.append(after_e);
        proof {
            assert(head@ =~= ms@.take(1));
            assert(tail@ =~= ms@.skip(1));
            assert(f@ =~= old(f)@ + spec_scientific(
                ms@,
                exp as int,
                e@,
                after_e@,
                opt_str_view(power_ten),
            ));
        }
    } else {
        let mut shorthand = false;
        if str_eq(ms, "1") {
            if let Some(p) = power_ten {
                shorthand = true;
                f.append(p);
                append_dec_i128(f, exp as i128);
                f.append(after_e);
                proof {
                    reveal_strlit("1");
                    assert("1"@ =~= seq!['1']);
                    assert(f@ =~= old(f)@ + spec_scientific(
                        ms@,
                        exp as int,
                        e@,
                        after_e@,
                        opt_str_view(power_ten),
                    ));
                }
            }
        }
        if !shorthand {
            f.append(ms);
            f.append(e);
            append_dec_i128(f, exp as i128);
            f.append(after_e);
            proof {
                reveal_strlit("1");
                assert("1"@ =~= seq!['1']);
                assert(!(ms@ == seq!['1'] && opt_str_view(power_ten) is Some));
                assert(f@ =~= old(f)@ + spec_scientific(
                    ms@,
                    exp as int,
                    e@,
                    after_e@,
                    opt_str_view(power_ten),
                ));
            }
        }
    }
}

/// The position of the first `e` in `s` at or after `i`.
pub open spec fn first_e_at(s: Seq<char>, i: int) -> Option<int>
    decreases s.len() - i,
{
    if i < 0 || i >= s.len() {
        None
    } else if s[i] == 'e' {
        Some(i)
    } else {
        first_e_at(s, i + 1)
    }
}

/// Searching may start after any `e`-free prefix without changing the result.
proof fn lemma_first_e_skip(s: Seq<char>, i: int)
    requires
        0 <= i <= s.len(),
        forall|k: int| 0 <= k < i ==> s[k] != 'e',
    ensures
        first_e_at(s, 0) == first_e_at(s, i),
    decreases i,
{
    if i > 0 {
        lemma_first_e_skip(s, i - 1);
        assert(s[i - 1] != 'e');
    }
}

/// Whether the character is a decimal digit.
pub open spec fn is_digit(c: char) -> bool {
    48 <= (c as u32) <= 57
}

/// The value of a decimal digit character.
pub open spec fn digit_val(c: char) -> int {
    (c as u32) - 48
}

/// Whether every character of `s` is a decimal digit.
pub open spec fn all_digits(s: Seq<char>) -> bool {
    forall|i: int| 0 <= i < s.len() ==> is_digit(#[trigger] s[i])
}

/// The value of a digit string, most significant digit first.
pub open spec fn digits_val(s: Seq<char>) -> int
    decreases s.len(),
{
    if s.len() == 0 {
        0
    } else {
        digits_val(s.take(s.len() - 1)) * 10 + digit_val(s.last())
    }
}

/// A digit string's value is never negative.
pub proof fn lemma_digits_val_nonneg(s: Seq<char>)
    requires
        all_digits(s),
    ensures
        digits_val(s) >= 0,
    decreases s.len(),
{
    if s.len() > 0 {
        assert(all_digits(s.take(s.len() - 1)));
        lemma_digits_val_nonneg(s.take(s.len() - 1));
        assert(is_digit(s.last()));
    }
}

/// The value of a signed decimal numeral, if it is one and fits the
/// exponent's range: an optional sign, then at least one digit.
pub open spec fn parse_exponent(s: Seq<char>) -> Option<int> {
    let neg = s.len() > 0 && s[0] == '-';
    let ds = if s.len() > 0 && (s[0] == '-' || s[0] == '+') {
        s.skip(1)
    } else {
        s
    };
    if ds.len() == 0 || !all_digits(ds) {
        None
    } else {
        let v = if neg {
            -digits_val(ds)
        } else {
            digits_val(ds)
        };
        if -32768 <= v <= 32767 {
            Some(v)
        } else {
            None
        }
    }
}

/// The number read from scientific-notation text and a sign: the digits
/// before the first `e`, with the character at position one (the decimal
/// point) removed, and the exponent after it; nothing if the `e` or a valid
/// exponent is missing.
pub open spec fn spec_from_e(s: Seq<char>, is_negative: bool) -> Option<GFloating> {
    match first_e_at(s, 0) {
        None => None,
        Some(ei) => {
            let m0 = s.take(ei);
            let m = if m0.len() > 1 {
                m0.take(1) + m0.skip(2)
            } else {
                m0
            };
            match parse_exponent(s.skip(ei + 1)) {
                None => None,
                Some(v) => Some(
                    GFloating::Normal { exponent: v, mantissa: m, is_negative: is_negative },
                ),
            }
        },
    }
}

/// The view of an optional [`Floating`].
pub open spec fn opt_floating_view(r: Option<Floating>) -> Option<GFloating> {
    match r {
        Some(fl) => Some(fl@),
        None => None,
    }
}

impl Floating {
    /// Read a normal number from its scientific-notation text (the form
    /// `d.ddde±x` or `de±x`) and a separately recorded sign.  Returns
    /// nothing when no `e` occurs or the exponent is not a number in range.
    #[verifier::loop_isolation(false)]
    pub fn from_e_notation(s: &str, is_negative: bool) -> (r: Option<Floating>)
        ensures
            opt_floating_view(r) == spec_from_e(s@, is_negative),
    {
        let n = s.unicode_len();
        // Find the first `e`.
        let mut i: usize = 0;
        let mut found = false;
        while i < n && !found
            invariant
                i <= n,
                n == s@.len(),
                forall|k: int| 0 <= k < i ==> s@[k] != 'e',
                found ==> i < n && s@[i as int] == 'e',
            decreases n - i, 1int - if found { 1int } else { 0int },
        {
            if s.get_char(i) == 'e' {
                found = true;
            } else {
                i += 1;
            }
        }
        if !found {
            proof {
                lemma_first_e_skip(s@, n as int);
            }
            return None;
        }
        let ei = i;
        proof {
            lemma_first_e_skip(s@, ei as int);
            assert(first_e_at(s@, 0) == Some(ei as int));
        }
        // The mantissa: the text before the `e`, with the character at
        // position one (the decimal point) removed when there is one.
        let mut mantissa = String::new();
        if ei > 1 {
            mantissa.append(s.substring_char(0, 1));
            mantissa.append(s.substring_char(2, ei));
            proof {
                assert(s@.subrange(0, 1) =~= s@.take(ei as int).take(1));
                assert(s@.subrange(2, ei as int) =~= s@.take(ei as int).skip(2));
            }
        } else {
            mantissa.append(s.substring_char(0, ei));
            proof {
                assert(s@.subrange(0, ei as int) =~= s@.take(ei as int));
            }
        }
        // The exponent: an optional sign, then digits, within range.
        let ghost tail = s@.skip(ei + 1);
        let mut j = ei + 1;
        let mut neg = false;
        if j < n {
            let c0 = s.get_char(j);
            if c0 == '-' {
                neg = true;
                j += 1;
            } else if c0 == '+' {
                j += 1;
            }
        }
        let ghost start = j as int;
        let ghost ds = s@.subrange(start, n as int);
        proof {
            if tail.len() > 0 && (tail[0] == '-' || tail[0] == '+') {
                assert(ds =~= tail.skip(1));
            } else {
                assert(ds =~= tail);
            }
            assert(neg == (tail.len() > 0 && tail[0] == '-'));
        }
        if j >= n {
            proof {
                assert(ds.len() == 0);
            }
            return None;
        }
        let mut acc: i64 = 0;
        while j < n
            invariant
                0 <= start <= j <= n,
                n == s@.len(),
                ds == s@.subrange(start, n as int),
                0 <= acc <= 32769,
                all_digits(s@.subrange(start, j as int)),
                acc < 32769 ==> acc == digits_val(s@.subrange(start, j as int)),
                acc == 32769 ==> digits_val(s@.subrange(start, j as int)) >= 32769,
            decreases n - j,
        {
            let c = s.get_char(j);
            let d = c as u32;
            if d < 48 || d > 57 {
                proof {
                    assert(ds[j - start] == s@[j as int]);
                    assert(!is_digit(ds[j - start]));
                }
                return None;
            }
            let dv = (d - 48) as i64;
            let ghost pre = s@.subrange(start, j as int);
            let ghost post = s@.subrange(start, j + 1);
            proof {
                assert(post.take(post.len() - 1) =~= pre);
                assert(post.last() == s@[j as int]);
                assert(digits_val(post) == digits_val(pre) * 10 + digit_val(s@[j as int]));
                lemma_digits_val_nonneg(pre);
            }
            if acc >= 32769 {
                proof {
                    assert(digits_val(pre) * 10 >= digits_val(pre));
                    assert(digits_val(post) >= 32769);
                }
            } else {
                acc = acc * 10 + dv;
                if acc > 32769 {
                    acc = 32769;
                }
            }
            j += 1;
        }
        proof {
            assert(s@.subrange(start, n as int) =~= ds);
            assert(all_digits(ds));
            lemma_digits_val_nonneg(ds);
        }
        let bound: i64 = if neg {
            32768
        } else {
            32767
        };
        if acc > bound {
            proof {
                assert(parse_exponent(tail) is None);
            }
            return None;
        }
        let exponent: i16 = if neg {
            (-acc) as i16
        } else {
            acc as i16
        };
        proof {
            assert(parse_exponent(tail) == Some(exponent as int));
        }
        Some(Floating::Normal { exponent, mantissa, is_negative })
    }

    /// Render this number into `f`, delimiting a scientific-notation
    /// exponent with `e` and `after_e`.  `e_waste` is the number of wasted
    /// characters tolerated before switching to scientific notation, and
    /// `power_ten`, when given, renders a mantissa of exactly one as a bare
    /// power of ten.
    pub fn fmt_with(
        &self,
        f: &mut String,
        e: &str,
        after_e: &str,
        e_waste: usize,
        power_ten: Option<&str>,
    )
        ensures
            final(f)@ == old(f)@ + spec_fmt_with(
                self@,
                e@,
                after_e@,
                e_waste as int,
                opt_str_view(power_ten),
            ),
    {
        match self {
            Floating::Abnormal(s) => {
                f.append(s.as_str());
            }
            Floating::Normal { exponent, mantissa, is_negative } => {
                let exp: i32 = *exponent as i32;
                // A threshold beyond the exponent range behaves like its
                // clamped value: the comparison outcome is the same.
                let ew: i32 = if e_waste > 32767 {
                    32767
                } else {
                    e_waste as i32
                };
                proof {
                    assert((exp > 1 + ew || exp < -2 - ew) == uses_scientific(
                        exp as int,
                        e_waste as int,
                    ));
                }
                if *is_negative {
                    f.push('-');
                }
                if exp > 1 + ew || exp < -2 - ew {
                    append_scientific(f, mantissa.as_str(), exp, e, after_e, power_ten);
                    proof {
                        assert(f@ =~= old(f)@ + spec_fmt_with(
                            self@,
                            e@,
                            after_e@,
                            e_waste as int,
                            opt_str_view(power_ten),
                        ));
                    }
                } else {
                    append_fixed(f, mantissa.as_str(), exp);
                    proof {
                        assert(f@ =~= old(f)@ + spec_fmt_with(
                            self@,
                            e@,
                            after_e@,
                            e_waste as int,
                            opt_str_view(power_ten),
                        ));
                    }
                }
            }
        }
    }
}

impl crate::DisplayAs<crate::HTML> for Floating {
    open spec fn displayed(&self) -> Seq<char> {
        spec_fmt_with(self@, "\u{d7}10<sup>"@, "</sup>"@, 3, Some("10<sup>"@))
    }

    fn fmt(&self, f: &mut String) {
        self.fmt_with(f, "\u{d7}10<sup>", "</sup>", 3, Some("10<sup>"));
    }
}

impl crate::DisplayAs<crate::LaTeX> for Floating {
    open spec fn displayed(&self) -> Seq<char> {
        spec_fmt_with(self@, "$\\times10^{"@, "}$"@, 3, Some("$10^{"@))
    }

    fn fmt(&self, f: &mut String) {
        self.fmt_with(f, "$\\times10^{", "}$", 3, Some("$10^{"));
    }
}

impl crate::DisplayAs<crate::Math> for Floating {
    open spec fn displayed(&self) -> Seq<char> {
        spec_fmt_with(self@, "\\times10^{"@, "}"@, 3, Some("10^{"@))
    }

    fn fmt(&self, f: &mut String) {
        self.fmt_with(f, "\\times10^{", "}", 3, Some("10^{"));
    }
}

impl crate::DisplayAs<crate::Rust> for Floating {
    open spec fn displayed(&self) -> Seq<char> {
        spec_fmt_with(self@, "e"@, ""@, 1, None)
    }

    fn fmt(&self, f: &mut String) {
        self.fmt_with(f, "e", "", 1, None);
    }
}

impl crate::DisplayAs<crate::URL> for Floating {
    open spec fn displayed(&self) -> Seq<char> {
        spec_fmt_with(self@, "e"@, ""@, 1, None)
    }

    fn fmt(&self, f: &mut String) {
        self.fmt_with(f, "e", "", 1, None);
    }
}

impl crate::DisplayAs<crate::UTF8> for Floating {
    open spec fn displayed(&self) -> Seq<char> {
        spec_fmt_with(self@, "e"@, ""@, 1, None)
    }

    fn fmt(&self, f: &mut String) {
        self.fmt_with(f, "e", "", 1, None);
    }
}

} // verus!
