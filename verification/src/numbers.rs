//! Decimal rendering of integers.
//!
//! Integers render as their canonical decimal text in every format; they are
//! never escaped, so one rendering serves all formats.

use crate::DisplayAs;
use crate::Format;
use vstd::prelude::*;

verus! {

/// The decimal digit character of a value below ten.
pub open spec fn digit_char(n: int) -> char {
    if n == 0 {
        '0'
    } else if n == 1 {
        '1'
    } else if n == 2 {
        '2'
    } else if n == 3 {
        '3'
    } else if n == 4 {
        '4'
    } else if n == 5 {
        '5'
    } else if n == 6 {
        '6'
    } else if n == 7 {
        '7'
    } else if n == 8 {
        '8'
    } else {
        '9'
    }
}

/// The canonical decimal text of a non-negative integer.
pub open spec fn dec_digits(n: int) -> Seq<char>
    decreases n,
{
    if n < 0 {
        Seq::empty()
    } else if n < 10 {
        seq![digit_char(n)]
    } else {
        dec_digits(n / 10).push(digit_char(n % 10))
    }
}

/// The canonical decimal text of an integer, with its sign.
pub open spec fn dec_signed(n: int) -> Seq<char> {
    if n < 0 {
        seq!['-'] + dec_digits(-n)
    } else {
        dec_digits(n)
    }
}

/// The decimal digit character of a value below ten.
pub fn digit_char_exec(n: u8) -> (c: char)
    requires
        n < 10,
    ensures
        c == digit_char(n as int),
{
    match n {
        0 => '0',
        1 => '1',
        2 => '2',
        3 => '3',
        4 => '4',
        5 => '5',
        6 => '6',
        7 => '7',
        8 => '8',
        _ => '9',
    }
}

/// Append the canonical decimal text of `n`.
pub fn append_dec_u128(f: &mut String, n: u128)
    ensures
        final(f)@ == old(f)@ + dec_digits(n as int),
    decreases n,
{
    if n < 10 {
        f.push(digit_char_exec(n as u8));
        proof {
            assert(f@ =~= old(f)@ + dec_digits(n as int));
        }
    } else {
        append_dec_u128(f, n / 10);
        f.push(digit_char_exec((n % 10) as u8));
        proof {
            assert(f@ =~= old(f)@ + dec_digits(n as int));
        }
    }
}

/// Append the canonical decimal text of `n`, with its sign.
pub fn append_dec_i128(f: &mut String, n: i128)
    ensures
        final(f)@ == old(f)@ + dec_signed(n as int),
{
    if n < 0 {
        f.push('-');
        let m: u128 = if n == i128::MIN {
            (i128::MAX as u128) + 1
        } else {
            (-n) as u128
        };
        proof {
            assert(m as int == -(n as int));
        }
        append_dec_u128(f, m);
        proof {
            assert(f@ =~= old(f)@ + dec_signed(n as int));
        }
    } else {
        append_dec_u128(f, n as u128);
    }
}

impl<F: Format> DisplayAs<F> for u8 {
    open spec fn displayed(&self) -> Seq<char> {
        dec_digits(*self as int)
    }

    fn fmt(&self, f: &mut String) {
        append_dec_u128(f, *self as u128);
    }
}

impl<F: Format> DisplayAs<F> for u16 {
    open spec fn displayed(&self) -> Seq<char> {
        dec_digits(*self as int)
    }

    fn fmt(&self, f: &mut String) {
        append_dec_u128(f, *self as u128);
    }
}

impl<F: Format> DisplayAs<F> for u32 {
    open spec fn displayed(&self) -> Seq<char> {
        dec_digits(*self as int)
    }

    fn fmt(&self, f: &mut String) {
        append_dec_u128(f, *self as u128);
    }
}

impl<F: Format> DisplayAs<F> for u64 {
    open spec fn displayed(&self) -> Seq<char> {
        dec_digits(*self as int)
    }

    fn fmt(&self, f: &mut String) {
        append_dec_u128(f, *self as u128);
    }
}

impl<F: Format> DisplayAs<F> for u128 {
    open spec fn displayed(&self) -> Seq<char> {
        dec_digits(*self as int)
    }

    fn fmt(&self, f: &mut String) {
        append_dec_u128(f, *self);
    }
}

impl<F: Format> DisplayAs<F> for usize {
    open spec fn displayed(&self) -> Seq<char> {
        dec_digits(*self as int)
    }

    fn fmt(&self, f: &mut String) {
        append_dec_u128(f, *self as u128);
    }
}

impl<F: Format> DisplayAs<F> for i8 {
    open spec fn displayed(&self) -> Seq<char> {
        dec_signed(*self as int)
    }

    fn fmt(&self, f: &mut String) {
        append_dec_i128(f, *self as i128);
    }
}

impl<F: Format> DisplayAs<F> for i16 {
    open spec fn displayed(&self) -> Seq<char> {
        dec_signed(*self as int)
    }

    fn fmt(&self, f: &mut String) {
        append_dec_i128(f, *self as i128);
    }
}

impl<F: Format> DisplayAs<F> for i32 {
    open spec fn displayed(&self) -> Seq<char> {
        dec_signed(*self as int)
    }

    fn fmt(&self, f: &mut String) {
        append_dec_i128(f, *self as i128);
    }
}

impl<F: Format> DisplayAs<F> for i64 {
    open spec fn displayed(&self) -> Seq<char> {
        dec_signed(*self as int)
    }

    fn fmt(&self, f: &mut String) {
        append_dec_i128(f, *self as i128);
    }
}

impl<F: Format> DisplayAs<F> for i128 {
    open spec fn displayed(&self) -> Seq<char> {
        dec_signed(*self as int)
    }

    fn fmt(&self, f: &mut String) {
        append_dec_i128(f, *self);
    }
}

impl<F: Format> DisplayAs<F> for isize {
    open spec fn displayed(&self) -> Seq<char> {
        dec_signed(*self as int)
    }

    fn fmt(&self, f: &mut String) {
        append_dec_i128(f, *self as i128);
    }
}

} // verus!
