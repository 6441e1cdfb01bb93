//! Decimal text for integers and fixed-point scalars.

use vstd::prelude::*;
use crate::vec3::UNIT;

verus! {

/// `String::push` appends the character to the end of the string.
pub assume_specification[ String::push ](s: &mut String, ch: char)
    ensures
        final(s)@ == old(s)@.push(ch),
;

/// The character for a decimal digit.
pub open spec fn digit(d: int) -> char {
    seq!['0', '1', '2', '3', '4', '5', '6', '7', '8', '9'][d]
}

/// The decimal digits of `n`, without leading zeros; `0` is one digit.
pub open spec fn digits(n: nat) -> Seq<char>
    decreases n,
{
    if n < 10 {
        seq![digit(n as int)]
    } else {
        digits(n / 10).push(digit((n % 10) as int))
    }
}

/// The decimal text of an integer, with a minus sign if it is negative.
pub open spec fn signed_digits(n: int) -> Seq<char> {
    if n < 0 {
        seq!['-'] + digits((-n) as nat)
    } else {
        digits(n as nat)
    }
}

/// The last `width` decimal digits of `n`, leading zeros kept.
pub open spec fn padded(n: nat, width: nat) -> Seq<char>
    decreases width,
{
    if width == 0 {
        Seq::empty()
    } else {
        padded(n / 10, (width - 1) as nat).push(digit((n % 10) as int))
    }
}

/// The digits after the decimal point of the fraction `n / 10^width`, without
/// trailing zeros.
pub open spec fn fraction(n: nat, width: nat) -> Seq<char>
    decreases width,
{
    if width == 0 {
        Seq::empty()
    } else if n % 10 == 0 {
        fraction(n / 10, (width - 1) as nat)
    } else {
        padded(n, width)
    }
}

/// The decimal text of the scalar `v`: an optional minus sign, the whole
/// part, and the fraction in as many digits as it needs. A scalar without a
/// fraction ends in `.0` if `keep_point` is set and in its last digit if not.
pub open spec fn decimal(v: int, keep_point: bool) -> Seq<char> {
    let m = if v < 0 {
        -v
    } else {
        v
    };
    let sign = if v < 0 {
        seq!['-']
    } else {
        Seq::empty()
    };
    let tail = if m % (UNIT as int) != 0 {
        seq!['.'] + fraction((m % (UNIT as int)) as nat, 6)
    } else if keep_point {
        seq!['.', '0']
    } else {
        Seq::empty()
    };
    sign + digits((m / (UNIT as int)) as nat) + tail
}

fn digit_char(d: u64) -> (c: char)
    requires
        d < 10,
    ensures
        c == digit(d as int),
{
    if d == 0 {
        '0'
    } else if d == 1 {
        '1'
    } else if d == 2 {
        '2'
    } else if d == 3 {
        '3'
    } else if d == 4 {
        '4'
    } else if d == 5 {
        '5'
    } else if d == 6 {
        '6'
    } else if d == 7 {
        '7'
    } else if d == 8 {
        '8'
    } else {
        '9'
    }
}

/// Appends the decimal digits of `n`.
pub fn push_digits(s: &mut String, n: u64)
    ensures
        final(s)@ == old(s)@ + digits(n as nat),
    decreases n,
{
    if n >= 10 {
        push_digits(s, n / 10);
    }
    s.push(digit_char(n % 10));
    assert(s@ =~= old(s)@ + digits(n as nat));
}

/// Appends the decimal text of a signed integer.
pub fn push_signed(s: &mut String, n: i64)
    ensures
        final(s)@ == old(s)@ + signed_digits(n as int),
{
    if n < 0 {
        s.push('-');
        let m: u64 = (-(n as i128)) as u64;
        push_digits(s, m);
    } else {
        push_digits(s, n as u64);
    }
    assert(s@ =~= old(s)@ + signed_digits(n as int));
}

fn push_padded(s: &mut String, n: u64, width: u8)
    ensures
        final(s)@ == old(s)@ + padded(n as nat, width as nat),
    decreases width,
{
    if width > 0 {
        push_padded(s, n / 10, width - 1);
        s.push(digit_char(n % 10));
    }
    assert(s@ =~= old(s)@ + padded(n as nat, width as nat));
}

fn push_fraction(s: &mut String, n: u64, width: u8)
    ensures
        final(s)@ == old(s)@ + fraction(n as nat, width as nat),
{
    let mut rest: u64 = n;
    let mut left: u8 = width;
    while left > 0 && rest % 10 == 0
        invariant
            fraction(rest as nat, left as nat) == fraction(n as nat, width as nat),
        decreases left,
    {
        rest = rest / 10;
        left = left - 1;
    }
    push_padded(s, rest, left);
    assert(s@ =~= old(s)@ + fraction(n as nat, width as nat));
}

/// Appends the decimal text of the scalar `v`.
pub fn push_decimal(s: &mut String, v: i64, keep_point: bool)
    ensures
        final(s)@ == old(s)@ + decimal(v as int, keep_point),
{
    let m: u64 = if v < 0 {
        (-(v as i128)) as u64
    } else {
        v as u64
    };
    if v < 0 {
        s.push('-');
    }
    push_digits(s, m / (UNIT as u64));
    let below: u64 = m % (UNIT as u64);
    if below != 0 {
        s.push('.');
        push_fraction(s, below, 6);
    } else if keep_point {
        s.push('.');
        s.push('0');
    }
    assert(s@ =~= old(s)@ + decimal(v as int, keep_point));
}

/// The decimal text of the scalar `v`; a whole number gets one decimal
/// digit, as in `1.0`.
pub fn format_scalar(v: i64) -> (s: String)
    ensures
        s@ == decimal(v as int, true),
{
    let mut s = String::new();
    push_decimal(&mut s, v, true);
    assert(s@ =~= decimal(v as int, true));
    s
}

} // verus!
