//! Decimal notation: the digits of a number as characters, and verified
//! formatting of unsigned and signed machine integers.

use vstd::prelude::*;
use crate::text::push_char;

verus! {

/// The character for one decimal digit.
pub open spec fn spec_digit(d: int) -> char
    recommends
        0 <= d < 10,
{
    if d == 0 {
        '0'
    } else if d == 1 {
        '1'
    } else if d == 2 {
        '2'
    } else if d == 3 {
        '3'
    } else if d == 4 {
        '4'
    } else if d == 5 {
        '5'
    } else if d == 6 {
        '6'
    } else if d == 7 {
        '7'
    } else if d == 8 {
        '8'
    } else {
        '9'
    }
}

/// The decimal digits of a natural number, most significant first, with no
/// leading zero except on zero itself.
pub open spec fn spec_dec_nat(n: nat) -> Seq<char>
    decreases n,
{
    if n < 10 {
        seq![spec_digit(n as int)]
    } else {
        spec_dec_nat(n / 10).push(spec_digit((n % 10) as int))
    }
}

/// The decimal notation of an integer: a minus sign before the digits of the
/// magnitude when it is negative.
pub open spec fn spec_dec_int(i: int) -> Seq<char> {
    if i < 0 {
        seq!['-'] + spec_dec_nat((-i) as nat)
    } else {
        spec_dec_nat(i as nat)
    }
}

/// The character for one decimal digit.
fn digit_char(d: u32) -> (c: char)
    requires
        d < 10,
    ensures
        c == spec_digit(d as int),
{
    match d {
        0 => '0',
        1 => '1',
        2 => '2',
        3 => '3',
        4 => '4',
        5 => '5',
        6 => '6',
        7 => '7',
        8 => '8',
        _ => '9',
    }
}

/// Appends the decimal digits of `n` to the string.
pub fn push_u64_dec(out: &mut String, n: u64)
    ensures
        final(out)@ == old(out)@ + spec_dec_nat(n as nat),
    decreases n,
{
    if n < 10 {
        push_char(out, digit_char(n as u32));
        assert(final(out)@ =~= old(out)@ + spec_dec_nat(n as nat));
    } else {
        push_u64_dec(out, n / 10);
        push_char(out, digit_char((n % 10) as u32));
        assert(final(out)@ =~= old(out)@ + spec_dec_nat(n as nat));
    }
}

/// Appends the decimal digits of `n` to the string.
pub fn push_u32_dec(out: &mut String, n: u32)
    ensures
        final(out)@ == old(out)@ + spec_dec_nat(n as nat),
{
    push_u64_dec(out, n as u64);
}

/// Appends the decimal notation of `i` to the string.
pub fn push_i64_dec(out: &mut String, i: i64)
    ensures
        final(out)@ == old(out)@ + spec_dec_int(i as int),
{
    if i < 0 {
        push_char(out, '-');
        let magnitude: u64 = ((-(i as i128)) as u64);
        push_u64_dec(out, magnitude);
        assert(final(out)@ =~= old(out)@ + spec_dec_int(i as int));
    } else {
        push_u64_dec(out, i as u64);
    }
}

/// Appends the decimal notation of `i` to the string.
pub fn push_i32_dec(out: &mut String, i: i32)
    ensures
        final(out)@ == old(out)@ + spec_dec_int(i as int),
{
    push_i64_dec(out, i as i64);
}

/// The decimal digits of `n` as a fresh string.
pub fn u32_to_dec(n: u32) -> (r: String)
    ensures
        r@ == spec_dec_nat(n as nat),
{
    let mut out = String::new();
    push_u32_dec(&mut out, n);
    assert(out@ =~= spec_dec_nat(n as nat));
    out
}

/// The decimal notation of `i` as a fresh string.
pub fn i32_to_dec(i: i32) -> (r: String)
    ensures
        r@ == spec_dec_int(i as int),
{
    let mut out = String::new();
    push_i32_dec(&mut out, i);
    assert(out@ =~= spec_dec_int(i as int));
    out
}

} // verus!
