//! Byte counts and durations as the status output shows them.

use crate::text::{decimal, digit, digit_of, padded, push_decimal, push_padded, text_of};
use vstd::prelude::*;

verus! {

/// `num / den` rounded to the nearest whole number; a value exactly half way
/// between two whole numbers goes to the even one.
pub open spec fn round_half_even(num: nat, den: nat) -> nat {
    let q = num / den;
    let r = num % den;
    if 2 * r > den || (2 * r == den && q % 2 == 1) {
        q + 1
    } else {
        q
    }
}

/// The distance between neighbouring double-precision values around `n`:
/// 1 below 2^53, and doubling with every further bit of `n`.
pub open spec fn spacing(n: nat) -> nat
    decreases n,
{
    if n < 0x20_0000_0000_0000 {
        1
    } else {
        2 * spacing(n / 2)
    }
}

/// `n` as a double-precision value holds it: kept to 53 significant bits,
/// rounded to nearest with ties to even. Counts below 2^53 are unchanged.
pub open spec fn nearest_double(n: nat) -> nat {
    round_half_even(n, spacing(n)) * spacing(n)
}

/// The index of the unit in which `n` bytes are shown: the number of times
/// `n` can be divided by 1024 and stay at or above 1, at most 4.
pub open spec fn unit_index(n: nat) -> nat {
    if n < 0x400 {
        0
    } else if n < 0x10_0000 {
        1
    } else if n < 0x4000_0000 {
        2
    } else if n < 0x100_0000_0000 {
        3
    } else {
        4
    }
}

/// The number of bytes in one unit: 1024 to the power `i`.
pub open spec fn unit_size(i: nat) -> nat {
    if i == 0 {
        1
    } else if i == 1 {
        0x400
    } else if i == 2 {
        0x10_0000
    } else if i == 3 {
        0x4000_0000
    } else {
        0x100_0000_0000
    }
}

/// The name of the unit with index `i`.
pub open spec fn unit_name(i: nat) -> Seq<char> {
    if i == 0 {
        seq!['B']
    } else if i == 1 {
        seq!['K', 'B']
    } else if i == 2 {
        seq!['M', 'B']
    } else if i == 3 {
        seq!['G', 'B']
    } else {
        seq!['T', 'B']
    }
}

/// The number of tenths of a unit shown for `n` bytes.
pub open spec fn human_tenths(n: nat) -> nat {
    round_half_even(nearest_double(n) * 10, unit_size(unit_index(n)))
}

/// The text for `n` bytes: the count in the largest unit up to TB that keeps
/// it at or above 1, with one decimal, a space and the unit's name.
pub open spec fn human_text(n: nat) -> Seq<char> {
    let t = human_tenths(n);
    decimal(t / 10) + seq!['.', digit((t % 10) as int), ' '] + unit_name(unit_index(n))
}

/// The text for a duration of `sec` seconds, as `HH:MM:SS`. A negative
/// duration counts as zero; hours above 99 take the digits they need.
pub open spec fn hms_text(sec: int) -> Seq<char> {
    let s = if sec < 0 {
        0
    } else {
        sec
    };
    padded((s / 3600) as nat, 2) + seq![':'] + padded(((s % 3600) / 60) as nat, 2) + seq![':']
        + padded((s % 60) as nat, 2)
}

/// The distance between neighbouring double-precision values around `n`.
fn spacing_of(n: u64) -> (u: u64)
    ensures
        u == spacing(n as nat),
        1 <= u <= 0x1000,
        n < 0x20_0000_0000_0000 ==> u == 1,
        n >= 0x20_0000_0000_0000 ==> u * 0x10_0000_0000_0000 <= n,
    decreases n,
{
    if n < 0x20_0000_0000_0000 {
        1
    } else {
        let h = spacing_of(n / 2);
        2 * h
    }
}

/// `num / den`, rounded to nearest with ties to even.
fn round_div(num: u128, den: u128) -> (q: u128)
    requires
        den > 0,
        den <= 0x1_0000_0000_0000_0000_0000,
        num <= 0x1_0000_0000_0000_0000_0000,
    ensures
        q == round_half_even(num as nat, den as nat),
        q <= num / den + 1,
{
    let q = num / den;
    let r = num % den;
    assert(q <= num) by (nonlinear_arith)
        requires
            q == num / den,
            den > 0,
    ;
    if 2 * r > den || (2 * r == den && q % 2 == 1) {
        q + 1
    } else {
        q
    }
}

/// Formats a byte count with binary units and one decimal, such as
/// `1.5 KB`. The count is taken in double precision, so above 2^53 bytes it
/// is first rounded to 53 significant bits.
pub fn human(n: u64) -> (s: String)
    ensures
        s@ == human_text(n as nat),
{
    let u = spacing_of(n);
    let q = round_div(n as u128, u as u128);
    assert(q * u <= n + u) by (nonlinear_arith)
        requires
            q <= (n as u128) / (u as u128) + 1,
            u > 0,
    ;
    let value: u128 = q * (u as u128);
    assert(value == nearest_double(n as nat));
    let num: u128 = value * 10;
    let mut out: Vec<char> = Vec::new();
    let tenths: u128 = if n < 0x400 {
        round_div(num, 1)
    } else if n < 0x10_0000 {
        round_div(num, 0x400)
    } else if n < 0x4000_0000 {
        round_div(num, 0x10_0000)
    } else if n < 0x100_0000_0000 {
        round_div(num, 0x4000_0000)
    } else {
        round_div(num, 0x100_0000_0000)
    };
    assert(tenths == human_tenths(n as nat));
    let whole: u64 = (tenths / 10) as u64;
    let frac: u64 = (tenths % 10) as u64;
    push_decimal(&mut out, whole as u128);
    out.push('.');
    out.push(digit_of(frac));
    out.push(' ');
    if n < 0x400 {
        out.push('B');
    } else if n < 0x10_0000 {
        out.push('K');
        out.push('B');
    } else if n < 0x4000_0000 {
        out.push('M');
        out.push('B');
    } else if n < 0x100_0000_0000 {
        out.push('G');
        out.push('B');
    } else {
        out.push('T');
        out.push('B');
    }
    assert(out@ == human_text(n as nat));
    text_of(&out)
}

/// Formats a number of seconds as `HH:MM:SS`; a negative number as
/// `00:00:00`.
pub fn hms(sec: i64) -> (s: String)
    ensures
        s@ == hms_text(sec as int),
{
    let t: u64 = if sec < 0 {
        0
    } else {
        sec as u64
    };
    let mut out: Vec<char> = Vec::new();
    push_padded(&mut out, (t / 3600) as u128, 2);
    out.push(':');
    push_padded(&mut out, ((t % 3600) / 60) as u128, 2);
    out.push(':');
    push_padded(&mut out, (t % 60) as u128, 2);
    assert(out@ == hms_text(sec as int));
    text_of(&out)
}

} // verus!
