//! Sizes written for people, such as `1900m` or `2g`.

use crate::error::MergeError;
use crate::text::{chars_of, digit_value, is_digit, lowercase_of, text_of, trim, trimmed};
use vstd::prelude::*;

verus! {

/// The ASCII digits of `s`, in the order in which they stand in it.
pub open spec fn digits_of(s: Seq<char>) -> Seq<char>
    decreases s.len(),
{
    if s.len() == 0 {
        Seq::empty()
    } else if is_digit(s.last()) {
        digits_of(s.drop_last()).push(s.last())
    } else {
        digits_of(s.drop_last())
    }
}

/// The characters of `s` that are no ASCII digits, in their order.
pub open spec fn letters_of(s: Seq<char>) -> Seq<char>
    decreases s.len(),
{
    if s.len() == 0 {
        Seq::empty()
    } else if is_digit(s.last()) {
        letters_of(s.drop_last())
    } else {
        letters_of(s.drop_last()).push(s.last())
    }
}

/// The number that the digits `d` write in decimal; 0 for no digits.
pub open spec fn number_of(d: Seq<char>) -> nat
    decreases d.len(),
{
    if d.len() == 0 {
        0
    } else {
        (number_of(d.drop_last()) * 10 + digit_value(d.last())) as nat
    }
}

/// The factor that a unit stands for: powers of 1024 for `k`, `m`, `g` and
/// `t`, each also with a `b` behind it, and 1 for anything else.
pub open spec fn multiplier(unit: Seq<char>) -> nat {
    if unit == seq!['k'] || unit == seq!['k', 'b'] {
        0x400
    } else if unit == seq!['m'] || unit == seq!['m', 'b'] {
        0x10_0000
    } else if unit == seq!['g'] || unit == seq!['g', 'b'] {
        0x4000_0000
    } else if unit == seq!['t'] || unit == seq!['t', 'b'] {
        0x100_0000_0000
    } else {
        1
    }
}

/// The size that a trimmed, lowercase text stands for.
///
/// The empty text stands for 0. Otherwise the digits of the text, wherever
/// they stand in it, are read as one decimal number, and what is left over is
/// the unit. A text without digits is refused, and so is one whose number, or
/// whose number times the unit's factor, does not fit in 64 bits.
pub open spec fn size_of_text(t: Seq<char>) -> Result<u64, MergeError> {
    if t.len() == 0 {
        Ok(0)
    } else if digits_of(t).len() == 0 {
        Err(MergeError::InvalidInput)
    } else if number_of(digits_of(t)) * multiplier(letters_of(t)) > u64::MAX {
        Err(MergeError::InvalidInput)
    } else {
        Ok((number_of(digits_of(t)) * multiplier(letters_of(t))) as u64)
    }
}

/// The factor that the unit stands for.
fn unit_factor(unit: &Vec<char>) -> (m: u64)
    ensures
        m == multiplier(unit@),
        1 <= m <= 0x100_0000_0000,
{
    let with_b = unit.len() == 2 && unit[1] == 'b';
    if unit.len() == 1 || with_b {
        let c = unit[0];
        proof {
            let u = unit@;
            assert(with_b ==> u == seq![c, 'b']);
            assert(!with_b ==> u == seq![c]);
            assert(seq!['k'][0] == 'k' && seq!['m'][0] == 'm' && seq!['g'][0] == 'g' && seq!['t'][0]
                == 't');
            assert(seq!['k', 'b'][0] == 'k' && seq!['m', 'b'][0] == 'm' && seq!['g', 'b'][0] == 'g'
                && seq!['t', 'b'][0] == 't');
            assert(seq!['k', 'b'].len() == 2 && seq!['m', 'b'].len() == 2 && seq!['g', 'b'].len()
                == 2 && seq!['t', 'b'].len() == 2);
            assert(seq!['k'].len() == 1 && seq!['m'].len() == 1 && seq!['g'].len() == 1 && seq![
                't',
            ].len() == 1);
        }
        if c == 'k' {
            0x400
        } else if c == 'm' {
            0x10_0000
        } else if c == 'g' {
            0x4000_0000
        } else if c == 't' {
            0x100_0000_0000
        } else {
            1
        }
    } else {
        proof {
            let u = unit@;
            assert(seq!['k', 'b'].len() == 2 && seq!['m', 'b'].len() == 2 && seq!['g', 'b'].len()
                == 2 && seq!['t', 'b'].len() == 2);
            assert(seq!['k'].len() == 1 && seq!['m'].len() == 1 && seq!['g'].len() == 1 && seq![
                't',
            ].len() == 1);
            assert(seq!['k', 'b'][1] == 'b' && seq!['m', 'b'][1] == 'b' && seq!['g', 'b'][1] == 'b'
                && seq!['t', 'b'][1] == 'b');
        }
        1
    }
}

/// Reads a size from a text that is already trimmed and in lowercase.
pub fn parse_normalized_size(t: &str) -> (r: Result<u64, MergeError>)
    ensures
        r == size_of_text(t@),
{
    let s = chars_of(t);
    if s.len() == 0 {
        return Ok(0);
    }
    let mut unit: Vec<char> = Vec::new();
    let mut value: u64 = 0;
    let mut any_digit = false;
    let mut fits = true;
    let mut i: usize = 0;
    assert(s@.take(0) == Seq::<char>::empty());
    while i < s.len()
        invariant
            i <= s.len(),
            unit@ == letters_of(s@.take(i as int)),
            any_digit == (digits_of(s@.take(i as int)).len() > 0),
            fits ==> value == number_of(digits_of(s@.take(i as int))),
            !fits ==> number_of(digits_of(s@.take(i as int))) > u64::MAX,
        decreases s.len() - i,
    {
        let c = s[i];
        proof {
            assert(s@.take(i + 1).drop_last() == s@.take(i as int));
            assert(s@.take(i + 1).last() == c);
        }
        let ghost before = digits_of(s@.take(i as int));
        if '0' <= c && c <= '9' {
            let d: u64 = (c as u64) - ('0' as u64);
            proof {
                assert(digits_of(s@.take(i + 1)) == before.push(c));
                assert(before.push(c).drop_last() == before);
                assert(number_of(before.push(c)) == number_of(before) * 10 + d);
            }
            any_digit = true;
            if fits {
                match value.checked_mul(10) {
                    Some(v10) => match v10.checked_add(d) {
                        Some(v) => {
                            value = v;
                        },
                        None => {
                            fits = false;
                        },
                    },
                    None => {
                        fits = false;
                    },
                }
            }
        } else {
            unit.push(c);
        }
        i += 1;
    }
    assert(s@.take(s.len() as int) == s@);
    if !any_digit {
        return Err(MergeError::InvalidInput);
    }
    let m = unit_factor(&unit);
    if !fits {
        assert(number_of(digits_of(s@)) * multiplier(unit@) > u64::MAX) by (nonlinear_arith)
            requires
                number_of(digits_of(s@)) > u64::MAX,
                multiplier(unit@) >= 1,
        ;
        return Err(MergeError::InvalidInput);
    }
    match value.checked_mul(m) {
        Some(v) => Ok(v),
        None => Err(MergeError::InvalidInput),
    }
}

/// Reads a size such as `1900m` or `2g`.
///
/// White space around the text and the case of its letters do not count. The
/// empty text reads as 0; the unit multiplies by powers of 1024.
pub fn parse_size(s: &str) -> (r: Result<u64, MergeError>)
    ensures
        r == size_of_text(lowercase_of(trimmed(s@))),
{
    let t = text_of(&trim(s));
    let lower = t.as_str().to_lowercase();
    parse_normalized_size(lower.as_str())
}

} // verus!
