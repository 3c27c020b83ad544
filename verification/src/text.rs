//! Character-level helpers shared by the rest of the crate.
//!
//! Strings are modelled by their view, a `Seq<char>`. Executable code turns a
//! `&str` into a `Vec<char>`, works on that with random access, and builds a
//! `String` again at the end.

use vstd::prelude::*;

verus! {

/// `String::push` appends one character to the end of the string.
pub assume_specification[ String::push ](s: &mut String, c: char)
    ensures
        final(s)@ == old(s)@.push(c),
;

/// The lowercase form that `str::to_lowercase` gives a string. It follows
/// the Unicode case tables, so it may differ in length from its argument.
pub uninterp spec fn lowercase_of(s: Seq<char>) -> Seq<char>;

/// `str::to_lowercase` returns the lowercase form of the string, which
/// depends on the string's characters alone.
pub assume_specification[ str::to_lowercase ](s: &str) -> (r: String)
    ensures
        r@ == lowercase_of(s@),
;

/// Whether `c` counts as white space in Unicode (`White_Space`), as
/// `char::is_whitespace` reports it.
pub uninterp spec fn is_white_space(c: char) -> bool;

/// `char::is_whitespace` tells whether the character counts as white space
/// in Unicode (`White_Space`).
pub assume_specification[ char::is_whitespace ](c: char) -> (b: bool)
    ensures
        b == is_white_space(c),
;

/// `s` without the white space it begins with.
pub open spec fn trim_start(s: Seq<char>) -> Seq<char>
    decreases s.len(),
{
    if s.len() > 0 && is_white_space(s[0]) {
        trim_start(s.drop_first())
    } else {
        s
    }
}

/// `s` without the white space it ends with.
pub open spec fn trim_end(s: Seq<char>) -> Seq<char>
    decreases s.len(),
{
    if s.len() > 0 && is_white_space(s.last()) {
        trim_end(s.drop_last())
    } else {
        s
    }
}

/// `s` without white space at either end.
pub open spec fn trimmed(s: Seq<char>) -> Seq<char> {
    trim_end(trim_start(s))
}

/// The characters of `s` without white space at either end.
pub fn trim(s: &str) -> (v: Vec<char>)
    ensures
        v@ == trimmed(s@),
{
    let all = chars_of(s);
    let mut from: usize = 0;
    assert(all@.subrange(0, all.len() as int) == all@);
    while from < all.len() && all[from].is_whitespace()
        invariant
            from <= all.len(),
            trim_start(all@.subrange(from as int, all.len() as int)) == trim_start(all@),
        decreases all.len() - from,
    {
        assert(all@.subrange(from as int, all.len() as int).drop_first() == all@.subrange(
            from + 1,
            all.len() as int,
        ));
        from += 1;
    }
    let mut to: usize = all.len();
    while to > from && all[to - 1].is_whitespace()
        invariant
            from <= to <= all.len(),
            trim_end(all@.subrange(from as int, to as int)) == trimmed(all@),
        decreases to,
    {
        assert(all@.subrange(from as int, to as int).drop_last() == all@.subrange(
            from as int,
            to - 1,
        ));
        to -= 1;
    }
    let mut v: Vec<char> = Vec::new();
    let mut i: usize = from;
    while i < to
        invariant
            from <= i <= to <= all.len(),
            v@ == all@.subrange(from as int, i as int),
        decreases to - i,
    {
        v.push(all[i]);
        i += 1;
    }
    v
}

/// The characters of `s`, in order.
pub fn chars_of(s: &str) -> (v: Vec<char>)
    ensures
        v@ == s@,
{
    let mut v: Vec<char> = Vec::new();
    for c in it: s.chars()
        invariant
            v@ == it.seq().take(it.index()),
    {
        v.push(c);
    }
    v
}

/// The string made of the characters of `v`, in order.
pub fn text_of(v: &Vec<char>) -> (s: String)
    ensures
        s@ == v@,
{
    let mut s = String::new();
    let mut i: usize = 0;
    while i < v.len()
        invariant
            i <= v.len(),
            s@ == v@.take(i as int),
        decreases v.len() - i,
    {
        s.push(v[i]);
        i += 1;
    }
    s
}

/// Appends the characters of `s` to `out`.
pub fn push_text(out: &mut Vec<char>, s: &str)
    ensures
        final(out)@ == old(out)@ + s@,
{
    for c in it: s.chars()
        invariant
            out@ == old(out)@ + it.seq().take(it.index()),
    {
        out.push(c);
    }
}

/// Appends the elements of `src` to `out`.
pub fn push_all(out: &mut Vec<char>, src: &Vec<char>)
    ensures
        final(out)@ == old(out)@ + src@,
{
    let mut i: usize = 0;
    while i < src.len()
        invariant
            i <= src.len(),
            out@ == old(out)@ + src@.take(i as int),
        decreases src.len() - i,
    {
        out.push(src[i]);
        i += 1;
    }
}

/// Whether `s` begins with `p`.
pub fn starts_with(s: &Vec<char>, p: &Vec<char>) -> (b: bool)
    ensures
        b == p@.is_prefix_of(s@),
{
    if p.len() > s.len() {
        return false;
    }
    let mut i: usize = 0;
    while i < p.len()
        invariant
            i <= p.len() <= s.len(),
            s@.subrange(0, i as int) == p@.subrange(0, i as int),
        decreases p.len() - i,
    {
        if s[i] != p[i] {
            assert(s@.subrange(0, p.len() as int)[i as int] != p@[i as int]);
            return false;
        }
        assert(s@.subrange(0, i + 1) == s@.subrange(0, i as int).push(s@[i as int]));
        assert(p@.subrange(0, i + 1) == p@.subrange(0, i as int).push(p@[i as int]));
        i += 1;
    }
    assert(p@.subrange(0, p.len() as int) == p@);
    true
}

/// Whether `s` ends with `p`.
pub fn ends_with(s: &Vec<char>, p: &Vec<char>) -> (b: bool)
    ensures
        b == p@.is_suffix_of(s@),
{
    if p.len() > s.len() {
        return false;
    }
    let off: usize = s.len() - p.len();
    let ghost tail = s@.subrange(off as int, s.len() as int);
    let mut i: usize = 0;
    while i < p.len()
        invariant
            i <= p.len() <= s.len(),
            off == s.len() - p.len(),
            tail == s@.subrange(off as int, s.len() as int),
            tail.subrange(0, i as int) == p@.subrange(0, i as int),
        decreases p.len() - i,
    {
        if s[off + i] != p[i] {
            assert(tail[i as int] != p@[i as int]);
            return false;
        }
        assert(tail.subrange(0, i + 1) == tail.subrange(0, i as int).push(tail[i as int]));
        assert(p@.subrange(0, i + 1) == p@.subrange(0, i as int).push(p@[i as int]));
        i += 1;
    }
    assert(p@.subrange(0, p.len() as int) == p@);
    assert(tail.subrange(0, p.len() as int) == tail);
    true
}

/// The decimal digit for `d`, for `0 <= d <= 9`.
pub open spec fn digit(d: int) -> char {
    if d == 0 {
        '0'
    } else if d == 1 {
        '1'
    } else if d == 2 {
        '2'
    } else if d == 3 {
        '3'
    } else if d == 4 {
        '4'
    } else if d == 5 {
        '5'
    } else if d == 6 {
        '6'
    } else if d == 7 {
        '7'
    } else if d == 8 {
        '8'
    } else {
        '9'
    }
}

/// Whether `c` is one of the ten ASCII digits.
pub open spec fn is_digit(c: char) -> bool {
    '0' <= c && c <= '9'
}

/// The value of the ASCII digit `c`.
pub open spec fn digit_value(c: char) -> int {
    c as int - '0' as int
}

/// The decimal notation of `n`, without sign or leading zeros.
pub open spec fn decimal(n: nat) -> Seq<char>
    decreases n,
{
    if n < 10 {
        seq![digit(n as int)]
    } else {
        decimal(n / 10).push(digit((n % 10) as int))
    }
}

/// The character `c`, `k` times.
pub open spec fn run(k: nat, c: char) -> Seq<char> {
    Seq::new(k, |i: int| c)
}

/// The decimal notation of `n`, with `fill` on the left up to `width`
/// characters. A number with more digits than `width` is not cut.
pub open spec fn filled(n: nat, width: nat, fill: char) -> Seq<char> {
    let d = decimal(n);
    if d.len() < width {
        run((width - d.len()) as nat, fill) + d
    } else {
        d
    }
}

/// The decimal notation of `n`, filled with zeros on the left up to `width`
/// characters.
pub open spec fn padded(n: nat, width: nat) -> Seq<char> {
    filled(n, width, '0')
}

/// The decimal notation of `n`, filled with spaces on the left up to `width`
/// characters.
pub open spec fn aligned(n: nat, width: nat) -> Seq<char> {
    filled(n, width, ' ')
}

/// The decimal digit for `d`.
pub fn digit_of(d: u64) -> (c: char)
    requires
        d < 10,
    ensures
        c == digit(d as int),
        is_digit(c),
        digit_value(c) == d,
{
    if d == 0 {
        '0'
    } else if d == 1 {
        '1'
    } else if d == 2 {
        '2'
    } else if d == 3 {
        '3'
    } else if d == 4 {
        '4'
    } else if d == 5 {
        '5'
    } else if d == 6 {
        '6'
    } else if d == 7 {
        '7'
    } else if d == 8 {
        '8'
    } else {
        '9'
    }
}

/// Appends the decimal notation of `n` to `out`.
pub fn push_decimal(out: &mut Vec<char>, n: u128)
    ensures
        final(out)@ == old(out)@ + decimal(n as nat),
    decreases n,
{
    if n >= 10 {
        push_decimal(out, n / 10);
    }
    out.push(digit_of((n % 10) as u64));
}

/// Appends the decimal notation of `n`, zero-filled to `width` characters.
pub fn push_padded(out: &mut Vec<char>, n: u128, width: usize)
    ensures
        final(out)@ == old(out)@ + padded(n as nat, width as nat),
{
    push_filled(out, n, width, '0');
}

/// Appends the decimal notation of `n`, filled with spaces on the left up to
/// `width` characters.
pub fn push_aligned(out: &mut Vec<char>, n: u128, width: usize)
    ensures
        final(out)@ == old(out)@ + aligned(n as nat, width as nat),
{
    push_filled(out, n, width, ' ');
}

/// Appends the decimal notation of `n`, with `fill` on the left up to
/// `width` characters.
fn push_filled(out: &mut Vec<char>, n: u128, width: usize, fill: char)
    ensures
        final(out)@ == old(out)@ + filled(n as nat, width as nat, fill),
{
    let mut digits: Vec<char> = Vec::new();
    push_decimal(&mut digits, n);
    assert(digits@ == decimal(n as nat));
    let mut k: usize = digits.len();
    while k < width
        invariant
            digits.len() <= k,
            digits.len() < width ==> k <= width,
            digits.len() >= width ==> k == digits.len(),
            out@ == old(out)@ + run((k - digits.len()) as nat, fill),
        decreases width - k,
    {
        out.push(fill);
        k += 1;
    }
    let ghost lead = run((k - digits.len()) as nat, fill);
    push_all(out, &digits);
    assert(out@ == old(out)@ + (lead + digits@));
    assert(digits.len() >= width ==> lead + digits@ == digits@);
}

} // verus!
