//! Decimal and hexadecimal digit rendering and reading, the ground the wire
//! codec's text forms are built on.

use vstd::prelude::*;

verus! {

/// Relies on `String::push`: appends exactly the given character at the end.
#[verifier::external_body]
pub(crate) fn push_char(s: &mut String, c: char)
    ensures
        final(s)@ == old(s)@.push(c),
{
    s.push(c);
}

/// The character for one decimal (or low hexadecimal) digit value.
pub open spec fn digit_char(d: int) -> char {
    if d == 0 {
        '0'
    } else if d == 1 {
        '1'
    } else if d == 2 {
        '2'
    } else if d == 3 {
        '3'
    } else if d == 4 {
        '4'
    } else if d == 5 {
        '5'
    } else if d == 6 {
        '6'
    } else if d == 7 {
        '7'
    } else if d == 8 {
        '8'
    } else {
        '9'
    }
}

/// The value of a decimal digit character, or -1 for any other character.
pub open spec fn digit_val(c: char) -> int {
    if c == '0' {
        0
    } else if c == '1' {
        1
    } else if c == '2' {
        2
    } else if c == '3' {
        3
    } else if c == '4' {
        4
    } else if c == '5' {
        5
    } else if c == '6' {
        6
    } else if c == '7' {
        7
    } else if c == '8' {
        8
    } else if c == '9' {
        9
    } else {
        -1
    }
}

/// The character for one hexadecimal digit value, lower case.
pub open spec fn hex_char(d: int) -> char {
    if d < 10 {
        digit_char(d)
    } else if d == 10 {
        'a'
    } else if d == 11 {
        'b'
    } else if d == 12 {
        'c'
    } else if d == 13 {
        'd'
    } else if d == 14 {
        'e'
    } else {
        'f'
    }
}

/// The value of a hexadecimal digit character (both cases), or -1.
pub open spec fn hex_val(c: char) -> int {
    if digit_val(c) >= 0 {
        digit_val(c)
    } else if c == 'a' || c == 'A' {
        10
    } else if c == 'b' || c == 'B' {
        11
    } else if c == 'c' || c == 'C' {
        12
    } else if c == 'd' || c == 'D' {
        13
    } else if c == 'e' || c == 'E' {
        14
    } else if c == 'f' || c == 'F' {
        15
    } else {
        -1
    }
}

pub open spec fn pow10(w: int) -> int
    decreases w,
{
    if w <= 0 {
        1
    } else {
        10 * pow10(w - 1)
    }
}

/// `v` rendered as exactly `w` decimal digits, most significant first.
pub open spec fn pad_dec(v: int, w: int) -> Seq<char>
    decreases w,
{
    if w <= 0 {
        Seq::empty()
    } else {
        pad_dec(v / 10, w - 1).push(digit_char(v % 10))
    }
}

/// `v` rendered as decimal with no leading zero (a single `0` for zero).
pub open spec fn dec_digits(v: int) -> Seq<char>
    decreases v,
{
    if v < 10 {
        seq![digit_char(v)]
    } else {
        dec_digits(v / 10).push(digit_char(v % 10))
    }
}

/// Whether `w` characters from `start` on are all decimal digits.
pub open spec fn all_digits(s: Seq<char>, start: int, w: int) -> bool
    decreases w,
{
    if w <= 0 {
        true
    } else {
        all_digits(s, start, w - 1) && digit_val(s[start + w - 1]) >= 0
    }
}

/// The value of the `w` digits from `start` on, most significant first.
pub open spec fn digits_val(s: Seq<char>, start: int, w: int) -> int
    decreases w,
{
    if w <= 0 {
        0
    } else {
        digits_val(s, start, w - 1) * 10 + digit_val(s[start + w - 1])
    }
}

/// Reading digits looks only at the `w` characters from `start` on.
pub proof fn lemma_digits_val_ext(s1: Seq<char>, s2: Seq<char>, start1: int, start2: int, w: int)
    requires
        forall|k: int| 0 <= k < w ==> s1[start1 + k] == #[trigger] s2[start2 + k],
    ensures
        digits_val(s1, start1, w) == digits_val(s2, start2, w),
        all_digits(s1, start1, w) == all_digits(s2, start2, w),
    decreases w,
{
    if w > 0 {
        lemma_digits_val_ext(s1, s2, start1, start2, w - 1);
        assert(s1[start1 + w - 1] == s2[start2 + w - 1]);
    }
}

pub proof fn lemma_pad_dec_len(v: int, w: int)
    ensures
        pad_dec(v, w).len() == if w <= 0 {
            0int
        } else {
            w
        },
    decreases w,
{
    if w > 0 {
        lemma_pad_dec_len(v / 10, w - 1);
    }
}

/// Reading back a fixed-width rendering gives the value back, for values
/// that fit the width.
pub proof fn lemma_digits_of_pad(v: int, w: int)
    requires
        0 <= w,
        0 <= v < pow10(w),
    ensures
        pad_dec(v, w).len() == w,
        all_digits(pad_dec(v, w), 0, w),
        digits_val(pad_dec(v, w), 0, w) == v,
    decreases w,
{
    lemma_pad_dec_len(v, w);
    if w > 0 {
        lemma_digits_of_pad(v / 10, w - 1);
        let prefix = pad_dec(v / 10, w - 1);
        let whole = pad_dec(v, w);
        assert(whole == prefix.push(digit_char(v % 10)));
        lemma_digits_val_ext(whole, prefix, 0, 0, w - 1);
        assert(digit_val(whole[w - 1]) == v % 10);
        assert(digits_val(whole, 0, w) == (v / 10) * 10 + v % 10);
    }
}

/// The digit for a value below ten.
pub(crate) fn digit_char_exec(d: u64) -> (c: char)
    requires
        d < 10,
    ensures
        c == digit_char(d as int),
{
    match d {
        0 => '0',
        1 => '1',
        2 => '2',
        3 => '3',
        4 => '4',
        5 => '5',
        6 => '6',
        7 => '7',
        8 => '8',
        _ => '9',
    }
}

/// The value of a decimal digit character, or `None` for any other.
pub(crate) fn digit_val_exec(c: char) -> (r: Option<u64>)
    ensures
        digit_val(c) >= 0 ==> r == Some(digit_val(c) as u64),
        digit_val(c) < 0 ==> r is None,
{
    match c {
        '0' => Some(0),
        '1' => Some(1),
        '2' => Some(2),
        '3' => Some(3),
        '4' => Some(4),
        '5' => Some(5),
        '6' => Some(6),
        '7' => Some(7),
        '8' => Some(8),
        '9' => Some(9),
        _ => None,
    }
}

/// The hexadecimal digit for a value below sixteen, lower case.
pub(crate) fn hex_char_exec(d: u64) -> (c: char)
    requires
        d < 16,
    ensures
        c == hex_char(d as int),
{
    if d < 10 {
        digit_char_exec(d)
    } else {
        match d {
            10 => 'a',
            11 => 'b',
            12 => 'c',
            13 => 'd',
            14 => 'e',
            _ => 'f',
        }
    }
}

/// The value of a hexadecimal digit character, or `None` for any other.
pub(crate) fn hex_val_exec(c: char) -> (r: Option<u64>)
    ensures
        hex_val(c) >= 0 ==> r == Some(hex_val(c) as u64),
        hex_val(c) < 0 ==> r is None,
{
    match c {
        '0' => Some(0),
        '1' => Some(1),
        '2' => Some(2),
        '3' => Some(3),
        '4' => Some(4),
        '5' => Some(5),
        '6' => Some(6),
        '7' => Some(7),
        '8' => Some(8),
        '9' => Some(9),
        'a' | 'A' => Some(10),
        'b' | 'B' => Some(11),
        'c' | 'C' => Some(12),
        'd' | 'D' => Some(13),
        'e' | 'E' => Some(14),
        'f' | 'F' => Some(15),
        _ => None,
    }
}

/// Append `v` as exactly `w` decimal digits, most significant first.
pub(crate) fn push_pad(out: &mut String, v: u64, w: usize)
    ensures
        final(out)@ == old(out)@ + pad_dec(v as int, w as int),
    decreases w,
{
    if w == 0 {
        proof {
            assert(out@ =~= old(out)@ + pad_dec(v as int, 0));
        }
    } else {
        push_pad(out, v / 10, w - 1);
        push_char(out, digit_char_exec(v % 10));
        proof {
            assert(out@ =~= old(out)@ + pad_dec(v as int, w as int));
        }
    }
}

/// Append `v` in decimal, no leading zero.
pub(crate) fn push_dec(out: &mut String, v: u64)
    ensures
        final(out)@ == old(out)@ + dec_digits(v as int),
    decreases v,
{
    if v < 10 {
        push_char(out, digit_char_exec(v));
        proof {
            assert(out@ =~= old(out)@ + dec_digits(v as int));
        }
    } else {
        push_dec(out, v / 10);
        push_char(out, digit_char_exec(v % 10));
        proof {
            assert(out@ =~= old(out)@ + dec_digits(v as int));
        }
    }
}

} // verus!
