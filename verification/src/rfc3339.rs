//! Timestamps as milliseconds since the Unix epoch, rendered to and read
//! from the RFC 3339 text form `YYYY-MM-DDThh:mm:ss.mmmZ` used on the wire.

use vstd::prelude::*;
use vstd::string::StrSliceExecFns;
use crate::digits::{
    all_digits, digit_val, digit_val_exec, digits_val, lemma_digits_of_pad, lemma_digits_val_ext,
    pad_dec, pow10, push_char, push_pad,
};

verus! {

/// Milliseconds at 10000-01-01T00:00:00Z, the first instant the four-digit
/// year form cannot carry.
pub const TEXT_RANGE_END_MS: u64 = 253402300800000;

pub open spec fn is_leap_year(y: int) -> bool {
    y % 4 == 0 && (y % 100 != 0 || y % 400 == 0)
}

pub open spec fn days_in_year(y: int) -> int {
    if is_leap_year(y) {
        366
    } else {
        365
    }
}

/// Days from 1970-01-01 to the first day of year `y`.
pub open spec fn days_before_year(y: int) -> int
    decreases y - 1970,
{
    if y <= 1970 {
        0
    } else {
        days_before_year(y - 1) + days_in_year(y - 1)
    }
}

/// Days in month `m` (1 to 12) of year `y`.
pub open spec fn days_in_month(y: int, m: int) -> int {
    if m == 2 {
        if is_leap_year(y) {
            29
        } else {
            28
        }
    } else if m == 4 || m == 6 || m == 9 || m == 11 {
        30
    } else {
        31
    }
}

/// Days from the first day of year `y` to the first day of its month `m`.
pub open spec fn days_before_month(y: int, m: int) -> int
    decreases m,
{
    if m <= 1 {
        0
    } else {
        days_before_month(y, m - 1) + days_in_month(y, m - 1)
    }
}

/// The instant a calendar date and time-of-day name, as milliseconds since
/// the epoch.
pub open spec fn epoch_ms_of(y: int, m: int, d: int, h: int, mi: int, s: int, ms: int) -> int {
    ((((days_before_year(y) + days_before_month(y, m) + (d - 1)) * 24 + h) * 60 + mi) * 60 + s)
        * 1000 + ms
}

/// A calendar date and time-of-day that exist, from 1970 on.
pub open spec fn valid_parts(y: int, m: int, d: int, h: int, mi: int, s: int, ms: int) -> bool {
    &&& 1970 <= y
    &&& 1 <= m <= 12
    &&& 1 <= d <= days_in_month(y, m)
    &&& 0 <= h < 24
    &&& 0 <= mi < 60
    &&& 0 <= s < 60
    &&& 0 <= ms < 1000
}

/// What the 24-character text form denotes: the instant, if the text is
/// well-formed and names a date that exists; nothing otherwise.
pub open spec fn parse_timestamp(s: Seq<char>) -> Option<u64> {
    if s.len() == 24 && all_digits(s, 0, 4) && s[4] == '-' && all_digits(s, 5, 2) && s[7] == '-'
        && all_digits(s, 8, 2) && s[10] == 'T' && all_digits(s, 11, 2) && s[13] == ':'
        && all_digits(s, 14, 2) && s[16] == ':' && all_digits(s, 17, 2) && s[19] == '.'
        && all_digits(s, 20, 3) && s[23] == 'Z' {
        let y = digits_val(s, 0, 4);
        let m = digits_val(s, 5, 2);
        let d = digits_val(s, 8, 2);
        let h = digits_val(s, 11, 2);
        let mi = digits_val(s, 14, 2);
        let sec = digits_val(s, 17, 2);
        let ms = digits_val(s, 20, 3);
        if valid_parts(y, m, d, h, mi, sec, ms) {
            Some(epoch_ms_of(y, m, d, h, mi, sec, ms) as u64)
        } else {
            None
        }
    } else {
        None
    }
}

/// A year's days split into its twelve months.
proof fn lemma_months_cover_year(y: int)
    ensures
        days_before_month(y, 13) == days_in_year(y),
{
    reveal_with_fuel(days_before_month, 14);
}

/// Days-before-month grows month by month.
proof fn lemma_days_before_month_mono(y: int, m1: int, m2: int)
    requires
        m1 <= m2,
    ensures
        days_before_month(y, m1) <= days_before_month(y, m2),
    decreases m2 - m1,
{
    if m1 < m2 {
        lemma_days_before_month_mono(y, m1, m2 - 1);
    }
}

/// A run of digits names a value that fits its width.
proof fn lemma_digits_val_bounds(s: Seq<char>, start: int, w: int)
    requires
        0 <= w,
        all_digits(s, start, w),
    ensures
        0 <= digits_val(s, start, w) < pow10(w),
    decreases w,
{
    if w > 0 {
        lemma_digits_val_bounds(s, start, w - 1);
    }
}

/// Days-before-year grows by whole years.
proof fn lemma_days_before_year_mono(y1: int, y2: int)
    requires
        y1 <= y2,
    ensures
        days_before_year(y1) <= days_before_year(y2),
        1970 <= y1 ==> days_before_year(y1) + 365 * (y2 - y1) <= days_before_year(y2),
    decreases y2 - y1,
{
    if y1 < y2 {
        lemma_days_before_year_mono(y1, y2 - 1);
    }
}

/// The Gregorian leap rule in closed form: up to year `y`, one leap day per
/// year divisible by four, except centuries off the four-century cycle.
proof fn lemma_days_before_year_closed(y: int)
    requires
        1970 <= y,
    ensures
        days_before_year(y) == 365 * (y - 1970) + ((y - 1) / 4 - (y - 1) / 100 + (y - 1) / 400)
            - 477,
    decreases y - 1970,
{
    if y > 1970 {
        lemma_days_before_year_closed(y - 1);
        let a = y - 1;
        assert(a / 4 == (a - 1) / 4 + if a % 4 == 0 {
            1int
        } else {
            0int
        });
        assert(a / 100 == (a - 1) / 100 + if a % 100 == 0 {
            1int
        } else {
            0int
        });
        assert(a / 400 == (a - 1) / 400 + if a % 400 == 0 {
            1int
        } else {
            0int
        });
    }
}

/// The day count at the four-digit boundary.
proof fn lemma_days_before_10000()
    ensures
        days_before_year(10000) == 2932897,
{
    lemma_days_before_year_closed(10000);
}

/// Exec mirror of `days_in_year`.
fn days_in_year_exec(y: u64) -> (r: u64)
    ensures
        r == days_in_year(y as int),
{
    if y % 4 == 0 && (y % 100 != 0 || y % 400 == 0) {
        366
    } else {
        365
    }
}

/// Exec mirror of `days_in_month`.
fn days_in_month_exec(y: u64, m: u64) -> (r: u64)
    ensures
        r == days_in_month(y as int, m as int),
{
    if m == 2 {
        if y % 4 == 0 && (y % 100 != 0 || y % 400 == 0) {
            29
        } else {
            28
        }
    } else if m == 4 || m == 6 || m == 9 || m == 11 {
        30
    } else {
        31
    }
}

/// Render an instant in the text form, or nothing if its year needs more
/// than four digits. The text reads back as exactly the instant given.
pub fn format_timestamp(t: u64) -> (r: Option<String>)
    ensures
        r matches Some(s) ==> parse_timestamp(s@) == Some(t),
        r is None <==> t >= TEXT_RANGE_END_MS,
{
    let ms = t % 1000;
    let rest_s = t / 1000;
    let sec = rest_s % 60;
    let rest_mi = rest_s / 60;
    let mi = rest_mi % 60;
    let rest_h = rest_mi / 60;
    let h = rest_h % 24;
    let days = rest_h / 24;
    proof {
        assert(t == ((((days * 24 + h) * 60 + mi) * 60 + sec) * 1000 + ms));
    }

    let mut y: u64 = 1970;
    let mut rem: u64 = days;
    while y < 10000 && rem >= days_in_year_exec(y)
        invariant
            1970 <= y <= 10000,
            days_before_year(y as int) + rem == days,
        decreases rem,
    {
        rem = rem - days_in_year_exec(y);
        y = y + 1;
    }
    proof {
        lemma_days_before_10000();
    }
    if y >= 10000 {
        proof {
            // days holds at least the days of all four-digit years, so t
            // lies at or past the boundary
            assert(days >= 2932897);
            assert(t >= days * 86400000) by {
                assert(((((days * 24 + h) * 60 + mi) * 60 + sec) * 1000 + ms) >= days * 86400000);
            }
            assert(days * 86400000 >= 2932897 * 86400000) by (nonlinear_arith)
                requires
                    days >= 2932897,
            ;
        }
        return None;
    }
    proof {
        // within the four-digit years: t lies before the boundary
        assert(rem < days_in_year(y as int));
        lemma_days_before_year_mono(y as int + 1, 10000);
        assert(days < days_before_year(y as int + 1) <= 2932897);
        assert(t < (days + 1) * 86400000) by {
            assert(((((days * 24 + h) * 60 + mi) * 60 + sec) * 1000 + ms) < (days + 1) * 86400000);
        }
        assert((days + 1) * 86400000 <= 2932897 * 86400000) by (nonlinear_arith)
            requires
                days + 1 <= 2932897,
        ;
    }

    let mut m: u64 = 1;
    while m < 12 && rem >= days_in_month_exec(y, m)
        invariant
            1970 <= y < 10000,
            1 <= m <= 12,
            days_before_year(y as int) + days_before_month(y as int, m as int) + rem == days,
            rem < days_in_year(y as int) - days_before_month(y as int, m as int),
        decreases 12 - m,
    {
        rem = rem - days_in_month_exec(y, m);
        m = m + 1;
    }
    proof {
        if m == 12 && rem >= days_in_month(y as int, 12) {
            lemma_months_cover_year(y as int);
            assert(false);
        }
    }
    let d = rem + 1;

    let mut out = String::new();
    push_pad(&mut out, y, 4);
    push_char(&mut out, '-');
    push_pad(&mut out, m, 2);
    push_char(&mut out, '-');
    push_pad(&mut out, d, 2);
    push_char(&mut out, 'T');
    push_pad(&mut out, h, 2);
    push_char(&mut out, ':');
    push_pad(&mut out, mi, 2);
    push_char(&mut out, ':');
    push_pad(&mut out, sec, 2);
    push_char(&mut out, '.');
    push_pad(&mut out, ms, 3);
    push_char(&mut out, 'Z');

    proof {
        let s = out@;
        let py = pad_dec(y as int, 4);
        let pm = pad_dec(m as int, 2);
        let pd = pad_dec(d as int, 2);
        let ph = pad_dec(h as int, 2);
        let pmi = pad_dec(mi as int, 2);
        let psec = pad_dec(sec as int, 2);
        let pms = pad_dec(ms as int, 3);
        reveal_with_fuel(pow10, 6);
        assert(pow10(2) == 100 && pow10(3) == 1000 && pow10(4) == 10000);
        lemma_digits_of_pad(y as int, 4);
        lemma_digits_of_pad(m as int, 2);
        lemma_digits_of_pad(d as int, 2);
        lemma_digits_of_pad(h as int, 2);
        lemma_digits_of_pad(mi as int, 2);
        lemma_digits_of_pad(sec as int, 2);
        lemma_digits_of_pad(ms as int, 3);
        assert(s.len() == 24);
        assert(forall|k: int| 0 <= k < 4 ==> s[k] == #[trigger] py[k]);
        assert(s[4] == '-');
        assert(forall|k: int| 0 <= k < 2 ==> s[5 + k] == #[trigger] pm[k]);
        assert(s[7] == '-');
        assert(forall|k: int| 0 <= k < 2 ==> s[8 + k] == #[trigger] pd[k]);
        assert(s[10] == 'T');
        assert(forall|k: int| 0 <= k < 2 ==> s[11 + k] == #[trigger] ph[k]);
        assert(s[13] == ':');
        assert(forall|k: int| 0 <= k < 2 ==> s[14 + k] == #[trigger] pmi[k]);
        assert(s[16] == ':');
        assert(forall|k: int| 0 <= k < 2 ==> s[17 + k] == #[trigger] psec[k]);
        assert(s[19] == '.');
        assert(forall|k: int| 0 <= k < 3 ==> s[20 + k] == #[trigger] pms[k]);
        assert(s[23] == 'Z');
        lemma_digits_val_ext(s, py, 0, 0, 4);
        lemma_digits_val_ext(s, pm, 5, 0, 2);
        lemma_digits_val_ext(s, pd, 8, 0, 2);
        lemma_digits_val_ext(s, ph, 11, 0, 2);
        lemma_digits_val_ext(s, pmi, 14, 0, 2);
        lemma_digits_val_ext(s, psec, 17, 0, 2);
        lemma_digits_val_ext(s, pms, 20, 0, 3);
        assert(valid_parts(y as int, m as int, d as int, h as int, mi as int, sec as int, ms as int));
        assert(epoch_ms_of(y as int, m as int, d as int, h as int, mi as int, sec as int, ms as int)
            == t);
    }
    Some(out)
}

/// Exec mirror of `days_before_year`; `y` at most 10000.
fn days_before_year_exec(y: u64) -> (r: u64)
    requires
        y <= 10000,
    ensures
        r == days_before_year(y as int),
{
    let mut i: u64 = 1970;
    let mut acc: u64 = 0;
    while i < y
        invariant
            y <= 10000,
            1970 <= i <= if y < 1970 { 1970 } else { y as int },
            acc == days_before_year(i as int),
            acc <= 366 * (i - 1970),
        decreases y as int - i,
    {
        acc = acc + days_in_year_exec(i);
        i = i + 1;
    }
    acc
}

/// Exec mirror of `days_before_month`; `m` at most 13.
fn days_before_month_exec(y: u64, m: u64) -> (r: u64)
    requires
        m <= 13,
    ensures
        r == days_before_month(y as int, m as int),
{
    let mut i: u64 = 1;
    let mut acc: u64 = 0;
    while i < m
        invariant
            m <= 13,
            1 <= i <= if m < 1 { 1 } else { m as int },
            acc == days_before_month(y as int, i as int),
            acc <= 31 * (i - 1),
        decreases m as int - i,
    {
        acc = acc + days_in_month_exec(y, i);
        i = i + 1;
    }
    acc
}

/// Read the text form: exactly the instants the grammar above names are
/// accepted.
#[verifier::rlimit(50)]
pub fn parse_timestamp_str(s: &str) -> (r: Option<u64>)
    ensures
        r == parse_timestamp(s@),
{
    if s.unicode_len() != 24 {
        return None;
    }
    let y = match read_digits(s, 0, 4) {
        Some(v) => v,
        None => { return None },
    };
    if s.get_char(4) != '-' {
        return None;
    }
    let m = match read_digits(s, 5, 2) {
        Some(v) => v,
        None => { return None },
    };
    if s.get_char(7) != '-' {
        return None;
    }
    let d = match read_digits(s, 8, 2) {
        Some(v) => v,
        None => { return None },
    };
    if s.get_char(10) != 'T' {
        return None;
    }
    let h = match read_digits(s, 11, 2) {
        Some(v) => v,
        None => { return None },
    };
    if s.get_char(13) != ':' {
        return None;
    }
    let mi = match read_digits(s, 14, 2) {
        Some(v) => v,
        None => { return None },
    };
    if s.get_char(16) != ':' {
        return None;
    }
    let sec = match read_digits(s, 17, 2) {
        Some(v) => v,
        None => { return None },
    };
    if s.get_char(19) != '.' {
        return None;
    }
    let ms = match read_digits(s, 20, 3) {
        Some(v) => v,
        None => { return None },
    };
    if s.get_char(23) != 'Z' {
        return None;
    }
    proof {
        reveal_with_fuel(pow10, 6);
        assert(pow10(2) == 100 && pow10(3) == 1000 && pow10(4) == 10000);
        lemma_digits_val_bounds(s@, 0, 4);
        lemma_digits_val_bounds(s@, 5, 2);
        lemma_digits_val_bounds(s@, 8, 2);
        lemma_digits_val_bounds(s@, 11, 2);
        lemma_digits_val_bounds(s@, 14, 2);
        lemma_digits_val_bounds(s@, 17, 2);
        lemma_digits_val_bounds(s@, 20, 3);
    }
    if !(1970 <= y && 1 <= m && m <= 12 && h < 24 && mi < 60 && sec < 60 && ms < 1000) {
        return None;
    }
    if d < 1 || d > days_in_month_exec(y, m) {
        return None;
    }
    proof {
        // y has four digits, so every factor stays far below overflow
        lemma_days_before_10000();
        lemma_days_before_year_mono(y as int + 1, 10000);
        lemma_months_cover_year(y as int);
        lemma_days_before_month_mono(y as int, m as int + 1, 13);
        assert(days_before_year(y as int) + days_before_month(y as int, m as int) + (d - 1)
            < 2932897);
    }
    let day_count = days_before_year_exec(y) + days_before_month_exec(y, m) + (d - 1);
    let t = ((((day_count * 24 + h) * 60 + mi) * 60 + sec) * 1000 + ms);
    Some(t)
}

/// Read `w` digits of `s` from byte-position `i` as a number; `w` at most 4.
fn read_digits(s: &str, i: usize, w: usize) -> (r: Option<u64>)
    requires
        i + w <= s@.len(),
        s@.len() <= usize::MAX,
        w <= 4,
    ensures
        all_digits(s@, i as int, w as int) ==> r == Some(digits_val(s@, i as int, w as int) as u64),
        !all_digits(s@, i as int, w as int) ==> r is None,
{
    let mut k: usize = 0;
    let mut acc: u64 = 0;
    while k < w
        invariant
            0 <= k <= w,
            w <= 4,
            i + w <= s@.len(),
            s@.len() <= usize::MAX,
            all_digits(s@, i as int, k as int),
            acc == digits_val(s@, i as int, k as int),
            acc < pow10(k as int),
        decreases w - k,
    {
        proof {
            reveal_with_fuel(pow10, 6);
            assert(pow10(k as int) <= 10000);
            assert(pow10(k as int + 1) <= 10000);
        }
        let c = s.get_char(i + k);
        match digit_val_exec(c) {
            Some(v) => {
                acc = acc * 10 + v;
            },
            None => {
                proof {
                    // the bad character refutes the whole run of digits
                    lemma_digits_prefix_bad(s@, i as int, w as int, k as int);
                }
                return None;
            },
        }
        k = k + 1;
    }
    Some(acc)
}

/// A non-digit inside the window refutes `all_digits` on the window.
proof fn lemma_digits_prefix_bad(s: Seq<char>, start: int, w: int, k: int)
    requires
        0 <= k < w,
        digit_val(s[start + k]) < 0,
    ensures
        !all_digits(s, start, w),
    decreases w,
{
    if k < w - 1 {
        lemma_digits_prefix_bad(s, start, w - 1, k);
    }
}

} // verus!
