use vstd::prelude::*;
use crate::text::{decimal, digit_char, push_decimal, string_from};

verus! {

/// `a / b` rounded toward zero, as Rust's `/` divides signed integers.
pub open spec fn div_toward_zero(a: int, b: int) -> int {
    if a >= 0 {
        a / b
    } else {
        -((-a) / b)
    }
}

pub open spec fn is_leap(y: int) -> bool {
    y % 4 == 0 && (y % 100 != 0 || y % 400 == 0)
}

pub open spec fn year_length(y: int) -> int {
    if is_leap(y) {
        366
    } else {
        365
    }
}

/// The year, counting from `y`, that day `days` (0 = 1 January of `y`) falls in,
/// and the day within that year.
pub open spec fn year_and_day(days: int, y: int) -> (int, int)
    decreases days,
{
    if days < year_length(y) {
        (y, days)
    } else {
        year_and_day(days - year_length(y), y + 1)
    }
}

pub open spec fn month_length(m: int, leap: bool) -> int {
    if m == 2 {
        if leap {
            29
        } else {
            28
        }
    } else if m == 4 || m == 6 || m == 9 || m == 11 {
        30
    } else {
        31
    }
}

/// The month, counting from `m`, that day `days` of a year falls in, and the day
/// within that month (both counted from 0 for the day).
pub open spec fn month_and_day(days: int, m: int, leap: bool) -> (int, int)
    decreases 13 - m,
{
    if m > 12 || days < month_length(m, leap) {
        (m, days)
    } else {
        month_and_day(days - month_length(m, leap), m + 1, leap)
    }
}

/// `x` written as `{:02}` writes it: at least two characters, zero-padded.
pub open spec fn two_digits(x: int) -> Seq<char> {
    if x < 0 {
        seq!['-'] + decimal((-x) as nat)
    } else if x < 10 {
        seq!['0', digit_char(x as nat)]
    } else {
        decimal(x as nat)
    }
}

/// The calendar date (`YYYY-MM-DD`) of a Unix timestamp, counting whole days as
/// `ts / 86400` does; `-` for the two extreme `i64` values, which stand for "none".
pub open spec fn date_text(ts: i64) -> Seq<char> {
    if ts == i64::MAX || ts == i64::MIN {
        seq!['-']
    } else {
        let (y, d) = year_and_day(div_toward_zero(ts as int, 86400), 1970);
        let (m, md) = month_and_day(d, 1, is_leap(y));
        decimal(y as nat) + seq!['-'] + two_digits(m) + seq!['-'] + two_digits(md + 1)
    }
}

// ── The Gregorian calendar, in closed form ──────────────────────────────────

/// The days from 1 January 1970 to 1 January of year `y` (`y` >= 1970),
/// counting a leap day in every year divisible by 4, except those divisible
/// by 100 but not by 400.
pub open spec fn days_before_year(y: int) -> int {
    365 * (y - 1970) + (y - 1) / 4 - (y - 1) / 100 + (y - 1) / 400 - 477
}

/// The days of a year before the first of month `m` (1–12; 13 gives the
/// length of the year), by the rule that March to February repeat the
/// pattern 31, 30, 31, 30, 31 (153 days per 5 months).
pub open spec fn days_before_month(m: int, leap: bool) -> int {
    if m == 1 {
        0
    } else if m == 2 {
        31
    } else {
        (153 * (m - 3) + 2) / 5 + 59 + if leap { 1int } else { 0int }
    }
}

/// `(y, m, d)` is the civil date of day `n` after 1 January 1970: month `m`
/// of year `y`, day `d` within the month's length.
pub open spec fn civil_date(n: int, y: int, m: int, d: int) -> bool {
    &&& y >= 1970
    &&& 1 <= m <= 12
    &&& 1 <= d
    &&& days_before_month(m, is_leap(y)) + d <= days_before_month(m + 1, is_leap(y))
    &&& days_before_year(y) + days_before_month(m, is_leap(y)) + d - 1 == n
}

proof fn lemma_floor_step(y: int, k: int)
    requires
        y >= 1,
        k > 0,
    ensures
        y / k - (y - 1) / k == if y % k == 0 { 1int } else { 0int },
{
    let q = (y - 1) / k;
    let r = (y - 1) % k;
    vstd::arithmetic::div_mod::lemma_fundamental_div_mod(y - 1, k);
    assert(y - 1 == q * k + r) by (nonlinear_arith)
        requires
            y - 1 == k * q + r,
    ;
    assert((q + 1) * k == q * k + k) by (nonlinear_arith);
    if r + 1 == k {
        vstd::arithmetic::div_mod::lemma_fundamental_div_mod_converse(y, k, q + 1, 0);
    } else {
        vstd::arithmetic::div_mod::lemma_fundamental_div_mod_converse(y, k, q, r + 1);
    }
}

proof fn lemma_year_step(y: int)
    requires
        y >= 1970,
    ensures
        days_before_year(y + 1) == days_before_year(y) + year_length(y),
{
    lemma_floor_step(y, 4);
    lemma_floor_step(y, 100);
    lemma_floor_step(y, 400);
    if y % 400 == 0 {
        let q = y / 400;
        vstd::arithmetic::div_mod::lemma_fundamental_div_mod(y, 400);
        assert(y == (4 * q) * 100 && y == (100 * q) * 4) by (nonlinear_arith)
            requires
                y == 400 * q + 0,
        ;
        vstd::arithmetic::div_mod::lemma_fundamental_div_mod_converse(y, 100, 4 * q, 0);
        vstd::arithmetic::div_mod::lemma_fundamental_div_mod_converse(y, 4, 100 * q, 0);
    } else if y % 100 == 0 {
        let q = y / 100;
        vstd::arithmetic::div_mod::lemma_fundamental_div_mod(y, 100);
        assert(y == (25 * q) * 4) by (nonlinear_arith)
            requires
                y == 100 * q + 0,
        ;
        vstd::arithmetic::div_mod::lemma_fundamental_div_mod_converse(y, 4, 25 * q, 0);
    }
}

proof fn lemma_years(days: int, y0: int)
    requires
        y0 >= 1970,
        days >= 0,
    ensures
        ({
            let (y, doy) = year_and_day(days, y0);
            &&& y >= y0
            &&& 0 <= doy < year_length(y)
            &&& days_before_year(y) + doy == days_before_year(y0) + days
        }),
    decreases days,
{
    if days >= year_length(y0) {
        lemma_year_step(y0);
        lemma_years(days - year_length(y0), y0 + 1);
    }
}

proof fn lemma_month_lengths(m: int, leap: bool)
    requires
        1 <= m <= 12,
    ensures
        month_length(m, leap) == days_before_month(m + 1, leap) - days_before_month(m, leap),
        days_before_month(13, leap) == 365 + if leap { 1int } else { 0int },
        days_before_month(1, leap) == 0,
{
    if m == 1 {
    } else if m == 2 {
    } else if m == 3 {
    } else if m == 4 {
    } else if m == 5 {
    } else if m == 6 {
    } else if m == 7 {
    } else if m == 8 {
    } else if m == 9 {
    } else if m == 10 {
    } else if m == 11 {
    } else {
    }
}

proof fn lemma_months(days: int, m0: int, leap: bool)
    requires
        1 <= m0 <= 12,
        days >= 0,
        days_before_month(m0, leap) + days < days_before_month(13, leap),
    ensures
        ({
            let (m, md) = month_and_day(days, m0, leap);
            &&& m0 <= m <= 12
            &&& 0 <= md
            &&& days_before_month(m, leap) + md + 1 <= days_before_month(m + 1, leap)
            &&& days_before_month(m, leap) + md == days_before_month(m0, leap) + days
        }),
    decreases 13 - m0,
{
    lemma_month_lengths(m0, leap);
    if days >= month_length(m0, leap) {
        if m0 == 12 {
            assert(false);
        }
        lemma_months(days - month_length(m0, leap), m0 + 1, leap);
    }
}

/// The printed date of a timestamp from 1970 on is its civil date in the
/// Gregorian calendar: year, month and day of day `ts / 86400` after
/// 1 January 1970, each day within its month's length.
pub proof fn law_dates_are_gregorian(ts: i64)
    requires
        0 <= ts < i64::MAX,
    ensures
        exists|y: int, m: int, d: int| #[trigger] civil_date(ts / 86400, y, m, d)
            && date_text(ts) == decimal(y as nat) + seq!['-'] + two_digits(m) + seq!['-'] + two_digits(d),
{
    let n = ts as int / 86400;
    assert(div_toward_zero(ts as int, 86400) == n);
    lemma_years(n, 1970);
    let (y, doy) = year_and_day(n, 1970);
    let leap = is_leap(y);
    lemma_month_lengths(1, leap);
    assert(days_before_year(1970) == 0);
    lemma_months(doy, 1, leap);
    let (m, md) = month_and_day(doy, 1, leap);
    assert(civil_date(n, y, m, md + 1));
}

fn leap_exec(y: i64) -> (b: bool)
    requires
        y >= 0,
    ensures
        b == is_leap(y as int),
{
    y % 4 == 0 && (y % 100 != 0 || y % 400 == 0)
}

fn push_two_digits(out: &mut Vec<char>, x: i64)
    requires
        x > i64::MIN,
    ensures
        final(out)@ == old(out)@ + two_digits(x as int),
{
    let ghost start = out@;
    if x < 0 {
        out.push('-');
        push_decimal(out, (-x) as u64);
        assert(out@ =~= start + two_digits(x as int));
    } else if x < 10 {
        out.push('0');
        push_decimal(out, x as u64);
        assert(out@ =~= start + two_digits(x as int));
    } else {
        push_decimal(out, x as u64);
    }
}

/// The calendar date of a Unix timestamp (`-` for none).
pub fn fmt_ts(ts: i64) -> (s: String)
    ensures
        s@ == date_text(ts),
{
    let mut out: Vec<char> = Vec::new();
    if ts == i64::MAX || ts == i64::MIN {
        out.push('-');
        return string_from(&out);
    }
    let mut days: i64 = if ts >= 0 {
        ts / 86400
    } else {
        -((-ts) / 86400)
    };
    let ghost days0 = days as int;
    assert(days0 == div_toward_zero(ts as int, 86400));
    assert(-0x10000000000000 < days0 < 0x10000000000000);
    let mut year: i64 = 1970;
    loop
        invariant
            1970 <= year,
            days <= days0,
            (year - 1970) * 365 <= days0 - days,
            -0x10000000000000 < days0 < 0x10000000000000,
            days0 < 0 ==> days == days0,
            days0 >= 0 ==> days >= 0,
            year_and_day(days0, 1970) == year_and_day(days as int, year as int),
        ensures
            days < year_length(year as int),
            -0x10000000000000 < days,
            year_and_day(days0, 1970) == year_and_day(days as int, year as int),
        decreases days,
    {
        let len: i64 = if leap_exec(year) {
            366
        } else {
            365
        };
        if days < len {
            break;
        }
        days = days - len;
        year = year + 1;
    }
    let leap = leap_exec(year);
    let ghost yd = year_and_day(days0, 1970);
    assert(yd == (year as int, days as int));
    let mut month: i64 = 1;
    loop
        invariant
            1 <= month <= 13,
            -0x20000000000000 < days < 0x10000000000000,
            month_and_day(yd.1, 1, leap) == month_and_day(days as int, month as int, leap),
            leap == is_leap(year as int),
        ensures
            1 <= month <= 13,
            -0x20000000000000 < days < 0x10000000000000,
            month_and_day(yd.1, 1, leap) == (month as int, days as int),
        decreases 13 - month,
    {
        if month > 12 {
            break;
        }
        let len: i64 = if month == 2 {
            if leap {
                29
            } else {
                28
            }
        } else if month == 4 || month == 6 || month == 9 || month == 11 {
            30
        } else {
            31
        };
        if days < len {
            break;
        }
        days = days - len;
        month = month + 1;
    }
    let ghost md = month_and_day(yd.1, 1, leap);
    push_decimal(&mut out, year as u64);
    out.push('-');
    push_two_digits(&mut out, month);
    out.push('-');
    push_two_digits(&mut out, days + 1);
    assert(out@ =~= date_text(ts));
    string_from(&out)
}

} // verus!
