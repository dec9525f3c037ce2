//! UTC timestamps for the log: the calendar date of a day number and the text of
//! a time given in seconds since 1970-01-01.

use vstd::prelude::*;
use crate::text::{chars_of, decimal, decimal_string, owned, push_char};

verus! {

/// A leap year of the proleptic Gregorian calendar.
pub open spec fn is_leap(y: int) -> bool {
    y % 4 == 0 && (y % 100 != 0 || y % 400 == 0)
}

/// The number of days of month `m` (1 to 12) of year `y`.
pub open spec fn month_len(y: int, m: int) -> int {
    if m == 2 {
        if is_leap(y) {
            29
        } else {
            28
        }
    } else if m == 4 || m == 6 || m == 9 || m == 11 {
        30
    } else {
        31
    }
}

/// A real date: a month from 1 to 12 and a day within it.
pub open spec fn valid_date(y: int, m: int, d: int) -> bool {
    1 <= m <= 12 && 1 <= d <= month_len(y, m)
}

/// The days of a common year before month `m`.
pub open spec fn days_before_month_common(m: int) -> int {
    if m <= 1 {
        0
    } else if m == 2 {
        31
    } else if m == 3 {
        59
    } else if m == 4 {
        90
    } else if m == 5 {
        120
    } else if m == 6 {
        151
    } else if m == 7 {
        181
    } else if m == 8 {
        212
    } else if m == 9 {
        243
    } else if m == 10 {
        273
    } else if m == 11 {
        304
    } else {
        334
    }
}

/// The days of year `y` before month `m`.
pub open spec fn days_before_month(y: int, m: int) -> int {
    days_before_month_common(m) + if m > 2 && is_leap(y) {
        1int
    } else {
        0int
    }
}

/// The number of leap years from year 1 through year `y` (for `y >= 0`).
pub open spec fn leaps_through(y: int) -> int {
    y / 4 - y / 100 + y / 400
}

/// The days from 1970-01-01 to January 1 of year `y`.
pub open spec fn days_before_year(y: int) -> int {
    365 * (y - 1970) + leaps_through(y - 1) - leaps_through(1969)
}

/// The day number of a date: how many days it lies after 1970-01-01.
pub open spec fn epoch_day(y: int, m: int, d: int) -> int {
    days_before_year(y) + days_before_month(y, m) + d - 1
}

/// 1 for a leap year-of-era, else 0 (years of a 400-year era, counted from 0).
pub open spec fn leap_bit(k: u32) -> u32 {
    if k % 4 == 0 && (k % 100 != 0 || k % 400 == 0) {
        1
    } else {
        0
    }
}

/// Within a 400-year era that starts on March 1, day `doe` falls in the year (starting
/// March 1) that Hinnant's formula gives, and that year's length is 365 plus a leap day
/// when the following January's year is a leap year.
proof fn lemma_year_of_era(doe: u32)
    requires
        doe < 146097,
    ensures
        ({
            let yoe = (doe - doe / 1460 + doe / 36524 - doe / 146096) / 365;
            &&& yoe <= 399
            &&& 365 * yoe + yoe / 4 - yoe / 100 <= doe
            &&& doe - (365 * yoe + yoe / 4 - yoe / 100) < 365 + leap_bit((yoe + 1) as u32)
        }),
{
    assert({
        let yoe = (doe - doe / 1460 + doe / 36524 - doe / 146096) / 365;
        &&& yoe <= 399
        &&& 365 * yoe + yoe / 4 - yoe / 100 <= doe
        &&& doe - (365 * yoe + yoe / 4 - yoe / 100) < 365 + (if (yoe + 1) % 4 == 0 && ((yoe
            + 1) % 100 != 0 || (yoe + 1) % 400 == 0) {
            1u32
        } else {
            0u32
        })
    }) by (bit_vector)
        requires
            doe < 146097,
    ;
}

/// The month formula: day `doy` of a year that starts on March 1 lies in month `mp`
/// (0 is March) at offset `(153 * mp + 2) / 5`, the days before that month.
proof fn lemma_month_of_year(doy: u32)
    requires
        doy < 366,
    ensures
        ({
            let mp = (5 * doy + 2) / 153;
            let off = (153 * mp + 2) / 5;
            &&& mp <= 11
            &&& off <= doy
            &&& (mp == 0 ==> off == 0 && doy - off < 31)
            &&& (mp == 1 ==> off == 31 && doy - off < 30)
            &&& (mp == 2 ==> off == 61 && doy - off < 31)
            &&& (mp == 3 ==> off == 92 && doy - off < 30)
            &&& (mp == 4 ==> off == 122 && doy - off < 31)
            &&& (mp == 5 ==> off == 153 && doy - off < 31)
            &&& (mp == 6 ==> off == 184 && doy - off < 30)
            &&& (mp == 7 ==> off == 214 && doy - off < 31)
            &&& (mp == 8 ==> off == 245 && doy - off < 30)
            &&& (mp == 9 ==> off == 275 && doy - off < 31)
            &&& (mp == 10 ==> off == 306 && doy - off < 31)
            &&& (mp == 11 ==> off == 337)
        }),
{
    assert({
        let mp = (5 * doy + 2) / 153;
        let off = (153 * mp + 2) / 5;
        &&& mp <= 11
        &&& off <= doy
        &&& (mp == 0 ==> off == 0 && doy - off < 31)
        &&& (mp == 1 ==> off == 31 && doy - off < 30)
        &&& (mp == 2 ==> off == 61 && doy - off < 31)
        &&& (mp == 3 ==> off == 92 && doy - off < 30)
        &&& (mp == 4 ==> off == 122 && doy - off < 31)
        &&& (mp == 5 ==> off == 153 && doy - off < 31)
        &&& (mp == 6 ==> off == 184 && doy - off < 30)
        &&& (mp == 7 ==> off == 214 && doy - off < 31)
        &&& (mp == 8 ==> off == 245 && doy - off < 30)
        &&& (mp == 9 ==> off == 275 && doy - off < 31)
        &&& (mp == 10 ==> off == 306 && doy - off < 31)
        &&& (mp == 11 ==> off == 337)
    }) by (bit_vector)
        requires
            doy < 366,
    ;
}

/// Within an era, the leap years before year-of-era `k` (counted from year 1 of the
/// era, plus the era's own leap day at its end) add up to `k / 4 - k / 100`.
proof fn lemma_leaps_in_era(k: u32)
    requires
        1 <= k <= 399,
    ensures
        (k - 1) / 4 - (k - 1) / 100 + leap_bit(k) == k / 4 - k / 100,
{
    assert((k - 1) / 4 - (k - 1) / 100 + (if k % 4 == 0 && (k % 100 != 0 || k % 400 == 0) {
        1u32
    } else {
        0u32
    }) == k / 4 - k / 100) by (bit_vector)
        requires
            1 <= k <= 399,
    ;
}

/// Whole eras do not change leap years.
proof fn lemma_leap_era(e: int, k: int)
    requires
        e >= 0,
        0 <= k <= 400,
    ensures
        is_leap(400 * e + k) == (leap_bit(k as u32) == 1),
{
    vstd::arithmetic::div_mod::lemma_mod_multiples_vanish(100 * e, k, 4);
    vstd::arithmetic::div_mod::lemma_mod_multiples_vanish(4 * e, k, 100);
    vstd::arithmetic::div_mod::lemma_mod_multiples_vanish(e, k, 400);
    assert(4 * (100 * e) == 400 * e && 100 * (4 * e) == 400 * e);
}

/// March 1 of year `400 * e + k` (0 <= k <= 399) lies this many days after 1970-01-01.
proof fn lemma_march_first(e: int, k: int)
    requires
        e >= 0,
        0 <= k <= 399,
    ensures
        days_before_year(400 * e + k) + 59 + (if is_leap(400 * e + k) {
            1int
        } else {
            0int
        }) == 146097 * e + 365 * k + k / 4 - k / 100 - 719468,
{
    let y = 400 * e + k;
    vstd::arithmetic::div_mod::lemma_hoist_over_denominator(k - 1, 100 * e, 4);
    vstd::arithmetic::div_mod::lemma_hoist_over_denominator(k - 1, 4 * e, 100);
    vstd::arithmetic::div_mod::lemma_hoist_over_denominator(k - 1, e, 400);
    assert((k - 1 + 100 * e * 4) == y - 1 && (k - 1 + 4 * e * 100) == y - 1 && (k - 1 + e * 400)
        == y - 1);
    assert(leaps_through(y - 1) == 97 * e + (k - 1) / 4 - (k - 1) / 100 + (k - 1) / 400);
    assert(leaps_through(1969) == 477);
    lemma_leap_era(e, k);
    if k == 0 {
        assert((-1int) / 4 == -1 && (-1int) / 100 == -1 && (-1int) / 400 == -1);
        assert(leap_bit(0) == 1);
    } else {
        lemma_leaps_in_era(k as u32);
        assert((k - 1) / 400 == 0);
        assert(((k as u32) - 1) / 4 == (k - 1) / 4);
        assert(((k as u32) - 1) / 100 == (k - 1) / 100);
        assert((k as u32) / 4 == k / 4);
        assert((k as u32) / 100 == k / 100);
    }
}

/// The calendar date (year, month, day) of the day `z` days after 1970-01-01, by
/// Howard Hinnant's `civil_from_days`: shifted to eras of 400 years starting on
/// March 1 of year 0, then to the year and the month within the era.
pub fn civil_from_days(z: u64) -> (r: (u64, u32, u32))
    requires
        z <= 1125899906842624,
    ensures
        valid_date(r.0 as int, r.1 as int, r.2 as int),
        epoch_day(r.0 as int, r.1 as int, r.2 as int) == z,
        date_of_day(z as int) == (r.0 as int, r.1 as int, r.2 as int),
{
    let zp: u64 = z + 719468;
    let era: u64 = zp / 146097;
    let doe: u64 = zp - era * 146097;
    assert(doe < 146097);
    let yoe: u64 = (doe - doe / 1460 + doe / 36524 - doe / 146096) / 365;
    proof {
        lemma_year_of_era(doe as u32);
    }
    let doy: u64 = doe - (365 * yoe + yoe / 4 - yoe / 100);
    let y: u64 = yoe + era * 400;
    let mp: u64 = (5 * doy + 2) / 153;
    proof {
        lemma_month_of_year(doy as u32);
    }
    let off: u64 = (153 * mp + 2) / 5;
    let d: u64 = doy - off + 1;
    let m: u64 = if mp < 10 {
        mp + 3
    } else {
        mp - 9
    };
    let year: u64 = if m <= 2 {
        y + 1
    } else {
        y
    };
    proof {
        let e = era as int;
        let k = yoe as int;
        lemma_march_first(e, k);
        lemma_leap_era(e, k + 1);
        assert(400 * e + k + 1 == y + 1);
        assert(zp == 146097 * e + doe);
        assert(z == 146097 * e + 365 * k + k / 4 - k / 100 - 719468 + doy);
        if m <= 2 {
            assert(days_before_year(y + 1) == days_before_year(y as int) + 365 + if is_leap(y as int) {
                1int
            } else {
                0int
            }) by {
                vstd::arithmetic::div_mod::lemma_div_is_ordered(y as int - 1, y as int, 4);
                assert(leaps_through(y as int) - leaps_through(y as int - 1) == if is_leap(y as int) {
                    1int
                } else {
                    0int
                }) by {
                    lemma_leap_step(y as int);
                }
            }
        }
    }
    proof {
        lemma_date_of_day(z as int, year as int, m as int, d as int);
    }
    (year, m as u32, d as u32)
}

/// Stepping from `y - 1` to `y` raises `y / d` by one exactly when `d` divides `y`.
proof fn lemma_div_step(y: int, d: int)
    requires
        d > 0,
    ensures
        y / d - (y - 1) / d == if y % d == 0 {
            1int
        } else {
            0int
        },
{
    vstd::arithmetic::div_mod::lemma_fundamental_div_mod(y, d);
    vstd::arithmetic::div_mod::lemma_mod_bound(y, d);
    let q = y / d;
    let r = y % d;
    if r > 0 {
        assert(y - 1 == q * d + (r - 1)) by (nonlinear_arith)
            requires
                y == d * q + r,
        ;
        vstd::arithmetic::div_mod::lemma_fundamental_div_mod_converse(y - 1, d, q, r - 1);
    } else {
        assert(y - 1 == (q - 1) * d + (d - 1)) by (nonlinear_arith)
            requires
                y == d * q + r,
                r == 0,
        ;
        vstd::arithmetic::div_mod::lemma_fundamental_div_mod_converse(y - 1, d, q - 1, d - 1);
    }
}

/// Going from year `y - 1` to `y` adds one leap year exactly when `y` is a leap year.
proof fn lemma_leap_step(y: int)
    ensures
        leaps_through(y) - leaps_through(y - 1) == if is_leap(y) {
            1int
        } else {
            0int
        },
{
    lemma_div_step(y, 4);
    lemma_div_step(y, 100);
    lemma_div_step(y, 400);
    vstd::arithmetic::div_mod::lemma_fundamental_div_mod(y, 400);
    vstd::arithmetic::div_mod::lemma_fundamental_div_mod(y, 100);
    if y % 400 == 0 {
        vstd::arithmetic::div_mod::lemma_mod_mod(y, 4, 100);
        assert(y % 100 == 0 && y % 4 == 0) by {
            vstd::arithmetic::div_mod::lemma_mod_mod(y, 100, 4);
            vstd::arithmetic::div_mod::lemma_mod_mod(y, 4, 100);
        }
    }
    if y % 100 == 0 {
        assert(y % 4 == 0) by {
            vstd::arithmetic::div_mod::lemma_mod_mod(y, 4, 25);
        }
    }
}

/// A year has 365 days, plus one in a leap year.
proof fn lemma_year_length(y: int)
    ensures
        days_before_year(y + 1) == days_before_year(y) + 365 + if is_leap(y) {
            1int
        } else {
            0int
        },
{
    lemma_leap_step(y);
}

/// Later years start later: January 1 of year `y2 > y1` is no earlier than the end of year `y1`.
proof fn lemma_years_ordered(y1: int, y2: int)
    requires
        y1 < y2,
    ensures
        days_before_year(y1 + 1) <= days_before_year(y2),
    decreases y2 - y1,
{
    if y2 > y1 + 1 {
        lemma_years_ordered(y1, y2 - 1);
        lemma_year_length(y2 - 1);
    }
}

/// A date's day number lies within its month and its year.
proof fn lemma_day_in_year(y: int, m: int, d: int)
    requires
        valid_date(y, m, d),
    ensures
        days_before_year(y) <= epoch_day(y, m, d) < days_before_year(y + 1),
        m < 12 ==> epoch_day(y, m, d) < days_before_year(y) + days_before_month(y, m + 1),
        days_before_year(y) + days_before_month(y, m) <= epoch_day(y, m, d),
{
    lemma_year_length(y);
}

/// Months of a year start in order.
proof fn lemma_months_ordered(y: int, m1: int, m2: int)
    requires
        1 <= m1 < m2 <= 12,
    ensures
        days_before_month(y, m1 + 1) <= days_before_month(y, m2),
{
}

/// Two real dates with the same day number are the same date.
pub proof fn lemma_epoch_day_unique(y1: int, m1: int, d1: int, y2: int, m2: int, d2: int)
    requires
        valid_date(y1, m1, d1),
        valid_date(y2, m2, d2),
        epoch_day(y1, m1, d1) == epoch_day(y2, m2, d2),
    ensures
        y1 == y2 && m1 == m2 && d1 == d2,
{
    lemma_day_in_year(y1, m1, d1);
    lemma_day_in_year(y2, m2, d2);
    if y1 < y2 {
        lemma_years_ordered(y1, y2);
    } else if y2 < y1 {
        lemma_years_ordered(y2, y1);
    }
    assert(y1 == y2);
    if m1 < m2 {
        lemma_months_ordered(y1, m1, m2);
    } else if m2 < m1 {
        lemma_months_ordered(y1, m2, m1);
    }
}

/// The date of day number `z` (days after 1970-01-01): the one real date whose day
/// number is `z`.
pub open spec fn date_of_day(z: int) -> (int, int, int) {
    choose|ymd: (int, int, int)| valid_date(ymd.0, ymd.1, ymd.2) && epoch_day(ymd.0, ymd.1, ymd.2) == z
}

/// A real date with day number `z` is `date_of_day(z)`.
pub proof fn lemma_date_of_day(z: int, y: int, m: int, d: int)
    requires
        valid_date(y, m, d),
        epoch_day(y, m, d) == z,
    ensures
        date_of_day(z) == (y, m, d),
{
    let w = (y, m, d);
    assert(valid_date(w.0, w.1, w.2) && epoch_day(w.0, w.1, w.2) == z);
    let c = date_of_day(z);
    lemma_epoch_day_unique(c.0, c.1, c.2, y, m, d);
}

/// The decimal digits of `n`, with leading zeros up to width `w` (`{:0w$}`).
pub open spec fn padded(n: nat, w: nat) -> Seq<char> {
    if decimal(n).len() >= w {
        decimal(n)
    } else {
        Seq::new((w - decimal(n).len()) as nat, |i: int| '0') + decimal(n)
    }
}

fn padded_string(n: u64, w: usize) -> (s: String)
    ensures
        s@ == padded(n as nat, w as nat),
{
    let d = decimal_string(n);
    let len = chars_of(d.as_str()).len();
    if len >= w {
        return d;
    }
    let mut s = String::new();
    let mut i: usize = 0;
    while i < w - len
        invariant
            len < w,
            i <= w - len,
            s@ == Seq::new(i as nat, |j: int| '0'),
        decreases w - len - i,
    {
        push_char(&mut s, '0');
        i += 1;
        assert(s@ =~= Seq::new(i as nat, |j: int| '0'));
    }
    s.append(d.as_str());
    s
}

/// The text of a UTC time: `YYYY-MM-DD hh:mm:ssZ`, from a date and the seconds into that day.
pub open spec fn utc_text(y: nat, m: nat, d: nat, secs_of_day: nat) -> Seq<char> {
    padded(y, 4) + "-"@ + padded(m, 2) + "-"@ + padded(d, 2) + " "@ + padded(secs_of_day / 3600, 2)
        + ":"@ + padded(secs_of_day % 3600 / 60, 2) + ":"@ + padded(secs_of_day % 60, 2) + "Z"@
}

/// The text of the UTC time `secs` seconds after 1970-01-01 00:00:00.
pub open spec fn utc_of(secs: nat) -> Seq<char> {
    let date = date_of_day((secs / 86400) as int);
    utc_text(date.0 as nat, date.1 as nat, date.2 as nat, secs % 86400)
}

/// The UTC time `secs` seconds after 1970-01-01 00:00:00, as `YYYY-MM-DD hh:mm:ssZ`.
pub fn fmt_utc(secs: u64) -> (r: String)
    ensures
        r@ == utc_of(secs as nat),
{
    let days = secs / 86400;
    let rem = secs % 86400;
    let (y, m, d) = civil_from_days(days);
    let mut r = padded_string(y, 4);
    r.append("-");
    let t = padded_string(m as u64, 2);
    r.append(t.as_str());
    r.append("-");
    let t = padded_string(d as u64, 2);
    r.append(t.as_str());
    r.append(" ");
    let t = padded_string(rem / 3600, 2);
    r.append(t.as_str());
    r.append(":");
    let t = padded_string(rem % 3600 / 60, 2);
    r.append(t.as_str());
    r.append(":");
    let t = padded_string(rem % 60, 2);
    r.append(t.as_str());
    r.append("Z");
    r
}

/// A log line: the UTC time in brackets, the level, the message.
pub open spec fn log_line_text(time: Seq<char>, level: Seq<char>, msg: Seq<char>) -> Seq<char> {
    "["@ + time + "] "@ + level + " "@ + msg
}

/// A log line written at `secs` seconds after 1970-01-01 (see `log_line_text` and `fmt_utc`).
pub fn log_line(secs: u64, level: &str, msg: &str) -> (r: String)
    ensures
        r@ == log_line_text(utc_of(secs as nat), level@, msg@),
{
    let time = fmt_utc(secs);
    let mut r = owned("[");
    r.append(time.as_str());
    r.append("] ");
    r.append(level);
    r.append(" ");
    r.append(msg);
    r
}

/// The size beyond which the log file is rotated to `app.log.1`.
pub const MAX_LOG_BYTES: u64 = 1048576;

/// Whether a log file of `len` bytes is rotated before the next line is written.
pub fn should_rotate_log(len: u64) -> (b: bool)
    ensures
        b == (len > MAX_LOG_BYTES),
{
    len > MAX_LOG_BYTES
}

} // verus!