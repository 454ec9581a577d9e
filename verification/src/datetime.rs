//! Calendar arithmetic: splitting a count of seconds since the Unix epoch
//! into a proleptic Gregorian date and a time of day.

use vstd::prelude::*;
use vstd::arithmetic::div_mod::lemma_fundamental_div_mod_converse;
use vstd::arithmetic::div_mod::lemma_fundamental_div_mod;

use crate::color::{DAY1, DAY2, WEK1, WEK4, YEAR};
use crate::text::{dec, pad_left, push_pad_left, push_zero_pad, zero_pad, decimal};

verus! {

/// Seconds between 1601-01-01 00:00:00 and 1970-01-01 00:00:00.
pub const EPOCH_OFFSET: u64 = 11644473600;

/// Gregorian leap-year rule.
pub open spec fn is_leap(year: int) -> bool {
    year % 400 == 0 || (year % 4 == 0 && year % 100 != 0)
}

/// Days between 1601-01-01 and the first of January of `year`.
pub open spec fn days_before_year(year: int) -> int {
    let n = year - 1601;
    365 * n + n / 4 - n / 100 + n / 400
}

/// Days of the year that lie before the first of month `m` (0 = January);
/// `m == 12` gives the length of the year.
pub open spec fn days_before_month(leap: bool, m: int) -> int {
    let l: int = if leap { 1 } else { 0 };
    if m <= 0 { 0 }
    else if m == 1 { 31 }
    else if m == 2 { 59 + l }
    else if m == 3 { 90 + l }
    else if m == 4 { 120 + l }
    else if m == 5 { 151 + l }
    else if m == 6 { 181 + l }
    else if m == 7 { 212 + l }
    else if m == 8 { 243 + l }
    else if m == 9 { 273 + l }
    else if m == 10 { 304 + l }
    else if m == 11 { 334 + l }
    else { 365 + l }
}

/// Number of days in month `m` (0 = January).
pub open spec fn days_in_month(leap: bool, m: int) -> int {
    days_before_month(leap, m + 1) - days_before_month(leap, m)
}

/// A well-formed calendar date and time of day, from the year 1601 on.
pub open spec fn valid_datetime(mday: int, month: int, year: int, hour: int, min: int, sec: int) -> bool {
    &&& year >= 1601
    &&& 0 <= month < 12
    &&& 1 <= mday <= days_in_month(is_leap(year), month)
    &&& 0 <= hour < 24
    &&& 0 <= min < 60
    &&& 0 <= sec < 60
}

/// Seconds since the Unix epoch of the given date and time
/// (`month` counts from 0, `mday` from 1).
pub open spec fn datetime_to_unix(mday: int, month: int, year: int, hour: int, min: int, sec: int) -> int {
    (days_before_year(year) + days_before_month(is_leap(year), month) + mday - 1) * 86400
        + hour * 3600 + min * 60 + sec - EPOCH_OFFSET
}

proof fn lemma_days_before_year(q: int, c: int, d: int, a: int)
    requires
        q >= 0,
        0 <= c <= 3,
        0 <= d <= 24,
        0 <= a <= 3,
    ensures
        days_before_year(1601 + 400 * q + 100 * c + 4 * d + a)
            == 146097 * q + 36524 * c + 1461 * d + 365 * a,
{
    let n = 400 * q + 100 * c + 4 * d + a;
    assert(1601 + 400 * q + 100 * c + 4 * d + a - 1601 == n);
    lemma_fundamental_div_mod_converse(n, 4, 100 * q + 25 * c + d, a);
    lemma_fundamental_div_mod_converse(n, 100, 4 * q + c, 4 * d + a);
    lemma_fundamental_div_mod_converse(n, 400, q, 100 * c + 4 * d + a);
}

proof fn lemma_leap(q: int, c: int, d: int, a: int)
    requires
        q >= 0,
        0 <= c <= 3,
        0 <= d <= 24,
        0 <= a <= 3,
    ensures
        is_leap(1601 + 400 * q + 100 * c + 4 * d + a) <==> (a == 3 && (d < 24 || c == 3)),
{
    let y = 1601 + 400 * q + 100 * c + 4 * d + a;
    if a < 3 {
        lemma_fundamental_div_mod_converse(y, 4, 400 + 100 * q + 25 * c + d, a + 1);
        lemma_fundamental_div_mod_converse(y, 400, 4 + q, 1 + 100 * c + 4 * d + a);
    } else if d < 24 {
        lemma_fundamental_div_mod_converse(y, 4, 401 + 100 * q + 25 * c + d, 0);
        lemma_fundamental_div_mod_converse(y, 100, 16 + 4 * q + c, 4 * d + 4);
    } else if c == 3 {
        lemma_fundamental_div_mod_converse(y, 400, 5 + q, 0);
    } else {
        lemma_fundamental_div_mod_converse(y, 400, 4 + q, 100 + 100 * c);
        lemma_fundamental_div_mod_converse(y, 4, 425 + 100 * q + 25 * c, 0);
        lemma_fundamental_div_mod_converse(y, 100, 17 + 4 * q + c, 0);
    }
}

fn days_before_month_exec(leap: bool, m: u64) -> (r: u64)
    requires
        m <= 12,
    ensures
        r == days_before_month(leap, m as int),
{
    let l: u64 = if leap { 1 } else { 0 };
    if m == 0 { 0 }
    else if m == 1 { 31 }
    else if m == 2 { 59 + l }
    else if m == 3 { 90 + l }
    else if m == 4 { 120 + l }
    else if m == 5 { 151 + l }
    else if m == 6 { 181 + l }
    else if m == 7 { 212 + l }
    else if m == 8 { 243 + l }
    else if m == 9 { 273 + l }
    else if m == 10 { 304 + l }
    else if m == 11 { 334 + l }
    else { 365 + l }
}

/// Splits `unix_time` (seconds since 1970-01-01 00:00:00) into
/// `(day of month, month counted from 0, year, hour, minute, second)`.
/// The result is the one valid date and time whose epoch seconds are
/// `unix_time` (see `lemma_datetime_unique`).
pub fn seconds_to_datetime(unix_time: u64) -> (r: (u64, usize, u64, u64, u64, u64))
    requires
        unix_time <= u64::MAX - EPOCH_OFFSET,
    ensures
        valid_datetime(r.0 as int, r.1 as int, r.2 as int, r.3 as int, r.4 as int, r.5 as int),
        datetime_to_unix(r.0 as int, r.1 as int, r.2 as int, r.3 as int, r.4 as int, r.5 as int)
            == unix_time,
{
    let mut sec: u64 = unix_time + EPOCH_OFFSET;
    let ghost total: int = sec as int;

    let q: u64 = sec / 12622780800;
    sec = sec % 12622780800;
    proof {
        lemma_fundamental_div_mod(total, 12622780800);
    }
    let ghost s1: int = sec as int;

    let mut c: u64 = sec / 3155673600;
    proof {
        lemma_fundamental_div_mod(s1, 3155673600);
    }
    if c > 3 {
        c = 3;
    }
    sec = sec - c * 3155673600;
    let ghost s2: int = sec as int;

    let mut d: u64 = sec / 126230400;
    proof {
        lemma_fundamental_div_mod(s2, 126230400);
    }
    if d > 24 {
        d = 24;
    }
    sec = sec - d * 126230400;
    let ghost s3: int = sec as int;

    let mut a: u64 = sec / 31536000;
    proof {
        lemma_fundamental_div_mod(s3, 31536000);
    }
    if a > 3 {
        a = 3;
    }
    sec = sec - a * 31536000;
    let ghost s4: int = sec as int;

    let year: u64 = 1601 + q * 400 + c * 100 + d * 4 + a;
    let leap: bool = year % 400 == 0 || (year % 4 == 0 && year % 100 != 0);

    proof {
        assert(total == q * 12622780800 + c * 3155673600 + d * 126230400 + a * 31536000 + s4);
        assert(s2 < 126230400 * 25 + 86400) by {
            if c < 3 {
                assert(s1 < 3155673600 * (c + 1));
            }
        }
        assert(d < 24 || s3 < 126230400);
        lemma_days_before_year(q as int, c as int, d as int, a as int);
        lemma_leap(q as int, c as int, d as int, a as int);
        assert(is_leap(year as int) == leap);
        assert(s4 < (365 + (if leap { 1int } else { 0int })) * 86400) by {
            if a < 3 {
                assert(s3 < 31536000 * (a + 1));
            } else if d < 24 {
                assert(s3 < 126230400);
            } else if c < 3 {
                assert(s2 < 3155673600);
                assert(s3 < 126230400 - 86400);
            } else {
                assert(s1 < 12622780800);
            }
        }
    }

    let yday: u64 = sec / 86400;
    sec = sec % 86400;
    proof {
        lemma_fundamental_div_mod(s4, 86400);
    }
    let ghost s5: int = sec as int;
    let hour: u64 = sec / 3600;
    sec = sec % 3600;
    proof {
        lemma_fundamental_div_mod(s5, 3600);
    }
    let ghost s6: int = sec as int;
    let min: u64 = sec / 60;
    sec = sec % 60;
    proof {
        lemma_fundamental_div_mod(s6, 60);
        assert(yday < days_before_month(leap, 12));
    }

    let mut mday: u64 = 1;
    let mut month: u64 = 1;
    let mut m: u64 = 1;
    while m < 13
        invariant_except_break
            1 <= m <= 13,
            yday >= days_before_month(leap, m as int - 1),
            yday < days_before_month(leap, 12),
            mday == 1,
        ensures
            1 <= month <= 12,
            days_before_month(leap, month as int - 1) <= yday < days_before_month(leap, month as int),
            mday == 1 + yday - days_before_month(leap, month as int - 1),
        decreases 13 - m,
    {
        month = m;
        let upper = days_before_month_exec(leap, m);
        if yday < upper {
            let lower = days_before_month_exec(leap, m - 1);
            mday = mday + yday - lower;
            break;
        }
        m = m + 1;
    }

    proof {
        let mo = month as int - 1;
        assert(days_in_month(leap, mo) == days_before_month(leap, mo + 1) - days_before_month(leap, mo));
    }
    (mday, (month - 1) as usize, year, hour, min, sec)
}

/// Two valid date-times with the same epoch seconds are the same:
/// the encoding `datetime_to_unix` is injective on valid dates.
pub proof fn lemma_datetime_unique(
    d1: int, m1: int, y1: int, h1: int, mi1: int, s1: int,
    d2: int, m2: int, y2: int, h2: int, mi2: int, s2: int,
)
    requires
        valid_datetime(d1, m1, y1, h1, mi1, s1),
        valid_datetime(d2, m2, y2, h2, mi2, s2),
        datetime_to_unix(d1, m1, y1, h1, mi1, s1) == datetime_to_unix(d2, m2, y2, h2, mi2, s2),
    ensures
        d1 == d2 && m1 == m2 && y1 == y2 && h1 == h2 && mi1 == mi2 && s1 == s2,
{
    let day1 = days_before_year(y1) + days_before_month(is_leap(y1), m1) + d1 - 1;
    let day2 = days_before_year(y2) + days_before_month(is_leap(y2), m2) + d2 - 1;
    let t1 = h1 * 3600 + mi1 * 60 + s1;
    let t2 = h2 * 3600 + mi2 * 60 + s2;
    lemma_fundamental_div_mod_converse(day1 * 86400 + t1, 86400, day1, t1);
    lemma_fundamental_div_mod_converse(day2 * 86400 + t2, 86400, day2, t2);
    lemma_fundamental_div_mod_converse(t1, 60, h1 * 60 + mi1, s1);
    lemma_fundamental_div_mod_converse(t2, 60, h2 * 60 + mi2, s2);
    lemma_fundamental_div_mod_converse(h1 * 60 + mi1, 60, h1, mi1);
    lemma_fundamental_div_mod_converse(h2 * 60 + mi2, 60, h2, mi2);
    assert(day1 == day2);
    lemma_year_of_day(y1, m1, d1);
    lemma_year_of_day(y2, m2, d2);
    if y1 < y2 {
        lemma_days_before_year_mono(y1 + 1, y2);
    } else if y2 < y1 {
        lemma_days_before_year_mono(y2 + 1, y1);
    }
    assert(y1 == y2);
    lemma_month_unique(is_leap(y1), m1, d1, m2, d2);
}

proof fn lemma_month_unique(leap: bool, m1: int, d1: int, m2: int, d2: int)
    requires
        0 <= m1 < 12,
        0 <= m2 < 12,
        1 <= d1 <= days_in_month(leap, m1),
        1 <= d2 <= days_in_month(leap, m2),
        days_before_month(leap, m1) + d1 == days_before_month(leap, m2) + d2,
    ensures
        m1 == m2 && d1 == d2,
{
    if m1 < m2 {
        lemma_days_before_month_mono(leap, m1 + 1, m2);
    } else if m2 < m1 {
        lemma_days_before_month_mono(leap, m2 + 1, m1);
    }
}

proof fn lemma_days_before_month_mono(leap: bool, a: int, b: int)
    requires
        0 <= a <= b <= 12,
    ensures
        days_before_month(leap, a) <= days_before_month(leap, b),
{
}

/// The days of a year lie between the start of that year and the next.
proof fn lemma_year_of_day(y: int, m: int, d: int)
    requires
        y >= 1601,
        0 <= m < 12,
        1 <= d <= days_in_month(is_leap(y), m),
    ensures
        days_before_year(y) <= days_before_year(y) + days_before_month(is_leap(y), m) + d - 1
            < days_before_year(y + 1),
{
    lemma_days_before_month_mono(is_leap(y), m + 1, 12);
    lemma_year_length(y);
}

/// The year `y` has 366 days when it is a leap year, else 365.
proof fn lemma_year_length(y: int)
    requires
        y >= 1601,
    ensures
        days_before_year(y + 1) - days_before_year(y) == if is_leap(y) { 366int } else { 365int },
{
    let n = y - 1601;
    let k = n + 1;
    lemma_fundamental_div_mod(n, 4);
    lemma_fundamental_div_mod(n, 100);
    lemma_fundamental_div_mod(n, 400);
    lemma_fundamental_div_mod(k, 4);
    lemma_fundamental_div_mod(k, 100);
    lemma_fundamental_div_mod(k, 400);
    lemma_fundamental_div_mod(y, 4);
    lemma_fundamental_div_mod(y, 100);
    lemma_fundamental_div_mod(y, 400);
    assert(y + 1 - 1601 == k);
    // k = y - 1600, so k and y agree modulo 4, 100 and 400
    lemma_fundamental_div_mod_converse(k, 4, y / 4 - 400, y % 4);
    lemma_fundamental_div_mod_converse(k, 100, y / 100 - 16, y % 100);
    lemma_fundamental_div_mod_converse(k, 400, y / 400 - 4, y % 400);
    if k % 4 == 0 {
        lemma_fundamental_div_mod_converse(n, 4, k / 4 - 1, 3);
    } else {
        lemma_fundamental_div_mod_converse(n, 4, k / 4, k % 4 - 1);
    }
    if k % 100 == 0 {
        lemma_fundamental_div_mod_converse(n, 100, k / 100 - 1, 99);
    } else {
        lemma_fundamental_div_mod_converse(n, 100, k / 100, k % 100 - 1);
    }
    if k % 400 == 0 {
        lemma_fundamental_div_mod_converse(n, 400, k / 400 - 1, 399);
    } else {
        lemma_fundamental_div_mod_converse(n, 400, k / 400, k % 400 - 1);
    }
}

/// `days_before_year` is monotone.
proof fn lemma_days_before_year_mono(a: int, b: int)
    requires
        1601 <= a <= b,
    ensures
        days_before_year(a) <= days_before_year(b),
    decreases b - a,
{
    if a < b {
        lemma_year_length(b - 1);
        lemma_days_before_year_mono(a, b - 1);
    }
}

/// Offset of local time from UTC, in seconds.
pub const TIMEZONE: u64 = 10800;

/// Abbreviated English name of month `m` (0 = January).
pub open spec fn month_name(m: int) -> Seq<char> {
    if m == 0 { "Jan"@ }
    else if m == 1 { "Feb"@ }
    else if m == 2 { "Mar"@ }
    else if m == 3 { "Apr"@ }
    else if m == 4 { "May"@ }
    else if m == 5 { "Jun"@ }
    else if m == 6 { "Jul"@ }
    else if m == 7 { "Aug"@ }
    else if m == 8 { "Sep"@ }
    else if m == 9 { "Oct"@ }
    else if m == 10 { "Nov"@ }
    else { "Dec"@ }
}

/// The abbreviations of the months of the year, January first.
pub open spec fn month_abbreviations() -> Seq<Seq<char>> {
    seq!["Jan"@, "Feb"@, "Mar"@, "Apr"@, "May"@, "Jun"@, "Jul"@, "Aug"@, "Sep"@, "Oct"@, "Nov"@, "Dec"@]
}

/// The date column names month `m` (0 = January) by its calendar abbreviation.
pub proof fn lemma_month_names()
    ensures
        forall|m: int| 0 <= m < 12 ==> #[trigger] month_name(m) == month_abbreviations()[m],
{
    let t = month_abbreviations();
    assert(month_name(0) == t[0]);
    assert(month_name(1) == t[1]);
    assert(month_name(2) == t[2]);
    assert(month_name(3) == t[3]);
    assert(month_name(4) == t[4]);
    assert(month_name(5) == t[5]);
    assert(month_name(6) == t[6]);
    assert(month_name(7) == t[7]);
    assert(month_name(8) == t[8]);
    assert(month_name(9) == t[9]);
    assert(month_name(10) == t[10]);
    assert(month_name(11) == t[11]);
}

fn month_name_str(m: usize) -> (r: &'static str)
    ensures
        r@ == month_name(m as int),
{
    if m == 0 { "Jan" }
    else if m == 1 { "Feb" }
    else if m == 2 { "Mar" }
    else if m == 3 { "Apr" }
    else if m == 4 { "May" }
    else if m == 5 { "Jun" }
    else if m == 6 { "Jul" }
    else if m == 7 { "Aug" }
    else if m == 8 { "Sep" }
    else if m == 9 { "Oct" }
    else if m == 10 { "Nov" }
    else { "Dec" }
}

/// The colour of a time by its age: within a day, two days, a week, four
/// weeks, or older. `now` is the local time of the listing.
pub open spec fn age_color(unix_time: int, now: int) -> Seq<char> {
    if unix_time > now - 86400 {
        DAY1@
    } else if unix_time > now - 172800 {
        DAY2@
    } else if unix_time > now - 604800 {
        WEK1@
    } else if unix_time > now - 2419200 {
        WEK4@
    } else {
        YEAR@
    }
}

/// The date column of the long listing: the day of the month right-aligned
/// in two characters and the month's name, then the time of day (`hh:mm`)
/// for times of the last half year, else the year.
pub open spec fn date_time_seq(unix_time: u64, clock: u64) -> Seq<char> {
    let now = clock + TIMEZONE;
    let mday = date_of(unix_time).0;
    let month = date_of(unix_time).1;
    let year = date_of(unix_time).2;
    let head = age_color(unix_time as int, now) + pad_left(dec(mday), 2) + " "@ + month_name(month);
    if unix_time > now - 15768000 {
        head + " "@ + zero_pad(dec(date_of(unix_time).3), 2) + ":"@ + zero_pad(dec(date_of(unix_time).4), 2)
    } else {
        head + "  "@ + dec(year)
    }
}

/// The date and time of day of `unix_time`: `(day, month, year, hour, minute, second)`,
/// the one valid date whose epoch seconds are `unix_time`.
pub open spec fn date_of(unix_time: u64) -> (nat, int, nat, nat, nat, nat) {
    choose|r: (nat, int, nat, nat, nat, nat)|
        valid_datetime(r.0 as int, r.1, r.2 as int, r.3 as int, r.4 as int, r.5 as int)
            && datetime_to_unix(r.0 as int, r.1, r.2 as int, r.3 as int, r.4 as int, r.5 as int) == unix_time
}

/// The date column for a file time `unix_time` (seconds since the epoch, in
/// local time), shown at `clock` (seconds since the epoch, as the system
/// clock reads them).
pub fn date_time_fmt(unix_time: u64, clock: u64) -> (r: String)
    requires
        unix_time <= u64::MAX - EPOCH_OFFSET,
        clock <= u64::MAX - TIMEZONE,
        clock + TIMEZONE >= 15768000,
    ensures
        r@ == date_time_seq(unix_time, clock),
{
    let now = clock + TIMEZONE;
    let (date, month, year, hours, minutes, sec) = seconds_to_datetime(unix_time);
    proof {
        let r = (date as nat, month as int, year as nat, hours as nat, minutes as nat, sec as nat);
        assert(valid_datetime(r.0 as int, r.1, r.2 as int, r.3 as int, r.4 as int, r.5 as int)
            && datetime_to_unix(r.0 as int, r.1, r.2 as int, r.3 as int, r.4 as int, r.5 as int) == unix_time);
        let c = date_of(unix_time);
        lemma_datetime_unique(c.0 as int, c.1, c.2 as int, c.3 as int, c.4 as int, c.5 as int,
            r.0 as int, r.1, r.2 as int, r.3 as int, r.4 as int, r.5 as int);
    }
    let cl = if unix_time > now - 86400 {
        DAY1
    } else if unix_time > now - 172800 {
        DAY2
    } else if unix_time > now - 604800 {
        WEK1
    } else if unix_time > now - 2419200 {
        WEK4
    } else {
        YEAR
    };
    let mut out = String::from_str(cl);
    push_pad_left(&mut out, decimal(date).as_str(), 2);
    out.append(" ");
    out.append(month_name_str(month));
    if unix_time > now - 15768000 {
        out.append(" ");
        push_zero_pad(&mut out, hours, 2);
        out.append(":");
        push_zero_pad(&mut out, minutes, 2);
        return out;
    }
    out.append("  ");
    out.append(decimal(year).as_str());
    out
}

} // verus!
