//! Calendar functions for the script engine's C library.

use crate::arch::rtc::DateTime;
use crate::arith::floor_div;
use vstd::prelude::*;

verus! {

/// Years counted from March, so that the leap day comes last.
pub open spec fn march_year(y: int, m: int) -> int {
    if m <= 2 { y - 1 } else { y }
}

/// Days from 1 March to the first of the month, plus `d - 1`.
pub open spec fn day_of_year(m: int, d: int) -> int {
    (153 * ((m + 9) % 12) + 2) / 5 + d - 1
}

/// Days since 1 January 1970 in the Gregorian calendar.
pub open spec fn days(y: int, m: int, d: int) -> int {
    let my = march_year(y, m);
    let era = my / 400;
    let yoe = my - era * 400;
    era * 146097 + yoe * 365 + yoe / 4 - yoe / 100 + day_of_year(m, d) - 719468
}

pub fn days_from_civil(y: i64, m: i64, d: i64) -> (r: i64)
    requires
        -0x10_0000_0000_0000 <= y <= 0x10_0000_0000_0000,
        0 <= m <= 0x10_0000_0000_0000,
        -0x10_0000_0000_0000 <= d <= 0x10_0000_0000_0000,
    ensures
        r == days(y as int, m as int, d as int),
{
    let my: i64 = if m <= 2 { y - 1 } else { y };
    let era: i64 = floor_div(my, 400);
    let yoe: i64 = my - era * 400;
    let mp: i64 = (m + 9) % 12;
    let doy: i64 = (153 * mp + 2) / 5 + d - 1;
    let doe: i64 = yoe * 365 + yoe / 4 - yoe / 100 + doy;
    era * 146097 + doe - 719468
}

/// Seconds since 1970 of a date and time.
pub open spec fn seconds(t: DateTime) -> int {
    days(t.year as int, t.month as int, t.day as int) * 86400 + t.hour * 3600 + t.minute * 60 + t.second
}

/// Seconds since 1970 that the clock shows.
pub fn unix_now(t: &DateTime) -> (r: i64)
    ensures
        r == seconds(*t),
{
    let d: i64 = days_from_civil(t.year as i64, t.month as i64, t.day as i64);
    d * 86400 + t.hour as i64 * 3600 + t.minute as i64 * 60 + t.second as i64
}

/// A broken-down time, as the C library gives it.
#[derive(Clone, Copy, Debug, PartialEq, Eq, Structural)]
pub struct Tm {
    pub sec: i32,
    pub min: i32,
    pub hour: i32,
    pub mday: i32,
    /// 0 is January.
    pub mon: i32,
    /// Years since 1900, as far as 32 bits hold them.
    pub year: i32,
    /// 0 is Sunday.
    pub wday: i32,
    /// Not filled in: always 0.
    pub yday: i32,
    pub isdst: i32,
    /// Seconds ahead of UTC, which is the only zone.
    pub gmtoff: i64,
}

/// The date of a day counted from 1970: year, month, day.
pub open spec fn civil(n: int) -> (int, int, int) {
    let z = n + 719468;
    let era = z / 146097;
    let doe = z - era * 146097;
    let yoe = (doe - doe / 1460 + doe / 36524 - doe / 146096) / 365;
    let doy = doe - (365 * yoe + yoe / 4 - yoe / 100);
    let mp = (5 * doy + 2) / 153;
    let d = doy - (153 * mp + 2) / 5 + 1;
    let m = if mp < 10 { mp + 3 } else { mp - 9 };
    (yoe + era * 400 + if m <= 2 { 1int } else { 0 }, m, d)
}

/// The date and time, in UTC, of a number of seconds since 1970.
pub fn localtime_r(secs: i64) -> (r: Tm)
    ensures
        ({
            let n = secs as int / 86400;
            let rem = secs as int % 86400;
            let (y, m, d) = civil(n);
            &&& r.sec == rem % 60
            &&& r.min == rem / 60 % 60
            &&& r.hour == rem / 3600
            &&& r.mday == d
            &&& r.mon == m - 1
            &&& r.year == (y - 1900) as i32
            &&& r.wday == (n + 4) % 7
            &&& r.yday == 0 && r.isdst == 0 && r.gmtoff == 0
        }),
{
    let n: i64 = floor_div(secs, 86400);
    let rem: i64 = (secs as i128 - n as i128 * 86400) as i64;
    let z: i64 = n + 719468;
    let era: i64 = floor_div(z, 146097);
    let doe: i64 = z - era * 146097;
    let yoe: i64 = (doe - doe / 1460 + doe / 36524 - doe / 146096) / 365;
    let doy: i64 = doe - (365 * yoe + yoe / 4 - yoe / 100);
    proof {
        lemma_year_of_era(doe as int);
    }
    let mp: i64 = (5 * doy + 2) / 153;
    let d: i64 = doy - (153 * mp + 2) / 5 + 1;
    let m: i64 = if mp < 10 { mp + 3 } else { mp - 9 };
    let y: i64 = yoe + era * 400 + if m <= 2 { 1i64 } else { 0i64 };
    let week: i64 = floor_div(n + 4, 7);
    Tm {
        sec: (rem % 60) as i32,
        min: (rem / 60 % 60) as i32,
        hour: (rem / 3600) as i32,
        mday: d as i32,
        mon: (m - 1) as i32,
        year: #[verifier::truncate] ((y - 1900) as i32),
        wday: (n + 4 - week * 7) as i32,
        yday: 0,
        isdst: 0,
        gmtoff: 0,
    }
}

/// The year within a 400-year era that a day of the era belongs to.
proof fn lemma_year_of_era(doe: int)
    requires
        0 <= doe < 146097,
    ensures
        ({
            let yoe = (doe - doe / 1460 + doe / 36524 - doe / 146096) / 365;
            let doy = doe - (365 * yoe + yoe / 4 - yoe / 100);
            0 <= yoe < 400 && 0 <= doy <= 365
        }),
{
    let century = doe / 36524;
    let yoe = (doe - doe / 1460 + doe / 36524 - doe / 146096) / 365;
    assert(0 <= yoe <= 399);
    let doy = doe - (365 * yoe + yoe / 4 - yoe / 100);
    assert(0 <= doy <= 365);
}

/// Whether a year has a 29 February.
pub open spec fn leap(y: int) -> bool {
    y % 4 == 0 && (y % 100 != 0 || y % 400 == 0)
}

pub open spec fn month_length(y: int, m: int) -> int {
    if m == 2 {
        if leap(y) { 29 } else { 28 }
    } else if m == 4 || m == 6 || m == 9 || m == 11 {
        30
    } else {
        31
    }
}

/// Whether there is such a day in the calendar.
pub open spec fn valid_date(y: int, m: int, d: int) -> bool {
    1 <= m <= 12 && 1 <= d <= month_length(y, m)
}

/// The day of a March year lies in the year, and tells month and day.
proof fn lemma_day_of_year(y: int, m: int, d: int)
    requires
        valid_date(y, m, d),
    ensures
        ({
            let doy = day_of_year(m, d);
            let mp = (5 * doy + 2) / 153;
            &&& 0 <= doy <= 365
            &&& (doy == 365 ==> leap(march_year(y, m) + 1))
            &&& d == doy - (153 * mp + 2) / 5 + 1
            &&& m == if mp < 10 { mp + 3 } else { mp - 9 }
        }),
{
    if m == 1 {} else if m == 2 {} else if m == 3 {} else if m == 4 {} else if m == 5 {} else if m == 6 {} else if m == 7 {
    } else if m == 8 {} else if m == 9 {} else if m == 10 {} else if m == 11 {} else {
        assert(m == 12);
    }
}

/// The year of the era is recovered from the day of the era.
proof fn lemma_recover_year(yoe: int, doy: int)
    requires
        0 <= yoe < 400,
        0 <= doy <= 365,
        doy == 365 ==> (yoe + 1) % 4 == 0 && ((yoe + 1) % 100 != 0 || (yoe + 1) % 400 == 0),
    ensures
        ({
            let doe = yoe * 365 + yoe / 4 - yoe / 100 + doy;
            &&& 0 <= doe < 146097
            &&& (doe - doe / 1460 + doe / 36524 - doe / 146096) / 365 == yoe
        }),
{
    let doe = yoe * 365 + yoe / 4 - yoe / 100 + doy;
    let c = yoe / 100;
    assert(0 <= doe < 146097);
    assert((doe - doe / 1460 + doe / 36524 - doe / 146096) / 365 == yoe);
}

/// The calendar functions undo each other: the date of a day count is the
/// date that was counted.
pub proof fn lemma_civil_of_days(y: int, m: int, d: int)
    requires
        valid_date(y, m, d),
    ensures
        civil(days(y, m, d)) == (y, m, d),
{
    let my = march_year(y, m);
    let era = my / 400;
    let yoe = my - era * 400;
    let doy = day_of_year(m, d);
    lemma_day_of_year(y, m, d);
    assert((my + 1) % 400 == (yoe + 1) % 400);
    assert((my + 1) % 100 == (yoe + 1) % 100);
    assert((my + 1) % 4 == (yoe + 1) % 4);
    lemma_recover_year(yoe, doy);
    let doe = yoe * 365 + yoe / 4 - yoe / 100 + doy;
    let z = days(y, m, d) + 719468;
    assert(z == era * 146097 + doe);
    assert(z / 146097 == era);
}

/// Days are counted from 1 January 1970, and each day is the one after the
/// day before: within a month, from the end of a month to the next one, and
/// from the end of a year to the next one.
pub proof fn lemma_next_day(y: int, m: int, d: int)
    requires
        valid_date(y, m, d),
    ensures
        days(1970, 1, 1) == 0,
        d < month_length(y, m) ==> days(y, m, d + 1) == days(y, m, d) + 1,
        d == month_length(y, m) && m < 12 ==> days(y, m + 1, 1) == days(y, m, d) + 1,
        d == month_length(y, m) && m == 12 ==> days(y + 1, 1, 1) == days(y, m, d) + 1,
{
    assert(days(1970, 1, 1) == 0) by {
        assert(march_year(1970, 1) == 1969);
        assert(1969int / 400 == 4);
    }
    if d < month_length(y, m) {
    } else if m == 2 {
        lemma_march_years(y);
        assert(day_of_year(3, 1) == 0);
        assert(day_of_year(2, d) == 337 + d - 1);
    } else if m == 12 {
        assert(march_year(y + 1, 1) == y && march_year(y, 12) == y);
        assert(day_of_year(1, 1) == 306);
        assert(day_of_year(12, 31) == 305);
    } else {
        assert(march_year(y, m + 1) == march_year(y, m));
        assert(day_of_year(m + 1, 1) == day_of_year(m, d) + 1) by {
            assert(m == 1 || m == 3 || m == 4 || m == 5 || m == 6 || m == 7 || m == 8 || m == 9 || m == 10 || m == 11);
        }
    }
}

/// From one 1 March to the next there are 365 days, and one more if there
/// is a leap day between them.
proof fn lemma_march_years(y: int)
    ensures
        days(y, 3, 1) - days(y - 1, 3, 1) == if leap(y) { 366int } else { 365 },
{
    let a = y - 1;
    let (ea, eb) = (a / 400, y / 400);
    let (ya, yb) = (a - ea * 400, y - eb * 400);
    assert(0 <= ya < 400 && 0 <= yb < 400);
    lemma_leap_of(eb, yb);
    if ya < 399 {
        assert(eb == ea) by {
            assert(y == ea * 400 + (ya + 1));
        }
        assert(yb == ya + 1);
        assert(yb / 4 - ya / 4 == if yb % 4 == 0 { 1int } else { 0 });
        assert(yb / 100 - ya / 100 == if yb % 100 == 0 { 1int } else { 0 });
    } else {
        assert(y == (ea + 1) * 400);
        assert(eb == ea + 1 && yb == 0);
    }
}

proof fn lemma_leap_of(era: int, yoe: int)
    requires
        0 <= yoe < 400,
    ensures
        leap(era * 400 + yoe) == leap(yoe),
{
    let y = era * 400 + yoe;
    assert(y % 4 == yoe % 4);
    assert(y % 100 == yoe % 100);
    assert(y % 400 == yoe % 400);
}

} // verus!
