//! The clock in the top bar.

use crate::arch::rtc::DateTime;
use crate::arith::tdiv;
use crate::gui::js::libc::{days, valid_date};
use crate::text::{dec, digit, pad_left, push_dec, push_dec_zeros, push_str, to_chars, to_text};
use vstd::prelude::*;

verus! {

/// How the clock is shown.
#[derive(Clone, Copy, Debug, PartialEq, Eq, Structural)]
pub struct ClockStyle {
    pub clock_24h: bool,
    pub show_seconds: bool,
}

/// Month number forced into 1..=12.
pub open spec fn month_index(m: int) -> int {
    if m <= 1 { 1 } else if m >= 12 { 12 } else { m }
}

/// What a month adds to the day of the week.
pub open spec fn month_shift(m: int) -> int {
    let i = month_index(m);
    if i == 1 { 0 }
    else if i == 2 { 3 }
    else if i == 3 { 2 }
    else if i == 4 { 5 }
    else if i == 5 { 0 }
    else if i == 6 { 3 }
    else if i == 7 { 5 }
    else if i == 8 { 1 }
    else if i == 9 { 4 }
    else if i == 10 { 6 }
    else if i == 11 { 2 }
    else { 4 }
}

/// Sakamoto's sum; its remainder by seven is the day of the week.
pub open spec fn week_sum(y: int, m: int, d: int) -> int {
    let yy = if m < 3 { y - 1 } else { y };
    yy + tdiv(yy, 4) - tdiv(yy, 100) + tdiv(yy, 400) + month_shift(m) + d
}

/// Names of the days, Sunday first.
pub open spec fn day_name(i: int) -> Seq<char> {
    if i == 0 { "Sun"@ }
    else if i == 1 { "Mon"@ }
    else if i == 2 { "Tue"@ }
    else if i == 3 { "Wed"@ }
    else if i == 4 { "Thu"@ }
    else if i == 5 { "Fri"@ }
    else { "Sat"@ }
}

pub open spec fn month_text(m: int) -> Seq<char> {
    let i = month_index(m);
    if i == 1 { "Jan"@ }
    else if i == 2 { "Feb"@ }
    else if i == 3 { "Mar"@ }
    else if i == 4 { "Apr"@ }
    else if i == 5 { "May"@ }
    else if i == 6 { "Jun"@ }
    else if i == 7 { "Jul"@ }
    else if i == 8 { "Aug"@ }
    else if i == 9 { "Sep"@ }
    else if i == 10 { "Oct"@ }
    else if i == 11 { "Nov"@ }
    else { "Dec"@ }
}

/// The day of the week that the clock shows agrees with the number of
/// days since 1970, a Thursday.
pub proof fn lemma_weekday_counts_days(y: int, m: int, d: int)
    requires
        y >= 1,
        valid_date(y, m, d),
    ensures
        week_sum(y, m, d) % 7 == (days(y, m, d) + 4) % 7,
{
    let yy = if m < 3 { y - 1 } else { y };
    let era = yy / 400;
    let yoe = yy - era * 400;
    assert(yy / 4 == era * 100 + yoe / 4);
    assert(yy / 100 == era * 4 + yoe / 100);
    let k = days(y, m, d) + 4 - week_sum(y, m, d);
    assert(days(y, m, d) == 365 * yy + yy / 4 - yy / 100 + yy / 400 + crate::gui::js::libc::day_of_year(m, d) - 719468);
    assert(k % 7 == 0) by {
        if m == 1 {} else if m == 2 {} else if m == 3 {} else if m == 4 {} else if m == 5 {} else if m == 6 {} else if m
            == 7 {} else if m == 8 {} else if m == 9 {} else if m == 10 {} else if m == 11 {} else {
            assert(m == 12);
        }
    }
}

pub fn weekday(y: u16, m: u8, d: u8) -> (r: &'static str)
    requires
        week_sum(y as int, m as int, d as int) >= 0,
    ensures
        r@ == day_name(week_sum(y as int, m as int, d as int) % 7),
{
    let mut yy: i32 = y as i32;
    if m < 3 {
        yy = yy - 1;
    }
    let shift: i32 = if m <= 1 { 0 }
    else if m == 2 { 3 }
    else if m == 3 { 2 }
    else if m == 4 { 5 }
    else if m == 5 { 0 }
    else if m == 6 { 3 }
    else if m == 7 { 5 }
    else if m == 8 { 1 }
    else if m == 9 { 4 }
    else if m == 10 { 6 }
    else if m == 11 { 2 }
    else { 4 };
    let leaps: i32 = if yy >= 0 { yy / 4 - yy / 100 + yy / 400 } else { 0 };
    let w: i32 = (yy + leaps + shift + d as i32) % 7;
    if w == 0 { "Sun" }
    else if w == 1 { "Mon" }
    else if w == 2 { "Tue" }
    else if w == 3 { "Wed" }
    else if w == 4 { "Thu" }
    else if w == 5 { "Fri" }
    else { "Sat" }
}

pub fn month_name(m: u8) -> (r: &'static str)
    ensures
        r@ == month_text(m as int),
{
    if m <= 1 { "Jan" }
    else if m == 2 { "Feb" }
    else if m == 3 { "Mar" }
    else if m == 4 { "Apr" }
    else if m == 5 { "May" }
    else if m == 6 { "Jun" }
    else if m == 7 { "Jul" }
    else if m == 8 { "Aug" }
    else if m == 9 { "Sep" }
    else if m == 10 { "Oct" }
    else if m == 11 { "Nov" }
    else { "Dec" }
}

/// The hour as it is shown.
pub open spec fn shown_hour(h: int, style: ClockStyle) -> int {
    if style.clock_24h { h } else if h % 12 == 0 { 12 } else { h % 12 }
}

pub open spec fn two(n: int) -> Seq<char> {
    pad_left(dec(n as nat), 2, '0')
}

pub open spec fn time_of_day(t: DateTime, style: ClockStyle) -> Seq<char> {
    two(shown_hour(t.hour as int, style)) + ":"@ + two(t.minute as int) + (if style.show_seconds {
        ":"@ + two(t.second as int)
    } else {
        ""@
    }) + (if style.clock_24h { ""@ } else if t.hour < 12 { " AM"@ } else { " PM"@ })
}

/// "Sat Mar 9   08:05:30"
pub open spec fn clock_text(t: DateTime, style: ClockStyle) -> Seq<char> {
    day_name(week_sum(t.year as int, t.month as int, t.day as int) % 7) + " "@ + month_text(t.month as int) + " "@ + dec(
        t.day as nat,
    ) + "   "@ + time_of_day(t, style)
}

/// Format the top-bar clock according to the settings.
pub fn format_clock(t: &DateTime, style: &ClockStyle) -> (r: String)
    requires
        week_sum(t.year as int, t.month as int, t.day as int) >= 0,
    ensures
        r@ == clock_text(*t, *style),
{
    let h: u8 = if style.clock_24h {
        t.hour
    } else if t.hour % 12 == 0 {
        12
    } else {
        t.hour % 12
    };
    let mut out: Vec<char> = to_chars(weekday(t.year, t.month, t.day));
    push_str(&mut out, " ");
    push_str(&mut out, month_name(t.month));
    push_str(&mut out, " ");
    push_dec(&mut out, t.day as u64);
    push_str(&mut out, "   ");
    push_dec_zeros(&mut out, h as u64, 2);
    push_str(&mut out, ":");
    push_dec_zeros(&mut out, t.minute as u64, 2);
    if style.show_seconds {
        push_str(&mut out, ":");
        push_dec_zeros(&mut out, t.second as u64, 2);
    } else {
        push_str(&mut out, "");
    }
    if style.clock_24h {
        push_str(&mut out, "");
    } else if t.hour < 12 {
        push_str(&mut out, " AM");
    } else {
        push_str(&mut out, " PM");
    }
    proof {
        assert(out@ =~= clock_text(*t, *style));
    }
    to_text(&out)
}

/// Twelve hours and the half of the day tell every hour apart: midnight and
/// noon are both twelve, and the others count from one in each half.
pub proof fn lemma_hours_shown(h: int, style: ClockStyle)
    requires
        0 <= h < 24,
    ensures
        style.clock_24h ==> shown_hour(h, style) == h,
        !style.clock_24h ==> 1 <= shown_hour(h, style) <= 12,
        !style.clock_24h ==> shown_hour(h, style) % 12 + (if h < 12 { 0int } else { 12 }) == h,
{
}

proof fn lemma_two(n: int)
    requires
        0 <= n < 100,
    ensures
        two(n).len() == 2,
        two(n)[0] == digit(n / 10),
        two(n)[1] == digit(n % 10),
{
    reveal_with_fuel(dec, 3);
}

/// The clock shows which time it is: hour and minute stand at their places,
/// and the half of the day behind them.
pub proof fn lemma_time_shown(t: DateTime, style: ClockStyle)
    requires
        t.hour < 24,
        t.minute < 60,
        t.second < 60,
    ensures
        ({
            let s = time_of_day(t, style);
            let h = shown_hour(t.hour as int, style);
            let n: int = if style.show_seconds { 8 } else { 5 };
            &&& s[0] == digit(h / 10) && s[1] == digit(h % 10) && s[2] == ':'
            &&& s[3] == digit(t.minute as int / 10) && s[4] == digit(t.minute as int % 10)
            &&& style.show_seconds ==> s[5] == ':' && s[6] == digit(t.second as int / 10) && s[7] == digit(
                t.second as int % 10,
            )
            &&& style.clock_24h ==> s.len() == n
            &&& !style.clock_24h ==> s.len() == n + 3 && s[n] == ' ' && s[n + 1] == (if t.hour < 12 { 'A' } else { 'P' })
                && s[n + 2] == 'M'
        }),
{
    reveal_strlit(":");
    reveal_strlit("");
    reveal_strlit(" AM");
    reveal_strlit(" PM");
    lemma_hours_shown(t.hour as int, style);
    lemma_two(shown_hour(t.hour as int, style));
    lemma_two(t.minute as int);
    lemma_two(t.second as int);
}

} // verus!
