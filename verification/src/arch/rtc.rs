//! CMOS real-time clock (wall-clock date and time).

use vstd::prelude::*;

verus! {

#[derive(Clone, Copy, Debug, PartialEq, Eq, Structural)]
pub struct DateTime {
    pub year: u16,
    pub month: u8,
    pub day: u8,
    pub hour: u8,
    pub minute: u8,
    pub second: u8,
}

/// The registers that hold the time: seconds, minutes, hours, day, month,
/// year in the century, century.
pub const REGISTERS: [u8; 7] = [0x00, 0x02, 0x04, 0x07, 0x08, 0x09, 0x32];

/// Status register A; its top bit is set while the clock updates.
pub const STATUS_A: u8 = 0x0a;

/// Status register B; says how the time is written.
pub const STATUS_B: u8 = 0x0b;

/// Whether status register A reports an update in progress.
pub fn updating(status_a: u8) -> (r: bool)
    ensures
        r == (status_a & 0x80 != 0),
{
    status_a & 0x80 != 0
}

/// The number that a register holds: two decimal digits in BCD mode.
pub open spec fn number(v: u8, bcd: bool) -> int {
    if bcd { v % 16 + (v / 16) * 10 } else { v as int }
}

/// The time that the registers hold. A 12-hour clock shows 12 in the hour
/// after midnight and after noon, and tells them apart by the top bit.
pub open spec fn decoded(raw: Seq<u8>, status_b: u8) -> DateTime {
    let bcd = status_b & 0x04 == 0;
    let pm = raw[2] >= 0x80;
    let h = number((raw[2] % 0x80) as u8, bcd);
    let century = if raw[6] != 0 { number(raw[6], bcd) } else { 20 };
    DateTime {
        second: number(raw[0], bcd) as u8,
        minute: number(raw[1], bcd) as u8,
        hour: (if status_b & 0x02 == 0 { h % 12 + if pm { 12int } else { 0 } } else { h }) as u8,
        day: number(raw[3], bcd) as u8,
        month: number(raw[4], bcd) as u8,
        year: (century * 100 + number(raw[5], bcd)) as u16,
    }
}

fn convert(v: u8, bcd: bool) -> (r: u8)
    ensures
        r == number(v, bcd),
        r <= 255,
{
    if bcd { v % 16 + (v / 16) * 10 } else { v }
}

/// Decode a reading of the clock registers; `None` if two readings in a
/// row differ, so that the clock has to be read again.
pub fn now(first: &[u8; 7], second: &[u8; 7], status_b: u8) -> (r: Option<DateTime>)
    ensures
        match r {
            Some(t) => first@ == second@ && t == decoded(first@, status_b),
            None => first@ != second@,
        },
{
    let mut i: usize = 0;
    while i < 7
        invariant
            i <= 7,
            forall|j: int| 0 <= j < i ==> first@[j] == second@[j],
        decreases 7 - i,
    {
        if first[i] != second[i] {
            return None;
        }
        i += 1;
    }
    proof {
        assert(first@ =~= second@);
    }
    let bcd: bool = status_b & 0x04 == 0;
    let pm: bool = first[2] >= 0x80;
    let mut hour: u8 = convert(first[2] % 0x80, bcd);
    if status_b & 0x02 == 0 {
        hour = hour % 12 + if pm { 12 } else { 0 };
    }
    let century: u16 = if first[6] != 0 { convert(first[6], bcd) as u16 } else { 20 };
    Some(
        DateTime {
            second: convert(first[0], bcd),
            minute: convert(first[1], bcd),
            hour,
            day: convert(first[3], bcd),
            month: convert(first[4], bcd),
            year: century * 100 + convert(first[5], bcd) as u16,
        },
    )
}

/// A two-digit number is read back from its BCD form.
pub proof fn lemma_bcd_round_trip(n: u8)
    requires
        n < 100,
    ensures
        number(((n / 10) * 16 + n % 10) as u8, true) == n,
{
}

/// The hour of a 12-hour clock is before noon or after it, as its top bit
/// says; the one that it shows as 12 is the first of that half of the day.
pub proof fn lemma_half_days(raw: Seq<u8>, status_b: u8)
    requires
        raw.len() == 7,
        status_b & 0x02 == 0,
    ensures
        raw[2] < 0x80 ==> 0 <= decoded(raw, status_b).hour < 12,
        raw[2] >= 0x80 ==> 12 <= decoded(raw, status_b).hour < 24,
        number((raw[2] % 0x80) as u8, status_b & 0x04 == 0) == 12 ==> decoded(raw, status_b).hour == if raw[2] < 0x80 {
            0int
        } else {
            12
        },
{
}

} // verus!
