//! File names and times.

use crate::fs::path::{ext_of, extension_chars};
use crate::text::{dec, is_str, pad_left, push_dec, push_dec_zeros, to_chars, to_text};
use vstd::prelude::*;

verus! {

pub open spec fn video_ext(e: Seq<char>) -> bool {
    e == "mp4"@ || e == "m4v"@ || e == "mov"@ || e == "mkv"@ || e == "webm"@ || e == "avi"@ || e == "3gp"@ || e
        == "mjpg"@ || e == "mjpeg"@
}

pub open spec fn audio_ext(e: Seq<char>) -> bool {
    e == "mp3"@ || e == "m4a"@ || e == "aac"@ || e == "wav"@ || e == "mka"@
}

pub open spec fn video_name(name: Seq<char>) -> bool {
    match ext_of(name) {
        Some(e) => video_ext(e),
        None => false,
    }
}

pub open spec fn audio_name(name: Seq<char>) -> bool {
    match ext_of(name) {
        Some(e) => audio_ext(e),
        None => false,
    }
}

pub fn is_video_name(name: &str) -> (r: bool)
    ensures
        r == video_name(name@),
{
    match extension_chars(&to_chars(name)) {
        Some(e) => is_str(&e, "mp4") || is_str(&e, "m4v") || is_str(&e, "mov") || is_str(&e, "mkv") || is_str(
            &e,
            "webm",
        ) || is_str(&e, "avi") || is_str(&e, "3gp") || is_str(&e, "mjpg") || is_str(&e, "mjpeg"),
        None => false,
    }
}

pub fn is_audio_name(name: &str) -> (r: bool)
    ensures
        r == audio_name(name@),
{
    match extension_chars(&to_chars(name)) {
        Some(e) => is_str(&e, "mp3") || is_str(&e, "m4a") || is_str(&e, "aac") || is_str(&e, "wav") || is_str(
            &e,
            "mka",
        ),
        None => false,
    }
}

pub fn is_media_name(name: &str) -> (r: bool)
    ensures
        r == (video_name(name@) || audio_name(name@)),
{
    is_video_name(name) || is_audio_name(name)
}

/// A time in microseconds as hours, minutes and seconds.
pub open spec fn clock_text(us: int) -> Seq<char> {
    let s = if us > 0 { us / 1_000_000 } else { 0 };
    let mm = pad_left(dec(((s / 60) % 60) as nat), 2, '0');
    let ss = pad_left(dec((s % 60) as nat), 2, '0');
    if s >= 3600 {
        dec((s / 3600) as nat) + seq![':'] + mm + seq![':'] + ss
    } else {
        dec((s / 60) as nat) + seq![':'] + ss
    }
}

pub fn fmt_time(us: i64) -> (r: String)
    ensures
        r@ == clock_text(us as int),
{
    let s: u64 = if us > 0 { us as u64 / 1_000_000 } else { 0 };
    let mut out: Vec<char> = Vec::new();
    if s >= 3600 {
        push_dec(&mut out, s / 3600);
        out.push(':');
        push_dec_zeros(&mut out, (s / 60) % 60, 2);
    } else {
        push_dec(&mut out, s / 60);
    }
    out.push(':');
    push_dec_zeros(&mut out, s % 60, 2);
    proof {
        assert(out@ =~= clock_text(us as int));
    }
    to_text(&out)
}

/// The sine of `15 * k` degrees in 1/1024 units, for the first half turn.
pub open spec fn sine_step(k: int) -> int {
    if k == 1 || k == 11 {
        265
    } else if k == 2 || k == 10 {
        512
    } else if k == 3 || k == 9 {
        724
    } else if k == 4 || k == 8 {
        887
    } else if k == 5 || k == 7 {
        989
    } else if k == 6 {
        1024
    } else {
        0
    }
}

/// The sine of a whole number of degrees, in steps of fifteen.
pub open spec fn sine(deg: int) -> int {
    let a = deg % 360;
    let v = sine_step((a % 180) / 15);
    if a >= 180 { -v } else { v }
}

fn sin_deg(a: i32) -> (r: i32)
    requires
        0 <= a < 360,
    ensures
        r == sine(a as int),
{
    let k: i32 = (a % 180) / 15;
    let v: i32 = if k == 1 || k == 11 {
        265
    } else if k == 2 || k == 10 {
        512
    } else if k == 3 || k == 9 {
        724
    } else if k == 4 || k == 8 {
        887
    } else if k == 5 || k == 7 {
        989
    } else if k == 6 {
        1024
    } else {
        0
    };
    if a >= 180 { -v } else { v }
}

/// A number of degrees brought into one turn.
fn turn(deg: i64) -> (r: i32)
    requires
        -0x1_0000_0000 <= deg <= 0x1_0000_0000,
    ensures
        r == deg as int % 360,
        0 <= r < 360,
{
    let q: i64 = crate::arith::floor_div(deg, 360);
    proof {
        assert(deg as int == 360 * (deg as int / 360) + deg as int % 360);
    }
    (deg - q * 360) as i32
}

/// sin and cos of whole degrees in 1/1024 units (for the spinner).
pub fn sin_cos_deg(deg: i32) -> (r: (i32, i32))
    ensures
        r.0 == sine(deg as int),
        r.1 == sine(deg + 90),
        -1024 <= r.0 <= 1024,
        -1024 <= r.1 <= 1024,
{
    let s: i32 = sin_deg(turn(deg as i64));
    let c: i32 = sin_deg(turn(deg as i64 + 90));
    proof {
        assert((deg as int % 360) % 360 == deg as int % 360);
        assert(((deg + 90) % 360) % 360 == (deg + 90) % 360);
    }
    (s, c)
}

/// The sine turns round: half a turn on it is the opposite, and it rises
/// and falls alike. With the sine a quarter turn on it spans a circle, to
/// within a dot in two thousand.
pub proof fn lemma_sine(k: int)
    requires
        0 <= k < 12,
    ensures
        sine(15 * k + 180) == -sine(15 * k),
        sine(180 - 15 * k) == sine(15 * k),
        0 <= sine(15 * k) <= 1024,
        sine(0) == 0 && sine(90) == 1024,
        -400 <= sine(15 * k) * sine(15 * k) + sine(15 * k + 90) * sine(15 * k + 90) - 1024 * 1024 <= 400,
{
    lemma_turn(k);
    lemma_turn(k + 12);
    lemma_turn(12 - k);
    lemma_turn(k + 6);
    let a = sine(15 * k);
    let b = sine(15 * k + 90);
    let (x, y) = if k == 0 {
        (0int, 1024int)
    } else if k == 6 {
        (1024int, 0int)
    } else if k == 3 || k == 9 {
        (724int, 724int)
    } else if k == 1 || k == 11 {
        (265int, 989int)
    } else if k == 5 || k == 7 {
        (989int, 265int)
    } else if k == 2 || k == 10 {
        (512int, 887int)
    } else {
        (887int, 512int)
    };
    assert(a == x && (b == y || b == -y));
    assert(a * a == x * x && b * b == y * y) by (nonlinear_arith)
        requires
            a == x,
            b == y || b == -y,
    ;
    assert(-400 <= x * x + y * y - 1024 * 1024 <= 400) by (nonlinear_arith)
        requires
            x == 0 && y == 1024 || x == 1024 && y == 0 || x == 724 && y == 724 || x == 265 && y == 989 || x == 989 && y
                == 265 || x == 512 && y == 887 || x == 887 && y == 512,
    ;
}

proof fn lemma_turn(k: int)
    requires
        0 <= k < 24,
    ensures
        sine(15 * k) == (if k < 12 { sine_step(k) } else { -sine_step(k - 12) }),
{
    assert((15 * k) % 360 == 15 * k);
    if k < 12 {
        assert((15 * k) % 180 == 15 * k);
        assert(15 * k / 15 == k);
    } else {
        assert((15 * k) % 180 == 15 * k - 180);
        assert((15 * k - 180) / 15 == k - 12);
    }
}

/// A time of so many hours, minutes and seconds is shown by these numbers;
/// parts of a second are left out, and hours where there are none.
pub proof fn lemma_clock_parts(h: int, m: int, s: int, part: int)
    requires
        0 <= h,
        0 <= m < 60,
        0 <= s < 60,
        0 <= part < 1_000_000,
    ensures
        h > 0 ==> clock_text((h * 3600 + m * 60 + s) * 1_000_000 + part) == dec(h as nat) + seq![':'] + pad_left(
            dec(m as nat),
            2,
            '0',
        ) + seq![':'] + pad_left(dec(s as nat), 2, '0'),
        clock_text((m * 60 + s) * 1_000_000 + part) == dec(m as nat) + seq![':'] + pad_left(dec(s as nat), 2, '0'),
{
    let t = h * 3600 + m * 60 + s;
    assert((t * 1_000_000 + part) / 1_000_000 == t);
    assert(t / 3600 == h && t / 60 % 60 == m && t % 60 == s);
    let u = m * 60 + s;
    assert((u * 1_000_000 + part) / 1_000_000 == u);
    assert(u / 60 == m && u % 60 == s);
    if u == 0 {
        assert(clock_text(part) == clock_text(u * 1_000_000 + part));
    }
}

} // verus!
