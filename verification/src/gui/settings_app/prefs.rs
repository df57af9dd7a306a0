//! The settings themselves, and the controls that change them.

use crate::arith::{clamp, max, min, tdiv};
use crate::gui::geom::Area;
use vstd::prelude::*;

verus! {

/// The settings that controls of the app change.
#[derive(Clone, Copy, PartialEq, Eq, Debug, Structural)]
pub struct Settings {
    pub animations: bool,
    pub muted: bool,
    pub system_sounds: bool,
    pub natural_scroll: bool,
    pub clock_24h: bool,
    pub show_seconds: bool,
    pub dhcp: bool,
    pub dock_autohide: bool,
    pub volume: u8,
    pub pointer_speed: u8,
    pub double_click_ms: u32,
    pub key_repeat: u8,
    pub wallpaper: usize,
    pub accent: usize,
    pub dock_position: u8,
    pub dock_size: u8,
    pub tz_offset_min: i32,
}

#[derive(Clone, Copy, PartialEq, Eq, Debug, Structural)]
pub enum Toggle {
    Animations,
    Muted,
    SystemSounds,
    NaturalScroll,
    Clock24h,
    ShowSeconds,
    Dhcp,
    DockAutohide,
}

#[derive(Clone, Copy, PartialEq, Eq, Debug, Structural)]
pub enum Slider {
    Volume,
    PointerSpeed,
    DoubleClick,
    KeyRepeat,
}

pub open spec fn toggled(s: Settings, t: Toggle) -> bool {
    match t {
        Toggle::Animations => s.animations,
        Toggle::Muted => s.muted,
        Toggle::SystemSounds => s.system_sounds,
        Toggle::NaturalScroll => s.natural_scroll,
        Toggle::Clock24h => s.clock_24h,
        Toggle::ShowSeconds => s.show_seconds,
        Toggle::Dhcp => s.dhcp,
        Toggle::DockAutohide => s.dock_autohide,
    }
}

pub open spec fn with_toggle(s: Settings, t: Toggle, v: bool) -> Settings {
    match t {
        Toggle::Animations => Settings { animations: v, ..s },
        Toggle::Muted => Settings { muted: v, ..s },
        Toggle::SystemSounds => Settings { system_sounds: v, ..s },
        Toggle::NaturalScroll => Settings { natural_scroll: v, ..s },
        Toggle::Clock24h => Settings { clock_24h: v, ..s },
        Toggle::ShowSeconds => Settings { show_seconds: v, ..s },
        Toggle::Dhcp => Settings { dhcp: v, ..s },
        Toggle::DockAutohide => Settings { dock_autohide: v, ..s },
    }
}

/// A toggle keeps what it is set to, and leaves the others alone.
pub proof fn lemma_toggles(s: Settings, t: Toggle, u: Toggle, v: bool)
    ensures
        toggled(with_toggle(s, t, v), t) == v,
        u != t ==> toggled(with_toggle(s, t, v), u) == toggled(s, u),
        with_toggle(with_toggle(s, t, v), t, toggled(s, t)) == s,
{
}

pub fn toggle_value(s: &Settings, t: Toggle) -> (r: bool)
    ensures
        r == toggled(*s, t),
{
    match t {
        Toggle::Animations => s.animations,
        Toggle::Muted => s.muted,
        Toggle::SystemSounds => s.system_sounds,
        Toggle::NaturalScroll => s.natural_scroll,
        Toggle::Clock24h => s.clock_24h,
        Toggle::ShowSeconds => s.show_seconds,
        Toggle::Dhcp => s.dhcp,
        Toggle::DockAutohide => s.dock_autohide,
    }
}

pub fn set_toggle(s: &mut Settings, t: Toggle, v: bool)
    ensures
        *final(s) == with_toggle(*old(s), t, v),
{
    match t {
        Toggle::Animations => s.animations = v,
        Toggle::Muted => s.muted = v,
        Toggle::SystemSounds => s.system_sounds = v,
        Toggle::NaturalScroll => s.natural_scroll = v,
        Toggle::Clock24h => s.clock_24h = v,
        Toggle::ShowSeconds => s.show_seconds = v,
        Toggle::Dhcp => s.dhcp = v,
        Toggle::DockAutohide => s.dock_autohide = v,
    }
}

/// The least and the greatest value of a slider.
pub open spec fn range(sl: Slider) -> (int, int) {
    match sl {
        Slider::Volume => (0, 100),
        Slider::PointerSpeed => (1, 10),
        Slider::DoubleClick => (200, 900),
        Slider::KeyRepeat => (1, 5),
    }
}

pub fn slider_range(sl: Slider) -> (r: (i32, i32))
    ensures
        (r.0 as int, r.1 as int) == range(sl),
{
    match sl {
        Slider::Volume => (0, 100),
        Slider::PointerSpeed => (1, 10),
        Slider::DoubleClick => (200, 900),
        Slider::KeyRepeat => (1, 5),
    }
}

pub open spec fn slid(s: Settings, sl: Slider) -> int {
    match sl {
        Slider::Volume => s.volume as int,
        Slider::PointerSpeed => s.pointer_speed as int,
        Slider::DoubleClick => s.double_click_ms as int,
        Slider::KeyRepeat => s.key_repeat as int,
    }
}

pub open spec fn with_slider(s: Settings, sl: Slider, v: int) -> Settings {
    match sl {
        Slider::Volume => Settings { volume: v as u8, ..s },
        Slider::PointerSpeed => Settings { pointer_speed: v as u8, ..s },
        Slider::DoubleClick => Settings { double_click_ms: v as u32, ..s },
        Slider::KeyRepeat => Settings { key_repeat: v as u8, ..s },
    }
}

pub fn slider_value(s: &Settings, sl: Slider) -> (r: i64)
    ensures
        r == slid(*s, sl),
{
    match sl {
        Slider::Volume => s.volume as i64,
        Slider::PointerSpeed => s.pointer_speed as i64,
        Slider::DoubleClick => s.double_click_ms as i64,
        Slider::KeyRepeat => s.key_repeat as i64,
    }
}

pub fn set_slider(s: &mut Settings, sl: Slider, v: i64)
    requires
        range(sl).0 <= v <= range(sl).1,
    ensures
        *final(s) == with_slider(*old(s), sl, v as int),
{
    match sl {
        Slider::Volume => s.volume = v as u8,
        Slider::PointerSpeed => s.pointer_speed = v as u8,
        Slider::DoubleClick => s.double_click_ms = v as u32,
        Slider::KeyRepeat => s.key_repeat = v as u8,
    }
}

/// The value of a slider for a place on it. `hit` reaches twelve pixels
/// beyond the track on both sides.
pub open spec fn slider_at(sl: Slider, hit: Area, x: int) -> int {
    let (lo, hi) = range(sl);
    let tw = hit.w - 24;
    lo + (clamp(x - (hit.x + 12), 0, tw) * (hi - lo) + tw / 2) / max(tw, 1)
}

/// A slider reaches from its least to its greatest value, and no further.
pub proof fn lemma_slider_range(sl: Slider, hit: Area, x: int)
    requires
        hit.w >= 24,
    ensures
        range(sl).0 <= slider_at(sl, hit, x) <= range(sl).1,
        x <= hit.x + 12 ==> slider_at(sl, hit, x) == range(sl).0,
        hit.w > 24 && x >= hit.x + hit.w - 12 ==> slider_at(sl, hit, x) == range(sl).1,
{
    let (lo, hi) = range(sl);
    let tw = hit.w - 24;
    let c = clamp(x - (hit.x + 12), 0, tw);
    let d = hi - lo;
    if tw > 0 {
        assert(0 <= (c * d + tw / 2) / tw <= d) by (nonlinear_arith)
            requires
                0 <= c <= tw,
                tw > 0,
                d >= 0,
        ;
        assert(c == 0 ==> (c * d + tw / 2) / tw == 0) by (nonlinear_arith)
            requires
                tw > 0,
        ;
        assert(c == tw ==> (c * d + tw / 2) / tw == d) by (nonlinear_arith)
            requires
                tw > 0,
        ;
    } else {
        assert(c == 0);
        assert(c * d == 0) by (nonlinear_arith)
            requires
                c == 0,
        ;
    }
}

/// A slider keeps the value that it is set to, and leaves the other sliders
/// and all toggles alone.
pub proof fn lemma_sliders(s: Settings, sl: Slider, other: Slider, t: Toggle, v: int)
    requires
        range(sl).0 <= v <= range(sl).1,
    ensures
        slid(with_slider(s, sl, v), sl) == v,
        other != sl ==> slid(with_slider(s, sl, v), other) == slid(s, other),
        toggled(with_slider(s, sl, v), t) == toggled(s, t),
        with_slider(with_slider(s, sl, v), sl, slid(s, sl)) == s,
{
}

/// A place further to the right on a slider never gives a smaller value, and
/// the value is the one whose own place is nearest.
pub proof fn lemma_slider_follows(sl: Slider, hit: Area, x: int, y: int)
    requires
        hit.w > 24,
        x <= y,
    ensures
        slider_at(sl, hit, x) <= slider_at(sl, hit, y),
        ({
            let (lo, hi) = range(sl);
            let tw = hit.w - 24;
            let d = x - (hit.x + 12);
            0 <= d <= tw ==> -tw <= 2 * ((slider_at(sl, hit, x) - lo) * tw - d * (hi - lo)) <= tw
        }),
{
    let (lo, hi) = range(sl);
    let tw = hit.w - 24;
    let n = hi - lo;
    let a = clamp(x - (hit.x + 12), 0, tw);
    let b = clamp(y - (hit.x + 12), 0, tw);
    assert((a * n + tw / 2) / tw <= (b * n + tw / 2) / tw) by (nonlinear_arith)
        requires
            0 <= a <= b,
            n > 0,
            tw > 0,
    ;
    let q = (a * n + tw / 2) / tw;
    assert(q * tw <= a * n + tw / 2 < q * tw + tw) by (nonlinear_arith)
        requires
            tw > 0,
            q == (a * n + tw / 2) / tw,
    ;
}

/// The value of a slider for a place on it.
pub fn slider_value_at(sl: Slider, hit: &Area, x: i32) -> (r: i64)
    requires
        hit.small(),
        hit.w >= 24,
    ensures
        r == slider_at(sl, *hit, x as int),
        range(sl).0 <= r <= range(sl).1,
{
    let (lo, hi) = slider_range(sl);
    let tw: i64 = hit.w - 24;
    let c: i64 = crate::arith::clamp_i64(x as i64 - (hit.x + 12), 0, tw);
    let d: i64 = hi as i64 - lo as i64;
    proof {
        lemma_slider_range(sl, *hit, x as int);
        assert(0 <= c * d <= 0x4_0000_0000 * 1000) by (nonlinear_arith)
            requires
                0 <= c <= 0x4_0000_0000,
                0 <= d <= 1000,
        ;
    }
    lo as i64 + (c * d + tw / 2) / (if tw > 1 { tw } else { 1 })
}

// ---------------------------------------------------------------------
// The knob of a toggle
// ---------------------------------------------------------------------

pub const TOGGLE_MS: u64 = 160;

/// A knob on its way: where it was, and when it started.
#[derive(Clone, Copy, PartialEq, Eq, Debug, Structural)]
pub struct Knob {
    pub toggle: Toggle,
    pub from: i64,
    pub start: u64,
}

/// How far a motion has come after some milliseconds, slowing down.
pub open spec fn eased(ms: int, total: int) -> int {
    let p = min(ms * 1024 / total, 1024);
    1024 - (1024 - p) * (1024 - p) / 1024
}

pub proof fn lemma_eased(ms: int, total: int)
    requires
        ms >= 0,
        total > 0,
    ensures
        0 <= eased(ms, total) <= 1024,
        ms >= total ==> eased(ms, total) == 1024,
{
    let q = ms * 1024 / total;
    assert(q >= 0) by (nonlinear_arith)
        requires
            ms >= 0,
            total > 0,
            q == ms * 1024 / total,
    ;
    assert(ms >= total ==> q >= 1024) by (nonlinear_arith)
        requires
            total > 0,
            q == ms * 1024 / total,
    ;
    let p = min(q, 1024);
    assert(0 <= (1024 - p) * (1024 - p) <= 1024 * 1024) by (nonlinear_arith)
        requires
            0 <= p <= 1024,
    ;
    assert(p == 1024 ==> (1024 - p) * (1024 - p) == 0) by (nonlinear_arith);
}

pub open spec fn knob_at(target: int, k: Option<Knob>, now: int) -> int {
    match k {
        Some(k) => k.from + tdiv((target - k.from) * eased(now - k.start, TOGGLE_MS as int), 1024),
        None => target,
    }
}

/// A knob stays between its ends, and gets to where it goes.
pub proof fn lemma_knob(target: int, k: Knob, now: int)
    requires
        target == 0 || target == 1024,
        0 <= k.from <= 1024,
        k.start <= now,
    ensures
        0 <= knob_at(target, Some(k), now) <= 1024,
        now >= k.start + TOGGLE_MS ==> knob_at(target, Some(k), now) == target,
{
    lemma_eased(now - k.start, TOGGLE_MS as int);
    let e = eased(now - k.start, TOGGLE_MS as int);
    let d = target - k.from;
    assert(d >= 0 ==> 0 <= d * e <= d * 1024) by (nonlinear_arith)
        requires
            0 <= e <= 1024,
    ;
    assert(d < 0 ==> 0 <= -(d * e) <= -d * 1024) by (nonlinear_arith)
        requires
            0 <= e <= 1024,
    ;
}

/// How far a motion has come.
pub fn ease(ms: u64, total: u64) -> (r: i64)
    requires
        0 < total <= 10_000,
    ensures
        r == eased(ms as int, total as int),
        0 <= r <= 1024,
{
    proof {
        lemma_eased(ms as int, total as int);
    }
    let q: u128 = ms as u128 * 1024 / total as u128;
    let p: i64 = if q < 1024 { q as i64 } else { 1024 };
    proof {
        assert(0 <= (1024 - p) * (1024 - p) <= 1024 * 1024) by (nonlinear_arith)
            requires
                0 <= p <= 1024,
        ;
    }
    1024 - (1024 - p) * (1024 - p) / 1024
}

pub fn knob_position(on: bool, k: Option<Knob>, now: u64) -> (r: i64)
    requires
        k matches Some(k) ==> 0 <= k.from <= 1024 && k.start <= now,
    ensures
        r == knob_at(if on { 1024 } else { 0 }, k, now as int),
        0 <= r <= 1024,
{
    let target: i64 = if on { 1024 } else { 0 };
    match k {
        Some(k) => {
            let e: i64 = ease(now - k.start, TOGGLE_MS);
            let d: i64 = target - k.from;
            proof {
                lemma_knob(target as int, k, now as int);
                assert(-1024 * 1024 <= d * e <= 1024 * 1024) by (nonlinear_arith)
                    requires
                        0 <= e <= 1024,
                        -1024 <= d <= 1024,
                ;
            }
            k.from + crate::arith::div(d * e, 1024)
        },
        None => target,
    }
}

} // verus!
