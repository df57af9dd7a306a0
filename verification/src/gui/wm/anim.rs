//! Time-based animations: where a window appears and how opaque it is.

use super::super::geom::Rect;
use crate::arith::{clamp, clamp_i64, div, fits, max, max_i64, min, tdiv};
use vstd::prelude::*;

verus! {

pub const OPEN_MS: u64 = 230;
pub const CLOSE_MS: u64 = 170;
pub const MINIMIZE_MS: u64 = 280;
pub const MORPH_MS: u64 = 220;
pub const SHADOW_BLUR: i32 = 26;
pub const SHADOW_OFFSET: i32 = 8;

/// A coordinate or size with room for sums in 32 bits.
pub open spec fn small(v: int) -> bool {
    -0x800_0000 < v < 0x800_0000
}

pub open spec fn small_rect(r: Rect) -> bool {
    small(r.x as int) && small(r.y as int) && small(r.w as int) && small(r.h as int)
}

// ---------------------------------------------------------------------
// Easing
// ---------------------------------------------------------------------

/// 1 - (1 - p)^3 on a 0..=1024 scale.
pub open spec fn eased_out(p: int) -> int {
    let q = 1024 - clamp(p, 0, 1024);
    1024 - q * q / 1024 * q / 1024
}

/// p^2 on a 0..=1024 scale.
pub open spec fn eased_in(p: int) -> int {
    let q = clamp(p, 0, 1024);
    q * q / 1024
}

proof fn lemma_square(q: int)
    requires
        0 <= q <= 1024,
    ensures
        0 <= q * q <= 1024 * 1024,
        0 <= q * q / 1024 <= q,
        0 <= q * q / 1024 * q <= 1024 * q,
        0 <= q * q / 1024 * q / 1024 <= q,
{
    assert(0 <= q * q <= 1024 * q) by (nonlinear_arith)
        requires
            0 <= q <= 1024,
    ;
    let s = q * q / 1024;
    assert(0 <= s * q <= 1024 * q) by (nonlinear_arith)
        requires
            0 <= s <= 1024,
            0 <= q,
    ;
}

/// Easing stays on the scale, starts at its start and ends at its end.
pub proof fn lemma_ease_range(p: int)
    ensures
        0 <= eased_out(p) <= 1024,
        0 <= eased_in(p) <= 1024,
        eased_out(0) == 0,
        eased_in(0) == 0,
        p >= 1024 ==> eased_out(p) == 1024 && eased_in(p) == 1024,
{
    lemma_square(1024 - clamp(p, 0, 1024));
    lemma_square(clamp(p, 0, 1024));
    assert(1024int * 1024 / 1024 * 1024 / 1024 == 1024);
}

/// Easing never runs backwards.
pub proof fn lemma_ease_monotone(p: int, q: int)
    requires
        p <= q,
    ensures
        eased_out(p) <= eased_out(q),
        eased_in(p) <= eased_in(q),
{
    let a = clamp(p, 0, 1024);
    let b = clamp(q, 0, 1024);
    assert(a * a <= b * b) by (nonlinear_arith)
        requires
            0 <= a <= b,
    ;
    let c = 1024 - b;
    let d = 1024 - a;
    assert(c * c <= d * d) by (nonlinear_arith)
        requires
            0 <= c <= d,
    ;
    let x = c * c / 1024;
    let y = d * d / 1024;
    assert(x <= y);
    assert(0 <= x) by {
        lemma_square(c);
    }
    assert(x * c <= y * d) by (nonlinear_arith)
        requires
            0 <= x <= y,
            0 <= c <= d,
    ;
}

/// Ease-out cubic on a 0..=1024 scale.
pub fn ease_out(p: i64) -> (r: i64)
    ensures
        r == eased_out(p as int),
        0 <= r <= 1024,
{
    let q: i64 = 1024 - clamp_i64(p, 0, 1024);
    proof {
        lemma_square(q as int);
        lemma_ease_range(p as int);
    }
    1024 - q * q / 1024 * q / 1024
}

/// Ease-in quadratic on a 0..=1024 scale.
pub fn ease_in(p: i64) -> (r: i64)
    ensures
        r == eased_in(p as int),
        0 <= r <= 1024,
{
    let q: i64 = clamp_i64(p, 0, 1024);
    proof {
        lemma_square(q as int);
        lemma_ease_range(p as int);
    }
    q * q / 1024
}

// ---------------------------------------------------------------------
// Interpolation
// ---------------------------------------------------------------------

/// The point `t`/1024 of the way from `a` to `b`.
pub open spec fn between(a: int, b: int, t: int) -> int {
    a + tdiv((b - a) * t, 1024)
}

/// Interpolation stays between its ends, and reaches them.
pub proof fn lemma_between(a: int, b: int, t: int)
    requires
        0 <= t <= 1024,
    ensures
        a <= b ==> a <= between(a, b, t) <= b,
        b <= a ==> b <= between(a, b, t) <= a,
        between(a, b, 0) == a,
        between(a, b, 1024) == b,
{
    let d = b - a;
    assert(d * 0 == 0) by (nonlinear_arith);
    if d >= 0 {
        assert(0 <= d * t <= d * 1024) by (nonlinear_arith)
            requires
                0 <= d,
                0 <= t <= 1024,
        ;
    } else {
        assert(d * 1024 <= d * t <= 0) by (nonlinear_arith)
            requires
                d <= 0,
                0 <= t <= 1024,
        ;
    }
}

pub fn lerp(a: i32, b: i32, t: i64) -> (r: i32)
    requires
        0 <= t <= 1024,
    ensures
        r == between(a as int, b as int, t as int),
{
    proof {
        lemma_between(a as int, b as int, t as int);
        let d = b - a;
        assert(-0x1_0000_0000 * 1024 <= d * t <= 0x1_0000_0000 * 1024) by (nonlinear_arith)
            requires
                -0x1_0000_0000 <= d <= 0x1_0000_0000,
                0 <= t <= 1024,
        ;
    }
    (a as i64 + div((b as i64 - a as i64) * t, 1024)) as i32
}

pub open spec fn rect_between(a: Rect, b: Rect, t: int) -> Rect {
    Rect {
        x: between(a.x as int, b.x as int, t) as i32,
        y: between(a.y as int, b.y as int, t) as i32,
        w: max(between(a.w as int, b.w as int, t), 1) as i32,
        h: max(between(a.h as int, b.h as int, t), 1) as i32,
    }
}

pub fn lerp_rect(a: Rect, b: Rect, t: i64) -> (r: Rect)
    requires
        0 <= t <= 1024,
    ensures
        r == rect_between(a, b, t as int),
        r.w >= 1,
        r.h >= 1,
        small_rect(a) && small_rect(b) ==> small_rect(r),
{
    proof {
        lemma_between(a.x as int, b.x as int, t as int);
        lemma_between(a.y as int, b.y as int, t as int);
        lemma_between(a.w as int, b.w as int, t as int);
        lemma_between(a.h as int, b.h as int, t as int);
    }
    let w: i32 = lerp(a.w, b.w, t);
    let h: i32 = lerp(a.h, b.h, t);
    Rect { x: lerp(a.x, b.x, t), y: lerp(a.y, b.y, t), w: if w >= 1 { w } else { 1 }, h: if h >= 1 { h } else { 1 } }
}

/// A size scaled by `s`/1024, at least one pixel.
pub open spec fn scaled(v: int, s: int) -> int {
    max(tdiv(v * s, 1024), 1)
}

/// `r` scaled about its centre by `s`/1024.
pub open spec fn rect_scaled(r: Rect, s: int) -> Rect {
    let w = scaled(r.w as int, s);
    let h = scaled(r.h as int, s);
    Rect {
        x: (r.x + tdiv(r.w - w, 2)) as i32,
        y: (r.y + tdiv(r.h - h, 2)) as i32,
        w: w as i32,
        h: h as i32,
    }
}

fn scale(v: i32, s: i64) -> (r: i64)
    requires
        small(v as int),
        0 <= s <= 1024,
    ensures
        r == scaled(v as int, s as int),
        1 <= r < 0x800_0000,
{
    proof {
        assert(-0x800_0000 * 1024 <= v * s <= 0x7ff_ffff * 1024) by (nonlinear_arith)
            requires
                -0x800_0000 <= v <= 0x7ff_ffff,
                0 <= s <= 1024,
        ;
    }
    max_i64(div(v as i64 * s, 1024), 1)
}

pub fn scale_rect(r: Rect, s: i64) -> (o: Rect)
    requires
        small_rect(r),
        0 <= s <= 1024,
    ensures
        o == rect_scaled(r, s as int),
        -0x1000_0000 <= o.x <= 0x1000_0000,
        -0x1000_0000 <= o.y <= 0x1000_0000,
        1 <= o.w < 0x800_0000,
        1 <= o.h < 0x800_0000,
{
    let w: i64 = scale(r.w, s);
    let h: i64 = scale(r.h, s);
    let x: i64 = r.x as i64 + div(r.w as i64 - w, 2);
    let y: i64 = r.y as i64 + div(r.h as i64 - h, 2);
    Rect { x: x as i32, y: y as i32, w: w as i32, h: h as i32 }
}

// ---------------------------------------------------------------------
// Animations
// ---------------------------------------------------------------------

#[derive(Clone, Copy, PartialEq, Eq, Debug, Structural)]
pub enum AnimKind {
    /// Grow in, optionally from a rectangle (e.g. the dock icon).
    Open(Option<Rect>),
    Close,
    /// Shrink into the dock icon.
    Minimize(Rect),
    Restore(Rect),
    /// Move/resize from a previous rectangle (maximise and restore).
    Morph(Rect),
}

#[derive(Clone, Copy, PartialEq, Eq, Debug, Structural)]
pub struct Anim {
    pub kind: AnimKind,
    pub start: u64,
    pub duration: u64,
}

impl AnimKind {
    pub open spec fn wf(self) -> bool {
        match self {
            AnimKind::Open(Some(r)) => small_rect(r),
            AnimKind::Minimize(r) => small_rect(r),
            AnimKind::Restore(r) => small_rect(r),
            AnimKind::Morph(r) => small_rect(r),
            _ => true,
        }
    }
}

impl Anim {
    /// How far the animation is, on a 0..=1024 scale.
    pub open spec fn at(self, now: u64) -> int {
        min(max(now - self.start, 0) * 1024 / max(self.duration as int, 1), 1024)
    }

    /// Whether the animation is over.
    pub open spec fn over(self, now: u64) -> bool {
        now >= self.start + self.duration
    }

    pub fn progress(&self, now: u64) -> (r: i64)
        ensures
            r == self.at(now),
            0 <= r <= 1024,
    {
        let elapsed: u64 = now.saturating_sub(self.start);
        let d: u64 = if self.duration >= 1 { self.duration } else { 1 };
        let e: u128 = elapsed as u128 * 1024;
        let q: u128 = e / d as u128;
        proof {
            assert(0 <= e / (d as u128) <= e) by (nonlinear_arith)
                requires
                    e >= 0,
                    d >= 1,
            ;
        }
        if q >= 1024 { 1024 } else { q as i64 }
    }

    pub fn done(&self, now: u64) -> (r: bool)
        ensures
            r == self.over(now),
    {
        now as u128 >= self.start as u128 + self.duration as u128
    }
}

/// An animation that is over has run its whole length.
pub proof fn lemma_over_is_complete(a: Anim, now: u64)
    requires
        a.over(now),
        a.duration >= 1,
    ensures
        a.at(now) == 1024,
{
    let e = now - a.start;
    let d = a.duration as int;
    assert(e * 1024 / d >= 1024) by (nonlinear_arith)
        requires
            e >= d,
            d >= 1,
    ;
}

/// Everything that a window with a drop shadow paints.
pub open spec fn shadowed(r: Rect) -> Rect {
    Rect {
        x: (r.x - SHADOW_BLUR) as i32,
        y: (r.y - SHADOW_BLUR) as i32,
        w: (r.w + 2 * SHADOW_BLUR) as i32,
        h: (r.h + 2 * SHADOW_BLUR + SHADOW_OFFSET) as i32,
    }
}

pub fn shadow_bounds(r: Rect) -> (o: Rect)
    requires
        fits(r.x - SHADOW_BLUR),
        fits(r.y - SHADOW_BLUR),
        fits(r.w + 2 * SHADOW_BLUR),
        fits(r.h + 2 * SHADOW_BLUR + SHADOW_OFFSET),
    ensures
        o == shadowed(r),
{
    Rect { x: r.x - SHADOW_BLUR, y: r.y - SHADOW_BLUR, w: r.w + 52, h: r.h + 60 }
}

/// The shadow bounds hold the window.
pub proof fn lemma_shadow_covers(r: Rect)
    requires
        small_rect(r),
    ensures
        r.within(shadowed(r)),
{
}

/// Where a window at `rect` appears under an animation, and its opacity.
pub open spec fn appearance(rect: Rect, kind: AnimKind, p: int) -> (Rect, int) {
    let o = eased_out(p);
    let i = eased_in(p);
    match kind {
        AnimKind::Open(None) => {
            let r = rect_scaled(rect, 940 + 84 * o / 1024);
            (Rect { y: (r.y + 14 * (1024 - o) / 1024) as i32, ..r }, o * 255 / 1024)
        },
        AnimKind::Open(Some(from)) => (rect_between(from, rect, o), min(o * 2, 1024) * 255 / 1024),
        AnimKind::Close => (rect_scaled(rect, 1024 - 80 * i / 1024), (1024 - i) * 255 / 1024),
        AnimKind::Minimize(target) => (rect_between(rect, target, i), 255 - i * 200 / 1024),
        AnimKind::Restore(from) => (rect_between(from, rect, o), 55 + o * 200 / 1024),
        AnimKind::Morph(from) => (rect_between(from, rect, o), 255),
    }
}

/// Where a window appears at a moment, and its opacity.
pub open spec fn visual_of(rect: Rect, anim: Option<Anim>, now: u64) -> (Rect, int) {
    match anim {
        None => (rect, 255),
        Some(a) => appearance(rect, a.kind, a.at(now)),
    }
}

/// Where the window appears right now and its opacity.
pub fn visual(rect: Rect, anim: Option<Anim>, now: u64) -> (r: (Rect, u32))
    requires
        small_rect(rect),
        anim matches Some(a) ==> a.kind.wf(),
    ensures
        r.0 == visual_of(rect, anim, now).0,
        r.1 == visual_of(rect, anim, now).1,
        r.1 <= 255,
        -0x1000_1000 <= r.0.x <= 0x1000_1000,
        -0x1000_1000 <= r.0.y <= 0x1000_1000,
        -0x800_0000 < r.0.w < 0x800_0000,
        -0x800_0000 < r.0.h < 0x800_0000,
{
    let a: Anim = match anim {
        None => {
            return (rect, 255);
        },
        Some(a) => a,
    };
    let p: i64 = a.progress(now);
    match a.kind {
        AnimKind::Open(None) => {
            let e: i64 = ease_out(p);
            let r: Rect = scale_rect(rect, 940 + 84 * e / 1024);
            let dy: i64 = 14 * (1024 - e) / 1024;
            (Rect { x: r.x, y: (r.y as i64 + dy) as i32, w: r.w, h: r.h }, (e * 255 / 1024) as u32)
        },
        AnimKind::Open(Some(from)) => {
            let e: i64 = ease_out(p);
            let twice: i64 = if e * 2 <= 1024 { e * 2 } else { 1024 };
            (lerp_rect(from, rect, e), (twice * 255 / 1024) as u32)
        },
        AnimKind::Close => {
            let e: i64 = ease_in(p);
            (scale_rect(rect, 1024 - 80 * e / 1024), ((1024 - e) * 255 / 1024) as u32)
        },
        AnimKind::Minimize(target) => {
            let e: i64 = ease_in(p);
            (lerp_rect(rect, target, e), (255 - e * 200 / 1024) as u32)
        },
        AnimKind::Restore(from) => {
            let e: i64 = ease_out(p);
            (lerp_rect(from, rect, e), (55 + e * 200 / 1024) as u32)
        },
        AnimKind::Morph(from) => (lerp_rect(from, rect, ease_out(p)), 255),
    }
}

/// At its end, an animation that brings a window in leaves it where it
/// belongs, fully opaque.
pub proof fn lemma_arrives(rect: Rect, kind: AnimKind)
    requires
        small_rect(rect),
        rect.w >= 1,
        rect.h >= 1,
        !(kind is Close),
        !(kind is Minimize),
    ensures
        appearance(rect, kind, 1024) == (rect, 255int),
{
    lemma_ease_range(1024);
    assert(eased_out(1024) == 1024);
    match kind {
        AnimKind::Open(None) => {
            assert(tdiv(rect.w * 1024, 1024) == rect.w);
            assert(tdiv(rect.h * 1024, 1024) == rect.h);
        },
        AnimKind::Open(Some(from)) => {
            lemma_rect_arrives(from, rect);
        },
        AnimKind::Restore(from) => {
            lemma_rect_arrives(from, rect);
        },
        AnimKind::Morph(from) => {
            lemma_rect_arrives(from, rect);
        },
        _ => {},
    }
}

proof fn lemma_rect_arrives(a: Rect, b: Rect)
    requires
        b.w >= 1,
        b.h >= 1,
    ensures
        rect_between(a, b, 1024) == b,
{
    lemma_between(a.x as int, b.x as int, 1024);
    lemma_between(a.y as int, b.y as int, 1024);
    lemma_between(a.w as int, b.w as int, 1024);
    lemma_between(a.h as int, b.h as int, 1024);
}

/// A window that is closing has faded out at the end.
pub proof fn lemma_closes_invisible(rect: Rect)
    ensures
        appearance(rect, AnimKind::Close, 1024).1 == 0,
{
    lemma_ease_range(1024);
}

} // verus!
