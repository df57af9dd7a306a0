//! What the player paints: the picture or the music view, and the controls
//! over it.

use super::names::{sin_cos_deg, sine};
use super::window::{picture, Btn, Deck, Player, Status};
use crate::arith::{clamp, clamp_i64, div, max, max_i64, min, min_i64, tdiv};
use crate::gui::geom::{Area, Rect};
use crate::gui::paint::{area, at, circle, clipped, shade, shaded, text, Font, Ink, Shape};
use vstd::prelude::*;

verus! {

/// The texts and pictures of the player.
#[derive(Clone, Copy, PartialEq, Eq, Debug)]
pub enum Label {
    Name(&'static str),
    /// A line of why a file cannot be played.
    Failure(usize),
    /// The frame of the video.
    Frame,
    Cover,
    /// The icon in place of a cover.
    Music,
    Title,
    Artist,
    Album,
    Description,
    /// The first line of a warning.
    Warning,
    /// A time on the seek bar.
    Time(i64),
    /// Position and duration.
    Times(i64, i64),
}

/// What the player shows besides its own state.
#[derive(Clone, Copy)]
pub struct Show {
    pub status: Status,
    /// How many lines say why a file cannot be played.
    pub lines: usize,
    pub cover: bool,
    pub artist: bool,
    pub album: bool,
    /// How wide the warning is, if there is one.
    pub warning: Option<i32>,
    /// How wide the time under the pointer is.
    pub tip_w: i32,
    /// Ascent less descent of the font.
    pub rise: i32,
    pub now: u64,
}

// ---------------------------------------------------------------------
// Signs
// ---------------------------------------------------------------------

/// The first `n` columns of a triangle that points to the right, `size` wide.
/// Its edges are smoothed in quarters of a pixel.
pub open spec fn with_triangle(s: Seq<Shape<Label>>, x: int, cy: int, size: int, ink: Ink, n: int) -> Seq<Shape<Label>>
    decreases n,
{
    if n <= 0 {
        s
    } else {
        let half4 = (size - (n - 1)) * 36 / 8;
        let full = half4 / 4;
        let cover = (half4 % 4) * 64;
        let px = x + n - 1;
        let s = with_triangle(s, x, cy, size, ink, n - 1).push(Shape::Fill(area(px, cy - full, 1, full * 2), ink));
        if cover > 0 {
            s.push(Shape::Dot(px as i64, (cy - full - 1) as i64, ink, cover as u32)).push(
                Shape::Dot(px as i64, (cy + full) as i64, ink, cover as u32),
            )
        } else {
            s
        }
    }
}

fn triangle(out: &mut Vec<Shape<Label>>, x: i64, cy: i64, size: i64, ink: Ink)
    requires
        -0x1_0000_0000 <= x <= 0x1_0000_0000,
        -0x1_0000_0000 <= cy <= 0x1_0000_0000,
        0 <= size <= 100,
    ensures
        final(out)@ == with_triangle(old(out)@, x as int, cy as int, size as int, ink, size as int),
{
    let mut dx: i64 = 0;
    while dx < size
        invariant
            -0x1_0000_0000 <= x <= 0x1_0000_0000,
            -0x1_0000_0000 <= cy <= 0x1_0000_0000,
            0 <= dx <= size <= 100,
            out@ == with_triangle(old(out)@, x as int, cy as int, size as int, ink, dx as int),
        decreases size - dx,
    {
        let half4: i64 = (size - dx) * 36 / 8;
        let full: i64 = half4 / 4;
        let cover: i64 = (half4 % 4) * 64;
        out.push(Shape::Fill(at(x + dx, cy - full, 1, full * 2), ink));
        if cover > 0 {
            out.push(Shape::Dot(x + dx, cy - full - 1, ink, cover as u32));
            out.push(Shape::Dot(x + dx, cy + full, ink, cover as u32));
        }
        dx = dx + 1;
    }
}

/// The first `n` columns of one of the two arrows that point to another file.
pub open spec fn with_arrow(s: Seq<Shape<Label>>, x: int, cy: int, dir: int, ink: Ink, n: int) -> Seq<Shape<Label>>
    decreases n,
{
    if n <= 0 {
        s
    } else {
        let i = n - 1;
        with_arrow(s, x, cy, dir, ink, i).push(
            Shape::Fill(area(x + dir * i, cy - (8 - i), 1, (8 - i) * 2), ink),
        )
    }
}

/// The sign for the next file (`dir` 1) or the one before (-1).
pub open spec fn with_skip(s: Seq<Shape<Label>>, cx: int, cy: int, dir: int, ink: Ink) -> Seq<Shape<Label>> {
    with_arrow(with_arrow(s, cx - dir * 4, cy, dir, ink, 8), cx + dir * 3, cy, dir, ink, 8).push(
        Shape::Fill(area(cx + dir * 10 - (if dir > 0 { 0int } else { 1 }), cy - 8, 2, 16), ink),
    )
}

/// The first `n` columns of the horn of the loudspeaker.
pub open spec fn with_horn(s: Seq<Shape<Label>>, cx: int, cy: int, ink: Ink, n: int) -> Seq<Shape<Label>>
    decreases n,
{
    if n <= 0 {
        s
    } else {
        let k = n - 1;
        with_horn(s, cx, cy, ink, k).push(Shape::Fill(area(cx - 4 + k, cy - 4 - k, 1, 8 + 2 * k), ink))
    }
}

/// The first `n` steps of the cross beside a mute loudspeaker.
pub open spec fn with_mute(s: Seq<Shape<Label>>, cx: int, cy: int, ink: Ink, n: int) -> Seq<Shape<Label>>
    decreases n,
{
    if n <= 0 {
        s
    } else {
        let d = n - 5;
        with_mute(s, cx, cy, ink, n - 1).push(Shape::Dot((cx + 7 + d) as i64, (cy + d) as i64, ink, 255)).push(
            Shape::Dot((cx + 7 + d) as i64, (cy - d) as i64, ink, 255),
        )
    }
}

/// The first `n` arcs beside the loudspeaker.
pub open spec fn with_waves(s: Seq<Shape<Label>>, cx: int, cy: int, ink: Ink, n: int) -> Seq<Shape<Label>>
    decreases n,
{
    if n <= 0 {
        s
    } else {
        let a = n - 1;
        with_waves(s, cx, cy, ink, a).push(Shape::Fill(area(cx + 5 + a * 4, cy - 3 - a * 2, 2, 6 + a * 4), ink))
    }
}

pub open spec fn with_speaker(s: Seq<Shape<Label>>, cx: int, cy: int, ink: Ink, volume: int) -> Seq<Shape<Label>> {
    let s = with_horn(s.push(Shape::Fill(area(cx - 9, cy - 4, 5, 8), ink)), cx, cy, ink, 6);
    if volume == 0 {
        with_mute(s, cx, cy, ink, 9)
    } else {
        with_waves(s, cx, cy, ink, if volume > 66 { 3 } else if volume > 33 { 2 } else { 1 })
    }
}

/// A corner of the full screen sign: outwards, or inwards in full screen.
pub open spec fn with_corner(s: Seq<Shape<Label>>, cx: int, cy: int, dx: int, dy: int, fullscreen: bool, ink: Ink) -> Seq<
    Shape<Label>,
> {
    let far = if fullscreen { 2int } else { 9 };
    let (ox, oy) = (cx + dx * far, cy + dy * far);
    let x0 = if (dx > 0) == fullscreen { ox } else { ox - 6 };
    let y0 = if (dy > 0) == fullscreen { oy } else { oy - 6 };
    s.push(Shape::Fill(area(x0, oy - (if dy > 0 { 1int } else { 0 }), 7, 2), ink)).push(
        Shape::Fill(area(ox - (if dx > 0 { 1int } else { 0 }), y0, 2, 7), ink),
    )
}

/// The sign on a button.
pub open spec fn with_sign(
    s: Seq<Shape<Label>>,
    b: Btn,
    r: Area,
    playing: bool,
    ink: Ink,
    fullscreen: bool,
    volume: int,
) -> Seq<Shape<Label>> {
    let (cx, cy) = (r.x + r.w / 2, r.y + r.h / 2);
    match b {
        Btn::Play => if playing {
            s.push(Shape::Rounded(area(cx - 7, cy - 9, 5, 18), 2, ink)).push(
                Shape::Rounded(area(cx + 2, cy - 9, 5, 18), 2, ink),
            )
        } else {
            with_triangle(s, cx - 3, cy, 10, ink, 10)
        },
        Btn::Replay => with_triangle(s, cx - 6, cy, 16, ink, 16),
        Btn::Prev => with_skip(s, cx, cy, -1, ink),
        Btn::Next => with_skip(s, cx, cy, 1, ink),
        Btn::Mute => with_speaker(s, cx, cy, ink, volume),
        Btn::Fullscreen => with_corner(
            with_corner(
                with_corner(with_corner(s, cx, cy, -1, -1, fullscreen, ink), cx, cy, 1, -1, fullscreen, ink),
                cx,
                cy,
                -1,
                1,
                fullscreen,
                ink,
            ),
            cx,
            cy,
            1,
            1,
            fullscreen,
            ink,
        ),
    }
}

fn arrow(out: &mut Vec<Shape<Label>>, x: i64, cy: i64, dir: i64, ink: Ink)
    requires
        -0x1_0000_0000 <= x <= 0x1_0000_0000,
        -0x1_0000_0000 <= cy <= 0x1_0000_0000,
        dir == 1 || dir == -1,
    ensures
        final(out)@ == with_arrow(old(out)@, x as int, cy as int, dir as int, ink, 8),
{
    let mut i: i64 = 0;
    while i < 8
        invariant
            -0x1_0000_0000 <= x <= 0x1_0000_0000,
            -0x1_0000_0000 <= cy <= 0x1_0000_0000,
            dir == 1 || dir == -1,
            0 <= i <= 8,
            out@ == with_arrow(old(out)@, x as int, cy as int, dir as int, ink, i as int),
        decreases 8 - i,
    {
        let step: i64 = if dir == 1 { i } else { -i };
        assert(dir * i == step) by (nonlinear_arith)
            requires
                dir == 1 || dir == -1,
                step == if dir == 1 { i as int } else { -i },
        ;
        out.push(Shape::Fill(at(x + step, cy - (8 - i), 1, (8 - i) * 2), ink));
        i = i + 1;
    }
}

fn skip(out: &mut Vec<Shape<Label>>, cx: i64, cy: i64, next: bool, ink: Ink)
    requires
        -0xc000_0000 <= cx <= 0xc000_0000,
        -0xc000_0000 <= cy <= 0xc000_0000,
    ensures
        final(out)@ == with_skip(old(out)@, cx as int, cy as int, if next { 1 } else { -1 }, ink),
{
    if next {
        arrow(out, cx - 4, cy, 1, ink);
        arrow(out, cx + 3, cy, 1, ink);
        out.push(Shape::Fill(at(cx + 10, cy - 8, 2, 16), ink));
    } else {
        arrow(out, cx + 4, cy, -1, ink);
        arrow(out, cx - 3, cy, -1, ink);
        out.push(Shape::Fill(at(cx - 11, cy - 8, 2, 16), ink));
    }
}

fn speaker(out: &mut Vec<Shape<Label>>, cx: i64, cy: i64, ink: Ink, volume: u8)
    requires
        -0xc000_0000 <= cx <= 0xc000_0000,
        -0xc000_0000 <= cy <= 0xc000_0000,
    ensures
        final(out)@ == with_speaker(old(out)@, cx as int, cy as int, ink, volume as int),
{
    out.push(Shape::Fill(at(cx - 9, cy - 4, 5, 8), ink));
    let ghost start = out@;
    let mut k: i64 = 0;
    while k < 6
        invariant
            -0xc000_0000 <= cx <= 0xc000_0000,
            -0xc000_0000 <= cy <= 0xc000_0000,
            0 <= k <= 6,
            out@ == with_horn(start, cx as int, cy as int, ink, k as int),
        decreases 6 - k,
    {
        out.push(Shape::Fill(at(cx - 4 + k, cy - 4 - k, 1, 8 + 2 * k), ink));
        k = k + 1;
    }
    let ghost horn = out@;
    if volume == 0 {
        let mut n: i64 = 0;
        while n < 9
            invariant
                -0xc000_0000 <= cx <= 0xc000_0000,
                -0xc000_0000 <= cy <= 0xc000_0000,
                0 <= n <= 9,
                out@ == with_mute(horn, cx as int, cy as int, ink, n as int),
            decreases 9 - n,
        {
            let d: i64 = n - 4;
            out.push(Shape::Dot(cx + 7 + d, cy + d, ink, 255));
            out.push(Shape::Dot(cx + 7 + d, cy - d, ink, 255));
            n = n + 1;
        }
    } else {
        let arcs: i64 = if volume > 66 { 3 } else if volume > 33 { 2 } else { 1 };
        let mut a: i64 = 0;
        while a < arcs
            invariant
                -0xc000_0000 <= cx <= 0xc000_0000,
                -0xc000_0000 <= cy <= 0xc000_0000,
                0 <= a <= arcs <= 3,
                out@ == with_waves(horn, cx as int, cy as int, ink, a as int),
            decreases arcs - a,
        {
            out.push(Shape::Fill(at(cx + 5 + a * 4, cy - 3 - a * 2, 2, 6 + a * 4), ink));
            a = a + 1;
        }
    }
}

fn corner(out: &mut Vec<Shape<Label>>, cx: i64, cy: i64, right: bool, down: bool, fullscreen: bool, ink: Ink)
    requires
        -0xc000_0000 <= cx <= 0xc000_0000,
        -0xc000_0000 <= cy <= 0xc000_0000,
    ensures
        final(out)@ == with_corner(
            old(out)@,
            cx as int,
            cy as int,
            if right { 1 } else { -1 },
            if down { 1 } else { -1 },
            fullscreen,
            ink,
        ),
{
    let far: i64 = if fullscreen { 2 } else { 9 };
    let ox: i64 = if right { cx + far } else { cx - far };
    let oy: i64 = if down { cy + far } else { cy - far };
    let x0: i64 = if right == fullscreen { ox } else { ox - 6 };
    let y0: i64 = if down == fullscreen { oy } else { oy - 6 };
    out.push(Shape::Fill(at(x0, oy - (if down { 1 } else { 0 }), 7, 2), ink));
    out.push(Shape::Fill(at(ox - (if right { 1 } else { 0 }), y0, 2, 7), ink));
}

/// Paints the sign on a button.
pub fn draw_icon(out: &mut Vec<Shape<Label>>, b: Btn, r: Area, playing: bool, ink: Ink, fullscreen: bool, volume: u8)
    requires
        -0x4000_0000 <= r.x <= 0x7fff_ffff,
        -0x4000_0000 <= r.y <= 0x7fff_ffff,
        0 <= r.w <= 100,
        0 <= r.h <= 100,
    ensures
        final(out)@ == with_sign(old(out)@, b, r, playing, ink, fullscreen, volume as int),
{
    let (cx, cy) = (r.x + r.w / 2, r.y + r.h / 2);
    match b {
        Btn::Play => {
            if playing {
                out.push(Shape::Rounded(at(cx - 7, cy - 9, 5, 18), 2, ink));
                out.push(Shape::Rounded(at(cx + 2, cy - 9, 5, 18), 2, ink));
            } else {
                triangle(out, cx - 3, cy, 10, ink);
            }
        },
        Btn::Replay => triangle(out, cx - 6, cy, 16, ink),
        Btn::Prev => skip(out, cx, cy, false, ink),
        Btn::Next => skip(out, cx, cy, true, ink),
        Btn::Mute => speaker(out, cx, cy, ink, volume),
        Btn::Fullscreen => {
            corner(out, cx, cy, false, false, fullscreen, ink);
            corner(out, cx, cy, true, false, fullscreen, ink);
            corner(out, cx, cy, false, true, fullscreen, ink);
            corner(out, cx, cy, true, true, fullscreen, ink);
        },
    }
}

/// The first `n` dots of the wheel that turns while a file is loaded.
pub open spec fn with_wheel(s: Seq<Shape<Label>>, cx: int, cy: int, now: int, n: int) -> Seq<Shape<Label>>
    decreases n,
{
    if n <= 0 {
        s
    } else {
        let i = n - 1;
        let head = now / 80 % 12;
        let age = (head - i + 12) % 12;
        with_wheel(s, cx, cy, now, i).push(
            circle(
                cx + tdiv(sine(i * 30 + 90) * 22, 1024),
                cy + tdiv(sine(i * 30) * 22, 1024),
                3,
                shade(0xff_ffff, clamp(255 - age * 18, 40, 255)),
            ),
        )
    }
}

fn spinner(out: &mut Vec<Shape<Label>>, cx: i64, cy: i64, now: u64)
    requires
        -0xc000_0000 <= cx <= 0xc000_0000,
        -0xc000_0000 <= cy <= 0xc000_0000,
    ensures
        final(out)@ == with_wheel(old(out)@, cx as int, cy as int, now as int, 12),
{
    let head: i64 = (now / 80 % 12) as i64;
    let mut i: i64 = 0;
    while i < 12
        invariant
            -0xc000_0000 <= cx <= 0xc000_0000,
            -0xc000_0000 <= cy <= 0xc000_0000,
            0 <= i <= 12,
            head == now as int / 80 % 12,
            out@ == with_wheel(old(out)@, cx as int, cy as int, now as int, i as int),
        decreases 12 - i,
    {
        let (s, c) = sin_cos_deg(i as i32 * 30);
        let x: i64 = cx + div(c as i64 * 22, 1024);
        let y: i64 = cy + div(s as i64 * 22, 1024);
        let age: i64 = (head - i + 12) % 12;
        let a: i64 = clamp_i64(255 - age * 18, 40, 255);
        out.push(Shape::Circle(x, y, 3, shaded(0xff_ffff, a as u32)));
        i = i + 1;
    }
}

// ---------------------------------------------------------------------
// Controls
// ---------------------------------------------------------------------

/// The first `n` lines of the shadow behind the controls.
pub open spec fn with_fade(s: Seq<Shape<Label>>, w: int, h: int, a: int, n: int) -> Seq<Shape<Label>>
    decreases n,
{
    if n <= 0 {
        s
    } else {
        let i = n - 1;
        with_fade(s, w, h, a, i).push(
            Shape::Fill(area(0, h - 110 + i, w, 1), shade(0, i * i * 180 / 12100 * a / 255)),
        )
    }
}

/// The first `n` lines of the shadow behind the title.
pub open spec fn with_top_fade(s: Seq<Shape<Label>>, w: int, a: int, n: int) -> Seq<Shape<Label>>
    decreases n,
{
    if n <= 0 {
        s
    } else {
        let i = n - 1;
        with_top_fade(s, w, a, i).push(
            Shape::Fill(area(0, i, w, 1), shade(0, (60 - i) * (60 - i) * 120 / 3600 * a / 255)),
        )
    }
}

impl Deck {
    /// The position, within the duration.
    pub open spec fn shown_position(self) -> int {
        clamp(self.position as int, 0, max(self.duration(), 1))
    }

    /// How far along the seek bar the position is.
    pub open spec fn played(self) -> int {
        (self.size.0 - 40) * self.shown_position() / max(self.duration(), 1)
    }

    pub open spec fn over_bar(self) -> bool {
        self.hover_seek is Some || self.dragging_seek
    }

    /// The time for a place on the seek bar, as it is written there.
    pub open spec fn tip_time(self, x: int) -> int {
        clamp(x - 20, 0, self.size.0 - 40) * max(self.duration(), 1) / max(self.size.0 - 40, 1)
    }

    pub open spec fn with_seek_bar(self, s: Seq<Shape<Label>>, a: int, tip_w: int) -> Seq<Shape<Label>> {
        let (w, y) = (self.size.0 as int, self.size.1 - 74);
        let bar = if self.over_bar() { area(19, y - 1, w - 38, 8) } else { area(20, y, w - 40, 6) };
        let radius = (bar.h / 2) as i64;
        let done = Area { w: max(self.played(), bar.h as int) as i64, ..bar };
        let s = s.push(Shape::Rounded(bar, radius, shade(0xff_ffff, 70 * a / 255))).push(
            Shape::Rounded(done, radius, Ink::AccentAlpha(a as u32)),
        );
        let s = if self.over_bar() || self.paused {
            s.push(circle(20 + self.played(), y + 3, 7, shade(0xff_ffff, a)))
        } else {
            s
        };
        match self.hover_seek {
            Some(x) => {
                let tw = tip_w + 16;
                let tip = area(clamp(x - tdiv(tw, 2), 4, w - tw - 4), y - 34, tw, 24);
                s.push(Shape::Rounded(tip, 7, Ink::Color(0xe614_161c))).push(
                    Shape::Centered(Font::Ui, tip, Label::Time(self.tip_time(x as int) as i64), Ink::White),
                )
            },
            None => s,
        }
    }

    /// A button: the play button is a disc, the others show one under the
    /// pointer.
    pub open spec fn with_control(self, s: Seq<Shape<Label>>, b: Btn, a: int) -> Seq<Shape<Label>> {
        let r = self.btn_area(b);
        let (cx, cy) = (r.x + r.w / 2, r.y + r.h / 2);
        let over = self.hover == Some(b);
        let s = if b == Btn::Play {
            s.push(circle(cx, cy, 20, if over { Ink::AccentDarkAlpha(a as u32) } else { Ink::AccentAlpha(a as u32) }))
        } else if over {
            s.push(circle(cx, cy, 16, shade(0xff_ffff, 40 * a / 255)))
        } else {
            s
        };
        with_sign(
            s,
            b,
            r,
            !self.paused && !self.ended,
            shade(0xff_ffff, a),
            self.fullscreen,
            if self.muted { 0 } else { self.volume as int },
        )
    }

    pub open spec fn with_loudness(self, s: Seq<Shape<Label>>, a: int) -> Seq<Shape<Label>> {
        let r = self.volume_area();
        let vx = 96 * (if self.muted { 0 } else { self.volume as int }) / 100;
        s.push(Shape::Rounded(r, 3, shade(0xff_ffff, 70 * a / 255))).push(
            Shape::Rounded(area(r.x as int, r.y as int, max(vx, 6), 6), 3, shade(0xff_ffff, a)),
        ).push(circle(r.x + vx, r.y + 3, 6, shade(0xff_ffff, a)))
    }

    pub open spec fn with_controls(self, s: Seq<Shape<Label>>, a: int, tip_w: int, rise: int) -> Seq<Shape<Label>> {
        let (w, h) = (self.size.0 as int, self.size.1 as int);
        let s = self.with_seek_bar(with_fade(s, w, h, a, 110), a, tip_w);
        let s = self.with_control(self.with_control(self.with_control(s, Btn::Prev, a), Btn::Play, a), Btn::Next, a);
        let s = self.with_control(self.with_control(s, Btn::Mute, a), Btn::Fullscreen, a);
        self.with_loudness(
            s.push(
                text(
                    Font::Ui,
                    148,
                    h - 34 + tdiv(rise, 2),
                    Label::Times(self.shown_position() as i64, self.duration() as i64),
                    shade(0xff_ffff, a),
                ),
            ),
            a,
        )
    }

    /// There is room for the time under the pointer.
    pub open spec fn tip_fits(self, tip_w: int) -> bool {
        self.hover_seek is Some ==> 0 <= tip_w && tip_w + 24 <= self.size.0
    }

    fn seek_bar(&self, out: &mut Vec<Shape<Label>>, a: u32, tip_w: i32)
        requires
            self.wf(),
            a <= 255,
            self.tip_fits(tip_w as int),
        ensures
            final(out)@ == self.with_seek_bar(old(out)@, a as int, tip_w as int),
    {
        let (w, y) = (self.size.0 as i64, self.size.1 as i64 - 74);
        let d: i64 = max_i64(self.length(), 1);
        let pos: i64 = clamp_i64(self.position, 0, d);
        let over: bool = self.hover_seek.is_some() || self.dragging_seek;
        let bar = if over { at(19, y - 1, w - 38, 8) } else { at(20, y, w - 40, 6) };
        out.push(Shape::Rounded(bar, bar.h / 2, shaded(0xff_ffff, 70 * a / 255)));
        proof {
            let (m, p, q) = (w - 40, pos as int, d as int);
            assert(0 <= m * p <= m * q && 0 <= m * p / q <= m) by (nonlinear_arith)
                requires
                    0 <= m,
                    0 <= p <= q,
                    1 <= q,
            ;
            assert(m * q <= 0x1_0000_0000 * 0x8000_0000_0000_0000) by (nonlinear_arith)
                requires
                    0 <= m <= 0x1_0000_0000,
                    0 <= q <= 0x8000_0000_0000_0000,
            ;
        }
        let px: i64 = ((w - 40) as i128 * pos as i128 / d as i128) as i64;
        out.push(Shape::Rounded(at(bar.x, bar.y, max_i64(px, bar.h), bar.h), bar.h / 2, Ink::AccentAlpha(a)));
        if over || self.paused {
            out.push(Shape::Circle(20 + px, y + 3, 7, shaded(0xff_ffff, a)));
        }
        if let Some(x) = self.hover_seek {
            let tw: i64 = tip_w as i64 + 16;
            let tip = at(clamp_i64(x as i64 - div(tw, 2), 4, w - tw - 4), y - 34, tw, 24);
            let c: i64 = clamp_i64(x as i64 - 20, 0, w - 40);
            let m: i64 = max_i64(w - 40, 1);
            proof {
                let (p, q, n) = (c as int, d as int, m as int);
                assert(0 <= p * q <= n * q && 0 <= p * q / n <= q) by (nonlinear_arith)
                    requires
                        0 <= p <= n,
                        1 <= n,
                        1 <= q,
                ;
                assert(n * q <= 0x1_0000_0000 * 0x8000_0000_0000_0000) by (nonlinear_arith)
                    requires
                        0 <= n <= 0x1_0000_0000,
                        0 <= q <= 0x8000_0000_0000_0000,
                ;
            }
            let t: i64 = (c as i128 * d as i128 / m as i128) as i64;
            out.push(Shape::Rounded(tip, 7, Ink::Color(0xe614_161c)));
            out.push(Shape::Centered(Font::Ui, tip, Label::Time(t), Ink::White));
        }
    }

    fn control(&self, out: &mut Vec<Shape<Label>>, b: Btn, a: u32)
        requires
            self.wf(),
            a <= 255,
        ensures
            final(out)@ == self.with_control(old(out)@, b, a as int),
    {
        let r = self.btn_rect(b);
        let (cx, cy) = (r.x + r.w / 2, r.y + r.h / 2);
        let over: bool = match self.hover {
            Some(h) => h == b,
            None => false,
        };
        if b == Btn::Play {
            let ink = if over { Ink::AccentDarkAlpha(a) } else { Ink::AccentAlpha(a) };
            out.push(Shape::Circle(cx, cy, 20, ink));
        } else if over {
            out.push(Shape::Circle(cx, cy, 16, shaded(0xff_ffff, 40 * a / 255)));
        }
        let volume: u8 = if self.muted { 0 } else { self.volume };
        let playing: bool = !self.paused && !self.ended;
        draw_icon(out, b, r, playing, shaded(0xff_ffff, a), self.fullscreen, volume);
    }

    /// Paints the controls, `a` 255ths opaque.
    pub fn draw_controls(&self, out: &mut Vec<Shape<Label>>, a: u32, tip_w: i32, rise: i32)
        requires
            self.wf(),
            a <= 255,
            self.tip_fits(tip_w as int),
        ensures
            final(out)@ == self.with_controls(old(out)@, a as int, tip_w as int, rise as int),
    {
        let (w, h) = (self.size.0 as i64, self.size.1 as i64);
        let mut i: i64 = 0;
        while i < 110
            invariant
                0 <= i <= 110,
                a <= 255,
                w == self.size.0,
                h == self.size.1,
                out@ == with_fade(old(out)@, w as int, h as int, a as int, i as int),
            decreases 110 - i,
        {
            assert(0 <= i * i <= 109 * 109) by (nonlinear_arith)
                requires
                    0 <= i <= 109,
            ;
            let alpha: i64 = i * i * 180 / 12100;
            assert(0 <= alpha * a <= alpha * 255 && 0 <= alpha * a / 255 <= 255) by (nonlinear_arith)
                requires
                    0 <= alpha <= 255,
                    0 <= a <= 255,
            ;
            out.push(Shape::Fill(at(0, h - 110 + i, w, 1), shaded(0, (alpha * a as i64 / 255) as u32)));
            i = i + 1;
        }
        self.seek_bar(out, a, tip_w);
        self.control(out, Btn::Prev, a);
        self.control(out, Btn::Play, a);
        self.control(out, Btn::Next, a);
        self.control(out, Btn::Mute, a);
        self.control(out, Btn::Fullscreen, a);
        let pos: i64 = clamp_i64(self.position, 0, max_i64(self.length(), 1));
        let base: i64 = h - 34 + div(rise as i64, 2);
        out.push(Shape::Text(Font::Ui, 148, base, Label::Times(pos, self.length()), shaded(0xff_ffff, a)));
        let r = self.volume_rect();
        let vx: i64 = 96 * (if self.muted { 0 } else { self.volume as i64 }) / 100;
        out.push(Shape::Rounded(r, 3, shaded(0xff_ffff, 70 * a / 255)));
        out.push(Shape::Rounded(at(r.x, r.y, max_i64(vx, 6), 6), 3, shaded(0xff_ffff, a)));
        out.push(Shape::Circle(r.x + vx, r.y + 3, 6, shaded(0xff_ffff, a)));
    }
}

// ---------------------------------------------------------------------
// Music
// ---------------------------------------------------------------------

/// The place of the cover.
pub open spec fn cover_place(w: int, h: int) -> Area {
    let art = clamp(min(h - 200, tdiv(w, 2) - 40), 80, 300);
    area(40, max(tdiv(h - 110 - art, 2) + 10, 20), art, art)
}

/// Where the last line of text is.
pub open spec fn text_end(cover: Area, artist: bool, album: bool) -> int {
    cover.y + 74 + (if artist { 24int } else { 0 }) + (if album { 24int } else { 0 })
}

/// The place of the bars: below the text, down to the bottom of the cover.
pub open spec fn bars_place(w: int, h: int, artist: bool, album: bool) -> Area {
    let c = cover_place(w, h);
    let x = c.x + c.w + 36;
    let top = max(text_end(c, artist, album) + 30, c.y + c.h - 140);
    area(x, top, max(w - x - 30, 40), max(c.y + c.h - top, 30))
}

/// Everything of the music view but the bars.
pub open spec fn with_song(s: Seq<Shape<Label>>, w: int, h: int, v: Show) -> Seq<Shape<Label>> {
    let c = cover_place(w, h);
    let x = c.x + c.w + 36;
    let tw = w - x - 30;
    let s = s.push(
        Shape::Gradient(area(0, 0, w, h), Ink::FromAccent(0xff0a_0c14, 200, 255), Ink::Color(0xff08_090e)),
    ).push(Shape::Shadow(c, 16, 24, Ink::Color(0x8c00_0000)));
    let s = if v.cover {
        s.push(Shape::Picture(Label::Cover, c, 255, 16))
    } else {
        let size = c.w as int / 2;
        s.push(Shape::Rounded(c, 16, Ink::FromAccent(0xffff_ffff, 60, 255))).push(
            Shape::Icon(
                Label::Music,
                (c.x + (c.w - size) / 2) as i64,
                (c.y + (c.w - size) / 2) as i64,
                size as i64,
            ),
        )
    };
    let y = c.y + 74;
    let s = s.push(clipped(Font::Large, x, c.y + 40, Label::Title, tw, Ink::White));
    let s = if v.artist { s.push(clipped(Font::Bold, x, y, Label::Artist, tw, shade(0xff_ffff, 220))) } else { s };
    let y = if v.artist { y + 24 } else { y };
    let s = if v.album { s.push(clipped(Font::Ui, x, y, Label::Album, tw, shade(0xff_ffff, 170))) } else { s };
    s.push(
        clipped(Font::Ui, x, text_end(c, v.artist, v.album) + 8, Label::Description, tw, shade(0xff_ffff, 110)),
    )
}

/// The first `n` bars of the sound.
pub open spec fn with_bars(s: Seq<Shape<Label>>, vz: Area, bars: Seq<u8>, n: int) -> Seq<Shape<Label>>
    decreases n,
{
    if n <= 0 {
        s
    } else {
        let i = n - 1;
        let bw = max(vz.w as int / bars.len() as int, 3);
        let bh = max(bars[i] * vz.h / 255, 3);
        with_bars(s, vz, bars, i).push(
            Shape::Rounded(
                area(vz.x + i * bw, vz.y + vz.h - bh, max(bw - 3, 2), bh),
                2,
                Ink::FromAccent(0xffff_ffff, min(i * 120 / bars.len() as int, 255) as u32, 230),
            ),
        )
    }
}

impl Deck {
    /// Paints the music view but for the bars; gives their place.
    pub fn draw_music_static(&self, out: &mut Vec<Shape<Label>>, v: &Show) -> (r: Area)
        requires
            self.wf(),
        ensures
            final(out)@ == with_song(old(out)@, self.size.0 as int, self.size.1 as int, *v),
            r == bars_place(self.size.0 as int, self.size.1 as int, v.artist, v.album),
            0 <= r.x <= 1000,
            0 <= r.y <= 0x7fff_ffff,
            40 <= r.w <= 0x7fff_ffff,
            30 <= r.h <= 400,
    {
        let (w, h) = (self.size.0 as i64, self.size.1 as i64);
        let art: i64 = clamp_i64(min_i64(h - 200, w / 2 - 40), 80, 300);
        let c = at(40, max_i64(div(h - 110 - art, 2) + 10, 20), art, art);
        let x: i64 = c.x + c.w + 36;
        let tw: i64 = w - x - 30;
        out.push(
            Shape::Gradient(at(0, 0, w, h), Ink::FromAccent(0xff0a_0c14, 200, 255), Ink::Color(0xff08_090e)),
        );
        out.push(Shape::Shadow(c, 16, 24, Ink::Color(0x8c00_0000)));
        if v.cover {
            out.push(Shape::Picture(Label::Cover, c, 255, 16));
        } else {
            let size: i64 = art / 2;
            out.push(Shape::Rounded(c, 16, Ink::FromAccent(0xffff_ffff, 60, 255)));
            out.push(Shape::Icon(Label::Music, c.x + (art - size) / 2, c.y + (art - size) / 2, size));
        }
        let mut y: i64 = c.y + 74;
        out.push(Shape::Clipped(Font::Large, x, c.y + 40, Label::Title, tw, Ink::White));
        if v.artist {
            out.push(Shape::Clipped(Font::Bold, x, y, Label::Artist, tw, shaded(0xff_ffff, 220)));
            y = y + 24;
        }
        if v.album {
            out.push(Shape::Clipped(Font::Ui, x, y, Label::Album, tw, shaded(0xff_ffff, 170)));
            y = y + 24;
        }
        out.push(Shape::Clipped(Font::Ui, x, y + 8, Label::Description, tw, shaded(0xff_ffff, 110)));
        let top: i64 = max_i64(y + 30, c.y + c.h - 140);
        at(x, top, max_i64(tw, 40), max_i64(c.y + c.h - top, 30))
    }
}

fn draw_bars(out: &mut Vec<Shape<Label>>, vz: Area, bars: &Vec<u8>)
    requires
        bars@.len() == 32,
        0 <= vz.x <= 1000,
        0 <= vz.y <= 0x7fff_ffff,
        40 <= vz.w <= 0x7fff_ffff,
        30 <= vz.h <= 400,
    ensures
        final(out)@ == with_bars(old(out)@, vz, bars@, 32),
{
    let bw: i64 = max_i64(vz.w / 32, 3);
    let mut i: usize = 0;
    while i < 32
        invariant
            i <= 32,
            bars@.len() == 32,
            0 <= vz.x <= 1000,
            0 <= vz.y <= 0x7fff_ffff,
            40 <= vz.w <= 0x7fff_ffff,
            30 <= vz.h <= 400,
            bw == max(vz.w as int / 32, 3),
            out@ == with_bars(old(out)@, vz, bars@, i as int),
        decreases 32 - i,
    {
        let v: i64 = bars[i] as i64;
        assert(0 <= v * vz.h <= 255 * 400 && 0 <= i * bw <= 32 * 0x800_0000) by (nonlinear_arith)
            requires
                0 <= v <= 255,
                0 <= vz.h <= 400,
                0 <= i <= 32,
                0 <= bw <= 0x800_0000,
        ;
        let bh: i64 = max_i64(v * vz.h / 255, 3);
        let r = at(vz.x + i as i64 * bw, vz.y + vz.h - bh, max_i64(bw - 3, 2), bh);
        let t: i64 = min_i64(i as i64 * 120 / 32, 255);
        out.push(Shape::Rounded(r, 2, Ink::FromAccent(0xffff_ffff, t as u32, 230)));
        i = i + 1;
    }
}

// ---------------------------------------------------------------------
// The window
// ---------------------------------------------------------------------

/// The first `n` lines of why a file cannot be played.
pub open spec fn with_reasons(s: Seq<Shape<Label>>, w: int, y: int, n: int) -> Seq<Shape<Label>>
    decreases n,
{
    if n <= 0 {
        s
    } else {
        with_reasons(s, w, y, n - 1).push(
            Shape::Centered(
                Font::Ui,
                area(20, y + 24 * (n - 1), w - 40, 24),
                Label::Failure((n - 1) as usize),
                shade(0xff_ffff, 190),
            ),
        )
    }
}

impl Deck {
    /// The picture of the video between black bars.
    pub open spec fn with_video(self, s: Seq<Shape<Label>>, now: u64) -> Seq<Shape<Label>> {
        let (w, h) = (self.size.0 as int, self.size.1 as int);
        let r = picture(self);
        let black = Ink::Color(0xff00_0000);
        let s = s.push(Shape::Fill(area(0, 0, w, r.y as int), black)).push(
            Shape::Fill(area(0, r.y + r.h, w, h - (r.y + r.h)), black),
        ).push(Shape::Fill(area(0, r.y as int, r.x as int, r.h as int), black)).push(
            Shape::Fill(area(r.x + r.w, r.y as int, w - (r.x + r.w), r.h as int), black),
        );
        if self.frame is Some {
            s.push(Shape::Picture(Label::Frame, r, 255, 0))
        } else {
            with_wheel(s.push(Shape::Fill(r, black)), w / 2, h / 2, now as int, 12)
        }
    }

    pub open spec fn with_warning(self, s: Seq<Shape<Label>>, v: Show) -> Seq<Shape<Label>> {
        match v.warning {
            Some(width) => {
                let w = self.size.0 as int;
                let tw = min(width as int, w - 40) + 24;
                let r = area(tdiv(w - tw, 2), 14, tw, 30);
                s.push(Shape::Rounded(r, 8, Ink::Color(0xaa00_0000))).push(
                    Shape::Centered(Font::Ui, r, Label::Warning, Ink::Color(0xffff_d68c)),
                )
            },
            None => s,
        }
    }

    /// The sign in the middle: to play again, or to go on.
    pub open spec fn with_middle(self, s: Seq<Shape<Label>>) -> Seq<Shape<Label>> {
        let (cx, cy) = (self.size.0 as int / 2, self.size.1 as int / 2);
        let a = self.controls_alpha as int;
        if self.ended && self.has_video() {
            with_triangle(s.push(circle(cx, cy, 36, Ink::Color(0x9600_0000))), cx - 6, cy, 16, Ink::White, 16)
        } else if self.paused && self.has_video() && a > 0 {
            with_triangle(
                s.push(circle(cx, cy, 34, shade(0, 130 * a / 255))),
                cx - 5,
                cy,
                14,
                shade(0xff_ffff, a),
                14,
            )
        } else {
            s
        }
    }

    pub open spec fn with_overlay(self, s: Seq<Shape<Label>>, v: Show) -> Seq<Shape<Label>> {
        let a = self.controls_alpha as int;
        if a > 0 {
            let s = if self.has_video() {
                with_top_fade(s, self.size.0 as int, a, 60).push(
                    clipped(Font::Bold, 20, 30, Label::Title, self.size.0 - 40, shade(0xff_ffff, a)),
                )
            } else {
                s
            };
            self.with_controls(s, a, v.tip_w as int, v.rise as int)
        } else {
            s
        }
    }

    fn video_part(&self, out: &mut Vec<Shape<Label>>, now: u64)
        requires
            self.wf(),
        ensures
            final(out)@ == self.with_video(old(out)@, now),
    {
        let (w, h) = (self.size.0 as i64, self.size.1 as i64);
        let r = self.video_rect();
        proof {
            super::window::lemma_picture_within(*self);
        }
        let black = Ink::Color(0xff00_0000);
        out.push(Shape::Fill(at(0, 0, w, r.y), black));
        out.push(Shape::Fill(at(0, r.y + r.h, w, h - (r.y + r.h)), black));
        out.push(Shape::Fill(at(0, r.y, r.x, r.h), black));
        out.push(Shape::Fill(at(r.x + r.w, r.y, w - (r.x + r.w), r.h), black));
        if self.frame.is_some() {
            out.push(Shape::Picture(Label::Frame, r, 255, 0));
        } else {
            out.push(Shape::Fill(r, black));
            spinner(out, w / 2, h / 2, now);
        }
    }

    fn middle(&self, out: &mut Vec<Shape<Label>>)
        requires
            self.wf(),
        ensures
            final(out)@ == self.with_middle(old(out)@),
    {
        let (cx, cy) = (self.size.0 as i64 / 2, self.size.1 as i64 / 2);
        let a: u32 = self.controls_alpha;
        if self.ended && self.video() {
            out.push(Shape::Circle(cx, cy, 36, Ink::Color(0x9600_0000)));
            triangle(out, cx - 6, cy, 16, Ink::White);
        } else if self.paused && self.video() && a > 0 {
            out.push(Shape::Circle(cx, cy, 34, shaded(0, 130 * a / 255)));
            triangle(out, cx - 5, cy, 14, shaded(0xff_ffff, a));
        }
    }

    fn overlay(&self, out: &mut Vec<Shape<Label>>, v: &Show)
        requires
            self.wf(),
            self.tip_fits(v.tip_w as int),
        ensures
            final(out)@ == self.with_overlay(old(out)@, *v),
    {
        let a: u32 = self.controls_alpha;
        if a == 0 {
            return;
        }
        let w: i64 = self.size.0 as i64;
        if self.video() {
            let mut i: i64 = 0;
            while i < 60
                invariant
                    0 <= i <= 60,
                    a <= 255,
                    w == self.size.0,
                    out@ == with_top_fade(old(out)@, w as int, a as int, i as int),
                decreases 60 - i,
            {
                let left: i64 = 60 - i;
                assert(0 <= left * left <= 3600) by (nonlinear_arith)
                    requires
                        0 <= left <= 60,
                ;
                let alpha: i64 = left * left * 120 / 3600;
                assert(0 <= alpha * a <= 120 * 255 && alpha * a / 255 <= 255) by (nonlinear_arith)
                    requires
                        0 <= alpha <= 120,
                        0 <= a <= 255,
                ;
                out.push(Shape::Fill(at(0, i, w, 1), shaded(0, (alpha * a as i64 / 255) as u32)));
                i = i + 1;
            }
            out.push(Shape::Clipped(Font::Bold, 20, 30, Label::Title, w - 40, shaded(0xff_ffff, a)));
        }
        self.draw_controls(out, a, v.tip_w, v.rise);
    }
}

/// What the window shows.
pub open spec fn window_shapes(d: Deck, bars: Seq<u8>, v: Show) -> Seq<Shape<Label>> {
    let (w, h) = (d.size.0 as int, d.size.1 as int);
    let s = Seq::<Shape<Label>>::empty();
    match v.status {
        Status::Failed => {
            let y = h / 2 - 50;
            with_reasons(
                s.push(Shape::Fill(area(0, 0, w, h), Ink::Color(0xff12_1318))).push(
                    Shape::Centered(Font::Large, area(0, y - 30, w, 30), Label::Name("Can't play this file"), Ink::White),
                ),
                w,
                y + 10,
                v.lines as int,
            )
        },
        Status::Loading => with_wheel(
            s.push(Shape::Fill(area(0, 0, w, h), Ink::Color(0xff0a_0b0e))),
            w / 2,
            h / 2,
            v.now as int,
            12,
        ),
        Status::Ready => if d.summary is None {
            s
        } else {
            let s = if d.has_video() {
                d.with_video(s, v.now)
            } else {
                with_bars(with_song(s, w, h, v), bars_place(w, h, v.artist, v.album), bars, 32)
            };
            d.with_overlay(d.with_middle(d.with_warning(s, v)), v)
        },
    }
}

impl Player {
    /// Paints the window, and remembers where the bars are.
    pub fn render(&mut self, w: i32, h: i32, v: &Show) -> (out: Vec<Shape<Label>>)
        requires
            old(self).wf(),
            40 <= w,
            1 <= h,
            v.lines <= 100_000,
            (Deck { size: (w, h), ..old(self).deck }).tip_fits(v.tip_w as int),
        ensures
            out@ == window_shapes(Deck { size: (w, h), ..old(self).deck }, old(self).bars@, *v),
            final(self).path == old(self).path,
            final(self).playlist == old(self).playlist,
            final(self).bars == old(self).bars,
            ({
                let d = Deck { size: (w, h), ..old(self).deck };
                let r = bars_place(w as int, h as int, v.artist, v.album);
                final(self).deck == if v.status == Status::Ready && d.summary is Some && !d.has_video() {
                    Deck { viz_rect: Rect { x: r.x as i32, y: r.y as i32, w: r.w as i32, h: r.h as i32 }, ..d }
                } else {
                    d
                }
            }),
            final(self).wf(),
    {
        self.deck.size = (w, h);
        let (lw, lh) = (w as i64, h as i64);
        let mut out: Vec<Shape<Label>> = Vec::new();
        match v.status {
            Status::Failed => {
                out.push(Shape::Fill(at(0, 0, lw, lh), Ink::Color(0xff12_1318)));
                let y: i64 = lh / 2 - 50;
                let r = at(0, y - 30, lw, 30);
                out.push(Shape::Centered(Font::Large, r, Label::Name("Can't play this file"), Ink::White));
                let ghost start = out@;
                let mut i: usize = 0;
                while i < v.lines
                    invariant
                        i <= v.lines <= 100_000,
                        lw == w,
                        -100 <= y <= 0x7fff_ffff,
                        out@ == with_reasons(start, w as int, y + 10, i as int),
                    decreases v.lines - i,
                {
                    let r = at(20, y + 10 + 24 * i as i64, lw - 40, 24);
                    out.push(Shape::Centered(Font::Ui, r, Label::Failure(i), shaded(0xff_ffff, 190)));
                    i = i + 1;
                }
            },
            Status::Loading => {
                out.push(Shape::Fill(at(0, 0, lw, lh), Ink::Color(0xff0a_0b0e)));
                spinner(&mut out, lw / 2, lh / 2, v.now);
            },
            Status::Ready => {
                if self.deck.summary.is_none() {
                    return out;
                }
                let mut place = self.deck.viz_rect;
                if self.deck.video() {
                    self.deck.video_part(&mut out, v.now);
                } else {
                    let r = self.deck.draw_music_static(&mut out, v);
                    draw_bars(&mut out, r, &self.bars);
                    place = Rect::new(r.x as i32, r.y as i32, r.w as i32, r.h as i32);
                }
                if let Some(width) = v.warning {
                    let tw: i64 = min_i64(width as i64, lw - 40) + 24;
                    let r = at(div(lw - tw, 2), 14, tw, 30);
                    out.push(Shape::Rounded(r, 8, Ink::Color(0xaa00_0000)));
                    out.push(Shape::Centered(Font::Ui, r, Label::Warning, Ink::Color(0xffff_d68c)));
                }
                self.deck.middle(&mut out);
                self.deck.overlay(&mut out, v);
                self.deck.viz_rect = place;
            },
        }
        out
    }
}

} // verus!
