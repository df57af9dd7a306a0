//! Video player for Motion-JPEG AVI files with PCM audio.
//!
//! A background thread decodes upcoming frames into a small queue; the
//! app shows each frame when its time comes. The clock starts together
//! with the audio, so picture and sound stay in sync.

use crate::arith::{clamp, clamp_i64, div, max, max_i64, min, min_i64, tdiv};
use crate::fs::path::{base_name, ext_of, extension_chars, file_name_chars};
use crate::gui::app::AppEvent;
use crate::gui::geom::Area;
use crate::input::Key;
use crate::text::{dec, is_str, pad_left, push_all, push_dec, push_dec_zeros, push_str, to_chars};
use vstd::prelude::*;

verus! {

/// Why a file of another kind is not played.
pub const NOT_A_VIDEO: &'static str = "not a Motion-JPEG AVI file (convert it with ffmpeg: see Getting Started)";

/// What stands in place of a video that cannot be played.
pub fn error_text(e: &[char]) -> (r: Vec<char>)
    ensures
        r@ == "Cannot play this video: "@ + e@,
{
    let mut m: Vec<char> = to_chars("Cannot play this video: ");
    push_all(&mut m, e);
    m
}

pub const BAR_H: i32 = 54;

/// How many decoded frames wait to be shown.
pub const QUEUE: usize = 6;

pub open spec fn video_name(name: Seq<char>) -> bool {
    match ext_of(name) {
        Some(e) => e == "avi"@ || e == "mjpg"@ || e == "mjpeg"@,
        None => false,
    }
}

pub fn is_video_name(name: &str) -> (r: bool)
    ensures
        r == video_name(name@),
{
    match extension_chars(&to_chars(name)) {
        Some(e) => is_str(&e, "avi") || is_str(&e, "mjpg") || is_str(&e, "mjpeg"),
        None => false,
    }
}

/// What the decoder does next.
#[derive(Clone, Copy, PartialEq, Eq, Debug, Structural)]
pub enum Work {
    End,
    Wait,
    Decode(usize),
}

/// What the decoder does next, with so many frames waiting, and `next` the
/// first frame that is not decoded.
pub fn next_work(stop: bool, waiting: usize, next: usize, total: usize) -> (r: Work)
    ensures
        r == if stop {
            Work::End
        } else if waiting >= QUEUE || next >= total {
            Work::Wait
        } else {
            Work::Decode(next)
        },
{
    if stop {
        Work::End
    } else if waiting >= QUEUE || next >= total {
        Work::Wait
    } else {
        Work::Decode(next)
    }
}

/// How many of the frames that wait are due.
pub open spec fn due(queue: Seq<usize>, target: int) -> nat
    decreases queue.len(),
{
    if queue.len() > 0 && queue[0] <= target { 1 + due(queue.skip(1), target) } else { 0 }
}

/// How many of the frames that wait are due; the last of them is shown.
pub fn frames_due(queue: &[usize], target: u128) -> (r: usize)
    ensures
        r == due(queue@, target as int),
        r <= queue@.len(),
{
    let mut i: usize = 0;
    proof {
        assert(queue@.skip(0) =~= queue@);
    }
    while i < queue.len() && queue[i] as u128 <= target
        invariant
            i <= queue@.len(),
            due(queue@, target as int) == i + due(queue@.skip(i as int), target as int),
        decreases queue@.len() - i,
    {
        proof {
            assert(queue@.skip(i as int).skip(1) =~= queue@.skip(i + 1));
        }
        i += 1;
    }
    i
}

/// No frame is shown before its time.
pub proof fn lemma_due_in_time(queue: Seq<usize>, target: int)
    ensures
        due(queue, target) <= queue.len(),
        forall|i: int| 0 <= i < due(queue, target) ==> #[trigger] queue[i] <= target,
        due(queue, target) < queue.len() ==> queue[due(queue, target) as int] > target,
    decreases queue.len(),
{
    if queue.len() > 0 && queue[0] <= target {
        let rest = queue.skip(1);
        lemma_due_in_time(rest, target);
        assert forall|i: int| 0 <= i < due(queue, target) implies #[trigger] queue[i] <= target by {
            if i > 0 {
                assert(queue[i] == rest[i - 1]);
            }
        }
    }
}

/// What the player asks for.
#[derive(Clone, Copy, PartialEq, Eq, Debug, Structural)]
pub struct Orders {
    /// Forget the frames that wait, and decode from this one on.
    pub refill: Option<u64>,
    /// Stop the sound.
    pub stop: bool,
    /// Then play it from this sample on.
    pub sound: Option<u64>,
    pub close: bool,
    pub redraw: bool,
}

pub open spec fn no_orders() -> Orders {
    Orders { refill: None, stop: false, sound: None, close: false, redraw: false }
}

fn nothing() -> (r: Orders)
    ensures
        r == no_orders(),
{
    Orders { refill: None, stop: false, sound: None, close: false, redraw: false }
}

/// The video that plays.
#[derive(Clone, Copy)]
pub struct VideoPlayer {
    /// Whether the video is there.
    pub loaded: bool,
    pub total: u64,
    pub frame_us: u64,
    /// How many samples of sound there are, if there is any.
    pub samples: Option<u64>,
    pub playing: bool,
    /// Wall-clock time at which frame 0 would have been shown.
    pub clock_start: i128,
    pub position: u64,
    pub size: (i32, i32),
    pub hover_bar: bool,
    pub ended: bool,
}

impl VideoPlayer {
    pub open spec fn wf(self) -> bool {
        &&& self.frame_us >= 1000
        &&& self.total * self.frame_us <= u64::MAX as int / 48
        &&& self.total <= i64::MAX as int / 0x8000_0000
        &&& self.position < max(self.total as int, 1)
        &&& (self.position + 1) * self.frame_us <= u64::MAX as int / 48
        &&& !self.loaded ==> !self.playing
        &&& self.size.0 >= 200
        &&& self.size.1 >= BAR_H
    }

    pub open spec fn video_area(self) -> Area {
        Area { x: 0, y: 0, w: self.size.0 as i64, h: (self.size.1 - BAR_H) as i64 }
    }

    pub open spec fn seek_area(self) -> Area {
        Area { x: 64, y: (self.size.1 - BAR_H + 22) as i64, w: (self.size.0 - 200) as i64, h: 10 }
    }

    pub open spec fn play_area(self) -> Area {
        Area { x: 14, y: (self.size.1 - BAR_H + 9) as i64, w: 36, h: 36 }
    }

    /// The sample at which a frame's sound begins: 48 stereo samples in a
    /// millisecond.
    pub open spec fn sample_of(self, frame: int) -> int {
        frame * self.frame_us * 48 / 1000 * 2
    }

    pub open spec fn sound_from(self, frame: int) -> Option<u64> {
        match self.samples {
            Some(n) => if self.sample_of(frame) < n { Some(self.sample_of(frame) as u64) } else { None },
            None => None,
        }
    }

    pub open spec fn clock_for(self, frame: int, now: int) -> i128 {
        (now - frame * self.frame_us / 1000) as i128
    }

    pub open spec fn sought(self, frame: int, now: u64) -> (VideoPlayer, Orders) {
        let f = min(frame, max(self.total - 1, 0));
        let refill = if self.loaded { Some(f as u64) } else { None };
        if self.playing {
            (
                VideoPlayer { position: f as u64, clock_start: self.clock_for(f, now as int), ..self },
                Orders { refill, stop: true, sound: self.sound_from(f), ..no_orders() },
            )
        } else {
            (VideoPlayer { position: f as u64, ..self }, Orders { refill, ..no_orders() })
        }
    }

    pub open spec fn played(self, now: u64) -> (VideoPlayer, Orders) {
        if !self.loaded {
            (self, no_orders())
        } else {
            let (s, o) = if self.ended || self.position + 1 >= self.total {
                self.sought(0, now)
            } else {
                (self, no_orders())
            };
            (
                VideoPlayer {
                    ended: false,
                    playing: true,
                    clock_start: s.clock_for(s.position as int, now as int),
                    ..s
                },
                Orders { stop: true, sound: s.sound_from(s.position as int), ..o },
            )
        }
    }

    pub open spec fn paused(self) -> (VideoPlayer, Orders) {
        (VideoPlayer { playing: false, ..self }, Orders { stop: true, ..no_orders() })
    }

    pub open spec fn toggled(self, now: u64) -> (VideoPlayer, Orders) {
        if self.playing { self.paused() } else { self.played(now) }
    }

    /// The frame at a point of the seek bar.
    pub open spec fn frame_at(self, x: int) -> int {
        let sr = self.seek_area();
        tdiv(clamp(x - sr.x, 0, sr.w as int) * self.total, max(sr.w as int, 1))
    }

    pub open spec fn over_bar(self, x: int, y: int) -> bool {
        self.seek_area().spec_grown(8).spec_has(x, y)
    }

    pub open spec fn pressed(self, x: int, y: int, now: u64) -> (VideoPlayer, Orders) {
        if self.play_area().spec_has(x, y) || self.video_area().spec_has(x, y) && self.loaded {
            self.toggled(now)
        } else if self.over_bar(x, y) {
            self.sought(self.frame_at(x), now)
        } else {
            (self, no_orders())
        }
    }

    pub open spec fn moved(self, x: int, y: int, buttons: u8, now: u64) -> (VideoPlayer, Orders) {
        let over = self.over_bar(x, y);
        let (s, o) = if over && buttons & 1 != 0 {
            let (s, o) = self.sought(self.frame_at(x), now);
            (s, Orders { redraw: true, ..o })
        } else {
            (self, no_orders())
        };
        (
            VideoPlayer { hover_bar: over, ..s },
            Orders { redraw: o.redraw || over != self.hover_bar, ..o },
        )
    }

    pub open spec fn keyed(self, k: Key, now: u64) -> Option<(VideoPlayer, Orders)> {
        let step = 5_000_000int / (self.frame_us as int);
        match k {
            Key::Char(c) => if c == ' ' { Some(self.toggled(now)) } else { None },
            Key::Enter => Some(self.toggled(now)),
            Key::Left => Some(self.sought(max(self.position - step, 0), now)),
            Key::Right => Some(self.sought(self.position + step, now)),
            Key::Home => Some(self.sought(0, now)),
            Key::Escape => Some((self, Orders { close: true, ..no_orders() })),
            _ => None,
        }
    }

    pub open spec fn after(self, ev: AppEvent, now: u64) -> (VideoPlayer, Orders) {
        match ev {
            AppEvent::MouseDown { x, y, button, .. } => if button == 0 {
                let (s, o) = self.pressed(x as int, y as int, now);
                (s, Orders { redraw: true, ..o })
            } else {
                (self, no_orders())
            },
            AppEvent::MouseMove { x, y, buttons } => self.moved(x as int, y as int, buttons, now),
            AppEvent::Key(k) => if !k.pressed {
                (self, no_orders())
            } else {
                match self.keyed(k.key, now) {
                    Some((s, o)) => (s, Orders { redraw: true, ..o }),
                    None => (self, no_orders()),
                }
            },
            AppEvent::Resized { .. } => (self, Orders { redraw: true, ..no_orders() }),
            AppEvent::Focus(_) => (self, Orders { redraw: true, ..no_orders() }),
            _ => (self, no_orders()),
        }
    }

    /// Which frame should be on screen now.
    pub open spec fn target(self, now: u64) -> int {
        if self.playing { (now - self.clock_start) * 1000 / (self.frame_us as int) } else { self.position as int }
    }

    /// With a frame shown, and at the end if it is the last one and its
    /// time has come.
    pub open spec fn shown(self, frame: Option<u64>, now: u64) -> (VideoPlayer, Orders) {
        let s = match frame {
            Some(i) => VideoPlayer { position: i, ..self },
            None => self,
        };
        if s.playing && self.target(now) + 1 >= s.total && s.position + 1 >= s.total {
            (
                VideoPlayer { playing: false, ended: true, ..s },
                Orders { stop: true, redraw: true, ..no_orders() },
            )
        } else {
            (s, Orders { redraw: frame is Some, ..no_orders() })
        }
    }

    pub open spec fn time_line(self) -> Seq<char> {
        let cur = self.position * self.frame_us / 1_000_000;
        let tot = self.total * self.frame_us / 1_000_000;
        dec((cur / 60) as nat) + ":"@ + pad_left(dec((cur % 60) as nat), 2, '0') + " / "@ + dec((tot / 60) as nat)
            + ":"@ + pad_left(dec((tot % 60) as nat), 2, '0')
    }

    /// The size at which a frame is shown: as large as fits, with its shape
    /// kept.
    pub open spec fn fitted(self, fw: int, fh: int) -> (int, int) {
        let v = self.video_area();
        let s = min(tdiv(v.w * 1024, fw), tdiv(v.h * 1024, fh));
        (tdiv(fw * s, 1024), tdiv(fh * s, 1024))
    }
}

/// Stopping and playing again goes on where it was.
pub proof fn lemma_pause_and_play(p: VideoPlayer, now: u64)
    requires
        p.wf(),
        p.loaded,
        p.playing,
        !p.ended,
        p.position + 1 < p.total,
    ensures
        p.paused().0.played(now).0.position == p.position,
        p.paused().0.played(now).0.playing,
        p.paused().0.played(now).1.sound == p.sound_from(p.position as int),
{
}

/// When play begins at a frame, that frame is due at once, and no later
/// one is.
pub proof fn lemma_clock(p: VideoPlayer, now: u64)
    requires
        p.wf(),
        p.playing,
        p.clock_start == p.clock_for(p.position as int, now as int),
    ensures
        p.position - 1 <= p.target(now) <= p.position,
{
    let f = p.frame_us as int;
    let pos = p.position as int;
    let ms = pos * f / 1000;
    assert(0 <= pos * f <= u64::MAX) by (nonlinear_arith)
        requires
            0 <= pos,
            0 <= f,
            (pos + 1) * f <= u64::MAX as int / 48,
    ;
    assert(pos - 1 <= ms * 1000 / f <= pos) by (nonlinear_arith)
        requires
            f >= 1000,
            pos >= 0,
            ms == pos * f / 1000,
    {
        assert(ms * 1000 <= pos * f);
        assert(ms * 1000 > pos * f - 1000);
        assert(ms * 1000 >= (pos - 1) * f);
        assert(ms * 1000 / f <= (pos * f) / f);
        assert((pos * f) / f == pos);
        assert(((pos - 1) * f) / f == pos - 1);
        assert(((pos - 1) * f) / f <= ms * 1000 / f);
    }
}

/// Going to a frame of the video shows that frame, and whether it plays
/// stays as it was. While it plays, the sound goes on from that moment: a
/// whole number of stereo samples, 48 of them in a millisecond. While it
/// stands, no sound begins.
pub proof fn lemma_seek_lands(p: VideoPlayer, frame: int, now: u64)
    requires
        p.wf(),
        p.loaded,
        0 <= frame < p.total,
    ensures
        p.sought(frame, now).0.position == frame,
        p.sought(frame, now).0.playing == p.playing,
        p.sought(frame, now).1.refill == Some(frame as u64),
        !p.playing ==> p.sought(frame, now).1.sound is None && !p.sought(frame, now).1.stop,
        p.playing ==> p.sought(frame, now).1.stop,
        p.playing ==> (p.sought(frame, now).1.sound matches Some(at) ==> {
            &&& p.samples matches Some(n) && at < n
            &&& at % 2 == 0
            &&& at * 1000 <= frame * p.frame_us * 96 < (at + 2) * 1000
        }),
        p.playing ==> frame - 1 <= p.sought(frame, now).0.target(now) <= frame,
{
    lemma_frame_product(p, frame);
    let q = p.sought(frame, now).0;
    assert(q.wf());
    if p.playing {
        assert(0 <= frame * p.frame_us / 1000 <= frame * p.frame_us);
        lemma_clock(q, now);
        let m = frame * p.frame_us;
        assert(0 <= m * 48 / 1000 * 2 <= u64::MAX);
        assert(m * 48 / 1000 * 2 * 1000 <= m * 96 < (m * 48 / 1000 * 2 + 2) * 1000);
        assert(frame * p.frame_us * 96 == m * 96);
        assert(p.sample_of(frame) == m * 48 / 1000 * 2);
    }
}

/// The arrow keys go five seconds back and on, as near as whole frames
/// come; away from the ends, one undoes the other.
pub proof fn lemma_arrows(p: VideoPlayer, on: (VideoPlayer, Orders), back: (VideoPlayer, Orders), now: u64, later: u64)
    requires
        p.wf(),
        p.keyed(Key::Right, now) == Some(on),
        p.keyed(Key::Left, now) == Some(back),
    ensures
        back.0.position <= p.position <= on.0.position,
        on.0.position + 1 < p.total ==> {
            &&& (on.0.position - p.position) * p.frame_us <= 5_000_000 < (on.0.position - p.position + 1) * p.frame_us
            &&& on.0.keyed(Key::Left, later) matches Some((q, _)) && q.position == p.position
        },
        back.0.position > 0 ==> {
            &&& (p.position - back.0.position) * p.frame_us <= 5_000_000 < (p.position - back.0.position + 1) * p.frame_us
            &&& back.0.keyed(Key::Right, later) matches Some((q, _)) && q.position == p.position
        },
        p.keyed(Key::Home, now) matches Some((q, _)) && q.position == 0,
{
    let f = p.frame_us as int;
    let step = 5_000_000int / f;
    assert(step * f <= 5_000_000 < (step + 1) * f && 0 <= step) by (nonlinear_arith)
        requires
            f >= 1000,
            step == 5_000_000int / f,
    ;
    assert(p.total <= i64::MAX as int / 0x8000_0000);
    if on.0.position + 1 < p.total {
        assert(on.0.position - p.position == step);
    }
    if back.0.position > 0 {
        assert(p.position - back.0.position == step);
    }
}

/// The left end of the bar is the beginning, the right end the last frame,
/// and further right is never earlier.
pub proof fn lemma_bar(p: VideoPlayer, x: int, y: int, now: u64)
    requires
        p.wf(),
        p.size.0 > 200,
        x <= y,
    ensures
        x <= p.seek_area().x ==> p.sought(p.frame_at(x), now).0.position == 0,
        x >= p.seek_area().x + p.seek_area().w ==> p.sought(p.frame_at(x), now).0.position == max(p.total - 1, 0),
        p.frame_at(x) <= p.frame_at(y),
        0 <= p.frame_at(x) <= p.total,
{
    let sr = p.seek_area();
    let w = sr.w as int;
    let t = p.total as int;
    let a = clamp(x - sr.x, 0, w);
    let b = clamp(y - sr.x, 0, w);
    assert(0 <= a * t / w && a * t / w <= b * t / w && b * t / w <= t && (a == 0 ==> a * t / w == 0) && (a == w ==> a * t
        / w == t) && 0 <= a * t && 0 <= b * t) by (nonlinear_arith)
        requires
            0 <= a <= b <= w,
            0 < w,
            0 <= t,
    {
        assert(a * t <= b * t);
        assert(b * t <= w * t);
        assert((w * t) / w == t);
        assert((a * t) / w <= (b * t) / w);
        assert((b * t) / w <= (w * t) / w);
    }
    assert(t <= i64::MAX as int / 0x8000_0000);
}

/// A click on the picture, like a space, stops what plays, in its place;
/// what stands goes on from there, unless it is at its end: then from the
/// beginning.
pub proof fn lemma_click_toggles(p: VideoPlayer, x: int, y: int, now: u64)
    requires
        p.wf(),
        p.loaded,
        p.video_area().spec_has(x, y),
    ensures
        p.pressed(x, y, now) == p.keyed(Key::Char(' '), now)->0,
        p.pressed(x, y, now).0.playing == !p.playing,
        p.playing ==> p.pressed(x, y, now).0.position == p.position && p.pressed(x, y, now).1.stop && p.pressed(
            x,
            y,
            now,
        ).1.sound is None,
        !p.playing && !p.ended && p.position + 1 < p.total ==> p.pressed(x, y, now).0.position == p.position,
        !p.playing && (p.ended || p.position + 1 >= p.total) ==> p.pressed(x, y, now).0.position == 0,
{
}

/// Play ends when, and only when, the last frame is shown and its time has
/// come; it then stands at that frame, silent.
pub proof fn lemma_plays_to_the_end(p: VideoPlayer, frame: u64, now: u64)
    requires
        p.wf(),
        p.playing,
        frame < p.total,
    ensures
        p.shown(Some(frame), now).0.position == frame,
        p.shown(Some(frame), now).0.playing <==> !(frame == p.total - 1 && p.target(now) >= frame),
        !p.shown(Some(frame), now).0.playing ==> p.shown(Some(frame), now).0.ended && p.shown(Some(frame), now).1.stop,
        p.shown(None, now).0.position == p.position,
{
}

/// A frame is shown whole, as large as the area lets it be, in its own
/// shape: the sides keep their ratio to within a dot.
pub proof fn lemma_frame_fits(p: VideoPlayer, fw: int, fh: int)
    requires
        p.wf(),
        fw > 0,
        fh > 0,
    ensures
        0 <= p.fitted(fw, fh).0 <= p.video_area().w,
        0 <= p.fitted(fw, fh).1 <= p.video_area().h,
        -fh <= p.fitted(fw, fh).0 * fh - p.fitted(fw, fh).1 * fw <= fw,
{
    let v = p.video_area();
    let w = v.w as int;
    let h = v.h as int;
    assert(0 <= w * 1024 && 0 <= h * 1024);
    let a = w * 1024 / fw;
    let b = h * 1024 / fh;
    let s = min(a, b);
    lemma_scaled(w, fw, s);
    lemma_scaled(h, fh, s);
    let x = fw * s / 1024;
    let y = fh * s / 1024;
    assert(-fh <= x * fh - y * fw <= fw) by (nonlinear_arith)
        requires
            fw > 0,
            fh > 0,
            x * 1024 <= fw * s < x * 1024 + 1024,
            y * 1024 <= fh * s < y * 1024 + 1024,
    {
        assert(x * 1024 * fh <= fw * s * fh < (x * 1024 + 1024) * fh);
        assert(y * 1024 * fw <= fh * s * fw < (y * 1024 + 1024) * fw);
        assert(fw * s * fh == fh * s * fw);
    }
}

proof fn lemma_scaled(side: int, of: int, s: int)
    requires
        side >= 0,
        of > 0,
        0 <= s <= side * 1024 / of,
    ensures
        0 <= of * s / 1024 <= side,
        0 <= of * s,
{
    assert(0 <= of * s <= side * 1024) by (nonlinear_arith)
        requires
            side >= 0,
            of > 0,
            0 <= s <= side * 1024 / of,
    {
        assert(of * (side * 1024 / of) <= side * 1024);
        assert(of * s <= of * (side * 1024 / of));
    }
}

proof fn lemma_frame_product(p: VideoPlayer, frame: int)
    requires
        p.wf(),
        0 <= frame < max(p.total as int, 1),
    ensures
        0 <= frame * p.frame_us <= u64::MAX as int / 48,
        0 <= (frame + 1) * p.frame_us <= u64::MAX as int / 48,
{
    let f = p.frame_us as int;
    let t = p.total as int;
    let q = p.position as int;
    assert(0 <= frame * f <= u64::MAX as int / 48 && 0 <= (frame + 1) * f <= u64::MAX as int / 48)
        by (nonlinear_arith)
        requires
            f >= 1000,
            0 <= frame,
            frame < t || frame < 1,
            t * f <= u64::MAX as int / 48,
            q >= 0,
            (q + 1) * f <= u64::MAX as int / 48,
    {
        assert(f <= (q + 1) * f);
        if frame < t {
            assert((frame + 1) * f <= t * f);
        } else {
            assert(frame == 0);
        }
        assert(frame * f <= (frame + 1) * f);
    }
}

impl VideoPlayer {
    /// A window for a video that is on its way.
    pub fn open() -> (r: VideoPlayer)
        ensures
            r.wf(),
            r == (VideoPlayer {
                loaded: false,
                total: 0,
                frame_us: 40_000,
                samples: None,
                playing: false,
                clock_start: 0,
                position: 0,
                size: (800, 520),
                hover_bar: false,
                ended: false,
            }),
    {
        VideoPlayer {
            loaded: false,
            total: 0,
            frame_us: 40_000,
            samples: None,
            playing: false,
            clock_start: 0,
            position: 0,
            size: (800, 520),
            hover_bar: false,
            ended: false,
        }
    }

    pub fn video_rect(&self) -> (r: Area)
        ensures
            r == self.video_area(),
            r.small(),
    {
        Area { x: 0, y: 0, w: self.size.0 as i64, h: self.size.1 as i64 - BAR_H as i64 }
    }

    pub fn seek_rect(&self) -> (r: Area)
        ensures
            r == self.seek_area(),
            r.small(),
    {
        Area { x: 64, y: self.size.1 as i64 - BAR_H as i64 + 22, w: self.size.0 as i64 - 200, h: 10 }
    }

    pub fn play_rect(&self) -> (r: Area)
        ensures
            r == self.play_area(),
            r.small(),
    {
        Area { x: 14, y: self.size.1 as i64 - BAR_H as i64 + 9, w: 36, h: 36 }
    }

    fn sound_at(&self, frame: u64) -> (r: Option<u64>)
        requires
            self.wf(),
            frame < max(self.total as int, 1),
        ensures
            r == self.sound_from(frame as int),
    {
        proof {
            lemma_frame_product(*self, frame as int);
        }
        match self.samples {
            Some(n) => {
                let start: u64 = frame * self.frame_us * 48 / 1000 * 2;
                if start < n { Some(start) } else { None }
            },
            None => None,
        }
    }

    fn clock_at(&self, frame: u64, now: u64) -> (r: i128)
        requires
            self.wf(),
            frame < max(self.total as int, 1),
        ensures
            r == self.clock_for(frame as int, now as int),
    {
        proof {
            lemma_frame_product(*self, frame as int);
        }
        now as i128 - (frame * self.frame_us / 1000) as i128
    }

    /// Go to a frame.
    pub fn seek(&mut self, frame: u64, now: u64) -> (r: Orders)
        requires
            old(self).wf(),
        ensures
            (*final(self), r) == old(self).sought(frame as int, now),
            final(self).wf(),
    {
        let last: u64 = if self.total > 0 { self.total - 1 } else { 0 };
        let f: u64 = if frame < last { frame } else { last };
        proof {
            lemma_frame_product(*self, f as int);
        }
        let mut o: Orders = nothing();
        if self.loaded {
            o.refill = Some(f);
        }
        if self.playing {
            self.clock_start = self.clock_at(f, now);
            o.stop = true;
            o.sound = self.sound_at(f);
        }
        self.position = f;
        o
    }

    pub fn play(&mut self, now: u64) -> (r: Orders)
        requires
            old(self).wf(),
        ensures
            (*final(self), r) == old(self).played(now),
            final(self).wf(),
    {
        if !self.loaded {
            return nothing();
        }
        let mut o: Orders = nothing();
        if self.ended || self.position + 1 >= self.total {
            o = self.seek(0, now);
        }
        self.ended = false;
        self.playing = true;
        self.clock_start = self.clock_at(self.position, now);
        o.stop = true;
        o.sound = self.sound_at(self.position);
        o
    }

    pub fn pause(&mut self) -> (r: Orders)
        requires
            old(self).wf(),
        ensures
            (*final(self), r) == old(self).paused(),
            final(self).wf(),
    {
        self.playing = false;
        let mut o: Orders = nothing();
        o.stop = true;
        o
    }

    fn toggle(&mut self, now: u64) -> (r: Orders)
        requires
            old(self).wf(),
        ensures
            (*final(self), r) == old(self).toggled(now),
            final(self).wf(),
    {
        if self.playing { self.pause() } else { self.play(now) }
    }

    /// The video is there; it plays at once.
    pub fn media_loaded(&mut self, total: u64, frame_us: u64, samples: Option<u64>, now: u64) -> (r: Orders)
        requires
            old(self).wf(),
            frame_us >= 1000,
            total * frame_us <= u64::MAX as int / 48,
            frame_us <= u64::MAX as int / 48,
            total <= i64::MAX as int / 0x8000_0000,
        ensures
            ({
                let s = VideoPlayer {
                    loaded: true,
                    total,
                    frame_us,
                    samples,
                    playing: false,
                    position: 0,
                    ..*old(self)
                };
                (*final(self), r) == (s.played(now).0, Orders { redraw: true, ..s.played(now).1 })
            }),
            final(self).wf(),
    {
        self.loaded = true;
        self.total = total;
        self.frame_us = frame_us;
        self.samples = samples;
        self.playing = false;
        self.position = 0;
        let mut o: Orders = self.play(now);
        o.redraw = true;
        o
    }

    fn pointed(&self, x: i32) -> (r: u64)
        requires
            self.wf(),
        ensures
            r == self.frame_at(x as int),
    {
        let sr: Area = self.seek_rect();
        let at: i64 = clamp_i64(x as i64 - sr.x, 0, sr.w);
        let w: i64 = max_i64(sr.w, 1);
        let t: i64 = self.total as i64;
        proof {
            assert(0 <= at * t <= i64::MAX) by (nonlinear_arith)
                requires
                    0 <= at <= 0x8000_0000,
                    0 <= t <= i64::MAX as int / 0x8000_0000,
            ;
            crate::arith::lemma_tdiv_bounds(at * t, w as int);
        }
        div(at * t, w) as u64
    }

    fn mouse_down(&mut self, x: i32, y: i32, now: u64) -> (r: Orders)
        requires
            old(self).wf(),
        ensures
            (*final(self), r) == old(self).pressed(x as int, y as int, now),
            final(self).wf(),
    {
        if self.play_rect().has(x, y) || (self.video_rect().has(x, y) && self.loaded) {
            self.toggle(now)
        } else if self.seek_rect().grown(8).has(x, y) {
            let f: u64 = self.pointed(x);
            self.seek(f, now)
        } else {
            nothing()
        }
    }

    fn mouse_move(&mut self, x: i32, y: i32, buttons: u8, now: u64) -> (r: Orders)
        requires
            old(self).wf(),
        ensures
            (*final(self), r) == old(self).moved(x as int, y as int, buttons, now),
            final(self).wf(),
    {
        let over: bool = self.seek_rect().grown(8).has(x, y);
        let mut o: Orders = nothing();
        if over && buttons & 1 != 0 {
            let f: u64 = self.pointed(x);
            o = self.seek(f, now);
            o.redraw = true;
        }
        if over != self.hover_bar {
            self.hover_bar = over;
            o.redraw = true;
        }
        o
    }

    fn key(&mut self, k: Key, now: u64) -> (r: Option<Orders>)
        requires
            old(self).wf(),
        ensures
            match r {
                Some(o) => old(self).keyed(k, now) == Some((*final(self), o)),
                None => old(self).keyed(k, now) is None && *final(self) == *old(self),
            },
            final(self).wf(),
    {
        let step: u64 = 5_000_000 / self.frame_us;
        match k {
            Key::Char(c) => if c == ' ' { Some(self.toggle(now)) } else { None },
            Key::Enter => Some(self.toggle(now)),
            Key::Left => {
                let to: u64 = if self.position > step { self.position - step } else { 0 };
                Some(self.seek(to, now))
            },
            Key::Right => {
                let to: u64 = self.position + step;
                Some(self.seek(to, now))
            },
            Key::Home => Some(self.seek(0, now)),
            Key::Escape => {
                let mut o: Orders = nothing();
                o.close = true;
                Some(o)
            },
            _ => None,
        }
    }

    /// An event at a time.
    pub fn event(&mut self, ev: &AppEvent, now: u64) -> (r: Orders)
        requires
            old(self).wf(),
        ensures
            (*final(self), r) == old(self).after(*ev, now),
            final(self).wf(),
    {
        let mut redraw: Orders = nothing();
        redraw.redraw = true;
        match ev {
            AppEvent::MouseDown { x, y, button, .. } => {
                if *button != 0 {
                    return nothing();
                }
                let mut o: Orders = self.mouse_down(*x, *y, now);
                o.redraw = true;
                o
            },
            AppEvent::MouseMove { x, y, buttons } => self.mouse_move(*x, *y, *buttons, now),
            AppEvent::Key(k) => {
                if !k.pressed {
                    return nothing();
                }
                match self.key(k.key, now) {
                    Some(o) => {
                        let mut o: Orders = o;
                        o.redraw = true;
                        o
                    },
                    None => nothing(),
                }
            },
            AppEvent::Resized { .. } => redraw,
            AppEvent::Focus(_) => redraw,
            _ => nothing(),
        }
    }

    /// Which frame should be on screen now.
    pub fn target_frame(&self, now: u64) -> (r: u128)
        requires
            self.wf(),
            self.playing ==> 0 <= now - self.clock_start <= 0x2_0000_0000_0000_0000,
        ensures
            r == self.target(now),
    {
        if self.playing {
            let d: u128 = (now as i128 - self.clock_start) as u128;
            d * 1000 / self.frame_us as u128
        } else {
            self.position as u128
        }
    }

    /// Let time go by: `frame` is the frame that was taken from the queue
    /// to be shown, if any was due.
    pub fn tick(&mut self, frame: Option<u64>, now: u64) -> (r: Orders)
        requires
            old(self).wf(),
            old(self).playing ==> 0 <= now - old(self).clock_start <= 0x2_0000_0000_0000_0000,
            frame matches Some(i) ==> i < old(self).total,
        ensures
            (*final(self), r) == old(self).shown(frame, now),
            final(self).wf(),
    {
        let target: u128 = self.target_frame(now);
        let mut o: Orders = nothing();
        if let Some(i) = frame {
            proof {
                lemma_frame_product(*self, i as int);
            }
            self.position = i;
            o.redraw = true;
        }
        proof {
            assert(target <= 0x2_0000_0000_0000_0000) by {
                if self.playing {
                    let d = now - old(self).clock_start;
                    let f = self.frame_us as int;
                    assert(d * 1000 / f <= d) by (nonlinear_arith)
                        requires
                            d >= 0,
                            f >= 1000,
                    ;
                }
            }
        }
        if self.playing && target + 1 >= self.total as u128 && self.position + 1 >= self.total {
            self.playing = false;
            self.ended = true;
            o.stop = true;
            o.redraw = true;
        }
        o
    }

    /// How far the video is, and how long it is.
    pub fn time_text(&self) -> (r: Vec<char>)
        requires
            self.wf(),
        ensures
            r@ == self.time_line(),
    {
        proof {
            lemma_frame_product(*self, self.position as int);
        }
        let cur: u64 = self.position * self.frame_us / 1_000_000;
        let tot: u64 = self.total * self.frame_us / 1_000_000;
        let mut out: Vec<char> = Vec::new();
        push_dec(&mut out, cur / 60);
        push_str(&mut out, ":");
        push_dec_zeros(&mut out, cur % 60, 2);
        push_str(&mut out, " / ");
        push_dec(&mut out, tot / 60);
        push_str(&mut out, ":");
        push_dec_zeros(&mut out, tot % 60, 2);
        proof {
            assert(out@ =~= self.time_line());
        }
        out
    }

    /// The size at which a frame is shown.
    pub fn fit(&self, fw: i32, fh: i32) -> (r: (i64, i64))
        requires
            self.wf(),
            fw > 0,
            fh > 0,
        ensures
            (r.0 as int, r.1 as int) == self.fitted(fw as int, fh as int),
    {
        let v: Area = self.video_rect();
        let a: i64 = div(v.w * 1024, fw as i64);
        let b: i64 = div(v.h * 1024, fh as i64);
        let s: i64 = min_i64(a, b);
        proof {
            let (w, h) = (v.w * 1024, v.h * 1024);
            assert(0 <= fw * s <= w && 0 <= fh * s <= h) by (nonlinear_arith)
                requires
                    fw > 0,
                    fh > 0,
                    0 <= w,
                    0 <= h,
                    s == a || s == b,
                    s <= a,
                    s <= b,
                    a == w / (fw as int),
                    b == h / (fh as int),
            {
                assert(w / (fw as int) >= 0 && h / (fh as int) >= 0);
                assert(fw * (w / (fw as int)) <= w);
                assert(fh * (h / (fh as int)) <= h);
                assert(fw * s <= fw * a);
                assert(fh * s <= fh * b);
            }
        }
        (div(fw as i64 * s, 1024), div(fh as i64 * s, 1024))
    }
}

/// The title of the window.
pub fn title(path: &[char]) -> (r: Vec<char>)
    ensures
        r@ == base_name(path@) + " \u{2014} Video Player"@,
{
    let mut out: Vec<char> = file_name_chars(path);
    push_str(&mut out, " \u{2014} Video Player");
    out
}

} // verus!
