//! The window of the media player.

use super::engine::clamp64;
use super::names::{audio_name, is_media_name, video_name};
use crate::arith::{clamp, max, min, tdiv};
use crate::fs::entry::{entries_of, DirEntry, EntryState};
use crate::fs::path::{base_name, file_name_chars, join_chars, joined_path};
use crate::gui::app::{AppEvent, Command, CommandState, Ctx, CtxState};
use crate::gui::geom::{Area, Rect};
use crate::input::{Key, KeyEvent};
use crate::text::{lower_all, lowered, push_str, same, to_chars, to_text, views};
use vstd::prelude::*;

verus! {

#[derive(Clone, Copy, Debug, PartialEq, Eq, Structural)]
pub enum Btn {
    Prev,
    Play,
    Next,
    Mute,
    Fullscreen,
    Replay,
}

/// What the window needs to know of a file.
#[derive(Clone, Copy, Debug, PartialEq, Eq, Structural)]
pub struct Summary {
    pub duration_us: i64,
    pub has_video: bool,
    pub has_audio: bool,
    pub width: u32,
    pub height: u32,
}

/// What the window asks for.
#[derive(Clone, Copy, Debug, PartialEq, Eq, Structural)]
pub enum Order {
    /// The engine is to go to this time.
    Seek(i64),
    /// The sound is to be this loud, out of 256.
    Volume(u32),
    /// The volume is to be kept for later.
    KeepVolume(u8),
    /// The sound is to stop or to go on.
    Pause(bool),
    /// Play this file of the playlist.
    Start(usize),
}

#[derive(Clone, Copy, Debug, PartialEq, Eq, Structural)]
pub enum Status {
    Loading,
    Ready,
    Failed,
}

/// The last reading of the smoothed audio clock: the sound card's position
/// moves in 21 ms steps and in bursts; following it directly shows frames
/// for uneven times.
#[derive(Clone, Copy, Debug, PartialEq, Eq, Structural)]
pub struct Smooth {
    pub media_us: i64,
    pub read_us: u64,
    pub epoch: u32,
}

/// The time, and how far the sound has come.
#[derive(Clone, Copy, Debug, PartialEq, Eq, Structural)]
pub struct Moment {
    pub now_ms: u64,
    pub now_us: u64,
    /// Frames of sound played, less those still in the sound card.
    pub heard: u64,
    /// Media time of the first frame of sound.
    pub base_us: i64,
    /// Changes with every seek.
    pub epoch: u32,
}

/// All of the player's state but its file and playlist.
#[derive(Clone, Copy)]
pub struct Deck {
    pub summary: Option<Summary>,
    /// The size of the frame that is shown.
    pub frame: Option<(u32, u32)>,
    pub epoch: u32,
    pub paused: bool,
    /// Clock for files without audio: media time at `wall_start`.
    pub wall_base: i64,
    pub wall_start: u64,
    pub smooth: Option<Smooth>,
    pub position: i64,
    pub ended: bool,
    pub size: (i32, i32),
    pub fullscreen: bool,
    pub volume: u8,
    pub muted: bool,
    pub last_activity: u64,
    pub pointer: (i32, i32),
    pub hover: Option<Btn>,
    pub hover_seek: Option<i32>,
    pub dragging_seek: bool,
    pub dragging_volume: bool,
    pub controls_alpha: u32,
    pub last_bars: u64,
    /// Where the visualiser bars were last drawn.
    pub viz_rect: Rect,
    pub opened_at: u64,
}

/// A state, and what is asked for.
pub type Step = (Deck, Seq<Order>);

/// Where the sound is.
pub open spec fn heard_at(m: Moment) -> int {
    clamp64(m.base_us + m.heard * 1_000_000 / 48_000)
}

/// The smoothed clock: it follows the sound gently, jumps when it is far
/// behind, and waits when the sound does not move.
pub open spec fn smoothed(s: Smooth, m: Moment) -> int {
    let a = heard_at(m);
    let p = clamp64(s.media_us + (m.now_us - s.read_us));
    let err = a - p;
    if err > 150_000 {
        a
    } else if err < -60_000 {
        s.media_us as int
    } else {
        max(p + tdiv(err, 16), s.media_us as int)
    }
}

impl Deck {
    /// The window is as large as its controls.
    pub open spec fn wf(self) -> bool {
        self.size.0 >= 40 && self.size.1 >= 1 && self.volume <= 100 && self.controls_alpha <= 255
    }

    /// Time does not run backwards.
    pub open spec fn before(self, m: Moment) -> bool {
        &&& self.wall_start <= m.now_ms
        &&& self.last_activity <= m.now_ms
        &&& self.last_bars <= m.now_ms
        &&& self.opened_at <= m.now_ms
        &&& self.smooth matches Some(s) ==> s.read_us <= m.now_us
    }

    pub open spec fn has_video(self) -> bool {
        self.summary matches Some(s) && s.has_video
    }

    pub open spec fn has_audio(self) -> bool {
        self.summary matches Some(s) && s.has_audio
    }

    pub open spec fn duration(self) -> int {
        match self.summary {
            Some(s) => s.duration_us as int,
            None => 0,
        }
    }

    /// Current media time, and the state with the reading kept.
    pub open spec fn clock(self, m: Moment) -> (int, Deck) {
        if self.has_audio() {
            if self.paused {
                (heard_at(m), Deck { smooth: None, ..self })
            } else {
                let t = match self.smooth {
                    Some(s) => if s.epoch == m.epoch { smoothed(s, m) } else { heard_at(m) },
                    None => heard_at(m),
                };
                (t, Deck { smooth: Some(Smooth { media_us: t as i64, read_us: m.now_us, epoch: m.epoch }), ..self })
            }
        } else if self.paused {
            (self.wall_base as int, self)
        } else {
            (clamp64(self.wall_base + (m.now_ms - self.wall_start) * 1000), self)
        }
    }

    pub open spec fn poked(self, m: Moment) -> Deck {
        Deck { last_activity: m.now_ms, ..self }
    }

    pub open spec fn sought(self, t: int, m: Moment) -> Step {
        let to = clamp(t, 0, max(self.duration(), 0)) as i64;
        (
            Deck { wall_base: to, wall_start: m.now_ms, position: to, ended: false, ..self }.poked(m),
            seq![Order::Seek(to)],
        )
    }

    /// The volume out of 256.
    pub open spec fn loudness(self) -> Order {
        Order::Volume((if self.muted { 0 } else { self.volume * 256 / 100 }) as u32)
    }

    pub open spec fn at_volume(self, v: int) -> Step {
        let d = Deck { volume: v as u8, muted: false, ..self };
        (d, seq![d.loudness(), Order::KeepVolume(v as u8)])
    }

    pub open spec fn mute_toggled(self) -> Step {
        let d = Deck { muted: !self.muted, ..self };
        (d, seq![d.loudness()])
    }

    pub open spec fn pause_set(self, p: bool, m: Moment) -> Step {
        let (a, o) = if self.ended && !p { self.sought(0, m) } else { (self, Seq::empty()) };
        if p == a.paused {
            (a, o)
        } else {
            let b = if p {
                let (t, c) = a.clock(m);
                Deck { wall_base: t as i64, ..c }
            } else {
                Deck { wall_start: m.now_ms, ..a }
            };
            (Deck { paused: p, ..b }.poked(m), o.push(Order::Pause(p)))
        }
    }

    /// Between playing and not playing.
    pub open spec fn play_toggled(self, m: Moment) -> Step {
        self.pause_set(!self.paused && !self.ended, m)
    }

    // Layout

    pub open spec fn seek_area(self) -> Area {
        Area { x: 20, y: (self.size.1 - 74) as i64, w: (self.size.0 - 40) as i64, h: 6 }
    }

    pub open spec fn volume_area(self) -> Area {
        Area { x: (self.size.0 - 162) as i64, y: (self.size.1 - 37) as i64, w: 96, h: 6 }
    }

    pub open spec fn btn_area(self, b: Btn) -> Area {
        let (w, h) = (self.size.0 as int, self.size.1 as int);
        let cy = h - 34;
        match b {
            Btn::Prev => Area { x: 18, y: (cy - 16) as i64, w: 32, h: 32 },
            Btn::Play => Area { x: 56, y: (cy - 20) as i64, w: 40, h: 40 },
            Btn::Next => Area { x: 102, y: (cy - 16) as i64, w: 32, h: 32 },
            Btn::Fullscreen => Area { x: (w - 50) as i64, y: (cy - 16) as i64, w: 32, h: 32 },
            Btn::Mute => Area { x: (w - 198) as i64, y: (cy - 16) as i64, w: 32, h: 32 },
            Btn::Replay => Area { x: (w / 2 - 36) as i64, y: (h / 2 - 36) as i64, w: 72, h: 72 },
        }
    }

    pub open spec fn hit(self, x: int, y: int) -> Option<Btn> {
        if self.ended && self.has_video() && self.btn_area(Btn::Replay).spec_has(x, y) {
            Some(Btn::Replay)
        } else if self.controls_alpha == 0 {
            None
        } else if self.btn_area(Btn::Prev).spec_has(x, y) {
            Some(Btn::Prev)
        } else if self.btn_area(Btn::Play).spec_has(x, y) {
            Some(Btn::Play)
        } else if self.btn_area(Btn::Next).spec_has(x, y) {
            Some(Btn::Next)
        } else if self.btn_area(Btn::Mute).spec_has(x, y) {
            Some(Btn::Mute)
        } else if self.btn_area(Btn::Fullscreen).spec_has(x, y) {
            Some(Btn::Fullscreen)
        } else {
            None
        }
    }

    pub open spec fn on_seek(self, x: int, y: int) -> bool {
        self.seek_area().spec_grown(8).spec_has(x, y) && self.controls_alpha > 0
    }

    pub open spec fn on_volume(self, x: int, y: int) -> bool {
        self.volume_area().spec_grown(8).spec_has(x, y) && self.controls_alpha > 0
    }

    /// The time for a place on the seek bar.
    pub open spec fn time_at(self, x: int) -> int {
        let w = self.size.0 - 40;
        clamp(x - 20, 0, w) * self.duration() / max(w, 1)
    }

    pub open spec fn sought_x(self, x: int, m: Moment) -> Step {
        if self.duration() <= 0 { (self, Seq::empty()) } else { self.sought(self.time_at(x), m) }
    }

    pub open spec fn volume_x(self, x: int) -> Step {
        self.at_volume(clamp(x - (self.size.0 - 162), 0, 96) * 100 / 96)
    }

    pub open spec fn controls_wanted(self, m: Moment) -> bool {
        ||| !self.has_video() || self.paused || self.ended || self.dragging_seek || self.dragging_volume
        ||| m.now_ms - self.last_activity < 2500
        ||| crate::gui::geom::inside(
            0,
            self.size.1 - 96,
            self.size.0 as int,
            96,
            self.pointer.0 as int,
            self.pointer.1 as int,
        )
    }

    /// The controls fade in and out.
    pub open spec fn faded(self, m: Moment) -> Deck {
        let a = self.controls_alpha;
        Deck {
            controls_alpha: (if self.controls_wanted(m) { min(a + 60, 255) } else { max(a - 30, 0) }) as u32,
            ..self
        }
    }
}

// ---------------------------------------------------------------------
// Events
// ---------------------------------------------------------------------

/// The file of the playlist that is `delta` further on, around the end.
pub open spec fn stepped(playlist: Seq<Seq<char>>, path: Seq<char>, delta: int) -> Seq<Order> {
    if playlist.len() == 0 {
        Seq::empty()
    } else {
        seq![Order::Start(((position_of(playlist, path, 0) + delta) % (playlist.len() as int)) as usize)]
    }
}

/// Where a path is in the playlist, whatever the case; `default` if it is
/// not there.
pub open spec fn position_of(playlist: Seq<Seq<char>>, path: Seq<char>, default: int) -> int
    decreases playlist.len(),
{
    if playlist.len() == 0 {
        default
    } else {
        let d = playlist.drop_last();
        let rest = position_of(d, path, -1);
        if rest >= 0 {
            rest
        } else if lower_all(playlist.last()) == lower_all(path) {
            d.len() as int
        } else {
            default
        }
    }
}

/// What a press of a button does.
pub open spec fn pressed(d: Deck, playlist: Seq<Seq<char>>, path: Seq<char>, b: Btn, m: Moment, ctx: CtxState) -> (
    Step,
    CtxState,
) {
    match b {
        Btn::Play => (d.play_toggled(m), ctx),
        Btn::Replay => (d.play_toggled(m), ctx),
        Btn::Prev => (
            if d.position > 3_000_000 { d.sought(0, m) } else { (d, stepped(playlist, path, -1)) },
            ctx,
        ),
        Btn::Next => ((d, stepped(playlist, path, 1)), ctx),
        Btn::Mute => (d.mute_toggled(), ctx),
        Btn::Fullscreen => screen_toggled(d, ctx),
    }
}

pub open spec fn screen_toggled(d: Deck, ctx: CtxState) -> (Step, CtxState) {
    (
        (Deck { fullscreen: !d.fullscreen, ..d }, Seq::empty()),
        ctx.with(CommandState::SetFullscreen(!d.fullscreen)),
    )
}

/// What a press of the left mouse button does.
pub open spec fn clicked(
    d: Deck,
    playlist: Seq<Seq<char>>,
    path: Seq<char>,
    x: int,
    y: int,
    clicks: int,
    m: Moment,
    ctx: CtxState,
) -> (Step, CtxState) {
    match d.hit(x, y) {
        Some(b) => pressed(d, playlist, path, b, m, ctx),
        None => if d.on_seek(x, y) {
            ((Deck { dragging_seek: true, ..d }).sought_x(x, m), ctx)
        } else if d.on_volume(x, y) {
            ((Deck { dragging_volume: true, ..d }).volume_x(x), ctx)
        } else if d.has_video() && y < d.size.1 - 100 {
            if clicks >= 2 {
                // The first click of the pair toggled pause; undo it.
                let (s, c) = screen_toggled(d, ctx);
                (s.0.pause_set(!d.paused, m), c)
            } else {
                (d.play_toggled(m), ctx)
            }
        } else {
            ((d, Seq::empty()), ctx)
        },
    }
}

/// The time that a key goes to, if it is one of those that seek.
pub open spec fn seek_key(d: Deck, k: KeyEvent) -> Option<int> {
    let far = if k.shift { 30_000_000int } else { 5_000_000 };
    match k.key {
        Key::Left => Some(d.position - far),
        Key::Right => Some(d.position + far),
        Key::Home => Some(0),
        Key::Char(c) => if c == 'j' {
            Some(d.position - 10_000_000)
        } else if c == 'l' {
            Some(d.position + 10_000_000)
        } else if '0' <= c && c <= '9' {
            Some(tdiv(d.duration() * (c as int - 48), 10))
        } else {
            None
        },
        _ => None,
    }
}

/// What the other keys do; nothing for a key without a meaning.
pub open spec fn other_key(
    d: Deck,
    playlist: Seq<Seq<char>>,
    path: Seq<char>,
    k: KeyEvent,
    m: Moment,
    ctx: CtxState,
) -> Option<(Step, CtxState)> {
    match k.key {
        Key::Up => Some((d.at_volume(clamp(d.volume + 5, 0, 100)), ctx)),
        Key::Down => Some((d.at_volume(clamp(d.volume - 5, 0, 100)), ctx)),
        Key::Escape => if d.fullscreen { Some(screen_toggled(d, ctx)) } else { None },
        Key::Char(c) => if c == ' ' || c == 'k' {
            Some((d.play_toggled(m), ctx))
        } else if c == 'm' {
            Some((d.mute_toggled(), ctx))
        } else if c == 'f' {
            Some(screen_toggled(d, ctx))
        } else if c == 'n' {
            Some(((d, stepped(playlist, path, 1)), ctx))
        } else if c == 'p' {
            Some(((d, stepped(playlist, path, -1)), ctx))
        } else {
            None
        },
        _ => None,
    }
}

pub open spec fn keyed(d: Deck, playlist: Seq<Seq<char>>, path: Seq<char>, k: KeyEvent, m: Moment, ctx: CtxState) -> Option<
    (Step, CtxState),
> {
    match seek_key(d, k) {
        Some(t) => Some((d.sought(t, m), ctx)),
        None => other_key(d, playlist, path, k, m, ctx),
    }
}

/// What a move of the pointer drags along.
pub open spec fn dragged(d: Deck, x: int, held: bool, m: Moment) -> Step {
    let (b, o1) = if d.dragging_seek && held { d.sought_x(x, m) } else { (d, Seq::empty()) };
    let (c, o2) = if b.dragging_volume && held { b.volume_x(x) } else { (b, Seq::empty()) };
    (c, o1 + o2)
}

pub open spec fn pointed(d: Deck, x: i32, y: i32, m: Moment) -> Deck {
    let a = Deck { pointer: (x, y), ..d };
    if (x, y) != d.pointer { a.poked(m) } else { a }
}

pub open spec fn hovered(d: Deck, x: i32, y: i32) -> Deck {
    Deck {
        hover: d.hit(x as int, y as int),
        hover_seek: if d.on_seek(x as int, y as int) { Some(x) } else { None },
        ..d
    }
}

pub open spec fn moved(d: Deck, x: i32, y: i32, buttons: u8, m: Moment) -> Step {
    let (c, o) = dragged(pointed(d, x, y, m), x as int, buttons % 2 == 1, m);
    (hovered(c, x, y), o)
}

/// After an event: the new state, what is asked for, and the context.
pub open spec fn after(
    d: Deck,
    playlist: Seq<Seq<char>>,
    path: Seq<char>,
    ev: AppEvent,
    m: Moment,
    ctx: CtxState,
) -> (Step, CtxState) {
    match ev {
        AppEvent::MouseMove { x, y, buttons } => (moved(d, x, y, buttons, m), ctx.redrawn()),
        AppEvent::MouseLeave => ((Deck { hover: None, hover_seek: None, ..d }, Seq::empty()), ctx.redrawn()),
        AppEvent::MouseDown { x, y, button, clicks } => if button == 0 {
            let (s, c) = clicked(d.poked(m), playlist, path, x as int, y as int, clicks as int, m, ctx);
            (s, c.redrawn())
        } else {
            ((d, Seq::empty()), ctx)
        },
        AppEvent::MouseUp { .. } => (
            (Deck { dragging_seek: false, dragging_volume: false, ..d }, Seq::empty()),
            ctx.redrawn(),
        ),
        AppEvent::Wheel { delta, .. } => {
            let (a, o) = d.at_volume(clamp(d.volume - delta * 5, 0, 100));
            ((a.poked(m), o), ctx.redrawn())
        },
        AppEvent::Key(k) => if k.pressed {
            match keyed(d.poked(m), playlist, path, k, m, ctx) {
                Some((s, c)) => (s, c.redrawn()),
                None => ((d.poked(m), Seq::empty()), ctx),
            }
        } else {
            ((d, Seq::empty()), ctx)
        },
        AppEvent::Resized { .. } => ((d, Seq::empty()), ctx.redrawn()),
        AppEvent::Focus(_) => ((d, Seq::empty()), ctx.redrawn()),
        _ => ((d, Seq::empty()), ctx),
    }
}

// ---------------------------------------------------------------------
// Laws
// ---------------------------------------------------------------------

/// Between two seeks the smoothed clock never runs backwards.
pub proof fn lemma_clock_monotone(d: Deck, m: Moment)
    requires
        d.has_audio(),
        !d.paused,
        d.before(m),
        d.smooth matches Some(s) && s.epoch == m.epoch,
    ensures
        d.clock(m).0 >= d.smooth->0.media_us,
{
}

/// Wherever a seek is asked for, it goes to a time within the file.
pub proof fn lemma_seek_in_range(d: Deck, t: int, m: Moment)
    ensures
        0 <= d.sought(t, m).0.position <= max(d.duration(), 0),
        d.sought(t, m).1 == seq![Order::Seek(d.sought(t, m).0.position)],
{
}

/// The seek bar reaches from the beginning to the end of the file.
pub proof fn lemma_seek_bar_ends(d: Deck)
    requires
        d.wf(),
        d.duration() > 0,
        d.size.0 > 40,
    ensures
        d.time_at(20) == 0,
        d.time_at(d.size.0 - 20) == d.duration(),
{
    let w = d.size.0 - 40;
    let t = d.duration();
    assert(0 * t / w == 0) by (nonlinear_arith)
        requires
            w > 0,
    ;
    assert(w * t / w == t) by (nonlinear_arith)
        requires
            w > 0,
    ;
}

/// Going forward in the playlist and back again ends at the same file.
pub proof fn lemma_step_and_back(n: int, i: int, delta: int)
    requires
        0 <= i < n,
    ensures
        ((i + delta) % n - delta) % n == i,
{
    vstd::arithmetic::div_mod::lemma_sub_mod_noop(i + delta, delta, n);
    vstd::arithmetic::div_mod::lemma_sub_mod_noop((i + delta) % n, delta, n);
    vstd::arithmetic::div_mod::lemma_mod_twice(i + delta, n);
    vstd::arithmetic::div_mod::lemma_small_mod(i as nat, n as nat);
}

/// Left and Right go back and forth by the same time, further with Shift, and
/// the digits to the tenths of the file; each as far as the file goes.
pub proof fn lemma_seek_keys(d: Deck, left: KeyEvent, right: KeyEvent, m: Moment)
    requires
        left.key == Key::Left,
        right.key == Key::Right,
        left.shift == right.shift,
        0 <= d.position <= d.duration(),
    ensures
        ({
            let far: int = if left.shift { 30_000_000 } else { 5_000_000 };
            &&& seek_key(d, right) matches Some(t) && t == d.position + far && (t <= d.duration() ==> ({
                let n = d.sought(t, m).0;
                &&& n.position == t
                &&& n.wall_base == t
                &&& seek_key(n, left) == Some(d.position as int)
            }))
            &&& seek_key(d, left) matches Some(t) && (t < 0 ==> d.sought(t, m).0.position == 0)
            &&& d.position + far > d.duration() ==> d.sought(d.position + far, m).0.position == d.duration()
        }),
{
}

/// A digit leads to that tenth of the file: 5 to its middle.
pub proof fn lemma_digit_keys(d: Deck, k: KeyEvent, n: int)
    requires
        d.duration() >= 0,
        0 <= n <= 9,
        k.key == Key::Char((48 + n) as char),
    ensures
        seek_key(d, k) matches Some(t) && 10 * t <= d.duration() * n < 10 * t + 10 && 0 <= t <= d.duration(),
{
    let u = d.duration();
    assert(u * n >= 0 && u * n <= u * 10) by (nonlinear_arith)
        requires
            u >= 0,
            0 <= n <= 9,
    ;
}

/// A place further to the right on the seek bar is a later time.
pub proof fn lemma_seek_bar_rises(d: Deck, x: int, y: int)
    requires
        d.wf(),
        d.duration() > 0,
        d.size.0 > 40,
        x <= y,
    ensures
        0 <= d.time_at(x) <= d.time_at(y) <= d.duration(),
{
    let w = d.size.0 - 40;
    let t = d.duration();
    let a = clamp(x - 20, 0, w);
    let b = clamp(y - 20, 0, w);
    assert(0 <= a * t / w && a * t / w <= b * t / w && b * t / w <= t) by (nonlinear_arith)
        requires
            w > 0,
            t > 0,
            0 <= a <= b <= w,
    ;
}

/// What has no sound keeps time by the clock on the wall: it stands still
/// while it is paused, and goes on from there when it is played again.
pub proof fn lemma_pause_keeps_time(d: Deck, m: Moment, again: Moment, later: Moment)
    requires
        !d.has_audio(),
        !d.paused,
        !d.ended,
        d.before(m),
        m.now_ms <= again.now_ms <= later.now_ms,
        0 <= d.wall_base <= 0x1000_0000_0000_0000,
        later.now_ms <= 0x10_0000_0000_0000,
    ensures
        ({
            let t = d.clock(m).0;
            let p = d.pause_set(true, m).0;
            let r = p.pause_set(false, again).0;
            &&& t == d.wall_base + (m.now_ms - d.wall_start) * 1000
            &&& p.clock(again).0 == t
            &&& p.clock(later).0 == t
            &&& r.clock(later).0 == t + (later.now_ms - again.now_ms) * 1000
            &&& d.pause_set(true, m).1 == seq![Order::Pause(true)]
            &&& p.pause_set(false, again).1 == seq![Order::Pause(false)]
        }),
{
    let e = Seq::<Order>::empty();
    assert(e.push(Order::Pause(true)) =~= seq![Order::Pause(true)]);
    assert(e.push(Order::Pause(false)) =~= seq![Order::Pause(false)]);
}

/// The volume that is set is the one that is heard, and it is kept; a muted
/// one is heard not at all, and muting twice changes nothing.
pub proof fn lemma_volume_heard(d: Deck, v: int)
    requires
        0 <= v <= 100,
        d.volume <= 100,
    ensures
        ({
            let (n, o) = d.at_volume(v);
            &&& n.volume == v
            &&& !n.muted
            &&& o == seq![Order::Volume((v * 256 / 100) as u32), Order::KeepVolume(v as u8)]
        }),
        d.at_volume(0).0.loudness() == Order::Volume(0),
        d.at_volume(100).0.loudness() == Order::Volume(256),
        !d.muted ==> d.mute_toggled().0.loudness() == Order::Volume(0),
        d.mute_toggled().0.mute_toggled().0 == d,
        d.mute_toggled().0.volume == d.volume,
{
}

/// The volume bar reaches from silence to full volume.
pub proof fn lemma_volume_bar_ends(d: Deck, x: int)
    ensures
        x <= d.size.0 - 162 ==> d.volume_x(x).0.volume == 0,
        x >= d.size.0 - 66 ==> d.volume_x(x).0.volume == 100,
        d.volume_x(x).0.volume <= 100,
{
}

/// Two clicks on the picture toggle the full screen and leave it playing or
/// paused as it was.
pub proof fn lemma_double_click(
    d: Deck,
    playlist: Seq<Seq<char>>,
    path: Seq<char>,
    x: int,
    y: int,
    m: Moment,
    ctx: CtxState,
)
    requires
        d.hit(x, y) is None,
        !d.on_seek(x, y),
        !d.on_volume(x, y),
        d.has_video(),
        y < d.size.1 - 100,
        !d.ended,
        ({
            let one = clicked(d, playlist, path, x, y, 1, m, ctx).0.0;
            one.hit(x, y) is None && !one.on_seek(x, y) && !one.on_volume(x, y)
        }),
    ensures
        ({
            let one = clicked(d, playlist, path, x, y, 1, m, ctx).0.0;
            let two = clicked(one, playlist, path, x, y, 2, m, ctx).0.0;
            &&& one.paused == !d.paused
            &&& two.paused == d.paused
            &&& two.fullscreen == !d.fullscreen
        }),
{
}

/// The next file of the playlist follows the one that is played, and after
/// the last comes the first.
pub proof fn lemma_next_file(playlist: Seq<Seq<char>>, path: Seq<char>, i: int)
    requires
        0 <= i < playlist.len() <= usize::MAX,
        position_of(playlist, path, 0) == i,
    ensures
        stepped(playlist, path, 1) == seq![
            Order::Start((if i + 1 < playlist.len() { i + 1 } else { 0 }) as usize),
        ],
        stepped(playlist, path, -1) == seq![
            Order::Start((if i > 0 { i - 1 } else { playlist.len() - 1 }) as usize),
        ],
{
    let n = playlist.len() as int;
    if i + 1 < n {
        assert((i + 1) % n == i + 1) by (nonlinear_arith)
            requires
                0 <= i + 1 < n,
        ;
    } else {
        assert((i + 1) % n == 0) by (nonlinear_arith)
            requires
                i + 1 == n,
                n > 0,
        ;
    }
    if i > 0 {
        assert((i - 1) % n == i - 1) by (nonlinear_arith)
            requires
                0 <= i - 1 < n,
        ;
    } else {
        assert((i - 1) % n == n - 1) by (nonlinear_arith)
            requires
                i == 0,
                n > 0,
        ;
    }
}

// ---------------------------------------------------------------------
// Functions on the deck
// ---------------------------------------------------------------------

fn sat64(v: i128) -> (r: i64)
    ensures
        r == clamp64(v as int),
{
    if v > i64::MAX as i128 { i64::MAX } else if v < i64::MIN as i128 { i64::MIN } else { v as i64 }
}

impl Deck {
    pub fn video(&self) -> (r: bool)
        ensures
            r == self.has_video(),
    {
        match self.summary {
            Some(s) => s.has_video,
            None => false,
        }
    }

    pub fn audio(&self) -> (r: bool)
        ensures
            r == self.has_audio(),
    {
        match self.summary {
            Some(s) => s.has_audio,
            None => false,
        }
    }

    pub fn length(&self) -> (r: i64)
        ensures
            r == self.duration(),
    {
        match self.summary {
            Some(s) => s.duration_us,
            None => 0,
        }
    }

    /// Current media time.
    pub fn read_clock(&mut self, m: &Moment) -> (r: i64)
        requires
            old(self).before(*m),
        ensures
            (r as int, *final(self)) == old(self).clock(*m),
    {
        if self.audio() {
            let a: i64 = sat64(m.base_us as i128 + (m.heard as u128 * 1_000_000 / 48_000) as i128);
            if self.paused {
                self.smooth = None;
                return a;
            }
            let t: i64 = match self.smooth {
                Some(s) => if s.epoch == m.epoch {
                    let p: i64 = sat64(s.media_us as i128 + (m.now_us - s.read_us) as i128);
                    let err: i128 = a as i128 - p as i128;
                    if err > 150_000 {
                        a
                    } else if err < -60_000 {
                        s.media_us
                    } else {
                        let q: i64 = crate::arith::div(err as i64, 16);
                        let v: i64 = sat64(p as i128 + q as i128);
                        proof {
                            // A sixteenth of the way from p to a lies between them.
                            crate::arith::lemma_tdiv_bounds(err as int, 16);
                            assert(clamp64(p + q) == p + q);
                        }
                        if v > s.media_us { v } else { s.media_us }
                    }
                } else {
                    a
                },
                None => a,
            };
            self.smooth = Some(Smooth { media_us: t, read_us: m.now_us, epoch: m.epoch });
            t
        } else if self.paused {
            self.wall_base
        } else {
            sat64(self.wall_base as i128 + (m.now_ms - self.wall_start) as i128 * 1000)
        }
    }

    fn poke(&mut self, m: &Moment)
        ensures
            *final(self) == old(self).poked(*m),
    {
        self.last_activity = m.now_ms;
    }

    fn seek(&mut self, t: i64, m: &Moment, out: &mut Vec<Order>)
        ensures
            *final(self) == old(self).sought(t as int, *m).0,
            final(out)@ == old(out)@ + old(self).sought(t as int, *m).1,
    {
        let end: i64 = if self.length() > 0 { self.length() } else { 0 };
        let to: i64 = if t < 0 { 0 } else if t > end { end } else { t };
        self.wall_base = to;
        self.wall_start = m.now_ms;
        self.position = to;
        self.ended = false;
        self.poke(m);
        out.push(Order::Seek(to));
        proof {
            assert(out@ =~= old(out)@ + seq![Order::Seek(to)]);
        }
    }

    fn apply_volume(&self, out: &mut Vec<Order>)
        requires
            self.volume <= 100,
        ensures
            final(out)@ == old(out)@.push(self.loudness()),
    {
        let v: u32 = if self.muted { 0 } else { self.volume as u32 * 256 / 100 };
        out.push(Order::Volume(v));
    }

    fn set_volume(&mut self, v: u8, out: &mut Vec<Order>)
        requires
            v <= 100,
        ensures
            *final(self) == old(self).at_volume(v as int).0,
            final(out)@ == old(out)@ + old(self).at_volume(v as int).1,
    {
        self.volume = v;
        self.muted = false;
        self.apply_volume(out);
        out.push(Order::KeepVolume(v));
        proof {
            assert(out@ =~= old(out)@ + old(self).at_volume(v as int).1);
        }
    }

    fn toggle_mute(&mut self, out: &mut Vec<Order>)
        requires
            old(self).volume <= 100,
        ensures
            *final(self) == old(self).mute_toggled().0,
            final(out)@ == old(out)@ + old(self).mute_toggled().1,
    {
        self.muted = !self.muted;
        self.apply_volume(out);
        proof {
            assert(out@ =~= old(out)@ + old(self).mute_toggled().1);
        }
    }

    fn set_paused(&mut self, p: bool, m: &Moment, out: &mut Vec<Order>)
        requires
            old(self).before(*m),
        ensures
            *final(self) == old(self).pause_set(p, *m).0,
            final(out)@ == old(out)@ + old(self).pause_set(p, *m).1,
    {
        proof {
            assert(out@ =~= old(out)@ + Seq::<Order>::empty());
        }
        if self.ended && !p {
            self.seek(0, m, out);
        }
        if p == self.paused {
            return;
        }
        if p {
            self.wall_base = self.read_clock(m);
        } else {
            self.wall_start = m.now_ms;
        }
        self.paused = p;
        self.poke(m);
        out.push(Order::Pause(p));
        proof {
            assert(out@ =~= old(out)@ + old(self).pause_set(p, *m).1);
        }
    }

    fn toggle_play(&mut self, m: &Moment, out: &mut Vec<Order>)
        requires
            old(self).before(*m),
        ensures
            *final(self) == old(self).play_toggled(*m).0,
            final(out)@ == old(out)@ + old(self).play_toggled(*m).1,
    {
        let p: bool = !self.paused && !self.ended;
        self.set_paused(p, m, out);
    }

    pub fn seek_rect(&self) -> (r: Area)
        ensures
            r == self.seek_area(),
    {
        Area { x: 20, y: self.size.1 as i64 - 74, w: self.size.0 as i64 - 40, h: 6 }
    }

    pub fn volume_rect(&self) -> (r: Area)
        ensures
            r == self.volume_area(),
    {
        Area { x: self.size.0 as i64 - 162, y: self.size.1 as i64 - 37, w: 96, h: 6 }
    }

    pub fn btn_rect(&self, b: Btn) -> (r: Area)
        requires
            self.wf(),
        ensures
            r == self.btn_area(b),
            r.small(),
    {
        let (w, h) = (self.size.0 as i64, self.size.1 as i64);
        let cy: i64 = h - 34;
        match b {
            Btn::Prev => Area { x: 18, y: cy - 16, w: 32, h: 32 },
            Btn::Play => Area { x: 56, y: cy - 20, w: 40, h: 40 },
            Btn::Next => Area { x: 102, y: cy - 16, w: 32, h: 32 },
            Btn::Fullscreen => Area { x: w - 50, y: cy - 16, w: 32, h: 32 },
            Btn::Mute => Area { x: w - 198, y: cy - 16, w: 32, h: 32 },
            Btn::Replay => Area { x: w / 2 - 36, y: h / 2 - 36, w: 72, h: 72 },
        }
    }

    pub fn hit_at(&self, x: i32, y: i32) -> (r: Option<Btn>)
        requires
            self.wf(),
        ensures
            r == self.hit(x as int, y as int),
    {
        if self.ended && self.video() && self.btn_rect(Btn::Replay).has(x, y) {
            return Some(Btn::Replay);
        }
        if self.controls_alpha == 0 {
            return None;
        }
        if self.btn_rect(Btn::Prev).has(x, y) {
            Some(Btn::Prev)
        } else if self.btn_rect(Btn::Play).has(x, y) {
            Some(Btn::Play)
        } else if self.btn_rect(Btn::Next).has(x, y) {
            Some(Btn::Next)
        } else if self.btn_rect(Btn::Mute).has(x, y) {
            Some(Btn::Mute)
        } else if self.btn_rect(Btn::Fullscreen).has(x, y) {
            Some(Btn::Fullscreen)
        } else {
            None
        }
    }

    fn over_seek(&self, x: i32, y: i32) -> (r: bool)
        ensures
            r == self.on_seek(x as int, y as int),
    {
        self.seek_rect().grown(8).has(x, y) && self.controls_alpha > 0
    }

    fn over_volume(&self, x: i32, y: i32) -> (r: bool)
        ensures
            r == self.on_volume(x as int, y as int),
    {
        self.volume_rect().grown(8).has(x, y) && self.controls_alpha > 0
    }

    fn seek_to_x(&mut self, x: i32, m: &Moment, out: &mut Vec<Order>)
        requires
            old(self).wf(),
        ensures
            *final(self) == old(self).sought_x(x as int, *m).0,
            final(out)@ == old(out)@ + old(self).sought_x(x as int, *m).1,
    {
        let d: i64 = self.length();
        if d <= 0 {
            proof {
                assert(out@ =~= old(out)@ + Seq::<Order>::empty());
            }
            return;
        }
        let w: i64 = self.size.0 as i64 - 40;
        let at: i64 = x as i64 - 20;
        let c: i64 = if at < 0 { 0 } else if at > w { w } else { at };
        let div: u128 = if w > 1 { w as u128 } else { 1 };
        proof {
            assert(0 <= c * d <= 0x8000_0000 * 0x8000_0000_0000_0000) by (nonlinear_arith)
                requires
                    0 <= c <= 0x8000_0000,
                    0 < d <= 0x8000_0000_0000_0000,
            ;
            assert(c * d / (div as int) <= d) by (nonlinear_arith)
                requires
                    0 <= c <= div,
                    div > 0,
                    d > 0,
            ;
        }
        let t: i64 = (c as u128 * d as u128 / div) as i64;
        self.seek(t, m, out);
    }

    fn volume_to_x(&mut self, x: i32, out: &mut Vec<Order>)
        ensures
            *final(self) == old(self).volume_x(x as int).0,
            final(out)@ == old(out)@ + old(self).volume_x(x as int).1,
            final(self).volume <= 100,
    {
        let at: i64 = x as i64 - (self.size.0 as i64 - 162);
        let c: i64 = if at < 0 { 0 } else if at > 96 { 96 } else { at };
        let v: u8 = (c * 100 / 96) as u8;
        self.set_volume(v, out);
    }

    fn point(&mut self, x: i32, y: i32, m: &Moment)
        requires
            old(self).wf(),
        ensures
            *final(self) == pointed(*old(self), x, y, *m),
            final(self).wf(),
    {
        let moves: bool = x != self.pointer.0 || y != self.pointer.1;
        self.pointer = (x, y);
        if moves {
            self.poke(m);
        }
    }

    fn drag(&mut self, x: i32, held: bool, m: &Moment, out: &mut Vec<Order>)
        requires
            old(self).wf(),
        ensures
            *final(self) == dragged(*old(self), x as int, held, *m).0,
            final(out)@ == old(out)@ + dragged(*old(self), x as int, held, *m).1,
            final(self).wf(),
    {
        let ghost o0 = out@;
        proof {
            assert(out@ =~= o0 + Seq::<Order>::empty());
        }
        if self.dragging_seek && held {
            self.seek_to_x(x, m, out);
        }
        let ghost o1 = out@;
        proof {
            assert(out@ =~= o1 + Seq::<Order>::empty());
        }
        if self.dragging_volume && held {
            self.volume_to_x(x, out);
        }
        proof {
            assert(out@ =~= o0 + dragged(*old(self), x as int, held, *m).1);
        }
    }

    fn hover_at(&mut self, x: i32, y: i32)
        requires
            old(self).wf(),
        ensures
            *final(self) == hovered(*old(self), x, y),
            final(self).wf(),
    {
        self.hover = self.hit_at(x, y);
        self.hover_seek = if self.over_seek(x, y) { Some(x) } else { None };
    }

    /// Whether the controls are to be shown.
    pub fn wants_controls(&self, m: &Moment) -> (r: bool)
        requires
            self.before(*m),
        ensures
            r == self.controls_wanted(*m),
    {
        if !self.video() || self.paused || self.ended || self.dragging_seek || self.dragging_volume {
            return true;
        }
        let bar: Area = Area { x: 0, y: self.size.1 as i64 - 96, w: self.size.0 as i64, h: 96 };
        m.now_ms - self.last_activity < 2500 || bar.has(self.pointer.0, self.pointer.1)
    }

    fn toggle_screen(&mut self, ctx: &mut Ctx)
        ensures
            *final(self) == (Deck { fullscreen: !old(self).fullscreen, ..*old(self) }),
            final(ctx)@ == old(ctx)@.with(CommandState::SetFullscreen(!old(self).fullscreen)),
    {
        self.fullscreen = !self.fullscreen;
        ctx.request(Command::SetFullscreen(self.fullscreen));
    }
}

// ---------------------------------------------------------------------
// The picture
// ---------------------------------------------------------------------

/// The size that a picture is shown at: as large as fits, in steps of
/// 1/65536.
pub open spec fn shown_size(w: int, h: int, vw: int, vh: int) -> (int, int) {
    let scale = min(w * 65536 / vw, h * 65536 / vh);
    (clamp(vw * scale / 65536, 1, w), clamp(vh * scale / 65536, 1, h))
}

pub open spec fn picture(d: Deck) -> Area {
    let (w, h) = (d.size.0 as int, d.size.1 as int);
    match d.summary {
        None => Area { x: 0, y: 0, w: w as i64, h: h as i64 },
        Some(s) => {
            let (vw, vh) = match d.frame {
                Some(f) => (f.0 as int, f.1 as int),
                None => (s.width as int, s.height as int),
            };
            let (dw, dh) = shown_size(w, h, max(vw, 1), max(vh, 1));
            Area { x: ((w - dw) / 2) as i64, y: ((h - dh) / 2) as i64, w: dw as i64, h: dh as i64 }
        },
    }
}

/// The picture lies within the window, in its middle.
pub proof fn lemma_picture_within(d: Deck)
    requires
        d.wf(),
    ensures
        ({
            let r = picture(d);
            0 <= r.x && 0 <= r.y && r.x + r.w <= d.size.0 && r.y + r.h <= d.size.1 && r.w >= 1 && r.h >= 1
        }),
{
}

impl Deck {
    pub fn video_rect(&self) -> (r: Area)
        requires
            self.wf(),
        ensures
            r == picture(*self),
    {
        let (w, h) = (self.size.0 as i64, self.size.1 as i64);
        match self.summary {
            None => Area { x: 0, y: 0, w, h },
            Some(s) => {
                let (fw, fh) = match self.frame {
                    Some(f) => (f.0 as i64, f.1 as i64),
                    None => (s.width as i64, s.height as i64),
                };
                let vw: i64 = if fw > 1 { fw } else { 1 };
                let vh: i64 = if fh > 1 { fh } else { 1 };
                let a: i64 = w * 65536 / vw;
                let b: i64 = h * 65536 / vh;
                let scale: i64 = if a < b { a } else { b };
                proof {
                    assert(0 <= vw * scale <= w * 65536) by (nonlinear_arith)
                        requires
                            0 <= scale <= w * 65536 / (vw as int),
                            vw > 0,
                            w >= 0,
                    ;
                    assert(0 <= vh * scale <= h * 65536) by (nonlinear_arith)
                        requires
                            0 <= scale <= h * 65536 / (vh as int),
                            vh > 0,
                            h >= 0,
                    ;
                }
                let x: i64 = vw * scale / 65536;
                let y: i64 = vh * scale / 65536;
                let dw: i64 = if x < 1 { 1 } else if x > w { w } else { x };
                let dh: i64 = if y < 1 { 1 } else if y > h { h } else { y };
                Area { x: (w - dw) / 2, y: (h - dh) / 2, w: dw, h: dh }
            },
        }
    }
}

// ---------------------------------------------------------------------
// The player
// ---------------------------------------------------------------------

pub struct Player {
    pub path: Vec<char>,
    pub playlist: Vec<Vec<char>>,
    pub bars: Vec<u8>,
    pub deck: Deck,
}

/// The media files among the entries of a folder.
pub open spec fn media_files(dir: Seq<char>, s: Seq<EntryState>) -> Seq<Seq<char>>
    decreases s.len(),
{
    if s.len() == 0 {
        Seq::empty()
    } else {
        let rest = media_files(dir, s.drop_last());
        let e = s.last();
        if !e.is_dir && (video_name(e.name) || audio_name(e.name)) {
            rest.push(joined_path(dir, e.name))
        } else {
            rest
        }
    }
}

/// The state in which a file starts.
pub open spec fn started(d: Deck, m: Moment) -> Deck {
    Deck {
        summary: None,
        frame: None,
        epoch: 0,
        paused: false,
        ended: false,
        position: 0,
        wall_base: 0,
        wall_start: m.now_ms,
        opened_at: m.now_ms,
        ..d
    }
}

pub fn place_of(playlist: &[Vec<char>], path: &[char]) -> (r: Option<usize>)
    ensures
        match r {
            Some(i) => i < playlist@.len() && position_of(views(playlist@), path@, -1) == i && position_of(
                views(playlist@),
                path@,
                0,
            ) == i,
            None => position_of(views(playlist@), path@, -1) == -1 && position_of(views(playlist@), path@, 0) == 0,
        },
{
    let low: Vec<char> = lowered(path);
    let ghost all = views(playlist@);
    let n: usize = playlist.len();
    let mut i: usize = 0;
    proof {
        assert(all.take(0) =~= Seq::<Seq<char>>::empty());
    }
    while i < n
        invariant
            i <= n == playlist@.len(),
            all == views(playlist@),
            low@ == lower_all(path@),
            position_of(all.take(i as int), path@, -1) == -1,
            position_of(all.take(i as int), path@, 0) == 0,
        decreases n - i,
    {
        proof {
            assert(all.take(i + 1).drop_last() =~= all.take(i as int));
            assert(all.take(i + 1).last() == playlist@[i as int]@);
        }
        if same(&lowered(&playlist[i]), &low) {
            proof {
                lemma_position_prefix(all, i + 1, path@, -1);
                lemma_position_prefix(all, i + 1, path@, 0);
            }
            return Some(i);
        }
        i += 1;
    }
    proof {
        assert(all.take(n as int) =~= all);
    }
    None
}

/// What was found among the first files stays found.
proof fn lemma_position_prefix(s: Seq<Seq<char>>, k: int, path: Seq<char>, default: int)
    requires
        0 <= k <= s.len(),
        position_of(s.take(k), path, -1) >= 0,
    ensures
        position_of(s, path, default) == position_of(s.take(k), path, -1),
    decreases s.len() - k,
{
    if k == s.len() {
        assert(s.take(k) =~= s);
        lemma_position_default(s, path, default);
    } else {
        assert(s.take(k + 1).drop_last() =~= s.take(k));
        lemma_position_prefix(s, k + 1, path, default);
    }
}

proof fn lemma_position_default(s: Seq<Seq<char>>, path: Seq<char>, default: int)
    requires
        position_of(s, path, -1) >= 0,
    ensures
        position_of(s, path, default) == position_of(s, path, -1),
{
}

impl Player {
    pub open spec fn wf(self) -> bool {
        self.deck.wf() && self.bars@.len() == 32 && self.playlist@.len() <= i32::MAX
    }

    pub open spec fn list(self) -> Seq<Seq<char>> {
        views(self.playlist@)
    }

    /// The player for a file, before it starts.
    pub fn open(path: &str, volume: u8, m: &Moment) -> (r: Player)
        requires
            volume <= 100,
        ensures
            r.wf(),
            r.path@ == path@,
            r.playlist@.len() == 0,
            r.bars@ == Seq::new(32, |i: int| 0u8),
            r.deck == (Deck {
                summary: None,
                frame: None,
                epoch: 0,
                paused: false,
                wall_base: 0,
                wall_start: m.now_ms,
                smooth: None,
                position: 0,
                ended: false,
                size: (900, 560),
                fullscreen: false,
                volume,
                muted: false,
                last_activity: m.now_ms,
                pointer: (0, 0),
                hover: None,
                hover_seek: None,
                dragging_seek: false,
                dragging_volume: false,
                controls_alpha: 255,
                last_bars: 0,
                viz_rect: Rect { x: 0, y: 0, w: 0, h: 0 },
                opened_at: m.now_ms,
            }),
    {
        let mut bars: Vec<u8> = Vec::new();
        let mut i: usize = 0;
        while i < 32
            invariant
                i <= 32,
                bars@ == Seq::new(i as nat, |i: int| 0u8),
            decreases 32 - i,
        {
            bars.push(0);
            i += 1;
            proof {
                assert(bars@ =~= Seq::new(i as nat, |i: int| 0u8));
            }
        }
        Player {
            path: to_chars(path),
            playlist: Vec::new(),
            bars,
            deck: Deck {
                summary: None,
                frame: None,
                epoch: 0,
                paused: false,
                wall_base: 0,
                wall_start: m.now_ms,
                smooth: None,
                position: 0,
                ended: false,
                size: (900, 560),
                fullscreen: false,
                volume,
                muted: false,
                last_activity: m.now_ms,
                pointer: (0, 0),
                hover: None,
                hover_seek: None,
                dragging_seek: false,
                dragging_volume: false,
                controls_alpha: 255,
                last_bars: 0,
                viz_rect: Rect { x: 0, y: 0, w: 0, h: 0 },
                opened_at: m.now_ms,
            },
        }
    }

    /// Play a file; `dir` is its folder with these entries.
    pub fn start(&mut self, path: &str, dir: &str, entries: &[DirEntry], m: &Moment, out: &mut Vec<Order>)
        requires
            old(self).wf(),
            entries@.len() <= i32::MAX,
        ensures
            final(self).path@ == path@,
            final(self).list() == media_files(dir@, entries_of(entries@)),
            final(self).deck == started(old(self).deck, *m),
            final(self).bars@ == old(self).bars@,
            final(out)@ == old(out)@.push(old(self).deck.loudness()),
            final(self).wf(),
    {
        self.deck.apply_volume(out);
        self.path = to_chars(path);
        let d: Vec<char> = to_chars(dir);
        let ghost all = entries_of(entries@);
        let mut list: Vec<Vec<char>> = Vec::new();
        let mut i: usize = 0;
        proof {
            assert(all.take(0) =~= Seq::empty());
            assert(views(list@) =~= Seq::<Seq<char>>::empty());
        }
        while i < entries.len()
            invariant
                i <= entries@.len(),
                all == entries_of(entries@),
                d@ == dir@,
                list@.len() <= i,
                views(list@) == media_files(dir@, all.take(i as int)),
            decreases entries@.len() - i,
        {
            let e: &DirEntry = &entries[i];
            proof {
                assert(all.take(i + 1).drop_last() =~= all.take(i as int));
                assert(all.take(i + 1).last() == e@);
            }
            if !e.is_dir && is_media_name(e.name.as_str()) {
                let ghost l0 = views(list@);
                let p: Vec<char> = join_chars(&d, &to_chars(e.name.as_str()));
                let ghost p0 = p@;
                list.push(p);
                proof {
                    assert(views(list@) =~= l0.push(p0));
                }
            }
            i += 1;
        }
        proof {
            assert(all.take(all.len() as int) =~= all);
        }
        self.playlist = list;
        self.deck.summary = None;
        self.deck.frame = None;
        self.deck.epoch = 0;
        self.deck.paused = false;
        self.deck.ended = false;
        self.deck.position = 0;
        self.deck.wall_base = 0;
        self.deck.wall_start = m.now_ms;
        self.deck.opened_at = m.now_ms;
    }

    pub fn title(&self) -> (r: String)
        ensures
            r@ == base_name(self.path@) + " \u{2014} Media Player"@,
    {
        let mut out: Vec<char> = file_name_chars(&self.path);
        push_str(&mut out, " \u{2014} Media Player");
        to_text(&out)
    }

    /// The window has this size now.
    pub fn resize(&mut self, w: i32, h: i32)
        requires
            old(self).wf(),
            w >= 40,
            h >= 1,
        ensures
            final(self).deck == (Deck { size: (w, h), ..old(self).deck }),
            final(self).path == old(self).path,
            final(self).playlist == old(self).playlist,
            final(self).bars == old(self).bars,
            final(self).wf(),
    {
        self.deck.size = (w, h);
    }

    pub fn step(&self, delta: i64, out: &mut Vec<Order>)
        requires
            self.wf(),
            -1 <= delta <= 1,
        ensures
            final(out)@ == old(out)@ + stepped(self.list(), self.path@, delta as int),
    {
        let n: usize = self.playlist.len();
        proof {
            assert(n == self.list().len());
        }
        if n == 0 {
            proof {
                assert(out@ =~= old(out)@ + Seq::<Order>::empty());
            }
            return;
        }
        let i: usize = match place_of(&self.playlist, &self.path) {
            Some(i) => i,
            None => 0,
        };
        let k: i64 = i as i64 + delta;
        let next: usize = if k < 0 { n - 1 } else if k >= n as i64 { 0 } else { k as usize };
        proof {
            let len = n as int;
            assert(next as int == (i + delta) % len) by (nonlinear_arith)
                requires
                    0 <= i < len,
                    -1 <= delta <= 1,
                    next as int == if i + delta < 0 { len - 1 } else if i + delta >= len { 0 } else { i + delta },
            ;
        }
        out.push(Order::Start(next));
        proof {
            assert(out@ =~= old(out)@ + stepped(self.list(), self.path@, delta as int));
        }
    }

    fn press(&mut self, b: Btn, m: &Moment, out: &mut Vec<Order>, ctx: &mut Ctx)
        requires
            old(self).wf(),
            old(self).deck.before(*m),
        ensures
            ({
                let (s, c) = pressed(old(self).deck, old(self).list(), old(self).path@, b, *m, old(ctx)@);
                final(self).deck == s.0 && final(out)@ == old(out)@ + s.1 && final(ctx)@ == c
            }),
            final(self).path == old(self).path,
            final(self).playlist == old(self).playlist,
            final(self).bars == old(self).bars,
            final(self).wf(),
    {
        match b {
            Btn::Play => self.deck.toggle_play(m, out),
            Btn::Replay => self.deck.toggle_play(m, out),
            Btn::Prev => {
                if self.deck.position > 3_000_000 {
                    self.deck.seek(0, m, out);
                } else {
                    self.step(-1, out);
                }
            },
            Btn::Next => self.step(1, out),
            Btn::Mute => self.deck.toggle_mute(out),
            Btn::Fullscreen => {
                self.deck.toggle_screen(ctx);
                proof {
                    assert(out@ =~= old(out)@ + Seq::<Order>::empty());
                }
            },
        }
    }

    fn click(&mut self, x: i32, y: i32, clicks: u8, m: &Moment, out: &mut Vec<Order>, ctx: &mut Ctx)
        requires
            old(self).wf(),
            old(self).deck.before(*m),
        ensures
            ({
                let (s, c) = clicked(
                    old(self).deck,
                    old(self).list(),
                    old(self).path@,
                    x as int,
                    y as int,
                    clicks as int,
                    *m,
                    old(ctx)@,
                );
                final(self).deck == s.0 && final(out)@ == old(out)@ + s.1 && final(ctx)@ == c
            }),
            final(self).path == old(self).path,
            final(self).playlist == old(self).playlist,
            final(self).bars == old(self).bars,
            final(self).wf(),
    {
        if let Some(b) = self.deck.hit_at(x, y) {
            self.press(b, m, out, ctx);
        } else if self.deck.over_seek(x, y) {
            self.deck.dragging_seek = true;
            self.deck.seek_to_x(x, m, out);
        } else if self.deck.over_volume(x, y) {
            self.deck.dragging_volume = true;
            self.deck.volume_to_x(x, out);
        } else if self.deck.video() && (y as i64) < self.deck.size.1 as i64 - 100 {
            if clicks >= 2 {
                self.deck.toggle_screen(ctx);
                let p: bool = !self.deck.paused;
                self.deck.set_paused(p, m, out);
            } else {
                self.deck.toggle_play(m, out);
            }
        } else {
            proof {
                assert(out@ =~= old(out)@ + Seq::<Order>::empty());
            }
        }
    }

    /// Where a key goes to; the seek then brings it into the file.
    fn key_target(&self, k: &KeyEvent) -> (r: Option<i64>)
        ensures
            match r {
                Some(t) => seek_key(self.deck, *k) matches Some(x) && clamp(t as int, 0, max(self.deck.duration(), 0))
                    == clamp(x, 0, max(self.deck.duration(), 0)),
                None => seek_key(self.deck, *k) is None,
            },
    {
        let far: i128 = if k.shift { 30_000_000 } else { 5_000_000 };
        let pos: i128 = self.deck.position as i128;
        match k.key {
            Key::Left => Some(sat64(pos - far)),
            Key::Right => Some(sat64(pos + far)),
            Key::Home => Some(0),
            Key::Char(c) => {
                if c == 'j' {
                    Some(sat64(pos - 10_000_000))
                } else if c == 'l' {
                    Some(sat64(pos + 10_000_000))
                } else if '0' <= c && c <= '9' {
                    let n: u64 = (c as u32 - 48) as u64;
                    let d: i64 = self.deck.length();
                    proof {
                        let dn = d * n;
                        assert(d > 0 ==> 0 <= dn <= d * 9) by (nonlinear_arith)
                            requires
                                0 <= n <= 9,
                                dn == d * n,
                        ;
                        assert(d <= 0 ==> dn <= 0) by (nonlinear_arith)
                            requires
                                0 <= n <= 9,
                                dn == d * n,
                        ;
                    }
                    Some(if d > 0 { (d as u128 * n as u128 / 10) as i64 } else { 0 })
                } else {
                    None
                }
            },
            _ => None,
        }
    }

    fn key(&mut self, k: &KeyEvent, m: &Moment, out: &mut Vec<Order>, ctx: &mut Ctx) -> (r: bool)
        requires
            old(self).wf(),
            old(self).deck.before(*m),
        ensures
            match keyed(old(self).deck, old(self).list(), old(self).path@, *k, *m, old(ctx)@) {
                Some((s, c)) => r && final(self).deck == s.0 && final(out)@ == old(out)@ + s.1 && final(ctx)@ == c,
                None => !r && *final(self) == *old(self) && final(out)@ == old(out)@ && final(ctx)@ == old(ctx)@,
            },
            final(self).path == old(self).path,
            final(self).playlist == old(self).playlist,
            final(self).bars == old(self).bars,
            final(self).wf(),
    {
        if let Some(t) = self.key_target(k) {
            self.deck.seek(t, m, out);
            return true;
        }
        proof {
            assert(out@ =~= old(out)@ + Seq::<Order>::empty());
        }
        match k.key {
            Key::Up => {
                let v: u8 = if self.deck.volume > 95 { 100 } else { self.deck.volume + 5 };
                self.deck.set_volume(v, out);
                true
            },
            Key::Down => {
                let v: u8 = if self.deck.volume < 5 { 0 } else { self.deck.volume - 5 };
                self.deck.set_volume(v, out);
                true
            },
            Key::Escape => {
                if !self.deck.fullscreen {
                    return false;
                }
                self.deck.toggle_screen(ctx);
                true
            },
            Key::Char(c) => self.letter(c, m, out, ctx),
            _ => false,
        }
    }

    fn letter(&mut self, c: char, m: &Moment, out: &mut Vec<Order>, ctx: &mut Ctx) -> (r: bool)
        requires
            old(self).wf(),
            old(self).deck.before(*m),
        ensures
            ({
                let k = KeyEvent { key: Key::Char(c), pressed: true, shift: false, ctrl: false, alt: false };
                match other_key(old(self).deck, old(self).list(), old(self).path@, k, *m, old(ctx)@) {
                    Some((s, x)) => r && final(self).deck == s.0 && final(out)@ == old(out)@ + s.1 && final(ctx)@ == x,
                    None => !r && *final(self) == *old(self) && final(out)@ == old(out)@ && final(ctx)@ == old(ctx)@,
                }
            }),
            final(self).path == old(self).path,
            final(self).playlist == old(self).playlist,
            final(self).bars == old(self).bars,
            final(self).wf(),
    {
        proof {
            assert(out@ =~= old(out)@ + Seq::<Order>::empty());
        }
        if c == ' ' || c == 'k' {
            self.deck.toggle_play(m, out);
        } else if c == 'm' {
            self.deck.toggle_mute(out);
        } else if c == 'f' {
            self.deck.toggle_screen(ctx);
        } else if c == 'n' {
            self.step(1, out);
        } else if c == 'p' {
            self.step(-1, out);
        } else {
            return false;
        }
        true
    }

    fn move_to(&mut self, x: i32, y: i32, buttons: u8, m: &Moment, out: &mut Vec<Order>)
        requires
            old(self).wf(),
        ensures
            ({
                let s = moved(old(self).deck, x, y, buttons, *m);
                final(self).deck == s.0 && final(out)@ == old(out)@ + s.1
            }),
            final(self).path == old(self).path,
            final(self).playlist == old(self).playlist,
            final(self).bars == old(self).bars,
            final(self).wf(),
    {
        self.deck.point(x, y, m);
        self.deck.drag(x, buttons % 2 == 1, m, out);
        self.deck.hover_at(x, y);
    }

    /// An event; what is asked for is added to `out`.
    pub fn event(&mut self, ev: &AppEvent, m: &Moment, out: &mut Vec<Order>, ctx: &mut Ctx)
        requires
            old(self).wf(),
            old(self).deck.before(*m),
        ensures
            ({
                let (s, c) = after(old(self).deck, old(self).list(), old(self).path@, *ev, *m, old(ctx)@);
                final(self).deck == s.0 && final(out)@ == old(out)@ + s.1 && final(ctx)@ == c
            }),
            final(self).path == old(self).path,
            final(self).playlist == old(self).playlist,
            final(self).bars == old(self).bars,
            final(self).wf(),
    {
        proof {
            assert(out@ =~= old(out)@ + Seq::<Order>::empty());
        }
        match ev {
            AppEvent::MouseMove { x, y, buttons } => {
                self.move_to(*x, *y, *buttons, m, out);
                ctx.redraw();
            },
            AppEvent::MouseLeave => {
                self.deck.hover = None;
                self.deck.hover_seek = None;
                ctx.redraw();
            },
            AppEvent::MouseDown { x, y, button, clicks } => {
                if *button == 0 {
                    self.deck.poke(m);
                    self.click(*x, *y, *clicks, m, out, ctx);
                    ctx.redraw();
                }
            },
            AppEvent::MouseUp { .. } => {
                self.deck.dragging_seek = false;
                self.deck.dragging_volume = false;
                ctx.redraw();
            },
            AppEvent::Wheel { delta, .. } => {
                let v: i64 = self.deck.volume as i64 - *delta as i64 * 5;
                self.deck.set_volume(if v < 0 { 0 } else if v > 100 { 100 } else { v as u8 }, out);
                self.deck.poke(m);
                ctx.redraw();
            },
            AppEvent::Key(k) => {
                if k.pressed {
                    self.deck.poke(m);
                    if self.key(k, m, out, ctx) {
                        ctx.redraw();
                    }
                }
            },
            AppEvent::Resized { .. } => ctx.redraw(),
            AppEvent::Focus(_) => ctx.redraw(),
            _ => {},
        }
    }
}

} // verus!
