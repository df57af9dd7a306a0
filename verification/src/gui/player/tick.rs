//! What the player does as time goes by.

use super::viz::{bars_after, move_bars};
use super::window::{position_of, stepped, Deck, Moment, Order, Player, Status, Summary};
use crate::arith::{clamp, max, min};
use crate::gui::app::{Command, CommandState, Ctx, CtxState};
use crate::gui::geom::Rect;
use vstd::prelude::*;

verus! {

/// What the engine says.
#[derive(Clone, Copy, Debug, PartialEq, Eq, Structural)]
pub struct Report {
    pub status: Status,
    pub summary: Option<Summary>,
    pub epoch: u32,
    /// All is decoded.
    pub eof: bool,
    /// Frames of sound still to be heard.
    pub queued: u64,
}

/// How many of the frames that wait, in the order of their times, are due.
pub open spec fn due(pts: Seq<i64>, clock: int) -> int
    decreases pts.len(),
{
    if pts.len() == 0 || pts[0] > clock { 0 } else { 1 + due(pts.skip(1), clock) }
}

/// Whether the engine is told that frames are shown too late; nothing if it
/// is told neither way.
pub open spec fn lateness(pts: Seq<i64>, clock: int) -> Option<bool> {
    let n = due(pts, clock);
    if n > 0 && clock - pts[n - 1] > 120_000 {
        Some(true)
    } else if n < pts.len() {
        Some(false)
    } else {
        None
    }
}

/// The first part: the file becomes known, and the controls fade. Whether
/// anything is left to do.
pub open spec fn begun(d: Deck, r: Report, m: Moment, ctx: CtxState) -> (Deck, CtxState, bool) {
    let known = d.summary is None && r.summary is Some;
    let a = if known { Deck { summary: r.summary, ..d } } else { d };
    let c = if known { ctx.redrawn() } else { ctx };
    if r.status == Status::Loading {
        (a, if m.now_ms - d.opened_at > 300 { c.redrawn() } else { c }, false)
    } else if r.status == Status::Failed {
        (a, c, false)
    } else {
        let want = if a.controls_wanted(m) { 255u32 } else { 0 };
        if want != a.controls_alpha {
            (a.faded(m), c.redrawn(), !a.paused && !a.ended)
        } else {
            (a, c, !a.paused && !a.ended)
        }
    }
}

/// The position that is shown for a time.
pub open spec fn shown_position(d: Deck, clock: int) -> int {
    clamp(clock, 0, max(d.duration(), clock))
}

/// Whether the file has been played to its end.
pub open spec fn at_end(d: Deck, r: Report, frames_left: bool, clock: int, m: Moment) -> bool {
    &&& r.eof && r.queued == 0 && !frames_left && m.now_ms - d.opened_at > 500
    &&& d.duration() <= 0 || clock + 500_000 >= d.duration() || !d.has_audio()
}

pub open spec fn picture_rect(d: Deck) -> CommandState {
    CommandState::RedrawRect(Rect { x: 0, y: 0, w: d.size.0, h: d.size.1 })
}

pub open spec fn bar_rect(d: Deck) -> CommandState {
    CommandState::RedrawRect(Rect { x: 0, y: (d.size.1 - 110) as i32, w: d.size.0, h: 110 })
}

/// The second part, at media time `clock`, with video: the frame whose time
/// has come. `size` is the size of the frame shown then.
pub open spec fn framed(d: Deck, epoch: u32, shown: bool, size: (u32, u32), ctx: CtxState) -> (Deck, CtxState) {
    let a = Deck { epoch, ..d };
    if shown { (Deck { frame: Some(size), ..a }, ctx.with(picture_rect(d))) } else { (a, ctx) }
}

/// The last part: the position, and the end of the file.
pub open spec fn ended(
    d: Deck,
    playlist: Seq<Seq<char>>,
    path: Seq<char>,
    r: Report,
    frames_left: bool,
    clock: int,
    m: Moment,
    ctx: CtxState,
) -> (Deck, Seq<Order>, CtxState) {
    let pos = shown_position(d, clock);
    let c = if pos / 250_000 != crate::arith::tdiv(d.position as int, 250_000) && d.controls_alpha > 0 {
        ctx.with(bar_rect(d))
    } else {
        ctx
    };
    let a = Deck { position: pos as i64, ..d };
    if at_end(d, r, frames_left, clock, m) {
        let more = !d.has_video() && playlist.len() > 1 && position_of(playlist, path, -1) != playlist.len() - 1;
        (
            Deck { ended: true, paused: false, position: d.duration() as i64, ..a },
            if more { stepped(playlist, path, 1) } else { Seq::empty() },
            c.redrawn(),
        )
    } else {
        (a, Seq::empty(), c)
    }
}

/// The frame shown is due, and the ones that are left are not.
pub proof fn lemma_due(pts: Seq<i64>, clock: int)
    ensures
        0 <= due(pts, clock) <= pts.len(),
        forall|i: int| 0 <= i < due(pts, clock) ==> #[trigger] pts[i] <= clock,
        due(pts, clock) < pts.len() ==> pts[due(pts, clock)] > clock,
    decreases pts.len(),
{
    if pts.len() > 0 && pts[0] <= clock {
        lemma_due(pts.skip(1), clock);
        assert forall|i: int| 0 <= i < due(pts, clock) implies #[trigger] pts[i] <= clock by {
            if i > 0 {
                assert(pts.skip(1)[i - 1] == pts[i]);
            }
        }
    }
}

/// The controls are fully shown after five steps, and gone after nine.
pub proof fn lemma_fade(d: Deck, m: Moment)
    requires
        d.wf(),
    ensures
        d.controls_wanted(m) ==> d.faded(m).controls_alpha == min(d.controls_alpha + 60, 255),
        !d.controls_wanted(m) ==> d.faded(m).controls_alpha == max(d.controls_alpha - 30, 0),
        d.faded(m).wf(),
{
}

/// How many of the frames that wait are due.
pub fn count_due(pts: &[i64], clock: i64) -> (r: usize)
    ensures
        r == due(pts@, clock as int),
        r <= pts@.len(),
{
    let mut i: usize = 0;
    proof {
        assert(pts@.skip(0) =~= pts@);
        lemma_due(pts@, clock as int);
    }
    while i < pts.len() && pts[i] <= clock
        invariant
            i <= pts@.len(),
            due(pts@, clock as int) == i + due(pts@.skip(i as int), clock as int),
        decreases pts@.len() - i,
    {
        proof {
            assert(pts@.skip(i as int).skip(1) =~= pts@.skip(i + 1));
        }
        i += 1;
    }
    i
}

/// Whether the engine is told that frames are shown too late.
pub fn is_late(pts: &[i64], clock: i64) -> (r: Option<bool>)
    ensures
        r == lateness(pts@, clock as int),
{
    let n: usize = count_due(pts, clock);
    if n > 0 && clock as i128 - pts[n - 1] as i128 > 120_000 {
        Some(true)
    } else if n < pts.len() {
        Some(false)
    } else {
        None
    }
}

impl Player {
    /// The first part of a tick; whether anything is left to do.
    pub fn tick_begin(&mut self, r: &Report, m: &Moment, ctx: &mut Ctx) -> (more: bool)
        requires
            old(self).wf(),
            old(self).deck.before(*m),
        ensures
            (final(self).deck, final(ctx)@, more) == begun(old(self).deck, *r, *m, old(ctx)@),
            final(self).path == old(self).path,
            final(self).playlist == old(self).playlist,
            final(self).bars == old(self).bars,
            final(self).wf(),
    {
        if self.deck.summary.is_none() && r.summary.is_some() {
            self.deck.summary = r.summary;
            ctx.redraw();
        }
        if r.status == Status::Loading {
            if m.now_ms - self.deck.opened_at > 300 {
                ctx.redraw();
            }
            return false;
        }
        if r.status == Status::Failed {
            return false;
        }
        let want: u32 = if self.deck.wants_controls(m) { 255 } else { 0 };
        let a: u32 = self.deck.controls_alpha;
        if want != a {
            self.deck.controls_alpha = if want > a { if a > 195 { 255 } else { a + 60 } } else if a > 30 {
                a - 30
            } else {
                0
            };
            ctx.redraw();
        }
        !self.deck.paused && !self.deck.ended
    }

    /// With video: frames that were due were taken, and the last of them,
    /// of this size, is shown.
    pub fn tick_video(&mut self, epoch: u32, shown: Option<(u32, u32)>, ctx: &mut Ctx)
        requires
            old(self).wf(),
        ensures
            ({
                let size = match shown {
                    Some(s) => s,
                    None => (0, 0),
                };
                (final(self).deck, final(ctx)@) == framed(old(self).deck, epoch, shown is Some, size, old(ctx)@)
            }),
            final(self).path == old(self).path,
            final(self).playlist == old(self).playlist,
            final(self).bars == old(self).bars,
            final(self).wf(),
    {
        self.deck.epoch = epoch;
        if let Some(s) = shown {
            let (w, h) = self.deck.size;
            self.deck.frame = Some(s);
            ctx.request(Command::RedrawRect(Rect::new(0, 0, w, h)));
        }
    }

    /// Whether the visualiser is to be advanced (about 30 times a second).
    pub fn bars_due(&mut self, now: u64) -> (r: bool)
        requires
            old(self).wf(),
            old(self).deck.last_bars <= now,
        ensures
            r == (now - old(self).deck.last_bars >= 33),
            final(self).deck == (if r { Deck { last_bars: now, ..old(self).deck } } else { old(self).deck }),
            final(self).path == old(self).path,
            final(self).playlist == old(self).playlist,
            final(self).bars == old(self).bars,
            final(self).wf(),
    {
        if now - self.deck.last_bars < 33 {
            return false;
        }
        self.deck.last_bars = now;
        true
    }

    /// Advance the visualiser to these levels; true if it changed.
    pub fn update_bars(&mut self, levels: &[u8], ctx: &mut Ctx) -> (r: bool)
        requires
            old(self).wf(),
            levels@.len() == 32,
        ensures
            final(self).bars@ == bars_after(old(self).bars@, levels@),
            r == (final(self).bars@ != old(self).bars@),
            final(ctx)@ == if r {
                old(ctx)@.with(CommandState::RedrawRect(old(self).deck.viz_rect))
            } else {
                old(ctx)@
            },
            final(self).deck == old(self).deck,
            final(self).path == old(self).path,
            final(self).playlist == old(self).playlist,
            final(self).wf(),
    {
        let changed: bool = move_bars(&mut self.bars, levels);
        if changed {
            ctx.request(Command::RedrawRect(self.deck.viz_rect));
        }
        changed
    }

    /// The last part of a tick at media time `clock`; `frames_left` says
    /// whether frames are still to be shown.
    pub fn tick_end(
        &mut self,
        r: &Report,
        frames_left: bool,
        clock: i64,
        m: &Moment,
        out: &mut Vec<Order>,
        ctx: &mut Ctx,
    )
        requires
            old(self).wf(),
            old(self).deck.before(*m),
        ensures
            ({
                let (d, o, c) = ended(
                    old(self).deck,
                    old(self).list(),
                    old(self).path@,
                    *r,
                    frames_left,
                    clock as int,
                    *m,
                    old(ctx)@,
                );
                final(self).deck == d && final(out)@ == old(out)@ + o && final(ctx)@ == c
            }),
            final(self).path == old(self).path,
            final(self).playlist == old(self).playlist,
            final(self).bars == old(self).bars,
            final(self).wf(),
    {
        let ghost d0 = self.deck;
        let len: i64 = self.deck.length();
        let pos: i64 = if clock < 0 { 0 } else { clock };
        proof {
            assert(pos == shown_position(self.deck, clock as int));
            assert(out@ =~= old(out)@ + Seq::<Order>::empty());
        }
        if pos / 250_000 != crate::arith::div_any(self.deck.position, 250_000) && self.deck.controls_alpha > 0 {
            let (w, h) = self.deck.size;
            ctx.request(Command::RedrawRect(Rect::new(0, h - 110, w, 110)));
        }
        self.deck.position = pos;
        if r.eof && r.queued == 0 && !frames_left && m.now_ms - self.deck.opened_at > 500 {
            let near: bool = len <= 0 || clock as i128 + 500_000 >= len as i128 || !self.deck.audio();
            if near {
                self.deck.ended = true;
                self.deck.paused = false;
                self.deck.position = len;
                let n: usize = self.playlist.len();
                if !self.deck.video() && n > 1 {
                    let last: bool = match super::window::place_of(&self.playlist, &self.path) {
                        Some(i) => i == n - 1,
                        None => false,
                    };
                    if !last {
                        self.step(1, out);
                    }
                }
                ctx.redraw();
            }
        }
    }
}

} // verus!
