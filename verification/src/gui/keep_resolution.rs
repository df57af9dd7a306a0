//! "Keep this resolution?" with a countdown: if the new mode is unusable
//! (for example it doesn't fit the screen) the old one comes back by itself.

use crate::gui::app::AppEvent;
use crate::gui::geom::Area;
use crate::input::Key;
use crate::text::{dec, push_dec, push_str, to_chars};
use vstd::prelude::*;

verus! {

pub const TIMEOUT_MS: u64 = 15_000;

/// What became of the new resolution.
#[derive(Clone, Copy, PartialEq, Eq, Debug, Structural)]
pub enum Verdict {
    Nothing,
    Redraw,
    /// Keep this resolution from now on, and close the window.
    Keep(u32, u32),
    /// Go back to this resolution, and close the window.
    Revert(u32, u32),
}

#[derive(Clone, Copy)]
pub struct KeepResolution {
    pub before: (u32, u32),
    pub new: (u32, u32),
    pub started: u64,
    pub last_secs: u64,
    pub hover: Option<u8>,
    pub done: bool,
}

impl KeepResolution {
    pub open spec fn keep_area() -> Area {
        Area { x: 300, y: 96, w: 104, h: 32 }
    }

    pub open spec fn revert_area() -> Area {
        Area { x: 186, y: 96, w: 104, h: 32 }
    }

    pub open spec fn kept(self) -> (KeepResolution, Verdict) {
        if self.done {
            (self, Verdict::Nothing)
        } else {
            (KeepResolution { done: true, ..self }, Verdict::Keep(self.new.0, self.new.1))
        }
    }

    pub open spec fn reverted(self) -> (KeepResolution, Verdict) {
        if self.done {
            (self, Verdict::Nothing)
        } else {
            (KeepResolution { done: true, ..self }, Verdict::Revert(self.before.0, self.before.1))
        }
    }

    pub open spec fn button_at(x: int, y: int) -> Option<u8> {
        if Self::revert_area().spec_has(x, y) {
            Some(0)
        } else if Self::keep_area().spec_has(x, y) {
            Some(1)
        } else {
            None
        }
    }

    pub open spec fn after(self, ev: AppEvent) -> (KeepResolution, Verdict) {
        match ev {
            AppEvent::MouseMove { x, y, .. } => {
                let h = Self::button_at(x as int, y as int);
                (
                    KeepResolution { hover: h, ..self },
                    if h != self.hover { Verdict::Redraw } else { Verdict::Nothing },
                )
            },
            AppEvent::MouseDown { x, y, .. } => if Self::keep_area().spec_has(x as int, y as int) {
                self.kept()
            } else if Self::revert_area().spec_has(x as int, y as int) {
                self.reverted()
            } else {
                (self, Verdict::Nothing)
            },
            AppEvent::Key(k) => if !k.pressed {
                (self, Verdict::Nothing)
            } else {
                match k.key {
                    Key::Enter => self.kept(),
                    Key::Escape => self.reverted(),
                    _ => (self, Verdict::Nothing),
                }
            },
            _ => (self, Verdict::Nothing),
        }
    }

    pub open spec fn ticked(self, now: u64) -> (KeepResolution, Verdict) {
        let elapsed = now - self.started;
        if elapsed >= TIMEOUT_MS {
            self.reverted()
        } else if elapsed / 1000 != self.last_secs {
            (KeepResolution { last_secs: (elapsed / 1000) as u64, ..self }, Verdict::Redraw)
        } else {
            (self, Verdict::Nothing)
        }
    }

    pub fn new(before: (u32, u32), new: (u32, u32), now: u64) -> (r: KeepResolution)
        ensures
            r == (KeepResolution { before, new, started: now, last_secs: 99, hover: None, done: false }),
    {
        KeepResolution { before, new, started: now, last_secs: 99, hover: None, done: false }
    }

    fn keep_rect() -> (r: Area)
        ensures
            r == Self::keep_area(),
            r.small(),
    {
        Area { x: 300, y: 96, w: 104, h: 32 }
    }

    fn revert_rect() -> (r: Area)
        ensures
            r == Self::revert_area(),
            r.small(),
    {
        Area { x: 186, y: 96, w: 104, h: 32 }
    }

    pub fn keep(&mut self) -> (r: Verdict)
        ensures
            (*final(self), r) == old(self).kept(),
    {
        if self.done {
            return Verdict::Nothing;
        }
        self.done = true;
        Verdict::Keep(self.new.0, self.new.1)
    }

    pub fn revert(&mut self) -> (r: Verdict)
        ensures
            (*final(self), r) == old(self).reverted(),
    {
        if self.done {
            return Verdict::Nothing;
        }
        self.done = true;
        Verdict::Revert(self.before.0, self.before.1)
    }

    pub fn event(&mut self, ev: &AppEvent) -> (r: Verdict)
        ensures
            (*final(self), r) == old(self).after(*ev),
    {
        match ev {
            AppEvent::MouseMove { x, y, .. } => {
                let h: Option<u8> = if Self::revert_rect().has(*x, *y) {
                    Some(0)
                } else if Self::keep_rect().has(*x, *y) {
                    Some(1)
                } else {
                    None
                };
                let changed: bool = h != self.hover;
                self.hover = h;
                if changed { Verdict::Redraw } else { Verdict::Nothing }
            },
            AppEvent::MouseDown { x, y, .. } => {
                if Self::keep_rect().has(*x, *y) {
                    self.keep()
                } else if Self::revert_rect().has(*x, *y) {
                    self.revert()
                } else {
                    Verdict::Nothing
                }
            },
            AppEvent::Key(k) => {
                if !k.pressed {
                    return Verdict::Nothing;
                }
                match k.key {
                    Key::Enter => self.keep(),
                    Key::Escape => self.revert(),
                    _ => Verdict::Nothing,
                }
            },
            _ => Verdict::Nothing,
        }
    }

    pub fn tick(&mut self, now: u64) -> (r: Verdict)
        requires
            old(self).started <= now,
        ensures
            (*final(self), r) == old(self).ticked(now),
    {
        let elapsed: u64 = now - self.started;
        if elapsed >= TIMEOUT_MS {
            return self.revert();
        }
        let secs: u64 = elapsed / 1000;
        if secs != self.last_secs {
            self.last_secs = secs;
            return Verdict::Redraw;
        }
        Verdict::Nothing
    }

    /// "Keep 1280 x 720?"
    pub fn question(&self) -> (r: Vec<char>)
        ensures
            r@ == "Keep "@ + dec(self.new.0 as nat) + " \u{00d7} "@ + dec(self.new.1 as nat) + "?"@,
    {
        let mut out: Vec<char> = to_chars("Keep ");
        push_dec(&mut out, self.new.0 as u64);
        push_str(&mut out, " \u{00d7} ");
        push_dec(&mut out, self.new.1 as u64);
        push_str(&mut out, "?");
        out
    }

    /// "Going back to 1024 x 768 in 12 s."
    pub fn countdown(&self, now: u64) -> (r: Vec<char>)
        requires
            self.started <= now,
        ensures
            r@ == "Going back to "@ + dec(self.before.0 as nat) + " \u{00d7} "@ + dec(self.before.1 as nat) + " in "@
                + dec(self.seconds_left(now) as nat) + " s."@,
    {
        let gone: u64 = now - self.started;
        let left: u64 = if gone < TIMEOUT_MS { TIMEOUT_MS - gone } else { 0 };
        let mut out: Vec<char> = to_chars("Going back to ");
        push_dec(&mut out, self.before.0 as u64);
        push_str(&mut out, " \u{00d7} ");
        push_dec(&mut out, self.before.1 as u64);
        push_str(&mut out, " in ");
        push_dec(&mut out, left / 1000 + 1);
        push_str(&mut out, " s.");
        out
    }

    pub open spec fn seconds_left(self, now: u64) -> int {
        let gone = now - self.started;
        (if gone < TIMEOUT_MS { TIMEOUT_MS - gone } else { 0 }) / 1000 + 1
    }
}

/// A resolution is kept or given up once, whatever happens later.
pub proof fn lemma_decided_once(k: KeepResolution, ev: AppEvent, now: u64)
    requires
        k.done,
        k.started <= now,
    ensures
        !(k.after(ev).1 is Keep),
        !(k.after(ev).1 is Revert),
        !(k.ticked(now).1 is Keep),
        !(k.ticked(now).1 is Revert),
        k.after(ev).0.done,
        k.ticked(now).0.done,
{
}

/// Without an answer the old resolution comes back in time.
pub proof fn lemma_comes_back(k: KeepResolution, now: u64)
    requires
        !k.done,
        now >= k.started + TIMEOUT_MS,
    ensures
        k.ticked(now).1 == Verdict::Revert(k.before.0, k.before.1),
{
}

/// What is kept is the new resolution, and what is gone back to is the one
/// before; without a word it is gone back to when the time is over, and not
/// sooner.
pub proof fn lemma_kept_or_back(k: KeepResolution, ev: AppEvent, now: u64)
    requires
        !k.done,
        k.started <= now,
    ensures
        k.after(ev).1 matches Verdict::Keep(w, h) ==> (w, h) == k.new,
        k.after(ev).1 matches Verdict::Revert(w, h) ==> (w, h) == k.before,
        k.ticked(now).1 is Revert <==> now - k.started >= TIMEOUT_MS,
        k.ticked(now).1 matches Verdict::Revert(w, h) ==> (w, h) == k.before,
        !(k.ticked(now).1 is Keep),
        k.after(ev).1 is Keep || k.after(ev).1 is Revert <==> k.after(ev).0.done,
        ev matches AppEvent::Key(e) ==> (e.pressed ==> (e.key == Key::Enter ==> k.after(ev).1 is Keep) && (e.key
            == Key::Escape ==> k.after(ev).1 is Revert)),
        ev matches AppEvent::MouseDown { x, y, .. } ==> (KeepResolution::keep_area().spec_has(x as int, y as int)
            <==> k.after(ev).1 is Keep) && (KeepResolution::revert_area().spec_has(x as int, y as int) <==> k.after(
            ev,
        ).1 is Revert),
{
}

} // verus!
