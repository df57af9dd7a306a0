//! One frame of the desktop: animations advance, dirty windows are picked
//! for rendering, and the damaged areas are composited.

use super::super::app::{AppKind, WindowId};
use super::super::geom::Rect;
use super::super::theme::{TOPBAR_H, WINDOW_RADIUS};
use super::anim::{ease_out, eased_out, visual, visual_of, AnimKind};
use super::clock::{clock_text, format_clock, week_sum, ClockStyle};
use super::damage::{areas, merged_damage, repainted};
use super::desktop::{
    dock_app, dock_kind, Drag, Shell, Window, Wm, WmState, BOOT_FADE_MS, BOUNCE_MS, DOCK_LEN, MENU_FADE_MS,
};
use super::stack::lemma_window;
use crate::arch::rtc::DateTime;
use crate::arith::{div, max, min, tdiv};
use crate::text::{same, to_chars};
use vstd::prelude::*;

verus! {

/// How long the clock is shown before the time is read again.
pub const CLOCK_MS: u64 = 250;

/// A window after its animation advanced to `now`.
pub open spec fn stepped(w: Window, now: u64) -> Window {
    match w.anim {
        None => w,
        Some(a) => {
            let n = if a.over(now) {
                Window { anim: None, minimized: w.minimized || a.kind is Minimize, ..w }
            } else {
                w
            };
            Window { last_paint: if a.over(now) { n.rest_bounds() } else { n.bounds_at(now) }, ..n }
        },
    }
}

/// What an animating window uncovers and covers.
pub open spec fn step_damage(w: Window, now: u64) -> Rect {
    let a = w.anim->0;
    let n = if a.over(now) {
        Window { anim: None, minimized: w.minimized || a.kind is Minimize, ..w }
    } else {
        w
    };
    w.last_paint.spec_union(n.bounds_at(now))
}

/// Windows whose closing animation is over.
pub open spec fn finished(ws: Seq<Window>, now: u64) -> Seq<WindowId>
    decreases ws.len(),
{
    if ws.len() == 0 {
        Seq::empty()
    } else {
        let f = finished(ws.drop_last(), now);
        match ws.last().anim {
            Some(a) => if a.over(now) && a.kind is Close { f.push(ws.last().id) } else { f },
            None => f,
        }
    }
}

/// Windows to be rendered, with whether they have the focus.
pub open spec fn dirty(ws: Seq<Window>, focused: Option<WindowId>) -> Seq<(WindowId, bool)>
    decreases ws.len(),
{
    if ws.len() == 0 {
        Seq::empty()
    } else {
        let d = dirty(ws.drop_last(), focused);
        let w = ws.last();
        if w.needs_render { d.push((w.id, focused == Some(w.id))) } else { d }
    }
}

impl WmState {
    /// After the animations of the first `n` windows advanced.
    pub open spec fn advanced(self, n: int, now: u64) -> WmState
        decreases n,
    {
        if n <= 0 {
            self
        } else {
            let p = self.advanced(n - 1, now);
            let w = self.windows[n - 1];
            if w.anim is None { p } else { p.with_window(n - 1, stepped(w, now)).damaged(step_damage(w, now)) }
        }
    }

    /// After the first `n` windows of a list were removed.
    pub open spec fn all_removed(self, ids: Seq<WindowId>) -> WmState
        decreases ids.len(),
    {
        if ids.len() == 0 { self } else { self.all_removed(ids.drop_last()).removed(ids.last()) }
    }

    pub open spec fn bounced(self, now: u64) -> WmState {
        match self.s.dock_bounce {
            Some(b) => {
                let d = self.damaged(self.s.dock_surroundings());
                if now - b.1 > BOUNCE_MS { d.with_shell(Shell { dock_bounce: None, ..d.s }) } else { d }
            },
            None => self,
        }
    }

    pub open spec fn menu_fading(self, now: u64) -> bool {
        self.s.menu_open && now - self.s.menu_opened_at < MENU_FADE_MS + 20
    }

    pub open spec fn menu_faded(self, now: u64) -> WmState {
        if self.menu_fading(now) { self.damaged(Rect { x: -14i32, y: 12, w: 260, h: 266 }) } else { self }
    }

    pub open spec fn boot_faded(self, now: u64) -> WmState {
        if self.s.boot_at != 0 {
            let d = WmState { damage: self.damage.push(self.s.screen()), ..self };
            if now - self.s.boot_at > BOOT_FADE_MS { d.with_shell(Shell { boot_at: 0, ..d.s }) } else { d }
        } else {
            self
        }
    }

    /// After the first `n` windows were rendered where needed.
    pub open spec fn rendered(self, n: int, now: u64) -> WmState
        decreases n,
    {
        if n <= 0 {
            self
        } else {
            let p = self.rendered(n - 1, now);
            let w = self.windows[n - 1];
            if !w.needs_render {
                p
            } else {
                let q = p.with_window(n - 1, Window { needs_render: false, ..w });
                if w.minimized { q } else { q.damaged(w.bounds_at(now).spec_union(w.rest_bounds())) }
            }
        }
    }

    /// The desktop after the animations of a frame.
    pub open spec fn animated(self, now: u64) -> WmState {
        self.advanced(self.windows.len() as int, now).all_removed(finished(self.windows, now)).bounced(now).menu_faded(
            now,
        ).boot_faded(now)
    }

    pub open spec fn is_moving(self, now: u64) -> bool {
        ||| exists|i: int| 0 <= i < self.windows.len() && (#[trigger] self.windows[i]).anim is Some
        ||| self.s.dock_bounce is Some
        ||| self.menu_fading(now)
        ||| self.s.boot_at != 0 && now - self.s.boot_at < BOOT_FADE_MS + 20
    }
}

proof fn lemma_advanced_shape(st: WmState, n: int, now: u64)
    requires
        0 <= n <= st.windows.len(),
    ensures
        st.advanced(n, now).windows.len() == st.windows.len(),
        st.advanced(n, now).s == st.s,
        forall|k: int| n <= k < st.windows.len() ==> #[trigger] st.advanced(n, now).windows[k] == st.windows[k],
    decreases n,
{
    if n > 0 {
        lemma_advanced_shape(st, n - 1, now);
    }
}

proof fn lemma_rendered_shape(st: WmState, n: int, now: u64)
    requires
        0 <= n <= st.windows.len(),
    ensures
        st.rendered(n, now).windows.len() == st.windows.len(),
        st.rendered(n, now).s == st.s,
        forall|k: int| n <= k < st.windows.len() ==> #[trigger] st.rendered(n, now).windows[k] == st.windows[k],
    decreases n,
{
    if n > 0 {
        lemma_rendered_shape(st, n - 1, now);
    }
}

/// How one window is drawn.
#[derive(Clone, Copy, PartialEq, Eq, Debug, Structural)]
pub struct Draw {
    pub id: WindowId,
    pub dest: Rect,
    pub alpha: u32,
    /// Radius of its corners.
    pub radius: i32,
    /// Drawn as it is, rather than scaled and faded.
    pub at_rest: bool,
}

pub open spec fn drawn(w: Window, now: u64) -> Draw {
    let (dest, alpha) = visual_of(w.rect, w.anim, now);
    let at_rest = dest == w.rect && alpha >= 255;
    Draw {
        id: w.id,
        dest,
        alpha: alpha as u32,
        radius: if at_rest {
            if w.is_maximized() { 0 } else { WINDOW_RADIUS }
        } else {
            max(tdiv(WINDOW_RADIUS * dest.w, max(w.rect.w as int, 1)), 2) as i32
        },
        at_rest,
    }
}

/// Whether two rectangles have a point in common.
pub open spec fn meet(a: Rect, b: Rect) -> bool {
    a.x < b.x + b.w && b.x < a.x + a.w && a.y < b.y + b.h && b.y < a.y + a.h
}

/// What is drawn in an area, bottom to top.
pub open spec fn draw_list(ws: Seq<Window>, r: Rect, now: u64) -> Seq<Draw>
    decreases ws.len(),
{
    if ws.len() == 0 {
        Seq::empty()
    } else {
        let d = draw_list(ws.drop_last(), r, now);
        let w = ws.last();
        if (w.minimized && w.anim is None) || !meet(w.bounds_at(now), r) { d } else { d.push(drawn(w, now)) }
    }
}

/// Windows are drawn in stacking order and each at most once: what is
/// drawn follows the order of the stack.
pub proof fn lemma_draw_order(ws: Seq<Window>, r: Rect, now: u64)
    ensures
        draw_list(ws, r, now).len() <= ws.len(),
        forall|k: int|
            0 <= k < draw_list(ws, r, now).len() ==> exists|i: int|
                0 <= i < ws.len() && (#[trigger] draw_list(ws, r, now)[k]) == drawn(#[trigger] ws[i], now) && i >= k,
    decreases ws.len(),
{
    if ws.len() > 0 {
        let p = ws.drop_last();
        lemma_draw_order(p, r, now);
        let d = draw_list(ws, r, now);
        let e = draw_list(p, r, now);
        assert forall|k: int| 0 <= k < d.len() implies exists|i: int|
            0 <= i < ws.len() && (#[trigger] d[k]) == drawn(#[trigger] ws[i], now) && i >= k by {
            if k < e.len() {
                assert(d[k] == e[k]);
                let i = choose|i: int| 0 <= i < p.len() && e[k] == drawn(#[trigger] p[i], now) && i >= k;
                assert(ws[i] == p[i]);
                assert(d[k] == drawn(ws[i], now));
            } else {
                assert(d[k] == drawn(ws[ws.len() - 1], now));
            }
        }
    }
}

pub(super) fn rects_meet(a: &Rect, b: &Rect) -> (r: bool)
    ensures
        r == meet(*a, *b),
{
    (a.x as i64) < b.x as i64 + b.w as i64 && (b.x as i64) < a.x as i64 + a.w as i64 && (a.y as i64) < b.y as i64
        + b.h as i64 && (b.y as i64) < a.y as i64 + a.h as i64
}

impl Wm {
    /// True while anything on screen is moving (the desktop loop then
    /// renders frames back to back).
    pub fn is_animating(&self, now: u64) -> (r: bool)
        ensures
            r == self@.is_moving(now),
    {
        let mut i: usize = 0;
        while i < self.windows.len()
            invariant
                i <= self.windows@.len(),
                forall|k: int| 0 <= k < i ==> (#[trigger] self.windows@[k]).anim is None,
            decreases self.windows@.len() - i,
        {
            if self.windows[i].anim.is_some() {
                proof {
                    assert(self@.windows[i as int].anim is Some);
                }
                return true;
            }
            i += 1;
        }
        self.s.dock_bounce.is_some() || (self.s.menu_open && now.saturating_sub(self.s.menu_opened_at) < MENU_FADE_MS + 20)
            || (self.s.boot_at != 0 && now.saturating_sub(self.s.boot_at) < BOOT_FADE_MS + 20)
    }

    /// Advance the animation of window `i`.
    fn step(&mut self, i: usize, now: u64)
        requires
            old(self)@.wf(),
            i < old(self)@.windows.len(),
            old(self)@.windows[i as int].anim is Some,
        ensures
            ({
                let w = old(self)@.windows[i as int];
                final(self)@ == old(self)@.with_window(i as int, stepped(w, now)).damaged(step_damage(w, now))
            }),
            final(self)@.wf(),
    {
        proof {
            lemma_window(self@, i as int);
        }
        let w: Window = self.windows[i];
        if let Some(a) = w.anim {
            let done: bool = a.done(now);
            let leaving: bool = match a.kind {
                AnimKind::Minimize(_) => true,
                _ => false,
            };
            let n: Window = if done {
                Window { anim: None, minimized: w.minimized || leaving, ..w }
            } else {
                w
            };
            let b: Rect = n.visual_bounds(now);
            let d: Rect = w.last_paint.union(&b);
            let m: Window = Window { last_paint: if done { n.paint_bounds() } else { b }, ..n };
            self.set_window(i, m);
            self.damage(d);
        }
    }

    /// Advance all animations; returns the windows that have closed.
    fn advance(&mut self, now: u64) -> (r: Vec<WindowId>)
        requires
            old(self)@.wf(),
        ensures
            final(self)@ == old(self)@.advanced(old(self)@.windows.len() as int, now),
            r@ == finished(old(self)@.windows, now),
            final(self)@.wf(),
    {
        let ghost st = self@;
        let ghost ws = self@.windows;
        let mut closed: Vec<WindowId> = Vec::new();
        let mut i: usize = 0;
        while i < self.windows.len()
            invariant
                i <= self.windows@.len() == ws.len(),
                ws == st.windows,
                self@ == st.advanced(i as int, now),
                self@.wf(),
                closed@ == finished(ws.take(i as int), now),
            decreases self.windows@.len() - i,
        {
            proof {
                lemma_advanced_shape(st, i as int, now);
                let t = ws.take(i + 1);
                assert(t.drop_last() =~= ws.take(i as int));
                assert(t.last() == ws[i as int]);
                assert(self.windows@[i as int] == ws[i as int]);
            }
            let w: Window = self.windows[i];
            if let Some(a) = w.anim {
                let closing: bool = match a.kind {
                    AnimKind::Close => true,
                    _ => false,
                };
                if a.done(now) && closing {
                    closed.push(w.id);
                }
                self.step(i, now);
            }
            i += 1;
        }
        proof {
            assert(ws.take(ws.len() as int) =~= ws);
        }
        closed
    }

    fn remove_all(&mut self, ids: &Vec<WindowId>)
        requires
            old(self)@.wf(),
        ensures
            final(self)@ == old(self)@.all_removed(ids@),
            final(self)@.wf(),
    {
        let ghost st = self@;
        let mut i: usize = 0;
        while i < ids.len()
            invariant
                i <= ids@.len(),
                self@ == st.all_removed(ids@.take(i as int)),
                self@.wf(),
            decreases ids@.len() - i,
        {
            proof {
                let t = ids@.take(i + 1);
                assert(t.drop_last() =~= ids@.take(i as int));
                assert(t.last() == ids@[i as int]);
            }
            self.remove_window(ids[i]);
            i += 1;
        }
        proof {
            assert(ids@.take(ids@.len() as int) =~= ids@);
        }
    }

    fn bounce(&mut self, now: u64)
        requires
            old(self)@.wf(),
        ensures
            final(self)@ == old(self)@.bounced(now),
            final(self)@.wf(),
    {
        if let Some((_, start)) = self.s.dock_bounce {
            let d: Rect = self.s.dock_damage_rect();
            self.damage(d);
            if now.saturating_sub(start) > BOUNCE_MS {
                self.s.dock_bounce = None;
            }
        }
    }

    fn fade_menu(&mut self, now: u64)
        requires
            old(self)@.wf(),
        ensures
            final(self)@ == old(self)@.menu_faded(now),
            final(self)@.wf(),
    {
        if self.s.menu_open && now.saturating_sub(self.s.menu_opened_at) < MENU_FADE_MS + 20 {
            self.damage(Rect::new(-14, 12, 260, 266));
        }
    }

    fn fade_boot(&mut self, now: u64)
        requires
            old(self)@.wf(),
        ensures
            final(self)@ == old(self)@.boot_faded(now),
            final(self)@.wf(),
    {
        if self.s.boot_at != 0 {
            self.damage_all();
            if now.saturating_sub(self.s.boot_at) > BOOT_FADE_MS {
                self.s.boot_at = 0;
            }
        }
    }

    /// The animations of a frame.
    pub fn animate_frame(&mut self, now: u64)
        requires
            old(self)@.wf(),
        ensures
            final(self)@ == old(self)@.animated(now),
            final(self)@.wf(),
    {
        let closed: Vec<WindowId> = self.advance(now);
        self.remove_all(&closed);
        self.bounce(now);
        self.fade_menu(now);
        self.fade_boot(now);
    }

    /// The windows whose contents have to be drawn anew.
    pub fn take_dirty(&mut self, now: u64) -> (r: Vec<(WindowId, bool)>)
        requires
            old(self)@.wf(),
        ensures
            final(self)@ == old(self)@.rendered(old(self)@.windows.len() as int, now),
            r@ == dirty(old(self)@.windows, old(self)@.s.focused),
            final(self)@.wf(),
    {
        let ghost st = self@;
        let ghost ws = self@.windows;
        let focused: Option<WindowId> = self.s.focused;
        let mut out: Vec<(WindowId, bool)> = Vec::new();
        let mut i: usize = 0;
        while i < self.windows.len()
            invariant
                i <= self.windows@.len() == ws.len(),
                ws == st.windows,
                focused == st.s.focused,
                self@ == st.rendered(i as int, now),
                self@.wf(),
                out@ == dirty(ws.take(i as int), focused),
            decreases self.windows@.len() - i,
        {
            proof {
                lemma_rendered_shape(st, i as int, now);
                lemma_window(self@, i as int);
                let t = ws.take(i + 1);
                assert(t.drop_last() =~= ws.take(i as int));
                assert(t.last() == ws[i as int]);
                assert(self.windows@[i as int] == ws[i as int]);
            }
            let w: Window = self.windows[i];
            if w.needs_render {
                out.push((w.id, focused == Some(w.id)));
                let n: Window = Window { needs_render: false, ..w };
                self.set_window(i, n);
                if !w.minimized {
                    let b: Rect = w.visual_bounds(now).union(&w.paint_bounds());
                    self.damage(b);
                }
            }
            i += 1;
        }
        proof {
            assert(ws.take(ws.len() as int) =~= ws);
        }
        out
    }

    /// Whether the pointer has to be moved on the display.
    pub fn take_cursor(&mut self) -> (r: Option<(i32, i32)>)
        ensures
            r == if old(self)@.s.cursor_dirty { Some(old(self)@.s.pointer) } else { None },
            final(self)@ == old(self)@.with_shell(Shell { cursor_dirty: false, ..old(self)@.s }),
    {
        let r: Option<(i32, i32)> = if self.s.cursor_dirty { Some(self.s.pointer) } else { None };
        self.s.cursor_dirty = false;
        r
    }

    /// The areas to repaint; nothing stays damaged.
    pub fn take_damage(&mut self) -> (r: Vec<Rect>)
        requires
            old(self)@.wf(),
        ensures
            r@ == repainted(old(self)@.damage),
            areas(r@),
            final(self)@ == (WmState { damage: Seq::empty(), ..old(self)@ }),
            final(self)@.wf(),
    {
        let mut d: Vec<Rect> = Vec::new();
        std::mem::swap(&mut d, &mut self.damage);
        merged_damage(d)
    }

    pub(super) fn drawing(w: &Window, now: u64) -> (r: Draw)
        requires
            w.wf(),
        ensures
            r == drawn(*w, now),
    {
        let (dest, alpha): (Rect, u32) = visual(w.rect, w.anim, now);
        let at_rest: bool = dest == w.rect && alpha >= 255;
        let radius: i32 = if at_rest {
            w.radius()
        } else {
            let d: i64 = if w.rect.w >= 1 { w.rect.w as i64 } else { 1 };
            let q: i64 = div(WINDOW_RADIUS as i64 * dest.w as i64, d);
            proof {
                crate::arith::lemma_tdiv_bounds(WINDOW_RADIUS * dest.w, d as int);
            }
            if q >= 2 { q as i32 } else { 2 }
        };
        Draw { id: w.id, dest, alpha, radius, at_rest }
    }

    /// What to draw in an area, bottom to top.
    pub fn paint_order(&self, r: Rect, now: u64) -> (o: Vec<Draw>)
        requires
            self@.wf(),
        ensures
            o@ == draw_list(self@.windows, r, now),
    {
        let ghost ws = self@.windows;
        let mut out: Vec<Draw> = Vec::new();
        let mut i: usize = 0;
        while i < self.windows.len()
            invariant
                i <= self.windows@.len(),
                ws == self.windows@,
                self@.wf(),
                out@ == draw_list(ws.take(i as int), r, now),
            decreases self.windows@.len() - i,
        {
            proof {
                lemma_window(self@, i as int);
                let t = ws.take(i + 1);
                assert(t.drop_last() =~= ws.take(i as int));
                assert(t.last() == ws[i as int]);
            }
            let w: Window = self.windows[i];
            if !(w.minimized && w.anim.is_none()) && rects_meet(&w.visual_bounds(now), &r) {
                out.push(Wm::drawing(&w, now));
            }
            i += 1;
        }
        proof {
            assert(ws.take(ws.len() as int) =~= ws);
        }
        out
    }

    /// Opacity of the menu while it fades in.
    pub fn menu_alpha(&self, now: u64) -> (r: u32)
        ensures
            r == if self@.s.menu_opened_at == 0 {
                255
            } else {
                min(max(now - self@.s.menu_opened_at, 0) * 255 / MENU_FADE_MS as int, 255)
            },
    {
        if self.s.menu_opened_at == 0 {
            return 255;
        }
        let e: u64 = now.saturating_sub(self.s.menu_opened_at);
        if e >= MENU_FADE_MS { 255 } else { (e * 255 / MENU_FADE_MS) as u32 }
    }

    /// Opacity of the black that covers the screen while it fades in
    /// after start-up.
    pub fn boot_alpha(&self, now: u64) -> (r: u32)
        ensures
            r == if self@.s.boot_at == 0 {
                0
            } else {
                255 - eased_out(min(max(now - self@.s.boot_at, 0) * 1024 / BOOT_FADE_MS as int, 1024)) * 255 / 1024
            },
            r <= 255,
    {
        if self.s.boot_at == 0 {
            return 0;
        }
        let e: u64 = now.saturating_sub(self.s.boot_at);
        let p: i64 = if e >= BOOT_FADE_MS { 1024 } else { (e * 1024 / BOOT_FADE_MS) as i64 };
        let q: i64 = ease_out(p);
        (255 - q * 255 / 1024) as u32
    }

    /// Whether an app has a window that is not closing (its dock entry
    /// then shows a dot).
    pub fn is_running(&self, kind: AppKind) -> (r: bool)
        ensures
            r == exists|i: int|
                0 <= i < self@.windows.len() && (#[trigger] self@.windows[i]).kind == kind && !self@.windows[i].closing,
    {
        let mut i: usize = 0;
        while i < self.windows.len()
            invariant
                i <= self.windows@.len(),
                forall|k: int| 0 <= k < i ==> (#[trigger] self.windows@[k]).kind != kind || self.windows@[k].closing,
            decreases self.windows@.len() - i,
        {
            let w: Window = self.windows[i];
            if w.kind == kind && !w.closing {
                proof {
                    assert(self@.windows[i as int].kind == kind);
                }
                return true;
            }
            i += 1;
        }
        false
    }

    /// How far each dock icon is lifted: under the pointer, or hopping.
    pub fn lifts(&self, now: u64) -> (r: Vec<i32>)
        ensures
            r@.len() == DOCK_LEN,
            forall|i: int|
                0 <= i < DOCK_LEN ==> #[trigger] r@[i] == (if self@.s.dock_hover == Some(i as usize) { 4int } else { 0 })
                    + self@.s.hop(dock_app(i), now),
    {
        let mut out: Vec<i32> = Vec::new();
        let mut i: usize = 0;
        while i < DOCK_LEN
            invariant
                i <= DOCK_LEN,
                out@.len() == i,
                forall|k: int|
                    0 <= k < i ==> #[trigger] out@[k] == (if self@.s.dock_hover == Some(k as usize) { 4int } else { 0 })
                        + self@.s.hop(dock_app(k), now),
            decreases DOCK_LEN - i,
        {
            let hop: i32 = self.s.bounce_offset(dock_kind(i), now);
            let lift: i32 = if self.s.dock_hover == Some(i) { 4 } else { 0 };
            out.push(lift + hop);
            i += 1;
        }
        out
    }

    /// The settings changed: a new wallpaper repaints the screen, a new
    /// accent colour all windows too.
    pub fn settings_changed(&mut self, wallpaper: bool, accent: bool)
        requires
            old(self)@.wf(),
        ensures
            final(self)@.wf(),
            final(self)@.s == old(self)@.s,
            final(self)@.out == old(self)@.out,
            final(self)@.windows == Seq::new(
                old(self)@.windows.len(),
                |i: int|
                    Window {
                        needs_render: old(self)@.windows[i].needs_render || accent,
                        ..old(self)@.windows[i]
                    },
            ),
            final(self)@.damage == old(self)@.damage + (if wallpaper {
                seq![old(self)@.s.screen()]
            } else {
                Seq::empty()
            }) + (if accent { seq![old(self)@.s.screen()] } else { Seq::empty() }),
    {
        let ghost st = self@;
        let ghost f = |i: int| Window { needs_render: st.windows[i].needs_render || accent, ..st.windows[i] };
        if wallpaper {
            self.damage_all();
        }
        let ghost d1 = self@.damage;
        if accent {
            let mut i: usize = 0;
            while i < self.windows.len()
                invariant
                    i <= self.windows@.len() == st.windows.len(),
                    self@.wf(),
                    accent,
                    self@.s == st.s,
                    self@.out == st.out,
                    self@.damage == d1,
                    forall|k: int|
                        0 <= k < i ==> #[trigger] self.windows@[k] == (Window { needs_render: true, ..st.windows[k] }),
                    forall|k: int| i <= k < st.windows.len() ==> #[trigger] self.windows@[k] == st.windows[k],
                decreases self.windows@.len() - i,
            {
                proof {
                    lemma_window(self@, i as int);
                }
                let n: Window = Window { needs_render: true, ..self.windows[i] };
                self.set_window(i, n);
                i += 1;
            }
            self.damage_all();
        }
        proof {
            assert(self@.windows =~= Seq::new(
                st.windows.len(),
                |i: int| Window { needs_render: st.windows[i].needs_render || accent, ..st.windows[i] },
            ));
        }
    }
}

/// The clock in the top bar as it is shown, and when it was last looked at.
/// Reading the time is slow; a few times a second is plenty.
pub struct ClockFace {
    pub text: Vec<char>,
    pub checked: u64,
}

/// The part of the top bar that the clock is in.
pub open spec fn clock_area(width: i32) -> Rect {
    Rect { x: (width - 300) as i32, y: 0, w: 300, h: TOPBAR_H }
}

impl ClockFace {
    /// Whether the time has to be read again.
    pub open spec fn due(self, now: u64) -> bool {
        now - self.checked >= CLOCK_MS || self.text@.len() == 0
    }

    pub fn new() -> (r: ClockFace)
        ensures
            r.text@.len() == 0,
            r.checked == 0,
    {
        ClockFace { text: Vec::new(), checked: 0 }
    }

    /// Whether the time has to be read again.
    pub fn is_due(&self, now: u64) -> (r: bool)
        ensures
            r == self.due(now),
    {
        now.saturating_sub(self.checked) >= CLOCK_MS || self.text.len() == 0
    }

    /// The settings changed: the clock may look different now.
    pub fn clear(&mut self)
        ensures
            final(self).text@.len() == 0,
            final(self).checked == old(self).checked,
            final(self).due(0),
    {
        self.text = Vec::new();
    }
}

impl Wm {
    /// The time was read: where the clock changes, its part of the top bar is
    /// repainted.
    pub fn update_clock(&mut self, face: &mut ClockFace, t: &DateTime, style: &ClockStyle, now: u64) -> (r: bool)
        requires
            old(self)@.wf(),
            week_sum(t.year as int, t.month as int, t.day as int) >= 0,
        ensures
            r == (clock_text(*t, *style) != old(face).text@),
            final(face).text@ == clock_text(*t, *style),
            final(face).checked == now,
            final(self)@ == if r { old(self)@.damaged(clock_area(old(self)@.s.width)) } else { old(self)@ },
            final(self)@.wf(),
    {
        let text: Vec<char> = to_chars(format_clock(t, style).as_str());
        face.checked = now;
        if same(&text, &face.text) {
            return false;
        }
        face.text = text;
        self.damage(Rect::new(self.s.width - 300, 0, 300, TOPBAR_H));
        true
    }

    /// Whether the dock's drop shadow has to be built anew.
    pub fn dock_shadow_stale(&self, shadow: Option<(i32, i32)>) -> (r: bool)
        requires
            self@.wf(),
        ensures
            r == (shadow != Some((self@.s.dock_area().w, self@.s.dock_area().h))),
    {
        let d: Rect = self.s.dock_rect();
        match shadow {
            Some((w, h)) => w != d.w || h != d.h,
            None => true,
        }
    }
}

/// Arcs next to the loudspeaker in the top bar: none when muted.
pub fn volume_arcs(volume: u8, muted: bool) -> (r: u8)
    ensures
        r == if muted || volume == 0 {
            0int
        } else if volume > 66 {
            3
        } else if volume > 33 {
            2
        } else {
            1
        },
{
    if muted || volume == 0 {
        0
    } else if volume > 66 {
        3
    } else if volume > 33 {
        2
    } else {
        1
    }
}

/// Whether a window's drop shadow has to be built anew. While a window is
/// being resized its old shadow is stretched instead.
pub fn shadow_stale(w: &Window, shadow: Option<(i32, i32)>, drag: Option<Drag>) -> (r: bool)
    ensures
        r == ({
            let same = shadow == Some((w.rect.w, w.rect.h));
            let resizing = drag matches Some(d) && d is Resize;
            !same && !w.is_maximized() && !(resizing && shadow is Some)
        }),
{
    let same: bool = match shadow {
        Some((sw, sh)) => sw == w.rect.w && sh == w.rect.h,
        None => false,
    };
    let resizing: bool = match drag {
        Some(Drag::Resize { id, right, bottom, left, start, px, py }) => true,
        _ => false,
    };
    !same && !w.maximized() && !(resizing && shadow.is_some())
}

/// How long the desktop sleeps after a frame: about 60 frames a second
/// while something moves, otherwise it idles politely.
pub fn frame_sleep(animating: bool, spent_ms: u64) -> (r: u64)
    ensures
        r == if animating { max(16 - spent_ms, 1) } else { 10 },
{
    if animating {
        let left: u64 = 16u64.saturating_sub(spent_ms);
        if left >= 1 { left } else { 1 }
    } else {
        10
    }
}

/// A frame leaves no animation that is over.
pub proof fn lemma_no_stale_animation(st: WmState, now: u64, i: int)
    requires
        0 <= i < st.windows.len(),
    ensures
        st.advanced(st.windows.len() as int, now).windows[i].anim matches Some(a) ==> !a.over(now),
{
    lemma_advanced_window(st, st.windows.len() as int, now, i);
}

proof fn lemma_advanced_window(st: WmState, n: int, now: u64, i: int)
    requires
        0 <= i < n <= st.windows.len(),
    ensures
        st.advanced(n, now).windows.len() == st.windows.len(),
        st.advanced(n, now).windows[i] == stepped(st.windows[i], now),
    decreases n,
{
    lemma_advanced_shape(st, n - 1, now);
    lemma_advanced_shape(st, n, now);
    if i < n - 1 {
        lemma_advanced_window(st, n - 1, now, i);
    }
}

/// Every window that is seen in an area is drawn there: one that is not put
/// away and has a point in common with it. The topmost is drawn last.
pub proof fn lemma_seen_is_drawn(ws: Seq<Window>, r: Rect, now: u64, i: int, x: int, y: int)
    requires
        0 <= i < ws.len(),
        !ws[i].minimized || ws[i].anim is Some,
        r.spec_contains(x, y),
        ws[i].bounds_at(now).spec_contains(x, y),
    ensures
        draw_list(ws, r, now).contains(drawn(ws[i], now)),
        i == ws.len() - 1 ==> draw_list(ws, r, now).last() == drawn(ws[i], now),
    decreases ws.len(),
{
    let d = draw_list(ws, r, now);
    let p = ws.drop_last();
    let e = draw_list(p, r, now);
    if i == ws.len() - 1 {
        assert(meet(ws[i].bounds_at(now), r));
        assert(d[d.len() - 1] == drawn(ws[i], now));
    } else {
        assert(p[i] == ws[i]);
        lemma_seen_is_drawn(p, r, now, i, x, y);
        let k = choose|k: int| 0 <= k < e.len() && e[k] == drawn(ws[i], now);
        assert(d[k] == e[k]);
    }
}

/// A window that is put away is not drawn; one that stands still is drawn
/// in its place, and opaque.
pub proof fn lemma_still_windows(w: Window, r: Rect, now: u64)
    requires
        w.anim is None,
    ensures
        w.minimized ==> draw_list(seq![w], r, now).len() == 0,
        drawn(w, now).dest == w.rect,
        drawn(w, now).alpha == 255,
        drawn(w, now).at_rest,
        drawn(w, now).id == w.id,
        stepped(w, now) == w,
{
    assert(seq![w].drop_last() =~= Seq::<Window>::empty());
    assert(draw_list(seq![w].drop_last(), r, now).len() == 0);
}

/// Windows go when they have closed, and only then.
pub proof fn lemma_closed_go(ws: Seq<Window>, now: u64, id: WindowId)
    ensures
        finished(ws, now).contains(id) <==> exists|i: int|
            0 <= i < ws.len() && (#[trigger] ws[i]).id == id && (ws[i].anim matches Some(a) && a.over(now) && a.kind
                is Close),
    decreases ws.len(),
{
    if ws.len() == 0 {
        assert(!finished(ws, now).contains(id));
    } else {
        let p = ws.drop_last();
        let f = finished(p, now);
        let g = finished(ws, now);
        lemma_closed_go(p, now, id);
        if g.contains(id) {
            let k = choose|k: int| 0 <= k < g.len() && g[k] == id;
            if k < f.len() {
                assert(f[k] == id);
                assert(f.contains(id));
                let i = choose|i: int|
                    0 <= i < p.len() && (#[trigger] p[i]).id == id && (p[i].anim matches Some(a) && a.over(now) && a.kind
                        is Close);
                assert(ws[i] == p[i]);
            } else {
                assert(ws[ws.len() - 1].id == id);
            }
        }
        if exists|i: int|
            0 <= i < ws.len() && (#[trigger] ws[i]).id == id && (ws[i].anim matches Some(a) && a.over(now) && a.kind is Close) {
            let i = choose|i: int|
                0 <= i < ws.len() && (#[trigger] ws[i]).id == id && (ws[i].anim matches Some(a) && a.over(now) && a.kind
                    is Close);
            if i < p.len() {
                assert(p[i] == ws[i]);
                assert(f.contains(id));
                let k = choose|k: int| 0 <= k < f.len() && f[k] == id;
                assert(g[k] == id);
            } else {
                assert(g[g.len() - 1] == id);
            }
        }
    }
}

/// The windows whose content changed are rendered, each told whether it has
/// the focus, and no others.
pub proof fn lemma_changed_are_rendered(ws: Seq<Window>, focused: Option<WindowId>, i: int, id: WindowId, on: bool)
    requires
        0 <= i < ws.len(),
    ensures
        ws[i].needs_render ==> dirty(ws, focused).contains((ws[i].id, focused == Some(ws[i].id))),
        dirty(ws, focused).contains((id, on)) ==> on == (focused == Some(id)) && exists|k: int|
            0 <= k < ws.len() && (#[trigger] ws[k]).id == id && ws[k].needs_render,
    decreases ws.len(),
{
    let p = ws.drop_last();
    let d = dirty(p, focused);
    let e = dirty(ws, focused);
    if ws[i].needs_render {
        let x = (ws[i].id, focused == Some(ws[i].id));
        if i == ws.len() - 1 {
            assert(e[e.len() - 1] == x);
        } else {
            assert(p[i] == ws[i]);
            lemma_changed_are_rendered(p, focused, i, id, on);
            let k = choose|k: int| 0 <= k < d.len() && d[k] == x;
            assert(e[k] == x);
        }
    }
    if e.contains((id, on)) {
        let k = choose|k: int| 0 <= k < e.len() && e[k] == (id, on);
        if k < d.len() {
            assert(d[k] == (id, on));
            assert(d.contains((id, on)));
            assert(p.len() > 0);
            lemma_changed_are_rendered(p, focused, 0, id, on);
            let j = choose|j: int| 0 <= j < p.len() && (#[trigger] p[j]).id == id && p[j].needs_render;
            assert(ws[j] == p[j]);
        } else {
            assert(ws[ws.len() - 1].id == id);
        }
    }
}

/// Once rendered, nothing is left to render; nothing else about a window
/// changes.
pub proof fn lemma_all_rendered(st: WmState, n: int, now: u64, i: int)
    requires
        0 <= i < n <= st.windows.len(),
    ensures
        !st.rendered(n, now).windows[i].needs_render,
        st.rendered(n, now).windows[i] == (Window { needs_render: false, ..st.windows[i] }),
    decreases n,
{
    lemma_rendered_shape(st, n - 1, now);
    if i < n - 1 {
        lemma_all_rendered(st, n - 1, now, i);
    }
}

} // verus!
