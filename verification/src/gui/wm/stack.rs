//! Life of windows: opening, focus, stacking, minimising, maximising,
//! closing, and what each of these damages.

use super::super::app::{AppEvent, AppKind, WindowId};
use super::super::geom::Rect;
use super::super::theme::{TITLEBAR_H, TOPBAR_H};
use super::anim::{shadow_bounds, shadowed, small, small_rect, AnimKind, CLOSE_MS, MINIMIZE_MS, MORPH_MS, OPEN_MS};
use super::damage::{area, areas};
use super::desktop::{dock_slot, find, find_from, top_visible, Action, Shell, Window, Wm, WmState};
use crate::arith::{clamp, clamp_i64, div, max, max_i64, min, min_i64, tdiv};
use vstd::prelude::*;

verus! {

/// What the window manager asks of an app before it opens its window.
#[derive(Clone, Copy)]
pub struct OpenInfo {
    pub kind: AppKind,
    pub resizable: bool,
    pub min_w: i32,
    pub min_h: i32,
    /// Initial size of the client area.
    pub w: i32,
    pub h: i32,
}

impl OpenInfo {
    pub open spec fn wf(self) -> bool {
        small(self.min_w as int) && small(self.min_h as int) && 0 <= self.w && small(self.w as int) && 0 <= self.h && small(
            self.h as int,
        )
    }
}

/// No two windows have the same number.
pub open spec fn unique(ws: Seq<Window>) -> bool {
    forall|i: int, j: int| 0 <= i < j < ws.len() ==> (#[trigger] ws[i]).id != (#[trigger] ws[j]).id
}

/// The windows of a desktop: sound, with numbers of their own below the
/// next one to be given.
#[verifier::opaque]
pub open spec fn stack_wf(ws: Seq<Window>, next_id: WindowId) -> bool {
    &&& unique(ws)
    &&& (forall|i: int| 0 <= i < ws.len() ==> (#[trigger] ws[i]).wf())
    &&& (forall|i: int| 0 <= i < ws.len() ==> (#[trigger] ws[i]).id < next_id)
}

pub proof fn lemma_window(st: WmState, i: int)
    requires
        st.wf(),
        0 <= i < st.windows.len(),
    ensures
        st.windows[i].wf(),
        st.windows[i].id < st.s.next_id,
{
    reveal(stack_wf);
}

/// Windows of an app that are not closing, bottom to top.
pub open spec fn existing(ws: Seq<Window>, kind: AppKind) -> Seq<WindowId>
    decreases ws.len(),
{
    if ws.len() == 0 {
        Seq::empty()
    } else {
        let e = existing(ws.drop_last(), kind);
        if ws.last().kind == kind && !ws.last().closing { e.push(ws.last().id) } else { e }
    }
}

impl WmState {
    pub open spec fn wf(self) -> bool {
        &&& self.s.wf()
        &&& stack_wf(self.windows, self.s.next_id)
        &&& areas(self.damage)
    }

    /// With part of the screen to be repainted.
    pub open spec fn damaged(self, r: Rect) -> WmState {
        let c = self.s.screen().spec_intersect(r);
        if c.spec_is_empty() { self } else { WmState { damage: self.damage.push(c), ..self } }
    }

    pub open spec fn delivered(self, id: WindowId, ev: AppEvent) -> WmState {
        WmState { out: self.out.push(Action::Deliver(id, ev)), ..self }
    }

    pub open spec fn with_window(self, i: int, w: Window) -> WmState {
        WmState { windows: self.windows.update(i, w), ..self }
    }

    pub open spec fn with_shell(self, s: Shell) -> WmState {
        WmState { s, ..self }
    }

    /// With window `i` on top.
    pub open spec fn raised(self, i: int) -> WmState {
        if i + 1 == self.windows.len() {
            self
        } else {
            let d = self.damaged(self.windows[i].rest_bounds());
            WmState { windows: self.windows.remove(i).push(self.windows[i]), ..d }
        }
    }

    pub open spec fn index(self, id: Option<WindowId>) -> Option<int> {
        match id {
            Some(i) => find(self.windows, i),
            None => None,
        }
    }

    /// Window `i` told that it has gained or lost the focus.
    pub open spec fn told_focus(self, i: int, on: bool) -> WmState {
        let w = self.windows[i];
        self.delivered(w.id, AppEvent::Focus(on)).with_window(i, Window { needs_render: true, ..w })
    }

    /// With the focus on a window, or on none.
    pub open spec fn focus_on(self, id: Option<WindowId>) -> WmState {
        if self.s.focused == id {
            match self.index(id) {
                Some(i) => self.raised(i),
                None => self,
            }
        } else {
            let a = match self.index(self.s.focused) {
                Some(i) => self.told_focus(i, false),
                None => self,
            };
            let b = a.with_shell(Shell { focused: id, ..a.s });
            let c = match b.index(id) {
                Some(i) => b.told_focus(i, true).raised(i),
                None => b,
            };
            c.damaged(Rect { x: 0, y: 0, w: self.s.width, h: TOPBAR_H })
        }
    }

    pub open spec fn focus_on_next(self) -> WmState {
        self.focus_on(top_visible(self.windows, self.windows.len() as int))
    }

    pub open spec fn removed(self, id: WindowId) -> WmState {
        match find(self.windows, id) {
            Some(i) => {
                let w = self.windows[i];
                (WmState { windows: self.windows.remove(i), ..self }).damaged(w.last_paint).damaged(w.rest_bounds())
            },
            None => self,
        }
    }

    /// The shell without references to a window that goes away.
    pub open spec fn released(self, id: WindowId) -> WmState {
        self.with_shell(
            Shell {
                capture: if self.s.capture == Some(id) { None } else { self.s.capture },
                hovered: if self.s.hovered == Some(id) { None } else { self.s.hovered },
                ..self.s
            },
        )
    }

    /// The focus moves on if the window had it.
    pub open spec fn unfocused(self, id: WindowId) -> WmState {
        if self.s.focused == Some(id) {
            self.with_shell(Shell { focused: None, ..self.s }).focus_on_next()
        } else {
            self
        }
    }

    /// With a window on its way out.
    pub open spec fn closed(self, id: WindowId, now: u64) -> WmState {
        match find(self.windows, id) {
            Some(i) => if self.windows[i].closing {
                self
            } else {
                let anim = self.s.animation(AnimKind::Close, CLOSE_MS, now);
                let a = self.with_window(i, Window { closing: true, anim, ..self.windows[i] });
                let b = if anim is None { a.removed(id) } else { a };
                let c = b.released(id).unfocused(id);
                c.damaged(c.s.dock_surroundings())
            },
            None => self,
        }
    }

    pub open spec fn minimised(self, id: WindowId, now: u64) -> WmState {
        match find(self.windows, id) {
            Some(i) => {
                let w = self.windows[i];
                let target = self.s.dock_goal(w.kind);
                let n = match self.s.animation(AnimKind::Minimize(target), MINIMIZE_MS, now) {
                    Some(a) => Window { anim: Some(a), ..w },
                    None => Window { minimized: true, ..w },
                };
                self.with_window(i, n).damaged(w.rest_bounds()).unfocused(id)
            },
            None => self,
        }
    }

    pub open spec fn unminimised(self, i: int, now: u64) -> WmState {
        let w = self.windows[i];
        if w.minimized {
            let anim = self.s.animation(AnimKind::Restore(self.s.dock_goal(w.kind)), MINIMIZE_MS, now);
            self.with_window(i, Window { minimized: false, anim, ..w }).damaged(w.rest_bounds())
        } else {
            self
        }
    }

    /// With window `i` at a new place.
    #[verifier::opaque]
    pub open spec fn placed(self, i: int, r: Rect) -> WmState {
        let w = self.windows[i];
        let resized = r.w != w.rect.w || r.h != w.rect.h;
        let n = Window { rect: r, needs_render: w.needs_render || resized, ..w };
        let a = self.with_window(i, n);
        let b = if resized {
            a.delivered(w.id, AppEvent::Resized { w: r.w, h: (r.h - TITLEBAR_H) as i32 })
        } else {
            a
        };
        b.damaged(w.rest_bounds()).damaged(n.rest_bounds())
    }

    /// The screen below the top bar.
    pub open spec fn full(self) -> Rect {
        Rect { x: 0, y: TOPBAR_H, w: self.s.width, h: (self.s.height - TOPBAR_H) as i32 }
    }

    pub open spec fn maximise_toggled(self, id: WindowId, now: u64) -> WmState {
        match find(self.windows, id) {
            Some(i) => {
                let w = self.windows[i];
                if !w.resizable {
                    self
                } else {
                    let (restore, r) = match w.restore {
                        Some(r) => (None::<Rect>, r),
                        None => (Some(w.rect), self.full()),
                    };
                    let a = self.with_window(i, Window { restore, ..w }).placed(i, r);
                    let anim = self.s.animation(AnimKind::Morph(w.rect), MORPH_MS, now);
                    a.with_window(i, Window { anim, ..a.windows[i] }).damaged(w.rest_bounds())
                }
            },
            None => self,
        }
    }

    /// Where a new window opens: centred over another, or cascaded.
    pub open spec fn opening(self, info: OpenInfo, over: Option<WindowId>) -> Rect {
        let w = min(info.w as int, self.s.width - 40);
        let h = min(info.h as int, self.s.height - TOPBAR_H - 90) + TITLEBAR_H;
        let step = self.s.cascade % 8;
        let (x, y) = match self.index(over) {
            Some(i) => {
                let p = self.windows[i].rect;
                (p.x + tdiv(p.w - w, 2), p.y + tdiv(p.h - h, 2))
            },
            None => (tdiv(self.s.width - w, 2) - 120 + step * 32, TOPBAR_H + 40 + step * 28),
        };
        Rect {
            x: clamp(x, 8, max(self.s.width - w - 8, 8)) as i32,
            y: clamp(y, TOPBAR_H + 8, max(self.s.height - h - 8, TOPBAR_H + 8)) as i32,
            w: w as i32,
            h: h as i32,
        }
    }

    #[verifier::opaque]
    pub open spec fn opened(self, info: OpenInfo, over: Option<WindowId>, origin: Option<Rect>, now: u64) -> WmState {
        let r = self.opening(info, over);
        let id = self.s.next_id;
        let w = Window {
            id,
            kind: info.kind,
            resizable: info.resizable,
            min_w: info.min_w,
            min_h: info.min_h,
            rect: r,
            restore: None,
            minimized: false,
            closing: false,
            needs_render: true,
            hover_button: None,
            anim: self.s.animation(AnimKind::Open(origin), OPEN_MS, now),
            last_paint: shadowed(r),
        };
        let s = Shell {
            next_id: (id + 1) as u32,
            cascade: if self.index(over) is None { (self.s.cascade + 1) as i32 } else { self.s.cascade },
            ..self.s
        };
        (WmState { s, windows: self.windows.push(w), ..self }).focus_on(Some(id)).damaged(shadowed(r))
    }

    pub open spec fn launching(self, kind: AppKind) -> WmState {
        let origin = match dock_slot(kind) {
            Some(i) => Some(self.s.icon_area(i)),
            None => None,
        };
        WmState { out: self.out.push(Action::Launch(kind, origin)), ..self }
    }

    /// After a click on a dock entry: an existing window comes to the
    /// front, otherwise the app is started.
    pub open spec fn dock_clicked(self, kind: AppKind, new_window: bool, now: u64) -> WmState {
        let e = existing(self.windows, kind);
        if !new_window && e.len() > 0 {
            let target = if e.len() > 1 && self.s.focused == Some(e.last()) { e[0] } else { e.last() };
            let a = match find(self.windows, target) {
                Some(i) => self.unminimised(i, now),
                None => self,
            };
            a.focus_on(Some(target))
        } else {
            self.launching(kind)
        }
    }
}

// ---------------------------------------------------------------------
// Lemmas
// ---------------------------------------------------------------------

proof fn lemma_raised_wf(st: WmState, i: int)
    requires
        st.wf(),
        0 <= i < st.windows.len(),
    ensures
        st.raised(i).wf(),
{
    reveal(stack_wf);
    let ws = st.windows;
    let n = ws.remove(i).push(ws[i]);
    lemma_damaged_wf(st, ws[i].rest_bounds());
    assert forall|a: int, b: int| 0 <= a < b < n.len() implies (#[trigger] n[a]).id != (#[trigger] n[b]).id by {
        let p = if a < i { a } else if a < ws.len() - 1 { a + 1 } else { i };
        let q = if b < ws.len() - 1 { if b < i { b } else { b + 1 } } else { i };
        assert(n[a] == ws[p]);
        assert(n[b] == ws[q]);
        assert(p != q);
        if p < q {
            assert(ws[p].id != ws[q].id);
        } else {
            assert(ws[q].id != ws[p].id);
        }
    }
    assert forall|a: int| 0 <= a < n.len() implies (#[trigger] n[a]).wf() && n[a].id < st.s.next_id by {
        let p = if a < ws.len() - 1 { if a < i { a } else { a + 1 } } else { i };
        assert(n[a] == ws[p]);
        assert(ws[p].wf());
    }
}

pub proof fn lemma_damaged_wf(st: WmState, r: Rect)
    requires
        st.wf(),
    ensures
        st.damaged(r).wf(),
        st.damaged(r).windows == st.windows,
        st.damaged(r).s == st.s,
        st.damaged(r).out == st.out,
{
    let c = st.s.screen().spec_intersect(r);
    if !c.spec_is_empty() {
        assert(area(c));
    }
}

proof fn lemma_update_wf(st: WmState, i: int, w: Window)
    requires
        st.wf(),
        0 <= i < st.windows.len(),
        w.wf(),
        w.id == st.windows[i].id,
    ensures
        st.with_window(i, w).wf(),
{
    reveal(stack_wf);
    let n = st.windows.update(i, w);
    assert forall|a: int, b: int| 0 <= a < b < n.len() implies (#[trigger] n[a]).id != (#[trigger] n[b]).id by {
        assert(st.windows[a].id != st.windows[b].id);
    }
    assert forall|a: int| 0 <= a < n.len() implies (#[trigger] n[a]).wf() && n[a].id < st.s.next_id by {
        assert(st.windows[a].wf());
    }
}

proof fn lemma_remove_wf(st: WmState, i: int)
    requires
        st.wf(),
        0 <= i < st.windows.len(),
    ensures
        (WmState { windows: st.windows.remove(i), ..st }).wf(),
{
    reveal(stack_wf);
    let n = st.windows.remove(i);
    assert forall|a: int, b: int| 0 <= a < b < n.len() implies (#[trigger] n[a]).id != (#[trigger] n[b]).id by {
        let p = if a < i { a } else { a + 1 };
        let q = if b < i { b } else { b + 1 };
        assert(st.windows[p].id != st.windows[q].id);
    }
    assert forall|a: int| 0 <= a < n.len() implies (#[trigger] n[a]).wf() && n[a].id < st.s.next_id by {
        let p = if a < i { a } else { a + 1 };
        assert(st.windows[p].wf());
    }
}

proof fn lemma_push_wf(st: WmState, w: Window)
    requires
        st.wf(),
        w.wf(),
        w.id == st.s.next_id,
        st.s.next_id < u32::MAX,
    ensures
        stack_wf(st.windows.push(w), (st.s.next_id + 1) as u32),
{
    reveal(stack_wf);
    let n = st.windows.push(w);
    assert forall|a: int, b: int| 0 <= a < b < n.len() implies (#[trigger] n[a]).id != (#[trigger] n[b]).id by {
        assert(st.windows[a].id < st.s.next_id);
        if b < st.windows.len() {
            assert(st.windows[a].id != st.windows[b].id);
        }
    }
    assert forall|a: int| 0 <= a < n.len() implies (#[trigger] n[a]).wf() && n[a].id < st.s.next_id + 1 by {
        if a < st.windows.len() {
            assert(st.windows[a].wf());
        }
    }
}

/// Raising a window keeps all windows and their other order: the stack
/// holds the same windows, with this one on top.
pub proof fn lemma_raise_keeps_windows(st: WmState, i: int)
    requires
        0 <= i < st.windows.len(),
    ensures
        st.raised(i).windows.len() == st.windows.len(),
        st.raised(i).windows.last() == st.windows[i],
        st.raised(i).windows.drop_last() == st.windows.remove(i),
        st.raised(i).windows.to_multiset() == st.windows.to_multiset(),
{
    broadcast use vstd::seq_lib::group_to_multiset_ensures;

    let ws = st.windows;
    if i + 1 == ws.len() {
        assert(ws.remove(i) =~= ws.drop_last());
    } else {
        let n = ws.remove(i).push(ws[i]);
        assert(n.drop_last() =~= ws.remove(i));
        assert(n.to_multiset() =~= ws.to_multiset());
    }
}

// ---------------------------------------------------------------------
// Functions
// ---------------------------------------------------------------------

/// What the user prefers, as far as the desktop follows it.
#[derive(Clone, Copy, Debug, PartialEq, Eq, Structural)]
pub struct Habits {
    pub animations: bool,
    pub pointer_speed: u8,
    pub natural_scroll: bool,
    pub double_click_ms: u32,
}

/// A desktop without windows, with the pointer in the middle. Without
/// animations it does not fade in either.
pub open spec fn fresh_shell(width: i32, height: i32, hot: (i32, i32), hw_cursor: bool, habits: Habits, now: u64) -> Shell {
    Shell {
        width,
        height,
        focused: None,
        next_id: 1,
        pointer: ((width / 2) as i32, (height / 2) as i32),
        cursor_dirty: false,
        cursor_hot: hot,
        hw_cursor,
        buttons: 0,
        drag: None,
        capture: None,
        hovered: None,
        last_click: (0, 0, 0, 0),
        dock_hover: None,
        dock_bounce: None,
        menu_open: false,
        menu_opened_at: 0,
        menu_hover: None,
        cascade: 0,
        boot_at: if habits.animations { now } else { 0 },
        animations: habits.animations,
        pointer_speed: habits.pointer_speed,
        natural_scroll: habits.natural_scroll,
        double_click_ms: habits.double_click_ms,
        motion_rem: (0, 0),
    }
}

impl Wm {
    /// A desktop for a screen of this size. All of it is to be painted.
    pub fn new(width: i32, height: i32, hot: (i32, i32), hw_cursor: bool, habits: Habits, now: u64) -> (r: Wm)
        requires
            1 <= width <= 0x10_0000,
            68 <= height <= 0x10_0000,
            0 <= hot.0 < 64,
            0 <= hot.1 < 64,
        ensures
            r@.wf(),
            r@.s == fresh_shell(width, height, hot, hw_cursor, habits, now),
            r@.windows == Seq::<Window>::empty(),
            r@.damage == seq![r@.s.screen()],
            r@.out == Seq::<Action>::empty(),
    {
        let s: Shell = Shell {
            width,
            height,
            focused: None,
            next_id: 1,
            pointer: (width / 2, height / 2),
            cursor_dirty: false,
            cursor_hot: hot,
            hw_cursor,
            buttons: 0,
            drag: None,
            capture: None,
            hovered: None,
            last_click: (0, 0, 0, 0),
            dock_hover: None,
            dock_bounce: None,
            menu_open: false,
            menu_opened_at: 0,
            menu_hover: None,
            cascade: 0,
            boot_at: if habits.animations { now } else { 0 },
            animations: habits.animations,
            pointer_speed: habits.pointer_speed,
            natural_scroll: habits.natural_scroll,
            double_click_ms: habits.double_click_ms,
            motion_rem: (0, 0),
        };
        let mut wm: Wm = Wm { s, windows: Vec::new(), damage: Vec::new(), out: Vec::new() };
        proof {
            reveal(stack_wf);
        }
        wm.damage_all();
        proof {
            assert(wm@.damage =~= seq![wm@.s.screen()]);
        }
        wm
    }

    /// Mark all of the screen for repainting.
    pub fn damage_all(&mut self)
        requires
            old(self)@.wf(),
        ensures
            final(self)@ == (WmState { damage: old(self)@.damage.push(old(self)@.s.screen()), ..old(self)@ }),
            final(self)@.wf(),
    {
        self.damage.push(Rect::new(0, 0, self.s.width, self.s.height));
        proof {
            assert(area(self@.damage.last()));
        }
    }

    /// Mark part of the screen for repainting.
    pub fn damage(&mut self, r: Rect)
        requires
            old(self)@.wf(),
        ensures
            final(self)@ == old(self)@.damaged(r),
            final(self)@.wf(),
    {
        proof {
            lemma_damaged_wf(self@, r);
        }
        let c: Rect = Rect::new(0, 0, self.s.width, self.s.height).intersect(&r);
        if !c.is_empty() {
            self.damage.push(c);
        }
    }

    pub fn index_of(&self, id: WindowId) -> (r: Option<usize>)
        ensures
            match r {
                Some(i) => find(self@.windows, id) == Some(i as int) && i < self@.windows.len() && self@.windows[i as int].id
                    == id,
                None => find(self@.windows, id) is None,
            },
    {
        let mut i: usize = 0;
        while i < self.windows.len()
            invariant
                i <= self.windows@.len(),
                find(self@.windows, id) == find_from(self@.windows, id, i as int),
            decreases self.windows@.len() - i,
        {
            if self.windows[i].id == id {
                return Some(i);
            }
            i += 1;
        }
        None
    }

    pub(super) fn index_of_opt(&self, id: Option<WindowId>) -> (r: Option<usize>)
        ensures
            match r {
                Some(i) => self@.index(id) == Some(i as int) && i < self@.windows.len() && Some(
                    self@.windows[i as int].id,
                ) == id,
                None => self@.index(id) is None,
            },
    {
        match id {
            Some(i) => self.index_of(i),
            None => None,
        }
    }

    pub(super) fn set_window(&mut self, i: usize, w: Window)
        requires
            old(self)@.wf(),
            i < old(self)@.windows.len(),
            w.wf(),
            w.id == old(self)@.windows[i as int].id,
        ensures
            final(self)@ == old(self)@.with_window(i as int, w),
            final(self)@.wf(),
    {
        proof {
            lemma_update_wf(self@, i as int, w);
        }
        self.windows.set(i, w);
    }

    pub(super) fn deliver(&mut self, id: WindowId, ev: AppEvent)
        requires
            old(self)@.wf(),
        ensures
            final(self)@ == old(self)@.delivered(id, ev),
            final(self)@.wf(),
    {
        self.out.push(Action::Deliver(id, ev));
    }

    /// Put window `i` on top of the stack.
    pub fn raise(&mut self, i: usize)
        requires
            old(self)@.wf(),
            i < old(self)@.windows.len(),
        ensures
            final(self)@ == old(self)@.raised(i as int),
            final(self)@.wf(),
    {
        proof {
            lemma_window(self@, i as int);
            lemma_raised_wf(self@, i as int);
            lemma_remove_wf(self@, i as int);
        }
        let n: usize = self.windows.len();
        if i != n - 1 {
            let w: Window = self.windows.remove(i);
            let b: Rect = w.paint_bounds();
            self.damage(b);
            self.windows.push(w);
        }
    }

    fn tell_focus(&mut self, i: usize, on: bool)
        requires
            old(self)@.wf(),
            i < old(self)@.windows.len(),
        ensures
            final(self)@ == old(self)@.told_focus(i as int, on),
            final(self)@.wf(),
    {
        proof {
            lemma_window(self@, i as int);
        }
        let w: Window = self.windows[i];
        self.deliver(w.id, AppEvent::Focus(on));
        let n: Window = Window { needs_render: true, ..w };
        self.set_window(i, n);
    }

    /// Give the focus to a window and raise it.
    pub fn focus(&mut self, id: Option<WindowId>)
        requires
            old(self)@.wf(),
        ensures
            final(self)@ == old(self)@.focus_on(id),
            final(self)@.wf(),
    {
        if self.s.focused == id {
            if let Some(i) = self.index_of_opt(id) {
                self.raise(i);
            }
            return;
        }
        if let Some(i) = self.index_of_opt(self.s.focused) {
            self.tell_focus(i, false);
        }
        self.s.focused = id;
        if let Some(i) = self.index_of_opt(id) {
            self.tell_focus(i, true);
            self.raise(i);
        }
        self.damage(Rect::new(0, 0, self.s.width, TOPBAR_H));
    }

    /// Give the focus to the topmost window that can be seen.
    pub fn focus_next(&mut self)
        requires
            old(self)@.wf(),
        ensures
            final(self)@ == old(self)@.focus_on_next(),
            final(self)@.wf(),
    {
        let mut next: Option<WindowId> = None;
        let mut n: usize = self.windows.len();
        while n > 0 && next.is_none()
            invariant
                n <= self.windows@.len(),
                next is None ==> top_visible(self.windows@, self.windows@.len() as int) == top_visible(
                    self.windows@,
                    n as int,
                ),
                next is Some ==> top_visible(self.windows@, self.windows@.len() as int) == next,
                self@ == old(self)@,
            decreases n + if next is None { 1int } else { 0 },
        {
            let w: Window = self.windows[n - 1];
            if !w.gone() {
                next = Some(w.id);
            } else {
                n -= 1;
            }
        }
        self.focus(next);
    }

    pub fn remove_window(&mut self, id: WindowId)
        requires
            old(self)@.wf(),
        ensures
            final(self)@ == old(self)@.removed(id),
            final(self)@.wf(),
    {
        if let Some(i) = self.index_of(id) {
            proof {
                lemma_window(self@, i as int);
                lemma_remove_wf(self@, i as int);
            }
            let w: Window = self.windows.remove(i);
            self.damage(w.last_paint);
            let b: Rect = w.paint_bounds();
            self.damage(b);
        }
    }

    fn unfocus(&mut self, id: WindowId)
        requires
            old(self)@.wf(),
        ensures
            final(self)@ == old(self)@.unfocused(id),
            final(self)@.wf(),
    {
        if self.s.focused == Some(id) {
            self.s.focused = None;
            self.focus_next();
        }
    }

    /// Start closing a window (it is removed when its animation ends).
    pub fn close(&mut self, id: WindowId, now: u64)
        requires
            old(self)@.wf(),
        ensures
            final(self)@ == old(self)@.closed(id, now),
            final(self)@.wf(),
    {
        if let Some(i) = self.index_of(id) {
            proof {
                lemma_window(self@, i as int);
            }
            let w: Window = self.windows[i];
            if w.closing {
                return;
            }
            let anim = self.s.animate(AnimKind::Close, CLOSE_MS, now);
            let n: Window = Window { closing: true, anim, ..w };
            self.set_window(i, n);
            if anim.is_none() {
                self.remove_window(id);
            }
            if self.s.capture == Some(id) {
                self.s.capture = None;
            }
            if self.s.hovered == Some(id) {
                self.s.hovered = None;
            }
            self.unfocus(id);
            let d: Rect = self.s.dock_damage_rect();
            self.damage(d);
        }
    }

    pub fn minimize(&mut self, id: WindowId, now: u64)
        requires
            old(self)@.wf(),
        ensures
            final(self)@ == old(self)@.minimised(id, now),
            final(self)@.wf(),
    {
        if let Some(i) = self.index_of(id) {
            proof {
                lemma_window(self@, i as int);
            }
            let w: Window = self.windows[i];
            let target: Rect = self.s.dock_target(w.kind);
            let n: Window = match self.s.animate(AnimKind::Minimize(target), MINIMIZE_MS, now) {
                Some(a) => Window { anim: Some(a), ..w },
                None => Window { minimized: true, ..w },
            };
            self.set_window(i, n);
            let b: Rect = w.paint_bounds();
            self.damage(b);
            self.unfocus(id);
        }
    }

    pub fn unminimize(&mut self, i: usize, now: u64)
        requires
            old(self)@.wf(),
            i < old(self)@.windows.len(),
        ensures
            final(self)@ == old(self)@.unminimised(i as int, now),
            final(self)@.wf(),
    {
        proof {
            lemma_window(self@, i as int);
        }
        let w: Window = self.windows[i];
        if !w.minimized {
            return;
        }
        let from: Rect = self.s.dock_target(w.kind);
        let anim = self.s.animate(AnimKind::Restore(from), MINIMIZE_MS, now);
        let n: Window = Window { minimized: false, anim, ..w };
        self.set_window(i, n);
        let b: Rect = w.paint_bounds();
        self.damage(b);
    }

    /// Move or resize window `i`.
    pub fn set_rect(&mut self, i: usize, r: Rect)
        requires
            old(self)@.wf(),
            i < old(self)@.windows.len(),
            small_rect(r),
        ensures
            final(self)@ == old(self)@.placed(i as int, r),
            final(self)@.wf(),
            final(self)@.windows.len() == old(self)@.windows.len(),
            final(self)@.windows[i as int].id == old(self)@.windows[i as int].id,
            final(self)@.s == old(self)@.s,
    {
        proof {
            reveal(WmState::placed);
            lemma_window(self@, i as int);
        }
        let w: Window = self.windows[i];
        let before: Rect = w.paint_bounds();
        let resized: bool = r.w != w.rect.w || r.h != w.rect.h;
        let n: Window = Window { rect: r, needs_render: w.needs_render || resized, ..w };
        self.set_window(i, n);
        if resized {
            let (cw, ch): (i32, i32) = n.client_size();
            self.deliver(w.id, AppEvent::Resized { w: cw, h: ch });
        }
        self.damage(before);
        let b: Rect = n.paint_bounds();
        self.damage(b);
    }

    pub fn toggle_maximize(&mut self, id: WindowId, now: u64)
        requires
            old(self)@.wf(),
        ensures
            final(self)@ == old(self)@.maximise_toggled(id, now),
            final(self)@.wf(),
    {
        if let Some(i) = self.index_of(id) {
            proof {
                lemma_window(self@, i as int);
            }
            let w: Window = self.windows[i];
            if !w.resizable {
                return;
            }
            let before: Rect = w.paint_bounds();
            let (restore, r): (Option<Rect>, Rect) = match w.restore {
                Some(r) => (None, r),
                None => (Some(w.rect), Rect::new(0, TOPBAR_H, self.s.width, self.s.height - TOPBAR_H)),
            };
            let n: Window = Window { restore, ..w };
            self.set_window(i, n);
            self.set_rect(i, r);
            let anim = self.s.animate(AnimKind::Morph(w.rect), MORPH_MS, now);
            proof {
                lemma_window(self@, i as int);
            }
            let m: Window = Window { anim, ..self.windows[i] };
            self.set_window(i, m);
            self.damage(before);
        }
    }

    fn opening_rect(&self, info: &OpenInfo, over: Option<WindowId>) -> (r: Rect)
        requires
            self@.wf(),
            info.wf(),
        ensures
            r == self@.opening(*info, over),
            small_rect(r),
    {
        let sw: i64 = self.s.width as i64;
        let sh: i64 = self.s.height as i64;
        let w: i64 = min_i64(info.w as i64, sw - 40);
        let h: i64 = min_i64(info.h as i64, sh - 118) + 36;
        let (x, y): (i64, i64) = match self.index_of_opt(over) {
            Some(i) => {
                proof {
                    lemma_window(self@, i as int);
                }
                let p: Rect = self.windows[i].rect;
                (p.x as i64 + div(p.w as i64 - w, 2), p.y as i64 + div(p.h as i64 - h, 2))
            },
            None => {
                let step: i64 = (self.s.cascade % 8) as i64;
                (div(sw - w, 2) - 120 + step * 32, 68 + step * 28)
            },
        };
        let cx: i64 = clamp_i64(x, 8, max_i64(sw - w - 8, 8));
        let cy: i64 = clamp_i64(y, 36, max_i64(sh - h - 8, 36));
        Rect::new(cx as i32, cy as i32, w as i32, h as i32)
    }

    /// Open a window and give it the focus.
    pub fn open_from(&mut self, info: &OpenInfo, over: Option<WindowId>, origin: Option<Rect>, now: u64) -> (r: WindowId)
        requires
            old(self)@.wf(),
            info.wf(),
            origin matches Some(o) ==> small_rect(o),
            old(self)@.s.next_id < u32::MAX,
            old(self)@.s.cascade < i32::MAX,
        ensures
            final(self)@ == old(self)@.opened(*info, over, origin, now),
            r == old(self)@.s.next_id,
            final(self)@.wf(),
    {
        proof {
            reveal(WmState::opened);
        }
        let rect: Rect = self.opening_rect(info, over);
        let id: u32 = self.s.next_id;
        let w: Window = Window {
            id,
            kind: info.kind,
            resizable: info.resizable,
            min_w: info.min_w,
            min_h: info.min_h,
            rect,
            restore: None,
            minimized: false,
            closing: false,
            needs_render: true,
            hover_button: None,
            anim: self.s.animate(AnimKind::Open(origin), OPEN_MS, now),
            last_paint: shadow_bounds(rect),
        };
        if self.index_of_opt(over).is_none() {
            self.s.cascade = self.s.cascade + 1;
        }
        self.s.next_id = id + 1;
        self.windows.push(w);
        proof {
            lemma_push_wf(old(self)@, w);
        }
        self.focus(Some(id));
        self.damage(shadow_bounds(rect));
        id
    }

    /// Ask for an app to be started.
    pub fn open_kind(&mut self, kind: AppKind)
        requires
            old(self)@.wf(),
        ensures
            final(self)@ == old(self)@.launching(kind),
            final(self)@.wf(),
    {
        let origin: Option<Rect> = match Shell::dock_position(kind) {
            Some(i) => Some(self.s.dock_icon_rect(i)),
            None => None,
        };
        self.out.push(Action::Launch(kind, origin));
    }

    /// Open the window of an app that was started from the dock or menu;
    /// its icon hops.
    pub fn launched(&mut self, info: &OpenInfo, origin: Option<Rect>, now: u64) -> (r: WindowId)
        requires
            old(self)@.wf(),
            info.wf(),
            origin matches Some(o) ==> small_rect(o),
            old(self)@.s.next_id < u32::MAX,
            old(self)@.s.cascade < i32::MAX,
        ensures
            ({
                let o = old(self)@.opened(*info, None, origin, now);
                final(self)@ == if o.s.animations {
                    o.with_shell(Shell { dock_bounce: Some((info.kind, now)), ..o.s })
                } else {
                    o
                }
            }),
            r == old(self)@.s.next_id,
            final(self)@.wf(),
    {
        let id: WindowId = self.open_from(info, None, origin, now);
        if self.s.animations {
            self.s.dock_bounce = Some((info.kind, now));
        }
        id
    }

    /// First and last window of an app that is not closing, and how many
    /// there are.
    fn windows_of(&self, kind: AppKind) -> (r: Option<(WindowId, WindowId, bool)>)
        ensures
            ({
                let e = existing(self@.windows, kind);
                match r {
                    Some((first, last, several)) => e.len() > 0 && first == e[0] && last == e.last() && several == (e.len()
                        > 1),
                    None => e.len() == 0,
                }
            }),
    {
        let mut found: Option<(WindowId, WindowId, bool)> = None;
        let mut i: usize = 0;
        while i < self.windows.len()
            invariant
                i <= self.windows@.len(),
                ({
                    let e = existing(self.windows@.take(i as int), kind);
                    match found {
                        Some((first, last, several)) => e.len() > 0 && first == e[0] && last == e.last() && several == (
                        e.len() > 1),
                        None => e.len() == 0,
                    }
                }),
            decreases self.windows@.len() - i,
        {
            let w: Window = self.windows[i];
            proof {
                let t = self.windows@.take(i + 1);
                assert(t.drop_last() =~= self.windows@.take(i as int));
                assert(t.last() == w);
            }
            if w.kind == kind && !w.closing {
                found = match found {
                    Some((first, last, several)) => Some((first, w.id, true)),
                    None => Some((w.id, w.id, false)),
                };
            }
            i += 1;
        }
        proof {
            assert(self.windows@.take(self.windows@.len() as int) =~= self.windows@);
        }
        found
    }

    /// Dock click: focus (or restore) an existing window of that kind,
    /// otherwise start the app. `new_window` always opens a fresh one.
    pub fn dock_click(&mut self, kind: AppKind, new_window: bool, now: u64)
        requires
            old(self)@.wf(),
        ensures
            final(self)@ == old(self)@.dock_clicked(kind, new_window, now),
            final(self)@.wf(),
    {
        if !new_window {
            if let Some((first, last, several)) = self.windows_of(kind) {
                let target: WindowId = if several && self.s.focused == Some(last) { first } else { last };
                if let Some(i) = self.index_of(target) {
                    self.unminimize(i, now);
                }
                self.focus(Some(target));
                return;
            }
        }
        self.open_kind(kind);
    }
}

// ---------------------------------------------------------------------
// Changing the screen size
// ---------------------------------------------------------------------

/// A window on a screen of a new size.
pub open spec fn relaid(w: Window, width: int, height: int) -> Window {
    let r = w.rect;
    let rw = min(r.w as int, width - 16);
    let rh = min(r.h as int, height - TOPBAR_H - 16);
    let n = if w.is_maximized() {
        Rect { x: 0, y: TOPBAR_H, w: width as i32, h: (height - TOPBAR_H) as i32 }
    } else {
        Rect {
            x: clamp(r.x as int, 8, max(width - rw - 8, 8)) as i32,
            y: clamp(r.y as int, TOPBAR_H as int, max(height - rh, TOPBAR_H as int)) as i32,
            w: rw as i32,
            h: rh as i32,
        }
    };
    let m = Window { rect: n, needs_render: w.needs_render || n.w != r.w || n.h != r.h, ..w };
    Window { last_paint: m.rest_bounds(), ..m }
}

/// The messages about new sizes.
pub open spec fn relaid_events(ws: Seq<Window>, width: int, height: int) -> Seq<Action>
    decreases ws.len(),
{
    if ws.len() == 0 {
        Seq::empty()
    } else {
        let e = relaid_events(ws.drop_last(), width, height);
        let w = ws.last();
        let n = relaid(w, width, height).rect;
        if n.w != w.rect.w || n.h != w.rect.h {
            e.push(Action::Deliver(w.id, AppEvent::Resized { w: n.w, h: (n.h - TITLEBAR_H) as i32 }))
        } else {
            e
        }
    }
}

fn relay(w: &Window, width: i32, height: i32) -> (r: Window)
    requires
        w.wf(),
        1 <= width <= 0x10_0000,
        1 <= height <= 0x10_0000,
    ensures
        r == relaid(*w, width as int, height as int),
        r.wf(),
        r.id == w.id,
{
    let n: Rect = if w.maximized() {
        Rect::new(0, TOPBAR_H, width, height - TOPBAR_H)
    } else {
        let rw: i64 = min_i64(w.rect.w as i64, width as i64 - 16);
        let rh: i64 = min_i64(w.rect.h as i64, height as i64 - 44);
        let x: i64 = clamp_i64(w.rect.x as i64, 8, max_i64(width as i64 - rw - 8, 8));
        let y: i64 = clamp_i64(w.rect.y as i64, 28, max_i64(height as i64 - rh, 28));
        Rect::new(x as i32, y as i32, rw as i32, rh as i32)
    };
    let m: Window = Window { rect: n, needs_render: w.needs_render || n.w != w.rect.w || n.h != w.rect.h, ..*w };
    Window { last_paint: m.paint_bounds(), ..m }
}

impl Wm {
    /// Lay the desktop out on a screen whose mode was changed. `actual` is
    /// the size that the display reports, or `None` if it refused the mode.
    pub fn set_resolution(&mut self, w: u32, h: u32, actual: Option<(i32, i32)>) -> (r: bool)
        requires
            old(self)@.wf(),
            actual matches Some(a) ==> 1 <= a.0 <= 0x10_0000 && 68 <= a.1 <= 0x10_0000,
        ensures
            final(self)@.wf(),
            ({
                let s = old(self)@.s;
                if w == s.width && h == s.height {
                    r && final(self)@ == old(self)@
                } else {
                    match actual {
                        None => !r && final(self)@ == old(self)@,
                        Some((width, height)) => {
                            let n = Shell {
                                width,
                                height,
                                pointer: (
                                    min(s.pointer.0 as int, width - 1) as i32,
                                    min(s.pointer.1 as int, height - 1) as i32,
                                ),
                                ..s
                            };
                            &&& r
                            &&& final(self)@.s == n
                            &&& final(self)@.windows == Seq::new(
                                old(self)@.windows.len(),
                                |i: int| relaid(old(self)@.windows[i], width as int, height as int),
                            )
                            &&& final(self)@.out == old(self)@.out + relaid_events(
                                old(self)@.windows,
                                width as int,
                                height as int,
                            )
                            &&& final(self)@.damage == seq![n.screen()]
                        },
                    }
                }
            }),
    {
        if w == self.s.width as u32 && h == self.s.height as u32 {
            return true;
        }
        let (width, height): (i32, i32) = match actual {
            None => {
                return false;
            },
            Some(a) => a,
        };
        self.s.width = width;
        self.s.height = height;
        let px: i32 = self.s.pointer.0;
        let py: i32 = self.s.pointer.1;
        self.s.pointer = (if px < width - 1 { px } else { width - 1 }, if py < height - 1 { py } else { height - 1 });
        let ghost ws = old(self)@.windows;
        let ghost out0 = old(self)@.out;
        proof {
            reveal(stack_wf);
        }
        let mut i: usize = 0;
        while i < self.windows.len()
            invariant
                1 <= width <= 0x10_0000,
                68 <= height <= 0x10_0000,
                i <= self.windows@.len() == ws.len(),
                unique(ws),
                self@.s.wf(),
                self.s.width == width,
                self.s.height == height,
                self.s == (Shell { width, height, pointer: self.s.pointer, ..old(self)@.s }),
                self.s.pointer.0 == min(old(self)@.s.pointer.0 as int, width - 1),
                self.s.pointer.1 == min(old(self)@.s.pointer.1 as int, height - 1),
                self.damage@ == old(self)@.damage,
                forall|k: int| 0 <= k < ws.len() ==> (#[trigger] ws[k]).wf() && ws[k].id < self.s.next_id,
                forall|k: int| 0 <= k < i ==> #[trigger] self.windows@[k] == relaid(ws[k], width as int, height as int)
                    && self.windows@[k].wf() && self.windows@[k].id == ws[k].id,
                forall|k: int| i <= k < ws.len() ==> #[trigger] self.windows@[k] == ws[k],
                self.out@ == out0 + relaid_events(ws.take(i as int), width as int, height as int),
            decreases self.windows@.len() - i,
        {
            let before: Window = self.windows[i];
            proof {
                assert(before == ws[i as int]);
                assert(ws[i as int].wf());
                let t = ws.take(i + 1);
                assert(t.drop_last() =~= ws.take(i as int));
                assert(t.last() == before);
            }
            let n: Window = relay(&before, width, height);
            self.windows.set(i, n);
            if n.rect.w != before.rect.w || n.rect.h != before.rect.h {
                self.out.push(Action::Deliver(before.id, AppEvent::Resized { w: n.rect.w, h: n.rect.h - TITLEBAR_H }));
            }
            proof {
                assert(self.out@ =~= out0 + relaid_events(ws.take(i + 1), width as int, height as int));
            }
            i += 1;
        }
        self.damage.clear();
        self.damage.push(Rect::new(0, 0, width, height));
        proof {
            assert(ws.take(ws.len() as int) =~= ws);
            assert(self@.windows =~= Seq::new(ws.len(), |k: int| relaid(ws[k], width as int, height as int)));
            assert(self@.damage =~= seq![self@.s.screen()]);
            assert(area(self@.damage[0]));
            assert forall|a: int, b: int| 0 <= a < b < self@.windows.len() implies (#[trigger] self@.windows[a]).id != (
            #[trigger] self@.windows[b]).id by {
                assert(ws[a].id != ws[b].id);
            }
        }
        true
    }
}

} // verus!
