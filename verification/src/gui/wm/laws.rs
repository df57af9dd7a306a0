//! What dragging, stacking, maximising and clicking are for.

use super::super::app::{AppEvent, AppKind, WindowId};
use super::super::geom::Rect;
use super::super::theme::{TITLEBAR_H, TOPBAR_H};
use super::desktop::{
    button_at, find, find_from, lemma_find_from, menu_area, menu_entry, menu_hit, menu_row_height, menu_row_top, top_hit,
    top_visible, Action, Drag, Shell, Window, WmState, DOCK_LEN, MENU_LEN,
};
use super::pointer::bottom_visible;
use super::stack::{existing, relaid, stack_wf, unique, OpenInfo};
use crate::arith::tdiv;
use crate::input::{Key, KeyEvent};
use vstd::prelude::*;

verus! {

/// A coordinate of any screen there is.
pub open spec fn near(v: int) -> bool {
    -0x100_0000 <= v <= 0x100_0000
}

pub open spec fn near_rect(r: Rect) -> bool {
    near(r.x as int) && near(r.y as int) && near(r.w as int) && near(r.h as int)
}

/// While an edge of a window is dragged it stays as far from the pointer as
/// it was at the press, the edge across from it stays where it is, and the
/// window does not get smaller than it may.
pub proof fn lemma_edge_follows_pointer(
    st: WmState,
    i: int,
    right: bool,
    bottom: bool,
    left: bool,
    start: Rect,
    px: i32,
    py: i32,
    x: int,
    y: int,
)
    requires
        0 <= i < st.windows.len(),
        find(st.windows, st.windows[i].id) == Some(i),
        near_rect(start),
        near(px as int) && near(py as int) && near(x) && near(y),
        near(st.windows[i].min_w as int) && near(st.windows[i].min_h as int),
    ensures
        ({
            let w = st.windows[i];
            let new = st.dragged(Drag::Resize { id: w.id, right, bottom, left, start, px, py }, x, y);
            let r = new.windows[i].rect;
            &&& left && start.w - (x - px) >= w.min_w ==> r.x - x == start.x - px
            &&& left && start.w - (x - px) < w.min_w ==> r.w == w.min_w
            &&& left ==> r.x + r.w == start.x + start.w
            &&& right && !left && start.w + (x - px) >= w.min_w ==> r.x + r.w - x == start.x + start.w - px
            &&& right && !left && start.w + (x - px) < w.min_w ==> r.w == w.min_w
            &&& !left ==> r.x == start.x
            &&& !left && !right ==> r.w == start.w
            &&& bottom && start.h + (y - py) >= w.min_h + TITLEBAR_H ==> r.y + r.h - y == start.y + start.h - py
            &&& bottom && start.h + (y - py) < w.min_h + TITLEBAR_H ==> r.h == w.min_h + TITLEBAR_H
            &&& r.y == start.y
            &&& !bottom ==> r.h == start.h
            &&& forall|k: int| 0 <= k < st.windows.len() && k != i ==> #[trigger] new.windows[k] == st.windows[k]
            &&& new.windows.len() == st.windows.len()
        }),
{
    reveal(WmState::placed);
}

/// A window that is moved keeps its size and stays under the pointer where
/// it was taken, but it goes neither under the top bar nor off the bottom of
/// the screen.
pub proof fn lemma_moved_window_follows(st: WmState, i: int, dx: i32, dy: i32, x: int, y: int)
    requires
        0 <= i < st.windows.len(),
        find(st.windows, st.windows[i].id) == Some(i),
        !st.windows[i].is_maximized(),
        st.s.wf(),
        near_rect(st.windows[i].rect),
        near(dx as int) && near(dy as int) && near(x) && near(y),
    ensures
        ({
            let w = st.windows[i];
            let new = st.dragged(Drag::Move { id: w.id, dx, dy }, x, y);
            let r = new.windows[i].rect;
            &&& x - r.x == dx
            &&& TOPBAR_H <= y - dy <= st.s.height - 40 ==> y - r.y == dy
            &&& TOPBAR_H <= r.y <= st.s.height - 40
            &&& r.w == w.rect.w
            &&& r.h == w.rect.h
            &&& forall|k: int| 0 <= k < st.windows.len() && k != i ==> #[trigger] new.windows[k] == st.windows[k]
            &&& new.windows.len() == st.windows.len()
        }),
{
    reveal(WmState::placed);
}

/// A maximised window that is dragged gets its old size back, under the
/// pointer, and from then on it follows the pointer like any other.
pub proof fn lemma_dragged_out_of_full(st: WmState, i: int, o: Rect, dx: i32, dy: i32, x: int, y: int)
    requires
        0 <= i < st.windows.len(),
        find(st.windows, st.windows[i].id) == Some(i),
        st.windows[i].restore == Some(o),
        near_rect(o),
        o.w >= 2,
        near(x) && near(y),
    ensures
        ({
            let w = st.windows[i];
            let new = st.dragged(Drag::Move { id: w.id, dx, dy }, x, y);
            let n = new.windows[i];
            &&& n.restore is None
            &&& n.rect.w == o.w
            &&& n.rect.h == o.h
            &&& n.rect.x <= x < n.rect.x + n.rect.w
            &&& n.rect.y <= y < n.rect.y + TITLEBAR_H
            &&& new.s.drag matches Some(Drag::Move { id, dx, dy }) && id == w.id && dx == x - n.rect.x && dy == y
                - n.rect.y
        }),
{
    reveal(WmState::placed);
}

/// A press on the title bar takes hold of the window at that point: moving
/// the pointer from there moves the window just as far.
pub proof fn lemma_taken_by_title(st: WmState, i: int, now: u64, mx: int, my: int)
    requires
        st.wf(),
        0 <= i < st.windows.len(),
        !st.windows[i].is_maximized(),
        near_rect(st.windows[i].rect),
        ({
            let (x, y) = st.s.pointer;
            let r = st.windows[i].rect;
            &&& button_at(x - r.x, y - r.y) is None
            &&& !st.double_click(now, x as int, y as int)
            &&& TOPBAR_H <= r.y + my <= st.s.height - 40
            &&& near(x + mx) && near(y + my) && near(x - r.x) && near(y - r.y)
        }),
    ensures
        ({
            let (x, y) = st.s.pointer;
            let w = st.windows[i];
            let held = st.title_pressed(w.id, x - w.rect.x, y - w.rect.y, now);
            &&& held.windows == st.windows
            &&& held.s.drag matches Some(d) && ({
                let r = held.dragged(d, x + mx, y + my).windows[i].rect;
                r.x == w.rect.x + mx && r.y == w.rect.y + my && r.w == w.rect.w && r.h == w.rect.h
            })
        }),
{
    let (x, y) = st.s.pointer;
    let w = st.windows[i];
    lemma_found(st, i);
    let held = st.title_pressed(w.id, x - w.rect.x, y - w.rect.y, now);
    lemma_moved_window_follows(held, i, (x - w.rect.x) as i32, (y - w.rect.y) as i32, x + mx, y + my);
}

/// A press at the border takes hold of the edges that are there, and leaves
/// the window as it is until the pointer moves.
pub proof fn lemma_taken_by_edge(st: WmState, i: int, now: u64)
    requires
        st.wf(),
        0 <= i < st.windows.len(),
        near_rect(st.windows[i].rect),
        near(st.s.pointer.0 as int) && near(st.s.pointer.1 as int),
        st.windows[i].resizable,
        !st.windows[i].is_maximized(),
        near(st.windows[i].min_w as int) && near(st.windows[i].min_h as int),
        st.windows[i].rect.w >= st.windows[i].min_w,
        st.windows[i].rect.h >= st.windows[i].min_h + TITLEBAR_H,
        ({
            let r = st.windows[i].rect;
            let (x, y) = st.s.pointer;
            -2 <= x - (r.x + r.w) < 4 || -2 <= y - (r.y + r.h) < 4 || -4 <= x - r.x < 2
        }),
    ensures
        ({
            let w = st.windows[i];
            let (x, y) = st.s.pointer;
            let held = st.window_pressed(i, 0, now);
            &&& held.windows == st.windows
            &&& held.s.drag matches Some(Drag::Resize { id, right, bottom, left, start, px, py }) && id == w.id && start
                == w.rect && (right ==> -2 <= x - (w.rect.x + w.rect.w)) && (bottom ==> -2 <= y - (w.rect.y + w.rect.h))
                && (left ==> x - w.rect.x < 2)
            &&& held.dragged(held.s.drag->0, x as int, y as int).windows[i].rect == w.rect
        }),
{
    let w = st.windows[i];
    let (x, y) = st.s.pointer;
    lemma_found(st, i);
    let held = st.window_pressed(i, 0, now);
    let d = held.s.drag->0;
    match d {
        Drag::Resize { id, right, bottom, left, start, px, py } => {
            lemma_edge_follows_pointer(held, i, right, bottom, left, start, px, py, x as int, y as int);
        },
        _ => {},
    }
}

/// A window is found by its number.
proof fn lemma_found(st: WmState, i: int)
    requires
        st.wf(),
        0 <= i < st.windows.len(),
    ensures
        find(st.windows, st.windows[i].id) == Some(i),
{
    reveal(stack_wf);
    lemma_find_from(st.windows, st.windows[i].id, 0);
    let k = find(st.windows, st.windows[i].id)->0;
    if k < i {
        assert(st.windows[k].id != st.windows[i].id);
    } else if i < k {
        assert(st.windows[i].id != st.windows[k].id);
    }
}

/// Maximising fills the screen below the top bar; doing it again gives the
/// window back the place and size that it had.
pub proof fn lemma_maximise_twice(st: WmState, i: int, now: u64, later: u64)
    requires
        st.wf(),
        0 <= i < st.windows.len(),
        st.windows[i].resizable,
        st.windows[i].restore is None,
    ensures
        ({
            let id = st.windows[i].id;
            let a = st.maximise_toggled(id, now);
            let b = a.maximise_toggled(id, later);
            let full = a.windows[i].rect;
            &&& a.windows.len() == st.windows.len()
            &&& a.windows[i].is_maximized()
            &&& full.x == 0 && full.y == TOPBAR_H && full.w == st.s.width && full.y + full.h == st.s.height
            &&& b.windows.len() == st.windows.len()
            &&& !b.windows[i].is_maximized()
            &&& b.windows[i].rect == st.windows[i].rect
            &&& forall|k: int|
                0 <= k < st.windows.len() && k != i ==> #[trigger] b.windows[k] == st.windows[k]
        }),
{
    let id = st.windows[i].id;
    lemma_found(st, i);
    let a = st.maximise_toggled(id, now);
    lemma_toggled(st, i, now);
    lemma_first(st.windows, a.windows, id, 0);
    lemma_toggled(a, i, later);
}

proof fn lemma_placed(st: WmState, i: int, r: Rect)
    requires
        0 <= i < st.windows.len(),
    ensures
        ({
            let n = st.placed(i, r);
            let w = st.windows[i];
            &&& n.s == st.s
            &&& n.windows == st.windows.update(i, Window { rect: r, needs_render: n.windows[i].needs_render, ..w })
        }),
{
    reveal(WmState::placed);
}

proof fn lemma_toggled(st: WmState, i: int, now: u64)
    requires
        0 <= i < st.windows.len(),
        find(st.windows, st.windows[i].id) == Some(i),
        st.windows[i].resizable,
    ensures
        ({
            let w = st.windows[i];
            let a = st.maximise_toggled(w.id, now);
            let n = a.windows[i];
            &&& a.s == st.s
            &&& a.windows == st.windows.update(i, n)
            &&& n.id == w.id
            &&& n.resizable
            &&& n.rect == (match w.restore {
                Some(r) => r,
                None => st.full(),
            })
            &&& n.restore == (match w.restore {
                Some(r) => None,
                None => Some(w.rect),
            })
        }),
{
    let w = st.windows[i];
    let (restore, r) = match w.restore {
        Some(r) => (None::<Rect>, r),
        None => (Some(w.rect), st.full()),
    };
    let b = st.with_window(i, Window { restore, ..w });
    lemma_placed(b, i, r);
    let a = st.maximise_toggled(w.id, now);
    assert(a.windows =~= st.windows.update(i, a.windows[i]));
}

/// Two stacks with the same numbers in the same order find the same.
proof fn lemma_first(a: Seq<Window>, b: Seq<Window>, id: WindowId, from: int)
    requires
        a.len() == b.len(),
        forall|k: int| 0 <= k < a.len() ==> (#[trigger] a[k]).id == b[k].id,
    ensures
        find_from(a, id, from) == find_from(b, id, from),
    decreases a.len() - from,
{
    if 0 <= from < a.len() && a[from].id != id {
        lemma_first(a, b, id, from + 1);
    }
}

/// A window that gets the focus is on top, the others keep their order below
/// it; it is told that it has the focus, and the one that had it that it has
/// not.
pub proof fn lemma_focus_raises(st: WmState, i: int)
    requires
        st.wf(),
        0 <= i < st.windows.len(),
    ensures
        ({
            let id = st.windows[i].id;
            let f = st.focus_on(Some(id));
            &&& f.s.focused == Some(id)
            &&& f.windows.len() == st.windows.len()
            &&& f.windows.last().id == id
            &&& forall|k: int|
                0 <= k < st.windows.len() - 1 ==> (#[trigger] f.windows[k]).id == st.windows.remove(i)[k].id
                    && f.windows[k].rect == st.windows.remove(i)[k].rect
            &&& st.s.focused == Some(id) ==> f.out == st.out
            &&& st.s.focused is None ==> f.out == st.out.push(Action::Deliver(id, AppEvent::Focus(true)))
            &&& st.s.focused matches Some(old) ==> old != id && find(st.windows, old) is Some ==> f.out == st.out.push(
                Action::Deliver(old, AppEvent::Focus(false)),
            ).push(Action::Deliver(id, AppEvent::Focus(true)))
        }),
{
    let id = st.windows[i].id;
    lemma_found(st, i);
    if st.s.focused != Some(id) {
        match st.s.focused {
            Some(old) => {
                lemma_find_from(st.windows, old, 0);
                match find(st.windows, old) {
                    Some(j) => {
                        let a = st.told_focus(j, false);
                        lemma_first(st.windows, a.windows, id, 0);
                    },
                    None => {},
                }
            },
            None => {},
        }
    }
}

/// Who is under a point is the topmost window there that can be seen.
pub proof fn lemma_topmost_is_hit(ws: Seq<Window>, x: int, y: int, n: int)
    requires
        0 <= n <= ws.len(),
    ensures
        match top_hit(ws, x, y, n) {
            Some(id) => exists|i: int|
                0 <= i < n && (#[trigger] ws[i]).id == id && !ws[i].is_gone() && ws[i].hit(x, y) && forall|k: int|
                    i < k < n ==> (#[trigger] ws[k]).is_gone() || !ws[k].hit(x, y),
            None => forall|k: int| 0 <= k < n ==> (#[trigger] ws[k]).is_gone() || !ws[k].hit(x, y),
        },
    decreases n,
{
    if n > 0 {
        if !ws[n - 1].is_gone() && ws[n - 1].hit(x, y) {
            assert(ws[n - 1].id == top_hit(ws, x, y, n)->0);
        } else {
            lemma_topmost_is_hit(ws, x, y, n - 1);
        }
    }
}

/// The focus goes on to the topmost window that can be seen, and Alt+Tab to
/// the lowest one.
pub proof fn lemma_next_is_visible(ws: Seq<Window>, n: int, from: int)
    requires
        0 <= n <= ws.len(),
        0 <= from <= ws.len(),
    ensures
        match top_visible(ws, n) {
            Some(id) => exists|i: int|
                0 <= i < n && (#[trigger] ws[i]).id == id && !ws[i].is_gone() && forall|k: int|
                    i < k < n ==> (#[trigger] ws[k]).is_gone(),
            None => forall|k: int| 0 <= k < n ==> (#[trigger] ws[k]).is_gone(),
        },
        match bottom_visible(ws, from) {
            Some(id) => exists|i: int|
                from <= i < ws.len() && (#[trigger] ws[i]).id == id && !ws[i].is_gone() && forall|k: int|
                    from <= k < i ==> (#[trigger] ws[k]).is_gone(),
            None => forall|k: int| from <= k < ws.len() ==> (#[trigger] ws[k]).is_gone(),
        },
    decreases n, ws.len() - from,
{
    if n > 0 {
        if !ws[n - 1].is_gone() {
            assert(ws[n - 1].id == top_visible(ws, n)->0);
        } else {
            lemma_next_is_visible(ws, n - 1, from);
        }
    }
    if from < ws.len() {
        if !ws[from].is_gone() {
            assert(ws[from].id == bottom_visible(ws, from)->0);
        } else {
            lemma_next_is_visible(ws, n, from + 1);
        }
    }
}

/// A window that is closed no longer has the focus, the pointer or a button
/// press, and closing it again changes nothing.
pub proof fn lemma_closed_lets_go(st: WmState, i: int, now: u64, later: u64)
    requires
        st.wf(),
        0 <= i < st.windows.len(),
        !st.windows[i].closing,
        st.s.animations,
    ensures
        ({
            let id = st.windows[i].id;
            let c = st.closed(id, now);
            &&& c.s.focused != Some(id)
            &&& c.s.capture != Some(id)
            &&& c.s.hovered != Some(id)
            &&& find(c.windows, id) matches Some(k) && c.windows[k].closing && c.windows[k].is_gone()
            &&& c.closed(id, later) == c
        }),
{
    let id = st.windows[i].id;
    lemma_found(st, i);
    let anim = st.s.animation(super::anim::AnimKind::Close, super::anim::CLOSE_MS, now);
    let a = st.with_window(i, Window { closing: true, anim, ..st.windows[i] });
    lemma_first(st.windows, a.windows, id, 0);
    let b = if anim is None { a.removed(id) } else { a };
    let r = b.released(id);
    if r.s.focused == Some(id) {
        let u = r.with_shell(Shell { focused: None, ..r.s });
        let n = top_visible(u.windows, u.windows.len() as int);
        lemma_next_is_visible(u.windows, u.windows.len() as int, 0);
        reveal(stack_wf);
        match n {
            Some(t) => {
                let j = choose|j: int| 0 <= j < u.windows.len() && (#[trigger] u.windows[j]).id == t && !u.windows[j].is_gone();
                assert(j != i);
                assert(st.windows[j].id == t);
                if j < i {
                    assert(st.windows[j].id != st.windows[i].id);
                } else {
                    assert(st.windows[i].id != st.windows[j].id);
                }
                assert(t != id);
                lemma_find_from(u.windows, t, 0);
                lemma_focus_keeps(u, t, id, i);
            },
            None => {},
        }
    }
}

/// Giving the focus to one window leaves another as it is, wherever it then
/// stands.
proof fn lemma_focus_keeps(u: WmState, t: WindowId, id: WindowId, i: int)
    requires
        u.s.focused is None,
        unique(u.windows),
        0 <= i < u.windows.len(),
        u.windows[i].id == id,
        t != id,
        find(u.windows, t) is Some,
    ensures
        ({
            let f = u.focus_on(Some(t));
            find(f.windows, id) matches Some(k) && f.windows[k] == u.windows[i]
        }),
{
    let f = u.focus_on(Some(t));
    lemma_find_from(u.windows, t, 0);
    let j = find(u.windows, t)->0;
    let b = u.with_shell(Shell { focused: Some(t), ..u.s });
    let told = b.told_focus(j, true);
    let at = if j + 1 == u.windows.len() || i < j { i } else { i - 1 };
    assert(f.windows == told.raised(j).windows);
    assert(f.windows[at] == u.windows[i]);
    lemma_find_from(f.windows, id, 0);
    let k = find(f.windows, id)->0;
    if k != at {
        let from = |n: int| {
            if j + 1 == u.windows.len() || n < j {
                n
            } else if n + 1 < u.windows.len() {
                n + 1
            } else {
                j
            }
        };
        assert(f.windows[k].id == u.windows[from(k)].id);
        assert(from(k) != i);
        if from(k) < i {
            assert(u.windows[from(k)].id != u.windows[i].id);
        } else {
            assert(u.windows[i].id != u.windows[from(k)].id);
        }
    }
}

/// A click on a dock entry brings forward a window of that app, if there is
/// one, and otherwise starts the app; a click for a new window starts it in
/// any case.
pub proof fn lemma_dock_click_serves(st: WmState, kind: AppKind, new_window: bool, now: u64)
    requires
        st.wf(),
    ensures
        ({
            let c = st.dock_clicked(kind, new_window, now);
            let e = existing(st.windows, kind);
            &&& new_window || e.len() == 0 ==> c.windows == st.windows && c.s == st.s && c.out.len() == st.out.len() + 1
                && (c.out.last() matches Action::Launch(k, _) && k == kind)
            &&& !new_window && e.len() > 0 ==> {
                let w = c.windows.last();
                &&& c.s.focused == Some(w.id)
                &&& w.kind == kind
                &&& !w.closing
                &&& !w.minimized
            }
        }),
{
    let e = existing(st.windows, kind);
    lemma_existing(st.windows, kind);
    if !new_window && e.len() > 0 {
        let target = if e.len() > 1 && st.s.focused == Some(e.last()) { e[0] } else { e.last() };
        let k: int = if e.len() > 1 && st.s.focused == Some(e.last()) { 0 } else { e.len() - 1 };
        assert(e[k] == target);
        let i = choose|i: int|
            0 <= i < st.windows.len() && (#[trigger] st.windows[i]).id == e[k] && st.windows[i].kind == kind
                && !st.windows[i].closing;
        lemma_found(st, i);
        let a = st.unminimised(i, now);
        lemma_first(st.windows, a.windows, target, 0);
        if a.s.focused != Some(target) {
            match a.s.focused {
                Some(old) => {
                    lemma_find_from(a.windows, old, 0);
                    match find(a.windows, old) {
                        Some(j) => {
                            lemma_first(a.windows, a.told_focus(j, false).windows, target, 0);
                        },
                        None => {},
                    }
                },
                None => {},
            }
        }
    }
}

proof fn lemma_existing(ws: Seq<Window>, kind: AppKind)
    ensures
        forall|k: int|
            0 <= k < existing(ws, kind).len() ==> exists|i: int|
                0 <= i < ws.len() && (#[trigger] ws[i]).id == #[trigger] existing(ws, kind)[k] && ws[i].kind == kind
                    && !ws[i].closing,
    decreases ws.len(),
{
    if ws.len() > 0 {
        let d = ws.drop_last();
        lemma_existing(d, kind);
        assert forall|k: int| 0 <= k < existing(ws, kind).len() implies exists|i: int|
            0 <= i < ws.len() && (#[trigger] ws[i]).id == #[trigger] existing(ws, kind)[k] && ws[i].kind == kind
                && !ws[i].closing by {
            if k < existing(d, kind).len() {
                let i = choose|i: int|
                    0 <= i < d.len() && (#[trigger] d[i]).id == existing(d, kind)[k] && d[i].kind == kind && !d[i].closing;
                assert(ws[i] == d[i]);
            } else {
                assert(ws[ws.len() - 1].id == existing(ws, kind)[k]);
            }
        }
    }
}

/// A window that is minimised can no longer be seen, and bringing it back
/// leaves it as it was, where it was.
pub proof fn lemma_minimised_and_back(st: WmState, i: int, now: u64, later: u64)
    requires
        st.wf(),
        0 <= i < st.windows.len(),
        !st.s.animations,
        !st.windows[i].minimized,
        st.s.focused != Some(st.windows[i].id),
    ensures
        ({
            let id = st.windows[i].id;
            let m = st.minimised(id, now);
            &&& m.windows[i].is_gone()
            &&& m.windows[i].minimized
            &&& m.unminimised(i, later).windows[i] == (Window { anim: None, ..st.windows[i] })
        }),
{
    lemma_found(st, i);
}

/// A key that is no shortcut goes to the window that has the focus, and to
/// no other.
pub proof fn lemma_keys_go_to_focus(st: WmState, k: KeyEvent, now: u64)
    requires
        st.wf(),
        !k.alt,
        !(st.s.menu_open && k.key == Key::Escape),
    ensures
        ({
            let n = st.keyed(k, now);
            &&& n.windows == st.windows
            &&& n.s == st.s
            &&& st.s.focused matches Some(id) ==> (find(st.windows, id) is Some ==> n.out == st.out.push(
                Action::Deliver(id, AppEvent::Key(k)),
            ))
            &&& st.s.focused is None ==> n.out == st.out
        }),
{
    match st.s.focused {
        Some(id) => {
            lemma_find_from(st.windows, id, 0);
        },
        None => {},
    }
}

/// The pointer stays on the screen, and is where it was sent unless that is
/// off the screen.
pub proof fn lemma_pointer_on_screen(st: WmState, px: int, py: int)
    requires
        st.s.wf(),
        st.s.drag is None,
        st.s.capture is None,
        0 <= st.s.pointer.0 < st.s.width,
        0 <= st.s.pointer.1 < st.s.height,
    ensures
        ({
            let n = st.pointer_to(px, py);
            &&& 0 <= n.s.pointer.0 < st.s.width
            &&& 0 <= n.s.pointer.1 < st.s.height
            &&& 0 <= px < st.s.width ==> n.s.pointer.0 == px
            &&& 0 <= py < st.s.height ==> n.s.pointer.1 == py
            &&& px < 0 ==> n.s.pointer.0 == 0
            &&& px >= st.s.width ==> n.s.pointer.0 == st.s.width - 1
            &&& py < 0 ==> n.s.pointer.1 == 0
            &&& py >= st.s.height ==> n.s.pointer.1 == st.s.height - 1
        }),
{
}

/// A press inside a window reaches its app at the point of the client area
/// that is under the pointer; with no other press shortly before, as a
/// single click.
pub proof fn lemma_press_reaches_app(st: WmState, i: int, button: u8, now: u64)
    requires
        st.wf(),
        0 <= i < st.windows.len(),
        near_rect(st.windows[i].rect),
        ({
            let r = st.windows[i].rect;
            let (x, y) = st.s.pointer;
            &&& 2 <= x - r.x < r.w - 2
            &&& TITLEBAR_H <= y - r.y < r.h - 2
        }),
    ensures
        ({
            let r = st.windows[i].rect;
            let n = st.window_pressed(i, button, now);
            let (px, py) = st.s.pointer;
            &&& n.windows == st.windows
            &&& n.s.capture == Some(st.windows[i].id)
            &&& n.out.len() == st.out.len() + 1
            &&& n.out.last() matches Action::Deliver(id, AppEvent::MouseDown { x, y, button: b, clicks }) && id
                == st.windows[i].id && r.x + x == px && r.y + TITLEBAR_H + y == py && b == button && (!st.double_click(
                now,
                px as int,
                py as int,
            ) ==> clicks == 1)
        }),
{
}

/// A new window opens on the screen, below the top bar, no larger than was
/// asked for; one over another window is in its middle where there is room.
pub proof fn lemma_opens_on_screen(st: WmState, info: OpenInfo, over: Option<WindowId>)
    requires
        st.wf(),
        info.wf(),
        st.s.width >= 100,
        st.s.height >= 300,
        st.s.cascade >= 0,
    ensures
        ({
            let r = st.opening(info, over);
            &&& 8 <= r.x && r.x + r.w <= st.s.width - 8
            &&& TOPBAR_H + 8 <= r.y && r.y + r.h <= st.s.height - 8
            &&& r.w <= info.w && r.h - TITLEBAR_H <= info.h
            &&& info.w <= st.s.width - 40 ==> r.w == info.w
            &&& info.h <= st.s.height - TOPBAR_H - 90 ==> r.h - TITLEBAR_H == info.h
            &&& st.index(over) matches Some(i) ==> {
                let p = st.windows[i].rect;
                let x = p.x + tdiv(p.w - r.w, 2);
                let y = p.y + tdiv(p.h - r.h, 2);
                &&& 8 <= x <= st.s.width - r.w - 8 ==> -1 <= (r.x - p.x) - (p.x + p.w - (r.x + r.w)) <= 1
                &&& TOPBAR_H + 8 <= y <= st.s.height - r.h - 8 ==> -1 <= (r.y - p.y) - (p.y + p.h - (r.y + r.h)) <= 1
            }
        }),
{
    match over {
        Some(id) => {
            lemma_find_from(st.windows, id, 0);
        },
        None => {},
    }
}

/// On a screen of another size every window has its place: a maximised one
/// fills it, another is wholly on it and keeps its size if it fits.
pub proof fn lemma_relaid_on_screen(w: Window, width: int, height: int)
    requires
        w.wf(),
        100 <= width <= 0x10_0000,
        100 <= height <= 0x10_0000,
        w.rect.w >= 0,
        w.rect.h >= 0,
    ensures
        ({
            let n = relaid(w, width, height);
            let r = n.rect;
            &&& n.id == w.id
            &&& w.is_maximized() ==> r.x == 0 && r.y == TOPBAR_H && r.w == width && r.y + r.h == height
            &&& !w.is_maximized() ==> {
                &&& 8 <= r.x && r.x + r.w <= width - 8
                &&& TOPBAR_H <= r.y && r.y + r.h <= height
                &&& w.rect.w <= width - 16 ==> r.w == w.rect.w
                &&& w.rect.h <= height - TOPBAR_H - 16 ==> r.h == w.rect.h
            }
            &&& !w.is_maximized() && 8 <= w.rect.x && w.rect.x + w.rect.w <= width - 8 && TOPBAR_H <= w.rect.y
                && w.rect.y + w.rect.h <= height && w.rect.h <= height - TOPBAR_H - 16 ==> r == w.rect
        }),
{
}

/// The three buttons of a title bar stand side by side and are told apart:
/// the one whose middle is within eight pixels is the one that is pressed.
pub proof fn lemma_title_buttons(lx: int, ly: int, b: int)
    requires
        0 <= b <= 2,
        (lx - (20 + 20 * b)) * (lx - (20 + 20 * b)) + (ly - 18) * (ly - 18) <= 64,
    ensures
        button_at(lx, ly) == Some(b as u8),
{
    let dy = (ly - 18) * (ly - 18);
    let d = lx - (20 + 20 * b);
    assert(dy >= 0) by (nonlinear_arith)
        requires
            dy == (ly - 18) * (ly - 18),
    ;
    assert(-8 <= d <= 8) by (nonlinear_arith)
        requires
            d * d <= 64,
    ;
    assert(b != 0 ==> (lx - 20) * (lx - 20) > 64) by (nonlinear_arith)
        requires
            d == lx - (20 + 20 * b),
            -8 <= d <= 8,
            0 <= b <= 2,
    ;
    assert(b == 2 ==> (lx - 40) * (lx - 40) > 64) by (nonlinear_arith)
        requires
            d == lx - (20 + 20 * b),
            -8 <= d <= 8,
            0 <= b <= 2,
    ;
}

/// The icon that is drawn under a point is the dock entry that a click there
/// means.
pub proof fn lemma_dock_icons_hit(s: Shell, i: int, x: int, y: int)
    requires
        s.wf(),
        0 <= i < DOCK_LEN,
        s.icon_area(i).spec_contains(x, y),
    ensures
        s.dock_hit(x, y) == Some(i),
{
}

/// The row of the menu that is drawn under a point is the one that a click
/// there chooses, if it is no separator.
pub proof fn lemma_menu_rows_hit(i: int, x: int, y: int)
    requires
        0 <= i < MENU_LEN,
        menu_entry(i) is Some,
        menu_area().spec_contains(x, y),
        menu_row_top(i) <= y < menu_row_top(i) + menu_row_height(i),
    ensures
        menu_hit(x, y) == Some(i),
{
    assert(menu_row_height(i) == menu_row_height(i));
    let j = menu_hit(x, y)->0;
    if i < j {
        super::desktop::lemma_rows_apart(i, j);
    } else if j < i {
        super::desktop::lemma_rows_apart(j, i);
    }
}

} // verus!
