//! Pointer and keyboard: what the desktop does with input events.

use super::super::app::{AppEvent, AppKind, WindowId};
use super::super::geom::Rect;
use super::super::theme::{TITLEBAR_H, TOPBAR_H};
use super::anim::small;
use super::desktop::{
    button_at, dock_app, dock_kind, find, logo_rect, menu_area, menu_entry, menu_hit, menu_item_at, menu_rect, menu_row,
    over_logo, title_button, top_hit, Action, Drag, MenuItem, Shell, Window, Wm, WmState, RESIZE_BORDER,
};
use super::stack::lemma_window;
use crate::arith::{clamp, clamp_i64, div, max, max_i64, tdiv};
use crate::input::{InputEvent, Key, KeyEvent};
use vstd::prelude::*;

verus! {

/// Pointer motion after acceleration: fast movements count double.
pub open spec fn accelerated(d: int) -> int {
    if d > 6 || d < -6 { d * 2 } else { d }
}

/// Remainder of a division rounding towards zero.
pub open spec fn trem(a: int, b: int) -> int {
    a - b * tdiv(a, b)
}

/// The bottommost window that can be seen, from `i` on.
pub open spec fn bottom_visible(ws: Seq<Window>, i: int) -> Option<WindowId>
    decreases ws.len() - i,
{
    if i < 0 || i >= ws.len() {
        None
    } else if !ws[i].is_gone() {
        Some(ws[i].id)
    } else {
        bottom_visible(ws, i + 1)
    }
}

impl WmState {
    /// The window under a point; the top bar and the dock hide it.
    pub open spec fn window_under(self, x: int, y: int) -> Option<WindowId> {
        if y < TOPBAR_H || self.s.dock_area().spec_contains(x, y) {
            None
        } else {
            top_hit(self.windows, x, y, self.windows.len() as int)
        }
    }

    /// Where a drag takes a window.
    pub open spec fn dragged_rect(self, w: Window, drag: Drag, x: int, y: int) -> (int, int, int, int) {
        let r = w.rect;
        match drag {
            Drag::Move { id, dx, dy } => match w.restore {
                // Dragging a maximised window restores it under the pointer.
                Some(o) => (x - tdiv(o.w as int, 2), y - 12, o.w as int, o.h as int),
                None => (x - dx, clamp(y - dy, TOPBAR_H as int, self.s.height - 40), r.w as int, r.h as int),
            },
            Drag::Resize { id, right, bottom, left, start, px, py } => {
                let w1 = if right { max(start.w + x - px, w.min_w as int) } else { start.w as int };
                let w2 = if left { max(start.w - (x - px), w.min_w as int) } else { w1 };
                (
                    if left { start.x + start.w - w2 } else { start.x as int },
                    start.y as int,
                    w2,
                    if bottom { max(start.h + y - py, w.min_h + TITLEBAR_H) } else { start.h as int },
                )
            },
        }
    }

    /// A drag goes on; one that would lead out of the coordinate range
    /// leaves the window where it is.
    pub open spec fn dragged(self, drag: Drag, x: int, y: int) -> WmState {
        let id = match drag {
            Drag::Move { id, dx, dy } => id,
            Drag::Resize { id, right, bottom, left, start, px, py } => id,
        };
        match find(self.windows, id) {
            Some(i) => {
                let w = self.windows[i];
                let (rx, ry, rw, rh) = self.dragged_rect(w, drag, x, y);
                let r = Rect { x: rx as i32, y: ry as i32, w: rw as i32, h: rh as i32 };
                if !(small(rx) && small(ry) && small(rw) && small(rh)) {
                    self
                } else if drag is Move && w.is_maximized() {
                    self.with_window(i, Window { restore: None, ..w }).with_shell(
                        Shell { drag: Some(Drag::Move { id, dx: (x - rx) as i32, dy: (y - ry) as i32 }), ..self.s },
                    ).placed(i, r)
                } else {
                    self.placed(i, r)
                }
            },
            None => self,
        }
    }

    /// The area of a software cursor at a point is repainted.
    pub open spec fn cursor_moved(self, x: int, y: int) -> WmState {
        let ox = self.s.pointer.0 - self.s.cursor_hot.0;
        let oy = self.s.pointer.1 - self.s.cursor_hot.1;
        let a = if self.s.hw_cursor {
            self
        } else {
            self.damaged(Rect { x: ox as i32, y: oy as i32, w: 24, h: 26 }).damaged(
                Rect { x: (x - self.s.cursor_hot.0) as i32, y: (y - self.s.cursor_hot.1) as i32, w: 24, h: 26 },
            )
        };
        a.with_shell(Shell { pointer: (x as i32, y as i32), cursor_dirty: true, ..a.s })
    }

    pub open spec fn menu_hovered(self, x: int, y: int) -> WmState {
        let h = match menu_hit(x, y) {
            Some(i) => Some(i as usize),
            None => None,
        };
        if self.s.menu_open && h != self.s.menu_hover {
            self.with_shell(Shell { menu_hover: h, ..self.s }).damaged(menu_area())
        } else {
            self
        }
    }

    pub open spec fn dock_hovered(self, x: int, y: int) -> WmState {
        let h = match self.s.dock_hit(x, y) {
            Some(i) => Some(i as usize),
            None => None,
        };
        if h != self.s.dock_hover {
            self.with_shell(Shell { dock_hover: h, ..self.s }).damaged(self.s.dock_surroundings())
        } else {
            self
        }
    }

    /// The pointer is now over another window, or over none.
    pub open spec fn hover_to(self, under: Option<WindowId>) -> WmState {
        if under == self.s.hovered {
            self
        } else {
            let a = match self.index(self.s.hovered) {
                Some(i) => {
                    let w = self.windows[i];
                    let b = if w.hover_button is Some {
                        self.with_window(i, Window { hover_button: None, needs_render: true, ..w })
                    } else {
                        self
                    };
                    b.delivered(w.id, AppEvent::MouseLeave)
                },
                None => self,
            };
            a.with_shell(Shell { hovered: under, ..a.s })
        }
    }

    /// The pointer moved over a window.
    pub open spec fn moved_over(self, under: Option<WindowId>, x: int, y: int) -> WmState {
        match self.index(under) {
            Some(i) => {
                let w = self.windows[i];
                let lx = x - w.rect.x;
                let ly = y - w.rect.y;
                let hb = button_at(lx, ly);
                let a = if hb != w.hover_button {
                    self.with_window(i, Window { hover_button: hb, needs_render: true, ..w })
                } else {
                    self
                };
                if ly >= TITLEBAR_H {
                    a.delivered(
                        w.id,
                        AppEvent::MouseMove { x: lx as i32, y: (ly - TITLEBAR_H) as i32, buttons: self.s.buttons },
                    )
                } else {
                    a
                }
            },
            None => self,
        }
    }

    /// The desktop after the pointer moved.
    pub open spec fn pointer_to(self, px: int, py: int) -> WmState {
        let x = clamp(px, 0, self.s.width - 1);
        let y = clamp(py, 0, self.s.height - 1);
        if x == self.s.pointer.0 && y == self.s.pointer.1 {
            self
        } else {
            let a = self.cursor_moved(x, y);
            if a.s.drag is Some {
                a.dragged(a.s.drag->0, x, y)
            } else {
                match a.index(a.s.capture) {
                    Some(i) => {
                        let r = a.windows[i].rect;
                        a.delivered(
                            a.windows[i].id,
                            AppEvent::MouseMove {
                                x: (x - r.x) as i32,
                                y: (y - r.y - TITLEBAR_H) as i32,
                                buttons: a.s.buttons,
                            },
                        )
                    },
                    None => {
                        let b = a.menu_hovered(x, y).dock_hovered(x, y);
                        let under = b.window_under(x, y);
                        b.hover_to(under).moved_over(under, x, y)
                    },
                }
            }
        }
    }

    pub open spec fn menu_closed(self) -> WmState {
        self.with_shell(Shell { menu_open: false, ..self.s }).damaged(Rect { x: -14i32, y: 12, w: 260, h: 266 })
    }

    pub open spec fn menu_chosen(self, item: MenuItem, now: u64) -> WmState {
        match item {
            MenuItem::About => self.dock_clicked(AppKind::About, false, now),
            MenuItem::Settings => self.dock_clicked(AppKind::Settings, false, now),
            MenuItem::Explorer => self.launching(AppKind::Explorer),
            MenuItem::Terminal => self.launching(AppKind::Terminal),
            MenuItem::Editor => self.launching(AppKind::Editor),
            MenuItem::Restart => WmState { out: self.out.push(Action::Restart), ..self },
            MenuItem::ShutDown => WmState { out: self.out.push(Action::ShutDown), ..self },
        }
    }

    /// Whether a click at this time and place continues the last one.
    pub open spec fn double_click(self, now: u64, x: int, y: int) -> bool {
        &&& now - self.s.last_click.0 < self.s.double_click_ms
        &&& -5 < x - self.s.last_click.1 < 5
        &&& -5 < y - self.s.last_click.2 < 5
    }

    /// A press on the title bar of a window.
    pub open spec fn title_pressed(self, id: WindowId, lx: int, ly: int, now: u64) -> WmState {
        let (x, y) = self.s.pointer;
        match button_at(lx, ly) {
            Some(b) => if b == 0 {
                WmState { out: self.out.push(Action::RequestClose(id)), ..self }
            } else if b == 1 {
                self.minimised(id, now)
            } else {
                self.maximise_toggled(id, now)
            },
            None => if self.double_click(now, x as int, y as int) {
                let a = self.maximise_toggled(id, now);
                a.with_shell(Shell { last_click: (0, x, y, 1), ..a.s })
            } else {
                self.with_shell(
                    Shell {
                        last_click: (now, x, y, 1),
                        drag: Some(Drag::Move { id, dx: lx as i32, dy: ly as i32 }),
                        ..self.s
                    },
                )
            },
        }
    }

    /// A press on a window that has just got the focus.
    pub open spec fn window_pressed(self, i: int, button: u8, now: u64) -> WmState {
        let (x, y) = self.s.pointer;
        let w = self.windows[i];
        let r = w.rect;
        let lx = x - r.x;
        let ly = y - r.y;
        let right = r.w - 2 <= lx < r.w + RESIZE_BORDER;
        let bottom = r.h - 2 <= ly < r.h + RESIZE_BORDER;
        let left = -RESIZE_BORDER <= lx < 2;
        if !w.is_maximized() && w.resizable && button == 0 && (right || bottom || left) {
            self.with_shell(
                Shell {
                    drag: Some(Drag::Resize { id: w.id, right, bottom, left, start: r, px: x, py: y }),
                    ..self.s
                },
            )
        } else if !r.spec_contains(x as int, y as int) {
            self
        } else if ly < TITLEBAR_H {
            if button != 0 { self } else { self.title_pressed(w.id, lx, ly, now) }
        } else {
            let clicks = if self.double_click(now, x as int, y as int) {
                if self.s.last_click.3 == 255 { 255u8 } else { (self.s.last_click.3 + 1) as u8 }
            } else {
                1u8
            };
            self.with_shell(Shell { last_click: (now, x, y, clicks), capture: Some(w.id), ..self.s }).delivered(
                w.id,
                AppEvent::MouseDown { x: lx as i32, y: (ly - TITLEBAR_H) as i32, button, clicks },
            )
        }
    }

    /// A press anywhere but on the open menu.
    pub open spec fn desktop_pressed(self, button: u8, now: u64) -> WmState {
        let x = self.s.pointer.0 as int;
        let y = self.s.pointer.1 as int;
        if y < TOPBAR_H {
            if over_logo(x, y) && button == 0 {
                self.with_shell(
                    Shell {
                        menu_open: true,
                        menu_opened_at: if self.s.animations { now } else { 0 },
                        menu_hover: None,
                        ..self.s
                    },
                ).damaged(menu_area())
            } else {
                self
            }
        } else if self.s.dock_hit(x, y) is Some {
            self.dock_clicked(dock_app(self.s.dock_hit(x, y)->0), button == 1, now)
        } else if self.s.dock_area().spec_contains(x, y) {
            self
        } else {
            match self.window_under(x, y) {
                Some(id) => {
                    let a = self.focus_on(Some(id));
                    match find(a.windows, id) {
                        Some(i) => a.window_pressed(i, button, now),
                        None => a,
                    }
                },
                None => self,
            }
        }
    }

    /// The desktop after a mouse button went down.
    pub open spec fn pressed(self, button: u8, now: u64) -> WmState {
        let x = self.s.pointer.0 as int;
        let y = self.s.pointer.1 as int;
        if self.s.menu_open {
            match menu_hit(x, y) {
                Some(i) => self.menu_closed().menu_chosen(menu_entry(i)->0, now),
                None => if over_logo(x, y) {
                    self.menu_closed()
                } else {
                    self.menu_closed().desktop_pressed(button, now)
                },
            }
        } else {
            self.desktop_pressed(button, now)
        }
    }

    pub open spec fn released_button(self, button: u8) -> WmState {
        let (x, y) = self.s.pointer;
        if self.s.drag is Some {
            self.with_shell(Shell { drag: None, ..self.s })
        } else {
            let a = self.with_shell(Shell { capture: None, ..self.s });
            match self.index(self.s.capture) {
                Some(i) => {
                    let r = self.windows[i].rect;
                    a.delivered(
                        self.windows[i].id,
                        AppEvent::MouseUp { x: (x - r.x) as i32, y: (y - r.y - TITLEBAR_H) as i32, button },
                    )
                },
                None => a,
            }
        }
    }

    pub open spec fn wheeled(self, delta: i32) -> WmState {
        let (x, y) = self.s.pointer;
        match self.index(self.window_under(x as int, y as int)) {
            Some(i) => {
                let r = self.windows[i].rect;
                self.delivered(
                    self.windows[i].id,
                    AppEvent::Wheel { x: (x - r.x) as i32, y: (y - r.y - TITLEBAR_H) as i32, delta },
                )
            },
            None => self,
        }
    }

    /// The desktop after a key event: shortcuts first, then the window
    /// that has the focus.
    pub open spec fn keyed(self, k: KeyEvent, now: u64) -> WmState {
        if k.pressed && self.s.menu_open && k.key == Key::Escape {
            self.menu_closed()
        } else if k.pressed && k.ctrl && k.alt && k.key == Key::Char('t') {
            self.launching(AppKind::Terminal)
        } else if k.pressed && k.ctrl && k.alt && k.key == Key::Char('e') {
            self.launching(AppKind::Explorer)
        } else if k.pressed && k.ctrl && k.alt && k.key == Key::Char('s') {
            self.dock_clicked(AppKind::Settings, false, now)
        } else if k.pressed && k.alt && k.key == Key::F(4) {
            match self.s.focused {
                Some(id) => WmState { out: self.out.push(Action::RequestClose(id)), ..self },
                None => self,
            }
        } else if k.pressed && k.alt && k.key == Key::Tab {
            match bottom_visible(self.windows, 0) {
                Some(id) => self.focus_on(Some(id)),
                None => self,
            }
        } else {
            match self.index(self.s.focused) {
                Some(i) => self.delivered(self.windows[i].id, AppEvent::Key(k)),
                None => self,
            }
        }
    }

    /// The desktop after an input event.
    pub open spec fn after_input(self, ev: InputEvent, now: u64) -> WmState {
        match ev {
            InputEvent::MouseMove { dx, dy } => {
                // Pointer speed (1..=10, 5 = 1:1) plus acceleration.
                let sx = accelerated(dx as int) * self.s.pointer_speed + self.s.motion_rem.0;
                let sy = accelerated(dy as int) * self.s.pointer_speed + self.s.motion_rem.1;
                let s = Shell { motion_rem: (trem(sx, 5) as i32, trem(sy, 5) as i32), ..self.s };
                self.with_shell(s).pointer_to(self.s.pointer.0 + tdiv(sx, 5), self.s.pointer.1 + tdiv(sy, 5))
            },
            InputEvent::MouseAbsolute { x, y } => self.pointer_to(
                match x {
                    Some(v) => v * self.s.width / 65536,
                    None => self.s.pointer.0 as int,
                },
                match y {
                    Some(v) => v * self.s.height / 65536,
                    None => self.s.pointer.1 as int,
                },
            ),
            InputEvent::MouseButton { button, pressed } => if pressed {
                self.with_shell(Shell { buttons: self.s.buttons | (1u8 << button), ..self.s }).pressed(button, now)
            } else {
                self.with_shell(Shell { buttons: self.s.buttons & !(1u8 << button), ..self.s }).released_button(button)
            },
            InputEvent::Wheel(d) => self.wheeled(if self.s.natural_scroll { (-d) as i32 } else { d }),
            InputEvent::Key(k) => self.keyed(k, now),
        }
    }
}

impl Wm {
    pub fn window_at(&self, x: i32, y: i32) -> (r: Option<WindowId>)
        requires
            self@.wf(),
        ensures
            r == self@.window_under(x as int, y as int),
    {
        if y < TOPBAR_H || self.s.dock_rect().contains(x, y) {
            return None;
        }
        let mut n: usize = self.windows.len();
        while n > 0
            invariant
                self@.wf(),
                y >= TOPBAR_H,
                !self@.s.dock_area().spec_contains(x as int, y as int),
                n <= self.windows@.len(),
                top_hit(self.windows@, x as int, y as int, self.windows@.len() as int) == top_hit(
                    self.windows@,
                    x as int,
                    y as int,
                    n as int,
                ),
            decreases n,
        {
            proof {
                lemma_window(self@, n - 1);
            }
            let w: Window = self.windows[n - 1];
            if !w.gone() && w.is_hit(x, y) {
                return Some(w.id);
            }
            n -= 1;
        }
        None
    }

    fn drag_rect(&self, w: &Window, drag: &Drag, x: i32, y: i32) -> (r: Option<Rect>)
        requires
            self@.wf(),
            w.wf(),
            self@.s.drag == Some(*drag),
            0 <= x < self@.s.width,
            0 <= y < self@.s.height,
        ensures
            ({
                let (rx, ry, rw, rh) = self@.dragged_rect(*w, *drag, x as int, y as int);
                match r {
                    Some(o) => small(rx) && small(ry) && small(rw) && small(rh) && o == (Rect {
                        x: rx as i32,
                        y: ry as i32,
                        w: rw as i32,
                        h: rh as i32,
                    }),
                    None => !(small(rx) && small(ry) && small(rw) && small(rh)),
                }
            }),
    {
        let px0: i64 = x as i64;
        let py0: i64 = y as i64;
        let (rx, ry, rw, rh): (i64, i64, i64, i64) = match *drag {
            Drag::Move { id, dx, dy } => match w.restore {
                Some(o) => (px0 - div(o.w as i64, 2), py0 - 12, o.w as i64, o.h as i64),
                None => (
                    px0 - dx as i64,
                    clamp_i64(py0 - dy as i64, 28, self.s.height as i64 - 40),
                    w.rect.w as i64,
                    w.rect.h as i64,
                ),
            },
            Drag::Resize { id, right, bottom, left, start, px, py } => {
                let mw: i64 = w.min_w as i64;
                let w1: i64 = if right { max_i64(start.w as i64 + px0 - px as i64, mw) } else { start.w as i64 };
                let w2: i64 = if left { max_i64(start.w as i64 - (px0 - px as i64), mw) } else { w1 };
                (
                    if left { start.x as i64 + start.w as i64 - w2 } else { start.x as i64 },
                    start.y as i64,
                    w2,
                    if bottom { max_i64(start.h as i64 + py0 - py as i64, w.min_h as i64 + 36) } else { start.h as i64 },
                )
            },
        };
        if is_small(rx) && is_small(ry) && is_small(rw) && is_small(rh) {
            Some(Rect::new(rx as i32, ry as i32, rw as i32, rh as i32))
        } else {
            None
        }
    }

    pub fn continue_drag(&mut self, drag: Drag, x: i32, y: i32)
        requires
            old(self)@.wf(),
            old(self)@.s.drag == Some(drag),
            0 <= x < old(self)@.s.width,
            0 <= y < old(self)@.s.height,
        ensures
            final(self)@ == old(self)@.dragged(drag, x as int, y as int),
            final(self)@.wf(),
    {
        let id: WindowId = match drag {
            Drag::Move { id, dx, dy } => id,
            Drag::Resize { id, right, bottom, left, start, px, py } => id,
        };
        if let Some(i) = self.index_of(id) {
            proof {
                lemma_window(self@, i as int);
            }
            let w: Window = self.windows[i];
            if let Some(r) = self.drag_rect(&w, &drag, x, y) {
                if w.maximized() {
                    if let Drag::Move { id: _, dx: _, dy: _ } = drag {
                        let n: Window = Window { restore: None, ..w };
                        self.set_window(i, n);
                        self.s.drag = Some(Drag::Move { id, dx: x - r.x, dy: y - r.y });
                    }
                }
                self.set_rect(i, r);
            }
        }
    }

    fn move_cursor(&mut self, x: i32, y: i32)
        requires
            old(self)@.wf(),
            0 <= x < old(self)@.s.width,
            0 <= y < old(self)@.s.height,
        ensures
            final(self)@ == old(self)@.cursor_moved(x as int, y as int),
            final(self)@.wf(),
    {
        if !self.s.hw_cursor {
            let hx: i32 = self.s.cursor_hot.0;
            let hy: i32 = self.s.cursor_hot.1;
            self.damage(Rect::new(self.s.pointer.0 - hx, self.s.pointer.1 - hy, 24, 26));
            self.damage(Rect::new(x - hx, y - hy, 24, 26));
        }
        self.s.pointer = (x, y);
        self.s.cursor_dirty = true;
    }

    fn hover_menu(&mut self, x: i32, y: i32)
        requires
            old(self)@.wf(),
        ensures
            final(self)@ == old(self)@.menu_hovered(x as int, y as int),
            final(self)@.wf(),
    {
        let h: Option<usize> = menu_item_at(x, y);
        if self.s.menu_open && h != self.s.menu_hover {
            self.s.menu_hover = h;
            self.damage(menu_rect());
        }
    }

    fn hover_dock(&mut self, x: i32, y: i32)
        requires
            old(self)@.wf(),
        ensures
            final(self)@ == old(self)@.dock_hovered(x as int, y as int),
            final(self)@.wf(),
    {
        let h: Option<usize> = self.s.dock_entry_at(x, y);
        if h != self.s.dock_hover {
            self.s.dock_hover = h;
            let d: Rect = self.s.dock_damage_rect();
            self.damage(d);
        }
    }

    fn hover_window(&mut self, under: Option<WindowId>)
        requires
            old(self)@.wf(),
        ensures
            final(self)@ == old(self)@.hover_to(under),
            final(self)@.wf(),
    {
        if under != self.s.hovered {
            if let Some(i) = self.index_of_opt(self.s.hovered) {
                proof {
                    lemma_window(self@, i as int);
                }
                let w: Window = self.windows[i];
                if w.hover_button.is_some() {
                    let n: Window = Window { hover_button: None, needs_render: true, ..w };
                    self.set_window(i, n);
                }
                self.deliver(w.id, AppEvent::MouseLeave);
            }
            self.s.hovered = under;
        }
    }

    fn move_over(&mut self, under: Option<WindowId>, x: i32, y: i32)
        requires
            old(self)@.wf(),
            0 <= x < 0x10_0000,
            0 <= y < 0x10_0000,
        ensures
            final(self)@ == old(self)@.moved_over(under, x as int, y as int),
            final(self)@.wf(),
    {
        if let Some(i) = self.index_of_opt(under) {
            proof {
                lemma_window(self@, i as int);
            }
            let w: Window = self.windows[i];
            let lx: i32 = x - w.rect.x;
            let ly: i32 = y - w.rect.y;
            let hb: Option<u8> = title_button(lx, ly);
            if hb != w.hover_button {
                let n: Window = Window { hover_button: hb, needs_render: true, ..w };
                self.set_window(i, n);
            }
            if ly >= TITLEBAR_H {
                let buttons: u8 = self.s.buttons;
                self.deliver(w.id, AppEvent::MouseMove { x: lx, y: ly - TITLEBAR_H, buttons });
            }
        }
    }

    pub fn pointer_moved(&mut self, px: i64, py: i64)
        requires
            old(self)@.wf(),
        ensures
            final(self)@ == old(self)@.pointer_to(px as int, py as int),
            final(self)@.wf(),
    {
        let x: i32 = clamp_i64(px, 0, self.s.width as i64 - 1) as i32;
        let y: i32 = clamp_i64(py, 0, self.s.height as i64 - 1) as i32;
        if x == self.s.pointer.0 && y == self.s.pointer.1 {
            return;
        }
        self.move_cursor(x, y);
        if let Some(drag) = self.s.drag {
            self.continue_drag(drag, x, y);
            return;
        }
        if let Some(i) = self.index_of_opt(self.s.capture) {
            proof {
                lemma_window(self@, i as int);
            }
            let w: Window = self.windows[i];
            let buttons: u8 = self.s.buttons;
            self.deliver(w.id, AppEvent::MouseMove { x: x - w.rect.x, y: y - w.rect.y - TITLEBAR_H, buttons });
            return;
        }
        self.hover_menu(x, y);
        self.hover_dock(x, y);
        let under: Option<WindowId> = self.window_at(x, y);
        self.hover_window(under);
        self.move_over(under, x, y);
    }

    pub fn close_menu(&mut self)
        requires
            old(self)@.wf(),
        ensures
            final(self)@ == old(self)@.menu_closed(),
            final(self)@.wf(),
    {
        self.s.menu_open = false;
        self.damage(Rect::new(-14, 12, 260, 266));
    }

    pub fn menu_action(&mut self, item: MenuItem, now: u64)
        requires
            old(self)@.wf(),
        ensures
            final(self)@ == old(self)@.menu_chosen(item, now),
            final(self)@.wf(),
    {
        match item {
            MenuItem::About => self.dock_click(AppKind::About, false, now),
            MenuItem::Settings => self.dock_click(AppKind::Settings, false, now),
            MenuItem::Explorer => self.open_kind(AppKind::Explorer),
            MenuItem::Terminal => self.open_kind(AppKind::Terminal),
            MenuItem::Editor => self.open_kind(AppKind::Editor),
            MenuItem::Restart => self.out.push(Action::Restart),
            MenuItem::ShutDown => self.out.push(Action::ShutDown),
        }
    }

    pub fn is_double_click(&self, now: u64, x: i32, y: i32) -> (r: bool)
        ensures
            r == self@.double_click(now, x as int, y as int),
    {
        let (t, lx, ly, _): (u64, i32, i32, u8) = self.s.last_click;
        let dx: i64 = x as i64 - lx as i64;
        let dy: i64 = y as i64 - ly as i64;
        (now < t || now - t < self.s.double_click_ms as u64) && -5 < dx && dx < 5 && -5 < dy && dy < 5
    }

    fn press_title(&mut self, id: WindowId, lx: i32, ly: i32, now: u64)
        requires
            old(self)@.wf(),
            small(lx as int),
            small(ly as int),
        ensures
            final(self)@ == old(self)@.title_pressed(id, lx as int, ly as int, now),
            final(self)@.wf(),
    {
        let (x, y): (i32, i32) = self.s.pointer;
        if let Some(b) = title_button(lx, ly) {
            if b == 0 {
                self.out.push(Action::RequestClose(id));
            } else if b == 1 {
                self.minimize(id, now);
            } else {
                self.toggle_maximize(id, now);
            }
            return;
        }
        if self.is_double_click(now, x, y) {
            self.toggle_maximize(id, now);
            self.s.last_click = (0, x, y, 1);
        } else {
            self.s.last_click = (now, x, y, 1);
            self.s.drag = Some(Drag::Move { id, dx: lx, dy: ly });
        }
    }

    fn press_window(&mut self, i: usize, button: u8, now: u64)
        requires
            old(self)@.wf(),
            i < old(self)@.windows.len(),
        ensures
            final(self)@ == old(self)@.window_pressed(i as int, button, now),
            final(self)@.wf(),
    {
        proof {
            lemma_window(self@, i as int);
        }
        let (x, y): (i32, i32) = self.s.pointer;
        let w: Window = self.windows[i];
        let r: Rect = w.rect;
        let lx: i32 = x - r.x;
        let ly: i32 = y - r.y;
        let right: bool = lx >= r.w - 2 && lx < r.w + RESIZE_BORDER;
        let bottom: bool = ly >= r.h - 2 && ly < r.h + RESIZE_BORDER;
        let left: bool = lx < 2 && lx >= -RESIZE_BORDER;
        if !w.maximized() && w.resizable && button == 0 && (right || bottom || left) {
            self.s.drag = Some(Drag::Resize { id: w.id, right, bottom, left, start: r, px: x, py: y });
            return;
        }
        if !r.contains(x, y) {
            return;
        }
        if ly < TITLEBAR_H {
            if button == 0 {
                self.press_title(w.id, lx, ly, now);
            }
            return;
        }
        let clicks: u8 = if self.is_double_click(now, x, y) { self.s.last_click.3.saturating_add(1) } else { 1 };
        self.s.last_click = (now, x, y, clicks);
        self.s.capture = Some(w.id);
        self.deliver(w.id, AppEvent::MouseDown { x: lx, y: ly - TITLEBAR_H, button, clicks });
    }

    fn press_desktop(&mut self, button: u8, now: u64)
        requires
            old(self)@.wf(),
        ensures
            final(self)@ == old(self)@.desktop_pressed(button, now),
            final(self)@.wf(),
    {
        let (x, y): (i32, i32) = self.s.pointer;
        if y < TOPBAR_H {
            if logo_rect().contains(x, y) && button == 0 {
                self.s.menu_open = true;
                self.s.menu_opened_at = if self.s.animations { now } else { 0 };
                self.s.menu_hover = None;
                self.damage(menu_rect());
            }
            return;
        }
        if let Some(i) = self.s.dock_entry_at(x, y) {
            self.dock_click(dock_kind(i), button == 1, now);
            return;
        }
        if self.s.dock_rect().contains(x, y) {
            return;
        }
        if let Some(id) = self.window_at(x, y) {
            self.focus(Some(id));
            if let Some(i) = self.index_of(id) {
                self.press_window(i, button, now);
            }
        }
    }

    pub fn mouse_down(&mut self, button: u8, now: u64)
        requires
            old(self)@.wf(),
        ensures
            final(self)@ == old(self)@.pressed(button, now),
            final(self)@.wf(),
    {
        let (x, y): (i32, i32) = self.s.pointer;
        if self.s.menu_open {
            if let Some(i) = menu_item_at(x, y) {
                if let Some(item) = menu_row(i) {
                    self.close_menu();
                    self.menu_action(item, now);
                }
                return;
            }
            self.close_menu();
            if logo_rect().contains(x, y) {
                return;
            }
        }
        self.press_desktop(button, now);
    }

    pub fn mouse_up(&mut self, button: u8)
        requires
            old(self)@.wf(),
        ensures
            final(self)@ == old(self)@.released_button(button),
            final(self)@.wf(),
    {
        let (x, y): (i32, i32) = self.s.pointer;
        if self.s.drag.is_some() {
            self.s.drag = None;
            return;
        }
        let captured: Option<usize> = self.index_of_opt(self.s.capture);
        self.s.capture = None;
        if let Some(i) = captured {
            proof {
                lemma_window(self@, i as int);
            }
            let w: Window = self.windows[i];
            self.deliver(w.id, AppEvent::MouseUp { x: x - w.rect.x, y: y - w.rect.y - TITLEBAR_H, button });
        }
    }

    pub fn wheel(&mut self, delta: i32)
        requires
            old(self)@.wf(),
        ensures
            final(self)@ == old(self)@.wheeled(delta),
            final(self)@.wf(),
    {
        let (x, y): (i32, i32) = self.s.pointer;
        if let Some(i) = self.index_of_opt(self.window_at(x, y)) {
            proof {
                lemma_window(self@, i as int);
            }
            let w: Window = self.windows[i];
            self.deliver(w.id, AppEvent::Wheel { x: x - w.rect.x, y: y - w.rect.y - TITLEBAR_H, delta });
        }
    }

    fn lowest_visible(&self) -> (r: Option<WindowId>)
        ensures
            r == bottom_visible(self@.windows, 0),
    {
        let mut i: usize = 0;
        while i < self.windows.len()
            invariant
                i <= self.windows@.len(),
                bottom_visible(self.windows@, 0) == bottom_visible(self.windows@, i as int),
            decreases self.windows@.len() - i,
        {
            let w: Window = self.windows[i];
            if !w.gone() {
                return Some(w.id);
            }
            i += 1;
        }
        None
    }

    pub fn key(&mut self, k: KeyEvent, now: u64)
        requires
            old(self)@.wf(),
        ensures
            final(self)@ == old(self)@.keyed(k, now),
            final(self)@.wf(),
    {
        if k.pressed {
            if self.s.menu_open && k.key == Key::Escape {
                self.close_menu();
                return;
            }
            if k.ctrl && k.alt && k.key == Key::Char('t') {
                self.open_kind(AppKind::Terminal);
                return;
            }
            if k.ctrl && k.alt && k.key == Key::Char('e') {
                self.open_kind(AppKind::Explorer);
                return;
            }
            if k.ctrl && k.alt && k.key == Key::Char('s') {
                self.dock_click(AppKind::Settings, false, now);
                return;
            }
            if k.alt && k.key == Key::F(4) {
                if let Some(id) = self.s.focused {
                    self.out.push(Action::RequestClose(id));
                }
                return;
            }
            if k.alt && k.key == Key::Tab {
                if let Some(id) = self.lowest_visible() {
                    self.focus(Some(id));
                }
                return;
            }
        }
        if let Some(i) = self.index_of_opt(self.s.focused) {
            let id: WindowId = self.windows[i].id;
            self.deliver(id, AppEvent::Key(k));
        }
    }

    /// React to an input event.
    pub fn handle(&mut self, ev: InputEvent, now: u64)
        requires
            old(self)@.wf(),
            ev matches InputEvent::MouseButton { button, pressed } ==> button < 8,
            ev matches InputEvent::Wheel(d) ==> d > i32::MIN,
        ensures
            final(self)@ == old(self)@.after_input(ev, now),
            final(self)@.wf(),
    {
        match ev {
            InputEvent::MouseMove { dx, dy } => {
                let sx: i64 = scaled_motion(dx, self.s.pointer_speed, self.s.motion_rem.0);
                let sy: i64 = scaled_motion(dy, self.s.pointer_speed, self.s.motion_rem.1);
                let qx: i64 = div(sx, 5);
                let qy: i64 = div(sy, 5);
                self.s.motion_rem = ((sx - 5 * qx) as i32, (sy - 5 * qy) as i32);
                let x: i64 = self.s.pointer.0 as i64 + qx;
                let y: i64 = self.s.pointer.1 as i64 + qy;
                self.pointer_moved(x, y);
            },
            InputEvent::MouseAbsolute { x, y } => {
                let nx: i64 = match x {
                    Some(v) => absolute(v, self.s.width),
                    None => self.s.pointer.0 as i64,
                };
                let ny: i64 = match y {
                    Some(v) => absolute(v, self.s.height),
                    None => self.s.pointer.1 as i64,
                };
                self.pointer_moved(nx, ny);
            },
            InputEvent::MouseButton { button, pressed } => {
                if pressed {
                    self.s.buttons = self.s.buttons | (1u8 << button);
                    self.mouse_down(button, now);
                } else {
                    self.s.buttons = self.s.buttons & !(1u8 << button);
                    self.mouse_up(button);
                }
            },
            InputEvent::Wheel(d) => {
                let delta: i32 = if self.s.natural_scroll { -d } else { d };
                self.wheel(delta);
            },
            InputEvent::Key(k) => self.key(k, now),
        }
    }
}

fn is_small(v: i64) -> (r: bool)
    ensures
        r == small(v as int),
{
    -0x800_0000 < v && v < 0x800_0000
}

fn scaled_motion(d: i32, speed: u8, rem: i32) -> (r: i64)
    ensures
        r == accelerated(d as int) * speed + rem,
        -0x200_0000_0000 < r < 0x200_0000_0000,
{
    let a: i64 = if d > 6 || d < -6 { d as i64 * 2 } else { d as i64 };
    proof {
        assert(-0x100_0000_0000 <= a * speed <= 0x100_0000_0000) by (nonlinear_arith)
            requires
                -0x1_0000_0000 <= a <= 0x1_0000_0000,
                0 <= speed <= 255,
        ;
    }
    a * speed as i64 + rem as i64
}

fn absolute(v: u32, size: i32) -> (r: i64)
    requires
        0 <= size,
    ensures
        r == v * size / 65536,
{
    proof {
        assert(0 <= v * size <= 0xffff_ffff * 0x7fff_ffff) by (nonlinear_arith)
            requires
                0 <= v <= 0xffff_ffff,
                0 <= size <= 0x7fff_ffff,
        ;
    }
    v as i64 * size as i64 / 65536
}

/// A tablet's far corner is the last pixel of the screen, and its near
/// corner the first.
pub proof fn lemma_absolute_corners(size: int)
    requires
        1 <= size <= 65536,
    ensures
        0 * size / 65536 == 0,
        65535 * size / 65536 == size - 1,
{
}

/// Slow motion at normal speed moves the pointer one to one, and loses
/// nothing: what is not moved yet remains for the next movement.
pub proof fn lemma_motion_keeps_rest(d: int, speed: int, rem: int)
    ensures
        ({
            let s = accelerated(d) * speed + rem;
            s == 5 * tdiv(s, 5) + trem(s, 5)
        }),
        -6 <= d <= 6 && speed == 5 && rem == 0 ==> tdiv(accelerated(d) * speed + rem, 5) == d,
{
}

} // verus!
