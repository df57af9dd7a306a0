//! Desktop window for a Wayland toplevel.

use crate::arith::max;
use crate::gui::app::AppEvent;
use crate::input::KeyEvent;
use vstd::prelude::*;

verus! {

/// What goes to the program.
#[derive(Clone, Copy)]
pub enum Feed {
    Nothing,
    Motion(i32, i32),
    /// The pointer moves, and a button is pressed.
    Press(i32, i32, u8),
    Release(u8),
    Leave,
    Axis(i32),
    Key(KeyEvent),
    Focus(bool),
    /// The window has a new size; whether it has the focus.
    Resize(i32, i32, bool),
}

#[derive(Clone, Copy)]
pub struct WaylandWindow {
    /// The picture that is shown.
    pub shown: u32,
    pub size: (i32, i32),
    /// Size last sent to the program.
    pub configured: (i32, i32),
    pub focused: bool,
}

/// What a tick asks for.
#[derive(Clone, Copy)]
pub struct Ticked {
    pub close: bool,
    pub resize: Option<(i32, i32, bool)>,
    /// The part of the window to draw again.
    pub redraw: Option<(i32, i32)>,
}

impl WaylandWindow {
    pub open spec fn after(self, ev: AppEvent) -> (WaylandWindow, Feed, bool) {
        match ev {
            AppEvent::MouseMove { x, y, .. } => (self, Feed::Motion(x, y), false),
            AppEvent::MouseDown { x, y, button, .. } => (self, Feed::Press(x, y, button), false),
            AppEvent::MouseUp { button, .. } => (self, Feed::Release(button), false),
            AppEvent::MouseLeave => (self, Feed::Leave, false),
            AppEvent::Wheel { delta, .. } => (self, Feed::Axis(delta), false),
            AppEvent::Key(k) => (self, Feed::Key(k), false),
            AppEvent::Focus(on) => (WaylandWindow { focused: on, ..self }, Feed::Focus(on), false),
            AppEvent::Resized { w, h } => (
                WaylandWindow { size: (w, h), configured: (w, h), ..self },
                if (w, h) != self.configured { Feed::Resize(w, h, self.focused) } else { Feed::Nothing },
                true,
            ),
            _ => (self, Feed::Nothing, false),
        }
    }

    pub open spec fn ticked(self, gone: bool, image: (i32, i32), version: u32) -> (WaylandWindow, Ticked) {
        if gone {
            (self, Ticked { close: true, resize: None, redraw: None })
        } else {
            let tell = self.configured == (0i32, 0i32) && self.size != (0i32, 0i32) && self.size != image;
            (
                WaylandWindow {
                    configured: if tell { self.size } else { self.configured },
                    shown: version,
                    ..self
                },
                Ticked {
                    close: false,
                    resize: if tell { Some((self.size.0, self.size.1, self.focused)) } else { None },
                    redraw: if version != self.shown {
                        Some((max(self.size.0 as int, 1) as i32, max(self.size.1 as int, 1) as i32))
                    } else {
                        None
                    },
                },
            )
        }
    }

    pub fn new() -> (r: WaylandWindow)
        ensures
            r == (WaylandWindow { shown: u32::MAX, size: (0, 0), configured: (0, 0), focused: false }),
    {
        WaylandWindow { shown: u32::MAX, size: (0, 0), configured: (0, 0), focused: false }
    }

    /// The size of the program's picture, or what it is taken to be.
    pub fn image_size(image: Option<(i32, i32)>) -> (r: (i32, i32))
        ensures
            r == match image {
                Some(s) => s,
                None => (640i32, 480i32),
            },
    {
        match image {
            Some(s) => s,
            None => (640, 480),
        }
    }

    pub fn min_size(wanted: (i32, i32)) -> (r: (i32, i32))
        ensures
            r == (max(wanted.0 as int, 120) as i32, max(wanted.1 as int, 80) as i32),
    {
        (if wanted.0 > 120 { wanted.0 } else { 120 }, if wanted.1 > 80 { wanted.1 } else { 80 })
    }

    /// An event: what goes to the program, and whether to draw the window
    /// again.
    pub fn event(&mut self, ev: &AppEvent) -> (r: (Feed, bool))
        ensures
            (*final(self), r.0, r.1) == old(self).after(*ev),
    {
        match ev {
            AppEvent::MouseMove { x, y, .. } => (Feed::Motion(*x, *y), false),
            AppEvent::MouseDown { x, y, button, .. } => (Feed::Press(*x, *y, *button), false),
            AppEvent::MouseUp { button, .. } => (Feed::Release(*button), false),
            AppEvent::MouseLeave => (Feed::Leave, false),
            AppEvent::Wheel { delta, .. } => (Feed::Axis(*delta), false),
            AppEvent::Key(k) => (Feed::Key(*k), false),
            AppEvent::Focus(on) => {
                self.focused = *on;
                (Feed::Focus(*on), false)
            },
            AppEvent::Resized { w, h } => {
                self.size = (*w, *h);
                let new: bool = *w != self.configured.0 || *h != self.configured.1;
                self.configured = (*w, *h);
                (if new { Feed::Resize(*w, *h, self.focused) } else { Feed::Nothing }, true)
            },
            _ => (Feed::Nothing, false),
        }
    }

    /// Let time go by: whether the window is gone, the size of the
    /// program's picture, and its number.
    pub fn tick(&mut self, gone: bool, image: (i32, i32), version: u32) -> (r: Ticked)
        ensures
            (*final(self), r) == old(self).ticked(gone, image, version),
    {
        if gone {
            return Ticked { close: true, resize: None, redraw: None };
        }
        let mut t: Ticked = Ticked { close: false, resize: None, redraw: None };
        let fresh: bool = self.configured.0 == 0 && self.configured.1 == 0;
        let sized: bool = self.size.0 != 0 || self.size.1 != 0;
        let other: bool = self.size.0 != image.0 || self.size.1 != image.1;
        // The window may have been made smaller than the program's first
        // picture: tell it the real size once.
        if fresh && sized && other {
            self.configured = self.size;
            t.resize = Some((self.size.0, self.size.1, self.focused));
        }
        if version != self.shown {
            self.shown = version;
            t.redraw = Some(
                (
                    if self.size.0 > 1 { self.size.0 } else { 1 },
                    if self.size.1 > 1 { self.size.1 } else { 1 },
                ),
            );
        }
        t
    }
}

/// A program is told a size only once, as long as it stays the same.
pub proof fn lemma_told_once(w: WaylandWindow, x: i32, y: i32)
    ensures
        w.after(AppEvent::Resized { w: x, h: y }).0.after(AppEvent::Resized { w: x, h: y }).1 is Nothing,
{
}

/// Moving the pointer and pressing a button at the same place tell the
/// program the same place, which is the place in the window; keys, the
/// wheel and the focus reach it as they are.
pub proof fn lemma_events_pass(
    w: WaylandWindow,
    x: i32,
    y: i32,
    buttons: u8,
    button: u8,
    clicks: u8,
    k: KeyEvent,
    delta: i32,
    on: bool,
)
    ensures
        w.after(AppEvent::MouseMove { x, y, buttons }).1 == Feed::Motion(x, y),
        w.after(AppEvent::MouseDown { x, y, button, clicks }).1 == Feed::Press(x, y, button),
        w.after(AppEvent::MouseUp { x, y, button }).1 == Feed::Release(button),
        w.after(AppEvent::Wheel { x, y, delta }).1 == Feed::Axis(delta),
        w.after(AppEvent::Key(k)).1 == Feed::Key(k),
        w.after(AppEvent::Focus(on)).1 == Feed::Focus(on) && w.after(AppEvent::Focus(on)).0.focused == on,
{
}

/// What a program is told of its window's size is true, and it is told
/// every change: after any event or tick that leaves the window with a size
/// other than that of the picture, the program knows it.
pub proof fn lemma_size_told(w: WaylandWindow, x: i32, y: i32, image: (i32, i32), version: u32)
    ensures
        ({
            let (s, f, again) = w.after(AppEvent::Resized { w: x, h: y });
            &&& s.size == (x, y) && s.configured == (x, y) && again
            &&& f matches Feed::Resize(a, b, on) ==> a == x && b == y && on == w.focused
            &&& (x, y) != w.configured ==> f is Resize
        }),
        ({
            let (s, t) = w.ticked(false, image, version);
            &&& t.resize matches Some((a, b, on)) ==> (a, b) == w.size && on == w.focused && s.configured == w.size
            &&& w.configured == (0i32, 0i32) && w.size != (0i32, 0i32) && w.size != image ==> t.resize is Some
            &&& s.ticked(false, image, version).1.resize is None
        }),
{
}

/// A new picture is drawn once, and over the whole window.
pub proof fn lemma_picture_drawn_once(w: WaylandWindow, image: (i32, i32), version: u32)
    ensures
        w.shown != version ==> (w.ticked(false, image, version).1.redraw matches Some((a, b)) && a >= w.size.0 && b
            >= w.size.1 && a > 0 && b > 0),
        w.ticked(false, image, version).0.ticked(false, image, version).1.redraw is None,
        w.ticked(true, image, version).1.close,
{
}

} // verus!
