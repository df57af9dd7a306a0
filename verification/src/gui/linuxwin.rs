//! Window showing a Linux program's framebuffer and feeding its input
//! devices.

use crate::arith::{div, max, tdiv};
use crate::gui::app::AppEvent;
use crate::gui::geom::Area;
use crate::input::KeyEvent;
use vstd::prelude::*;

verus! {

/// What goes to the program.
#[derive(Clone, Copy)]
pub enum Feed {
    Nothing,
    Key(KeyEvent),
    /// The pointer moves to a point of the framebuffer.
    Motion(i64, i64),
    /// The pointer moves, and a button is pressed.
    Press(i64, i64, u8),
    Release(u8),
    Wheel(i32),
    Redraw,
}

#[derive(Clone, Copy)]
pub struct LinuxWindow {
    /// Size of the framebuffer.
    pub screen: (i32, i32),
    /// Where the picture was last drawn (client coordinates).
    pub view: Area,
    pub size: (i32, i32),
}

/// The size of the largest picture with the framebuffer's shape that fits,
/// or its own size when there is room.
pub open spec fn fitted(fw: int, fh: int, w: int, h: int) -> (int, int) {
    if fw <= w && fh <= h {
        (fw, fh)
    } else if w * fh < h * fw {
        (w, tdiv(w * fh, fw))
    } else {
        (tdiv(h * fw, fh), h)
    }
}

impl LinuxWindow {
    pub open spec fn wf(self) -> bool {
        &&& self.screen.0 > 0
        &&& self.screen.1 > 0
        &&& 0 <= self.view.x <= 0x4000_0000
        &&& 0 <= self.view.y <= 0x4000_0000
        &&& 0 < self.view.w <= 0x7fff_ffff
        &&& 0 < self.view.h <= 0x7fff_ffff
    }

    pub open spec fn laid_out(self) -> LinuxWindow {
        let (w, h) = (self.size.0 as int, self.size.1 as int);
        let (vw, vh) = fitted(self.screen.0 as int, self.screen.1 as int, w, h);
        LinuxWindow {
            view: Area {
                x: tdiv(w - vw, 2) as i64,
                y: tdiv(h - vh, 2) as i64,
                w: max(vw, 1) as i64,
                h: max(vh, 1) as i64,
            },
            ..self
        }
    }

    /// The point of the framebuffer at a point of the window.
    pub open spec fn fb_point(self, x: int, y: int) -> (int, int) {
        let v = self.view;
        (
            tdiv((x - v.x) * self.screen.0, v.w as int),
            tdiv((y - v.y) * self.screen.1, v.h as int),
        )
    }

    pub open spec fn after(self, ev: AppEvent) -> (LinuxWindow, Feed) {
        match ev {
            AppEvent::Key(k) => (self, Feed::Key(k)),
            AppEvent::MouseMove { x, y, .. } => {
                let (fx, fy) = self.fb_point(x as int, y as int);
                (self, Feed::Motion(fx as i64, fy as i64))
            },
            AppEvent::MouseDown { x, y, button, .. } => {
                let (fx, fy) = self.fb_point(x as int, y as int);
                (self, Feed::Press(fx as i64, fy as i64, button))
            },
            AppEvent::MouseUp { button, .. } => (self, Feed::Release(button)),
            AppEvent::Wheel { delta, .. } => (self, Feed::Wheel(delta)),
            AppEvent::Resized { w, h } => (LinuxWindow { size: (w, h), ..self }, Feed::Redraw),
            _ => (self, Feed::Nothing),
        }
    }

    pub fn new(width: i32, height: i32) -> (r: LinuxWindow)
        ensures
            r == (LinuxWindow {
                screen: (width, height),
                view: Area { x: 0, y: 0, w: 1, h: 1 },
                size: (0, 0),
            }),
            width > 0 && height > 0 ==> r.wf(),
    {
        LinuxWindow { screen: (width, height), view: Area { x: 0, y: 0, w: 1, h: 1 }, size: (0, 0) }
    }

    /// Largest rectangle with the framebuffer's aspect ratio that fits,
    /// drawn 1:1 when there is room.
    pub fn layout(&mut self)
        requires
            old(self).wf(),
            old(self).size.0 >= 0,
            old(self).size.1 >= 0,
        ensures
            *final(self) == old(self).laid_out(),
            final(self).wf(),
    {
        let (fw, fh) = (self.screen.0 as i64, self.screen.1 as i64);
        let (w, h) = (self.size.0 as i64, self.size.1 as i64);
        proof {
            assert(0 <= w * fh <= 0x8000_0000 * 0x8000_0000 && 0 <= h * fw <= 0x8000_0000 * 0x8000_0000)
                by (nonlinear_arith)
                requires
                    0 <= w <= 0x8000_0000,
                    0 <= h <= 0x8000_0000,
                    0 <= fw <= 0x8000_0000,
                    0 <= fh <= 0x8000_0000,
            ;
        }
        let (mut vw, mut vh): (i64, i64) = (fw, fh);
        if !(fw <= w && fh <= h) {
            if w * fh < h * fw {
                vw = w;
                vh = div(w * fh, fw);
                proof {
                    lemma_scaled(w as int, fh as int, h as int, fw as int);
                }
            } else {
                vw = div(h * fw, fh);
                vh = h;
                proof {
                    lemma_scaled(h as int, fw as int, w as int, fh as int);
                }
            }
        }
        self.view = Area {
            x: div(w - vw, 2),
            y: div(h - vh, 2),
            w: if vw > 1 { vw } else { 1 },
            h: if vh > 1 { vh } else { 1 },
        };
    }

    pub fn to_fb(&self, x: i32, y: i32) -> (r: (i64, i64))
        requires
            self.wf(),
        ensures
            (r.0 as int, r.1 as int) == self.fb_point(x as int, y as int),
    {
        let v: Area = self.view;
        let dx: i64 = x as i64 - v.x;
        let dy: i64 = y as i64 - v.y;
        let (fw, fh) = (self.screen.0 as i64, self.screen.1 as i64);
        proof {
            lemma_product(dx as int, fw as int);
            lemma_product(dy as int, fh as int);
            crate::arith::lemma_tdiv_bounds(dx * fw, v.w as int);
            crate::arith::lemma_tdiv_bounds(dy * fh, v.h as int);
        }
        (div(dx * fw, v.w), div(dy * fh, v.h))
    }

    pub fn event(&mut self, ev: &AppEvent) -> (r: Feed)
        requires
            old(self).wf(),
        ensures
            (*final(self), r) == old(self).after(*ev),
            final(self).wf(),
    {
        match ev {
            AppEvent::Key(k) => Feed::Key(*k),
            AppEvent::MouseMove { x, y, .. } => {
                let (fx, fy) = self.to_fb(*x, *y);
                Feed::Motion(fx, fy)
            },
            AppEvent::MouseDown { x, y, button, .. } => {
                let (fx, fy) = self.to_fb(*x, *y);
                Feed::Press(fx, fy, *button)
            },
            AppEvent::MouseUp { button, .. } => Feed::Release(*button),
            AppEvent::Wheel { delta, .. } => Feed::Wheel(*delta),
            AppEvent::Resized { w, h } => {
                self.size = (*w, *h);
                Feed::Redraw
            },
            _ => Feed::Nothing,
        }
    }
}

/// A side that is scaled down in a window that is too narrow stays within
/// the other side.
proof fn lemma_scaled(w: int, fh: int, h: int, fw: int)
    requires
        0 <= w,
        0 <= h,
        0 < fw,
        0 < fh,
        w * fh <= h * fw,
    ensures
        0 <= tdiv(w * fh, fw) <= h,
{
    assert(w * fh >= 0) by (nonlinear_arith)
        requires
            0 <= w,
            0 < fh,
    ;
    assert(0 <= (w * fh) / fw <= h) by (nonlinear_arith)
        requires
            0 <= w * fh <= h * fw,
            0 < fw,
            0 <= h,
    ;
}

proof fn lemma_product(d: int, f: int)
    requires
        -0xc000_0000 <= d <= 0xc000_0000,
        0 < f <= 0x7fff_ffff,
    ensures
        i64::MIN < d * f <= i64::MAX,
{
    assert(-0xc000_0000 * 0x7fff_ffff <= d * f <= 0xc000_0000 * 0x7fff_ffff) by (nonlinear_arith)
        requires
            -0xc000_0000 <= d <= 0xc000_0000,
            0 < f <= 0x7fff_ffff,
    ;
}

/// The picture always fits the window, and keeps to its middle.
pub proof fn lemma_picture_fits(l: LinuxWindow)
    requires
        l.wf(),
        l.size.0 > 0,
        l.size.1 > 0,
    ensures
        l.laid_out().view.w <= l.size.0,
        l.laid_out().view.h <= l.size.1,
        l.laid_out().view.x >= 0,
        l.laid_out().view.y >= 0,
{
    let (fw, fh) = (l.screen.0 as int, l.screen.1 as int);
    let (w, h) = (l.size.0 as int, l.size.1 as int);
    if !(fw <= w && fh <= h) {
        if w * fh < h * fw {
            lemma_scaled(w, fh, h, fw);
        } else {
            lemma_scaled(h, fw, w, fh);
        }
    }
}

/// A point of the picture stands for a dot of the framebuffer: the corner
/// for the first one, and further right or down for none that comes before.
/// Where the picture has the framebuffer's own size, it stands for the dot
/// that is seen there.
pub proof fn lemma_pointer_hits(l: LinuxWindow, x: int, y: int, x2: int, y2: int)
    requires
        l.wf(),
        l.view.spec_has(x, y),
        l.view.spec_has(x2, y2),
        x <= x2,
        y <= y2,
    ensures
        0 <= l.fb_point(x, y).0 < l.screen.0,
        0 <= l.fb_point(x, y).1 < l.screen.1,
        l.fb_point(x, y).0 <= l.fb_point(x2, y2).0,
        l.fb_point(x, y).1 <= l.fb_point(x2, y2).1,
        l.fb_point(l.view.x as int, l.view.y as int) == (0int, 0int),
        l.view.w == l.screen.0 ==> l.fb_point(x, y).0 == x - l.view.x,
        l.view.h == l.screen.1 ==> l.fb_point(x, y).1 == y - l.view.y,
{
    let v = l.view;
    lemma_dot(x - v.x, x2 - v.x, l.screen.0 as int, v.w as int);
    lemma_dot(y - v.y, y2 - v.y, l.screen.1 as int, v.h as int);
    lemma_dot(0, 0, l.screen.0 as int, v.w as int);
    lemma_dot(0, 0, l.screen.1 as int, v.h as int);
}

proof fn lemma_dot(d: int, e: int, n: int, w: int)
    requires
        0 <= d <= e < w,
        0 < n,
    ensures
        0 <= tdiv(d * n, w) < n,
        tdiv(d * n, w) <= tdiv(e * n, w),
        d == 0 ==> tdiv(d * n, w) == 0,
        w == n ==> tdiv(d * n, w) == d,
{
    assert(0 <= d * n <= e * n && 0 <= (d * n) / w < n && (d * n) / w <= (e * n) / w && (d == 0 ==> (d * n) / w == 0) && (w
        == n ==> (d * n) / w == d)) by (nonlinear_arith)
        requires
            0 <= d <= e < w,
            0 < n,
    {
        assert(d * n <= e * n);
        assert(d * n < w * n);
        assert((d * n) / w <= (e * n) / w);
        if w == n {
            assert((d * n) / n == d);
        }
    }
}

/// Moving the pointer and pressing a button at the same place tell the
/// program the same place; keys and the wheel reach it as they are.
pub proof fn lemma_events_pass(l: LinuxWindow, x: i32, y: i32, buttons: u8, button: u8, clicks: u8, k: KeyEvent, delta: i32)
    ensures
        (l.after(AppEvent::MouseMove { x, y, buttons }).1, l.after(AppEvent::MouseDown { x, y, button, clicks }).1)
            matches (Feed::Motion(a, b), Feed::Press(c, d, e)) && a == c && b == d && e == button,
        l.after(AppEvent::MouseUp { x, y, button }).1 == Feed::Release(button),
        l.after(AppEvent::Key(k)).1 == Feed::Key(k),
        l.after(AppEvent::Wheel { x, y, delta }).1 == Feed::Wheel(delta),
        l.after(AppEvent::MouseMove { x, y, buttons }).0 == l,
        l.after(AppEvent::MouseDown { x, y, button, clicks }).0 == l,
{
}

/// The picture is as large as the window lets it be, and no larger than the
/// framebuffer: it has its own size, or reaches two sides of the window. It
/// keeps its shape to within a dot, and the margins are alike.
pub proof fn lemma_picture_shape(l: LinuxWindow)
    requires
        l.wf(),
        l.size.0 > 0,
        l.size.1 > 0,
    ensures
        ({
            let v = l.laid_out().view;
            let (w, h) = (l.size.0 as int, l.size.1 as int);
            let (fw, fh) = (l.screen.0 as int, l.screen.1 as int);
            &&& v.w == fw && v.h == fh || v.w == w || v.h == h
            &&& fw <= w && fh <= h ==> v.w == fw && v.h == fh
            &&& v.w > 1 && v.h > 1 ==> -fh < v.w * fh - v.h * fw < fw
            &&& v.w > 1 ==> 0 <= (w - (v.x + v.w)) - v.x <= 1
            &&& v.h > 1 ==> 0 <= (h - (v.y + v.h)) - v.y <= 1
        }),
{
    let (fw, fh) = (l.screen.0 as int, l.screen.1 as int);
    let (w, h) = (l.size.0 as int, l.size.1 as int);
    lemma_picture_fits(l);
    assert(fw * fh == fh * fw) by (nonlinear_arith);
    if !(fw <= w && fh <= h) {
        if w * fh < h * fw {
            lemma_scaled(w, fh, h, fw);
            lemma_shape(w, fh, fw);
        } else {
            lemma_scaled(h, fw, w, fh);
            lemma_shape(h, fw, fh);
        }
    }
}

proof fn lemma_shape(w: int, fh: int, fw: int)
    requires
        w >= 0,
        fh > 0,
        fw > 0,
    ensures
        0 <= w * fh - tdiv(w * fh, fw) * fw < fw,
{
    assert(0 <= w * fh && 0 <= w * fh - (w * fh) / fw * fw < fw) by (nonlinear_arith)
        requires
            w >= 0,
            fh > 0,
            fw > 0,
    {
        assert((w * fh) / fw * fw + (w * fh) % fw == w * fh);
    }
}

} // verus!
