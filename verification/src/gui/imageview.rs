//! Image viewer: zoom and pan, previous/next picture in the folder, and
//! "Set as Wallpaper".

use crate::arith::{div, max, min, tdiv};
use crate::fs::entry::{entries_of, DirEntry, EntryState};
use crate::fs::path::{base_name, ext_of, extension_chars, file_name_chars, join_chars, joined_path};
use crate::gui::app::AppEvent;
use crate::gui::geom::Area;
use crate::input::Key;
use crate::text::{copy, dec, is_str, push_all, push_dec, push_str, same, to_chars, views};
use vstd::prelude::*;

verus! {

pub const TOOLBAR_H: i32 = 44;

/// How long a message is shown, in milliseconds.
pub const MESSAGE_MS: u64 = 2500;

/// What the message says once a picture is the wallpaper.
pub const WALLPAPER_CHANGED: &'static str = "Wallpaper changed";

/// What stands in place of a picture that cannot be shown.
pub fn error_text(e: &[char]) -> (r: Vec<char>)
    ensures
        r@ == "Cannot open this picture: "@ + e@,
{
    let mut m: Vec<char> = to_chars("Cannot open this picture: ");
    push_all(&mut m, e);
    m
}

/// Pictures wider or higher than this are not shown.
pub const MAX_SIDE: u32 = 0x50_0000;

pub open spec fn image_name(name: Seq<char>) -> bool {
    match ext_of(name) {
        Some(e) => e == "png"@ || e == "jpg"@ || e == "jpeg"@ || e == "jfif"@ || e == "bmp"@,
        None => false,
    }
}

pub fn is_image_name(name: &str) -> (r: bool)
    ensures
        r == image_name(name@),
{
    match extension_chars(&to_chars(name)) {
        Some(e) => is_str(&e, "png") || is_str(&e, "jpg") || is_str(&e, "jpeg") || is_str(&e, "jfif") || is_str(
            &e,
            "bmp",
        ),
        None => false,
    }
}

// ---------------------------------------------------------------------
// The pictures of a folder
// ---------------------------------------------------------------------

/// The paths of the pictures in a folder, in its order.
pub open spec fn pictures(dir: Seq<char>, s: Seq<EntryState>) -> Seq<Seq<char>>
    decreases s.len(),
{
    if s.len() == 0 {
        Seq::empty()
    } else {
        let rest = pictures(dir, s.drop_last());
        let e = s.last();
        if !e.is_dir && image_name(e.name) { rest.push(joined_path(dir, e.name)) } else { rest }
    }
}

pub fn siblings(dir: &[char], entries: &[DirEntry]) -> (r: Vec<Vec<char>>)
    ensures
        views(r@) == pictures(dir@, entries_of(entries@)),
{
    let mut out: Vec<Vec<char>> = Vec::new();
    let ghost all = entries_of(entries@);
    let mut i: usize = 0;
    proof {
        assert(all.take(0) =~= Seq::<EntryState>::empty());
        assert(views(out@) =~= Seq::<Seq<char>>::empty());
    }
    while i < entries.len()
        invariant
            i <= entries@.len(),
            all == entries_of(entries@),
            views(out@) == pictures(dir@, all.take(i as int)),
        decreases entries@.len() - i,
    {
        let e: &DirEntry = &entries[i];
        proof {
            assert(all.take(i + 1).drop_last() =~= all.take(i as int));
            assert(all.take(i + 1).last() == e@);
        }
        if !e.is_dir && is_image_name(e.name.as_str()) {
            let ghost o0 = views(out@);
            let p: Vec<char> = join_chars(dir, &to_chars(e.name.as_str()));
            let ghost p0 = p@;
            out.push(p);
            proof {
                assert(views(out@) =~= o0.push(p0));
            }
        }
        i += 1;
    }
    proof {
        assert(all.take(all.len() as int) =~= all);
    }
    out
}

/// Where a picture stands in the list; 0 if it is not there.
pub open spec fn place_of(list: Seq<Seq<char>>, path: Seq<char>) -> int
    decreases list.len(),
{
    if list.len() == 0 {
        0
    } else if place_of(list.drop_last(), path) < list.len() - 1 && list[place_of(list.drop_last(), path)] == path {
        place_of(list.drop_last(), path)
    } else if list.last() == path {
        list.len() - 1
    } else {
        0
    }
}

/// The picture before (-1) or after (1) one; after the last comes the first.
pub open spec fn neighbour(list: Seq<Seq<char>>, path: Seq<char>, delta: int) -> Option<Seq<char>> {
    if list.len() < 2 { None } else { Some(list[(place_of(list, path) + delta) % (list.len() as int)]) }
}

proof fn lemma_place(list: Seq<Seq<char>>, path: Seq<char>)
    ensures
        0 <= place_of(list, path) <= list.len(),
        list.len() > 0 ==> place_of(list, path) < list.len(),
        list.contains(path) ==> list[place_of(list, path)] == path,
        !list.contains(path) ==> place_of(list, path) == 0,
    decreases list.len(),
{
    if list.len() > 0 {
        let d = list.drop_last();
        lemma_place(d, path);
        if d.contains(path) {
            assert(list[place_of(d, path)] == path);
        }
        if list.contains(path) && !d.contains(path) {
            let k = choose|k: int| 0 <= k < list.len() && list[k] == path;
            if k < list.len() - 1 {
                assert(d[k] == path);
            }
            assert(list.last() == path);
            if place_of(d, path) < list.len() - 1 && list[place_of(d, path)] == path {
                assert(d[place_of(d, path)] == path);
            }
        }
        if !list.contains(path) {
            if d.contains(path) {
                let k = choose|k: int| 0 <= k < d.len() && d[k] == path;
                assert(list[k] == path);
            }
            assert(list.last() == list[list.len() - 1]);
        }
    }
}

/// One picture on and one back is the same picture.
pub proof fn lemma_on_and_back(list: Seq<Seq<char>>, path: Seq<char>, delta: int)
    requires
        list.contains(path),
        list.no_duplicates(),
        list.len() >= 2,
        delta == 1 || delta == -1,
    ensures
        neighbour(list, neighbour(list, path, delta)->0, -delta) == Some(path),
{
    lemma_place(list, path);
    let n = list.len() as int;
    let i = place_of(list, path);
    let j = (i + delta) % n;
    assert(0 <= j < n && j == if i + delta < 0 { n - 1 } else if i + delta == n { 0 } else { i + delta })
        by (nonlinear_arith)
        requires
            j == (i + delta) % n,
            n >= 2,
            0 <= i < n,
            delta == 1 || delta == -1,
    ;
    lemma_place(list, list[j]);
    assert(list.contains(list[j]));
    assert(place_of(list, list[j]) == j);
    assert((j - delta) % n == i) by (nonlinear_arith)
        requires
            j == if i + delta < 0 { n - 1 } else if i + delta == n { 0 } else { i + delta },
            n >= 2,
            0 <= i < n,
            delta == 1 || delta == -1,
    ;
}

fn place(list: &[Vec<char>], path: &[char]) -> (r: usize)
    requires
        list@.len() > 0,
    ensures
        r == place_of(views(list@), path@),
        r < list@.len(),
{
    let ghost all = views(list@);
    let mut i: usize = 0;
    proof {
        lemma_place(all, path@);
    }
    while i < list.len()
        invariant
            i <= list@.len(),
            list@.len() > 0,
            all == views(list@),
            !all.take(i as int).contains(path@),
        decreases list@.len() - i,
    {
        if same(&list[i], path) {
            proof {
                lemma_first_place(all, path@, i as int);
            }
            return i;
        }
        proof {
            assert forall|k: int| 0 <= k < i + 1 implies #[trigger] all.take(i + 1)[k] != path@ by {
                if k < i {
                    assert(all.take(i as int)[k] == all.take(i + 1)[k]);
                    assert(all.take(i as int).contains(all.take(i as int)[k]));
                }
            }
        }
        i += 1;
    }
    proof {
        assert(all.take(all.len() as int) =~= all);
        lemma_place(all, path@);
    }
    0
}

proof fn lemma_first_place(list: Seq<Seq<char>>, path: Seq<char>, i: int)
    requires
        0 <= i < list.len(),
        list[i] == path,
        !list.take(i).contains(path),
    ensures
        place_of(list, path) == i,
    decreases list.len(),
{
    let d = list.drop_last();
    lemma_place(d, path);
    if i < list.len() - 1 {
        assert(d.take(i) =~= list.take(i));
        lemma_first_place(d, path, i);
    } else {
        assert(list.take(i) =~= d);
        if place_of(d, path) < list.len() - 1 && list[place_of(d, path)] == path {
            assert(d[place_of(d, path)] == path);
        }
    }
}

/// The picture to show next.
pub fn next_picture(list: &[Vec<char>], path: &[char], forward: bool) -> (r: Option<Vec<char>>)
    ensures
        match r {
            Some(p) => neighbour(views(list@), path@, if forward { 1 } else { -1 }) == Some(p@),
            None => neighbour(views(list@), path@, if forward { 1 } else { -1 }) is None,
        },
{
    let n: usize = list.len();
    if n < 2 {
        return None;
    }
    let i: usize = place(list, path);
    let j: usize = if forward {
        if i == n - 1 { 0 } else { i + 1 }
    } else if i == 0 {
        n - 1
    } else {
        i - 1
    };
    proof {
        let d: int = if forward { 1 } else { -1 };
        assert((i + d) % (n as int) == j) by (nonlinear_arith)
            requires
                n >= 2,
                0 <= i < n,
                d == 1 || d == -1,
                j == if i + d < 0 { n - 1 } else if i + d == n { 0int } else { i + d },
        ;
        assert(views(list@)[j as int] == list@[j as int]@);
    }
    Some(copy(&list[j]))
}

// ---------------------------------------------------------------------
// The window
// ---------------------------------------------------------------------

#[derive(Clone, Copy, PartialEq, Eq, Debug, Structural)]
pub enum Btn {
    Prev,
    Next,
    Fit,
    Actual,
    Wallpaper,
}

/// What the viewer asks for.
#[derive(Clone, Copy, PartialEq, Eq, Debug, Structural)]
pub enum Effect {
    Nothing,
    /// Show the next or the previous picture of the folder.
    Step { forward: bool },
    /// Use the picture as the wallpaper.
    Wallpaper,
    Close,
}

#[derive(Clone, Copy, PartialEq, Eq, Debug, Structural)]
pub enum Progress {
    Loading,
    Failed,
    Shown,
}

/// How the picture is shown.
#[derive(Clone, Copy)]
pub struct ImageViewer {
    pub progress: Progress,
    /// Size of the picture, once it is there.
    pub picture: (u32, u32),
    /// Zoom in 1/100 (0 = fit to window).
    pub zoom: u32,
    pub pan: (i32, i32),
    /// Where a drag began, and how far the picture was moved then.
    pub drag: Option<(i32, i32, i32, i32)>,
    pub size: (i32, i32),
    pub hover: Option<Btn>,
    /// Until when a message is shown.
    pub message_until: Option<u64>,
}

/// The larger of two sides that a picture may have.
pub open spec fn scale(v: int, side: int) -> int {
    v * 1000 / side
}

impl ImageViewer {
    pub open spec fn wf(self) -> bool {
        &&& self.zoom <= 800
        &&& self.progress == Progress::Shown ==> {
            &&& 1 <= self.picture.0 <= MAX_SIDE
            &&& 1 <= self.picture.1 <= MAX_SIDE
        }
        &&& self.size.0 >= 24
        &&& self.size.1 >= 68
    }

    pub open spec fn view_area(self) -> Area {
        Area { x: 0, y: TOOLBAR_H as i64, w: self.size.0 as i64, h: (self.size.1 - TOOLBAR_H) as i64 }
    }

    pub open spec fn btn_area(self, b: Btn) -> Area {
        match b {
            Btn::Prev => Area { x: 10, y: 7, w: 34, h: 30 },
            Btn::Next => Area { x: 48, y: 7, w: 34, h: 30 },
            Btn::Fit => Area { x: 92, y: 7, w: 50, h: 30 },
            Btn::Actual => Area { x: 146, y: 7, w: 56, h: 30 },
            Btn::Wallpaper => Area { x: (self.size.0 - 170) as i64, y: 7, w: 158, h: 30 },
        }
    }

    /// The first button at a point.
    pub open spec fn btn_at(self, x: int, y: int) -> Option<Btn> {
        if self.btn_area(Btn::Prev).spec_has(x, y) {
            Some(Btn::Prev)
        } else if self.btn_area(Btn::Next).spec_has(x, y) {
            Some(Btn::Next)
        } else if self.btn_area(Btn::Fit).spec_has(x, y) {
            Some(Btn::Fit)
        } else if self.btn_area(Btn::Actual).spec_has(x, y) {
            Some(Btn::Actual)
        } else if self.btn_area(Btn::Wallpaper).spec_has(x, y) {
            Some(Btn::Wallpaper)
        } else {
            None
        }
    }

    /// By how much the picture shrinks to fit the window, in 1/1000.
    pub open spec fn fit_scale(self) -> int {
        min(
            min(scale(self.size.0 - 24, self.picture.0 as int), scale(self.size.1 - 68, self.picture.1 as int)),
            1000,
        )
    }

    /// Displayed size of the picture at the current zoom.
    pub open spec fn shown_size(self) -> (int, int) {
        let (w, h) = (self.picture.0 as int, self.picture.1 as int);
        if self.zoom == 0 {
            (max(w * self.fit_scale() / 1000, 1), max(h * self.fit_scale() / 1000, 1))
        } else {
            (max(w * self.zoom / 100, 1), max(h * self.zoom / 100, 1))
        }
    }

    pub open spec fn zoom_now(self) -> int {
        if self.progress == Progress::Shown && self.zoom == 0 {
            self.shown_size().0 * 100 / (self.picture.0 as int)
        } else {
            self.zoom as int
        }
    }

    pub open spec fn zoomed(self, up: bool) -> ImageViewer {
        let z = max(self.zoom_now(), 5);
        ImageViewer { zoom: (if up { min(z * 5 / 4, 800) } else { max(z * 4 / 5, 5) }) as u32, ..self }
    }

    pub open spec fn reset_to(self, zoom: u32) -> ImageViewer {
        ImageViewer { zoom, pan: (0, 0), ..self }
    }

    pub open spec fn clicked(self, b: Btn, now: u64) -> (ImageViewer, Effect) {
        match b {
            Btn::Prev => (self, Effect::Step { forward: false }),
            Btn::Next => (self, Effect::Step { forward: true }),
            Btn::Fit => (self.reset_to(0), Effect::Nothing),
            Btn::Actual => (self.reset_to(100), Effect::Nothing),
            Btn::Wallpaper => (
                ImageViewer { message_until: Some((now + MESSAGE_MS) as u64), ..self },
                Effect::Wallpaper,
            ),
        }
    }

    pub open spec fn pressed(self, x: i32, y: i32, clicks: u8, now: u64) -> (ImageViewer, Effect) {
        match self.btn_at(x as int, y as int) {
            Some(b) => self.clicked(b, now),
            None => (
                if !self.view_area().spec_has(x as int, y as int) {
                    self
                } else if clicks >= 2 {
                    self.reset_to(if self.zoom == 0 { 100 } else { 0 })
                } else {
                    ImageViewer { drag: Some((x, y, self.pan.0, self.pan.1)), ..self }
                },
                Effect::Nothing,
            ),
        }
    }

    /// How far the picture is moved when the pointer is dragged somewhere.
    pub open spec fn dragged(self, x: i32, y: i32) -> (int, int) {
        match self.drag {
            Some((sx, sy, px, py)) => (px + x - sx, py + y - sy),
            None => (0, 0),
        }
    }

    pub open spec fn moved(self, x: i32, y: i32, buttons: u8) -> (ImageViewer, bool) {
        if self.drag is Some && buttons & 1 != 0 {
            let (px, py) = self.dragged(x, y);
            (ImageViewer { pan: (px as i32, py as i32), ..self }, true)
        } else {
            let h = self.btn_at(x as int, y as int);
            (ImageViewer { hover: h, ..self }, h != self.hover)
        }
    }

    /// A key press, if the viewer has a use for it.
    pub open spec fn keyed(self, k: Key) -> Option<(ImageViewer, Effect)> {
        match k {
            Key::Left => Some((self, Effect::Step { forward: false })),
            Key::PageUp => Some((self, Effect::Step { forward: false })),
            Key::Right => Some((self, Effect::Step { forward: true })),
            Key::PageDown => Some((self, Effect::Step { forward: true })),
            Key::Char(c) => if c == ' ' {
                Some((self, Effect::Step { forward: true }))
            } else if c == '+' || c == '=' {
                Some((self.zoomed(true), Effect::Nothing))
            } else if c == '-' {
                Some((self.zoomed(false), Effect::Nothing))
            } else if c == '0' {
                Some((self.reset_to(0), Effect::Nothing))
            } else if c == '1' {
                Some((ImageViewer { zoom: 100, ..self }, Effect::Nothing))
            } else {
                None
            },
            Key::Escape => Some((self, Effect::Close)),
            _ => None,
        }
    }

    /// An event at a time: the viewer after it, what is to be done, and
    /// whether to draw the window again.
    pub open spec fn after(self, ev: AppEvent, now: u64) -> (ImageViewer, Effect, bool) {
        match ev {
            AppEvent::MouseMove { x, y, buttons } => {
                let (s, redraw) = self.moved(x, y, buttons);
                (s, Effect::Nothing, redraw)
            },
            AppEvent::MouseDown { x, y, button, clicks } => if button == 0 {
                let (s, e) = self.pressed(x, y, clicks, now);
                (s, e, true)
            } else {
                (self, Effect::Nothing, false)
            },
            AppEvent::MouseUp { .. } => (ImageViewer { drag: None, ..self }, Effect::Nothing, false),
            AppEvent::Wheel { delta, .. } => (self.zoomed(delta < 0), Effect::Nothing, true),
            AppEvent::Key(k) => match self.keyed(k.key) {
                Some((s, e)) => if k.pressed { (s, e, true) } else { (self, Effect::Nothing, false) },
                None => (self, Effect::Nothing, false),
            },
            AppEvent::Resized { .. } => (self, Effect::Nothing, true),
            AppEvent::Focus(_) => (self, Effect::Nothing, true),
            _ => (self, Effect::Nothing, false),
        }
    }

    /// Whether the picture can be moved as far as an event asks for.
    pub open spec fn can_take(self, ev: AppEvent) -> bool {
        match ev {
            AppEvent::MouseMove { x, y, buttons } => {
                &&& i32::MIN <= self.dragged(x, y).0 <= i32::MAX
                &&& i32::MIN <= self.dragged(x, y).1 <= i32::MAX
            },
            _ => true,
        }
    }

    /// With another picture on its way.
    pub open spec fn loading(self) -> ImageViewer {
        ImageViewer { progress: Progress::Loading, zoom: 0, pan: (0, 0), ..self }
    }
}

proof fn lemma_fit(p: ImageViewer)
    requires
        p.wf(),
        p.progress == Progress::Shown,
    ensures
        0 <= p.fit_scale() <= 1000,
        1 <= p.shown_size().0,
        1 <= p.shown_size().1,
        p.zoom == 0 ==> p.shown_size().0 <= p.picture.0 && p.shown_size().1 <= p.picture.1,
        p.shown_size().0 <= 8 * MAX_SIDE,
        p.shown_size().1 <= 8 * MAX_SIDE,
        0 <= p.picture.0 * p.zoom <= MAX_SIDE * 800,
        0 <= p.picture.1 * p.zoom <= MAX_SIDE * 800,
        0 <= p.zoom_now() <= 800,
{
    let (w, h) = (p.picture.0 as int, p.picture.1 as int);
    let (a, b) = (p.size.0 - 24, p.size.1 - 68);
    let s = p.fit_scale();
    let z = p.zoom as int;
    assert(a * 1000 / w >= 0) by (nonlinear_arith)
        requires
            a >= 0,
            w >= 1,
    ;
    assert(b * 1000 / h >= 0) by (nonlinear_arith)
        requires
            b >= 0,
            h >= 1,
    ;
    assert(0 <= w * s <= w * 1000 && 0 <= h * s <= h * 1000) by (nonlinear_arith)
        requires
            0 <= s <= 1000,
            w >= 1,
            h >= 1,
    ;
    assert(0 <= w * z <= 0x50_0000 * 800 && 0 <= h * z <= 0x50_0000 * 800) by (nonlinear_arith)
        requires
            0 <= z <= 800,
            1 <= w <= 0x50_0000,
            1 <= h <= 0x50_0000,
    ;
    if p.zoom == 0 {
        let d = p.shown_size().0;
        assert(0 <= d * 100 / w <= 100) by (nonlinear_arith)
            requires
                1 <= d <= w,
                1 <= w,
        ;
    }
}

/// A picture that is fitted to the window is never shown larger than it is,
/// and leaves a margin around it, unless it is one dot wide or high.
pub proof fn lemma_fitted_within(p: ImageViewer)
    requires
        p.wf(),
        p.progress == Progress::Shown,
        p.zoom == 0,
    ensures
        p.shown_size().0 <= p.picture.0,
        p.shown_size().1 <= p.picture.1,
        p.shown_size().0 <= max(p.size.0 - 24, 1),
        p.shown_size().1 <= max(p.size.1 - 68, 1),
{
    lemma_fit(p);
    let (w, h) = (p.picture.0 as int, p.picture.1 as int);
    let (a, b) = (p.size.0 - 24, p.size.1 - 68);
    let s = p.fit_scale();
    assert(w * s / 1000 <= a) by (nonlinear_arith)
        requires
            w >= 1,
            a >= 0,
            s <= a * 1000 / w,
            s >= 0,
    {
        assert(w * (a * 1000 / w) <= a * 1000);
        assert(w * s <= w * (a * 1000 / w));
    }
    assert(h * s / 1000 <= b) by (nonlinear_arith)
        requires
            h >= 1,
            b >= 0,
            s <= b * 1000 / h,
            s >= 0,
    {
        assert(h * (b * 1000 / h) <= b * 1000);
        assert(h * s <= h * (b * 1000 / h));
    }
}

/// The zoom stays between 5 and 800 percent, however often it is changed.
pub proof fn lemma_zoom_range(p: ImageViewer, up: bool)
    requires
        p.wf(),
    ensures
        5 <= p.zoomed(up).zoom <= 800,
        p.zoomed(up).wf(),
{
    if p.progress == Progress::Shown {
        lemma_fit(p);
    }
}

/// A picture that is taken with the pointer moves just as far as the pointer.
pub proof fn lemma_picture_follows(p: ImageViewer, x: i32, y: i32, now: u64, x2: i32, y2: i32, buttons: u8)
    requires
        p.btn_at(x as int, y as int) is None,
        p.view_area().spec_has(x as int, y as int),
        buttons & 1 != 0,
        i32::MIN <= p.pan.0 + x2 - x <= i32::MAX,
        i32::MIN <= p.pan.1 + y2 - y <= i32::MAX,
    ensures
        ({
            let held = p.pressed(x, y, 1, now).0;
            let m = held.moved(x2, y2, buttons).0;
            &&& held.pan == p.pan
            &&& m.pan.0 - p.pan.0 == x2 - x
            &&& m.pan.1 - p.pan.1 == y2 - y
            &&& m.zoom == p.zoom
        }),
{
}

/// Zooming in shows more of each dot and zooming out less, until the ends of
/// the range.
pub proof fn lemma_zoom_grows(p: ImageViewer)
    requires
        p.wf(),
        5 <= p.zoom_now(),
    ensures
        p.zoom_now() < 800 ==> p.zoomed(true).zoom > p.zoom_now(),
        p.zoom_now() > 5 ==> p.zoomed(false).zoom < p.zoom_now(),
        p.zoomed(true).pan == p.pan,
        p.zoomed(false).pan == p.pan,
{
    if p.progress == Progress::Shown {
        lemma_fit(p);
    }
}

/// A picture that is fitted to the window is as large as fits: it has its own
/// size, or it could not be a thousandth larger.
pub proof fn lemma_fitted_tight(p: ImageViewer)
    requires
        p.wf(),
        p.progress == Progress::Shown,
    ensures
        ({
            let s = p.fit_scale();
            ||| s == 1000
            ||| (s + 1) * p.picture.0 > (p.size.0 - 24) * 1000
            ||| (s + 1) * p.picture.1 > (p.size.1 - 68) * 1000
        }),
{
    let (w, h) = (p.picture.0 as int, p.picture.1 as int);
    let (a, b) = (p.size.0 - 24, p.size.1 - 68);
    assert((a * 1000 / w + 1) * w > a * 1000) by (nonlinear_arith)
        requires
            w >= 1,
    ;
    assert((b * 1000 / h + 1) * h > b * 1000) by (nonlinear_arith)
        requires
            h >= 1,
    ;
}

/// A double click goes from the fitted picture to its own size and back, and
/// puts it in the middle; the buttons for both do the same.
pub proof fn lemma_double_click_toggles(p: ImageViewer, x: i32, y: i32, now: u64)
    requires
        p.btn_at(x as int, y as int) is None,
        p.view_area().spec_has(x as int, y as int),
        p.zoom == 0,
    ensures
        ({
            let one = p.pressed(x, y, 2, now).0;
            let two = one.pressed(x, y, 2, now).0;
            &&& one == p.clicked(Btn::Actual, now).0
            &&& one.zoom == 100
            &&& two == p.clicked(Btn::Fit, now).0
            &&& two.zoom == 0
            &&& two.pan == (0i32, 0i32)
        }),
{
}

/// After a picture comes the next one in the folder, and after the last the
/// first.
pub proof fn lemma_next_picture(list: Seq<Seq<char>>, i: int)
    requires
        list.no_duplicates(),
        list.len() >= 2,
        0 <= i < list.len(),
    ensures
        i + 1 < list.len() ==> neighbour(list, list[i], 1) == Some(list[i + 1]),
        i + 1 == list.len() ==> neighbour(list, list[i], 1) == Some(list[0]),
        i > 0 ==> neighbour(list, list[i], -1) == Some(list[i - 1]),
        i == 0 ==> neighbour(list, list[i], -1) == Some(list.last()),
{
    lemma_place(list, list[i]);
    assert(list.contains(list[i]));
    assert(place_of(list, list[i]) == i);
    let n = list.len() as int;
    assert((n - 1 + 1) % n == 0) by (nonlinear_arith)
        requires
            n >= 2,
    ;
    assert((0 - 1) % n == n - 1) by (nonlinear_arith)
        requires
            n >= 2,
    ;
    if i + 1 < n {
        assert((i + 1) % n == i + 1) by (nonlinear_arith)
            requires
                0 <= i + 1 < n,
        ;
    }
    if i > 0 {
        assert((i - 1) % n == i - 1) by (nonlinear_arith)
            requires
                0 <= i - 1 < n,
        ;
    }
}

/// The pictures of a folder are its files with the name of a picture, in
/// order.
pub proof fn lemma_pictures(dir: Seq<char>, s: Seq<EntryState>)
    ensures
        ({
            let f = s.filter(|e: EntryState| !e.is_dir && image_name(e.name));
            &&& pictures(dir, s).len() == f.len()
            &&& forall|i: int|
                0 <= i < f.len() ==> #[trigger] pictures(dir, s)[i] == joined_path(dir, f[i].name)
        }),
    decreases s.len(),
{
    reveal(Seq::filter);
    if s.len() > 0 {
        lemma_pictures(dir, s.drop_last());
    }
}

impl ImageViewer {
    /// A window for a picture that is on its way.
    pub fn open() -> (r: ImageViewer)
        ensures
            r.wf(),
            r == (ImageViewer {
                progress: Progress::Loading,
                picture: (0, 0),
                zoom: 0,
                pan: (0, 0),
                drag: None,
                size: (800, 560),
                hover: None,
                message_until: None,
            }),
    {
        ImageViewer {
            progress: Progress::Loading,
            picture: (0, 0),
            zoom: 0,
            pan: (0, 0),
            drag: None,
            size: (800, 560),
            hover: None,
            message_until: None,
        }
    }

    /// Another picture is on its way.
    pub fn load(&mut self)
        requires
            old(self).wf(),
        ensures
            *final(self) == old(self).loading(),
            final(self).wf(),
    {
        self.progress = Progress::Loading;
        self.zoom = 0;
        self.pan = (0, 0);
    }

    /// The picture is there.
    pub fn decoded(&mut self, w: u32, h: u32)
        requires
            old(self).wf(),
            1 <= w <= MAX_SIDE,
            1 <= h <= MAX_SIDE,
        ensures
            *final(self) == (ImageViewer { progress: Progress::Shown, picture: (w, h), ..*old(self) }),
            final(self).wf(),
    {
        self.progress = Progress::Shown;
        self.picture = (w, h);
    }

    /// The picture cannot be shown.
    pub fn failed(&mut self)
        requires
            old(self).wf(),
        ensures
            *final(self) == (ImageViewer { progress: Progress::Failed, ..*old(self) }),
            final(self).wf(),
    {
        self.progress = Progress::Failed;
    }

    /// The part of the window that shows the picture.
    pub fn view(&self) -> (r: Area)
        ensures
            r == self.view_area(),
            r.small(),
    {
        Area { x: 0, y: TOOLBAR_H as i64, w: self.size.0 as i64, h: self.size.1 as i64 - TOOLBAR_H as i64 }
    }

    pub fn button_rect(&self, b: Btn) -> (r: Area)
        ensures
            r == self.btn_area(b),
            r.small(),
    {
        match b {
            Btn::Prev => Area { x: 10, y: 7, w: 34, h: 30 },
            Btn::Next => Area { x: 48, y: 7, w: 34, h: 30 },
            Btn::Fit => Area { x: 92, y: 7, w: 50, h: 30 },
            Btn::Actual => Area { x: 146, y: 7, w: 56, h: 30 },
            Btn::Wallpaper => Area { x: self.size.0 as i64 - 170, y: 7, w: 158, h: 30 },
        }
    }

    pub fn button_at(&self, x: i32, y: i32) -> (r: Option<Btn>)
        ensures
            r == self.btn_at(x as int, y as int),
    {
        if self.button_rect(Btn::Prev).has(x, y) {
            Some(Btn::Prev)
        } else if self.button_rect(Btn::Next).has(x, y) {
            Some(Btn::Next)
        } else if self.button_rect(Btn::Fit).has(x, y) {
            Some(Btn::Fit)
        } else if self.button_rect(Btn::Actual).has(x, y) {
            Some(Btn::Actual)
        } else if self.button_rect(Btn::Wallpaper).has(x, y) {
            Some(Btn::Wallpaper)
        } else {
            None
        }
    }

    /// Displayed size of the picture at the current zoom.
    pub fn display_size(&self) -> (r: (u32, u32))
        requires
            self.wf(),
            self.progress == Progress::Shown,
        ensures
            (r.0 as int, r.1 as int) == self.shown_size(),
    {
        proof {
            lemma_fit(*self);
        }
        let w: u64 = self.picture.0 as u64;
        let h: u64 = self.picture.1 as u64;
        if self.zoom == 0 {
            let sw: u64 = (self.size.0 as u64 - 24) * 1000 / w;
            let sh: u64 = (self.size.1 as u64 - 68) * 1000 / h;
            let m: u64 = if sw < sh { sw } else { sh };
            let s: u64 = if m < 1000 { m } else { 1000 };
            proof {
                assert(s == self.fit_scale());
                assert(w * s <= 0x50_0000 * 1000 && h * s <= 0x50_0000 * 1000) by (nonlinear_arith)
                    requires
                        0 <= s <= 1000,
                        w <= 0x50_0000,
                        h <= 0x50_0000,
                ;
            }
            let a: u64 = w * s / 1000;
            let b: u64 = h * s / 1000;
            (if a > 1 { a as u32 } else { 1 }, if b > 1 { b as u32 } else { 1 })
        } else {
            let z: u64 = self.zoom as u64;
            proof {
                assert(w * z == self.picture.0 * self.zoom);
                assert(h * z == self.picture.1 * self.zoom);
            }
            let a: u64 = w * z / 100;
            let b: u64 = h * z / 100;
            (if a > 1 { a as u32 } else { 1 }, if b > 1 { b as u32 } else { 1 })
        }
    }

    pub fn effective_zoom(&self) -> (r: u32)
        requires
            self.wf(),
        ensures
            r == self.zoom_now(),
            r <= 800,
    {
        if self.progress == Progress::Shown && self.zoom == 0 {
            proof {
                lemma_fit(*self);
            }
            let d: (u32, u32) = self.display_size();
            d.0 * 100 / self.picture.0
        } else {
            self.zoom
        }
    }

    pub fn zoom_by(&mut self, up: bool)
        requires
            old(self).wf(),
        ensures
            *final(self) == old(self).zoomed(up),
            final(self).wf(),
    {
        let e: u32 = self.effective_zoom();
        let z: u32 = if e > 5 { e } else { 5 };
        let v: u32 = if up { z * 5 / 4 } else { z * 4 / 5 };
        self.zoom = if up {
            if v < 800 { v } else { 800 }
        } else if v > 5 {
            v
        } else {
            5
        };
    }

    /// Where the picture is drawn, and at what size it is prepared: very
    /// large zooms are drawn from a smaller copy.
    pub fn placement(&self) -> (r: (i64, i64, u32, u32))
        requires
            self.wf(),
            self.progress == Progress::Shown,
        ensures
            ({
                let (dw, dh) = self.shown_size();
                &&& r.0 == tdiv(self.size.0 - dw, 2) + self.pan.0
                &&& r.1 == TOOLBAR_H + tdiv(self.size.1 - TOOLBAR_H - dh, 2) + self.pan.1
                &&& (r.2 as int, r.3 as int) == if dw * dh > 16_000_000 { (dw / 2, dh / 2) } else { (dw, dh) }
            }),
    {
        let (dw, dh) = self.display_size();
        proof {
            lemma_fit(*self);
            assert(0 <= dw * dh <= 0xffff_ffff * 0xffff_ffff) by (nonlinear_arith)
                requires
                    0 <= dw <= 0xffff_ffff,
                    0 <= dh <= 0xffff_ffff,
            ;
        }
        let v: Area = self.view();
        let x: i64 = v.x + div(v.w - dw as i64, 2) + self.pan.0 as i64;
        let y: i64 = v.y + div(v.h - dh as i64, 2) + self.pan.1 as i64;
        let (sw, sh) = if dw as u64 * dh as u64 > 16_000_000 { (dw / 2, dh / 2) } else { (dw, dh) };
        (x, y, sw, sh)
    }

    fn reset(&mut self, zoom: u32)
        ensures
            *final(self) == old(self).reset_to(zoom),
    {
        self.zoom = zoom;
        self.pan = (0, 0);
    }

    fn mouse_down(&mut self, x: i32, y: i32, clicks: u8, now: u64) -> (r: Effect)
        requires
            old(self).wf(),
            now + MESSAGE_MS <= u64::MAX,
        ensures
            (*final(self), r) == old(self).pressed(x, y, clicks, now),
            final(self).wf(),
    {
        match self.button_at(x, y) {
            Some(b) => match b {
                Btn::Prev => Effect::Step { forward: false },
                Btn::Next => Effect::Step { forward: true },
                Btn::Fit => {
                    self.reset(0);
                    Effect::Nothing
                },
                Btn::Actual => {
                    self.reset(100);
                    Effect::Nothing
                },
                Btn::Wallpaper => {
                    self.message_until = Some(now + MESSAGE_MS);
                    Effect::Wallpaper
                },
            },
            None => {
                if self.view().has(x, y) {
                    if clicks >= 2 {
                        let z: u32 = if self.zoom == 0 { 100 } else { 0 };
                        self.reset(z);
                    } else {
                        self.drag = Some((x, y, self.pan.0, self.pan.1));
                    }
                }
                Effect::Nothing
            },
        }
    }

    fn mouse_move(&mut self, x: i32, y: i32, buttons: u8) -> (redraw: bool)
        requires
            old(self).wf(),
            i32::MIN <= old(self).dragged(x, y).0 <= i32::MAX,
            i32::MIN <= old(self).dragged(x, y).1 <= i32::MAX,
        ensures
            (*final(self), redraw) == old(self).moved(x, y, buttons),
            final(self).wf(),
    {
        if let Some((sx, sy, px, py)) = self.drag {
            if buttons & 1 != 0 {
                self.pan = (
                    (px as i64 + x as i64 - sx as i64) as i32,
                    (py as i64 + y as i64 - sy as i64) as i32,
                );
                return true;
            }
        }
        let h: Option<Btn> = self.button_at(x, y);
        let changed: bool = match (h, self.hover) {
            (Some(a), Some(b)) => a != b,
            (None, None) => false,
            _ => true,
        };
        self.hover = h;
        changed
    }

    fn key(&mut self, k: Key) -> (r: Option<Effect>)
        requires
            old(self).wf(),
        ensures
            match r {
                Some(e) => old(self).keyed(k) == Some((*final(self), e)),
                None => old(self).keyed(k) is None && *final(self) == *old(self),
            },
            final(self).wf(),
    {
        match k {
            Key::Left | Key::PageUp => Some(Effect::Step { forward: false }),
            Key::Right | Key::PageDown => Some(Effect::Step { forward: true }),
            Key::Char(c) => {
                if c == ' ' {
                    Some(Effect::Step { forward: true })
                } else if c == '+' || c == '=' {
                    self.zoom_by(true);
                    Some(Effect::Nothing)
                } else if c == '-' {
                    self.zoom_by(false);
                    Some(Effect::Nothing)
                } else if c == '0' {
                    self.reset(0);
                    Some(Effect::Nothing)
                } else if c == '1' {
                    self.zoom = 100;
                    Some(Effect::Nothing)
                } else {
                    None
                }
            },
            Key::Escape => Some(Effect::Close),
            _ => None,
        }
    }

    /// An event at a time: what is to be done, and whether to draw the
    /// window again.
    pub fn event(&mut self, ev: &AppEvent, now: u64) -> (r: (Effect, bool))
        requires
            old(self).wf(),
            old(self).can_take(*ev),
            now + MESSAGE_MS <= u64::MAX,
        ensures
            (*final(self), r.0, r.1) == old(self).after(*ev, now),
            final(self).wf(),
    {
        match ev {
            AppEvent::MouseMove { x, y, buttons } => {
                let redraw: bool = self.mouse_move(*x, *y, *buttons);
                (Effect::Nothing, redraw)
            },
            AppEvent::MouseDown { x, y, button, clicks } => {
                if *button == 0 {
                    (self.mouse_down(*x, *y, *clicks, now), true)
                } else {
                    (Effect::Nothing, false)
                }
            },
            AppEvent::MouseUp { .. } => {
                self.drag = None;
                (Effect::Nothing, false)
            },
            AppEvent::Wheel { delta, .. } => {
                self.zoom_by(*delta < 0);
                (Effect::Nothing, true)
            },
            AppEvent::Key(k) => {
                if !k.pressed {
                    return (Effect::Nothing, false);
                }
                match self.key(k.key) {
                    Some(e) => (e, true),
                    None => (Effect::Nothing, false),
                }
            },
            AppEvent::Resized { .. } => (Effect::Nothing, true),
            AppEvent::Focus(_) => (Effect::Nothing, true),
            _ => (Effect::Nothing, false),
        }
    }

    /// Let time go by; whether the message has gone.
    pub fn tick(&mut self, now: u64) -> (redraw: bool)
        requires
            old(self).wf(),
        ensures
            redraw == (old(self).message_until matches Some(t) && now > t),
            *final(self) == if redraw { (ImageViewer { message_until: None, ..*old(self) }) } else { *old(self) },
            final(self).wf(),
    {
        if let Some(t) = self.message_until {
            if now > t {
                self.message_until = None;
                return true;
            }
        }
        false
    }

    /// Size and zoom, as the tool bar says them.
    pub fn info(&self) -> (r: Vec<char>)
        requires
            self.wf(),
        ensures
            r@ == dec(self.picture.0 as nat) + " \u{00d7} "@ + dec(self.picture.1 as nat) + " \u{00b7} "@ + dec(
                self.zoom_now() as nat,
            ) + "%"@,
    {
        let mut out: Vec<char> = Vec::new();
        push_dec(&mut out, self.picture.0 as u64);
        push_str(&mut out, " \u{00d7} ");
        push_dec(&mut out, self.picture.1 as u64);
        push_str(&mut out, " \u{00b7} ");
        push_dec(&mut out, self.effective_zoom() as u64);
        push_str(&mut out, "%");
        proof {
            assert(out@ =~= dec(self.picture.0 as nat) + " \u{00d7} "@ + dec(self.picture.1 as nat) + " \u{00b7} "@ + dec(
                self.zoom_now() as nat,
            ) + "%"@);
        }
        out
    }
}

/// The title of the window.
pub fn title(path: &[char]) -> (r: Vec<char>)
    ensures
        r@ == base_name(path@) + " \u{2014} Image Viewer"@,
{
    let mut out: Vec<char> = file_name_chars(path);
    push_str(&mut out, " \u{2014} Image Viewer");
    out
}

} // verus!
