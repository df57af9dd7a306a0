//! What the desktop paints around the windows: top bar, dock and menu, window
//! frames, and the pointer where the display has none of its own.

use super::super::app::WindowId;
use super::super::geom::{Area, Rect};
use super::super::paint::{area, at, circle, clipped, hline, text, Font, Ink, Shape};
use super::anim::eased_out;
use super::desktop::{
    dock_app, dock_kind, menu_entry, menu_row, menu_row_top, menu_row_height, Shell, Window, Wm, WmState,
    BOOT_FADE_MS, DOCK_LEN, MENU_FADE_MS, MENU_LEN,
};
use super::frame::{drawn, meet, rects_meet, volume_arcs, Draw};
use super::stack::lemma_window;
use crate::arith::{div, fits, max, max_i64, min, min_i64, tdiv};
use vstd::prelude::*;

verus! {

/// The texts and pictures of the desktop.
#[derive(Clone, Copy, PartialEq, Eq, Debug)]
pub enum Label {
    Name(&'static str),
    /// The title of the focused window.
    Title,
    Clock,
    /// The icon of a dock entry, and the shadow of the dock.
    Entry(usize),
    Dock,
    /// What a window shows, and its title.
    Window(WindowId),
    WindowTitle(WindowId),
}

/// What the desktop shows besides its own state.
pub struct Signs {
    /// Ascent less descent of the bold and of the plain font.
    pub bold_rise: i32,
    pub rise: i32,
    pub clock_w: i32,
    /// Whether the focused window has a title.
    pub titled: bool,
    /// Whether there is a network, and whether it is up.
    pub network: Option<bool>,
    /// Whether there is sound: its volume, and whether it is muted.
    pub sound: Option<(u8, bool)>,
    pub name_w: [i32; 5],
    /// Whether the shadow of the dock was made.
    pub dock_shadow: bool,
}

impl Signs {
    /// Numbers that a screen can hold.
    pub open spec fn wf(self) -> bool {
        &&& fits(self.clock_w * 4)
        &&& fits(self.bold_rise * 4)
        &&& fits(self.rise * 4)
        &&& forall|i: int| 0 <= i < DOCK_LEN ==> fits((#[trigger] self.name_w@[i]) * 4)
    }
}

/// The name of a dock entry.
pub open spec fn entry_name(i: int) -> &'static str {
    if i == 0 {
        "Files"
    } else if i == 1 {
        "Terminal"
    } else if i == 2 {
        "Text Editor"
    } else if i == 3 {
        "Settings"
    } else {
        "About MayOS"
    }
}

pub fn name_of_entry(i: usize) -> (r: &'static str)
    ensures
        r == entry_name(i as int),
{
    match i {
        0 => "Files",
        1 => "Terminal",
        2 => "Text Editor",
        3 => "Settings",
        _ => "About MayOS",
    }
}

/// The name of a row of the menu.
pub open spec fn row_name(i: int) -> &'static str {
    if i == 0 {
        "About MayOS"
    } else if i == 1 {
        "Settings\u{2026}"
    } else if i == 3 {
        "New Explorer Window"
    } else if i == 4 {
        "New Terminal"
    } else if i == 5 {
        "Text Editor"
    } else if i == 7 {
        "Restart"
    } else {
        "Shut Down"
    }
}

pub fn name_of_row(i: usize) -> (r: &'static str)
    ensures
        r == row_name(i as int),
{
    match i {
        0 => "About MayOS",
        1 => "Settings\u{2026}",
        3 => "New Explorer Window",
        4 => "New Terminal",
        5 => "Text Editor",
        7 => "Restart",
        _ => "Shut Down",
    }
}

pub open spec fn of_rect(r: Rect) -> Area {
    area(r.x as int, r.y as int, r.w as int, r.h as int)
}

fn from_rect(r: Rect) -> (a: Area)
    ensures
        a == of_rect(r),
{
    at(r.x as i64, r.y as i64, r.w as i64, r.h as i64)
}

// ---------------------------------------------------------------------
// Top bar
// ---------------------------------------------------------------------

/// The four bars of the network sign, the last of them 13 high.
pub open spec fn with_network(s: Seq<Shape<Label>>, x: int, base: int, online: bool) -> Seq<Shape<Label>> {
    let ink = if online { Ink::Text } else { Ink::Color(0x5a1d1f24) };
    s.push(Shape::Rounded(area(x, base - 3, 3, 4), 1, ink)).push(
        Shape::Rounded(area(x + 4, base - 6, 3, 7), 1, ink),
    ).push(Shape::Rounded(area(x + 8, base - 9, 3, 10), 1, ink)).push(
        Shape::Rounded(area(x + 12, base - 12, 3, 13), 1, ink),
    )
}

/// The loudspeaker: its horn widens to the right.
pub open spec fn with_speaker(s: Seq<Shape<Label>>, x: int, base: int) -> Seq<Shape<Label>> {
    s.push(Shape::Fill(area(x, base - 8, 3, 6), Ink::Text)).push(
        Shape::Fill(area(x + 3, base - 8, 1, 6), Ink::Text),
    ).push(Shape::Fill(area(x + 4, base - 9, 1, 8), Ink::Text)).push(
        Shape::Fill(area(x + 5, base - 10, 1, 10), Ink::Text),
    ).push(Shape::Fill(area(x + 6, base - 11, 1, 12), Ink::Text)).push(
        Shape::Fill(area(x + 7, base - 12, 1, 14), Ink::Text),
    )
}

/// How many arcs stand for a volume.
pub open spec fn arcs(volume: u8, muted: bool) -> int {
    if muted || volume == 0 {
        0
    } else if volume > 66 {
        3
    } else if volume > 33 {
        2
    } else {
        1
    }
}

pub open spec fn with_arcs(s: Seq<Shape<Label>>, x: int, base: int, n: int) -> Seq<Shape<Label>>
    decreases n,
{
    if n <= 0 {
        s
    } else {
        let a = n - 1;
        with_arcs(s, x, base, a).push(
            Shape::Fill(area(x + 10 + 3 * a, base - 7 - 2 * a, 1, 4 + 4 * a), Ink::Text),
        )
    }
}

pub open spec fn with_volume(s: Seq<Shape<Label>>, x: int, base: int, volume: u8, muted: bool) -> Seq<Shape<Label>> {
    let s = with_speaker(s, x, base);
    let n = arcs(volume, muted);
    if n == 0 {
        s.push(text(Font::SmallBold, x + 11, base, Label::Name("\u{2715}"), Ink::Text))
    } else {
        with_arcs(s, x, base, n)
    }
}

pub open spec fn with_signs(s: Seq<Shape<Label>>, x: int, base: int, g: Signs) -> Seq<Shape<Label>> {
    let s1 = match g.network {
        Some(online) => with_network(s, x, base, online),
        None => s,
    };
    let x1 = if g.network is Some { x - 26 } else { x };
    match g.sound {
        Some((volume, muted)) => with_volume(s1, x1, base, volume, muted),
        None => s1,
    }
}

pub open spec fn with_bar(s: Seq<Shape<Label>>, sh: Shell, g: Signs) -> Seq<Shape<Label>> {
    let w = sh.width as int;
    let base = tdiv(28 + g.bold_rise, 2);
    let s = s.push(Shape::Fill(area(0, 0, w, 28), Ink::Color(0xbeff_ffff))).push(
        hline(0, 27, w, Ink::Color(0x1e00_0000)),
    );
    let s = if sh.menu_open { s.push(Shape::Rounded(area(4, 2, 84, 24), 6, Ink::Color(0x1e00_0000))) } else { s };
    let s = s.push(circle(18, 14, 7, Ink::Accent)).push(circle(18, 14, 3, Ink::White)).push(
        text(Font::Bold, 32, base, Label::Name("MayOS"), Ink::Text),
    );
    let s = if g.titled { s.push(clipped(Font::Ui, 104, base, Label::Title, w / 2 - 88, Ink::Text)) } else { s };
    with_signs(
        s.push(text(Font::Ui, w - g.clock_w - 16, base, Label::Clock, Ink::Text)),
        w - g.clock_w - 40,
        base,
        g,
    )
}

fn paint_volume(out: &mut Vec<Shape<Label>>, x: i64, base: i64, volume: u8, muted: bool)
    requires
        -0x1_0000_0000 <= x <= 0x1_0000_0000,
        -0x1_0000_0000 <= base <= 0x1_0000_0000,
    ensures
        final(out)@ == with_volume(old(out)@, x as int, base as int, volume, muted),
{
    out.push(Shape::Fill(at(x, base - 8, 3, 6), Ink::Text));
    out.push(Shape::Fill(at(x + 3, base - 8, 1, 6), Ink::Text));
    out.push(Shape::Fill(at(x + 4, base - 9, 1, 8), Ink::Text));
    out.push(Shape::Fill(at(x + 5, base - 10, 1, 10), Ink::Text));
    out.push(Shape::Fill(at(x + 6, base - 11, 1, 12), Ink::Text));
    out.push(Shape::Fill(at(x + 7, base - 12, 1, 14), Ink::Text));
    let n: u8 = volume_arcs(volume, muted);
    if n == 0 {
        out.push(Shape::Text(Font::SmallBold, x + 11, base, Label::Name("\u{2715}"), Ink::Text));
        return;
    }
    let ghost start = out@;
    let mut a: u8 = 0;
    while a < n
        invariant
            a <= n <= 3,
            -0x1_0000_0000 <= x <= 0x1_0000_0000,
            -0x1_0000_0000 <= base <= 0x1_0000_0000,
            out@ == with_arcs(start, x as int, base as int, a as int),
        decreases n - a,
    {
        let k: i64 = a as i64;
        out.push(Shape::Fill(at(x + 10 + 3 * k, base - 7 - 2 * k, 1, 4 + 4 * k), Ink::Text));
        a = a + 1;
    }
}

fn paint_network(out: &mut Vec<Shape<Label>>, x: i64, base: i64, online: bool)
    requires
        -0x1_0000_0000 <= x <= 0x1_0000_0000,
        -0x1_0000_0000 <= base <= 0x1_0000_0000,
    ensures
        final(out)@ == with_network(old(out)@, x as int, base as int, online),
{
    let ink = if online { Ink::Text } else { Ink::Color(0x5a1d1f24) };
    out.push(Shape::Rounded(at(x, base - 3, 3, 4), 1, ink));
    out.push(Shape::Rounded(at(x + 4, base - 6, 3, 7), 1, ink));
    out.push(Shape::Rounded(at(x + 8, base - 9, 3, 10), 1, ink));
    out.push(Shape::Rounded(at(x + 12, base - 12, 3, 13), 1, ink));
}

fn paint_bar(out: &mut Vec<Shape<Label>>, sh: &Shell, g: &Signs)
    requires
        sh.wf(),
        g.wf(),
    ensures
        final(out)@ == with_bar(old(out)@, *sh, *g),
{
    let w: i64 = sh.width as i64;
    let base: i64 = div(28 + g.bold_rise as i64, 2);
    out.push(Shape::Fill(at(0, 0, w, 28), Ink::Color(0xbeff_ffff)));
    out.push(Shape::HLine(0, 27, w, Ink::Color(0x1e00_0000)));
    if sh.menu_open {
        out.push(Shape::Rounded(at(4, 2, 84, 24), 6, Ink::Color(0x1e00_0000)));
    }
    out.push(Shape::Circle(18, 14, 7, Ink::Accent));
    out.push(Shape::Circle(18, 14, 3, Ink::White));
    out.push(Shape::Text(Font::Bold, 32, base, Label::Name("MayOS"), Ink::Text));
    if g.titled {
        out.push(Shape::Clipped(Font::Ui, 104, base, Label::Title, w / 2 - 88, Ink::Text));
    }
    out.push(Shape::Text(Font::Ui, w - g.clock_w as i64 - 16, base, Label::Clock, Ink::Text));
    let mut x: i64 = w - g.clock_w as i64 - 40;
    if let Some(online) = g.network {
        paint_network(out, x, base, online);
        x = x - 26;
    }
    if let Some((volume, muted)) = g.sound {
        paint_volume(out, x, base, volume, muted);
    }
}

// ---------------------------------------------------------------------
// Dock
// ---------------------------------------------------------------------

pub open spec fn runs(ws: Seq<Window>, i: int) -> bool {
    exists|k: int| 0 <= k < ws.len() && (#[trigger] ws[k]).kind == dock_app(i) && !ws[k].closing
}

/// The first `n` entries of the dock: each lifted under the pointer and while
/// it hops, with a dot for an app that runs and a name under the pointer.
pub open spec fn with_entries(s: Seq<Shape<Label>>, st: WmState, g: Signs, now: u64, n: int) -> Seq<Shape<Label>>
    decreases n,
{
    if n <= 0 {
        s
    } else {
        let i = n - 1;
        let d = st.s.dock_area();
        let r = st.s.icon_area(i);
        let over = st.s.dock_hover == Some(i as usize);
        let lift = (if over { 4int } else { 0 }) + st.s.hop(dock_app(i), now);
        let s = with_entries(s, st, g, now, i).push(
            Shape::Icon(Label::Entry(i as usize), r.x as i64, (r.y - lift) as i64, 48),
        );
        let s = if runs(st.windows, i) { s.push(circle(r.x + 24, d.y + 63, 2, Ink::Color(0xc81e_1e28))) } else { s };
        if over {
            let tw = g.name_w@[i] + 20;
            let tip = area(r.x + 24 - tdiv(tw, 2), d.y - 34, tw, 26);
            s.push(Shape::Rounded(tip, 8, Ink::Color(0xe11e_2028))).push(
                Shape::Centered(Font::Ui, tip, Label::Name(entry_name(i)), Ink::White),
            )
        } else {
            s
        }
    }
}

pub open spec fn with_dock(s: Seq<Shape<Label>>, st: WmState, g: Signs, now: u64) -> Seq<Shape<Label>> {
    let d = of_rect(st.s.dock_area());
    let s = if g.dock_shadow { s.push(Shape::Mask(Label::Dock, d, false, Ink::Color(0x4600_0000), 255)) } else { s };
    with_entries(
        s.push(Shape::Rounded(d, 20, Ink::Color(0xa5ff_ffff))).push(Shape::Outline(d, 20, 1, Ink::Color(0xc8ff_ffff))),
        st,
        g,
        now,
        DOCK_LEN as int,
    )
}

// ---------------------------------------------------------------------
// Menu
// ---------------------------------------------------------------------

/// Opacity of the menu while it fades in.
pub open spec fn menu_opacity(sh: Shell, now: u64) -> int {
    if sh.menu_opened_at == 0 {
        255
    } else {
        min(max(now - sh.menu_opened_at, 0) * 255 / MENU_FADE_MS as int, 255)
    }
}

/// Opacity of the black that covers the screen after start-up.
pub open spec fn boot_opacity(sh: Shell, now: u64) -> int {
    if sh.boot_at == 0 {
        0
    } else {
        255 - eased_out(min(max(now - sh.boot_at, 0) * 1024 / BOOT_FADE_MS as int, 1024)) * 255 / 1024
    }
}

/// The first `n` rows of the menu, `drop` above their place.
pub open spec fn with_rows(s: Seq<Shape<Label>>, hover: Option<usize>, a: u32, drop: int, rise: int, n: int) -> Seq<Shape<Label>>
    decreases n,
{
    if n <= 0 {
        s
    } else {
        let i = n - 1;
        let s = with_rows(s, hover, a, drop, rise, i);
        let y = menu_row_top(i) - drop;
        if menu_entry(i) is Some {
            let over = hover == Some(i as usize);
            let s = if over { s.push(Shape::Rounded(area(12, y, 208, 28), 6, Ink::AccentFaded(a))) } else { s };
            s.push(
                text(
                    Font::Ui,
                    24,
                    y + tdiv(28 + rise, 2),
                    Label::Name(row_name(i)),
                    Ink::Faded(if over { 0xffff_ffff } else { 0xff1d_1f24 }, a),
                ),
            )
        } else {
            s.push(hline(18, y + 4, 196, Ink::Faded(0xffe1_e4e9, a)))
        }
    }
}

pub open spec fn with_menu(s: Seq<Shape<Label>>, hover: Option<usize>, a: u32, rise: int) -> Seq<Shape<Label>> {
    let drop = (255 - a) * 8 / 255;
    let m = area(6, 32 - drop, 220, 226);
    with_rows(
        s.push(Shape::Shadow(m, 10, 16, Ink::Faded(0x5000_0000, a))).push(
            Shape::Rounded(m, 10, Ink::Faded(0xf5fa_fbfd, a)),
        ).push(Shape::Outline(m, 10, 1, Ink::Faded(0x2800_0000, a))),
        hover,
        a,
        drop,
        rise,
        MENU_LEN as int,
    )
}

proof fn lemma_row_top(i: int)
    requires
        0 <= i <= MENU_LEN,
    ensures
        38 <= menu_row_top(i) <= 38 + 28 * i,
    decreases i,
{
    if i > 0 {
        lemma_row_top(i - 1);
    }
}

fn paint_menu(out: &mut Vec<Shape<Label>>, hover: Option<usize>, a: u32, rise: i32)
    requires
        a <= 255,
    ensures
        final(out)@ == with_menu(old(out)@, hover, a, rise as int),
{
    let drop: i64 = (255 - a as i64) * 8 / 255;
    let m = at(6, 32 - drop, 220, 226);
    out.push(Shape::Shadow(m, 10, 16, Ink::Faded(0x5000_0000, a)));
    out.push(Shape::Rounded(m, 10, Ink::Faded(0xf5fa_fbfd, a)));
    out.push(Shape::Outline(m, 10, 1, Ink::Faded(0x2800_0000, a)));
    let ghost start = out@;
    let mut y: i64 = 38 - drop;
    let mut i: usize = 0;
    while i < MENU_LEN
        invariant
            i <= MENU_LEN,
            0 <= drop <= 8,
            y == menu_row_top(i as int) - drop,
            out@ == with_rows(start, hover, a, drop as int, rise as int, i as int),
        decreases MENU_LEN - i,
    {
        proof {
            lemma_row_top(i as int);
            assert(menu_row_top(i + 1) == menu_row_top(i as int) + menu_row_height(i as int));
        }
        if menu_row(i).is_some() {
            let over: bool = match hover {
                Some(k) => k == i,
                None => false,
            };
            if over {
                out.push(Shape::Rounded(at(12, y, 208, 28), 6, Ink::AccentFaded(a)));
            }
            let ink = Ink::Faded(if over { 0xffff_ffff } else { 0xff1d_1f24 }, a);
            out.push(Shape::Text(Font::Ui, 24, y + div(28 + rise as i64, 2), Label::Name(name_of_row(i)), ink));
            y = y + 28;
        } else {
            out.push(Shape::HLine(18, y + 4, 196, Ink::Faded(0xffe1_e4e9, a)));
            y = y + 9;
        }
        i = i + 1;
    }
}

// ---------------------------------------------------------------------
// The pointer
// ---------------------------------------------------------------------

/// Pixels of the pointer are kept in rows of 64; 24 by 26 of them are shown.
pub open spec fn with_pointer(s: Seq<Shape<Label>>, cursor: Seq<u32>, px: int, py: int, n: int) -> Seq<Shape<Label>>
    decreases n,
{
    if n <= 0 {
        s
    } else {
        let (x, y) = ((n - 1) % 24, (n - 1) / 24);
        let p = cursor[y * 64 + x];
        let s = with_pointer(s, cursor, px, py, n - 1);
        if p / 0x100_0000 > 0 {
            s.push(
                Shape::Dot(
                    (px + x) as i64,
                    (py + y) as i64,
                    Ink::Color((0xff00_0000 + p % 0x100_0000) as u32),
                    p / 0x100_0000,
                ),
            )
        } else {
            s
        }
    }
}

fn paint_pointer(out: &mut Vec<Shape<Label>>, cursor: &[u32], px: i64, py: i64)
    requires
        cursor@.len() >= 64 * 26,
        -1000 <= px <= 0x10_0000,
        -1000 <= py <= 0x10_0000,
    ensures
        final(out)@ == with_pointer(old(out)@, cursor@, px as int, py as int, 624),
{
    let mut i: usize = 0;
    while i < 624
        invariant
            i <= 624,
            cursor@.len() >= 64 * 26,
            -1000 <= px <= 0x10_0000,
            -1000 <= py <= 0x10_0000,
            out@ == with_pointer(old(out)@, cursor@, px as int, py as int, i as int),
        decreases 624 - i,
    {
        let (x, y) = (i % 24, i / 24);
        let p: u32 = cursor[y * 64 + x];
        let a: u32 = p / 0x100_0000;
        if a > 0 {
            let ink = Ink::Color(0xff00_0000 + p % 0x100_0000);
            out.push(Shape::Dot(px + x as i64, py + y as i64, ink, a));
        }
        i = i + 1;
    }
}

// ---------------------------------------------------------------------
// Windows
// ---------------------------------------------------------------------

/// The cross on the close button, up to `n` steps along its arms.
pub open spec fn with_cross(s: Seq<Shape<Label>>, n: int) -> Seq<Shape<Label>>
    decreases n,
{
    if n <= 0 {
        s
    } else {
        let d = n - 3;
        let g = Ink::Color(0x9600_0000);
        with_cross(s, n - 1).push(Shape::Dot((20 + d) as i64, (18 + d) as i64, g, 255)).push(
            Shape::Dot((20 + d) as i64, (18 - d) as i64, g, 255),
        ).push(Shape::Dot((19 + d) as i64, (18 + d) as i64, g, 120)).push(
            Shape::Dot((19 + d) as i64, (18 - d) as i64, g, 120),
        )
    }
}

/// The three buttons of a title bar. They are grey in a window that is not in
/// use, and show what they do while the pointer is over one of them.
pub open spec fn with_buttons(s: Seq<Shape<Label>>, focused: bool, hover: bool) -> Seq<Shape<Label>> {
    let lit = focused || hover;
    let g = Ink::Color(0x9600_0000);
    let grey = Ink::Color(0xffcf_d0d4);
    let s = s.push(circle(20, 18, 6, if lit { Ink::Color(0xffff_5f57) } else { grey }));
    let s = if hover { with_cross(s, 5) } else { s };
    let s = s.push(circle(40, 18, 6, if lit { Ink::Color(0xfffe_bc2e) } else { grey }));
    let s = if hover { s.push(Shape::Fill(area(37, 18, 7, 1), g)) } else { s };
    let s = s.push(circle(60, 18, 6, if lit { Ink::Color(0xff28_c840) } else { grey }));
    if hover {
        s.push(Shape::Fill(area(57, 18, 7, 1), g)).push(Shape::Fill(area(60, 15, 1, 7), g))
    } else {
        s
    }
}

/// The frame of a window, up to where its app paints.
pub open spec fn frame_shapes(w: Window, focused: bool, title_w: int, rise: int) -> Seq<Shape<Label>> {
    let rw = w.rect.w as int;
    let s = Seq::<Shape<Label>>::empty().push(
        Shape::Fill(area(0, 0, rw, 36), if focused { Ink::Color(0xfff4_f5f7) } else { Ink::Color(0xffea_ebee) }),
    ).push(hline(0, 35, rw, Ink::Separator));
    let tw = min(title_w, rw - 170);
    with_buttons(s, focused, w.hover_button is Some).push(
        clipped(
            Font::Bold,
            max(tdiv(rw - tw, 2), 80),
            tdiv(36 + rise, 2),
            Label::WindowTitle(w.id),
            rw - 170,
            if focused { Ink::Text } else { Ink::TextDim },
        ),
    ).push(Shape::Clip(area(0, 36, rw, w.rect.h - 36)))
}

fn paint_buttons(out: &mut Vec<Shape<Label>>, focused: bool, hover: bool)
    ensures
        final(out)@ == with_buttons(old(out)@, focused, hover),
{
    let lit: bool = focused || hover;
    let g = Ink::Color(0x9600_0000);
    let grey = Ink::Color(0xffcf_d0d4);
    out.push(Shape::Circle(20, 18, 6, if lit { Ink::Color(0xffff_5f57) } else { grey }));
    if hover {
        let ghost start = out@;
        let mut n: i64 = 0;
        while n < 5
            invariant
                0 <= n <= 5,
                g == Ink::Color(0x9600_0000),
                out@ == with_cross(start, n as int),
            decreases 5 - n,
        {
            let d: i64 = n - 2;
            out.push(Shape::Dot(20 + d, 18 + d, g, 255));
            out.push(Shape::Dot(20 + d, 18 - d, g, 255));
            out.push(Shape::Dot(19 + d, 18 + d, g, 120));
            out.push(Shape::Dot(19 + d, 18 - d, g, 120));
            n = n + 1;
        }
    }
    out.push(Shape::Circle(40, 18, 6, if lit { Ink::Color(0xfffe_bc2e) } else { grey }));
    if hover {
        out.push(Shape::Fill(at(37, 18, 7, 1), g));
    }
    out.push(Shape::Circle(60, 18, 6, if lit { Ink::Color(0xff28_c840) } else { grey }));
    if hover {
        out.push(Shape::Fill(at(57, 18, 7, 1), g));
        out.push(Shape::Fill(at(60, 15, 1, 7), g));
    }
}

/// Paints the frame of a window, up to where its app paints.
pub fn render_window(w: &Window, focused: bool, title_w: i32, rise: i32) -> (shapes: Vec<Shape<Label>>)
    requires
        w.wf(),
    ensures
        shapes@ == frame_shapes(*w, focused, title_w as int, rise as int),
{
    let rw: i64 = w.rect.w as i64;
    let mut out: Vec<Shape<Label>> = Vec::new();
    let ink = if focused { Ink::Color(0xfff4_f5f7) } else { Ink::Color(0xffea_ebee) };
    out.push(Shape::Fill(at(0, 0, rw, 36), ink));
    out.push(Shape::HLine(0, 35, rw, Ink::Separator));
    paint_buttons(&mut out, focused, w.hover_button.is_some());
    let tw: i64 = min_i64(title_w as i64, rw - 170);
    let x: i64 = max_i64(div(rw - tw, 2), 80);
    let ink = if focused { Ink::Text } else { Ink::TextDim };
    out.push(Shape::Clipped(Font::Bold, x, div(36 + rise as i64, 2), Label::WindowTitle(w.id), rw - 170, ink));
    let (cw, ch) = w.client_size();
    out.push(Shape::Clip(at(0, 36, cw as i64, ch as i64)));
    out
}

/// A window on the screen: its shadow, which was made for a window of the size
/// `shadow`, what it shows, and its border.
pub open spec fn with_window(
    s: Seq<Shape<Label>>,
    w: Window,
    focused: bool,
    shadow: Option<(i32, i32)>,
    now: u64,
) -> Seq<Shape<Label>> {
    let d = drawn(w, now);
    let dest = of_rect(d.dest);
    let ink = if focused { Ink::Color(0x6e08_0e1e) } else { Ink::Color(0x3c08_0e1e) };
    let l = Label::Window(w.id);
    if d.at_rest {
        let s = match shadow {
            Some(m) => if w.is_maximized() {
                s
            } else {
                s.push(Shape::Mask(l, dest, m != (w.rect.w, w.rect.h), ink, 255))
            },
            None => s,
        };
        let s = s.push(Shape::Picture(l, dest, 255, d.radius as i64));
        if w.is_maximized() { s } else { s.push(Shape::Outline(dest, d.radius as i64, 1, Ink::Color(0x2600_0000))) }
    } else {
        let s = if shadow is Some { s.push(Shape::Mask(l, dest, true, ink, d.alpha)) } else { s };
        s.push(Shape::Picture(l, dest, d.alpha, d.radius as i64)).push(
            Shape::Outline(dest, d.radius as i64, 1, Ink::Faded(0x2600_0000, d.alpha)),
        )
    }
}

/// The first `n` windows in an area of the screen, bottom to top.
pub open spec fn with_windows(
    s: Seq<Shape<Label>>,
    st: WmState,
    shadows: Seq<Option<(i32, i32)>>,
    r: Rect,
    now: u64,
    n: int,
) -> Seq<Shape<Label>>
    decreases n,
{
    if n <= 0 {
        s
    } else {
        let s = with_windows(s, st, shadows, r, now, n - 1);
        let w = st.windows[n - 1];
        if (w.minimized && w.anim is None) || !meet(w.bounds_at(now), r) {
            s
        } else {
            with_window(s, w, st.s.focused == Some(w.id), shadows[n - 1], now)
        }
    }
}

fn paint_window(out: &mut Vec<Shape<Label>>, w: &Window, d: &Draw, focused: bool, shadow: Option<(i32, i32)>, now: u64)
    requires
        *d == drawn(*w, now),
    ensures
        final(out)@ == with_window(old(out)@, *w, focused, shadow, now),
{
    let dest = from_rect(d.dest);
    let ink = if focused { Ink::Color(0x6e08_0e1e) } else { Ink::Color(0x3c08_0e1e) };
    let l = Label::Window(w.id);
    if d.at_rest {
        if !w.maximized() {
            if let Some((mw, mh)) = shadow {
                out.push(Shape::Mask(l, dest, mw != w.rect.w || mh != w.rect.h, ink, 255));
            }
        }
        out.push(Shape::Picture(l, dest, 255, d.radius as i64));
        if !w.maximized() {
            out.push(Shape::Outline(dest, d.radius as i64, 1, Ink::Color(0x2600_0000)));
        }
    } else {
        if shadow.is_some() {
            out.push(Shape::Mask(l, dest, true, ink, d.alpha));
        }
        out.push(Shape::Picture(l, dest, d.alpha, d.radius as i64));
        out.push(Shape::Outline(dest, d.radius as i64, 1, Ink::Faded(0x2600_0000, d.alpha)));
    }
}

impl Wm {
    /// What to paint of the windows in an area of the screen, over the
    /// wallpaper. `shadows` are the sizes that the shadows were made for.
    pub fn composite(&self, shadows: &[Option<(i32, i32)>], r: Rect, now: u64) -> (shapes: Vec<Shape<Label>>)
        requires
            self@.wf(),
            shadows@.len() == self@.windows.len(),
        ensures
            shapes@ == with_windows(Seq::empty(), self@, shadows@, r, now, self@.windows.len() as int),
    {
        let mut out: Vec<Shape<Label>> = Vec::new();
        let mut i: usize = 0;
        while i < self.windows.len()
            invariant
                i <= self.windows@.len() == shadows@.len(),
                self@.wf(),
                out@ == with_windows(Seq::empty(), self@, shadows@, r, now, i as int),
            decreases self.windows@.len() - i,
        {
            proof {
                lemma_window(self@, i as int);
            }
            let w: Window = self.windows[i];
            if !(w.minimized && w.anim.is_none()) && rects_meet(&w.visual_bounds(now), &r) {
                let focused: bool = match self.s.focused {
                    Some(id) => id == w.id,
                    None => false,
                };
                let d: Draw = Wm::drawing(&w, now);
                paint_window(&mut out, &w, &d, focused, shadows[i], now);
            }
            i = i + 1;
        }
        out
    }
}

/// Nothing of a window that is hidden is painted.
pub proof fn lemma_hidden_not_painted(
    st: WmState,
    shadows: Seq<Option<(i32, i32)>>,
    r: Rect,
    now: u64,
    k: int,
)
    requires
        0 <= k < with_windows(Seq::empty(), st, shadows, r, now, st.windows.len() as int).len(),
    ensures
        with_windows(Seq::empty(), st, shadows, r, now, st.windows.len() as int)[k] matches Shape::Picture(l, _, _, _)
            ==> exists|i: int|
            0 <= i < st.windows.len() && l == Label::Window((#[trigger] st.windows[i]).id) && !(st.windows[i].minimized
                && st.windows[i].anim is None),
{
    lemma_painted(st, shadows, r, now, st.windows.len() as int, k);
}

proof fn lemma_painted(st: WmState, shadows: Seq<Option<(i32, i32)>>, r: Rect, now: u64, n: int, k: int)
    requires
        0 <= n <= st.windows.len(),
        0 <= k < with_windows(Seq::empty(), st, shadows, r, now, n).len(),
    ensures
        with_windows(Seq::empty(), st, shadows, r, now, n)[k] matches Shape::Picture(l, _, _, _) ==> exists|i: int|
            0 <= i < n && l == Label::Window((#[trigger] st.windows[i]).id) && !(st.windows[i].minimized
                && st.windows[i].anim is None),
    decreases n,
{
    if n > 0 {
        let before = with_windows(Seq::empty(), st, shadows, r, now, n - 1);
        if k < before.len() {
            lemma_painted(st, shadows, r, now, n - 1, k);
        } else {
            assert(st.windows[n - 1].id == st.windows[n - 1].id);
        }
    }
}

// ---------------------------------------------------------------------
// Everything
// ---------------------------------------------------------------------

/// What is painted over the windows in an area of the screen.
pub open spec fn shell_shapes(st: WmState, g: Signs, cursor: Seq<u32>, r: Rect, now: u64) -> Seq<Shape<Label>> {
    let s = Seq::<Shape<Label>>::empty().push(Shape::Clip(of_rect(r)));
    let s = if meet(Rect { x: 0, y: 0, w: st.s.width, h: 28 }, r) { with_bar(s, st.s, g) } else { s };
    let s = if meet(st.s.dock_surroundings(), r) { with_dock(s, st, g, now) } else { s };
    let s = if st.s.menu_open && meet(Rect { x: -14i32, y: 12, w: 260, h: 266 }, r) {
        with_menu(s, st.s.menu_hover, menu_opacity(st.s, now) as u32, g.rise as int)
    } else {
        s
    };
    let b = boot_opacity(st.s, now);
    let s = if b > 0 { s.push(Shape::Fill(of_rect(r), Ink::Color((b * 0x100_0000) as u32))) } else { s };
    if st.s.hw_cursor {
        s
    } else {
        with_pointer(s, cursor, st.s.pointer.0 - st.s.cursor_hot.0, st.s.pointer.1 - st.s.cursor_hot.1, 624)
    }
}

impl Wm {
    fn paint_dock(&self, out: &mut Vec<Shape<Label>>, g: &Signs, now: u64)
        requires
            self@.wf(),
            g.wf(),
        ensures
            final(out)@ == with_dock(old(out)@, self@, *g, now),
    {
        let dock = self.s.dock_rect();
        let d = from_rect(dock);
        if g.dock_shadow {
            out.push(Shape::Mask(Label::Dock, d, false, Ink::Color(0x4600_0000), 255));
        }
        out.push(Shape::Rounded(d, 20, Ink::Color(0xa5ff_ffff)));
        out.push(Shape::Outline(d, 20, 1, Ink::Color(0xc8ff_ffff)));
        let ghost start = out@;
        let mut i: usize = 0;
        while i < DOCK_LEN
            invariant
                i <= DOCK_LEN,
                self@.wf(),
                g.wf(),
                d == of_rect(self@.s.dock_area()),
                dock == self@.s.dock_area(),
                -400 <= dock.x <= 0x10_0000,
                -100 <= dock.y <= 0x10_0000,
                out@ == with_entries(start, self@, *g, now, i as int),
            decreases DOCK_LEN - i,
        {
            let r = self.s.dock_icon_rect(i);
            let over: bool = match self.s.dock_hover {
                Some(k) => k == i,
                None => false,
            };
            let hop: i32 = self.s.bounce_offset(dock_kind(i), now);
            let lift: i32 = (if over { 4 } else { 0 }) + hop;
            out.push(Shape::Icon(Label::Entry(i), r.x as i64, r.y as i64 - lift as i64, 48));
            if self.is_running(dock_kind(i)) {
                out.push(Shape::Circle(r.x as i64 + 24, dock.y as i64 + 63, 2, Ink::Color(0xc81e_1e28)));
            }
            if over {
                let tw: i64 = g.name_w[i] as i64 + 20;
                let tip = at(r.x as i64 + 24 - div(tw, 2), dock.y as i64 - 34, tw, 26);
                out.push(Shape::Rounded(tip, 8, Ink::Color(0xe11e_2028)));
                out.push(Shape::Centered(Font::Ui, tip, Label::Name(name_of_entry(i)), Ink::White));
            }
            i = i + 1;
        }
    }

    /// What to paint over the windows in an area of the screen.
    pub fn paint_shell(&self, g: &Signs, cursor: &[u32], r: Rect, now: u64) -> (shapes: Vec<Shape<Label>>)
        requires
            self@.wf(),
            g.wf(),
            cursor@.len() >= 64 * 26,
        ensures
            shapes@ == shell_shapes(self@, *g, cursor@, r, now),
    {
        let mut out: Vec<Shape<Label>> = Vec::new();
        out.push(Shape::Clip(from_rect(r)));
        if rects_meet(&Rect::new(0, 0, self.s.width, 28), &r) {
            paint_bar(&mut out, &self.s, g);
        }
        if rects_meet(&self.s.dock_damage_rect(), &r) {
            self.paint_dock(&mut out, g, now);
        }
        if self.s.menu_open && rects_meet(&Rect::new(-14, 12, 260, 266), &r) {
            let a: u32 = self.menu_alpha(now);
            paint_menu(&mut out, self.s.menu_hover, a, g.rise);
        }
        let b: u32 = self.boot_alpha(now);
        if b > 0 {
            out.push(Shape::Fill(from_rect(r), Ink::Color(b * 0x100_0000)));
        }
        if !self.s.hw_cursor {
            let px: i64 = self.s.pointer.0 as i64 - self.s.cursor_hot.0 as i64;
            let py: i64 = self.s.pointer.1 as i64 - self.s.cursor_hot.1 as i64;
            paint_pointer(&mut out, cursor, px, py);
        }
        out
    }
}

} // verus!
