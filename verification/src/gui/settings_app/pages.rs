//! The pages of the Settings app.

use super::disks::{disk_targets, offered, offers, offers_of, Blank, Volume};
use super::labels::{aspect, aspect_label};
use super::prefs::{ease, eased, knob_at, slid, slider_value, toggled, Slider, Toggle};
use super::sheet::{close, page_sign, place, sign_of, Label, Note, Sheet, SheetState, ROW_H};
use super::window::{knob_for, page_of, Action, Page, Panel, SettingsApp, PAGE_MS};
use crate::arith::{div, max, max_i64, min, min_i64, tdiv};
use crate::gui::geom::{Area, Rect};
use crate::gui::paint::{area, at, circle, clipped, text, Font, Ink, Shape};
use crate::gui::wallpaper::WALLPAPERS;
use crate::gui::widgets::{draw_scrollbar, thumb_height, with_field, ButtonStyle, TextInput};
use vstd::prelude::*;

verus! {

pub const SIDEBAR_W: i64 = 214;

/// The state of the address lease.
#[derive(Clone, Copy, PartialEq, Eq, Debug, Structural)]
pub enum Dhcp {
    Disabled,
    Searching,
    Bound,
    Failed,
}

/// What the Network page shows of the adapter.
#[derive(Clone, Copy, Debug)]
pub struct Net {
    pub link_up: bool,
    /// Whether it has an address.
    pub addressed: bool,
    pub dhcp: Dhcp,
    /// How wide the details are.
    pub widths: [i32; 6],
    /// Whether the last test went well.
    pub result: Option<bool>,
}

/// How far a disk setup has come.
#[derive(Clone, Copy, PartialEq, Eq, Debug, Structural)]
pub enum Setup {
    Idle,
    Running,
    Done,
    Failed,
}

/// What the pages show besides the settings.
pub struct Facts {
    /// Ascent less descent of the font.
    pub rise: i32,
    /// How many lines each note takes.
    pub lines: [usize; 11],
    pub device_w: i32,
    pub modes: Vec<(u32, u32)>,
    pub mode: (u32, u32),
    pub accents: usize,
    /// The widest name of a place, and of a size of the dock.
    pub position_w: i32,
    pub size_w: i32,
    /// The pictures found: whether each can be shown.
    pub pictures: Vec<bool>,
    pub scanning: bool,
    /// Whether a picture is used as the wallpaper, and which one of those found.
    pub picture_used: bool,
    pub chosen: Option<usize>,
    pub sound_present: bool,
    pub sound_w: i32,
    pub net: Option<Net>,
    /// Where the carets of the form are.
    pub carets: [i32; 4],
    pub layout_w: i32,
    pub setup: Setup,
    pub mounts: Vec<Volume>,
    pub blanks: Vec<Blank>,
    pub root_persistent: bool,
    pub path_w: i32,
    /// How wide the lines about the system are.
    pub info: Vec<i32>,
    /// How wide the message is.
    pub message_w: i32,
}

/// The number of a note.
pub open spec fn note_number(n: Note) -> int {
    match n {
        Note::FixedScreen => 0,
        Note::Searching => 1,
        Note::NoPictures => 2,
        Note::Pictures => 3,
        Note::TestSound => 4,
        Note::NoSound => 5,
        Note::NoNetwork => 6,
        Note::Keys => 7,
        Note::SettingUp => 8,
        Note::AddDisk => 9,
        Note::Maker => 10,
    }
}

impl Facts {
    /// Numbers that a screen can hold.
    pub open spec fn wf(self) -> bool {
        &&& forall|i: int| 0 <= i < 11 ==> (#[trigger] self.lines@[i]) <= 100_000
        &&& self.modes@.len() <= 100_000
        &&& self.accents <= 100_000
        &&& 0 <= self.position_w <= 1_000_000_000
        &&& 0 <= self.size_w <= 1_000_000_000
        &&& self.pictures@.len() <= 100_000
        &&& forall|i: int| 0 <= i < 4 ==> 0 <= (#[trigger] self.carets@[i]) <= 1_000_000_000
        &&& self.mounts@.len() <= 100_000
        &&& forall|i: int| 0 <= i < self.mounts@.len() ==> (#[trigger] self.mounts@[i]).wf()
        &&& self.blanks@.len() <= 100_000
        &&& self.info@.len() <= 100_000
    }

    pub open spec fn height(self, n: Note) -> int {
        self.lines@[note_number(n)] as int
    }

    fn lines_of(&self, n: Note) -> (r: usize)
        requires
            self.wf(),
        ensures
            r == self.height(n),
            r <= 100_000,
    {
        match n {
            Note::FixedScreen => self.lines[0],
            Note::Searching => self.lines[1],
            Note::NoPictures => self.lines[2],
            Note::Pictures => self.lines[3],
            Note::TestSound => self.lines[4],
            Note::NoSound => self.lines[5],
            Note::NoNetwork => self.lines[6],
            Note::Keys => self.lines[7],
            Note::SettingUp => self.lines[8],
            Note::AddDisk => self.lines[9],
            Note::Maker => self.lines[10],
        }
    }
}

/// Where a page is laid out.
pub open spec fn on_screen(x: int, y: int, w: int) -> bool {
    0 <= x <= 1000 && -2_200_000_000 <= y <= 1000 && -1000 <= w <= 720
}

impl SettingsApp {
    pub open spec fn knob(self, t: Toggle, now: u64) -> int {
        knob_at(if toggled(self.panel.cfg, t) { 1024 } else { 0 }, knob_for(self.knobs@, t, 0), now as int)
    }

    pub open spec fn gripped(self, sl: Slider) -> bool {
        self.panel.hover == Some(Action::Slider(sl)) || (self.panel.dragging matches Some((d, _)) && d == sl)
    }

    pub fn hovered(&self, a: Action) -> (r: bool)
        ensures
            r == (self.panel.hover == Some(a)),
    {
        match self.panel.hover {
            Some(h) => h == a,
            None => false,
        }
    }

    fn active(&self, sl: Slider) -> (r: bool)
        ensures
            r == self.gripped(sl),
    {
        let dragged: bool = match self.panel.dragging {
            Some((d, _)) => d == sl,
            None => false,
        };
        dragged || self.hovered(Action::Slider(sl))
    }
}

// ---------------------------------------------------------------------
// Display
// ---------------------------------------------------------------------

/// The first `n` rows of the list of resolutions.
pub open spec fn mode_rows(s: SheetState, card: Area, f: Facts, hover: Option<Action>, n: int) -> SheetState
    decreases n,
{
    if n <= 0 {
        s
    } else {
        let s = mode_rows(s, card, f, hover, n - 1);
        let i = n - 1;
        let m = f.modes@[i];
        let r = place(card, i);
        let l = Label::Mode(i as usize);
        let detail = if aspect(m.0, m.1) is Some { Some(Label::Aspect(i as usize)) } else { None };
        let a = Action::Resolution(m.0, m.1);
        let (cx, cy) = (r.x + r.w - 30, r.y + 26);
        let s = s.row(r, l, detail, n == f.modes@.len(), f.rise as int);
        let s = if hover == Some(a) {
            s.drawn(
                Shape::Rounded(area(r.x + 4, r.y + 4, r.w - 8, r.h - 8), 8, Ink::AccentAlpha(18)),
            ).row(r, l, detail, true, f.rise as int)
        } else {
            s
        };
        let s = if m == f.mode {
            s.drawn(circle(cx, cy, 9, Ink::Accent)).drawn(circle(cx, cy, 4, Ink::White))
        } else {
            s.drawn(Shape::Outline(area(cx - 9, cy - 9, 18, 18), 9, 2, Ink::Color(0xffc5_cad3)))
        };
        s.hit(r, a)
    }
}

impl SettingsApp {
    pub open spec fn display_page(self, s: SheetState, x: int, y: int, w: int, f: Facts, now: u64) -> SheetState {
        let rise = f.rise as int;
        let card = area(x, y + 62, w, 104);
        let s = s.title(x, y, "Display").card(card).row(
            place(card, 0),
            Label::Name("Graphics device"),
            None,
            false,
            rise,
        ).value(place(card, 0), Label::Device, f.device_w as int, rise).row(
            place(card, 1),
            Label::Name("Animations"),
            Some(Label::Name("Window, dock and menu motion")),
            true,
            rise,
        ).toggle(place(card, 1), Toggle::Animations, self.knob(Toggle::Animations, now)).drawn(
            text(Font::Bold, x + 4, y + 190, Label::Name("Resolution"), Ink::Text),
        );
        let list = area(x, y + 202, w, ROW_H * max(f.modes@.len() as int, 1));
        let s = mode_rows(s.card(list), list, f, self.panel.hover, f.modes@.len() as int);
        if f.modes@.len() <= 1 {
            s.note(x + 4, list.y + list.h + 20, Note::FixedScreen, f.height(Note::FixedScreen))
        } else {
            s
        }
    }

    fn page_display(&self, s: &mut Sheet, x: i64, y: i64, w: i64, f: &Facts, now: u64)
        requires
            self.wf(),
            self.before(now),
            f.wf(),
            on_screen(x as int, y as int, w as int),
        ensures
            final(s)@ == self.display_page(old(s)@, x as int, y as int, w as int, *f, now),
            old(s)@.sound() ==> final(s)@.sound(),
    {
        let rise = f.rise;
        s.title(x, y, "Display");
        let card = at(x, y + 62, w, 104);
        s.card(card);
        let r = at(x, y + 62, w, ROW_H);
        s.row(r, Label::Name("Graphics device"), None, false, rise);
        s.value(r, Label::Device, f.device_w, rise);
        let r = at(x, y + 114, w, ROW_H);
        s.row(r, Label::Name("Animations"), Some(Label::Name("Window, dock and menu motion")), true, rise);
        s.toggle(r, Toggle::Animations, self.knob_pos(Toggle::Animations, now));
        s.draw(Shape::Text(Font::Bold, x + 4, y + 190, Label::Name("Resolution"), Ink::Text));
        let n: usize = f.modes.len();
        let list = at(x, y + 202, w, ROW_H * max_i64(n as i64, 1));
        s.card(list);
        let ghost start = s@;
        let mut i: usize = 0;
        while i < n
            invariant
                i <= n == f.modes@.len() <= 100_000,
                on_screen(x as int, y as int, w as int),
                list == area(x as int, y + 202, w as int, ROW_H * max(n as int, 1)),
                s@ == mode_rows(start, list, *f, self.panel.hover, i as int),
                old(s)@.sound() ==> s@.sound(),
                rise == f.rise,
            decreases n - i,
        {
            let m = f.modes[i];
            let r = at(x, y + 202 + i as i64 * ROW_H, w, ROW_H);
            let l = Label::Mode(i);
            let detail = match aspect_label(m.0, m.1) {
                Some(_) => Some(Label::Aspect(i)),
                None => None,
            };
            let a = Action::Resolution(m.0, m.1);
            s.row(r, l, detail, i + 1 == n, rise);
            if self.hovered(a) {
                s.draw(Shape::Rounded(at(r.x + 4, r.y + 4, r.w - 8, r.h - 8), 8, Ink::AccentAlpha(18)));
                s.row(r, l, detail, true, rise);
            }
            let (cx, cy) = (r.x + r.w - 30, r.y + 26);
            if m.0 == f.mode.0 && m.1 == f.mode.1 {
                s.draw(Shape::Circle(cx, cy, 9, Ink::Accent));
                s.draw(Shape::Circle(cx, cy, 4, Ink::White));
            } else {
                s.draw(Shape::Outline(at(cx - 9, cy - 9, 18, 18), 9, 2, Ink::Color(0xffc5_cad3)));
            }
            s.hit(r, a);
            i = i + 1;
        }
        if n <= 1 {
            s.note(x + 4, list.y + list.h + 20, Note::FixedScreen, f.lines_of(Note::FixedScreen));
        }
    }
}

// ---------------------------------------------------------------------
// Personalization
// ---------------------------------------------------------------------

/// How many pictures stand side by side, and how wide and high each is.
pub open spec fn grid(w: int) -> (int, int, int) {
    let cols = max(tdiv(w + 16, 176), 1);
    let tw = tdiv(w - (cols - 1) * 16, cols);
    (cols, tw, tdiv(tw * 10, 16))
}

/// The place of a picture of the grid.
pub open spec fn tile(x: int, y: int, g: (int, int, int), i: int) -> Area {
    area(x + (i % g.0) * (g.1 + 16), y + (i / g.0) * (g.2 + 34), g.1, g.2)
}

/// How high so many pictures are.
pub open spec fn grid_height(g: (int, int, int), n: int) -> int {
    (n + g.0 - 1) / g.0 * (g.2 + 34)
}

/// The frame around a picture.
pub open spec fn framed(s: SheetState, r: Area, selected: bool, hovered: bool) -> SheetState {
    let frame = area(r.x - 4, r.y - 4, r.w + 8, r.h + 8);
    if selected {
        s.drawn(Shape::Rounded(frame, 14, Ink::Accent))
    } else if hovered {
        s.drawn(Shape::Rounded(frame, 14, Ink::Color(0x1e00_0000)))
    } else {
        s
    }
}

/// The name under a picture.
pub open spec fn captioned(s: SheetState, r: Area, l: Label, selected: bool) -> SheetState {
    s.drawn(
        Shape::Centered(
            Font::Ui,
            area(r.x as int, r.y + r.h + 4, r.w as int, 20),
            l,
            if selected { Ink::Text } else { Ink::TextDim },
        ),
    )
}

pub open spec fn wallpaper_tiles(
    s: SheetState,
    x: int,
    y: int,
    g: (int, int, int),
    chosen: Option<usize>,
    hover: Option<Action>,
    n: int,
) -> SheetState
    decreases n,
{
    if n <= 0 {
        s
    } else {
        let s = wallpaper_tiles(s, x, y, g, chosen, hover, n - 1);
        let i = (n - 1) as usize;
        let r = tile(x, y, g, n - 1);
        let s = framed(s, r, chosen == Some(i), hover == Some(Action::Wallpaper(i))).drawn(
            Shape::Picture(Label::Wallpaper(i), r, 255, 10),
        );
        captioned(s, r, Label::WallpaperName(i), chosen == Some(i)).hit(r, Action::Wallpaper(i)).down_to(
            r.y + r.h + 24,
        )
    }
}

pub open spec fn picture_tiles(
    s: SheetState,
    x: int,
    y: int,
    g: (int, int, int),
    f: Facts,
    hover: Option<Action>,
    n: int,
) -> SheetState
    decreases n,
{
    if n <= 0 {
        s
    } else {
        let s = picture_tiles(s, x, y, g, f, hover, n - 1);
        let i = (n - 1) as usize;
        let r = tile(x, y, g, n - 1);
        let selected = f.picture_used && f.chosen == Some(i);
        let s = framed(s, r, selected, hover == Some(Action::Picture(i)));
        let s = if f.pictures@[n - 1] {
            s.drawn(Shape::Picture(Label::Picture(i), r, 255, 10))
        } else {
            s.drawn(Shape::Rounded(r, 10, Ink::Color(0x1900_0000))).drawn(
                Shape::Centered(Font::Ui, r, Label::Name("Can't open"), Ink::TextDim),
            )
        };
        captioned(s, r, Label::PictureName(i), selected).hit(r, Action::Picture(i))
    }
}

pub open spec fn pictures_note(f: Facts) -> Note {
    if f.scanning {
        Note::Searching
    } else if f.pictures@.len() == 0 {
        Note::NoPictures
    } else {
        Note::Pictures
    }
}

/// The pictures that were found, as wallpapers.
pub open spec fn pictures_part(s: SheetState, x: int, y: int, g: (int, int, int), f: Facts, hover: Option<Action>) -> SheetState {
    let note = pictures_note(f);
    let below = y + 14 + grid_height(g, f.pictures@.len() as int) + 4;
    picture_tiles(
        s.drawn(text(Font::Bold, x + 4, y, Label::Name("Your pictures"), Ink::Text)),
        x,
        y + 14,
        g,
        f,
        hover,
        f.pictures@.len() as int,
    ).note(x + 4, below, note, f.height(note)).down_to(below + 18 * f.height(note) + 16)
}

pub open spec fn pictures_end(y: int, g: (int, int, int), f: Facts) -> int {
    y + 14 + grid_height(g, f.pictures@.len() as int) + 4 + 18 * f.height(pictures_note(f)) + 18
}

pub open spec fn accent_dots(s: SheetState, card: Area, f: Facts, accent: usize, hover: Option<Action>, n: int) -> SheetState
    decreases n,
{
    if n <= 0 {
        s
    } else {
        let s = accent_dots(s, card, f, accent, hover, n - 1);
        let i = (n - 1) as usize;
        let (cx, cy) = (card.x + 36 + (n - 1) * 44, card.y + 32);
        let s = if accent == i {
            s.drawn(circle(cx, cy, 16, Ink::Nth(i))).drawn(circle(cx, cy, 13, Ink::White))
        } else if hover == Some(Action::Accent(i)) {
            s.drawn(circle(cx, cy, 15, Ink::NthAlpha(i, 90)))
        } else {
            s
        };
        let s = s.drawn(circle(cx, cy, 11, Ink::Nth(i))).hit(area(cx - 16, cy - 16, 32, 32), Action::Accent(i));
        if accent == i {
            s.drawn(
                text(
                    Font::Ui,
                    card.x + 36 + f.accents * 44,
                    card.y + tdiv(64 + f.rise, 2),
                    Label::Accent(i),
                    Ink::TextDim,
                ),
            )
        } else {
            s
        }
    }
}

proof fn lemma_grid(w: int, n: int)
    requires
        -1000 <= w <= 720,
        0 <= n <= 100_000,
    ensures
        ({
            let g = grid(w);
            &&& 1 <= g.0 <= 5
            &&& -1000 <= g.1 <= 720
            &&& -700 <= g.2 <= 450
            &&& -100_000_000 <= grid_height(g, n) <= 100_000_000
        }),
{
    let (cols, tw, th) = grid(w);
    assert(cols <= 5);
    assert(0 <= (cols - 1) * 16 <= 64);
    let m = w - (cols - 1) * 16;
    assert(m >= 0 ==> 0 <= tw <= m) by (nonlinear_arith)
        requires
            cols >= 1,
            m >= 0 ==> tw == m / cols,
    ;
    assert(m < 0 ==> m <= tw <= 0) by (nonlinear_arith)
        requires
            cols >= 1,
            m < 0 ==> tw == -((-m) / cols),
    ;
    if cols > 1 {
        assert(m >= 0);
    }
    let rows = (n + cols - 1) / cols;
    assert(0 <= rows <= n) by (nonlinear_arith)
        requires
            rows == (n + cols - 1) / cols,
            cols >= 1,
            n >= 0,
    ;
    assert(-100_000_000 <= rows * (th + 34) <= 100_000_000) by (nonlinear_arith)
        requires
            0 <= rows <= 100_000,
            -700 <= th <= 450,
    ;
}

proof fn lemma_tile(x: int, y: int, g: (int, int, int), i: int)
    requires
        1 <= g.0 <= 5,
        -1000 <= g.1 <= 720,
        -700 <= g.2 <= 450,
        0 <= i <= 100_000,
    ensures
        0 <= i % g.0 <= 4,
        0 <= i / g.0 <= i,
        -5000 <= (i % g.0) * (g.1 + 16) <= 5000,
        -100_000_000 <= (i / g.0) * (g.2 + 34) <= 100_000_000,
{
    let (c, r, cols) = (i % g.0, i / g.0, g.0);
    assert(0 <= c < cols && 0 <= r <= i) by (nonlinear_arith)
        requires
            cols >= 1,
            i >= 0,
            c == i % cols,
            r == i / cols,
    ;
    let (a, b) = (g.1 + 16, g.2 + 34);
    assert(-5000 <= c * a <= 5000) by (nonlinear_arith)
        requires
            0 <= c <= 4,
            -1000 <= a <= 740,
    ;
    assert(-100_000_000 <= r * b <= 100_000_000) by (nonlinear_arith)
        requires
            0 <= r <= 100_000,
            -700 <= b <= 500,
    ;
}

/// The place of a picture of the grid.
fn tile_at(x: i64, y: i64, g: (i64, i64, i64), i: usize) -> (r: Area)
    requires
        -3_000_000_000 <= y <= 500_000_000,
        0 <= x <= 1000,
        1 <= g.0 <= 5,
        -1000 <= g.1 <= 720,
        -700 <= g.2 <= 450,
        i <= 100_000,
    ensures
        r == tile(x as int, y as int, (g.0 as int, g.1 as int, g.2 as int), i as int),
        close(r),
        r.small(),
        r.y + r.h + 24 <= 900_000_000,
{
    proof {
        lemma_tile(x as int, y as int, (g.0 as int, g.1 as int, g.2 as int), i as int);
    }
    let n: i64 = i as i64;
    at(x + (n % g.0) * (g.1 + 16), y + (n / g.0) * (g.2 + 34), g.1, g.2)
}

fn frame(s: &mut Sheet, r: Area, selected: bool, hovered: bool)
    requires
        close(r),
    ensures
        final(s)@ == framed(old(s)@, r, selected, hovered),
        old(s)@.sound() ==> final(s)@.sound(),
{
    let a = at(r.x - 4, r.y - 4, r.w + 8, r.h + 8);
    if selected {
        s.draw(Shape::Rounded(a, 14, Ink::Accent));
    } else if hovered {
        s.draw(Shape::Rounded(a, 14, Ink::Color(0x1e00_0000)));
    }
}

fn caption(s: &mut Sheet, r: Area, l: Label, selected: bool)
    requires
        close(r),
    ensures
        final(s)@ == captioned(old(s)@, r, l, selected),
        old(s)@.sound() ==> final(s)@.sound(),
{
    let ink = if selected { Ink::Text } else { Ink::TextDim };
    s.draw(Shape::Centered(Font::Ui, at(r.x, r.y + r.h + 4, r.w, 20), l, ink));
}

fn is_nth(o: Option<usize>, i: usize) -> (r: bool)
    ensures
        r == (o == Some(i)),
{
    match o {
        Some(k) => k == i,
        None => false,
    }
}

impl SettingsApp {
    /// The wallpaper in use.
    pub open spec fn wallpaper(self, f: Facts) -> Option<usize> {
        if f.picture_used { None } else { Some(self.panel.cfg.wallpaper) }
    }

    pub open spec fn wallpapers_part(self, s: SheetState, x: int, y: int, w: int, f: Facts) -> SheetState {
        wallpaper_tiles(
            s.title(x, y, "Personalization").drawn(
                text(Font::Bold, x + 4, y + 62, Label::Name("Wallpaper"), Ink::Text),
            ),
            x,
            y + 76,
            grid(w),
            self.wallpaper(f),
            self.panel.hover,
            WALLPAPERS as int,
        )
    }

    pub open spec fn look_part(self, s: SheetState, x: int, y: int, w: int, f: Facts, now: u64) -> SheetState {
        let rise = f.rise as int;
        let card = area(x, y + 14, w, 64);
        let s = accent_dots(
            s.drawn(text(Font::Bold, x + 4, y, Label::Name("Accent colour"), Ink::Text)).card(card),
            card,
            f,
            self.panel.cfg.accent,
            self.panel.hover,
            f.accents as int,
        );
        let motion = area(x, y + 96, w, ROW_H as int);
        s.card(motion).row(
            place(motion, 0),
            Label::Name("Animations"),
            Some(Label::Name("Window, dock and menu motion")),
            true,
            rise,
        ).toggle(place(motion, 0), Toggle::Animations, self.knob(Toggle::Animations, now))
    }

    pub open spec fn dock_part(self, s: SheetState, x: int, y: int, w: int, f: Facts, now: u64) -> SheetState {
        let rise = f.rise as int;
        let card = area(x, y + 14, w, 156);
        s.drawn(text(Font::Bold, x + 4, y, Label::Name("Dock"), Ink::Text)).card(card).row(
            place(card, 0),
            Label::Name("Position on screen"),
            Some(Label::Name("Move it to a side if the bottom is cut off")),
            false,
            rise,
        ).segmented(
            place(card, 0),
            seq!["Bottom", "Left", "Right"],
            self.panel.cfg.dock_position,
            false,
            self.panel.hover,
            f.position_w as int,
        ).row(place(card, 1), Label::Name("Size"), None, false, rise).segmented(
            place(card, 1),
            seq!["Small", "Medium", "Large"],
            self.panel.cfg.dock_size,
            true,
            self.panel.hover,
            f.size_w as int,
        ).row(
            place(card, 2),
            Label::Name("Hide automatically"),
            Some(Label::Name("Slides away; point at the screen edge to show it")),
            true,
            rise,
        ).toggle(place(card, 2), Toggle::DockAutohide, self.knob(Toggle::DockAutohide, now))
    }

    pub open spec fn personalization_page(self, s: SheetState, x: int, y: int, w: int, f: Facts, now: u64) -> SheetState {
        let g = grid(w);
        let y1 = y + 76 + grid_height(g, WALLPAPERS as int) + 18;
        let y2 = pictures_end(y1, g, f);
        let s = pictures_part(self.wallpapers_part(s, x, y, w, f), x, y1, g, f, self.panel.hover);
        self.dock_part(self.look_part(s, x, y2, w, f, now), x, y2 + 166, w, f, now)
    }

    fn pictures_section(&self, s: &mut Sheet, x: i64, y: i64, g: (i64, i64, i64), f: &Facts) -> (end: i64)
        requires
            f.wf(),
            0 <= x <= 1000,
            -3_000_000_000 <= y <= 400_000_000,
            1 <= g.0 <= 5,
            -1000 <= g.1 <= 720,
            -700 <= g.2 <= 450,
            -100_000_000 <= grid_height((g.0 as int, g.1 as int, g.2 as int), f.pictures@.len() as int) <= 100_000_000,
        ensures
            final(s)@ == pictures_part(
                old(s)@,
                x as int,
                y as int,
                (g.0 as int, g.1 as int, g.2 as int),
                *f,
                self.panel.hover,
            ),
            end == pictures_end(y as int, (g.0 as int, g.1 as int, g.2 as int), *f),
            old(s)@.sound() ==> final(s)@.sound(),
    {
        let ghost gs = (g.0 as int, g.1 as int, g.2 as int);
        s.draw(Shape::Text(Font::Bold, x + 4, y, Label::Name("Your pictures"), Ink::Text));
        let ghost start = s@;
        let n: usize = f.pictures.len();
        let mut i: usize = 0;
        while i < n
            invariant
                i <= n == f.pictures@.len() <= 100_000,
                0 <= x <= 1000,
                -3_000_000_000 <= y <= 400_000_000,
                1 <= g.0 <= 5,
                -1000 <= g.1 <= 720,
                -700 <= g.2 <= 450,
                gs == (g.0 as int, g.1 as int, g.2 as int),
                s@ == picture_tiles(start, x as int, y + 14, gs, *f, self.panel.hover, i as int),
                old(s)@.sound() ==> s@.sound(),
            decreases n - i,
        {
            let r = tile_at(x, y + 14, g, i);
            let selected: bool = f.picture_used && is_nth(f.chosen, i);
            frame(s, r, selected, self.hovered(Action::Picture(i)));
            if f.pictures[i] {
                s.draw(Shape::Picture(Label::Picture(i), r, 255, 10));
            } else {
                s.draw(Shape::Rounded(r, 10, Ink::Color(0x1900_0000)));
                s.draw(Shape::Centered(Font::Ui, r, Label::Name("Can't open"), Ink::TextDim));
            }
            caption(s, r, Label::PictureName(i), selected);
            s.hit(r, Action::Picture(i));
            i = i + 1;
        }
        proof {
            let rows = (n + g.0 - 1) / (g.0 as int);
            assert(0 <= rows <= n) by (nonlinear_arith)
                requires
                    rows == (n + g.0 - 1) / (g.0 as int),
                    g.0 >= 1,
                    n >= 0,
            ;
        }
        let below: i64 = y + 14 + (n as i64 + g.0 - 1) / g.0 * (g.2 + 34) + 4;
        let note = if f.scanning {
            Note::Searching
        } else if n == 0 {
            Note::NoPictures
        } else {
            Note::Pictures
        };
        let end: i64 = s.note(x + 4, below, note, f.lines_of(note));
        s.extend(end + 16);
        end + 18
    }

    fn page_personalization(&self, s: &mut Sheet, x: i64, y: i64, w: i64, f: &Facts, now: u64)
        requires
            self.wf(),
            self.before(now),
            f.wf(),
            on_screen(x as int, y as int, w as int),
        ensures
            final(s)@ == self.personalization_page(old(s)@, x as int, y as int, w as int, *f, now),
            old(s)@.sound() ==> final(s)@.sound(),
    {
        proof {
            lemma_grid(w as int, f.pictures@.len() as int);
            lemma_grid(w as int, WALLPAPERS as int);
        }
        let cols: i64 = max_i64(div(w + 16, 176), 1);
        let tw: i64 = div(w - (cols - 1) * 16, cols);
        let g = (cols, tw, div(tw * 10, 16));
        s.title(x, y, "Personalization");
        s.draw(Shape::Text(Font::Bold, x + 4, y + 62, Label::Name("Wallpaper"), Ink::Text));
        let ghost start = s@;
        let chosen: Option<usize> = if f.picture_used { None } else { Some(self.panel.cfg.wallpaper) };
        let mut i: usize = 0;
        while i < WALLPAPERS
            invariant
                i <= WALLPAPERS,
                on_screen(x as int, y as int, w as int),
                (g.0 as int, g.1 as int, g.2 as int) == grid(w as int),
                1 <= g.0 <= 5,
                -1000 <= g.1 <= 720,
                -700 <= g.2 <= 450,
                s@ == wallpaper_tiles(start, x as int, y + 76, grid(w as int), chosen, self.panel.hover, i as int),
                old(s)@.sound() ==> s@.sound(),
            decreases WALLPAPERS - i,
        {
            let r = tile_at(x, y + 76, g, i);
            let selected: bool = is_nth(chosen, i);
            frame(s, r, selected, self.hovered(Action::Wallpaper(i)));
            s.draw(Shape::Picture(Label::Wallpaper(i), r, 255, 10));
            caption(s, r, Label::WallpaperName(i), selected);
            s.hit(r, Action::Wallpaper(i));
            s.extend(r.y + r.h + 24);
            i = i + 1;
        }
        proof {
            let rows = (WALLPAPERS + cols - 1) / (cols as int);
            assert(0 <= rows <= 6) by (nonlinear_arith)
                requires
                    rows == (6 + cols - 1) / (cols as int),
                    cols >= 1,
            ;
        }
        let y1: i64 = y + 76 + (WALLPAPERS as i64 + cols - 1) / cols * (g.2 + 34) + 18;
        let y2: i64 = self.pictures_section(s, x, y1, g, f);
        self.look(s, x, y2, w, f, now);
        self.dock(s, x, y2 + 166, w, f, now);
    }

    /// The accent colours and the switch for animations.
    fn look(&self, s: &mut Sheet, x: i64, y: i64, w: i64, f: &Facts, now: u64)
        requires
            self.wf(),
            self.before(now),
            f.wf(),
            0 <= x <= 1000,
            -3_000_000_000 <= y <= 700_000_000,
            -1000 <= w <= 720,
        ensures
            final(s)@ == self.look_part(old(s)@, x as int, y as int, w as int, *f, now),
            old(s)@.sound() ==> final(s)@.sound(),
    {
        s.draw(Shape::Text(Font::Bold, x + 4, y, Label::Name("Accent colour"), Ink::Text));
        let card = at(x, y + 14, w, 64);
        s.card(card);
        let ghost start = s@;
        let n: usize = f.accents;
        let mut i: usize = 0;
        while i < n
            invariant
                i <= n == f.accents <= 100_000,
                0 <= x <= 1000,
                -3_000_000_000 <= y <= 700_000_000,
                card == area(x as int, y + 14, w as int, 64),
                s@ == accent_dots(start, card, *f, self.panel.cfg.accent, self.panel.hover, i as int),
                old(s)@.sound() ==> s@.sound(),
            decreases n - i,
        {
            let (cx, cy) = (x + 36 + i as i64 * 44, y + 46);
            let mine: bool = self.panel.cfg.accent == i;
            if mine {
                s.draw(Shape::Circle(cx, cy, 16, Ink::Nth(i)));
                s.draw(Shape::Circle(cx, cy, 13, Ink::White));
            } else if self.hovered(Action::Accent(i)) {
                s.draw(Shape::Circle(cx, cy, 15, Ink::NthAlpha(i, 90)));
            }
            s.draw(Shape::Circle(cx, cy, 11, Ink::Nth(i)));
            s.hit(at(cx - 16, cy - 16, 32, 32), Action::Accent(i));
            if mine {
                let base: i64 = y + 14 + div(64 + f.rise as i64, 2);
                s.draw(Shape::Text(Font::Ui, x + 36 + n as i64 * 44, base, Label::Accent(i), Ink::TextDim));
            }
            i = i + 1;
        }
        let r = at(x, y + 96, w, ROW_H);
        s.card(r);
        s.row(r, Label::Name("Animations"), Some(Label::Name("Window, dock and menu motion")), true, f.rise);
        s.toggle(r, Toggle::Animations, self.knob_pos(Toggle::Animations, now));
    }

    /// Where the dock is, how large, and whether it hides.
    fn dock(&self, s: &mut Sheet, x: i64, y: i64, w: i64, f: &Facts, now: u64)
        requires
            self.wf(),
            self.before(now),
            f.wf(),
            0 <= x <= 1000,
            -3_000_000_000 <= y <= 800_000_000,
            -1000 <= w <= 720,
        ensures
            final(s)@ == self.dock_part(old(s)@, x as int, y as int, w as int, *f, now),
            old(s)@.sound() ==> final(s)@.sound(),
    {
        let rise = f.rise;
        s.draw(Shape::Text(Font::Bold, x + 4, y, Label::Name("Dock"), Ink::Text));
        s.card(at(x, y + 14, w, 156));
        let r = at(x, y + 14, w, ROW_H);
        let help = Some(Label::Name("Move it to a side if the bottom is cut off"));
        s.row(r, Label::Name("Position on screen"), help, false, rise);
        let names = ["Bottom", "Left", "Right"];
        assert(names@ =~= seq!["Bottom", "Left", "Right"]);
        s.segmented(r, names, self.panel.cfg.dock_position, false, self.panel.hover, f.position_w);
        let r = at(x, y + 66, w, ROW_H);
        s.row(r, Label::Name("Size"), None, false, rise);
        let names = ["Small", "Medium", "Large"];
        assert(names@ =~= seq!["Small", "Medium", "Large"]);
        s.segmented(r, names, self.panel.cfg.dock_size, true, self.panel.hover, f.size_w);
        let r = at(x, y + 118, w, ROW_H);
        let help = Some(Label::Name("Slides away; point at the screen edge to show it"));
        s.row(r, Label::Name("Hide automatically"), help, true, rise);
        s.toggle(r, Toggle::DockAutohide, self.knob_pos(Toggle::DockAutohide, now));
    }
}

// ---------------------------------------------------------------------
// Sound
// ---------------------------------------------------------------------

impl SettingsApp {
    pub open spec fn sound_page(self, s: SheetState, x: int, y: int, w: int, f: Facts, now: u64) -> SheetState {
        let rise = f.rise as int;
        let card = area(x, y + 62, w, 208);
        let s = s.title(x, y, "Sound").card(card).row(
            place(card, 0),
            Label::Name("Output device"),
            None,
            false,
            rise,
        ).value(place(card, 0), Label::SoundDevice, f.sound_w as int, rise).row(
            place(card, 1),
            Label::Name("Volume"),
            None,
            false,
            rise,
        ).slider(
            place(card, 1),
            Slider::Volume,
            slid(self.panel.cfg, Slider::Volume),
            self.gripped(Slider::Volume),
            rise,
        ).row(place(card, 2), Label::Name("Mute"), None, false, rise).toggle(
            place(card, 2),
            Toggle::Muted,
            self.knob(Toggle::Muted, now),
        ).row(
            place(card, 3),
            Label::Name("System sounds"),
            Some(Label::Name("Startup chime and alerts")),
            true,
            rise,
        ).toggle(place(card, 3), Toggle::SystemSounds, self.knob(Toggle::SystemSounds, now));
        if f.sound_present {
            s.button(
                area(x, y + 288, 170, 32),
                Label::Name("Play test sound"),
                ButtonStyle::Primary,
                self.panel.hover == Some(Action::TestSound),
                Action::TestSound,
            ).note(x + 186, y + 309, Note::TestSound, f.height(Note::TestSound))
        } else {
            s.note(x + 4, y + 292, Note::NoSound, f.height(Note::NoSound))
        }
    }

    fn page_sound(&self, s: &mut Sheet, x: i64, y: i64, w: i64, f: &Facts, now: u64)
        requires
            self.wf(),
            self.before(now),
            f.wf(),
            on_screen(x as int, y as int, w as int),
        ensures
            final(s)@ == self.sound_page(old(s)@, x as int, y as int, w as int, *f, now),
            old(s)@.sound() ==> final(s)@.sound(),
    {
        let rise = f.rise;
        s.title(x, y, "Sound");
        s.card(at(x, y + 62, w, 208));
        let r = at(x, y + 62, w, ROW_H);
        s.row(r, Label::Name("Output device"), None, false, rise);
        s.value(r, Label::SoundDevice, f.sound_w, rise);
        let r = at(x, y + 114, w, ROW_H);
        s.row(r, Label::Name("Volume"), None, false, rise);
        let v: i64 = slider_value(&self.panel.cfg, Slider::Volume);
        s.slider(r, Slider::Volume, v, self.active(Slider::Volume), rise);
        let r = at(x, y + 166, w, ROW_H);
        s.row(r, Label::Name("Mute"), None, false, rise);
        s.toggle(r, Toggle::Muted, self.knob_pos(Toggle::Muted, now));
        let r = at(x, y + 218, w, ROW_H);
        s.row(r, Label::Name("System sounds"), Some(Label::Name("Startup chime and alerts")), true, rise);
        s.toggle(r, Toggle::SystemSounds, self.knob_pos(Toggle::SystemSounds, now));
        if f.sound_present {
            let hovered: bool = self.hovered(Action::TestSound);
            let b = at(x, y + 288, 170, 32);
            s.button(b, Label::Name("Play test sound"), ButtonStyle::Primary, hovered, Action::TestSound);
            s.note(x + 186, y + 309, Note::TestSound, f.lines_of(Note::TestSound));
        } else {
            s.note(x + 4, y + 292, Note::NoSound, f.lines_of(Note::NoSound));
        }
    }
}

// ---------------------------------------------------------------------
// Network
// ---------------------------------------------------------------------

/// The colour of the dot and the headline for the state of the connection.
pub open spec fn connection(n: Net) -> (Ink, &'static str) {
    if n.link_up && n.addressed {
        (Ink::Color(0xff2f_a85a), "Connected")
    } else if !n.link_up {
        (Ink::Danger, "Cable unplugged")
    } else if n.dhcp == Dhcp::Failed {
        (Ink::Color(0xfff0_8a24), "No DHCP server answered")
    } else {
        (Ink::Color(0xfff0_8a24), "Getting an address\u{2026}")
    }
}

pub open spec fn detail_name(i: int) -> &'static str {
    if i == 0 {
        "IP address"
    } else if i == 1 {
        "Gateway"
    } else if i == 2 {
        "DNS servers"
    } else if i == 3 {
        "MAC address"
    } else if i == 4 {
        "Configuration"
    } else {
        "Traffic"
    }
}

pub open spec fn field_name(i: int) -> &'static str {
    if i == 0 {
        "IP address"
    } else if i == 1 {
        "Subnet mask"
    } else if i == 2 {
        "Gateway"
    } else {
        "DNS server"
    }
}

fn name_of_detail(i: usize) -> (r: &'static str)
    ensures
        r == detail_name(i as int),
{
    match i {
        0 => "IP address",
        1 => "Gateway",
        2 => "DNS servers",
        3 => "MAC address",
        4 => "Configuration",
        _ => "Traffic",
    }
}

fn name_of_field(i: usize) -> (r: &'static str)
    ensures
        r == field_name(i as int),
{
    match i {
        0 => "IP address",
        1 => "Subnet mask",
        2 => "Gateway",
        _ => "DNS server",
    }
}

/// The first `n` details of the connection.
pub open spec fn detail_rows(s: SheetState, card: Area, net: Net, rise: int, n: int) -> SheetState
    decreases n,
{
    if n <= 0 {
        s
    } else {
        let r = place(card, n - 1);
        detail_rows(s, card, net, rise, n - 1).row(r, Label::Name(detail_name(n - 1)), None, n == 6, rise).value(
            r,
            Label::Detail((n - 1) as usize),
            net.widths@[n - 1] as int,
            rise,
        )
    }
}

/// What is scrolled away of a text so that its caret shows in `width`.
pub open spec fn in_sight(scroll: int, caret_x: int, width: int) -> int {
    let a = if caret_x - scroll > width - 2 { caret_x - width + 2 } else { scroll };
    min(caret_x, a)
}

pub open spec fn field_place(card: Area, i: int) -> Area {
    area(card.x + card.w - 238, card.y + (i + 1) * ROW_H + 10, 220, 32)
}

/// The first `n` fields of the form for a fixed address.
pub open spec fn form_rows(
    s: SheetState,
    card: Area,
    f: Facts,
    inputs: Seq<TextInput>,
    focused: Option<usize>,
    n: int,
) -> SheetState
    decreases n,
{
    if n <= 0 {
        s
    } else {
        let i = n - 1;
        let field = field_place(card, i);
        let s = form_rows(s, card, f, inputs, focused, i).row(
            place(card, n),
            Label::Name(field_name(i)),
            None,
            i == 3,
            f.rise as int,
        );
        SheetState {
            shapes: with_field(
                s.shapes,
                field,
                Label::Field(i as usize),
                focused == Some(i as usize),
                inputs[i].all_selected,
                f.carets@[i] as int,
                in_sight(inputs[i].scroll as int, f.carets@[i] as int, 204),
                f.rise as int,
            ),
            ..s
        }.hit(field, Action::Input(i as usize))
    }
}

/// The fields as they are once they were painted: scrolled to their carets.
pub open spec fn painted(before: Seq<TextInput>, after: Seq<TextInput>, f: Facts, n: int) -> bool {
    &&& before.len() == after.len() == 4
    &&& forall|i: int|
        0 <= i < 4 ==> {
            let (b, a) = (before[i], #[trigger] after[i]);
            &&& a.text == b.text && a.caret == b.caret && a.all_selected == b.all_selected
            &&& a.scroll == if i < n {
                in_sight(b.scroll as int, f.carets@[i] as int, 204)
            } else {
                b.scroll as int
            }
        }
}

fn form(s: &mut Sheet, card: Area, f: &Facts, inputs: &mut Vec<TextInput>, focused: Option<usize>)
    requires
        f.wf(),
        old(inputs)@.len() == 4,
        forall|i: int| 0 <= i < 4 ==> 0 <= (#[trigger] old(inputs)@[i]).scroll <= 1_000_000_000,
        0 <= card.x <= 1000,
        -3_000_000_000 <= card.y <= 900_000_000,
        -1000 <= card.w <= 720,
    ensures
        final(s)@ == form_rows(old(s)@, card, *f, old(inputs)@, focused, 4),
        painted(old(inputs)@, final(inputs)@, *f, 4),
        old(s)@.sound() ==> final(s)@.sound(),
{
    let ghost before = inputs@;
    let mut i: usize = 0;
    while i < 4
        invariant
            i <= 4,
            f.wf(),
            0 <= card.x <= 1000,
            -3_000_000_000 <= card.y <= 900_000_000,
            -1000 <= card.w <= 720,
            before.len() == 4,
            forall|k: int| 0 <= k < 4 ==> 0 <= (#[trigger] before[k]).scroll <= 1_000_000_000,
            painted(before, inputs@, *f, i as int),
            s@ == form_rows(old(s)@, card, *f, before, focused, i as int),
            old(s)@.sound() ==> s@.sound(),
        decreases 4 - i,
    {
        let r = at(card.x, card.y + (i as i64 + 1) * ROW_H, card.w, ROW_H);
        s.row(r, Label::Name(name_of_field(i)), None, i == 3, f.rise);
        let field = at(r.x + r.w - 238, r.y + 10, 220, 32);
        let mut t: TextInput = inputs.remove(i);
        proof {
            assert(t.scroll == before[i as int].scroll);
            assert(0 <= f.carets@[i as int] <= 1_000_000_000);
        }
        t.render(&mut s.shapes, field, Label::Field(i), is_nth(focused, i), f.carets[i], f.rise);
        inputs.insert(i, t);
        s.hit(field, Action::Input(i));
        proof {
            assert forall|k: int| 0 <= k < 4 implies {
                let (b, a) = (before[k], #[trigger] inputs@[k]);
                &&& a.text == b.text && a.caret == b.caret && a.all_selected == b.all_selected
                &&& a.scroll == if k < i + 1 {
                    in_sight(b.scroll as int, f.carets@[k] as int, 204)
                } else {
                    b.scroll as int
                }
            } by {
            }
        }
        i = i + 1;
    }
}

impl SettingsApp {
    pub open spec fn status_part(self, s: SheetState, x: int, y: int, w: int, f: Facts, net: Net) -> SheetState {
        let rise = f.rise as int;
        let banner = area(x, y, w, 64);
        let (ink, headline) = connection(net);
        let details = area(x, y + 80, w, 312);
        detail_rows(
            s.card(banner).drawn(circle(x + 30, y + 32, 7, ink)).drawn(
                text(Font::Bold, x + 48, y + 28, Label::Name(headline), Ink::Text),
            ).drawn(clipped(Font::Ui, x + 48, y + 46, Label::Adapter, w - 60, Ink::TextDim)).card(details),
            details,
            net,
            rise,
            6,
        )
    }

    pub open spec fn setup_part(self, s: SheetState, x: int, y: int, w: int, f: Facts, now: u64) -> SheetState {
        let manual = !self.panel.cfg.dhcp;
        let card = area(x, y, w, if manual { 260 } else { 52 });
        let s = s.card(card).row(
            place(card, 0),
            Label::Name("Get settings automatically (DHCP)"),
            None,
            !manual,
            f.rise as int,
        ).toggle(place(card, 0), Toggle::Dhcp, self.knob(Toggle::Dhcp, now));
        if manual {
            form_rows(s, card, f, self.inputs@, self.panel.focused_input, 4)
        } else {
            s
        }
    }

    pub open spec fn tests_part(self, s: SheetState, x: int, y: int, w: int, net: Net) -> SheetState {
        let h = self.panel.hover;
        let s = if !self.panel.cfg.dhcp {
            s.button(
                area(x, y, 120, 32),
                Label::Name("Apply"),
                ButtonStyle::Primary,
                h == Some(Action::ApplyStatic),
                Action::ApplyStatic,
            )
        } else {
            s.button(
                area(x, y, 140, 32),
                Label::Name("Renew address"),
                ButtonStyle::Normal,
                h == Some(Action::RenewDhcp),
                Action::RenewDhcp,
            )
        };
        let s = s.button(
            area(x + 150, y, 130, 32),
            Label::Name("Ping gateway"),
            ButtonStyle::Normal,
            h == Some(Action::PingGateway),
            Action::PingGateway,
        ).button(
            area(x + 290, y, 130, 32),
            Label::Name("Ping 1.1.1.1"),
            ButtonStyle::Normal,
            h == Some(Action::PingInternet),
            Action::PingInternet,
        ).button(
            area(x + 430, y, 150, 32),
            Label::Name("Look up a name"),
            ButtonStyle::Normal,
            h == Some(Action::LookupName),
            Action::LookupName,
        );
        if self.panel.net_test_running {
            s.drawn(text(Font::Ui, x + 4, y + 50, Label::Name("Testing\u{2026}"), Ink::TextDim))
        } else {
            match net.result {
                Some(ok) => s.drawn(
                    clipped(
                        Font::Ui,
                        x + 4,
                        y + 50,
                        Label::TestResult,
                        w - 8,
                        if ok { Ink::Color(0xff2f_8a4a) } else { Ink::Danger },
                    ),
                ),
                None => s,
            }
        }
    }

    pub open spec fn network_page(self, s: SheetState, x: int, y: int, w: int, f: Facts, now: u64) -> SheetState {
        let s = s.title(x, y, "Network & Internet");
        match f.net {
            None => s.note(x + 4, y + 66, Note::NoNetwork, f.height(Note::NoNetwork)),
            Some(net) => {
                let s = self.setup_part(self.status_part(s, x, y + 62, w, f, net), x, y + 472, w, f, now);
                let below = y + 472 + if self.panel.cfg.dhcp { 52int } else { 260 } + 14;
                self.tests_part(s, x, below, w, net)
            },
        }
    }

    fn status(&self, s: &mut Sheet, x: i64, y: i64, w: i64, f: &Facts, net: &Net)
        requires
            0 <= x <= 1000,
            -3_000_000_000 <= y <= 2000,
            -1000 <= w <= 720,
        ensures
            final(s)@ == self.status_part(old(s)@, x as int, y as int, w as int, *f, *net),
            old(s)@.sound() ==> final(s)@.sound(),
    {
        s.card(at(x, y, w, 64));
        let (ink, headline) = if net.link_up && net.addressed {
            (Ink::Color(0xff2f_a85a), "Connected")
        } else if !net.link_up {
            (Ink::Danger, "Cable unplugged")
        } else if net.dhcp == Dhcp::Failed {
            (Ink::Color(0xfff0_8a24), "No DHCP server answered")
        } else {
            (Ink::Color(0xfff0_8a24), "Getting an address\u{2026}")
        };
        s.draw(Shape::Circle(x + 30, y + 32, 7, ink));
        s.draw(Shape::Text(Font::Bold, x + 48, y + 28, Label::Name(headline), Ink::Text));
        s.draw(Shape::Clipped(Font::Ui, x + 48, y + 46, Label::Adapter, w - 60, Ink::TextDim));
        let details = at(x, y + 80, w, 312);
        s.card(details);
        let ghost start = s@;
        let mut i: usize = 0;
        while i < 6
            invariant
                i <= 6,
                0 <= x <= 1000,
                -3_000_000_000 <= y <= 2000,
                -1000 <= w <= 720,
                details == area(x as int, y + 80, w as int, 312),
                s@ == detail_rows(start, details, *net, f.rise as int, i as int),
                old(s)@.sound() ==> s@.sound(),
            decreases 6 - i,
        {
            let r = at(x, y + 80 + i as i64 * ROW_H, w, ROW_H);
            s.row(r, Label::Name(name_of_detail(i)), None, i == 5, f.rise);
            s.value(r, Label::Detail(i), net.widths[i], f.rise);
            i = i + 1;
        }
    }

    fn tests(&self, s: &mut Sheet, x: i64, y: i64, w: i64, net: &Net)
        requires
            0 <= x <= 1000,
            -3_000_000_000 <= y <= 2000,
            -1000 <= w <= 720,
        ensures
            final(s)@ == self.tests_part(old(s)@, x as int, y as int, w as int, *net),
            old(s)@.sound() ==> final(s)@.sound(),
    {
        if !self.panel.cfg.dhcp {
            let a = Action::ApplyStatic;
            s.button(at(x, y, 120, 32), Label::Name("Apply"), ButtonStyle::Primary, self.hovered(a), a);
        } else {
            let a = Action::RenewDhcp;
            s.button(at(x, y, 140, 32), Label::Name("Renew address"), ButtonStyle::Normal, self.hovered(a), a);
        }
        let a = Action::PingGateway;
        s.button(at(x + 150, y, 130, 32), Label::Name("Ping gateway"), ButtonStyle::Normal, self.hovered(a), a);
        let a = Action::PingInternet;
        s.button(at(x + 290, y, 130, 32), Label::Name("Ping 1.1.1.1"), ButtonStyle::Normal, self.hovered(a), a);
        let a = Action::LookupName;
        s.button(at(x + 430, y, 150, 32), Label::Name("Look up a name"), ButtonStyle::Normal, self.hovered(a), a);
        if self.panel.net_test_running {
            s.draw(Shape::Text(Font::Ui, x + 4, y + 50, Label::Name("Testing\u{2026}"), Ink::TextDim));
        } else if let Some(ok) = net.result {
            let ink = if ok { Ink::Color(0xff2f_8a4a) } else { Ink::Danger };
            s.draw(Shape::Clipped(Font::Ui, x + 4, y + 50, Label::TestResult, w - 8, ink));
        }
    }

    fn page_network(&mut self, s: &mut Sheet, x: i64, y: i64, w: i64, f: &Facts, now: u64)
        requires
            old(self).wf(),
            old(self).before(now),
            f.wf(),
            on_screen(x as int, y as int, w as int),
        ensures
            final(s)@ == old(self).network_page(old(s)@, x as int, y as int, w as int, *f, now),
            painted(
                old(self).inputs@,
                final(self).inputs@,
                *f,
                if f.net is Some && !old(self).panel.cfg.dhcp { 4 } else { 0 },
            ),
            final(self).panel == old(self).panel,
            final(self).hits == old(self).hits,
            final(self).knobs == old(self).knobs,
            final(self).message == old(self).message,
            final(self).pictures == old(self).pictures,
            final(self).disk_targets == old(self).disk_targets,
            old(s)@.sound() ==> final(s)@.sound(),
    {
        s.title(x, y, "Network & Internet");
        let net = match f.net {
            None => {
                s.note(x + 4, y + 66, Note::NoNetwork, f.lines_of(Note::NoNetwork));
                return;
            },
            Some(net) => net,
        };
        self.status(s, x, y + 62, w, f, &net);
        let manual: bool = !self.panel.cfg.dhcp;
        let card = at(x, y + 472, w, if manual { 260 } else { 52 });
        s.card(card);
        let r = at(x, y + 472, w, ROW_H);
        s.row(r, Label::Name("Get settings automatically (DHCP)"), None, !manual, f.rise);
        s.toggle(r, Toggle::Dhcp, self.knob_pos(Toggle::Dhcp, now));
        if manual {
            form(s, card, f, &mut self.inputs, self.panel.focused_input);
        }
        self.tests(s, x, y + 472 + (if manual { 260 } else { 52 }) + 14, w, &net);
    }
}

// ---------------------------------------------------------------------
// Mouse & Keyboard, Date & Time
// ---------------------------------------------------------------------

impl SettingsApp {
    pub open spec fn input_page(self, s: SheetState, x: int, y: int, w: int, f: Facts, now: u64) -> SheetState {
        let rise = f.rise as int;
        let cfg = self.panel.cfg;
        let mouse = area(x, y + 62, w, 156);
        let keys = area(x, y + 236, w, 104);
        s.title(x, y, "Mouse & Keyboard").card(mouse).row(
            place(mouse, 0),
            Label::Name("Pointer speed"),
            Some(Label::Name("Applies to PS/2 mice")),
            false,
            rise,
        ).slider(
            place(mouse, 0),
            Slider::PointerSpeed,
            slid(cfg, Slider::PointerSpeed),
            self.gripped(Slider::PointerSpeed),
            rise,
        ).row(place(mouse, 1), Label::Name("Double-click speed"), None, false, rise).slider(
            place(mouse, 1),
            Slider::DoubleClick,
            slid(cfg, Slider::DoubleClick),
            self.gripped(Slider::DoubleClick),
            rise,
        ).row(
            place(mouse, 2),
            Label::Name("Natural scrolling"),
            Some(Label::Name("Content follows your fingers")),
            true,
            rise,
        ).toggle(place(mouse, 2), Toggle::NaturalScroll, self.knob(Toggle::NaturalScroll, now)).card(keys).row(
            place(keys, 0),
            Label::Name("Key repeat rate"),
            None,
            false,
            rise,
        ).slider(
            place(keys, 0),
            Slider::KeyRepeat,
            slid(cfg, Slider::KeyRepeat),
            self.gripped(Slider::KeyRepeat),
            rise,
        ).row(place(keys, 1), Label::Name("Keyboard layout"), None, true, rise).value(
            place(keys, 1),
            Label::Name("English (US)"),
            f.layout_w as int,
            rise,
        ).note(x + 4, y + 360, Note::Keys, f.height(Note::Keys))
    }

    fn page_input(&self, s: &mut Sheet, x: i64, y: i64, w: i64, f: &Facts, now: u64)
        requires
            self.wf(),
            self.before(now),
            f.wf(),
            on_screen(x as int, y as int, w as int),
        ensures
            final(s)@ == self.input_page(old(s)@, x as int, y as int, w as int, *f, now),
            old(s)@.sound() ==> final(s)@.sound(),
    {
        let rise = f.rise;
        let cfg = &self.panel.cfg;
        s.title(x, y, "Mouse & Keyboard");
        s.card(at(x, y + 62, w, 156));
        let r = at(x, y + 62, w, ROW_H);
        s.row(r, Label::Name("Pointer speed"), Some(Label::Name("Applies to PS/2 mice")), false, rise);
        let v: i64 = slider_value(cfg, Slider::PointerSpeed);
        s.slider(r, Slider::PointerSpeed, v, self.active(Slider::PointerSpeed), rise);
        let r = at(x, y + 114, w, ROW_H);
        s.row(r, Label::Name("Double-click speed"), None, false, rise);
        let v: i64 = slider_value(cfg, Slider::DoubleClick);
        s.slider(r, Slider::DoubleClick, v, self.active(Slider::DoubleClick), rise);
        let r = at(x, y + 166, w, ROW_H);
        s.row(r, Label::Name("Natural scrolling"), Some(Label::Name("Content follows your fingers")), true, rise);
        s.toggle(r, Toggle::NaturalScroll, self.knob_pos(Toggle::NaturalScroll, now));
        s.card(at(x, y + 236, w, 104));
        let r = at(x, y + 236, w, ROW_H);
        s.row(r, Label::Name("Key repeat rate"), None, false, rise);
        let v: i64 = slider_value(cfg, Slider::KeyRepeat);
        s.slider(r, Slider::KeyRepeat, v, self.active(Slider::KeyRepeat), rise);
        let r = at(x, y + 288, w, ROW_H);
        s.row(r, Label::Name("Keyboard layout"), None, true, rise);
        s.value(r, Label::Name("English (US)"), f.layout_w, rise);
        s.note(x + 4, y + 360, Note::Keys, f.lines_of(Note::Keys));
    }

    pub open spec fn datetime_page(self, s: SheetState, x: int, y: int, w: int, f: Facts, now: u64) -> SheetState {
        let rise = f.rise as int;
        let clock = area(x, y + 62, w, 96);
        let card = area(x, y + 176, w, 156);
        let zone = place(card, 2);
        let plus = x + w - 52;
        s.title(x, y, "Date & Time").card(clock).drawn(
            text(Font::Large, x + 22, y + 106, Label::Time, Ink::Text),
        ).drawn(text(Font::Ui, x + 24, y + 136, Label::Date, Ink::TextDim)).card(card).row(
            place(card, 0),
            Label::Name("Use 24-hour clock"),
            None,
            false,
            rise,
        ).toggle(place(card, 0), Toggle::Clock24h, self.knob(Toggle::Clock24h, now)).row(
            place(card, 1),
            Label::Name("Show seconds"),
            None,
            false,
            rise,
        ).toggle(place(card, 1), Toggle::ShowSeconds, self.knob(Toggle::ShowSeconds, now)).row(
            zone,
            Label::Name("Time zone"),
            Some(Label::Name("Offset from the hardware clock (UTC)")),
            true,
            rise,
        ).button(
            area(plus - 150, zone.y + 10, 34, 32),
            Label::Name("\u{2013}"),
            ButtonStyle::Normal,
            self.panel.hover == Some(Action::TzMinus),
            Action::TzMinus,
        ).button(
            area(plus, zone.y + 10, 34, 32),
            Label::Name("+"),
            ButtonStyle::Normal,
            self.panel.hover == Some(Action::TzPlus),
            Action::TzPlus,
        ).drawn(
            Shape::Centered(Font::Bold, area(plus - 116, zone.y + 10, 116, 32), Label::TimeZone, Ink::Text),
        )
    }

    fn page_datetime(&self, s: &mut Sheet, x: i64, y: i64, w: i64, f: &Facts, now: u64)
        requires
            self.wf(),
            self.before(now),
            on_screen(x as int, y as int, w as int),
        ensures
            final(s)@ == self.datetime_page(old(s)@, x as int, y as int, w as int, *f, now),
            old(s)@.sound() ==> final(s)@.sound(),
    {
        let rise = f.rise;
        s.title(x, y, "Date & Time");
        s.card(at(x, y + 62, w, 96));
        s.draw(Shape::Text(Font::Large, x + 22, y + 106, Label::Time, Ink::Text));
        s.draw(Shape::Text(Font::Ui, x + 24, y + 136, Label::Date, Ink::TextDim));
        s.card(at(x, y + 176, w, 156));
        let r = at(x, y + 176, w, ROW_H);
        s.row(r, Label::Name("Use 24-hour clock"), None, false, rise);
        s.toggle(r, Toggle::Clock24h, self.knob_pos(Toggle::Clock24h, now));
        let r = at(x, y + 228, w, ROW_H);
        s.row(r, Label::Name("Show seconds"), None, false, rise);
        s.toggle(r, Toggle::ShowSeconds, self.knob_pos(Toggle::ShowSeconds, now));
        let r = at(x, y + 280, w, ROW_H);
        let help = Some(Label::Name("Offset from the hardware clock (UTC)"));
        s.row(r, Label::Name("Time zone"), help, true, rise);
        let plus: i64 = x + w - 52;
        let a = Action::TzMinus;
        s.button(at(plus - 150, y + 290, 34, 32), Label::Name("\u{2013}"), ButtonStyle::Normal, self.hovered(a), a);
        let a = Action::TzPlus;
        s.button(at(plus, y + 290, 34, 32), Label::Name("+"), ButtonStyle::Normal, self.hovered(a), a);
        s.draw(Shape::Centered(Font::Bold, at(plus - 116, y + 290, 116, 32), Label::TimeZone, Ink::Text));
    }
}

// ---------------------------------------------------------------------
// Storage, About
// ---------------------------------------------------------------------

/// How wide the part of the bar is that shows what is used.
pub open spec fn used_width(v: Volume, w: int) -> int {
    max((w - 36) * v.used() / v.size(), 10)
}

/// The first `n` mounted volumes.
pub open spec fn volume_cards(s: SheetState, x: int, y: int, w: int, f: Facts, hover: Option<Action>, n: int) -> SheetState
    decreases n,
{
    if n <= 0 {
        s
    } else {
        let s = volume_cards(s, x, y, w, f, hover, n - 1);
        let i = (n - 1) as usize;
        let v = f.mounts@[n - 1];
        let top = y + 118 * (n - 1);
        let s = s.card(area(x, top, w, 104)).drawn(
            Shape::Icon(Label::Drive, (x + 16) as i64, (top + 16) as i64, 40),
        ).drawn(text(Font::Bold, x + 70, top + 30, Label::MountTitle(i), Ink::Text)).drawn(
            clipped(
                Font::Ui,
                x + 70,
                top + 48,
                Label::MountKind(i),
                w - 250,
                if v.persistent { Ink::TextDim } else { Ink::Danger },
            ),
        ).drawn(Shape::Rounded(area(x + 18, top + 66, w - 36, 10), 5, Ink::Color(0xffe4_e7ec))).drawn(
            Shape::Rounded(area(x + 18, top + 66, used_width(v, w), 10), 5, Ink::Accent),
        ).drawn(text(Font::Ui, x + 18, top + 94, Label::MountUse(i), Ink::TextDim));
        if v.offered(f.root_persistent) {
            let a = Action::SetupDisk(offered(f.mounts@, f.root_persistent, n - 1) as usize);
            s.button(
                area(x + w - 184, top + 20, 168, 32),
                Label::Name("Use for MayOS"),
                ButtonStyle::Primary,
                hover == Some(a),
                a,
            )
        } else {
            s
        }
    }
}

/// The first `n` disks that are not formatted.
pub open spec fn blank_cards(
    s: SheetState,
    x: int,
    y: int,
    w: int,
    first: int,
    hover: Option<Action>,
    n: int,
) -> SheetState
    decreases n,
{
    if n <= 0 {
        s
    } else {
        let i = (n - 1) as usize;
        let top = y + 84 * (n - 1);
        let a = Action::SetupDisk((first + n - 1) as usize);
        blank_cards(s, x, y, w, first, hover, n - 1).card(area(x, top, w, 70)).drawn(
            Shape::Icon(Label::Drive, (x + 16) as i64, (top + 14) as i64, 40),
        ).drawn(text(Font::Bold, x + 70, top + 30, Label::BlankTitle(i), Ink::Text)).drawn(
            text(Font::Ui, x + 70, top + 50, Label::BlankSize(i), Ink::TextDim),
        ).button(
            area(x + w - 184, top + 19, 168, 32),
            Label::Name("Set up for MayOS"),
            ButtonStyle::Primary,
            hover == Some(a),
            a,
        )
    }
}

/// How the disk setup goes, and where the page goes on.
pub open spec fn setup_news(s: SheetState, x: int, y: int, w: int, f: Facts) -> (SheetState, int) {
    let band = area(x, y, w, 44);
    match f.setup {
        Setup::Running => (
            s.note(x + 4, y + 4, Note::SettingUp, f.height(Note::SettingUp)),
            y + 12 + 18 * f.height(Note::SettingUp),
        ),
        Setup::Done => (
            s.drawn(Shape::Rounded(band, 10, Ink::Color(0xffe3_f5e8))).drawn(
                clipped(Font::Ui, x + 14, y + 27, Label::SetupResult, w - 28, Ink::Color(0xff1f_6f3a)),
            ),
            y + 58,
        ),
        Setup::Failed => (
            s.drawn(Shape::Rounded(band, 10, Ink::Color(0xfffd_e7e8))).drawn(
                clipped(Font::Ui, x + 14, y + 27, Label::SetupResult, w - 28, Ink::Danger),
            ),
            y + 58,
        ),
        Setup::Idle => (s, y),
    }
}

/// The first `n` lines about the system.
pub open spec fn info_rows(s: SheetState, card: Area, f: Facts, n: int) -> SheetState
    decreases n,
{
    if n <= 0 {
        s
    } else {
        let r = place(card, n - 1);
        info_rows(s, card, f, n - 1).row(
            r,
            Label::InfoName((n - 1) as usize),
            None,
            n == f.info@.len(),
            f.rise as int,
        ).value(r, Label::InfoValue((n - 1) as usize), f.info@[n - 1] as int, f.rise as int)
    }
}

proof fn lemma_offered(v: Seq<Volume>, root_persistent: bool, n: int)
    requires
        0 <= n,
    ensures
        0 <= offered(v, root_persistent, n) <= n,
    decreases n,
{
    if n > 0 {
        lemma_offered(v, root_persistent, n - 1);
    }
}

impl SettingsApp {
    pub open spec fn storage_page(self, s: SheetState, x: int, y: int, w: int, f: Facts) -> SheetState {
        let rise = f.rise as int;
        let hover = self.panel.hover;
        let (s, y1) = setup_news(s.title(x, y, "Storage"), x, y + 62, w, f);
        let first = offered(f.mounts@, f.root_persistent, f.mounts@.len() as int);
        let y2 = y1 + 118 * f.mounts@.len();
        let y3 = y2 + 84 * f.blanks@.len();
        let s = blank_cards(
            volume_cards(s, x, y1, w, f, hover, f.mounts@.len() as int),
            x,
            y2,
            w,
            first,
            hover,
            f.blanks@.len() as int,
        );
        let (s, y4) = if !f.root_persistent && first + f.blanks@.len() == 0 {
            (
                s.note(x + 4, y3 + 4, Note::AddDisk, f.height(Note::AddDisk)),
                y3 + 12 + 18 * f.height(Note::AddDisk),
            )
        } else {
            (s, y3)
        };
        let card = area(x, y4 + 6, w, ROW_H as int);
        s.card(card).row(place(card, 0), Label::Name("Settings file"), None, true, rise).value(
            place(card, 0),
            Label::SettingsPath,
            f.path_w as int,
            rise,
        ).button(
            area(x, y4 + 74, 190, 32),
            Label::Name("Reset all settings"),
            ButtonStyle::Danger,
            hover == Some(Action::ResetSettings),
            Action::ResetSettings,
        )
    }

    fn news(&self, s: &mut Sheet, x: i64, y: i64, w: i64, f: &Facts) -> (below: i64)
        requires
            f.wf(),
            0 <= x <= 1000,
            -2_200_000_000 <= y <= 2000,
            -1000 <= w <= 720,
        ensures
            (final(s)@, below as int) == setup_news(old(s)@, x as int, y as int, w as int, *f),
            y <= below <= y + 1_900_000,
            old(s)@.sound() ==> final(s)@.sound(),
    {
        let band = at(x, y, w, 44);
        match f.setup {
            Setup::Running => s.note(x + 4, y + 4, Note::SettingUp, f.lines_of(Note::SettingUp)) + 8,
            Setup::Done => {
                s.draw(Shape::Rounded(band, 10, Ink::Color(0xffe3_f5e8)));
                s.draw(
                    Shape::Clipped(Font::Ui, x + 14, y + 27, Label::SetupResult, w - 28, Ink::Color(0xff1f_6f3a)),
                );
                y + 58
            },
            Setup::Failed => {
                s.draw(Shape::Rounded(band, 10, Ink::Color(0xfffd_e7e8)));
                s.draw(Shape::Clipped(Font::Ui, x + 14, y + 27, Label::SetupResult, w - 28, Ink::Danger));
                y + 58
            },
            Setup::Idle => y,
        }
    }

    /// Paints the mounted volumes; gives how many were offered.
    fn volumes(&self, s: &mut Sheet, x: i64, y: i64, w: i64, f: &Facts) -> (count: usize)
        requires
            f.wf(),
            0 <= x <= 1000,
            -2_200_000_000 <= y <= 100_000_000,
            36 <= w <= 720,
        ensures
            final(s)@ == volume_cards(
                old(s)@,
                x as int,
                y as int,
                w as int,
                *f,
                self.panel.hover,
                f.mounts@.len() as int,
            ),
            count == offered(f.mounts@, f.root_persistent, f.mounts@.len() as int),
            old(s)@.sound() ==> final(s)@.sound(),
    {
        let n: usize = f.mounts.len();
        let mut count: usize = 0;
        let mut i: usize = 0;
        while i < n
            invariant
                i <= n == f.mounts@.len() <= 100_000,
                f.wf(),
                0 <= x <= 1000,
                -2_200_000_000 <= y <= 100_000_000,
                36 <= w <= 720,
                count == offered(f.mounts@, f.root_persistent, i as int),
                count <= i,
                s@ == volume_cards(old(s)@, x as int, y as int, w as int, *f, self.panel.hover, i as int),
                old(s)@.sound() ==> s@.sound(),
            decreases n - i,
        {
            let v = &f.mounts[i];
            let top: i64 = y + 118 * i as i64;
            s.card(at(x, top, w, 104));
            s.draw(Shape::Icon(Label::Drive, x + 16, top + 16, 40));
            s.draw(Shape::Text(Font::Bold, x + 70, top + 30, Label::MountTitle(i), Ink::Text));
            let ink = if v.persistent { Ink::TextDim } else { Ink::Danger };
            s.draw(Shape::Clipped(Font::Ui, x + 70, top + 48, Label::MountKind(i), w - 250, ink));
            s.draw(Shape::Rounded(at(x + 18, top + 66, w - 36, 10), 5, Ink::Color(0xffe4_e7ec)));
            let (used, total) = v.usage();
            proof {
                let (a, b, c) = (w - 36, used as int, total as int);
                assert(0 <= a * b <= 0x10_0000 * 0x1_0000_0000_0000_0000 && 0 <= a * b / c <= a) by (nonlinear_arith)
                    requires
                        0 <= a <= 720,
                        0 <= b <= c,
                        1 <= c < 0x1_0000_0000_0000_0000,
                ;
            }
            let part: u128 = (w - 36) as u128 * used as u128 / total as u128;
            let uw: i64 = max_i64(part as i64, 10);
            s.draw(Shape::Rounded(at(x + 18, top + 66, uw, 10), 5, Ink::Accent));
            s.draw(Shape::Text(Font::Ui, x + 18, top + 94, Label::MountUse(i), Ink::TextDim));
            if v.can_be_main(f.root_persistent) {
                let a = Action::SetupDisk(count);
                let b = at(x + w - 184, top + 20, 168, 32);
                s.button(b, Label::Name("Use for MayOS"), ButtonStyle::Primary, self.hovered(a), a);
                count = count + 1;
            }
            i = i + 1;
        }
        count
    }

    fn page_storage(&self, s: &mut Sheet, x: i64, y: i64, w: i64, f: &Facts)
        requires
            f.wf(),
            on_screen(x as int, y as int, w as int),
            36 <= w,
        ensures
            final(s)@ == self.storage_page(old(s)@, x as int, y as int, w as int, *f),
            old(s)@.sound() ==> final(s)@.sound(),
    {
        s.title(x, y, "Storage");
        let y1: i64 = self.news(s, x, y + 62, w, f);
        let first: usize = self.volumes(s, x, y1, w, f);
        proof {
            lemma_offered(f.mounts@, f.root_persistent, f.mounts@.len() as int);
        }
        let y2: i64 = y1 + 118 * f.mounts.len() as i64;
        let n: usize = f.blanks.len();
        let ghost start = s@;
        let mut i: usize = 0;
        while i < n
            invariant
                i <= n == f.blanks@.len() <= 100_000,
                first <= 100_000,
                0 <= x <= 1000,
                -2_200_000_000 <= y2 <= 200_000_000,
                36 <= w <= 720,
                s@ == blank_cards(
                    start,
                    x as int,
                    y2 as int,
                    w as int,
                    first as int,
                    self.panel.hover,
                    i as int,
                ),
                old(s)@.sound() ==> s@.sound(),
            decreases n - i,
        {
            let top: i64 = y2 + 84 * i as i64;
            s.card(at(x, top, w, 70));
            s.draw(Shape::Icon(Label::Drive, x + 16, top + 14, 40));
            s.draw(Shape::Text(Font::Bold, x + 70, top + 30, Label::BlankTitle(i), Ink::Text));
            s.draw(Shape::Text(Font::Ui, x + 70, top + 50, Label::BlankSize(i), Ink::TextDim));
            let a = Action::SetupDisk(first + i);
            let b = at(x + w - 184, top + 19, 168, 32);
            s.button(b, Label::Name("Set up for MayOS"), ButtonStyle::Primary, self.hovered(a), a);
            i = i + 1;
        }
        let y3: i64 = y2 + 84 * n as i64;
        let y4: i64 = if !f.root_persistent && first + n == 0 {
            s.note(x + 4, y3 + 4, Note::AddDisk, f.lines_of(Note::AddDisk)) + 8
        } else {
            y3
        };
        let r = at(x, y4 + 6, w, ROW_H);
        s.card(r);
        s.row(r, Label::Name("Settings file"), None, true, f.rise);
        s.value(r, Label::SettingsPath, f.path_w, f.rise);
        let a = Action::ResetSettings;
        s.button(at(x, y4 + 74, 190, 32), Label::Name("Reset all settings"), ButtonStyle::Danger, self.hovered(a), a);
    }

    pub open spec fn about_page(self, s: SheetState, x: int, y: int, w: int, f: Facts) -> SheetState {
        let card = area(x, y + 62, w, ROW_H * f.info@.len());
        info_rows(s.title(x, y, "About").card(card), card, f, f.info@.len() as int).note(
            x + 4,
            card.y + card.h + 20,
            Note::Maker,
            f.height(Note::Maker),
        )
    }

    fn page_about(&self, s: &mut Sheet, x: i64, y: i64, w: i64, f: &Facts)
        requires
            f.wf(),
            on_screen(x as int, y as int, w as int),
        ensures
            final(s)@ == self.about_page(old(s)@, x as int, y as int, w as int, *f),
            old(s)@.sound() ==> final(s)@.sound(),
    {
        s.title(x, y, "About");
        let n: usize = f.info.len();
        let card = at(x, y + 62, w, ROW_H * n as i64);
        s.card(card);
        let ghost start = s@;
        let mut i: usize = 0;
        while i < n
            invariant
                i <= n == f.info@.len() <= 100_000,
                on_screen(x as int, y as int, w as int),
                card == area(x as int, y + 62, w as int, ROW_H * n),
                s@ == info_rows(start, card, *f, i as int),
                old(s)@.sound() ==> s@.sound(),
            decreases n - i,
        {
            let r = at(x, y + 62 + i as i64 * ROW_H, w, ROW_H);
            s.row(r, Label::InfoName(i), None, i + 1 == n, f.rise);
            s.value(r, Label::InfoValue(i), f.info[i], f.rise);
            i = i + 1;
        }
        s.note(x + 4, card.y + card.h + 20, Note::Maker, f.lines_of(Note::Maker));
    }
}

// ---------------------------------------------------------------------
// The window
// ---------------------------------------------------------------------

/// The first `n` pages in the side bar.
pub open spec fn sidebar_rows(s: SheetState, page: Page, hover: Option<Action>, focused: bool, n: int) -> SheetState
    decreases n,
{
    if n <= 0 {
        s
    } else {
        let s = sidebar_rows(s, page, hover, focused, n - 1);
        let p = page_of(n - 1);
        let (name, color) = page_sign(p);
        let y = 16 + 42 * (n - 1);
        let r = area(10, y, 194, 38);
        let s = if page == p {
            s.drawn(Shape::Rounded(r, 9, if focused { Ink::AccentAlpha(40) } else { Ink::Color(0x1600_0000) }))
        } else if hover == Some(Action::Page(p)) {
            s.drawn(Shape::Rounded(r, 9, Ink::Color(0x0c00_0000)))
        } else {
            s
        };
        s.icon(p, color, 18, y + 6).drawn(
            text(if page == p { Font::Bold } else { Font::Ui }, 54, y + 24, Label::Name(name), Ink::Text),
        ).hit(r, Action::Page(p))
    }
}

impl SettingsApp {
    /// How far the page has still to slide in.
    pub open spec fn slide(self, now: u64) -> int {
        if self.panel.page_since != 0 {
            18 * (1024 - eased(now - self.panel.page_since, PAGE_MS as int)) / 1024
        } else {
            0
        }
    }

    pub open spec fn sidebar(self, h: int, focused: bool) -> SheetState {
        sidebar_rows(
            SheetState::empty().drawn(Shape::Fill(area(0, 0, SIDEBAR_W as int, h), Ink::Sidebar)).drawn(
                Shape::VLine(213, 0, h as i64, Ink::Separator),
            ),
            self.panel.page,
            self.panel.hover,
            focused,
            8,
        )
    }

    #[verifier::opaque]
    pub open spec fn page(self, s: SheetState, x: int, y: int, w: int, f: Facts, now: u64) -> SheetState {
        match self.panel.page {
            Page::Display => self.display_page(s, x, y, w, f, now),
            Page::Personalization => self.personalization_page(s, x, y, w, f, now),
            Page::Sound => self.sound_page(s, x, y, w, f, now),
            Page::Network => self.network_page(s, x, y, w, f, now),
            Page::Input => self.input_page(s, x, y, w, f, now),
            Page::DateTime => self.datetime_page(s, x, y, w, f, now),
            Page::Storage => self.storage_page(s, x, y, w, f),
            Page::About => self.about_page(s, x, y, w, f),
        }
    }

    /// The side bar and the page.
    pub open spec fn content(self, w: int, h: int, focused: bool, f: Facts, now: u64) -> SheetState {
        let right = area(SIDEBAR_W as int, 0, w - SIDEBAR_W, h);
        self.page(
            self.sidebar(h, focused).drawn(Shape::Fill(right, Ink::Panel)).drawn(Shape::Clip(right)),
            SIDEBAR_W + 28,
            20 + self.slide(now) - self.panel.scroll,
            min(w - SIDEBAR_W - 56, 720),
            f,
            now,
        )
    }

    /// The height of the page, as far as the screen's numbers go.
    pub open spec fn page_height(self, c: SheetState) -> int {
        min(c.bottom + self.panel.scroll + 24, i32::MAX as int)
    }

    /// The scroll position, no further than the end of the page.
    pub open spec fn scrolled(self, c: SheetState, h: int) -> int {
        if self.page_height(c) > h {
            min(self.panel.scroll as int, self.page_height(c) - h)
        } else {
            self.panel.scroll as int
        }
    }

    /// The thumb of the scroll bar, where the page is higher than the window.
    pub open spec fn scroll_bar(self, c: SheetState, w: int, h: int) -> Seq<Shape<Label>> {
        let content = self.page_height(c);
        if content > h && h > 8 {
            let t = thumb_height(h - 8, content, h);
            let y = 4 + (h - 8 - t) * crate::arith::clamp(self.scrolled(c, h), 0, content - h) / (content - h);
            seq![Shape::Rounded(area(w - 9, y + 2, 5, t - 4), 3, Ink::Color(0x4600_0000))]
        } else {
            Seq::empty()
        }
    }

    pub open spec fn toast(self, w: int, f: Facts) -> Seq<Shape<Label>> {
        match self.message {
            Some((_, ok, _)) => {
                let tw = f.message_w + 32;
                let r = area(SIDEBAR_W + tdiv(w - SIDEBAR_W - tw, 2), 14, tw, 34);
                seq![
                    Shape::Shadow(r, 10, 12, Ink::Color(0x3c00_0000)),
                    Shape::Rounded(r, 10, if ok { Ink::Color(0xff2b_2f38) } else { Ink::Danger }),
                    Shape::Centered(Font::Ui, r, Label::Message, Ink::White),
                ]
            },
            None => Seq::empty(),
        }
    }

    fn paint_sidebar(&self, s: &mut Sheet, h: i32, focused: bool)
        requires
            old(s)@ == SheetState::empty(),
            0 <= h,
        ensures
            final(s)@ == self.sidebar(h as int, focused),
            final(s)@.sound(),
            final(s)@.bottom == 0,
    {
        s.draw(Shape::Fill(at(0, 0, SIDEBAR_W, h as i64), Ink::Sidebar));
        s.draw(Shape::VLine(213, 0, h as i64, Ink::Separator));
        let ghost start = s@;
        let pages = [
            Page::Display,
            Page::Personalization,
            Page::Sound,
            Page::Network,
            Page::Input,
            Page::DateTime,
            Page::Storage,
            Page::About,
        ];
        let mut i: usize = 0;
        while i < 8
            invariant
                i <= 8,
                forall|k: int| 0 <= k < 8 ==> #[trigger] pages@[k] == page_of(k),
                s@ == sidebar_rows(start, self.panel.page, self.panel.hover, focused, i as int),
                s@.sound(),
                s@.bottom == 0,
            decreases 8 - i,
        {
            let p = pages[i];
            let (name, color) = sign_of(p);
            let y: i64 = 16 + 42 * i as i64;
            let r = at(10, y, 194, 38);
            let here: bool = self.panel.page == p;
            if here {
                let ink = if focused { Ink::AccentAlpha(40) } else { Ink::Color(0x1600_0000) };
                s.draw(Shape::Rounded(r, 9, ink));
            } else if self.hovered(Action::Page(p)) {
                s.draw(Shape::Rounded(r, 9, Ink::Color(0x0c00_0000)));
            }
            s.sidebar_icon(p, color, 18, y + 6);
            let font = if here { Font::Bold } else { Font::Ui };
            s.draw(Shape::Text(font, 54, y + 24, Label::Name(name), Ink::Text));
            s.hit(r, Action::Page(p));
            i = i + 1;
        }
    }

    fn paint_page(&mut self, s: &mut Sheet, x: i64, y: i64, w: i64, f: &Facts, now: u64)
        requires
            old(self).wf(),
            old(self).before(now),
            f.wf(),
            on_screen(x as int, y as int, w as int),
            36 <= w,
            old(s)@.sound(),
        ensures
            final(s)@ == old(self).page(old(s)@, x as int, y as int, w as int, *f, now),
            final(s)@.sound(),
            old(self).panel.page == Page::Storage ==> offers_of(final(self).disk_targets@) == offers(
                f.mounts@,
                f.blanks@,
                f.root_persistent,
            ),
            old(self).panel.page != Page::Storage ==> final(self).disk_targets == old(self).disk_targets,
            painted(
                old(self).inputs@,
                final(self).inputs@,
                *f,
                if old(self).panel.page == Page::Network && f.net is Some && !old(self).panel.cfg.dhcp { 4 } else { 0 },
            ),
            final(self).panel == old(self).panel,
            final(self).hits == old(self).hits,
            final(self).knobs == old(self).knobs,
            final(self).message == old(self).message,
            final(self).pictures == old(self).pictures,
    {
        reveal(SettingsApp::page);
        match self.panel.page {
            Page::Display => self.page_display(s, x, y, w, f, now),
            Page::Personalization => self.page_personalization(s, x, y, w, f, now),
            Page::Sound => self.page_sound(s, x, y, w, f, now),
            Page::Network => self.page_network(s, x, y, w, f, now),
            Page::Input => self.page_input(s, x, y, w, f, now),
            Page::DateTime => self.page_datetime(s, x, y, w, f, now),
            Page::Storage => {
                self.page_storage(s, x, y, w, f);
                self.disk_targets = disk_targets(&f.mounts, &f.blanks, f.root_persistent);
            },
            Page::About => self.page_about(s, x, y, w, f),
        }
    }

    /// Paints the window, and remembers where its controls are.
    pub fn render(&mut self, w: i32, h: i32, focused: bool, f: &Facts, now: u64) -> (shapes: Vec<Shape<Label>>)
        requires
            old(self).wf(),
            old(self).before(now),
            f.wf(),
            306 <= w,
            0 <= h,
        ensures
            ({
                let c = old(self).content(w as int, h as int, focused, *f, now);
                &&& shapes@ == (c.shapes + old(self).scroll_bar(c, w as int, h as int) + old(self).toast(
                    w as int,
                    *f,
                )).push(Shape::Unclip)
                &&& final(self).hits@ == c.hits
                &&& final(self).panel == (Panel {
                    size: (w, h),
                    bottom: c.bottom as i32,
                    scroll: old(self).scrolled(c, h as int) as i32,
                    ..old(self).panel
                })
            }),
            old(self).panel.page == Page::Storage ==> offers_of(final(self).disk_targets@) == offers(
                f.mounts@,
                f.blanks@,
                f.root_persistent,
            ),
            old(self).panel.page != Page::Storage ==> final(self).disk_targets == old(self).disk_targets,
            painted(
                old(self).inputs@,
                final(self).inputs@,
                *f,
                if old(self).panel.page == Page::Network && f.net is Some && !old(self).panel.cfg.dhcp { 4 } else { 0 },
            ),
            final(self).knobs == old(self).knobs,
            final(self).message == old(self).message,
            final(self).pictures == old(self).pictures,
            final(self).wf(),
    {
        let mut s = Sheet::new();
        self.paint_sidebar(&mut s, h, focused);
        let right = at(SIDEBAR_W, 0, w as i64 - SIDEBAR_W, h as i64);
        s.draw(Shape::Fill(right, Ink::Panel));
        s.draw(Shape::Clip(right));
        let slide: i64 = if self.panel.page_since != 0 {
            let e: i64 = ease(now - self.panel.page_since, PAGE_MS);
            18 * (1024 - e) / 1024
        } else {
            0
        };
        let x: i64 = SIDEBAR_W + 28;
        let y: i64 = 20 + slide - self.panel.scroll as i64;
        let cw: i64 = min_i64(w as i64 - SIDEBAR_W - 56, 720);
        self.paint_page(&mut s, x, y, cw, f, now);
        let ghost c = s@;
        assert(c == old(self).content(w as int, h as int, focused, *f, now));
        let Sheet { mut shapes, hits, bottom } = s;
        self.hits = hits;
        self.panel.size = (w, h);
        self.panel.bottom = bottom as i32;
        let sum: i64 = bottom + self.panel.scroll as i64 + 24;
        let content: i32 = if sum < i32::MAX as i64 { sum as i32 } else { i32::MAX };
        if content > h {
            if self.panel.scroll > content - h {
                self.panel.scroll = content - h;
            }
            draw_scrollbar(&mut shapes, Rect::new(w - 11, 4, 9, h - 8), content, h, self.panel.scroll);
        }
        assert(shapes@ =~= c.shapes + old(self).scroll_bar(c, w as int, h as int));
        if let Some((_, ok, _)) = &self.message {
            let tw: i64 = f.message_w as i64 + 32;
            let r = at(SIDEBAR_W + div(w as i64 - SIDEBAR_W - tw, 2), 14, tw, 34);
            shapes.push(Shape::Shadow(r, 10, 12, Ink::Color(0x3c00_0000)));
            let ink = if *ok { Ink::Color(0xff2b_2f38) } else { Ink::Danger };
            shapes.push(Shape::Rounded(r, 10, ink));
            shapes.push(Shape::Centered(Font::Ui, r, Label::Message, Ink::White));
        }
        assert(shapes@ =~= c.shapes + old(self).scroll_bar(c, w as int, h as int) + old(self).toast(w as int, *f));
        shapes.push(Shape::Unclip);
        shapes
    }
}

/// Wherever the pointer is over the name of a page in the side bar, a click
/// leads to that page.
pub proof fn lemma_sidebar_click(a: SettingsApp, h: int, focused: bool, n: int, x: int, y: int)
    requires
        0 <= n < 8,
        10 <= x < 204,
        16 + 42 * n <= y < 54 + 42 * n,
    ensures
        super::window::hit(a.sidebar(h, focused).hits, x, y) == Some(
            (area(10, 16 + 42 * n, 194, 38), Action::Page(page_of(n))),
        ),
{
    lemma_sidebar_hits(
        SheetState::empty().drawn(Shape::Fill(area(0, 0, SIDEBAR_W as int, h), Ink::Sidebar)).drawn(
            Shape::VLine(213, 0, h as i64, Ink::Separator),
        ),
        a.panel.page,
        a.panel.hover,
        focused,
        8,
        n,
        x,
        y,
    );
}

proof fn lemma_sidebar_hits(
    s: SheetState,
    page: Page,
    hover: Option<Action>,
    focused: bool,
    m: int,
    n: int,
    x: int,
    y: int,
)
    requires
        0 <= n < m <= 8,
        10 <= x < 204,
        16 + 42 * n <= y < 54 + 42 * n,
    ensures
        super::window::hit(sidebar_rows(s, page, hover, focused, m).hits, x, y) == Some(
            (area(10, 16 + 42 * n, 194, 38), Action::Page(page_of(n))),
        ),
    decreases m,
{
    let before = sidebar_rows(s, page, hover, focused, m - 1).hits;
    let r = area(10, 16 + 42 * (m - 1), 194, 38);
    let hits = sidebar_rows(s, page, hover, focused, m).hits;
    assert(hits == before.push((r, Action::Page(page_of(m - 1)))));
    assert(hits.drop_last() =~= before);
    if n < m - 1 {
        lemma_sidebar_hits(s, page, hover, focused, m - 1, n, x, y);
    }
}

} // verus!
