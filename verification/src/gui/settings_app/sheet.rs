//! The pieces from which the pages of the Settings app are made.

use super::prefs::{range, slider_range, Slider, Toggle};
use super::window::{Action, Page};
use crate::arith::{clamp, clamp_i64, div, max, max_i64, min, min_i64, tdiv};
use crate::gui::geom::Area;
use crate::gui::paint::{area, at, circle, clipped, hline, near, text, Font, Ink, Shape};
use crate::gui::widgets::{button, with_button, ButtonStyle};
use vstd::prelude::*;

verus! {

pub const ROW_H: i64 = 52;

/// What is written under or between the controls of a page.
#[derive(Clone, Copy, PartialEq, Eq, Debug, Structural)]
pub enum Note {
    FixedScreen,
    Searching,
    NoPictures,
    Pictures,
    TestSound,
    NoSound,
    NoNetwork,
    Keys,
    SettingUp,
    AddDisk,
    Maker,
}

/// What a note says; that of a disk that is set up goes on with what is done.
pub open spec fn note_text(n: Note) -> &'static str {
    match n {
        Note::FixedScreen => "This screen is the firmware's boot framebuffer, which cannot change resolution. MayOS can switch resolution on VirtualBox's VMSVGA, VBoxSVGA and VBoxVGA controllers and on QEMU's virtio, VMware and standard VGA adapters. If you started MayOS in safe graphics mode, restart normally.",
        Note::Searching => "Looking for pictures\u{2026}",
        Note::NoPictures => "No pictures yet. Copy PNG, JPEG or BMP files into /pictures, or attach a disk with your pictures in VirtualBox (see Getting Started), then reopen this page. You can also right-click a picture in Files and choose \u{201c}Set as Wallpaper\u{201d}.",
        Note::Pictures => "Pictures from /pictures and other attached disks. Right-click any picture in Files to use it too.",
        Note::TestSound => "Plays a tone on the left speaker, then the right.",
        Note::NoSound => "No supported sound card was found. MayOS drives the Intel AC'97 controller: in VirtualBox choose Audio Controller \"ICH AC97\"; with QEMU add -device AC97.",
        Note::NoNetwork => "No supported network adapter was found. MayOS drives Intel e1000-family adapters: in VirtualBox choose \"Intel PRO/1000 MT Desktop\" (attached to NAT); with QEMU add -device e1000.",
        Note::Keys => "Tip: Ctrl+Alt+T opens a terminal, Ctrl+Alt+E the file explorer and Ctrl+Alt+S Settings.",
        Note::SettingUp => "Setting up disk: ",
        Note::AddDisk => "To keep your files, add a hard disk to the virtual machine (VirtualBox: Settings > Storage > add a hard disk to the SATA or IDE controller), start MayOS again and set it up here.",
        Note::Maker => "MayOS is written from scratch in Rust: kernel, drivers, file system, network stack, audio and desktop.",
    }
}

pub fn text_of_note(n: Note) -> (r: &'static str)
    ensures
        r == note_text(n),
{
    match n {
        Note::FixedScreen => "This screen is the firmware's boot framebuffer, which cannot change resolution. MayOS can switch resolution on VirtualBox's VMSVGA, VBoxSVGA and VBoxVGA controllers and on QEMU's virtio, VMware and standard VGA adapters. If you started MayOS in safe graphics mode, restart normally.",
        Note::Searching => "Looking for pictures\u{2026}",
        Note::NoPictures => "No pictures yet. Copy PNG, JPEG or BMP files into /pictures, or attach a disk with your pictures in VirtualBox (see Getting Started), then reopen this page. You can also right-click a picture in Files and choose \u{201c}Set as Wallpaper\u{201d}.",
        Note::Pictures => "Pictures from /pictures and other attached disks. Right-click any picture in Files to use it too.",
        Note::TestSound => "Plays a tone on the left speaker, then the right.",
        Note::NoSound => "No supported sound card was found. MayOS drives the Intel AC'97 controller: in VirtualBox choose Audio Controller \"ICH AC97\"; with QEMU add -device AC97.",
        Note::NoNetwork => "No supported network adapter was found. MayOS drives Intel e1000-family adapters: in VirtualBox choose \"Intel PRO/1000 MT Desktop\" (attached to NAT); with QEMU add -device e1000.",
        Note::Keys => "Tip: Ctrl+Alt+T opens a terminal, Ctrl+Alt+E the file explorer and Ctrl+Alt+S Settings.",
        Note::SettingUp => "Setting up disk: ",
        Note::AddDisk => "To keep your files, add a hard disk to the virtual machine (VirtualBox: Settings > Storage > add a hard disk to the SATA or IDE controller), start MayOS again and set it up here.",
        Note::Maker => "MayOS is written from scratch in Rust: kernel, drivers, file system, network stack, audio and desktop.",
    }
}

/// How wide a note may be on a page `w` wide.
pub fn note_width(n: Note, w: i64) -> (r: i64)
    requires
        -1_000_000 <= w <= 1_000_000,
    ensures
        r == if n == Note::TestSound { w - 190 } else { w - 8 },
{
    if n == Note::TestSound {
        w - 190
    } else {
        w - 8
    }
}

/// The texts and pictures of the pages.
#[derive(Clone, Copy, PartialEq, Eq, Debug)]
pub enum Label {
    Name(&'static str),
    /// A line of a note.
    Line(Note, usize),
    /// The message shown for a while.
    Message,
    /// The graphics device.
    Device,
    /// A resolution of the list, and its aspect ratio.
    Mode(usize),
    Aspect(usize),
    /// The name and the picture of a wallpaper.
    WallpaperName(usize),
    Wallpaper(usize),
    /// The name and the picture of a picture that was found.
    PictureName(usize),
    Picture(usize),
    /// The name of an accent colour.
    Accent(usize),
    /// The sound device.
    SoundDevice,
    /// The value of a slider.
    Slider(Slider),
    /// The network adapter and its speed.
    Adapter,
    /// A detail of the network connection.
    Detail(usize),
    /// A field of the form for a fixed address.
    Field(usize),
    /// What the network test found.
    TestResult,
    Time,
    Date,
    TimeZone,
    /// What a disk setup came to.
    SetupResult,
    /// The icon of a disk.
    Drive,
    /// The title, the kind and the use of a mounted volume.
    MountTitle(usize),
    MountKind(usize),
    MountUse(usize),
    /// The title and the size of a disk that is not formatted.
    BlankTitle(usize),
    BlankSize(usize),
    SettingsPath,
    /// A line about the system: what it is about, and what it says.
    InfoName(usize),
    InfoValue(usize),
}

/// What has been painted of a page.
pub struct Sheet {
    pub shapes: Vec<Shape<Label>>,
    pub hits: Vec<(Area, Action)>,
    pub bottom: i64,
}

pub struct SheetState {
    pub shapes: Seq<Shape<Label>>,
    pub hits: Seq<(Area, Action)>,
    /// How far down it reaches.
    pub bottom: int,
}

impl View for Sheet {
    type V = SheetState;

    open spec fn view(&self) -> SheetState {
        SheetState { shapes: self.shapes@, hits: self.hits@, bottom: self.bottom as int }
    }
}

/// The place of the row with this number in a card.
pub open spec fn place(card: Area, i: int) -> Area {
    area(card.x as int, card.y + i * ROW_H, card.w as int, ROW_H as int)
}

pub open spec fn close(r: Area) -> bool {
    near(r.x as int) && near(r.y as int) && near(r.w as int) && near(r.h as int)
}

impl SheetState {
    pub open spec fn empty() -> SheetState {
        SheetState { shapes: Seq::empty(), hits: Seq::empty(), bottom: 0 }
    }

    /// What every click on the page relies on.
    pub open spec fn sound(self) -> bool {
        &&& 0 <= self.bottom <= 1_000_000_000
        &&& forall|i: int|
            0 <= i < self.hits.len() ==> (#[trigger] self.hits[i]).0.small() && (self.hits[i].1 is Slider
                ==> self.hits[i].0.w >= 24) && (self.hits[i].1 matches Action::Input(k) ==> k < 4)
    }

    pub open spec fn drawn(self, s: Shape<Label>) -> SheetState {
        SheetState { shapes: self.shapes.push(s), ..self }
    }

    pub open spec fn hit(self, r: Area, a: Action) -> SheetState {
        SheetState { hits: self.hits.push((r, a)), ..self }
    }

    pub open spec fn down_to(self, bottom: int) -> SheetState {
        SheetState { bottom: max(self.bottom, bottom), ..self }
    }

    pub open spec fn card(self, r: Area) -> SheetState {
        self.down_to(r.y + r.h).drawn(Shape::Rounded(r, 12, Ink::White)).drawn(
            Shape::Outline(r, 12, 1, Ink::Color(0x1600_0000)),
        )
    }

    /// A labelled row inside a card.
    pub open spec fn row(self, r: Area, l: Label, detail: Option<Label>, last: bool, rise: int) -> SheetState {
        let s = match detail {
            Some(d) => self.drawn(text(Font::Ui, r.x + 18, r.y + 22, l, Ink::Text)).drawn(
                clipped(Font::Ui, r.x + 18, r.y + 40, d, tdiv(r.w as int, 2), Ink::TextDim),
            ),
            None => self.drawn(text(Font::Ui, r.x + 18, r.y + tdiv(ROW_H + rise, 2), l, Ink::Text)),
        };
        if last {
            s
        } else {
            s.drawn(hline(r.x + 18, r.y + r.h - 1, r.w - 36, Ink::Separator))
        }
    }

    /// A text at the right end of a row, `width` wide.
    pub open spec fn value(self, r: Area, l: Label, width: int, rise: int) -> SheetState {
        let half = tdiv(r.w as int, 2);
        self.drawn(
            clipped(
                Font::Ui,
                r.x + r.w - 18 - min(width, half),
                r.y + tdiv(ROW_H + rise, 2),
                l,
                half,
                Ink::TextDim,
            ),
        )
    }

    /// A switch at the right end of a row, with its knob at `pos` 1024ths. The
    /// whole row can be clicked.
    pub open spec fn toggle(self, r: Area, t: Toggle, pos: int) -> SheetState {
        let x = r.x + r.w - 62;
        let kx = x + 13 + 18 * pos / 1024;
        self.drawn(
            Shape::Rounded(
                area(x, r.y + 13, 44, 26),
                13,
                Ink::TowardsAccent(0xffd5_d9e0, (pos * 255 / 1024) as u32),
            ),
        ).drawn(circle(kx, r.y + 26, 11, Ink::Color(0x2300_0000))).drawn(
            circle(kx, r.y + 26, 10, Ink::White),
        ).hit(r, Action::Toggle(t))
    }

    /// A slider at the right end of a row. It can be gripped a little beyond
    /// the ends of its track.
    pub open spec fn slider(self, r: Area, sl: Slider, v: int, active: bool, rise: int) -> SheetState {
        let (lo, hi) = range(sl);
        let x = r.x + r.w - 258;
        let y = r.y + 23;
        let t = clamp(tdiv((v - lo) * 200, hi - lo), 0, 200);
        let more = if active { 1int } else { 0 };
        self.drawn(Shape::Rounded(area(x, y, 200, 6), 3, Ink::Color(0xffd5_d9e0))).drawn(
            Shape::Rounded(area(x, y, max(t, 6), 6), 3, Ink::Accent),
        ).drawn(circle(x + t, y + 3, 9 + more, Ink::Color(0x2800_0000))).drawn(
            circle(x + t, y + 3, 8 + more, Ink::White),
        ).drawn(
            text(Font::Ui, x + 214, r.y + tdiv(ROW_H + rise, 2), Label::Slider(sl), Ink::TextDim),
        ).hit(area(x - 12, r.y as int, 224, ROW_H as int), Action::Slider(sl))
    }

    pub open spec fn button(self, r: Area, l: Label, style: ButtonStyle, hovered: bool, a: Action) -> SheetState {
        SheetState { shapes: with_button(self.shapes, r, l, style, hovered, true), ..self.down_to(r.y + r.h) }.hit(
            r,
            a,
        )
    }

    /// The first `n` lines of a note.
    pub open spec fn lines(self, x: int, y: int, note: Note, n: int) -> SheetState
        decreases n,
    {
        if n <= 0 {
            self
        } else {
            self.lines(x, y, note, n - 1).drawn(
                text(Font::Ui, x, y + 18 * (n - 1), Label::Line(note, (n - 1) as usize), Ink::TextDim),
            )
        }
    }

    pub open spec fn note(self, x: int, y: int, note: Note, n: int) -> SheetState {
        self.lines(x, y, note, n).down_to(y + 18 * n)
    }

    pub open spec fn title(self, x: int, y: int, name: &'static str) -> SheetState {
        self.drawn(text(Font::Large, x, y + 28, Label::Name(name), Ink::Text))
    }

    /// The first `n` of a row of buttons of which one is chosen, each `w` wide.
    pub open spec fn segments(
        self,
        x: int,
        y: int,
        w: int,
        names: Seq<&'static str>,
        chosen: u8,
        dock_size: bool,
        hover: Option<Action>,
        n: int,
    ) -> SheetState
        decreases n,
    {
        if n <= 0 {
            self
        } else {
            let s = self.segments(x, y, w, names, chosen, dock_size, hover, n - 1);
            let r = area(x + 2 + (n - 1) * w, y + 2, w, 28);
            let a = segment_action(dock_size, (n - 1) as u8);
            let s = if chosen == n - 1 {
                s.drawn(Shape::Shadow(r, 7, 4, Ink::Color(0x2800_0000))).drawn(Shape::Rounded(r, 7, Ink::White))
            } else if hover == Some(a) {
                s.drawn(Shape::Rounded(r, 7, Ink::Color(0x0c00_0000)))
            } else {
                s
            };
            s.drawn(
                Shape::Centered(
                    Font::Ui,
                    r,
                    Label::Name(names[n - 1]),
                    if chosen == n - 1 { Ink::Text } else { Ink::TextDim },
                ),
            ).hit(r, a)
        }
    }

    /// A row of three buttons of which one is chosen, at the right end of a
    /// row. The widest name takes `widest`.
    pub open spec fn segmented(
        self,
        r: Area,
        names: Seq<&'static str>,
        chosen: u8,
        dock_size: bool,
        hover: Option<Action>,
        widest: int,
    ) -> SheetState {
        let w = widest + 24;
        let total = w * 3 + 4;
        let x = r.x + r.w - 18 - total;
        self.drawn(Shape::Rounded(area(x, r.y + 10, total, 32), 9, Ink::Color(0xffe9_ebef))).segments(
            x,
            r.y + 10,
            w,
            names,
            chosen,
            dock_size,
            hover,
            3,
        )
    }
}

/// What a button of a row of three does.
pub open spec fn segment_action(dock_size: bool, i: u8) -> Action {
    if dock_size { Action::DockSize(i) } else { Action::DockPosition(i) }
}

impl Sheet {
    pub fn new() -> (r: Sheet)
        ensures
            r@ == SheetState::empty(),
            r@.sound(),
    {
        Sheet { shapes: Vec::new(), hits: Vec::new(), bottom: 0 }
    }

    pub fn draw(&mut self, s: Shape<Label>)
        ensures
            final(self)@ == old(self)@.drawn(s),
            old(self)@.sound() ==> final(self)@.sound(),
    {
        self.shapes.push(s);
    }

    pub fn hit(&mut self, r: Area, a: Action)
        requires
            r.small(),
            a is Slider ==> r.w >= 24,
            a matches Action::Input(k) ==> k < 4,
        ensures
            final(self)@ == old(self)@.hit(r, a),
            old(self)@.sound() ==> final(self)@.sound(),
    {
        self.hits.push((r, a));
    }

    pub fn extend(&mut self, bottom: i64)
        requires
            bottom <= 1_000_000_000,
        ensures
            final(self)@ == old(self)@.down_to(bottom as int),
            old(self)@.sound() ==> final(self)@.sound(),
    {
        self.bottom = max_i64(self.bottom, bottom);
    }

    pub fn card(&mut self, r: Area)
        requires
            close(r),
            r.y + r.h <= 1_000_000_000,
        ensures
            final(self)@ == old(self)@.card(r),
            old(self)@.sound() ==> final(self)@.sound(),
    {
        self.extend(r.y + r.h);
        self.draw(Shape::Rounded(r, 12, Ink::White));
        self.draw(Shape::Outline(r, 12, 1, Ink::Color(0x1600_0000)));
    }

    pub fn row(&mut self, r: Area, l: Label, detail: Option<Label>, last: bool, rise: i32)
        requires
            close(r),
        ensures
            final(self)@ == old(self)@.row(r, l, detail, last, rise as int),
            old(self)@.sound() ==> final(self)@.sound(),
    {
        match detail {
            Some(d) => {
                self.draw(Shape::Text(Font::Ui, r.x + 18, r.y + 22, l, Ink::Text));
                self.draw(Shape::Clipped(Font::Ui, r.x + 18, r.y + 40, d, div(r.w, 2), Ink::TextDim));
            },
            None => {
                self.draw(Shape::Text(Font::Ui, r.x + 18, r.y + div(ROW_H + rise as i64, 2), l, Ink::Text));
            },
        }
        if !last {
            self.draw(Shape::HLine(r.x + 18, r.y + r.h - 1, r.w - 36, Ink::Separator));
        }
    }

    pub fn value(&mut self, r: Area, l: Label, width: i32, rise: i32)
        requires
            close(r),
        ensures
            final(self)@ == old(self)@.value(r, l, width as int, rise as int),
            old(self)@.sound() ==> final(self)@.sound(),
    {
        let half: i64 = div(r.w, 2);
        let x: i64 = r.x + r.w - 18 - min_i64(width as i64, half);
        self.draw(Shape::Clipped(Font::Ui, x, r.y + div(ROW_H + rise as i64, 2), l, half, Ink::TextDim));
    }

    pub fn toggle(&mut self, r: Area, t: Toggle, pos: i64)
        requires
            close(r),
            0 <= pos <= 1024,
        ensures
            final(self)@ == old(self)@.toggle(r, t, pos as int),
            old(self)@.sound() ==> final(self)@.sound(),
    {
        let x: i64 = r.x + r.w - 62;
        let kx: i64 = x + 13 + 18 * pos / 1024;
        let ink = Ink::TowardsAccent(0xffd5_d9e0, (pos * 255 / 1024) as u32);
        self.draw(Shape::Rounded(at(x, r.y + 13, 44, 26), 13, ink));
        self.draw(Shape::Circle(kx, r.y + 26, 11, Ink::Color(0x2300_0000)));
        self.draw(Shape::Circle(kx, r.y + 26, 10, Ink::White));
        self.hit(r, Action::Toggle(t));
    }

    pub fn slider(&mut self, r: Area, sl: Slider, v: i64, active: bool, rise: i32)
        requires
            close(r),
            0 <= v <= u32::MAX,
        ensures
            final(self)@ == old(self)@.slider(r, sl, v as int, active, rise as int),
            old(self)@.sound() ==> final(self)@.sound(),
    {
        let (lo, hi) = slider_range(sl);
        let x: i64 = r.x + r.w - 258;
        let y: i64 = r.y + 23;
        let t: i64 = clamp_i64(div((v - lo as i64) * 200, hi as i64 - lo as i64), 0, 200);
        let more: i64 = if active { 1 } else { 0 };
        self.draw(Shape::Rounded(at(x, y, 200, 6), 3, Ink::Color(0xffd5_d9e0)));
        self.draw(Shape::Rounded(at(x, y, max_i64(t, 6), 6), 3, Ink::Accent));
        self.draw(Shape::Circle(x + t, y + 3, 9 + more, Ink::Color(0x2800_0000)));
        self.draw(Shape::Circle(x + t, y + 3, 8 + more, Ink::White));
        self.draw(Shape::Text(Font::Ui, x + 214, r.y + div(ROW_H + rise as i64, 2), Label::Slider(sl), Ink::TextDim));
        self.hit(at(x - 12, r.y, 224, ROW_H), Action::Slider(sl));
    }

    pub fn button(&mut self, r: Area, l: Label, style: ButtonStyle, hovered: bool, a: Action)
        requires
            close(r),
            r.y + r.h <= 1_000_000_000,
            !(a is Slider),
            !(a is Input),
        ensures
            final(self)@ == old(self)@.button(r, l, style, hovered, a),
            old(self)@.sound() ==> final(self)@.sound(),
    {
        self.extend(r.y + r.h);
        button(&mut self.shapes, r, l, style, hovered, true);
        self.hit(r, a);
    }

    /// Writes a note of `n` lines; gives the place below it.
    pub fn note(&mut self, x: i64, y: i64, note: Note, n: usize) -> (below: i64)
        requires
            near(x as int),
            -0x1_0000_0000 <= y <= 900_000_000,
            n <= 100_000,
        ensures
            final(self)@ == old(self)@.note(x as int, y as int, note, n as int),
            below == y + 18 * n,
            old(self)@.sound() ==> final(self)@.sound(),
    {
        let mut i: usize = 0;
        while i < n
            invariant
                i <= n <= 100_000,
                -0x1_0000_0000 <= y <= 900_000_000,
                self@ == old(self)@.lines(x as int, y as int, note, i as int),
                old(self)@.sound() ==> self@.sound(),
            decreases n - i,
        {
            self.draw(Shape::Text(Font::Ui, x, y + 18 * i as i64, Label::Line(note, i), Ink::TextDim));
            i = i + 1;
        }
        let below: i64 = y + 18 * n as i64;
        self.extend(below);
        below
    }

    pub fn title(&mut self, x: i64, y: i64, name: &'static str)
        requires
            near(y as int),
        ensures
            final(self)@ == old(self)@.title(x as int, y as int, name),
            old(self)@.sound() ==> final(self)@.sound(),
    {
        self.draw(Shape::Text(Font::Large, x, y + 28, Label::Name(name), Ink::Text));
    }

    pub fn segmented(
        &mut self,
        r: Area,
        names: [&'static str; 3],
        chosen: u8,
        dock_size: bool,
        hover: Option<Action>,
        widest: i32,
    )
        requires
            close(r),
            0 <= widest <= 1_000_000_000,
        ensures
            final(self)@ == old(self)@.segmented(r, names@, chosen, dock_size, hover, widest as int),
            old(self)@.sound() ==> final(self)@.sound(),
    {
        let w: i64 = widest as i64 + 24;
        let total: i64 = w * 3 + 4;
        let x: i64 = r.x + r.w - 18 - total;
        let y: i64 = r.y + 10;
        self.draw(Shape::Rounded(at(x, y, total, 32), 9, Ink::Color(0xffe9_ebef)));
        let ghost start = self@;
        let mut i: usize = 0;
        while i < 3
            invariant
                i <= 3,
                24 <= w <= 1_000_000_024,
                close(r),
                x == r.x + r.w - 18 - (w * 3 + 4),
                y == r.y + 10,
                self@ == start.segments(x as int, y as int, w as int, names@, chosen, dock_size, hover, i as int),
                old(self)@.sound() ==> self@.sound(),
            decreases 3 - i,
        {
            assert(0 <= i * w <= 3 * w) by (nonlinear_arith)
                requires
                    0 <= i <= 3,
                    0 <= w,
            ;
            let seg = at(x + 2 + i as i64 * w, y + 2, w, 28);
            let a = if dock_size { Action::DockSize(i as u8) } else { Action::DockPosition(i as u8) };
            let mine: bool = chosen == i as u8;
            let hovered: bool = match hover {
                Some(h) => h == a,
                None => false,
            };
            if mine {
                self.draw(Shape::Shadow(seg, 7, 4, Ink::Color(0x2800_0000)));
                self.draw(Shape::Rounded(seg, 7, Ink::White));
            } else if hovered {
                self.draw(Shape::Rounded(seg, 7, Ink::Color(0x0c00_0000)));
            }
            let ink = if mine { Ink::Text } else { Ink::TextDim };
            self.draw(Shape::Centered(Font::Ui, seg, Label::Name(names[i]), ink));
            self.hit(seg, a);
            i = i + 1;
        }
    }
}

// ---------------------------------------------------------------------
// The icons of the pages
// ---------------------------------------------------------------------

/// The name and the colour of a page in the side bar.
pub open spec fn page_sign(p: Page) -> (&'static str, u32) {
    match p {
        Page::Display => ("Display", 0xff2f7cf6),
        Page::Personalization => ("Personalization", 0xffe04f92),
        Page::Sound => ("Sound", 0xfff08a24),
        Page::Network => ("Network & Internet", 0xff149ea8),
        Page::Input => ("Mouse & Keyboard", 0xff6e7480),
        Page::DateTime => ("Date & Time", 0xff8e5ce6),
        Page::Storage => ("Storage", 0xff2fa85a),
        Page::About => ("About", 0xff4a5568),
    }
}

pub fn sign_of(p: Page) -> (r: (&'static str, u32))
    ensures
        r == page_sign(p),
{
    match p {
        Page::Display => ("Display", 0xff2f7cf6),
        Page::Personalization => ("Personalization", 0xffe04f92),
        Page::Sound => ("Sound", 0xfff08a24),
        Page::Network => ("Network & Internet", 0xff149ea8),
        Page::Input => ("Mouse & Keyboard", 0xff6e7480),
        Page::DateTime => ("Date & Time", 0xff8e5ce6),
        Page::Storage => ("Storage", 0xff2fa85a),
        Page::About => ("About", 0xff4a5568),
    }
}

/// What is painted on the tile of a page, whose corner is at (x, y).
pub open spec fn glyph(p: Page, color: u32, x: int, y: int) -> Seq<Shape<Label>> {
    let w = Ink::White;
    let ground = Ink::Color(color);
    match p {
        Page::Display => seq![
            Shape::Rounded(area(x + 5, y + 6, 16, 11), 2, w),
            Shape::Fill(area(x + 12, y + 17, 2, 3), w),
            Shape::Fill(area(x + 9, y + 20, 8, 2), w),
        ],
        Page::Personalization => seq![
            circle(x + 13, y + 13, 8, w),
            circle(x + 10, y + 10, 2, Ink::Color(0xffe04f92)),
            circle(x + 16, y + 10, 2, Ink::Color(0xff2f7cf6)),
            circle(x + 10, y + 16, 2, Ink::Color(0xfff0b424)),
            circle(x + 16, y + 16, 2, Ink::Color(0xff2fa85a)),
        ],
        Page::Sound => seq![
            Shape::Fill(area(x + 6, y + 10, 4, 6), w),
            Shape::Fill(area(x + 10, y + 10, 1, 6), w),
            Shape::Fill(area(x + 11, y + 9, 1, 8), w),
            Shape::Fill(area(x + 12, y + 8, 1, 10), w),
            Shape::Fill(area(x + 13, y + 7, 1, 12), w),
            Shape::Fill(area(x + 14, y + 6, 1, 14), w),
            Shape::Fill(area(x + 17, y + 10, 2, 6), w),
            Shape::Fill(area(x + 20, y + 7, 2, 12), w),
        ],
        Page::Network => seq![
            Shape::Outline(area(x + 5, y + 5, 16, 16), 8, 2, w),
            Shape::Fill(area(x + 5, y + 12, 16, 2), w),
            Shape::Outline(area(x + 9, y + 5, 8, 16), 4, 2, w),
        ],
        Page::Input => seq![
            Shape::Rounded(area(x + 7, y + 4, 12, 18), 6, w),
            Shape::Fill(area(x + 12, y + 6, 2, 5), ground),
        ],
        Page::DateTime => seq![
            circle(x + 13, y + 13, 9, w),
            Shape::Fill(area(x + 12, y + 7, 2, 7), ground),
            Shape::Fill(area(x + 12, y + 12, 6, 2), ground),
        ],
        Page::Storage => seq![
            Shape::Rounded(area(x + 5, y + 8, 16, 10), 3, w),
            circle(x + 17, y + 13, 1, ground),
        ],
        Page::About => seq![circle(x + 13, y + 7, 2, w), Shape::Rounded(area(x + 11, y + 11, 4, 10), 2, w)],
    }
}

impl SheetState {
    /// The tile of a page.
    pub open spec fn icon(self, p: Page, color: u32, x: int, y: int) -> SheetState {
        SheetState {
            shapes: self.shapes.push(Shape::Rounded(area(x, y, 26, 26), 7, Ink::Color(color))) + glyph(
                p,
                color,
                x,
                y,
            ),
            ..self
        }
    }
}

impl Sheet {
    pub fn sidebar_icon(&mut self, p: Page, color: u32, x: i64, y: i64)
        requires
            near(x as int),
            near(y as int),
        ensures
            final(self)@ == old(self)@.icon(p, color, x as int, y as int),
            old(self)@.sound() ==> final(self)@.sound(),
    {
        let w = Ink::White;
        let ground = Ink::Color(color);
        self.draw(Shape::Rounded(at(x, y, 26, 26), 7, ground));
        match p {
            Page::Display => {
                self.draw(Shape::Rounded(at(x + 5, y + 6, 16, 11), 2, w));
                self.draw(Shape::Fill(at(x + 12, y + 17, 2, 3), w));
                self.draw(Shape::Fill(at(x + 9, y + 20, 8, 2), w));
            },
            Page::Personalization => {
                self.draw(Shape::Circle(x + 13, y + 13, 8, w));
                self.draw(Shape::Circle(x + 10, y + 10, 2, Ink::Color(0xffe04f92)));
                self.draw(Shape::Circle(x + 16, y + 10, 2, Ink::Color(0xff2f7cf6)));
                self.draw(Shape::Circle(x + 10, y + 16, 2, Ink::Color(0xfff0b424)));
                self.draw(Shape::Circle(x + 16, y + 16, 2, Ink::Color(0xff2fa85a)));
            },
            Page::Sound => {
                self.draw(Shape::Fill(at(x + 6, y + 10, 4, 6), w));
                self.draw(Shape::Fill(at(x + 10, y + 10, 1, 6), w));
                self.draw(Shape::Fill(at(x + 11, y + 9, 1, 8), w));
                self.draw(Shape::Fill(at(x + 12, y + 8, 1, 10), w));
                self.draw(Shape::Fill(at(x + 13, y + 7, 1, 12), w));
                self.draw(Shape::Fill(at(x + 14, y + 6, 1, 14), w));
                self.draw(Shape::Fill(at(x + 17, y + 10, 2, 6), w));
                self.draw(Shape::Fill(at(x + 20, y + 7, 2, 12), w));
            },
            Page::Network => {
                self.draw(Shape::Outline(at(x + 5, y + 5, 16, 16), 8, 2, w));
                self.draw(Shape::Fill(at(x + 5, y + 12, 16, 2), w));
                self.draw(Shape::Outline(at(x + 9, y + 5, 8, 16), 4, 2, w));
            },
            Page::Input => {
                self.draw(Shape::Rounded(at(x + 7, y + 4, 12, 18), 6, w));
                self.draw(Shape::Fill(at(x + 12, y + 6, 2, 5), ground));
            },
            Page::DateTime => {
                self.draw(Shape::Circle(x + 13, y + 13, 9, w));
                self.draw(Shape::Fill(at(x + 12, y + 7, 2, 7), ground));
                self.draw(Shape::Fill(at(x + 12, y + 12, 6, 2), ground));
            },
            Page::Storage => {
                self.draw(Shape::Rounded(at(x + 5, y + 8, 16, 10), 3, w));
                self.draw(Shape::Circle(x + 17, y + 13, 1, ground));
            },
            Page::About => {
                self.draw(Shape::Circle(x + 13, y + 7, 2, w));
                self.draw(Shape::Rounded(at(x + 11, y + 11, 4, 10), 2, w));
            },
        }
        assert(self@.shapes =~= old(self)@.icon(p, color, x as int, y as int).shapes);
    }
}

/// The rows of a card lie below one another, each next to the one before,
/// and as wide as the card: no point is in two of them.
pub proof fn lemma_rows_apart(card: Area, i: int, j: int, x: int, y: int)
    requires
        close(card),
        0 <= i < j,
        j <= 1000,
        place(card, i).spec_has(x, y),
    ensures
        !place(card, j).spec_has(x, y),
        place(card, i).y + place(card, i).h == place(card, i + 1).y,
        place(card, i).x == card.x && place(card, i).w == card.w,
        place(card, 0).y == card.y,
{
}

} // verus!
