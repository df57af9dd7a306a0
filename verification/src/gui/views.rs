//! What the windows of the smaller apps show.

use super::dialog::{Dialog, DialogState};
use super::geom::Rect;
use super::imageview::{Btn, ImageViewer, Progress};
use super::keep_resolution::KeepResolution;
use super::paint::{area, at, circle, clipped, hline, text, Font, Ink, Shape};
use super::screen::Cell;
use super::terminal::Terminal;
use super::video::VideoPlayer;
use super::widgets::{button, draw_scrollbar, thumb_height, with_button, with_field, ButtonStyle};
use crate::arith::{clamp, div, fits, max, max_i64, min, tdiv};
use vstd::prelude::*;

verus! {

/// The texts and pictures of these windows.
#[derive(Clone, Copy, PartialEq, Eq, Debug)]
pub enum Label {
    Name(&'static str),
    /// The picture or the frame that is shown.
    Picture,
    /// What there is to say about it.
    Info,
    Error,
    Message,
    Time,
    /// The field and the buttons of a dialog.
    Field,
    Accept,
    Second,
    /// A line about the system: what it is about, and what it says.
    InfoName(usize),
    InfoValue(usize),
    /// The question, and how long there is to answer it.
    Question,
    Countdown,
    /// Cells of a row of the terminal.
    Cells(usize, usize, usize),
}

// ---------------------------------------------------------------------
// Pictures
// ---------------------------------------------------------------------

pub open spec fn tool_name(b: Btn) -> &'static str {
    match b {
        Btn::Prev => "\u{25c0}",
        Btn::Next => "\u{25b6}",
        Btn::Fit => "Fit",
        Btn::Actual => "100%",
        Btn::Wallpaper => "Set as Wallpaper",
    }
}

fn name_of_tool(b: Btn) -> (r: &'static str)
    ensures
        r == tool_name(b),
{
    match b {
        Btn::Prev => "\u{25c0}",
        Btn::Next => "\u{25b6}",
        Btn::Fit => "Fit",
        Btn::Actual => "100%",
        Btn::Wallpaper => "Set as Wallpaper",
    }
}

pub open spec fn with_tool(s: Seq<Shape<Label>>, v: ImageViewer, b: Btn) -> Seq<Shape<Label>> {
    with_button(
        s,
        v.btn_area(b),
        Label::Name(tool_name(b)),
        if b == Btn::Wallpaper { ButtonStyle::Primary } else { ButtonStyle::Normal },
        v.hover == Some(b),
        v.progress == Progress::Shown || b == Btn::Prev || b == Btn::Next,
    )
}

/// What the picture viewer shows. `message_w` is how wide its message is.
pub open spec fn viewer_shapes(v: ImageViewer, message_w: int) -> Seq<Shape<Label>> {
    let (w, h) = (v.size.0 as int, v.size.1 as int);
    let s = Seq::<Shape<Label>>::empty().push(Shape::Fill(area(0, 0, w, 44), Ink::Panel)).push(
        hline(0, 43, w, Ink::Separator),
    );
    let s = with_tool(with_tool(with_tool(s, v, Btn::Prev), v, Btn::Next), v, Btn::Fit);
    let s = with_tool(with_tool(s, v, Btn::Actual), v, Btn::Wallpaper);
    let s = if v.progress == Progress::Shown {
        s.push(text(Font::Ui, 214, 27, Label::Info, Ink::TextDim))
    } else {
        s
    };
    let view = v.view_area();
    let s = s.push(Shape::Fill(view, Ink::Color(0xff1e_2026))).push(Shape::Clip(view));
    let s = match v.progress {
        Progress::Shown => {
            let (dw, dh) = v.shown_size();
            s.push(
                Shape::Picture(
                    Label::Picture,
                    area(tdiv(w - dw, 2) + v.pan.0, 44 + tdiv(h - 44 - dh, 2) + v.pan.1, dw, dh),
                    255,
                    0,
                ),
            )
        },
        Progress::Failed => s.push(Shape::Centered(Font::Ui, view, Label::Error, Ink::Color(0xffff_b4b4))),
        Progress::Loading => s.push(
            Shape::Centered(Font::Ui, view, Label::Name("Loading\u{2026}"), Ink::Color(0xb4ff_ffff)),
        ),
    };
    let s = if v.message_until is Some {
        let tw = message_w + 32;
        let r = area(tdiv(w - tw, 2), h - 50, tw, 34);
        s.push(Shape::Rounded(r, 10, Ink::Color(0xbe00_0000))).push(
            Shape::Centered(Font::Ui, r, Label::Message, Ink::White),
        )
    } else {
        s
    };
    s.push(Shape::Unclip)
}

impl ImageViewer {
    fn tool(&self, out: &mut Vec<Shape<Label>>, b: Btn)
        ensures
            final(out)@ == with_tool(old(out)@, *self, b),
    {
        let style = if b == Btn::Wallpaper { ButtonStyle::Primary } else { ButtonStyle::Normal };
        let over: bool = match self.hover {
            Some(h) => h == b,
            None => false,
        };
        let on: bool = self.progress == Progress::Shown || b == Btn::Prev || b == Btn::Next;
        button(out, self.button_rect(b), Label::Name(name_of_tool(b)), style, over, on);
    }

    /// Paints the window at this size.
    pub fn render(&mut self, w: i32, h: i32, message_w: i32) -> (out: Vec<Shape<Label>>)
        requires
            old(self).wf(),
            24 <= w,
            68 <= h,
        ensures
            *final(self) == (ImageViewer { size: (w, h), ..*old(self) }),
            final(self).wf(),
            out@ == viewer_shapes(*final(self), message_w as int),
    {
        self.size = (w, h);
        let (lw, lh) = (w as i64, h as i64);
        let mut out: Vec<Shape<Label>> = Vec::new();
        out.push(Shape::Fill(at(0, 0, lw, 44), Ink::Panel));
        out.push(Shape::HLine(0, 43, lw, Ink::Separator));
        self.tool(&mut out, Btn::Prev);
        self.tool(&mut out, Btn::Next);
        self.tool(&mut out, Btn::Fit);
        self.tool(&mut out, Btn::Actual);
        self.tool(&mut out, Btn::Wallpaper);
        if self.progress == Progress::Shown {
            out.push(Shape::Text(Font::Ui, 214, 27, Label::Info, Ink::TextDim));
        }
        let view = self.view();
        out.push(Shape::Fill(view, Ink::Color(0xff1e_2026)));
        out.push(Shape::Clip(view));
        match self.progress {
            Progress::Shown => {
                let (x, y, _, _) = self.placement();
                let (dw, dh) = self.display_size();
                out.push(Shape::Picture(Label::Picture, at(x, y, dw as i64, dh as i64), 255, 0));
            },
            Progress::Failed => {
                out.push(Shape::Centered(Font::Ui, view, Label::Error, Ink::Color(0xffff_b4b4)));
            },
            Progress::Loading => {
                let l = Label::Name("Loading\u{2026}");
                out.push(Shape::Centered(Font::Ui, view, l, Ink::Color(0xb4ff_ffff)));
            },
        }
        if self.message_until.is_some() {
            let tw: i64 = message_w as i64 + 32;
            let r = at(div(lw - tw, 2), lh - 50, tw, 34);
            out.push(Shape::Rounded(r, 10, Ink::Color(0xbe00_0000)));
            out.push(Shape::Centered(Font::Ui, r, Label::Message, Ink::White));
        }
        out.push(Shape::Unclip);
        out
    }
}

// ---------------------------------------------------------------------
// Videos
// ---------------------------------------------------------------------

/// The first `n` lines of the triangle on the play button.
pub open spec fn with_play(s: Seq<Shape<Label>>, cx: int, cy: int, n: int) -> Seq<Shape<Label>>
    decreases n,
{
    if n <= 0 {
        s
    } else {
        let i = n - 1;
        let len = if i < 7 { i + 1 } else { 14 - i };
        with_play(s, cx, cy, i).push(Shape::Fill(area(cx - 4, cy - 7 + i, len * 3 / 2, 1), Ink::White))
    }
}

impl VideoPlayer {
    /// How far along the bar the position is.
    pub open spec fn along(self) -> int {
        (self.size.0 - 200) * self.position / max(self.total as int, 1)
    }

    pub open spec fn with_controls(self, s: Seq<Shape<Label>>) -> Seq<Shape<Label>> {
        let (w, h) = (self.size.0 as int, self.size.1 as int);
        let (cx, cy) = (32int, h - 27);
        let s = s.push(Shape::Fill(area(0, h - 54, w, 54), Ink::Color(0xff1b_1d23))).push(
            circle(cx, cy, 18, Ink::Accent),
        );
        let s = if self.playing {
            s.push(Shape::Fill(area(cx - 6, cy - 7, 4, 14), Ink::White)).push(
                Shape::Fill(area(cx + 2, cy - 7, 4, 14), Ink::White),
            )
        } else {
            with_play(s, cx, cy, 14)
        };
        let s = s.push(Shape::Rounded(self.seek_area(), 5, Ink::Color(0xff3a_3e48))).push(
            Shape::Rounded(area(64, h - 32, max(self.along(), 10), 10), 5, Ink::Accent),
        );
        let s = if self.hover_bar { s.push(circle(64 + self.along(), h - 27, 8, Ink::White)) } else { s };
        s.push(text(Font::Mono, w - 120, h - 22, Label::Time, Ink::Color(0xffd0_d4dc)))
    }

    /// What the window shows: the frame of this size, or what went wrong.
    pub open spec fn shapes(self, frame: Option<(i32, i32)>, failed: bool) -> Seq<Shape<Label>> {
        let v = self.video_area();
        let s = Seq::<Shape<Label>>::empty().push(Shape::Fill(v, Ink::Color(0xff0c_0d10)));
        self.with_controls(
            match frame {
                Some((fw, fh)) => {
                    let (dw, dh) = self.fitted(fw as int, fh as int);
                    s.push(
                        Shape::Picture(
                            Label::Picture,
                            area(tdiv(v.w - dw, 2), tdiv(v.h - dh, 2), dw, dh),
                            255,
                            0,
                        ),
                    )
                },
                None => s.push(
                    Shape::Centered(
                        Font::Ui,
                        v,
                        if failed {
                            Label::Error
                        } else if !self.loaded {
                            Label::Name("Loading\u{2026}")
                        } else {
                            Label::Name("")
                        },
                        Ink::Color(0xbeff_ffff),
                    ),
                ),
            },
        )
    }

    fn draw_controls(&self, out: &mut Vec<Shape<Label>>)
        requires
            self.wf(),
        ensures
            final(out)@ == self.with_controls(old(out)@),
    {
        let (w, h) = (self.size.0 as i64, self.size.1 as i64);
        let (cx, cy) = (32i64, h - 27);
        out.push(Shape::Fill(at(0, h - 54, w, 54), Ink::Color(0xff1b_1d23)));
        out.push(Shape::Circle(cx, cy, 18, Ink::Accent));
        if self.playing {
            out.push(Shape::Fill(at(cx - 6, cy - 7, 4, 14), Ink::White));
            out.push(Shape::Fill(at(cx + 2, cy - 7, 4, 14), Ink::White));
        } else {
            let ghost start = out@;
            let mut i: i64 = 0;
            while i < 14
                invariant
                    0 <= i <= 14,
                    cx == 32,
                    cy == h - 27,
                    h == self.size.1,
                    out@ == with_play(start, cx as int, cy as int, i as int),
                decreases 14 - i,
            {
                let len: i64 = if i < 7 { i + 1 } else { 14 - i };
                out.push(Shape::Fill(at(cx - 4, cy - 7 + i, len * 3 / 2, 1), Ink::White));
                i = i + 1;
            }
        }
        out.push(Shape::Rounded(self.seek_rect(), 5, Ink::Color(0xff3a_3e48)));
        let total: u64 = if self.total > 1 { self.total } else { 1 };
        proof {
            let (a, b, c) = (w - 200, self.position as int, total as int);
            assert(0 <= a * b <= a * c && 0 <= a * b / c <= a) by (nonlinear_arith)
                requires
                    0 <= a,
                    0 <= b <= c,
                    1 <= c,
            ;
            assert(a * c <= 0x1_0000_0000 * 0x1_0000_0000_0000_0000) by (nonlinear_arith)
                requires
                    0 <= a <= 0x1_0000_0000,
                    0 <= c <= 0x1_0000_0000_0000_0000,
            ;
        }
        let px: i64 = ((w - 200) as u128 * self.position as u128 / total as u128) as i64;
        out.push(Shape::Rounded(at(64, h - 32, max_i64(px, 10), 10), 5, Ink::Accent));
        if self.hover_bar {
            out.push(Shape::Circle(64 + px, h - 27, 8, Ink::White));
        }
        out.push(Shape::Text(Font::Mono, w - 120, h - 22, Label::Time, Ink::Color(0xffd0_d4dc)));
    }

    /// Paints the window.
    pub fn draw(&self, frame: Option<(i32, i32)>, failed: bool) -> (out: Vec<Shape<Label>>)
        requires
            self.wf(),
            frame matches Some((fw, fh)) ==> fw > 0 && fh > 0,
        ensures
            out@ == self.shapes(frame, failed),
    {
        let v = self.video_rect();
        let mut out: Vec<Shape<Label>> = Vec::new();
        out.push(Shape::Fill(v, Ink::Color(0xff0c_0d10)));
        match frame {
            Some((fw, fh)) => {
                let (dw, dh) = self.fit(fw, fh);
                proof {
                    self.lemma_fitted(fw as int, fh as int);
                }
                let r = at(div(v.w - dw, 2), div(v.h - dh, 2), dw, dh);
                out.push(Shape::Picture(Label::Picture, r, 255, 0));
            },
            None => {
                let l = if failed {
                    Label::Error
                } else if !self.loaded {
                    Label::Name("Loading\u{2026}")
                } else {
                    Label::Name("")
                };
                out.push(Shape::Centered(Font::Ui, v, l, Ink::Color(0xbeff_ffff)));
            },
        }
        self.draw_controls(&mut out);
        out
    }

    /// The frame is no larger than its place.
    pub proof fn lemma_fitted(&self, fw: int, fh: int)
        requires
            self.wf(),
            fw > 0,
            fh > 0,
        ensures
            0 <= self.fitted(fw, fh).0 <= self.video_area().w,
            0 <= self.fitted(fw, fh).1 <= self.video_area().h,
    {
        let v = self.video_area();
        let (w, h) = (v.w * 1024, v.h * 1024);
        let (a, b) = (w / fw, h / fh);
        let s = min(a, b);
        assert(0 <= fw * a <= w && 0 <= fh * b <= h && 0 <= a && 0 <= b) by (nonlinear_arith)
            requires
                fw > 0,
                fh > 0,
                0 <= w,
                0 <= h,
                a == w / fw,
                b == h / fh,
        ;
        assert(0 <= fw * s <= fw * a && 0 <= fh * s <= fh * b) by (nonlinear_arith)
            requires
                fw > 0,
                fh > 0,
                0 <= s,
                s <= a,
                s <= b,
        ;
    }
}

// ---------------------------------------------------------------------
// Dialogs
// ---------------------------------------------------------------------

/// What a dialog shows. `scroll` is what is scrolled away of its field.
pub open spec fn dialog_shapes(d: DialogState, focused: bool, caret_x: int, scroll: int, rise: int) -> Seq<Shape<Label>> {
    let (w, h) = (d.size.0 as int, d.size.1 as int);
    let s = Seq::<Shape<Label>>::empty().push(Shape::Fill(area(0, 0, w, h), Ink::Panel)).push(
        clipped(Font::Ui, 18, 28, Label::Message, w - 36, Ink::Text),
    );
    let s = match d.input {
        Some(i) => with_field(
            s,
            area(16, 44, w - 32, 32),
            Label::Field,
            focused,
            i.all_selected,
            caret_x,
            scroll,
            rise,
        ),
        None => s,
    };
    let s = with_button(
        s,
        area(w - 110, h - 44, 94, 30),
        Label::Accept,
        if d.danger { ButtonStyle::Danger } else { ButtonStyle::Primary },
        d.hover == Some(0u8),
        true,
    );
    if d.cancel_label is Some {
        with_button(s, area(w - 214, h - 44, 94, 30), Label::Second, ButtonStyle::Normal, d.hover == Some(1u8), true)
    } else {
        s
    }
}

fn is_nth(o: Option<u8>, i: u8) -> (r: bool)
    ensures
        r == (o == Some(i)),
{
    match o {
        Some(k) => k == i,
        None => false,
    }
}

impl Dialog {
    fn draw_buttons(&self, out: &mut Vec<Shape<Label>>)
        requires
            self@.wf(),
        ensures
            final(out)@ == ({
                let (w, h) = (self.size.0 as int, self.size.1 as int);
                let s = with_button(
                    old(out)@,
                    area(w - 110, h - 44, 94, 30),
                    Label::Accept,
                    if self.danger { ButtonStyle::Danger } else { ButtonStyle::Primary },
                    self.hover == Some(0u8),
                    true,
                );
                if self.cancel_label is Some {
                    with_button(
                        s,
                        area(w - 214, h - 44, 94, 30),
                        Label::Second,
                        ButtonStyle::Normal,
                        self.hover == Some(1u8),
                        true,
                    )
                } else {
                    s
                }
            }),
    {
        let (w, h) = (self.size.0 as i64, self.size.1 as i64);
        let style = if self.danger { ButtonStyle::Danger } else { ButtonStyle::Primary };
        button(out, at(w - 110, h - 44, 94, 30), Label::Accept, style, is_nth(self.hover, 0), true);
        if self.cancel_label.is_some() {
            let r = at(w - 214, h - 44, 94, 30);
            button(out, r, Label::Second, ButtonStyle::Normal, is_nth(self.hover, 1), true);
        }
    }

    /// Paints a dialog without a field at this size.
    pub fn render(&mut self, w: i32, h: i32) -> (out: Vec<Shape<Label>>)
        requires
            old(self)@.wf(),
            old(self).input is None,
            fits(w - 214),
            fits(h - 44),
        ensures
            final(self)@ == (DialogState { size: (w, h), ..old(self)@ }),
            final(self)@.wf(),
            forall|f: bool, c: int, s: int, r: int| out@ == #[trigger] dialog_shapes(final(self)@, f, c, s, r),
    {
        self.size = (w, h);
        let mut out: Vec<Shape<Label>> = Vec::new();
        out.push(Shape::Fill(at(0, 0, w as i64, h as i64), Ink::Panel));
        out.push(Shape::Clipped(Font::Ui, 18, 28, Label::Message, w as i64 - 36, Ink::Text));
        self.draw_buttons(&mut out);
        out
    }

    /// Paints a dialog with a field at this size.
    pub fn render_field(&mut self, w: i32, h: i32, focused: bool, caret_x: i32, rise: i32) -> (out: Vec<Shape<Label>>)
        requires
            old(self)@.wf(),
            old(self).input matches Some(i) && 0 <= i.scroll <= 1_000_000_000,
            214 <= w,
            fits(h - 44),
            0 <= caret_x <= 1_000_000_000,
        ensures
            final(self).size == (w, h),
            final(self).title == old(self).title,
            final(self).message == old(self).message,
            final(self).hover == old(self).hover,
            final(self).answered == old(self).answered,
            final(self).input matches Some(i) && i.text == old(self).input->0.text && i.caret == old(self).input->0.caret
                && i.all_selected == old(self).input->0.all_selected && i.scroll == ({
                let s = old(self).input->0.scroll;
                let a = if caret_x - s > w - 50 { caret_x - w + 50 } else { s as int };
                if caret_x < a { caret_x as int } else { a }
            }),
            final(self)@.wf(),
            out@ == dialog_shapes(
                final(self)@,
                focused,
                caret_x as int,
                final(self).input->0.scroll as int,
                rise as int,
            ),
    {
        self.size = (w, h);
        let mut out: Vec<Shape<Label>> = Vec::new();
        out.push(Shape::Fill(at(0, 0, w as i64, h as i64), Ink::Panel));
        out.push(Shape::Clipped(Font::Ui, 18, 28, Label::Message, w as i64 - 36, Ink::Text));
        if let Some(i) = self.input.take() {
            let mut i = i;
            i.render(&mut out, at(16, 44, w as i64 - 32, 32), Label::Field, focused, caret_x, rise);
            self.input = Some(i);
        }
        self.draw_buttons(&mut out);
        out
    }
}

// ---------------------------------------------------------------------
// About, resolution
// ---------------------------------------------------------------------

/// The first `n` lines about the system.
pub open spec fn with_info(s: Seq<Shape<Label>>, w: int, n: int) -> Seq<Shape<Label>>
    decreases n,
{
    if n <= 0 {
        s
    } else {
        let i = (n - 1) as usize;
        let y = 140 + 26 * (n - 1);
        with_info(s, w, n - 1).push(text(Font::Bold, 24, y, Label::InfoName(i), Ink::TextDim)).push(
            clipped(Font::Ui, 130, y, Label::InfoValue(i), w - 150, Ink::Text),
        )
    }
}

pub open spec fn about_shapes(w: int, h: int, lines: int) -> Seq<Shape<Label>> {
    with_info(
        Seq::<Shape<Label>>::empty().push(Shape::Fill(area(0, 0, w, h), Ink::White)).push(
            Shape::Gradient(area(0, 0, w, 110), Ink::Color(0xff2f_7cf6), Ink::Color(0xff7a_4de8)),
        ).push(Shape::Icon(Label::Name("info"), 24, 23, 64)).push(
            text(Font::Large, 104, 58, Label::Name("MayOS"), Ink::White),
        ).push(
            text(Font::Ui, 106, 82, Label::Name("A from-scratch operating system"), Ink::Color(0xffeb_eeff)),
        ),
        w,
        lines,
    )
}

/// Paints the window about the system, which says this many lines.
pub fn about_window(w: i32, h: i32, lines: usize) -> (out: Vec<Shape<Label>>)
    requires
        lines <= 100_000,
    ensures
        out@ == about_shapes(w as int, h as int, lines as int),
{
    let (lw, lh) = (w as i64, h as i64);
    let mut out: Vec<Shape<Label>> = Vec::new();
    out.push(Shape::Fill(at(0, 0, lw, lh), Ink::White));
    out.push(Shape::Gradient(at(0, 0, lw, 110), Ink::Color(0xff2f_7cf6), Ink::Color(0xff7a_4de8)));
    out.push(Shape::Icon(Label::Name("info"), 24, 23, 64));
    out.push(Shape::Text(Font::Large, 104, 58, Label::Name("MayOS"), Ink::White));
    let l = Label::Name("A from-scratch operating system");
    out.push(Shape::Text(Font::Ui, 106, 82, l, Ink::Color(0xffeb_eeff)));
    let ghost start = out@;
    let mut i: usize = 0;
    while i < lines
        invariant
            i <= lines <= 100_000,
            lw == w,
            out@ == with_info(start, w as int, i as int),
        decreases lines - i,
    {
        let y: i64 = 140 + 26 * i as i64;
        out.push(Shape::Text(Font::Bold, 24, y, Label::InfoName(i), Ink::TextDim));
        out.push(Shape::Clipped(Font::Ui, 130, y, Label::InfoValue(i), lw - 150, Ink::Text));
        i = i + 1;
    }
    out
}

impl KeepResolution {
    pub open spec fn shapes(self, w: int, h: int) -> Seq<Shape<Label>> {
        let s = Seq::<Shape<Label>>::empty().push(Shape::Fill(area(0, 0, w, h), Ink::Panel)).push(
            text(Font::Bold, 18, 30, Label::Question, Ink::Text),
        ).push(text(Font::Ui, 18, 56, Label::Countdown, Ink::TextDim));
        let s = with_button(
            s,
            Self::revert_area(),
            Label::Name("Revert"),
            ButtonStyle::Normal,
            self.hover == Some(0u8),
            true,
        );
        with_button(s, Self::keep_area(), Label::Name("Keep"), ButtonStyle::Primary, self.hover == Some(1u8), true)
    }

    /// Paints the window.
    pub fn render(&self, w: i32, h: i32) -> (out: Vec<Shape<Label>>)
        ensures
            out@ == self.shapes(w as int, h as int),
    {
        let mut out: Vec<Shape<Label>> = Vec::new();
        out.push(Shape::Fill(at(0, 0, w as i64, h as i64), Ink::Panel));
        out.push(Shape::Text(Font::Bold, 18, 30, Label::Question, Ink::Text));
        out.push(Shape::Text(Font::Ui, 18, 56, Label::Countdown, Ink::TextDim));
        let over: bool = is_nth(self.hover, 0);
        button(&mut out, at(186, 96, 104, 32), Label::Name("Revert"), ButtonStyle::Normal, over, true);
        let over: bool = is_nth(self.hover, 1);
        button(&mut out, at(300, 96, 104, 32), Label::Name("Keep"), ButtonStyle::Primary, over, true);
        out
    }
}

// ---------------------------------------------------------------------
// Terminal
// ---------------------------------------------------------------------

/// The longest runs of one colour in the first `n` cells of a row.
pub open spec fn runs(row: Seq<Cell>, n: int) -> Seq<(int, int)>
    decreases n,
{
    if n <= 0 {
        Seq::empty()
    } else {
        let r = runs(row, n - 1);
        if n > 1 && row[n - 1].color == row[n - 2].color {
            r.drop_last().push((r.last().0, n))
        } else {
            r.push((n - 1, n))
        }
    }
}

/// The runs of a row follow one another, and there is no cell between them:
/// everything in the row is painted once.
pub proof fn lemma_runs(row: Seq<Cell>, n: int)
    requires
        0 <= n <= row.len(),
    ensures
        n > 0 ==> runs(row, n).len() > 0 && runs(row, n)[0].0 == 0 && runs(row, n).last().1 == n,
        forall|k: int| 0 <= k < runs(row, n).len() ==> (#[trigger] runs(row, n)[k]).0 < runs(row, n)[k].1,
        forall|k: int| 0 < k < runs(row, n).len() ==> runs(row, n)[k - 1].1 == (#[trigger] runs(row, n)[k]).0,
        forall|k: int, c: int|
            0 <= k < runs(row, n).len() && runs(row, n)[k].0 <= c < runs(row, n)[k].1 ==> (#[trigger] row[c]).color == row[(
            #[trigger] runs(row, n)[k]).0].color,
    decreases n,
{
    if n > 0 {
        lemma_runs(row, n - 1);
        let before = runs(row, n - 1);
        let now = runs(row, n);
        if n > 1 && row[n - 1].color == row[n - 2].color {
            let last = before.len() - 1;
            assert(before[last] == before.last());
            assert(before[last].0 <= n - 2 < before[last].1);
            assert(row[n - 2].color == row[before[last].0].color);
            assert(now.len() == before.len());
            assert(now[last] == (before[last].0, n));
            assert(forall|k: int| 0 <= k < last ==> #[trigger] now[k] == before[k]);
        } else {
            assert(now.len() == before.len() + 1);
            assert(now[before.len() as int] == (n - 1, n));
            assert(forall|k: int| 0 <= k < before.len() ==> #[trigger] now[k] == before[k]);
            if n > 1 {
                assert(before[before.len() - 1] == before.last());
            }
        }
        assert(now.last() == now[now.len() - 1]);
    }
}

/// The runs of a row at height `y`.
pub open spec fn with_runs(s: Seq<Shape<Label>>, row: Seq<Cell>, i: int, y: int, cw: int, n: int) -> Seq<Shape<Label>>
    decreases n,
{
    let r = runs(row, row.len() as int);
    if n <= 0 {
        s
    } else {
        let (from, to) = r[n - 1];
        with_runs(s, row, i, y, cw, n - 1).push(
            text(
                Font::Mono,
                10 + from * cw,
                y,
                Label::Cells(i as usize, from as usize, to as usize),
                Ink::Color(row[from].color),
            ),
        )
    }
}

/// The runs of one colour of a row.
pub fn color_runs(row: &[Cell]) -> (r: Vec<(usize, usize)>)
    ensures
        r@.len() == runs(row@, row@.len() as int).len(),
        forall|k: int|
            0 <= k < r@.len() ==> ((#[trigger] r@[k]).0 as int, r@[k].1 as int) == runs(row@, row@.len() as int)[k],
{
    let mut out: Vec<(usize, usize)> = Vec::new();
    let mut n: usize = 0;
    while n < row.len()
        invariant
            n <= row@.len(),
            out@.len() == runs(row@, n as int).len(),
            forall|k: int| 0 <= k < out@.len() ==> ((#[trigger] out@[k]).0 as int, out@[k].1 as int) == runs(row@, n as int)[k],
        decreases row@.len() - n,
    {
        proof {
            lemma_runs(row@, n as int);
        }
        let ghost before = out@;
        if n > 0 && row[n].color == row[n - 1].color {
            match out.pop() {
                Some(last) => {
                    out.push((last.0, n + 1));
                },
                None => {},
            }
        } else {
            out.push((n, n + 1));
        }
        n = n + 1;
    }
    out
}

/// A row of the terminal.
fn draw_row(out: &mut Vec<Shape<Label>>, row: &Vec<Cell>, i: usize, y: i64, cw: i32)
    requires
        cw > 0,
        row@.len() * cw <= i32::MAX,
    ensures
        final(out)@ == with_runs(
            old(out)@,
            row@,
            i as int,
            y as int,
            cw as int,
            runs(row@, row@.len() as int).len() as int,
        ),
{
    let list = color_runs(row);
    let mut k: usize = 0;
    while k < list.len()
        invariant
            k <= list@.len() == runs(row@, row@.len() as int).len(),
            cw > 0,
            row@.len() * cw <= i32::MAX,
            forall|j: int|
                0 <= j < list@.len() ==> ((#[trigger] list@[j]).0 as int, list@[j].1 as int) == runs(
                    row@,
                    row@.len() as int,
                )[j],
            out@ == with_runs(old(out)@, row@, i as int, y as int, cw as int, k as int),
        decreases list@.len() - k,
    {
        let (from, to) = list[k];
        proof {
            lemma_runs(row@, row@.len() as int);
            lemma_run_in_row(row@, k as int);
            assert(0 <= from * cw <= row@.len() * cw && from <= i32::MAX) by (nonlinear_arith)
                requires
                    0 <= from <= row@.len(),
                    0 < cw,
                    row@.len() * cw <= i32::MAX,
            ;
        }
        let ink = Ink::Color(row[from].color);
        out.push(Shape::Text(Font::Mono, 10 + from as i64 * cw as i64, y, Label::Cells(i, from, to), ink));
        k = k + 1;
    }
}

proof fn lemma_run_in_row(row: Seq<Cell>, k: int)
    requires
        0 <= k < runs(row, row.len() as int).len(),
    ensures
        0 <= runs(row, row.len() as int)[k].0 < row.len(),
{
    lemma_run_bounds(row, row.len() as int, k);
}

proof fn lemma_run_bounds(row: Seq<Cell>, n: int, k: int)
    requires
        0 <= n <= row.len(),
        0 <= k < runs(row, n).len(),
    ensures
        0 <= runs(row, n)[k].0 < n,
    decreases n,
{
    if n > 0 {
        lemma_runs(row, n - 1);
        let r = runs(row, n - 1);
        if n > 1 && row[n - 1].color == row[n - 2].color {
            if k < r.len() - 1 {
                lemma_run_bounds(row, n - 1, k);
            } else {
                lemma_run_bounds(row, n - 1, r.len() - 1);
            }
        } else if k < r.len() {
            lemma_run_bounds(row, n - 1, k);
        }
    }
}

/// The rows from `first` on, up to `n`.
pub open spec fn with_rows(s: Seq<Shape<Label>>, rows: Seq<Vec<Cell>>, first: int, ascent: int, cw: int, lh: int, n: int) -> Seq<
    Shape<Label>,
>
    decreases n - first,
{
    if n <= first {
        s
    } else {
        let i = n - 1;
        with_runs(
            with_rows(s, rows, first, ascent, cw, lh, i),
            rows[i]@,
            i,
            10 + ascent + (i - first) * lh,
            cw,
            runs(rows[i]@, rows[i]@.len() as int).len() as int,
        )
    }
}

/// The caret: a block over its character, or a frame in a window that is not
/// in use.
pub open spec fn with_caret(
    s: Seq<Shape<Label>>,
    t: Terminal,
    rows: Seq<Vec<Cell>>,
    at: (usize, usize),
    first: int,
    ascent: int,
    cw: int,
    lh: int,
) -> Seq<Shape<Label>> {
    if !(first <= at.0 < first + t.rows) {
        s
    } else {
        let (x, y) = (10 + at.1 * cw, 10 + (at.0 - first) * lh);
        let r = area(x, y + 1, cw, lh - 1);
        if !t.focused {
            s.push(Shape::Outline(r, 0, 1, Ink::Color(0xa0dc_dfe4)))
        } else if !t.blink_on {
            s
        } else {
            let s = s.push(Shape::Fill(r, Ink::Color(0xc8dc_dfe4)));
            if at.0 < rows.len() && at.1 < rows[at.0 as int]@.len() {
                s.push(
                    text(
                        Font::Mono,
                        x,
                        y + ascent,
                        Label::Cells(at.0, at.1, (at.1 + 1) as usize),
                        Ink::Color(0xff1c_1f26),
                    ),
                )
            } else {
                s
            }
        }
    }
}

pub open spec fn with_scrollbar(s: Seq<Shape<Label>>, t: Terminal, total: int, first: int, lh: int) -> Seq<Shape<Label>> {
    let (w, h) = (t.size.0 as int, t.size.1 as int);
    let (content, view) = (total * lh, t.rows * lh);
    if content > view && h > 8 {
        let th = thumb_height(h - 8, content, view);
        let y = 4 + (h - 8 - th) * clamp(first * lh, 0, content - view) / (content - view);
        s.push(Shape::Rounded(area(w - 8, y + 2, 4, th - 4), 3, Ink::Color(0x4600_0000)))
    } else {
        s
    }
}

impl Terminal {
    /// Paints the rows that `render` gave.
    pub fn draw(&self, rows: &Vec<Vec<Cell>>, first: i64, caret: (usize, usize), ascent: i32, cw: i32, lh: i32) -> (out: Vec<
        Shape<Label>,
    >)
        requires
            cw > 0,
            lh > 0,
            self.rows >= 1,
            self.rows * lh <= i32::MAX,
            rows@.len() * lh <= i32::MAX,
            forall|i: int| 0 <= i < rows@.len() ==> (#[trigger] rows@[i])@.len() * cw <= i32::MAX,
            0 <= first <= rows@.len(),
            caret.1 * cw <= i32::MAX,
            10 <= self.size.0,
            8 <= self.size.1,
        ensures
            out@ == ({
                let (w, h) = (self.size.0 as int, self.size.1 as int);
                let s = Seq::<Shape<Label>>::empty().push(Shape::Fill(area(0, 0, w, h), Ink::Color(0xff1c_1f26)));
                let s = with_rows(
                    s,
                    rows@,
                    first as int,
                    ascent as int,
                    cw as int,
                    lh as int,
                    min(first + self.rows, rows@.len() as int),
                );
                with_scrollbar(
                    with_caret(s, *self, rows@, caret, first as int, ascent as int, cw as int, lh as int),
                    *self,
                    rows@.len() as int,
                    first as int,
                    lh as int,
                )
            }),
    {
        let mut out: Vec<Shape<Label>> = Vec::new();
        out.push(Shape::Fill(at(0, 0, self.size.0 as i64, self.size.1 as i64), Ink::Color(0xff1c_1f26)));
        let ghost start = out@;
        proof {
            assert(rows@.len() <= i32::MAX) by (nonlinear_arith)
                requires
                    rows@.len() * lh <= i32::MAX,
                    lh >= 1,
            ;
        }
        let n: usize = rows.len();
        let top: usize = first as usize;
        let end: usize = if n - top > self.rows as usize { top + self.rows as usize } else { n };
        let mut i: usize = top;
        assert(out@ == with_rows(start, rows@, first as int, ascent as int, cw as int, lh as int, i as int));
        while i < end
            invariant
                top == first,
                top <= i <= end,
                end <= first + self.rows,
                end <= n == rows@.len(),
                cw > 0,
                lh > 0,
                self.rows * lh <= i32::MAX,
                forall|k: int| 0 <= k < rows@.len() ==> (#[trigger] rows@[k])@.len() * cw <= i32::MAX,
                out@ == with_rows(start, rows@, first as int, ascent as int, cw as int, lh as int, i as int),
            decreases end - i,
        {
            assert(0 <= (i - first) * lh <= self.rows * lh) by (nonlinear_arith)
                requires
                    0 <= i - first <= self.rows,
                    0 < lh,
            ;
            let y: i64 = 10 + ascent as i64 + (i - top) as i64 * lh as i64;
            draw_row(&mut out, &rows[i], i, y, cw);
            i = i + 1;
        }
        assert(with_rows(start, rows@, first as int, ascent as int, cw as int, lh as int, end as int) == out@);
        self.draw_caret(&mut out, rows, caret, first, ascent, cw, lh);
        proof {
            assert(0 <= first * lh <= rows@.len() * lh) by (nonlinear_arith)
                requires
                    0 <= first <= rows@.len(),
                    0 < lh,
            ;
            assert(0 <= self.rows * lh) by (nonlinear_arith)
                requires
                    self.rows >= 1,
                    lh > 0,
            ;
        }
        let track = Rect::new(self.size.0 - 10, 4, 8, self.size.1 - 8);
        let content: i64 = n as i64 * lh as i64;
        let view: i64 = self.rows as i64 * lh as i64;
        let offset: i64 = first * lh as i64;
        draw_scrollbar(&mut out, track, content as i32, view as i32, offset as i32);
        out
    }

    fn draw_caret(&self, out: &mut Vec<Shape<Label>>, rows: &Vec<Vec<Cell>>, caret: (usize, usize), first: i64, ascent: i32, cw: i32, lh: i32)
        requires
            cw > 0,
            lh > 0,
            self.rows >= 1,
            self.rows * lh <= i32::MAX,
            0 <= first <= i32::MAX,
            caret.1 * cw <= i32::MAX,
        ensures
            final(out)@ == with_caret(
                old(out)@,
                *self,
                rows@,
                caret,
                first as int,
                ascent as int,
                cw as int,
                lh as int,
            ),
    {
        let from: u64 = first as u64;
        if (caret.0 as u64) < from || (caret.0 as u64) >= from + self.rows as u64 {
            return;
        }
        let down: i64 = (caret.0 as u64 - from) as i64;
        proof {
            assert(0 <= down * lh <= self.rows * lh) by (nonlinear_arith)
                requires
                    0 <= down <= self.rows,
                    0 < lh,
            ;
            assert(0 <= caret.1 * cw && caret.1 <= i32::MAX) by (nonlinear_arith)
                requires
                    caret.1 * cw <= i32::MAX,
                    cw >= 1,
                    0 <= caret.1,
            ;
        }
        let x: i64 = 10 + caret.1 as i64 * cw as i64;
        let y: i64 = 10 + down * lh as i64;
        let r = at(x, y + 1, cw as i64, lh as i64 - 1);
        if !self.focused {
            out.push(Shape::Outline(r, 0, 1, Ink::Color(0xa0dc_dfe4)));
        } else if self.blink_on {
            out.push(Shape::Fill(r, Ink::Color(0xc8dc_dfe4)));
            if caret.0 < rows.len() && caret.1 < rows[caret.0].len() {
                let l = Label::Cells(caret.0, caret.1, caret.1 + 1);
                out.push(Shape::Text(Font::Mono, x, y + ascent as i64, l, Ink::Color(0xff1c_1f26)));
            }
        }
    }
}

} // verus!
