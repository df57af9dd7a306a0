//! What the editor's window shows.

use super::editor::{Editor, EditorState, Hover, Metrics, Row};
use super::geom::Rect;
use super::paint::{area, at, clipped, hline, text, Font, Ink, Shape};
use super::widgets::{button, draw_scrollbar, thumb_height, with_button, ButtonStyle};
use crate::arith::{clamp, div, tdiv};
use vstd::prelude::*;

verus! {

/// The texts of the window.
#[derive(Clone, Copy, PartialEq, Eq, Debug)]
pub enum Label {
    Name(&'static str),
    Path,
    /// The line and the column of the cursor.
    Position,
    /// The number of a line, and the line.
    Number(usize),
    Line(usize),
    Message,
    Status,
}

/// What the window shows besides its own state.
pub struct Type {
    pub m: Metrics,
    /// Ascent of the fixed font.
    pub ascent: i32,
    /// Ascent less descent of the plain font.
    pub rise: i32,
    /// How wide the position of the cursor is.
    pub position_w: i32,
    /// How wide the numbers of the lines shown are.
    pub number_w: Vec<i32>,
}

impl EditorState {
    /// The text has room in 32-bit coordinates.
    pub open spec fn drawable(self, m: Metrics) -> bool {
        &&& forall|l: int| 0 <= l < self.lines.len() ==> ((#[trigger] self.lines[l]).len() + 1) * m.cw <= i32::MAX
        &&& self.lines.len() * m.lh + 16 <= i32::MAX
        &&& 0 <= self.top
        &&& self.top * m.lh <= i32::MAX
        &&& 68 <= self.size.1
        &&& 11 <= self.size.0
    }
}

/// The row of line `l`, whose top is at `y`.
pub open spec fn with_line(s: Seq<Shape<Label>>, e: EditorState, t: Type, focused: bool, l: int, y: int, number_w: int) -> Seq<
    Shape<Label>,
> {
    let (w, h) = (e.size.0 as int, e.size.1 - 68);
    let x = 60 - e.left;
    let s = if l == e.cursor.0 && e.selection() is None {
        s.push(Shape::Fill(area(52, y - 1, w - 52, t.m.lh as int), Ink::Color(0xfff3_f7ff)))
    } else {
        s
    };
    let s = s.push(
        text(
            Font::Mono,
            42 - number_w,
            y + t.ascent,
            Label::Number(l as usize),
            if l == e.cursor.0 { Ink::Text } else { Ink::Color(0xaa6b_717e) },
        ),
    ).push(Shape::Clip(area(52, 44, w - 52, h)));
    let s = match e.selected_on(l) {
        Some((from, to, on)) => s.push(
            Shape::Fill(
                area(
                    x + from * t.m.cw,
                    y - 1,
                    (to + (if on { 1int } else { 0 }) - from) * t.m.cw,
                    t.m.lh as int,
                ),
                if focused { Ink::Selection } else { Ink::Color(0xffe6_e8ec) },
            ),
        ),
        None => s,
    };
    let s = s.push(text(Font::Mono, x, y + t.ascent, Label::Line(l as usize), Ink::Text));
    let s = if l == e.cursor.0 && focused && e.blink_on {
        s.push(Shape::Fill(area(x + e.cursor.1 * t.m.cw, y - 1, 2, t.m.lh as int), Ink::Accent))
    } else {
        s
    };
    s.push(Shape::Unclip)
}

/// The first `n` rows of text.
pub open spec fn with_lines(s: Seq<Shape<Label>>, e: EditorState, t: Type, focused: bool, n: int) -> Seq<Shape<Label>>
    decreases n,
{
    if n <= 0 {
        s
    } else {
        let i = n - 1;
        with_line(
            with_lines(s, e, t, focused, i),
            e,
            t,
            focused,
            e.top + i,
            52 + i * t.m.lh,
            t.number_w@[i] as int,
        )
    }
}

pub open spec fn with_tools(s: Seq<Shape<Label>>, e: EditorState, t: Type) -> Seq<Shape<Label>> {
    let w = e.size.0 as int;
    let base = tdiv(44 + t.rise, 2);
    let s = s.push(Shape::Fill(area(0, 0, w, 44), Ink::Panel)).push(hline(0, 43, w, Ink::Separator));
    let s = with_button(s, area(12, 7, 70, 30), Label::Name("Save"), ButtonStyle::Primary, e.hover == Hover::Save, true);
    let s = with_button(
        s,
        area(88, 7, 86, 30),
        Label::Name("Save As\u{2026}"),
        ButtonStyle::Normal,
        e.hover == Hover::SaveAs,
        true,
    );
    s.push(
        clipped(
            Font::Ui,
            190,
            base,
            if e.path is Some { Label::Path } else { Label::Name("(not saved yet)") },
            w - 320,
            Ink::TextDim,
        ),
    ).push(text(Font::Ui, w - t.position_w - 14, base, Label::Position, Ink::TextDim))
}

pub open spec fn with_scroll(s: Seq<Shape<Label>>, e: EditorState, m: Metrics) -> Seq<Shape<Label>> {
    let (w, h) = (e.size.0 as int, e.size.1 - 68);
    let content = e.lines.len() * m.lh + 16;
    if content > h && h > 4 {
        let th = thumb_height(h - 4, content, h);
        let y = 46 + (h - 4 - th) * clamp(e.top * m.lh, 0, content - h) / (content - h);
        s.push(Shape::Rounded(area(w - 9, y + 2, 5, th - 4), 3, Ink::Color(0x4600_0000)))
    } else {
        s
    }
}

pub open spec fn with_foot(s: Seq<Shape<Label>>, e: EditorState, rise: int) -> Seq<Shape<Label>> {
    let (w, y) = (e.size.0 as int, e.size.1 - 24);
    let base = y + tdiv(24 + rise, 2);
    let s = s.push(Shape::Fill(area(0, y, w, 24), Ink::Panel)).push(hline(0, y, w, Ink::Separator));
    match e.message {
        Some((_, error, _)) => s.push(
            clipped(Font::Ui, 12, base, Label::Message, w - 24, if error { Ink::Danger } else { Ink::AccentDark }),
        ),
        None => s.push(clipped(Font::Ui, 12, base, Label::Status, w - 24, Ink::TextDim)),
    }
}

/// What the window shows.
pub open spec fn editor_shapes(e: EditorState, t: Type, focused: bool) -> Seq<Shape<Label>> {
    let (w, h) = (e.size.0 as int, e.size.1 - 68);
    let s = with_tools(Seq::empty(), e, t).push(Shape::Fill(area(0, 44, w, h), Ink::White)).push(
        Shape::Fill(area(0, 44, 52, h), Ink::Color(0xfff6_f7f9)),
    ).push(Shape::VLine(51, 44, h as i64, Ink::Separator));
    with_foot(with_scroll(with_lines(s, e, t, focused, e.drawn_rows(t.m)), e, t.m), e, t.rise as int)
}

proof fn lemma_room(n: int, k: int, d: int)
    requires
        0 <= n <= k,
        0 < d,
        k * d <= i32::MAX,
    ensures
        0 <= n * d <= k * d,
        k <= i32::MAX,
{
    assert(0 <= n * d <= k * d && k <= k * d) by (nonlinear_arith)
        requires
            0 <= n <= k,
            0 < d,
    ;
}

impl Editor {
    fn draw_tools(&self, out: &mut Vec<Shape<Label>>, t: &Type)
        ensures
            final(out)@ == with_tools(old(out)@, self@, *t),
    {
        let w: i64 = self.size.0 as i64;
        let base: i64 = div(44 + t.rise as i64, 2);
        out.push(Shape::Fill(at(0, 0, w, 44), Ink::Panel));
        out.push(Shape::HLine(0, 43, w, Ink::Separator));
        let over: bool = self.hover == Hover::Save;
        button(out, at(12, 7, 70, 30), Label::Name("Save"), ButtonStyle::Primary, over, true);
        let over: bool = self.hover == Hover::SaveAs;
        button(out, at(88, 7, 86, 30), Label::Name("Save As\u{2026}"), ButtonStyle::Normal, over, true);
        let path = if self.path.is_some() { Label::Path } else { Label::Name("(not saved yet)") };
        out.push(Shape::Clipped(Font::Ui, 190, base, path, w - 320, Ink::TextDim));
        out.push(Shape::Text(Font::Ui, w - t.position_w as i64 - 14, base, Label::Position, Ink::TextDim));
    }

    fn draw_line(&self, out: &mut Vec<Shape<Label>>, t: &Type, focused: bool, row: &Row, number_w: i32, Ghost(i): Ghost<int>)
        requires
            self@.wf(),
            t.m.wf(),
            self@.drawable(t.m),
            0 <= i,
            self@.top + i < self@.lines.len(),
            row.shows(self@, i, focused, t.m),
            52 <= row.y <= 0x1_0000_0000,
        ensures
            final(out)@ == with_line(
                old(out)@,
                self@,
                *t,
                focused,
                self@.top + i,
                52 + i * t.m.lh,
                number_w as int,
            ),
    {
        let (w, h) = (self.size.0 as i64, self.size.1 as i64 - 68);
        let (cw, lh) = (t.m.cw as i64, t.m.lh as i64);
        let x: i64 = 60 - self.left as i64;
        let y: i64 = row.y;
        let ascent: i64 = t.ascent as i64;
        if row.current {
            out.push(Shape::Fill(at(52, y - 1, w - 52, lh), Ink::Color(0xfff3_f7ff)));
        }
        let ink = if row.line == self.cursor.0 { Ink::Text } else { Ink::Color(0xaa6b_717e) };
        out.push(Shape::Text(Font::Mono, 42 - number_w as i64, y + ascent, Label::Number(row.line), ink));
        out.push(Shape::Clip(at(52, 44, w - 52, h)));
        if let Some((from, to, on)) = row.selected {
            proof {
                let len = self@.lines[self@.top + i].len() as int;
                assert((len + 1) * t.m.cw <= i32::MAX);
                self.lemma_selected(self@.top + i);
                lemma_room(from as int, len + 1, t.m.cw as int);
                lemma_room(to + (if on { 1int } else { 0 }) - from, len + 1, t.m.cw as int);
            }
            let n: i64 = to as i64 + (if on { 1 } else { 0 }) - from as i64;
            let ink = if focused { Ink::Selection } else { Ink::Color(0xffe6_e8ec) };
            out.push(Shape::Fill(at(x + from as i64 * cw, y - 1, n * cw, lh), ink));
        }
        out.push(Shape::Text(Font::Mono, x, y + ascent, Label::Line(row.line), Ink::Text));
        if let Some(c) = row.caret {
            proof {
                let len = self@.lines[self@.top + i].len() as int;
                assert((len + 1) * t.m.cw <= i32::MAX);
                lemma_room(c as int, len + 1, t.m.cw as int);
            }
            out.push(Shape::Fill(at(x + c as i64 * cw, y - 1, 2, lh), Ink::Accent));
        }
        out.push(Shape::Unclip);
    }

    proof fn lemma_selected(&self, l: int)
        requires
            self@.wf(),
            0 <= l < self@.lines.len(),
            self@.selected_on(l) is Some,
        ensures
            ({
                let r = self@.selected_on(l)->0;
                0 <= r.0 <= r.1 + (if r.2 { 1int } else { 0 }) && r.1 <= self@.lines[l].len()
            }),
    {
    }

    /// Paints the window.
    pub fn draw(&self, t: &Type, focused: bool) -> (out: Vec<Shape<Label>>)
        requires
            self@.wf(),
            t.m.wf(),
            self@.drawable(t.m),
            t.number_w@.len() >= self@.drawn_rows(t.m),
        ensures
            out@ == editor_shapes(self@, *t, focused),
    {
        let (w, h) = (self.size.0 as i64, self.size.1 as i64 - 68);
        let mut out: Vec<Shape<Label>> = Vec::new();
        self.draw_tools(&mut out, t);
        out.push(Shape::Fill(at(0, 44, w, h), Ink::White));
        out.push(Shape::Fill(at(0, 44, 52, h), Ink::Color(0xfff6_f7f9)));
        out.push(Shape::VLine(51, 44, h, Ink::Separator));
        let ghost start = out@;
        let rows: Vec<Row> = self.rows(focused, &t.m);
        let mut i: usize = 0;
        while i < rows.len()
            invariant
                i <= rows@.len() == self@.drawn_rows(t.m),
                t.number_w@.len() >= rows@.len(),
                self@.wf(),
                t.m.wf(),
                self@.drawable(t.m),
                forall|k: int| 0 <= k < rows@.len() ==> (#[trigger] rows@[k]).shows(self@, k, focused, t.m),
                out@ == with_lines(start, self@, *t, focused, i as int),
            decreases rows@.len() - i,
        {
            proof {
                assert(rows@[i as int].shows(self@, i as int, focused, t.m));
                lemma_room(i as int, self@.lines.len() as int, t.m.lh as int);
            }
            self.draw_line(&mut out, t, focused, &rows[i], t.number_w[i], Ghost(i as int));
            i = i + 1;
        }
        proof {
            lemma_room(self@.lines.len() as int, self@.lines.len() as int, t.m.lh as int);
            lemma_room(self@.top, self@.top, t.m.lh as int);
        }
        let content: i64 = self.lines.len() as i64 * t.m.lh as i64 + 16;
        let offset: i64 = self.top as i64 * t.m.lh as i64;
        let track = Rect::new(self.size.0 - 11, 46, 9, self.size.1 - 72);
        draw_scrollbar(&mut out, track, content as i32, self.size.1 - 68, offset as i32);
        self.draw_foot(&mut out, t.rise);
        out
    }

    fn draw_foot(&self, out: &mut Vec<Shape<Label>>, rise: i32)
        ensures
            final(out)@ == with_foot(old(out)@, self@, rise as int),
    {
        let (w, y) = (self.size.0 as i64, self.size.1 as i64 - 24);
        let base: i64 = y + div(24 + rise as i64, 2);
        out.push(Shape::Fill(at(0, y, w, 24), Ink::Panel));
        out.push(Shape::HLine(0, y, w, Ink::Separator));
        match &self.message {
            Some((_, error, _)) => {
                let ink = if *error { Ink::Danger } else { Ink::AccentDark };
                out.push(Shape::Clipped(Font::Ui, 12, base, Label::Message, w - 24, ink));
            },
            None => {
                out.push(Shape::Clipped(Font::Ui, 12, base, Label::Status, w - 24, Ink::TextDim));
            },
        }
    }
}

} // verus!
