//! What the explorer's window shows.

use super::layout::{columns, place_area, place_rect, Columns, Hover, Pane, Tool};
use super::menu::{height_to, item_height, Action, ContextMenu, MenuState};
use super::window::Explorer;
use crate::arith::{clamp, div, max, max_i64, tdiv};
use crate::gui::geom::{Area, Rect};
use crate::gui::paint::{area, at, clipped, hline, near, text, Font, Ink, Shape};
use crate::gui::widgets::{button, draw_scrollbar, thumb_height, with_button, ButtonStyle};
use crate::text::is_str;
use vstd::prelude::*;

verus! {

/// The texts and icons of the window.
#[derive(Clone, Copy, PartialEq, Eq, Debug)]
pub enum Label {
    Name(&'static str),
    Crumb(usize),
    /// The name and the icon of a place.
    Place(usize),
    PlaceIcon(usize),
    /// How much of the disk is free.
    Free,
    /// What the list shows of an entry.
    EntryIcon(usize),
    EntryName(usize),
    EntrySize(usize),
    EntryTime(usize),
    EntryKind(usize),
    Message,
    Status,
    /// An item of the menu.
    Item(Action),
}

/// What the window shows besides its own state.
pub struct Surroundings {
    /// Ascent less descent of the plain, the bold and the small font.
    pub rise: i32,
    pub bold_rise: i32,
    pub small_rise: i32,
    pub crumbs: Vec<Area>,
    /// How many places there are, and which of them is shown.
    pub places: usize,
    pub here: Option<usize>,
    /// Bytes on the disk, and how many of them are free.
    pub disk: Option<(u64, u64)>,
}

impl Surroundings {
    pub open spec fn wf(self) -> bool {
        &&& self.places <= 5
        &&& forall|i: int|
            0 <= i < self.crumbs@.len() ==> near((#[trigger] self.crumbs@[i]).x as int) && near(self.crumbs@[i].y as int)
                && near(self.crumbs@[i].w as int) && near(self.crumbs@[i].h as int)
        &&& self.disk matches Some((total, free)) ==> free <= max(total as int, 1)
    }
}

// ---------------------------------------------------------------------
// Tool bar
// ---------------------------------------------------------------------

pub open spec fn with_tool(s: Seq<Shape<Label>>, p: Pane, t: Tool, sign: &'static str, enabled: bool, hover: Hover) -> Seq<
    Shape<Label>,
> {
    with_button(s, p.tool(t), Label::Name(sign), ButtonStyle::Flat, hover == Hover::Tool(t) && enabled, enabled)
}

/// The first `n` parts of the path.
pub open spec fn with_crumbs(s: Seq<Shape<Label>>, v: Surroundings, hover: Hover, n: int) -> Seq<Shape<Label>>
    decreases n,
{
    if n <= 0 {
        s
    } else {
        let i = n - 1;
        let r = v.crumbs@[i];
        let last = n == v.crumbs@.len();
        let base = r.y + tdiv(r.h + (if last { v.bold_rise } else { v.rise }), 2);
        let s = with_crumbs(s, v, hover, i);
        let s = if hover == Hover::Crumb(i as usize) { s.push(Shape::Rounded(r, 6, Ink::Color(0xffec_f2fe))) } else { s };
        let s = s.push(
            text(
                if last { Font::Bold } else { Font::Ui },
                r.x + 6,
                base,
                Label::Crumb(i as usize),
                if last { Ink::Text } else { Ink::TextDim },
            ),
        );
        if last {
            s
        } else {
            s.push(text(Font::Ui, r.x + r.w + 2, base, Label::Name("\u{203a}"), Ink::TextDim))
        }
    }
}

pub open spec fn with_toolbar(s: Seq<Shape<Label>>, e: Explorer, v: Surroundings) -> Seq<Shape<Label>> {
    let p = e.pane;
    let w = p.w as int;
    let s = s.push(Shape::Fill(area(0, 0, w, 50), Ink::Panel)).push(hline(0, 49, w, Ink::Separator));
    let s = with_tool(s, p, Tool::Back, "\u{25c0}", e.back@.len() > 0, e.hover);
    let s = with_tool(s, p, Tool::Forward, "\u{25b6}", e.forward@.len() > 0, e.hover);
    let s = with_tool(s, p, Tool::Up, "\u{25b2}", e.path@ != "/"@, e.hover);
    let bar = p.crumbs();
    let s = s.push(Shape::Rounded(bar, 8, Ink::White)).push(Shape::Outline(bar, 8, 1, Ink::Color(0x2300_0000))).push(
        Shape::Clip(area(bar.x + 2, bar.y + 2, bar.w - 4, bar.h - 4)),
    );
    let s = with_crumbs(s, v, e.hover, v.crumbs@.len() as int).push(Shape::Unclip);
    let s = with_button(
        s,
        p.tool(Tool::NewFolder),
        Label::Name("New Folder"),
        ButtonStyle::Normal,
        e.hover == Hover::Tool(Tool::NewFolder),
        true,
    );
    with_button(
        s,
        p.tool(Tool::NewFile),
        Label::Name("New File"),
        ButtonStyle::Primary,
        e.hover == Hover::Tool(Tool::NewFile),
        true,
    )
}

fn draw_crumbs(out: &mut Vec<Shape<Label>>, v: &Surroundings, hover: Hover)
    requires
        v.wf(),
    ensures
        final(out)@ == with_crumbs(old(out)@, *v, hover, v.crumbs@.len() as int),
{
    let n: usize = v.crumbs.len();
    let mut i: usize = 0;
    while i < n
        invariant
            i <= n == v.crumbs@.len(),
            v.wf(),
            out@ == with_crumbs(old(out)@, *v, hover, i as int),
        decreases n - i,
    {
        let r = v.crumbs[i];
        let last: bool = i + 1 == n;
        let rise: i32 = if last { v.bold_rise } else { v.rise };
        let base: i64 = r.y + div(r.h + rise as i64, 2);
        if hover == Hover::Crumb(i) {
            out.push(Shape::Rounded(r, 6, Ink::Color(0xffec_f2fe)));
        }
        let font = if last { Font::Bold } else { Font::Ui };
        let ink = if last { Ink::Text } else { Ink::TextDim };
        out.push(Shape::Text(font, r.x + 6, base, Label::Crumb(i), ink));
        if !last {
            out.push(Shape::Text(Font::Ui, r.x + r.w + 2, base, Label::Name("\u{203a}"), Ink::TextDim));
        }
        i = i + 1;
    }
}

// ---------------------------------------------------------------------
// Side bar
// ---------------------------------------------------------------------

/// The first `n` places.
pub open spec fn with_places(s: Seq<Shape<Label>>, v: Surroundings, hover: Hover, n: int) -> Seq<Shape<Label>>
    decreases n,
{
    if n <= 0 {
        s
    } else {
        let i = (n - 1) as usize;
        let r = place_area(n - 1);
        let here = v.here == Some(i);
        let s = with_places(s, v, hover, n - 1);
        let s = if here {
            s.push(Shape::Rounded(r, 7, Ink::Color(0x1600_0000)))
        } else if hover == Hover::Place(i) {
            s.push(Shape::Rounded(r, 7, Ink::Color(0x0c00_0000)))
        } else {
            s
        };
        s.push(Shape::Icon(Label::PlaceIcon(i), 16, (r.y + 4) as i64, 20)).push(
            text(
                if here { Font::Bold } else { Font::Ui },
                44,
                r.y + tdiv(28 + v.rise, 2),
                Label::Place(i),
                Ink::Text,
            ),
        )
    }
}

/// How much of the disk is used.
pub open spec fn with_disk(s: Seq<Shape<Label>>, h: int, disk: Option<(u64, u64)>) -> Seq<Shape<Label>> {
    match disk {
        Some((total, free)) => {
            let y = h - 74;
            let size = max(total as int, 1);
            s.push(text(Font::SmallBold, 18, y, Label::Name("DISK"), Ink::TextDim)).push(
                Shape::Rounded(area(18, y + 10, 140, 8), 4, Ink::Color(0x1e00_0000)),
            ).push(
                Shape::Rounded(
                    area(18, y + 10, max(140 * (size - free) / size, 8), 8),
                    4,
                    Ink::Color(0xff2f_7cf6),
                ),
            ).push(clipped(Font::Ui, 18, y + 38, Label::Free, 146, Ink::TextDim))
        },
        None => s,
    }
}

pub open spec fn with_sidebar(s: Seq<Shape<Label>>, e: Explorer, v: Surroundings) -> Seq<Shape<Label>> {
    let h = e.pane.h as int;
    with_disk(
        with_places(
            s.push(Shape::Fill(area(0, 50, 176, h - 50), Ink::Sidebar)).push(
                Shape::VLine(175, 50, (h - 50) as i64, Ink::Separator),
            ).push(text(Font::SmallBold, 18, 74, Label::Name("PLACES"), Ink::TextDim)),
            v,
            e.hover,
            v.places as int,
        ),
        h,
        v.disk,
    )
}

// ---------------------------------------------------------------------
// List
// ---------------------------------------------------------------------

pub open spec fn columns_of(p: Pane) -> Columns {
    let l = p.list();
    Columns {
        name: (l.x + 16) as i64,
        kind: if l.w > 620 { Some((l.x + l.w - 150) as i64) } else { None },
        modified: if l.w > 620 {
            Some((l.x + l.w - 300) as i64)
        } else if l.w > 480 {
            Some((l.x + l.w - 150) as i64)
        } else {
            None
        },
        size: if l.w > 620 {
            Some((l.x + l.w - 390) as i64)
        } else if l.w > 480 {
            Some((l.x + l.w - 240) as i64)
        } else if l.w > 330 {
            Some((l.x + l.w - 150) as i64)
        } else {
            None
        },
    }
}

pub open spec fn with_column(s: Seq<Shape<Label>>, x: Option<i64>, f: Font, base: int, l: Label, ink: Ink) -> Seq<
    Shape<Label>,
> {
    match x {
        Some(x) => s.push(text(f, x as int, base, l, ink)),
        None => s,
    }
}

pub open spec fn with_header(s: Seq<Shape<Label>>, p: Pane, small_rise: int) -> Seq<Shape<Label>> {
    let l = p.list();
    let c = columns_of(p);
    let base = l.y - 28 + tdiv(28 + small_rise, 2);
    let s = s.push(Shape::Fill(area(l.x as int, l.y - 28, l.w as int, l.h + 28), Ink::White)).push(
        text(Font::SmallBold, c.name + 28, base, Label::Name("NAME"), Ink::TextDim),
    );
    let s = with_column(s, c.size, Font::SmallBold, base, Label::Name("SIZE"), Ink::TextDim);
    let s = with_column(s, c.modified, Font::SmallBold, base, Label::Name("MODIFIED"), Ink::TextDim);
    let s = with_column(s, c.kind, Font::SmallBold, base, Label::Name("KIND"), Ink::TextDim);
    s.push(hline(l.x as int, l.y - 1, l.w as int, Ink::Separator))
}

/// The background of a row: selected, under the pointer, or every other row.
pub open spec fn row_ground(i: int, selected: bool, over: bool, focused: bool) -> Option<Ink> {
    if selected {
        Some(if focused { Ink::Color(0xff2f_7cf6) } else { Ink::Color(0x1e00_0000) })
    } else if over {
        Some(Ink::Color(0xffec_f2fe))
    } else if i % 2 == 1 {
        Some(Ink::Color(0xfff8_f9fb))
    } else {
        None
    }
}

pub open spec fn with_row(s: Seq<Shape<Label>>, e: Explorer, v: Surroundings, focused: bool, i: int) -> Seq<Shape<Label>> {
    let k = i as usize;
    let r = e.pane.row(i);
    let c = columns_of(e.pane);
    let selected = e.selected == Some(k);
    let base = r.y + tdiv(28 + v.rise, 2);
    let strong = if selected && focused { Ink::White } else { Ink::Text };
    let dim = if selected && focused { Ink::Color(0xd2ff_ffff) } else { Ink::TextDim };
    let s = match row_ground(i, selected, e.hover == Hover::Row(k), focused) {
        Some(ink) => s.push(Shape::Rounded(r, 7, ink)),
        None => s,
    };
    let right = match c.size {
        Some(x) => x as int,
        None => r.x + r.w - 10,
    };
    let s = s.push(Shape::Icon(Label::EntryIcon(k), (c.name - 4) as i64, (r.y + 3) as i64, 22)).push(
        clipped(Font::Ui, c.name + 28, base, Label::EntryName(k), right - c.name - 40, strong),
    );
    let s = with_column(s, c.size, Font::Ui, base, Label::EntrySize(k), dim);
    let s = with_column(s, c.modified, Font::Ui, base, Label::EntryTime(k), dim);
    match c.kind {
        Some(x) => s.push(clipped(Font::Ui, x as int, base, Label::EntryKind(k), 140, dim)),
        None => s,
    }
}

/// The rows from `first` on, up to `n`.
pub open spec fn with_list_rows(s: Seq<Shape<Label>>, e: Explorer, v: Surroundings, focused: bool, first: int, n: int) -> Seq<
    Shape<Label>,
>
    decreases n - first,
{
    if n <= first {
        s
    } else {
        with_row(with_list_rows(s, e, v, focused, first, n - 1), e, v, focused, n - 1)
    }
}

/// The first row that can be seen, and the one after the last.
pub open spec fn rows_in_sight(p: Pane) -> (int, int) {
    let first = p.scroll as int / 28;
    (first, crate::arith::min(first + p.list().h as int / 28 + 2, p.count as int))
}

pub open spec fn with_bar(s: Seq<Shape<Label>>, p: Pane) -> Seq<Shape<Label>> {
    let (t, content, h) = (p.track(), p.content(), p.list().h as int);
    if content > h && t.h > 0 {
        let th = thumb_height(t.h as int, content, h);
        let y = t.y + (t.h - th) * clamp(p.scroll as int, 0, content - h) / (content - h);
        s.push(Shape::Rounded(area(t.x + 2, y + 2, t.w - 4, th - 4), 3, Ink::Color(0x4600_0000)))
    } else {
        s
    }
}

pub open spec fn with_list(s: Seq<Shape<Label>>, e: Explorer, v: Surroundings, focused: bool) -> Seq<Shape<Label>> {
    let p = e.pane;
    let l = p.list();
    let s = with_header(s, p, v.small_rise as int).push(Shape::Clip(l));
    let s = if p.count == 0 {
        s.push(
            Shape::Centered(
                Font::Ui,
                area(l.x as int, l.y + 40, l.w as int, 30),
                Label::Name("This folder is empty"),
                Ink::TextDim,
            ),
        ).push(
            Shape::Centered(
                Font::Ui,
                area(l.x as int, l.y + 64, l.w as int, 30),
                Label::Name("Right-click to create a file or folder"),
                Ink::Color(0xa06b_717e),
            ),
        )
    } else {
        s
    };
    let (first, end) = rows_in_sight(p);
    with_bar(with_list_rows(s, e, v, focused, first, end), p).push(Shape::Unclip)
}

/// Every row of which a part can be seen is among those painted.
pub proof fn lemma_rows_in_sight(p: Pane, i: int)
    requires
        p.wf(),
        p.h >= 104,
        0 <= p.scroll,
        0 <= i < p.count,
        p.row(i).y + 28 > p.list().y + 4,
        p.row(i).y < p.list().y + p.list().h,
    ensures
        rows_in_sight(p).0 <= i < rows_in_sight(p).1,
{
}

fn draw_column(out: &mut Vec<Shape<Label>>, x: Option<i64>, f: Font, base: i64, l: Label, ink: Ink)
    ensures
        final(out)@ == with_column(old(out)@, x, f, base as int, l, ink),
{
    if let Some(x) = x {
        out.push(Shape::Text(f, x, base, l, ink));
    }
}

// ---------------------------------------------------------------------
// Status line and menu
// ---------------------------------------------------------------------

pub open spec fn with_status(s: Seq<Shape<Label>>, e: Explorer, v: Surroundings) -> Seq<Shape<Label>> {
    let (w, h) = (e.pane.w as int, e.pane.h as int);
    let base = h - 26 + tdiv(26 + v.rise, 2);
    let s = s.push(Shape::Fill(area(176, h - 26, w - 176, 26), Ink::Panel)).push(
        hline(176, h - 26, w - 176, Ink::Separator),
    );
    match e.message {
        Some((_, error, _)) => s.push(
            clipped(
                Font::Ui,
                192,
                base,
                Label::Message,
                w - 208,
                if error { Ink::Danger } else { Ink::Color(0xff1f_63d6) },
            ),
        ),
        None => s.push(clipped(Font::Ui, 192, base, Label::Status, w - 208, Ink::TextDim)),
    }
}

/// The first `n` items of the menu, whose first row is at `top`.
pub open spec fn with_items(
    s: Seq<Shape<Label>>,
    m: MenuState,
    x: int,
    top: int,
    rise: int,
    hover: Hover,
    n: int,
) -> Seq<Shape<Label>>
    decreases n,
{
    if n <= 0 {
        s
    } else {
        let i = n - 1;
        let y = top + height_to(m.items, i);
        let s = with_items(s, m, x, top, rise, hover, i);
        match m.items[i] {
            Some(a) => {
                let over = hover == Hover::Menu(i as usize);
                let strong = if a == Action::Delete { Ink::Danger } else { Ink::Color(0xff2f_7cf6) };
                let s = if over { s.push(Shape::Rounded(area(x + 5, y, 180, 26), 6, strong)) } else { s };
                s.push(
                    text(
                        Font::Ui,
                        x + 17,
                        y + tdiv(26 + rise, 2),
                        Label::Item(a),
                        if over {
                            Ink::White
                        } else if a == Action::Delete {
                            Ink::Danger
                        } else {
                            Ink::Text
                        },
                    ),
                )
            },
            None => s.push(hline(x + 10, y + 4, 170, Ink::Separator)),
        }
    }
}

pub open spec fn with_context_menu(s: Seq<Shape<Label>>, m: MenuState, bounds: (i32, i32), rise: int, hover: Hover) -> Seq<
    Shape<Label>,
> {
    let r = m.area(bounds);
    with_items(
        s.push(Shape::Shadow(r, 9, 14, Ink::Color(0x4600_0000))).push(
            Shape::Rounded(r, 9, Ink::Color(0xfffb_fbfd)),
        ).push(Shape::Outline(r, 9, 1, Ink::Color(0x2800_0000))),
        m,
        r.x as int,
        r.y + 5,
        rise,
        hover,
        m.items.len() as int,
    )
}

pub open spec fn menu_shapes(s: Seq<Shape<Label>>, e: Explorer, v: Surroundings) -> Seq<Shape<Label>> {
    match e.menu {
        Some(m) => with_context_menu(s, m@, (e.pane.w, e.pane.h), v.rise as int, e.hover),
        None => s,
    }
}

impl Explorer {
    fn draw_toolbar(&self, out: &mut Vec<Shape<Label>>, v: &Surroundings)
        requires
            v.wf(),
        ensures
            final(out)@ == with_toolbar(old(out)@, *self, *v),
    {
        let p = self.pane;
        let w: i64 = p.w as i64;
        out.push(Shape::Fill(at(0, 0, w, 50), Ink::Panel));
        out.push(Shape::HLine(0, 49, w, Ink::Separator));
        let on: bool = self.back.len() > 0;
        let over: bool = self.hover == Hover::Tool(Tool::Back) && on;
        button(out, p.tool_rect(Tool::Back), Label::Name("\u{25c0}"), ButtonStyle::Flat, over, on);
        let on: bool = self.forward.len() > 0;
        let over: bool = self.hover == Hover::Tool(Tool::Forward) && on;
        button(out, p.tool_rect(Tool::Forward), Label::Name("\u{25b6}"), ButtonStyle::Flat, over, on);
        let on: bool = !is_str(&self.path, "/");
        let over: bool = self.hover == Hover::Tool(Tool::Up) && on;
        button(out, p.tool_rect(Tool::Up), Label::Name("\u{25b2}"), ButtonStyle::Flat, over, on);
        let bar = p.crumb_area();
        out.push(Shape::Rounded(bar, 8, Ink::White));
        out.push(Shape::Outline(bar, 8, 1, Ink::Color(0x2300_0000)));
        out.push(Shape::Clip(at(bar.x + 2, bar.y + 2, bar.w - 4, bar.h - 4)));
        draw_crumbs(out, v, self.hover);
        out.push(Shape::Unclip);
        let over: bool = self.hover == Hover::Tool(Tool::NewFolder);
        button(out, p.tool_rect(Tool::NewFolder), Label::Name("New Folder"), ButtonStyle::Normal, over, true);
        let over: bool = self.hover == Hover::Tool(Tool::NewFile);
        button(out, p.tool_rect(Tool::NewFile), Label::Name("New File"), ButtonStyle::Primary, over, true);
    }

    fn draw_sidebar(&self, out: &mut Vec<Shape<Label>>, v: &Surroundings)
        requires
            v.wf(),
        ensures
            final(out)@ == with_sidebar(old(out)@, *self, *v),
    {
        let h: i64 = self.pane.h as i64;
        out.push(Shape::Fill(at(0, 50, 176, h - 50), Ink::Sidebar));
        out.push(Shape::VLine(175, 50, h - 50, Ink::Separator));
        out.push(Shape::Text(Font::SmallBold, 18, 74, Label::Name("PLACES"), Ink::TextDim));
        let ghost start = out@;
        let mut i: usize = 0;
        while i < v.places
            invariant
                i <= v.places <= 5,
                out@ == with_places(start, *v, self.hover, i as int),
            decreases v.places - i,
        {
            let r = place_rect(i);
            let here: bool = match v.here {
                Some(k) => k == i,
                None => false,
            };
            if here {
                out.push(Shape::Rounded(r, 7, Ink::Color(0x1600_0000)));
            } else if self.hover == Hover::Place(i) {
                out.push(Shape::Rounded(r, 7, Ink::Color(0x0c00_0000)));
            }
            out.push(Shape::Icon(Label::PlaceIcon(i), 16, r.y + 4, 20));
            let font = if here { Font::Bold } else { Font::Ui };
            out.push(Shape::Text(font, 44, r.y + div(28 + v.rise as i64, 2), Label::Place(i), Ink::Text));
            i = i + 1;
        }
        if let Some((total, free)) = v.disk {
            let y: i64 = h - 74;
            let size: u64 = if total > 1 { total } else { 1 };
            let used: u64 = size - free;
            proof {
                let (a, b) = (used as int, size as int);
                assert(0 <= 140 * a / b <= 140) by (nonlinear_arith)
                    requires
                        0 <= a <= b,
                        1 <= b,
                ;
            }
            let part: u128 = 140 * used as u128 / size as u128;
            out.push(Shape::Text(Font::SmallBold, 18, y, Label::Name("DISK"), Ink::TextDim));
            out.push(Shape::Rounded(at(18, y + 10, 140, 8), 4, Ink::Color(0x1e00_0000)));
            out.push(Shape::Rounded(at(18, y + 10, max_i64(part as i64, 8), 8), 4, Ink::Color(0xff2f_7cf6)));
            out.push(Shape::Clipped(Font::Ui, 18, y + 38, Label::Free, 146, Ink::TextDim));
        }
    }

    fn draw_row(&self, out: &mut Vec<Shape<Label>>, v: &Surroundings, focused: bool, i: usize)
        requires
            self.pane.wf(),
            i < self.pane.count,
        ensures
            final(out)@ == with_row(old(out)@, *self, *v, focused, i as int),
    {
        let r = self.pane.row_rect(i);
        let c = columns(&self.pane);
        assert(c == columns_of(self.pane));
        let selected: bool = match self.selected {
            Some(k) => k == i,
            None => false,
        };
        let base: i64 = r.y + div(28 + v.rise as i64, 2);
        let strong = if selected && focused { Ink::White } else { Ink::Text };
        let dim = if selected && focused { Ink::Color(0xd2ff_ffff) } else { Ink::TextDim };
        if selected {
            let ink = if focused { Ink::Color(0xff2f_7cf6) } else { Ink::Color(0x1e00_0000) };
            out.push(Shape::Rounded(r, 7, ink));
        } else if self.hover == Hover::Row(i) {
            out.push(Shape::Rounded(r, 7, Ink::Color(0xffec_f2fe)));
        } else if i % 2 == 1 {
            out.push(Shape::Rounded(r, 7, Ink::Color(0xfff8_f9fb)));
        }
        let right: i64 = match c.size {
            Some(x) => x,
            None => r.x + r.w - 10,
        };
        out.push(Shape::Icon(Label::EntryIcon(i), c.name - 4, r.y + 3, 22));
        out.push(Shape::Clipped(Font::Ui, c.name + 28, base, Label::EntryName(i), right - c.name - 40, strong));
        draw_column(out, c.size, Font::Ui, base, Label::EntrySize(i), dim);
        draw_column(out, c.modified, Font::Ui, base, Label::EntryTime(i), dim);
        if let Some(x) = c.kind {
            out.push(Shape::Clipped(Font::Ui, x, base, Label::EntryKind(i), 140, dim));
        }
    }

    fn draw_header(&self, out: &mut Vec<Shape<Label>>, small_rise: i32)
        ensures
            final(out)@ == with_header(old(out)@, self.pane, small_rise as int),
    {
        let l = self.pane.list_rect();
        let c = columns(&self.pane);
        assert(c == columns_of(self.pane));
        let base: i64 = l.y - 28 + div(28 + small_rise as i64, 2);
        out.push(Shape::Fill(at(l.x, l.y - 28, l.w, l.h + 28), Ink::White));
        out.push(Shape::Text(Font::SmallBold, c.name + 28, base, Label::Name("NAME"), Ink::TextDim));
        draw_column(out, c.size, Font::SmallBold, base, Label::Name("SIZE"), Ink::TextDim);
        draw_column(out, c.modified, Font::SmallBold, base, Label::Name("MODIFIED"), Ink::TextDim);
        draw_column(out, c.kind, Font::SmallBold, base, Label::Name("KIND"), Ink::TextDim);
        out.push(Shape::HLine(l.x, l.y - 1, l.w, Ink::Separator));
    }

    fn draw_list(&self, out: &mut Vec<Shape<Label>>, v: &Surroundings, focused: bool)
        requires
            self.pane.wf(),
            self.pane.h >= 104,
            self.pane.w >= 12,
            0 <= self.pane.scroll <= i32::MAX,
        ensures
            final(out)@ == with_list(old(out)@, *self, *v, focused),
    {
        let p = self.pane;
        let l = p.list_rect();
        self.draw_header(out, v.small_rise);
        out.push(Shape::Clip(l));
        if p.count == 0 {
            let r = at(l.x, l.y + 40, l.w, 30);
            out.push(Shape::Centered(Font::Ui, r, Label::Name("This folder is empty"), Ink::TextDim));
            let r = at(l.x, l.y + 64, l.w, 30);
            let help = Label::Name("Right-click to create a file or folder");
            out.push(Shape::Centered(Font::Ui, r, help, Ink::Color(0xa06b_717e)));
        }
        let ghost start = out@;
        let first: i64 = p.scroll / 28;
        let end: i64 = crate::arith::min_i64(first + l.h / 28 + 2, p.count as i64);
        let mut i: i64 = first;
        assert(out@ == with_list_rows(start, *self, *v, focused, first as int, i as int));
        while i < end
            invariant
                self.pane.wf(),
                0 <= first <= i,
                end <= self.pane.count,
                i <= end || i == first,
                out@ == with_list_rows(start, *self, *v, focused, first as int, i as int),
            decreases end - i,
        {
            self.draw_row(out, v, focused, i as usize);
            i = i + 1;
        }
        assert(with_list_rows(start, *self, *v, focused, first as int, end as int) == out@);
        let t = p.scrollbar_track();
        let track = Rect::new(t.x as i32, t.y as i32, t.w as i32, t.h as i32);
        draw_scrollbar(out, track, p.content_height() as i32, l.h as i32, p.scroll as i32);
        out.push(Shape::Unclip);
    }

    fn draw_status(&self, out: &mut Vec<Shape<Label>>, v: &Surroundings)
        ensures
            final(out)@ == with_status(old(out)@, *self, *v),
    {
        let (w, h) = (self.pane.w as i64, self.pane.h as i64);
        out.push(Shape::Fill(at(176, h - 26, w - 176, 26), Ink::Panel));
        out.push(Shape::HLine(176, h - 26, w - 176, Ink::Separator));
        let base: i64 = h - 26 + div(26 + v.rise as i64, 2);
        match &self.message {
            Some((_, error, _)) => {
                let ink = if *error { Ink::Danger } else { Ink::Color(0xff1f_63d6) };
                out.push(Shape::Clipped(Font::Ui, 192, base, Label::Message, w - 208, ink));
            },
            None => {
                out.push(Shape::Clipped(Font::Ui, 192, base, Label::Status, w - 208, Ink::TextDim));
            },
        }
    }

    /// Paints the window.
    pub fn draw(&self, v: &Surroundings) -> (out: Vec<Shape<Label>>)
        requires
            self@.wf(),
            v.wf(),
            self.pane.h >= 104,
            self.pane.w >= 12,
            0 <= self.pane.scroll <= i32::MAX,
        ensures
            out@ == ({
                let s = with_sidebar(with_toolbar(Seq::empty(), *self, *v), *self, *v);
                menu_shapes(with_status(with_list(s, *self, *v, self.focused), *self, *v), *self, *v)
            }),
    {
        let mut out: Vec<Shape<Label>> = Vec::new();
        self.draw_toolbar(&mut out, v);
        self.draw_sidebar(&mut out, v);
        self.draw_list(&mut out, v, self.focused);
        self.draw_status(&mut out, v);
        if let Some(m) = &self.menu {
            draw_menu(&mut out, m, (self.pane.w, self.pane.h), v.rise, self.hover);
        }
        out
    }
}

fn draw_menu(out: &mut Vec<Shape<Label>>, m: &ContextMenu, bounds: (i32, i32), rise: i32, hover: Hover)
    requires
        m@.items.len() <= 100,
    ensures
        final(out)@ == with_context_menu(old(out)@, m@, bounds, rise as int, hover),
{
    let r = m.rect(bounds);
    out.push(Shape::Shadow(r, 9, 14, Ink::Color(0x4600_0000)));
    out.push(Shape::Rounded(r, 9, Ink::Color(0xfffb_fbfd)));
    out.push(Shape::Outline(r, 9, 1, Ink::Color(0x2800_0000)));
    let ghost start = out@;
    let top: i64 = r.y + 5;
    let mut y: i64 = top;
    let n: usize = m.items.len();
    let mut i: usize = 0;
    while i < n
        invariant
            i <= n == m@.items.len(),
            n <= 100,
            r.small(),
            top == r.y + 5,
            m@.items == m.items@,
            y == top + height_to(m@.items, i as int),
            0 <= height_to(m@.items, i as int) <= 26 * i,
            out@ == with_items(start, m@, r.x as int, top as int, rise as int, hover, i as int),
        decreases n - i,
    {
        assert(height_to(m@.items, i + 1) == height_to(m@.items, i as int) + item_height(m@.items[i as int]));
        match m.items[i] {
            Some(a) => {
                let over: bool = hover == Hover::Menu(i);
                if over {
                    let strong = if a == Action::Delete { Ink::Danger } else { Ink::Color(0xff2f_7cf6) };
                    out.push(Shape::Rounded(at(r.x + 5, y, 180, 26), 6, strong));
                }
                let ink = if over {
                    Ink::White
                } else if a == Action::Delete {
                    Ink::Danger
                } else {
                    Ink::Text
                };
                out.push(Shape::Text(Font::Ui, r.x + 17, y + div(26 + rise as i64, 2), Label::Item(a), ink));
                y = y + 26;
            },
            None => {
                out.push(Shape::HLine(r.x + 10, y + 4, 170, Ink::Separator));
                y = y + 9;
            },
        }
        i = i + 1;
    }
}

} // verus!
