//! What the browser's window shows.

use super::window::{Browser, BrowserState, Tab};
use crate::arith::{clamp, max, max_i64, min, min_i64, tdiv};
use crate::gui::geom::{Area, Rect};
use crate::gui::paint::{area, at, clipped, hline, text, Font, Ink, Shape};
use crate::gui::widgets::{button, draw_scrollbar, thumb_height, with_button, with_field, ButtonStyle};
use vstd::prelude::*;

verus! {

/// The texts and pictures of the window.
#[derive(Clone, Copy, PartialEq, Eq, Debug)]
pub enum Label {
    Name(&'static str),
    /// The text or the picture of an item of the page.
    Item(usize),
    Error,
    Address,
    Status,
}

/// A thing on a laid out page, in page coordinates.
#[derive(Clone, Copy, PartialEq, Eq, Debug, Structural)]
pub enum Item {
    Rect { x: i32, y: i32, w: i32, h: i32, color: u32 },
    /// A run of text: its baseline below `y`, the metrics of its font, and how
    /// wide it is.
    Text {
        x: i32,
        y: i32,
        base: i32,
        line_height: i32,
        ascent: i32,
        width: i32,
        font: FontSpec,
        color: u32,
        underline: bool,
        strike: bool,
    },
    /// A picture, and whether it is there.
    Image { x: i32, y: i32, w: i32, h: i32, found: bool },
}

/// What a page asks for: a size in pixels, and a style.
#[derive(Clone, Copy, PartialEq, Eq, Debug, Structural)]
pub struct FontSpec {
    pub size: u16,
    pub bold: bool,
    pub mono: bool,
}

/// The font that comes nearest to what a page asks for.
pub open spec fn font_for(f: FontSpec) -> Font {
    if f.mono {
        Font::Mono
    } else if f.size >= 21 {
        Font::Large
    } else if f.bold || f.size >= 18 {
        Font::Bold
    } else if f.size <= 11 {
        Font::SmallBold
    } else {
        Font::Ui
    }
}

pub fn pick_font(f: FontSpec) -> (r: Font)
    ensures
        r == font_for(f),
{
    if f.mono {
        Font::Mono
    } else if f.size >= 21 {
        Font::Large
    } else if f.bold || f.size >= 18 {
        Font::Bold
    } else if f.size <= 11 {
        Font::SmallBold
    } else {
        Font::Ui
    }
}

/// What the window shows besides its own state.
pub struct Sight {
    /// The page: its background, if it has one, and its items.
    pub background: Option<u32>,
    pub items: Vec<Item>,
    /// Ascent less descent of the font.
    pub rise: i32,
    /// Where the caret of the address is.
    pub caret_x: i32,
    pub now: u64,
}

/// Whether something that reaches from `y` down to `end` is near what can be
/// seen.
pub open spec fn in_sight(scroll: int, h: int, y: int, end: int) -> bool {
    !(end < scroll - 64 || y > scroll + h + 64)
}

/// An item painted with the page scrolled by `scroll` in the area `r`.
pub open spec fn with_item(s: Seq<Shape<Label>>, it: Item, i: int, r: Area, scroll: int) -> Seq<Shape<Label>> {
    match it {
        Item::Rect { x, y, w, h, color } => if !in_sight(scroll, r.h as int, y as int, y + h) || color < 0x100_0000 {
            s
        } else {
            s.push(Shape::Fill(area(r.x + x, r.y + y - scroll, w as int, h as int), Ink::Color(color)))
        },
        Item::Text { x, y, base, line_height, ascent, width, font, color, underline, strike } => if !in_sight(
            scroll,
            r.h as int,
            y as int,
            y + 60,
        ) {
            s
        } else {
            let baseline = r.y + y - scroll + base - line_height + ascent;
            let ink = Ink::Color(if color < 0x100_0000 { 0xff00_0000 } else { color });
            let left = r.x + x;
            let w = max(width as int, 1);
            let s = s.push(text(font_for(font), left, baseline, Label::Item(i as usize), ink));
            let s = if underline { s.push(Shape::Fill(area(left, baseline + 2, w, 1), ink)) } else { s };
            if strike {
                s.push(Shape::Fill(area(left, baseline - tdiv(ascent as int, 3), w, 1), ink))
            } else {
                s
            }
        },
        Item::Image { x, y, w, h, found } => if !in_sight(scroll, r.h as int, y as int, y + h) {
            s
        } else {
            let dst = area(r.x + x, r.y + y - scroll, w as int, h as int);
            if found {
                s.push(Shape::Picture(Label::Item(i as usize), dst, 255, 0))
            } else {
                s.push(Shape::Fill(dst, Ink::Color(0xffe8_ebf0)))
            }
        },
    }
}

/// The first `n` items.
pub open spec fn with_page_items(s: Seq<Shape<Label>>, items: Seq<Item>, r: Area, scroll: int, n: int) -> Seq<Shape<Label>>
    decreases n,
{
    if n <= 0 {
        s
    } else {
        with_item(with_page_items(s, items, r, scroll, n - 1), items[n - 1], n - 1, r, scroll)
    }
}

pub open spec fn with_page(s: Seq<Shape<Label>>, t: Tab, v: Sight) -> Seq<Shape<Label>> {
    let r = t.content();
    match t.height {
        None => s,
        Some(height) => {
            let ink = match v.background {
                Some(b) => Ink::Color((0xff00_0000 + b % 0x100_0000) as u32),
                None => Ink::White,
            };
            let s = s.push(Shape::Fill(area(r.x as int, r.y as int, r.w + 12, r.h as int), ink)).push(Shape::Clip(r));
            let s = with_page_items(s, v.items@, r, t.scroll as int, v.items@.len() as int).push(Shape::Unclip);
            if height > r.h && r.h > 0 {
                let th = thumb_height(r.h as int, height as int, r.h as int);
                let y = r.y + (r.h - th) * clamp(t.scroll as int, 0, height - r.h) / (height - r.h);
                s.push(Shape::Rounded(area(r.x + r.w + 2, y + 2, 8, th - 4), 3, Ink::Color(0x4600_0000)))
            } else {
                s
            }
        },
    }
}

fn draw_item(out: &mut Vec<Shape<Label>>, it: Item, i: usize, r: Area, scroll: i64)
    requires
        r.small(),
        0 <= scroll <= 0x2_0000_0000,
    ensures
        final(out)@ == with_item(old(out)@, it, i as int, r, scroll as int),
{
    let (top, bottom) = (scroll - 64, scroll + r.h + 64);
    match it {
        Item::Rect { x, y, w, h, color } => {
            if (y as i64 + h as i64) < top || y as i64 > bottom || color < 0x100_0000 {
                return;
            }
            let a = at(r.x + x as i64, r.y + y as i64 - scroll, w as i64, h as i64);
            out.push(Shape::Fill(a, Ink::Color(color)));
        },
        Item::Text { x, y, base, line_height, ascent, width, font, color, underline, strike } => {
            if (y as i64 + 60) < top || y as i64 > bottom {
                return;
            }
            let baseline: i64 = r.y + y as i64 - scroll + base as i64 - line_height as i64 + ascent as i64;
            let ink = Ink::Color(if color < 0x100_0000 { 0xff00_0000 } else { color });
            let left: i64 = r.x + x as i64;
            let w: i64 = max_i64(width as i64, 1);
            out.push(Shape::Text(pick_font(font), left, baseline, Label::Item(i), ink));
            if underline {
                out.push(Shape::Fill(at(left, baseline + 2, w, 1), ink));
            }
            if strike {
                out.push(Shape::Fill(at(left, baseline - crate::arith::div(ascent as i64, 3), w, 1), ink));
            }
        },
        Item::Image { x, y, w, h, found } => {
            if (y as i64 + h as i64) < top || y as i64 > bottom {
                return;
            }
            let dst = at(r.x + x as i64, r.y + y as i64 - scroll, w as i64, h as i64);
            if found {
                out.push(Shape::Picture(Label::Item(i), dst, 255, 0));
            } else {
                out.push(Shape::Fill(dst, Ink::Color(0xffe8_ebf0)));
            }
        },
    }
}

impl Tab {
    /// Paints the page.
    pub fn paint_page(&self, out: &mut Vec<Shape<Label>>, v: &Sight)
        requires
            self.wf(),
            self.size.0 >= 12,
            self.size.1 >= 68,
            self.scroll <= i32::MAX,
        ensures
            final(out)@ == with_page(old(out)@, *self, *v),
    {
        let r = self.content_rect();
        let height: i32 = match self.height {
            Some(h) => h,
            None => {
                return;
            },
        };
        let ink = match v.background {
            Some(b) => Ink::Color(0xff00_0000 + b % 0x100_0000),
            None => Ink::White,
        };
        out.push(Shape::Fill(at(r.x, r.y, r.w + 12, r.h), ink));
        out.push(Shape::Clip(r));
        let ghost start = out@;
        let n: usize = v.items.len();
        let mut i: usize = 0;
        while i < n
            invariant
                i <= n == v.items@.len(),
                r.small(),
                self.wf(),
                out@ == with_page_items(start, v.items@, r, self.scroll as int, i as int),
            decreases n - i,
        {
            draw_item(out, v.items[i], i, r, self.scroll);
            i = i + 1;
        }
        out.push(Shape::Unclip);
        let track = Rect::new(self.size.0 - 12, 46, 12, self.size.1 - 68);
        draw_scrollbar(out, track, height, self.size.1 - 68, self.scroll as i32);
    }
}

// ---------------------------------------------------------------------
// Tool bar
// ---------------------------------------------------------------------

/// The first `n` steps of the cross that stops loading.
pub open spec fn with_stop(s: Seq<Shape<Label>>, n: int) -> Seq<Shape<Label>>
    decreases n,
{
    if n <= 0 {
        s
    } else {
        let d = n - 5;
        with_stop(s, n - 1).push(Shape::Fill(area(87 + d, 23 + d, 2, 2), Ink::Text)).push(
            Shape::Fill(area(87 + d, 23 - d, 2, 2), Ink::Text),
        )
    }
}

/// The first `n` steps of the head of the reload arrow.
pub open spec fn with_head(s: Seq<Shape<Label>>, n: int) -> Seq<Shape<Label>>
    decreases n,
{
    if n <= 0 {
        s
    } else {
        let k = n - 1;
        with_head(s, k).push(Shape::Fill(area(88 + k, 16 + k, 4 - k, 1), Ink::Text)).push(
            Shape::Fill(area(91, 16, 1, 4), Ink::Text),
        )
    }
}

/// The first `n` lines of the roof of the home sign.
pub open spec fn with_roof(s: Seq<Shape<Label>>, n: int) -> Seq<Shape<Label>>
    decreases n,
{
    if n <= 0 {
        s
    } else {
        let k = n - 1;
        with_roof(s, k).push(Shape::Fill(area(119 - k, 17 + k, 2 * k + 1, 1), Ink::Text))
    }
}

pub open spec fn with_signs(s: Seq<Shape<Label>>, loading: bool) -> Seq<Shape<Label>> {
    let s = if loading {
        with_stop(s, 9)
    } else {
        with_head(
            s.push(Shape::Outline(area(81, 17, 13, 13), 6, 2, Ink::Text)).push(
                Shape::Fill(area(88, 15, 7, 7), Ink::Panel),
            ),
            4,
        )
    };
    with_roof(s, 6).push(Shape::Fill(area(114, 23, 11, 7), Ink::Text)).push(
        Shape::Fill(area(118, 26, 3, 4), Ink::Panel),
    )
}

pub open spec fn with_bar(s: Seq<Shape<Label>>, b: BrowserState, can_back: bool, can_forward: bool) -> Seq<Shape<Label>> {
    let w = b.tab.size.0 as int;
    let h = b.tab.hover_btn;
    let s = s.push(Shape::Fill(area(0, 0, w, 46), Ink::Panel)).push(hline(0, 45, w, Ink::Separator));
    let s = with_button(s, Tab::btn_area(0), Label::Name("\u{25c0}"), ButtonStyle::Flat, h == Some(0u8), can_back);
    let s = with_button(s, Tab::btn_area(1), Label::Name("\u{25b6}"), ButtonStyle::Flat, h == Some(1u8), can_forward);
    let s = with_button(s, Tab::btn_area(2), Label::Name(""), ButtonStyle::Flat, h == Some(2u8), true);
    let s = with_button(s, Tab::btn_area(3), Label::Name(""), ButtonStyle::Flat, h == Some(3u8), true);
    with_signs(s, b.tab.loading)
}

fn is_nth(o: Option<u8>, i: u8) -> (r: bool)
    ensures
        r == (o == Some(i)),
{
    match o {
        Some(k) => k == i,
        None => false,
    }
}

fn draw_signs(out: &mut Vec<Shape<Label>>, loading: bool)
    ensures
        final(out)@ == with_signs(old(out)@, loading),
{
    if loading {
        let mut n: i64 = 0;
        while n < 9
            invariant
                0 <= n <= 9,
                out@ == with_stop(old(out)@, n as int),
            decreases 9 - n,
        {
            let d: i64 = n - 4;
            out.push(Shape::Fill(at(87 + d, 23 + d, 2, 2), Ink::Text));
            out.push(Shape::Fill(at(87 + d, 23 - d, 2, 2), Ink::Text));
            n = n + 1;
        }
    } else {
        out.push(Shape::Outline(at(81, 17, 13, 13), 6, 2, Ink::Text));
        out.push(Shape::Fill(at(88, 15, 7, 7), Ink::Panel));
        let ghost start = out@;
        let mut k: i64 = 0;
        while k < 4
            invariant
                0 <= k <= 4,
                out@ == with_head(start, k as int),
            decreases 4 - k,
        {
            out.push(Shape::Fill(at(88 + k, 16 + k, 4 - k, 1), Ink::Text));
            out.push(Shape::Fill(at(91, 16, 1, 4), Ink::Text));
            k = k + 1;
        }
    }
    let ghost start = out@;
    let mut k: i64 = 0;
    while k < 6
        invariant
            0 <= k <= 6,
            out@ == with_roof(start, k as int),
        decreases 6 - k,
    {
        out.push(Shape::Fill(at(119 - k, 17 + k, 2 * k + 1, 1), Ink::Text));
        k = k + 1;
    }
    out.push(Shape::Fill(at(114, 23, 11, 7), Ink::Text));
    out.push(Shape::Fill(at(118, 26, 3, 4), Ink::Panel));
}

fn draw_bar(out: &mut Vec<Shape<Label>>, t: &Tab, can_back: bool, can_forward: bool)
    ensures
        forall|b: BrowserState|
            b.tab == *t ==> final(out)@ == #[trigger] with_bar(old(out)@, b, can_back, can_forward),
{
    let w: i64 = t.size.0 as i64;
    let h = t.hover_btn;
    out.push(Shape::Fill(at(0, 0, w, 46), Ink::Panel));
    out.push(Shape::HLine(0, 45, w, Ink::Separator));
    button(out, Tab::btn_rect(0), Label::Name("\u{25c0}"), ButtonStyle::Flat, is_nth(h, 0), can_back);
    button(out, Tab::btn_rect(1), Label::Name("\u{25b6}"), ButtonStyle::Flat, is_nth(h, 1), can_forward);
    button(out, Tab::btn_rect(2), Label::Name(""), ButtonStyle::Flat, is_nth(h, 2), true);
    button(out, Tab::btn_rect(3), Label::Name(""), ButtonStyle::Flat, is_nth(h, 3), true);
    draw_signs(out, t.loading);
}

/// What is scrolled away of the address so that its caret shows.
pub open spec fn address_scroll(scroll: int, caret_x: int, width: int) -> int {
    let a = if caret_x - scroll > width - 2 { caret_x - width + 2 } else { scroll };
    min(caret_x, a)
}

/// What the window shows; `scroll` is what is scrolled away of the address.
pub open spec fn window_shapes(b: BrowserState, v: Sight, focused: bool, scroll: int) -> Seq<Shape<Label>> {
    let (w, h) = (b.tab.size.0 as int, b.tab.size.1 as int);
    let r = b.tab.content();
    let s = with_page(Seq::<Shape<Label>>::empty().push(Shape::Fill(area(0, 0, w, h), Ink::White)), b.tab, v);
    let s = if b.error is Some {
        s.push(Shape::Fill(r, Ink::Color(0xfff6_f7fa))).push(
            text(Font::Large, r.x + 40, r.y + 80, Label::Name("Can't open this page"), Ink::Text),
        ).push(clipped(Font::Ui, r.x + 40, r.y + 116, Label::Error, r.w - 80, Ink::TextDim))
    } else {
        s
    };
    let s = with_bar(s, b, b.history.back.len() > 0, b.history.forward.len() > 0);
    let a = b.tab.address_area();
    let s = with_field(
        s,
        a,
        Label::Address,
        focused && b.tab.editing,
        b.address.all_selected,
        v.caret_x as int,
        scroll,
        v.rise as int,
    );
    let s = if b.tab.loading {
        let t = v.now as int / 8 % (a.w as int);
        s.push(Shape::Fill(area(a.x + min(t, a.w - 60), a.y + a.h - 2, 60, 2), Ink::Accent))
    } else {
        s
    };
    s.push(Shape::Fill(area(0, h - 22, w, 22), Ink::Panel)).push(hline(0, h - 22, w, Ink::Separator)).push(
        clipped(Font::Ui, 10, h - 6, Label::Status, w - 20, Ink::TextDim),
    )
}

impl Browser {
    /// Paints the window. The page is laid out for its width.
    pub fn render(&mut self, v: &Sight, focused: bool) -> (out: Vec<Shape<Label>>)
        requires
            old(self)@.wf(),
            old(self).tab.size.0 >= 200,
            old(self).tab.size.1 >= 68,
            old(self).tab.scroll <= i32::MAX,
            0 <= v.caret_x <= 1_000_000_000,
            0 <= old(self).address.scroll <= 1_000_000_000,
        ensures
            final(self).address.scroll == address_scroll(
                old(self).address.scroll as int,
                v.caret_x as int,
                old(self).tab.size.0 - 166,
            ),
            final(self).address.text == old(self).address.text,
            final(self).address.caret == old(self).address.caret,
            final(self).address.all_selected == old(self).address.all_selected,
            final(self).tab == old(self).tab,
            final(self).history == old(self).history,
            final(self).title == old(self).title,
            final(self).status == old(self).status,
            final(self).error == old(self).error,
            final(self).hover_link == old(self).hover_link,
            final(self).links == old(self).links,
            out@ == window_shapes(old(self)@, *v, focused, final(self).address.scroll as int),
    {
        let (w, h) = (self.tab.size.0 as i64, self.tab.size.1 as i64);
        let r = self.tab.content_rect();
        let mut out: Vec<Shape<Label>> = Vec::new();
        out.push(Shape::Fill(at(0, 0, w, h), Ink::White));
        self.tab.paint_page(&mut out, v);
        if self.error.is_some() {
            out.push(Shape::Fill(r, Ink::Color(0xfff6_f7fa)));
            out.push(Shape::Text(Font::Large, r.x + 40, r.y + 80, Label::Name("Can't open this page"), Ink::Text));
            out.push(Shape::Clipped(Font::Ui, r.x + 40, r.y + 116, Label::Error, r.w - 80, Ink::TextDim));
        }
        let can_back: bool = self.history.back.len() > 0;
        let can_forward: bool = self.history.forward.len() > 0;
        let ghost b = self@;
        let ghost before = out@;
        draw_bar(&mut out, &self.tab, can_back, can_forward);
        assert(out@ == with_bar(before, b, can_back, can_forward));
        let a = self.tab.address_rect();
        let editing: bool = focused && self.tab.editing;
        self.address.render(&mut out, a, Label::Address, editing, v.caret_x, v.rise);
        if self.tab.loading {
            let t: i64 = (v.now / 8 % a.w as u64) as i64;
            out.push(Shape::Fill(at(a.x + min_i64(t, a.w - 60), a.y + a.h - 2, 60, 2), Ink::Accent));
        }
        out.push(Shape::Fill(at(0, h - 22, w, 22), Ink::Panel));
        out.push(Shape::HLine(0, h - 22, w, Ink::Separator));
        out.push(Shape::Clipped(Font::Ui, 10, h - 6, Label::Status, w - 20, Ink::TextDim));
        out
    }
}

/// Nothing of the page that can be seen is left out: an item is painted if any
/// line of it is in the window.
pub proof fn lemma_seen_is_painted(y: int, h: int, scroll: int, view: int, line: int)
    requires
        0 <= h,
        y <= line < y + h,
        scroll <= line < scroll + view,
    ensures
        in_sight(scroll, view, y, y + h),
{
}

} // verus!
