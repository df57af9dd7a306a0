//! Drawing as a list of shapes: what a window or the desktop shows, in the
//! order in which it is painted.
//!
//! Texts and pictures are named by labels of the one that paints; how wide a
//! text is in a font is measured before the list is made.

use crate::gui::geom::Area;
use vstd::prelude::*;

verus! {

#[derive(Clone, Copy, PartialEq, Eq, Debug, Structural)]
pub enum Font {
    Ui,
    Bold,
    Mono,
    Large,
    SmallBold,
}

#[derive(Clone, Copy, PartialEq, Eq, Debug, Structural)]
pub enum Ink {
    /// Alpha, red, green, blue.
    Color(u32),
    /// The colours of the theme.
    Text,
    TextDim,
    White,
    Panel,
    Sidebar,
    Separator,
    Danger,
    Accent,
    AccentDark,
    /// The accent colours with this alpha.
    AccentAlpha(u32),
    AccentDarkAlpha(u32),
    /// From a colour this many 255ths of the way to the accent colour.
    TowardsAccent(u32, u32),
    /// From the accent colour this many 255ths of the way to a colour, with an
    /// alpha.
    FromAccent(u32, u32, u32),
    /// A colour with its alpha scaled by this many 255ths.
    Faded(u32, u32),
    AccentFaded(u32),
    /// An accent colour of the list, and one with this alpha.
    Nth(usize),
    NthAlpha(usize, u32),
    /// Behind selected text.
    Selection,
}

#[derive(Clone, Copy, PartialEq, Eq, Debug, Structural)]
pub enum Shape<L> {
    Fill(Area, Ink),
    /// From one colour at the top to another at the bottom.
    Gradient(Area, Ink, Ink),
    /// With a corner radius.
    Rounded(Area, i64, Ink),
    /// With a corner radius and a line width.
    Outline(Area, i64, i64, Ink),
    /// Centre and radius.
    Circle(i64, i64, i64, Ink),
    /// Start and length.
    HLine(i64, i64, i64, Ink),
    VLine(i64, i64, i64, Ink),
    /// With a corner radius and a blur.
    Shadow(Area, i64, i64, Ink),
    /// The blurred shadow of a thing, fitted to a place (or stretched, where it
    /// was made for another size), with an alpha.
    Mask(L, Area, bool, Ink, u32),
    /// A point with its coverage.
    Dot(i64, i64, Ink, u32),
    /// Start of the baseline.
    Text(Font, i64, i64, L, Ink),
    /// Cut off beyond a width.
    Clipped(Font, i64, i64, L, i64, Ink),
    Centered(Font, Area, L, Ink),
    /// A picture scaled into a place, with an alpha and a corner radius.
    Picture(L, Area, u32, i64),
    /// An icon with its size.
    Icon(L, i64, i64, i64),
    /// Nothing is painted outside this place until it is taken back.
    Clip(Area),
    Unclip,
}

/// Whether sums of a few hundred such numbers are safe.
pub open spec fn near(v: int) -> bool {
    -0x1_0000_0000 <= v <= 0x1_0000_0000
}

pub open spec fn area(x: int, y: int, w: int, h: int) -> Area {
    Area { x: x as i64, y: y as i64, w: w as i64, h: h as i64 }
}

pub open spec fn text<L>(f: Font, x: int, y: int, l: L, ink: Ink) -> Shape<L> {
    Shape::Text(f, x as i64, y as i64, l, ink)
}

pub open spec fn clipped<L>(f: Font, x: int, y: int, l: L, w: int, ink: Ink) -> Shape<L> {
    Shape::Clipped(f, x as i64, y as i64, l, w as i64, ink)
}

pub open spec fn circle<L>(x: int, y: int, r: int, ink: Ink) -> Shape<L> {
    Shape::Circle(x as i64, y as i64, r as i64, ink)
}

pub open spec fn hline<L>(x: int, y: int, w: int, ink: Ink) -> Shape<L> {
    Shape::HLine(x as i64, y as i64, w as i64, ink)
}

/// A colour without alpha, given this alpha.
pub open spec fn shade(rgb: u32, a: int) -> Ink {
    Ink::Color((a * 0x100_0000 + rgb) as u32)
}

pub fn shaded(rgb: u32, a: u32) -> (r: Ink)
    requires
        rgb < 0x100_0000,
        a <= 255,
    ensures
        r == shade(rgb, a as int),
{
    Ink::Color(a * 0x100_0000 + rgb)
}

pub fn at(x: i64, y: i64, w: i64, h: i64) -> (r: Area)
    ensures
        r == (Area { x, y, w, h }),
{
    Area { x, y, w, h }
}

} // verus!
