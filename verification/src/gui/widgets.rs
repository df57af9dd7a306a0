//! Small reusable UI pieces: buttons, a single-line text field, scrollbars.

use super::geom::{Area, Rect};
use super::paint::{area, at, near, text, Font, Ink, Shape};
use crate::arith::{clamp, clamp_i64, div, fits, max, max_i64, min, min_i64, tdiv};
use crate::input::{Key, KeyEvent};
use crate::text::{lemma_rfind, rfind, rfind_char, to_chars};
use vstd::prelude::*;

verus! {

#[derive(Clone, Copy, PartialEq, Eq, Debug, Structural)]
pub enum ButtonStyle {
    Normal,
    Primary,
    Danger,
    Flat,
}

/// A single-line editable text field.
pub struct TextInput {
    pub text: Vec<char>,
    /// Caret position in characters.
    pub caret: usize,
    pub scroll: i32,
    /// Select-all state: typing replaces everything.
    pub all_selected: bool,
}

#[verifier::ext_equal]
pub struct TextInputState {
    pub text: Seq<char>,
    pub caret: int,
    pub scroll: i32,
    pub all_selected: bool,
}

impl View for TextInput {
    type V = TextInputState;

    open spec fn view(&self) -> TextInputState {
        TextInputState { text: self.text@, caret: self.caret as int, scroll: self.scroll, all_selected: self.all_selected }
    }
}

impl TextInputState {
    /// The caret lies in the text.
    pub open spec fn wf(self) -> bool {
        0 <= self.caret <= self.text.len()
    }

    /// A fresh field with the caret at the end.
    pub open spec fn initial(text: Seq<char>) -> TextInputState {
        TextInputState { text, caret: text.len() as int, scroll: 0, all_selected: false }
    }

    /// The field with everything before the last dot selected, or all of
    /// it where there is no dot or only a leading one.
    pub open spec fn stem_selected(self) -> TextInputState {
        TextInputState {
            all_selected: true,
            caret: match rfind(self.text, '.') {
                Some(i) => if i > 0 { i } else { self.text.len() as int },
                None => self.text.len() as int,
            },
            ..self
        }
    }

    /// The field without its selection (everything before the caret).
    pub open spec fn cut(self) -> TextInputState {
        TextInputState { text: self.text.skip(self.caret), caret: 0, all_selected: false, ..self }
    }

    /// The field with `c` inserted at the caret.
    pub open spec fn inserted(self, c: char) -> TextInputState {
        TextInputState { text: self.text.insert(self.caret, c), caret: self.caret + 1, ..self }
    }

    /// The characters that a key press enters into the field.
    pub open spec fn typed(k: KeyEvent) -> Option<char> {
        match k.spec_text() {
            Some(c) => if c != '\n' && c != '\t' && c != '\x08' && c != '\x1b' { Some(c) } else { None },
            None => None,
        }
    }

    /// The field after a key event, and whether it used the key.
    pub open spec fn after_key(self, k: KeyEvent) -> (TextInputState, bool) {
        let len = self.text.len() as int;
        let plain = TextInputState { all_selected: false, ..self };
        if !k.pressed {
            (self, false)
        } else if Self::typed(k) is Some {
            let c = Self::typed(k)->0;
            (if self.all_selected { self.cut().inserted(c) } else { self.inserted(c) }, true)
        } else {
            match k.key {
                Key::Backspace => (
                    if self.all_selected {
                        self.cut()
                    } else if self.caret > 0 {
                        TextInputState { text: self.text.remove(self.caret - 1), caret: self.caret - 1, ..plain }
                    } else {
                        plain
                    },
                    true,
                ),
                Key::Delete => (
                    if self.caret < len { TextInputState { text: self.text.remove(self.caret), ..plain } } else { plain },
                    true,
                ),
                Key::Left => (TextInputState { caret: max(self.caret - 1, 0), ..plain }, true),
                Key::Right => (TextInputState { caret: min(self.caret + 1, len), ..plain }, true),
                Key::Home => (TextInputState { caret: 0, ..plain }, true),
                Key::End => (TextInputState { caret: len, ..plain }, true),
                Key::Char(c) => if c == 'a' && k.ctrl {
                    (TextInputState { caret: len, all_selected: true, ..self }, true)
                } else {
                    (plain, false)
                },
                _ => (plain, false),
            }
        }
    }
}

impl TextInput {
    pub fn new(text: &str) -> (r: TextInput)
        ensures
            r@ == TextInputState::initial(text@),
            r@.wf(),
    {
        let v: Vec<char> = to_chars(text);
        let n: usize = v.len();
        TextInput { text: v, caret: n, scroll: 0, all_selected: false }
    }

    /// Select the file stem (text before the last dot) like most file
    /// managers do when renaming.
    pub fn select_stem(&mut self)
        ensures
            final(self)@ == old(self)@.stem_selected(),
            final(self)@.wf(),
    {
        proof {
            lemma_rfind(self.text@, '.');
        }
        let stem: usize = match rfind_char(&self.text, '.') {
            Some(i) => if i > 0 { i } else { self.text.len() },
            None => self.text.len(),
        };
        self.all_selected = true;
        self.caret = stem;
    }

    /// Drop everything before the caret.
    fn cut(&mut self)
        requires
            old(self)@.wf(),
        ensures
            final(self)@ == old(self)@.cut(),
    {
        let rest: Vec<char> = self.text.split_off(self.caret);
        self.text = rest;
        self.caret = 0;
        self.all_selected = false;
        proof {
            assert(self.text@ =~= old(self)@.text.skip(old(self)@.caret));
        }
    }

    /// Returns true if the key was consumed.
    pub fn key(&mut self, k: &KeyEvent) -> (r: bool)
        requires
            old(self)@.wf(),
        ensures
            (final(self)@, r) == old(self)@.after_key(*k),
            final(self)@.wf(),
    {
        if !k.pressed {
            return false;
        }
        let len: usize = self.text.len();
        if let Some(ch) = k.text() {
            if ch != '\n' && ch != '\t' && ch != '\x08' && ch != '\x1b' {
                if self.all_selected {
                    self.cut();
                }
                self.text.insert(self.caret, ch);
                let n: usize = self.text.len();
                self.caret = self.caret + 1;
                return true;
            }
        }
        let was_selected: bool = self.all_selected;
        match k.key {
            Key::Backspace => {
                if was_selected {
                    self.cut();
                } else if self.caret > 0 {
                    self.text.remove(self.caret - 1);
                    self.caret = self.caret - 1;
                }
            },
            Key::Delete => {
                if self.caret < len {
                    self.text.remove(self.caret);
                }
            },
            Key::Left => {
                if self.caret > 0 {
                    self.caret = self.caret - 1;
                }
            },
            Key::Right => {
                if self.caret < len {
                    self.caret = self.caret + 1;
                }
            },
            Key::Home => {
                self.caret = 0;
            },
            Key::End => {
                self.caret = len;
            },
            Key::Char(c) => {
                if c == 'a' && k.ctrl {
                    self.caret = len;
                    self.all_selected = true;
                    return true;
                }
                self.all_selected = false;
                return false;
            },
            _ => {
                self.all_selected = false;
                return false;
            },
        }
        self.all_selected = false;
        true
    }

    /// Keep the caret, at `caret_x` in the text, inside a field that
    /// shows `width` pixels.
    pub fn follow_caret(&mut self, caret_x: i32, width: i32)
        requires
            fits(caret_x - old(self).scroll),
            fits(width - 2),
            fits(caret_x - width),
            fits(caret_x - width + 2),
        ensures
            ({
                let s = old(self).scroll;
                let a = if caret_x - s > width - 2 { caret_x - width + 2 } else { s as int };
                final(self).scroll == if caret_x < a { caret_x as int } else { a }
            }),
            final(self).text == old(self).text,
            final(self).caret == old(self).caret,
            final(self).all_selected == old(self).all_selected,
    {
        if caret_x - self.scroll > width - 2 {
            self.scroll = caret_x - width + 2;
        }
        if caret_x < self.scroll {
            self.scroll = caret_x;
        }
    }
}

/// Typing a character and deleting it again leaves the field as it was,
/// when nothing was selected.
pub proof fn lemma_type_then_backspace(t: TextInputState, k: KeyEvent, b: KeyEvent)
    requires
        t.wf(),
        !t.all_selected,
        k.pressed,
        TextInputState::typed(k) is Some,
        b.pressed,
        b.key == Key::Backspace,
    ensures
        t.after_key(k).0.after_key(b).0 == t,
{
    let c = TextInputState::typed(k)->0;
    assert(t.text.insert(t.caret, c).remove(t.caret) =~= t.text);
}

/// Typing into a field whose name part is selected keeps what follows
/// the last dot.
pub proof fn lemma_typing_replaces_stem(t: TextInputState, k: KeyEvent)
    requires
        t.all_selected,
        t.wf(),
        k.pressed,
        TextInputState::typed(k) is Some,
    ensures
        t.after_key(k).0.text == seq![TextInputState::typed(k)->0] + t.text.skip(t.caret),
{
    let c = TextInputState::typed(k)->0;
    assert(t.text.skip(t.caret).insert(0, c) =~= seq![c] + t.text.skip(t.caret));
}

/// What stands before the caret and what behind it.
pub open spec fn around_caret(t: TextInputState) -> (Seq<char>, Seq<char>) {
    (t.text.take(t.caret), t.text.skip(t.caret))
}

/// With nothing selected, every key changes only what is next to the caret:
/// a character goes in before it, Backspace takes out the one before it,
/// Delete the one behind it, Left and Right go over one, and Home and End to
/// the two ends.
pub proof fn lemma_keys_at_caret(t: TextInputState, k: KeyEvent)
    requires
        t.wf(),
        !t.all_selected,
        k.pressed,
    ensures
        ({
            let (a, b) = around_caret(t);
            let n = t.after_key(k).0;
            let (c, d) = around_caret(n);
            &&& n.wf()
            &&& TextInputState::typed(k) matches Some(ch) ==> c == a.push(ch) && d == b
            &&& TextInputState::typed(k) is None ==> {
                &&& k.key == Key::Backspace && a.len() > 0 ==> c == a.drop_last() && d == b
                &&& k.key == Key::Delete && b.len() > 0 ==> c == a && d == b.skip(1)
                &&& k.key == Key::Left && a.len() > 0 ==> c == a.drop_last() && d == seq![a.last()] + b
                &&& k.key == Key::Right && b.len() > 0 ==> c == a.push(b[0]) && d == b.skip(1)
                &&& k.key == Key::Home ==> c.len() == 0 && d == t.text
                &&& k.key == Key::End ==> c == t.text && d.len() == 0
                &&& (k.key == Key::Backspace || k.key == Key::Left) && a.len() == 0 ==> n == t
                &&& (k.key == Key::Delete || k.key == Key::Right) && b.len() == 0 ==> n == t
                &&& !(k.key == Key::Backspace || k.key == Key::Delete) ==> n.text == t.text
            }
        }),
{
    let (a, b) = around_caret(t);
    let n = t.after_key(k).0;
    let (c, d) = around_caret(n);
    match TextInputState::typed(k) {
        Some(ch) => {
            assert(c =~= a.push(ch));
            assert(d =~= b);
        },
        None => {
            if k.key == Key::Backspace && a.len() > 0 {
                assert(c =~= a.drop_last());
                assert(d =~= b);
            } else if k.key == Key::Delete && b.len() > 0 {
                assert(c =~= a);
                assert(d =~= b.skip(1));
            } else if k.key == Key::Left && a.len() > 0 {
                assert(c =~= a.drop_last());
                assert(d =~= seq![a.last()] + b);
            } else if k.key == Key::Right && b.len() > 0 {
                assert(c =~= a.push(b[0]));
                assert(d =~= b.skip(1));
            } else if k.key == Key::Home {
                assert(d =~= t.text);
            } else if k.key == Key::End {
                assert(c =~= t.text);
            }
        },
    }
}

/// The stem of a name is what stands before its last dot; a name without
/// one, or with nothing before it, is all stem.
pub proof fn lemma_stem(t: TextInputState)
    ensures
        ({
            let s = t.stem_selected();
            let (stem, rest) = around_caret(s);
            &&& s.text == t.text
            &&& s.all_selected
            &&& s.wf()
            &&& rest.len() > 0 ==> rest[0] == '.' && stem.len() > 0
            &&& forall|i: int| 1 <= i < rest.len() ==> rest[i] != '.'
            &&& rest.len() == 0 ==> forall|i: int| 1 <= i < t.text.len() ==> t.text[i] != '.'
        }),
{
    lemma_rfind(t.text, '.');
    let s = t.stem_selected();
    let rest = around_caret(s).1;
    assert forall|i: int| 1 <= i < rest.len() implies rest[i] != '.' by {
        assert(rest[i] == t.text[s.caret + i]);
    }
}

/// Backspace takes out what is selected and leaves what follows it.
pub proof fn lemma_backspace_takes_selection(t: TextInputState, k: KeyEvent)
    requires
        t.wf(),
        t.all_selected,
        k.pressed,
        k.key == Key::Backspace,
        TextInputState::typed(k) is None,
    ensures
        t.after_key(k).0.text == around_caret(t).1,
        t.after_key(k).0.caret == 0,
        !t.after_key(k).0.all_selected,
{
}

/// Height of a scrollbar thumb in a track of height `h`.
pub open spec fn thumb_height(h: int, content: int, view: int) -> int {
    min(max(tdiv(h * view, content), 24), h)
}

/// Geometry of a vertical scrollbar thumb for `content` px shown through a
/// `view` px viewport at `offset`.
pub fn scroll_thumb(track: Rect, content: i32, view: i32, offset: i32) -> (r: Option<Rect>)
    requires
        content > view && track.h > 0 ==> content != 0 && fits(content - view) && fits(track.y + track.h),
    ensures
        r is Some <==> content > view && track.h > 0,
        r is Some ==> ({
            let t = r->0;
            let h = thumb_height(track.h as int, content as int, view as int);
            &&& t.x == track.x
            &&& t.w == track.w
            &&& t.h == h
            &&& t.y == track.y + (track.h - h) * clamp(offset as int, 0, content - view) / (content - view)
            &&& track.y <= t.y
            &&& t.y + t.h <= track.y + track.h
        }),
{
    if content <= view || track.h <= 0 {
        return None;
    }
    let th: i64 = track.h as i64;
    assert(-0x4000_0000_0000_0000 < th * view < 0x4000_0000_0000_0000) by (nonlinear_arith)
        requires
            0 < th <= 0x7fff_ffff,
            -0x8000_0000 <= view <= 0x7fff_ffff,
    ;
    let h: i64 = min_i64(max_i64(div(th * view as i64, content as i64), 24), th);
    let range: i64 = content as i64 - view as i64;
    let pos: i64 = clamp_i64(offset as i64, 0, range);
    let room: i64 = th - h;
    proof {
        assert(0 <= room * pos <= room * range) by (nonlinear_arith)
            requires
                0 <= room,
                0 <= pos <= range,
        ;
        assert(room * range < 0x4000_0000_0000_0000) by (nonlinear_arith)
            requires
                0 <= room <= 0x7fff_ffff,
                0 <= range <= 0x7fff_ffff,
        ;
        assert(0 <= (room * pos) / (range as int) <= room) by (nonlinear_arith)
            requires
                0 <= room * pos <= room * range,
                0 < range,
        ;
    }
    let y: i64 = track.y as i64 + room * pos / range;
    Some(Rect { x: track.x, y: y as i32, w: track.w, h: h as i32 })
}

// ---------------------------------------------------------------------
// Painting
// ---------------------------------------------------------------------

/// The background of a button; a flat one has none of its own.
pub open spec fn button_ground(style: ButtonStyle, hovered: bool) -> Option<Ink> {
    match style {
        ButtonStyle::Primary => Some(if hovered { Ink::AccentDark } else { Ink::Accent }),
        ButtonStyle::Danger => Some(if hovered { Ink::Color(0xffc9353a) } else { Ink::Danger }),
        ButtonStyle::Normal => Some(if hovered { Ink::Color(0xfff0f2f5) } else { Ink::White }),
        ButtonStyle::Flat => if hovered { Some(Ink::Color(0x1200_0000)) } else { None },
    }
}

/// The colour of the text of a button.
pub open spec fn button_ink(style: ButtonStyle, enabled: bool) -> Ink {
    if style == ButtonStyle::Primary || style == ButtonStyle::Danger {
        if enabled { Ink::White } else { Ink::Color(0x6eff_ffff) }
    } else {
        if enabled { Ink::Text } else { Ink::Color(0x6e1d1f24) }
    }
}

/// A button painted over what there is.
pub open spec fn with_button<L>(
    s: Seq<Shape<L>>,
    r: Area,
    label: L,
    style: ButtonStyle,
    hovered: bool,
    enabled: bool,
) -> Seq<Shape<L>> {
    let s = match button_ground(style, hovered) {
        Some(ink) => s.push(Shape::Rounded(r, 7, ink)),
        None => s,
    };
    let s = if style == ButtonStyle::Normal { s.push(Shape::Outline(r, 7, 1, Ink::Color(0x2d00_0000))) } else { s };
    s.push(Shape::Centered(Font::Ui, r, label, button_ink(style, enabled)))
}

pub fn button<L: Copy>(out: &mut Vec<Shape<L>>, r: Area, label: L, style: ButtonStyle, hovered: bool, enabled: bool)
    ensures
        final(out)@ == with_button(old(out)@, r, label, style, hovered, enabled),
{
    let ground = match style {
        ButtonStyle::Primary => Some(if hovered { Ink::AccentDark } else { Ink::Accent }),
        ButtonStyle::Danger => Some(if hovered { Ink::Color(0xffc9353a) } else { Ink::Danger }),
        ButtonStyle::Normal => Some(if hovered { Ink::Color(0xfff0f2f5) } else { Ink::White }),
        ButtonStyle::Flat => if hovered { Some(Ink::Color(0x1200_0000)) } else { None },
    };
    if let Some(ink) = ground {
        out.push(Shape::Rounded(r, 7, ink));
    }
    if style == ButtonStyle::Normal {
        out.push(Shape::Outline(r, 7, 1, Ink::Color(0x2d00_0000)));
    }
    let ink = match (style == ButtonStyle::Primary || style == ButtonStyle::Danger, enabled) {
        (true, true) => Ink::White,
        (true, false) => Ink::Color(0x6eff_ffff),
        (false, true) => Ink::Text,
        (false, false) => Ink::Color(0x6e1d1f24),
    };
    out.push(Shape::Centered(Font::Ui, r, label, ink));
}

/// A text field painted over what there is. `caret_x` is the place of the
/// caret in the text and `scroll` what is scrolled away of it.
pub open spec fn with_field<L>(
    s: Seq<Shape<L>>,
    r: Area,
    label: L,
    focused: bool,
    selected: bool,
    caret_x: int,
    scroll: int,
    rise: int,
) -> Seq<Shape<L>> {
    let left = r.x + 8 - scroll;
    let s = s.push(Shape::Rounded(r, 6, Ink::White)).push(
        if focused { Shape::Outline(r, 6, 2, Ink::Accent) } else { Shape::Outline(r, 6, 1, Ink::Color(0x3200_0000)) },
    ).push(Shape::Clip(area(r.x + 8, r.y as int, r.w - 16, r.h as int)));
    let s = if selected && focused {
        s.push(Shape::Fill(area(left, r.y + 5, max(caret_x, 4), r.h - 10), Ink::Selection))
    } else {
        s
    };
    let s = s.push(text(Font::Ui, left, r.y + tdiv(r.h + rise, 2), label, Ink::Text));
    let s = if focused && !selected {
        s.push(Shape::Fill(area(left + caret_x, r.y + 6, 1, r.h - 12), Ink::Accent))
    } else {
        s
    };
    s.push(Shape::Unclip)
}

impl TextInput {
    /// Paints the field, with the caret kept in sight.
    pub fn render<L: Copy>(&mut self, out: &mut Vec<Shape<L>>, r: Area, label: L, focused: bool, caret_x: i32, rise: i32)
        requires
            near(r.x as int),
            near(r.y as int),
            near(r.w as int),
            near(r.h as int),
            fits(r.w - 16),
            fits(caret_x - old(self).scroll),
            fits(r.w - 18),
            fits(caret_x - (r.w - 16)),
            fits(caret_x - (r.w - 16) + 2),
        ensures
            ({
                let (s, width) = (old(self).scroll, r.w - 16);
                let a = if caret_x - s > width - 2 { caret_x - width + 2 } else { s as int };
                final(self).scroll == if caret_x < a { caret_x as int } else { a }
            }),
            final(self).text == old(self).text,
            final(self).caret == old(self).caret,
            final(self).all_selected == old(self).all_selected,
            final(out)@ == with_field(
                old(out)@,
                r,
                label,
                focused,
                old(self).all_selected,
                caret_x as int,
                final(self).scroll as int,
                rise as int,
            ),
    {
        self.follow_caret(caret_x, (r.w - 16) as i32);
        let left: i64 = r.x + 8 - self.scroll as i64;
        out.push(Shape::Rounded(r, 6, Ink::White));
        if focused {
            out.push(Shape::Outline(r, 6, 2, Ink::Accent));
        } else {
            out.push(Shape::Outline(r, 6, 1, Ink::Color(0x3200_0000)));
        }
        out.push(Shape::Clip(at(r.x + 8, r.y, r.w - 16, r.h)));
        if self.all_selected && focused {
            out.push(Shape::Fill(at(left, r.y + 5, max_i64(caret_x as i64, 4), r.h - 10), Ink::Selection));
        }
        out.push(Shape::Text(Font::Ui, left, r.y + div(r.h + rise as i64, 2), label, Ink::Text));
        if focused && !self.all_selected {
            out.push(Shape::Fill(at(left + caret_x as i64, r.y + 6, 1, r.h - 12), Ink::Accent));
        }
        out.push(Shape::Unclip);
    }
}

/// The thumb of a scrollbar painted over what there is.
pub fn draw_scrollbar<L: Copy>(out: &mut Vec<Shape<L>>, track: Rect, content: i32, view: i32, offset: i32)
    requires
        content > view && track.h > 0 ==> content != 0 && fits(content - view) && fits(track.y + track.h),
    ensures
        content <= view || track.h <= 0 ==> final(out)@ == old(out)@,
        content > view && track.h > 0 ==> ({
            let h = thumb_height(track.h as int, content as int, view as int);
            let y = track.y + (track.h - h) * clamp(offset as int, 0, content - view) / (content - view);
            final(out)@ == old(out)@.push(
                Shape::Rounded(area(track.x + 2, y + 2, track.w - 4, h - 4), 3, Ink::Color(0x4600_0000)),
            )
        }),
{
    if let Some(t) = scroll_thumb(track, content, view, offset) {
        let r = at(t.x as i64 + 2, t.y as i64 + 2, t.w as i64 - 4, t.h as i64 - 4);
        out.push(Shape::Rounded(r, 3, Ink::Color(0x4600_0000)));
    }
}

} // verus!
