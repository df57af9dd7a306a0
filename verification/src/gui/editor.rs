//! Text editor with selection, clipboard, save / save as, and a prompt for
//! unsaved changes.

use super::app::{AppEvent, CommandState, Ctx, CtxState, Msg, NewWindow, NewWindowState};
use super::dialog::{Dialog, DialogState};
use super::geom::{inside, Rect};
use super::widgets::TextInputState;
use crate::arith::{clamp, div, fits, lemma_tdiv_bounds, max, min, min_usize, tdiv};
use crate::fs::path::{base_name, file_name_chars, normalize_chars, normalized, size_chars, size_text};
use crate::input::{Key, KeyEvent};
use crate::text::{
    alphanumeric, copy, copy_range, count_run, dec, is_str, join, join_with, lemma_join_append, lemma_join_cut, lemma_read_back,
    lemma_run_of, lemma_split_join, lemma_split_nonempty, lemma_split_pieces, lemma_trim_end_char, push_all, push_dec,
    push_str, read_text, run_of, split, split_on, text_of_bytes, to_chars, to_text, trim, trim_end_char, trimmed,
    trimmed_end_char, views,
};
use vstd::prelude::*;
use vstd::utf8::encode_utf8;

verus! {

pub const TOOLBAR_H: i32 = 44;
pub const STATUS_H: i32 = 24;
pub const GUTTER: i32 = 52;
pub const PAD: i32 = 8;

pub const TAG_SAVE_AS: u32 = 10;
pub const TAG_UNSAVED: u32 = 11;

/// How long a message stays in the status bar, in milliseconds.
pub const MESSAGE_MS: u64 = 5000;

#[derive(Clone, Copy, PartialEq, Eq, Debug, Structural)]
pub enum Hover {
    Nothing,
    Save,
    SaveAs,
}

/// Size of a character cell in the editor's font.
#[derive(Clone, Copy, Debug)]
pub struct Metrics {
    pub cw: i32,
    pub lh: i32,
}

impl Metrics {
    pub open spec fn wf(self) -> bool {
        self.cw > 0 && self.lh > 0
    }
}

/// What the editor needs done outside.
pub enum Request {
    Nothing,
    /// Put this text on the clipboard.
    Copy(Vec<char>),
    /// Write the text to the file, then report with `write_done`.
    Write { path: Vec<char>, text: Vec<char> },
}

pub enum RequestState {
    Nothing,
    Copy(Seq<char>),
    Write { path: Seq<char>, text: Seq<char> },
}

impl View for Request {
    type V = RequestState;

    open spec fn view(&self) -> RequestState {
        match *self {
            Request::Nothing => RequestState::Nothing,
            Request::Copy(t) => RequestState::Copy(t@),
            Request::Write { path, text } => RequestState::Write { path: path@, text: text@ },
        }
    }
}

pub struct Editor {
    pub path: Option<Vec<char>>,
    pub lines: Vec<Vec<char>>,
    pub cursor: (usize, usize),
    pub anchor: Option<(usize, usize)>,
    pub want_col: usize,
    pub top: usize,
    pub left: i32,
    pub modified: bool,
    pub size: (i32, i32),
    pub message: Option<(Vec<char>, bool, u64)>,
    pub close_after_save: bool,
    pub hover: Hover,
    pub focused: bool,
    pub blink_on: bool,
    pub last_blink: u64,
    pub selecting: bool,
}

#[verifier::ext_equal]
pub struct EditorState {
    pub path: Option<Seq<char>>,
    pub lines: Seq<Seq<char>>,
    pub cursor: (int, int),
    pub anchor: Option<(int, int)>,
    pub want_col: int,
    pub top: int,
    pub left: int,
    pub modified: bool,
    pub size: (i32, i32),
    pub message: Option<(Seq<char>, bool, u64)>,
    pub close_after_save: bool,
    pub hover: Hover,
    pub focused: bool,
    pub blink_on: bool,
    pub last_blink: u64,
    pub selecting: bool,
}

pub open spec fn pos(p: (usize, usize)) -> (int, int) {
    (p.0 as int, p.1 as int)
}

impl View for Editor {
    type V = EditorState;

    open spec fn view(&self) -> EditorState {
        EditorState {
            path: match self.path {
                Some(p) => Some(p@),
                None => None,
            },
            lines: views(self.lines@),
            cursor: pos(self.cursor),
            anchor: match self.anchor {
                Some(a) => Some(pos(a)),
                None => None,
            },
            want_col: self.want_col as int,
            top: self.top as int,
            left: self.left as int,
            modified: self.modified,
            size: self.size,
            message: match self.message {
                Some(m) => Some((m.0@, m.1, m.2)),
                None => None,
            },
            close_after_save: self.close_after_save,
            hover: self.hover,
            focused: self.focused,
            blink_on: self.blink_on,
            last_blink: self.last_blink,
            selecting: self.selecting,
        }
    }
}

// ---------------------------------------------------------------------
// The text and positions in it
// ---------------------------------------------------------------------

/// Reading order of positions.
pub open spec fn before(a: (int, int), b: (int, int)) -> bool {
    a.0 < b.0 || (a.0 == b.0 && a.1 < b.1)
}

/// Whether there is such a position in the text.
pub open spec fn in_text(lines: Seq<Seq<char>>, p: (int, int)) -> bool {
    0 <= p.0 < lines.len() && 0 <= p.1 <= lines[p.0].len()
}

/// The text before a position.
pub open spec fn head(lines: Seq<Seq<char>>, p: (int, int)) -> Seq<char> {
    join(lines.take(p.0).push(lines[p.0].take(p.1)), '\n')
}

/// The text from a position on.
pub open spec fn tail(lines: Seq<Seq<char>>, p: (int, int)) -> Seq<char> {
    join(seq![lines[p.0].skip(p.1)] + lines.skip(p.0 + 1), '\n')
}

/// The text between two positions.
pub open spec fn between(lines: Seq<Seq<char>>, s: (int, int), e: (int, int)) -> Seq<char> {
    if s.0 == e.0 {
        lines[s.0].subrange(s.1, e.1)
    } else {
        join(seq![lines[s.0].skip(s.1)] + lines.subrange(s.0 + 1, e.0) + seq![lines[e.0].take(e.1)], '\n')
    }
}

/// The lines without the text between two positions.
pub open spec fn without(lines: Seq<Seq<char>>, s: (int, int), e: (int, int)) -> Seq<Seq<char>> {
    lines.take(s.0).push(lines[s.0].take(s.1) + lines[e.0].skip(e.1)) + lines.skip(e.0 + 1)
}

/// The lines and the cursor.
#[verifier::ext_equal]
pub struct Buf {
    pub lines: Seq<Seq<char>>,
    pub cursor: (int, int),
}

impl Buf {
    pub open spec fn wf(self) -> bool {
        in_text(self.lines, self.cursor)
    }

    /// With `part` inserted at the cursor.
    pub open spec fn put(self, part: Seq<char>) -> Buf {
        let (l, c) = self.cursor;
        let line = self.lines[l];
        Buf { lines: self.lines.update(l, line.take(c) + part + line.skip(c)), cursor: (l, c + part.len()) }
    }

    /// Spaces that the line starts with, up to the cursor.
    pub open spec fn indent(self) -> nat {
        run_of(self.lines[self.cursor.0].take(self.cursor.1), ' ')
    }

    /// With the line broken at the cursor; the new line keeps the
    /// indentation of what stays.
    pub open spec fn broken(self) -> Buf {
        let (l, c) = self.cursor;
        let line = self.lines[l];
        let n = self.indent();
        Buf {
            lines: self.lines.update(l, line.take(c)).insert(l + 1, line.take(n as int) + line.skip(c)),
            cursor: (l + 1, n as int),
        }
    }

    /// With pieces of text inserted, each on a line of its own.
    pub open spec fn put_all(self, parts: Seq<Seq<char>>) -> Buf
        decreases parts.len(),
    {
        if parts.len() == 0 {
            self
        } else if parts.len() == 1 {
            self.put(trim_end_char(parts[0], '\r'))
        } else {
            self.put_all(parts.drop_last()).broken().put(trim_end_char(parts.last(), '\r'))
        }
    }
}

/// The start of the word that `p` touches.
pub open spec fn is_word(c: char) -> bool {
    alphanumeric(c) || c == '_'
}

pub open spec fn word_start(line: Seq<char>, p: int) -> int
    decreases p,
{
    if 0 < p <= line.len() && is_word(line[p - 1]) { word_start(line, p - 1) } else { p }
}

pub open spec fn word_end(line: Seq<char>, p: int) -> int
    decreases line.len() - p,
{
    if 0 <= p < line.len() && is_word(line[p]) { word_end(line, p + 1) } else { p }
}

/// The scroll offset that keeps `x` in a view of `width` that showed the
/// text from `left` on.
pub open spec fn left_for(x: int, left: int, width: int) -> int {
    let third = tdiv(width, 3);
    if x < left {
        max(x - third, 0)
    } else if x > left + width {
        x - width + third
    } else {
        left
    }
}

fn follow_x(col: usize, cw: i32, left: i32, width: i64) -> (r: i32)
    requires
        cw > 0,
        -0x1_0000_0000 <= width <= 0x1_0000_0000,
    ensures
        r == clamp(left_for(col * cw, left as int, width as int), i32::MIN as int, i32::MAX as int),
{
    proof {
        assert(0 <= col * cw <= 0xffff_ffff_ffff_ffff * 0x7fff_ffff) by (nonlinear_arith)
            requires
                0 <= col <= 0xffff_ffff_ffff_ffff,
                0 < cw <= 0x7fff_ffff,
        ;
        lemma_tdiv_bounds(width as int, 3);
    }
    let x: i128 = col as i128 * cw as i128;
    let third: i128 = div(width, 3) as i128;
    let w: i128 = width as i128;
    let l: i128 = left as i128;
    let wanted: i128 = if x < l {
        if x - third > 0 { x - third } else { 0 }
    } else if x > l + w {
        x - w + third
    } else {
        l
    };
    if wanted <= -0x8000_0000 {
        i32::MIN
    } else if wanted >= 0x7fff_ffff {
        i32::MAX
    } else {
        wanted as i32
    }
}

/// A moment `d` milliseconds after `now`.
pub open spec fn later(now: u64, d: u64) -> u64 {
    if now + d > u64::MAX { u64::MAX } else { (now + d) as u64 }
}

/// The lines of a file.
pub open spec fn file_lines(text: Seq<char>) -> Seq<Seq<char>> {
    Seq::new(split(text, '\n').len(), |i: int| trim_end_char(split(text, '\n')[i], '\r'))
}

impl EditorState {
    pub open spec fn wf(self) -> bool {
        &&& in_text(self.lines, self.cursor)
        &&& (self.anchor matches Some(a) ==> in_text(self.lines, a))
    }

    pub open spec fn empty() -> EditorState {
        EditorState {
            path: None,
            lines: seq![Seq::<char>::empty()],
            cursor: (0, 0),
            anchor: None,
            want_col: 0,
            top: 0,
            left: 0,
            modified: false,
            size: (700i32, 460i32),
            message: None,
            close_after_save: false,
            hover: Hover::Nothing,
            focused: true,
            blink_on: true,
            last_blink: 0,
            selecting: false,
        }
    }

    pub open spec fn buf(self) -> Buf {
        Buf { lines: self.lines, cursor: self.cursor }
    }

    pub open spec fn text(self) -> Seq<char> {
        join(self.lines, '\n')
    }

    pub open spec fn name(self) -> Seq<char> {
        match self.path {
            Some(p) => base_name(p),
            None => "Untitled"@,
        }
    }

    pub open spec fn flashed(self, msg: Seq<char>, error: bool, now: u64) -> EditorState {
        EditorState { message: Some((msg, error, later(now, MESSAGE_MS))), ..self }
    }

    /// The selection in reading order, if it is not empty.
    pub open spec fn selection(self) -> Option<((int, int), (int, int))> {
        match self.anchor {
            None => None,
            Some(a) => if a == self.cursor {
                None
            } else if before(a, self.cursor) {
                Some((a, self.cursor))
            } else {
                Some((self.cursor, a))
            },
        }
    }

    pub open spec fn selected(self) -> Option<Seq<char>> {
        match self.selection() {
            Some(r) => Some(between(self.lines, r.0, r.1)),
            None => None,
        }
    }

    /// Without the selected text; nothing stays selected.
    pub open spec fn selection_deleted(self) -> EditorState {
        match self.selection() {
            Some(r) => EditorState {
                lines: without(self.lines, r.0, r.1),
                cursor: r.0,
                anchor: None,
                modified: true,
                ..self
            },
            None => EditorState { anchor: None, ..self },
        }
    }

    pub open spec fn with_buf(self, b: Buf) -> EditorState {
        EditorState { lines: b.lines, cursor: b.cursor, modified: true, ..self }
    }

    /// With `text` in place of the selection.
    pub open spec fn inserted(self, text: Seq<char>) -> EditorState {
        let d = self.selection_deleted();
        d.with_buf(d.buf().put_all(split(text, '\n')))
    }

    pub open spec fn entered(self) -> EditorState {
        let d = self.selection_deleted();
        d.with_buf(d.buf().broken())
    }

    pub open spec fn backspaced(self) -> EditorState {
        let d = self.selection_deleted();
        let (l, c) = self.cursor;
        if self.selection() is Some {
            d
        } else if c > 0 {
            d.with_buf(Buf { lines: self.lines.update(l, self.lines[l].remove(c - 1)), cursor: (l, c - 1) })
        } else if l > 0 {
            d.with_buf(
                Buf {
                    lines: self.lines.update(l - 1, self.lines[l - 1] + self.lines[l]).remove(l),
                    cursor: (l - 1, self.lines[l - 1].len() as int),
                },
            )
        } else {
            d
        }
    }

    pub open spec fn deleted(self) -> EditorState {
        let d = self.selection_deleted();
        let (l, c) = self.cursor;
        if self.selection() is Some {
            d
        } else if c < self.lines[l].len() {
            d.with_buf(Buf { lines: self.lines.update(l, self.lines[l].remove(c)), cursor: self.cursor })
        } else if l + 1 < self.lines.len() {
            d.with_buf(
                Buf { lines: self.lines.update(l, self.lines[l] + self.lines[l + 1]).remove(l + 1), cursor: self.cursor },
            )
        } else {
            d
        }
    }

    pub open spec fn moved(self, to: (int, int), extend: bool, keep_col: bool) -> EditorState {
        EditorState {
            anchor: if !extend {
                None
            } else if self.anchor is None {
                Some(self.cursor)
            } else {
                self.anchor
            },
            cursor: to,
            want_col: if keep_col { self.want_col } else { to.1 },
            ..self
        }
    }

    /// Rows of text that the window shows.
    pub open spec fn visible(self, m: Metrics) -> int {
        let h = self.size.1 - TOOLBAR_H - STATUS_H;
        if h < m.lh { 1 } else { h / (m.lh as int) }
    }

    /// On line `l`, as close to the wanted column as the line allows.
    pub open spec fn at_line(self, l: int) -> (int, int) {
        (l, min(self.want_col, self.lines[l].len() as int))
    }

    /// The horizontal scroll offset that keeps the cursor in view.
    pub open spec fn left_for_cursor(self, m: Metrics) -> int {
        left_for(self.cursor.1 * m.cw, self.left, self.size.0 - GUTTER - PAD * 2 - 12)
    }

    pub open spec fn scrolled(self, m: Metrics) -> EditorState {
        let vis = self.visible(m);
        let l = self.cursor.0;
        EditorState {
            top: if l < self.top {
                l
            } else if l >= self.top + vis {
                l + 1 - vis
            } else {
                self.top
            },
            left: clamp(self.left_for_cursor(m), i32::MIN as int, i32::MAX as int),
            ..self
        }
    }

    /// The position in the text under a point of the window.
    pub open spec fn pos_at(self, x: int, y: int, m: Metrics) -> (int, int) {
        let row = max(y - TOOLBAR_H - PAD, 0) / (m.lh as int) + self.top;
        let line = min(row, self.lines.len() - 1);
        let col = max(x - GUTTER - PAD + self.left + (m.cw as int) / 2, 0) / (m.cw as int);
        (line, min(col, self.lines[line].len() as int))
    }

    /// The dialog that asks where to save.
    pub open spec fn save_as_dialog(self, fresh: Seq<char>, c: CtxState) -> CtxState {
        c.with(
            CommandState::OpenChild(
                NewWindowState::Dialog(
                    DialogState {
                        title: "Save As"@,
                        message: "Save the file as (full path):"@,
                        input: Some(
                            TextInputState::initial(
                                match self.path {
                                    Some(p) => p,
                                    None => fresh,
                                },
                            ).stem_selected(),
                        ),
                        ok_label: "Save"@,
                        cancel_label: Some("Cancel"@),
                        danger: false,
                        second_is_alt: false,
                        tag: TAG_SAVE_AS,
                        reply_to: c.window,
                        hover: None,
                        size: (400i32, 160i32),
                        answered: false,
                    },
                ),
            ),
        )
    }

    /// Saving: write to the known file, or ask for a name.
    pub open spec fn saving(self, fresh: Seq<char>, c: CtxState) -> (CtxState, RequestState) {
        match self.path {
            Some(p) => (c, RequestState::Write { path: p, text: self.text() }),
            None => (self.save_as_dialog(fresh, c), RequestState::Nothing),
        }
    }

    /// What a character key does before the view follows the cursor; `None`
    /// for combinations that the editor does not use.
    pub open spec fn char_action(
        self,
        ch: char,
        k: KeyEvent,
        now: u64,
        clipboard: Seq<char>,
        fresh: Seq<char>,
        c: CtxState,
    ) -> Option<(EditorState, CtxState, RequestState)> {
        let n = self.lines.len() as int;
        let none = RequestState::Nothing;
        if !k.ctrl {
            if k.alt { None } else { Some((self.inserted(seq![ch]), c, none)) }
        } else if ch == 's' {
            let (c2, r) = self.saving(fresh, c);
            Some((self, c2, r))
        } else if ch == 'S' {
            Some((self, self.save_as_dialog(fresh, c), none))
        } else if ch == 'a' {
            let e = EditorState { anchor: Some((0, 0)), cursor: (n - 1, self.lines[n - 1].len() as int), ..self };
            Some((e, c, none))
        } else if ch == 'c' {
            match self.selected() {
                Some(t) => Some((self.flashed("Copied"@, false, now), c, RequestState::Copy(t))),
                None => Some((self, c, none)),
            }
        } else if ch == 'x' {
            match self.selected() {
                Some(t) => Some((self.selection_deleted(), c, RequestState::Copy(t))),
                None => Some((self, c, none)),
            }
        } else if ch == 'v' {
            Some((if clipboard.len() > 0 { self.inserted(clipboard) } else { self }, c, none))
        } else {
            None
        }
    }

    /// One step to the left.
    pub open spec fn left_key(self, shift: bool) -> EditorState {
        let (l, col) = self.cursor;
        if !shift && self.selection() is Some {
            self.moved((self.selection()->0).0, false, false)
        } else if col > 0 {
            self.moved((l, col - 1), shift, false)
        } else if l > 0 {
            self.moved((l - 1, self.lines[l - 1].len() as int), shift, false)
        } else {
            self
        }
    }

    /// One step to the right.
    pub open spec fn right_key(self, shift: bool) -> EditorState {
        let (l, col) = self.cursor;
        if !shift && self.selection() is Some {
            self.moved((self.selection()->0).1, false, false)
        } else if col < self.lines[l].len() {
            self.moved((l, col + 1), shift, false)
        } else if l + 1 < self.lines.len() {
            self.moved((l + 1, 0), shift, false)
        } else {
            self
        }
    }

    /// What the other keys do; `None` for those that the editor does not
    /// use.
    pub open spec fn move_action(self, k: KeyEvent, m: Metrics) -> Option<EditorState> {
        let l = self.cursor.0;
        let n = self.lines.len() as int;
        match k.key {
            Key::Enter => Some(self.entered()),
            Key::Backspace => Some(self.backspaced()),
            Key::Delete => Some(self.deleted()),
            Key::Tab => Some(self.inserted("    "@)),
            Key::Left => Some(self.left_key(k.shift)),
            Key::Right => Some(self.right_key(k.shift)),
            Key::Up => Some(if l > 0 { self.moved(self.at_line(l - 1), k.shift, true) } else { self }),
            Key::Down => Some(if l + 1 < n { self.moved(self.at_line(l + 1), k.shift, true) } else { self }),
            Key::Home => Some(self.moved((l, 0), k.shift, false)),
            Key::End => Some(self.moved((l, self.lines[l].len() as int), k.shift, false)),
            Key::PageUp => Some(self.moved(self.at_line(max(l - self.visible(m), 0)), k.shift, true)),
            Key::PageDown => Some(self.moved(self.at_line(min(l + self.visible(m), n - 1)), k.shift, true)),
            _ => None,
        }
    }

    /// What a key does before the view follows the cursor; `None` for keys
    /// that the editor does not use.
    pub open spec fn key_action(
        self,
        k: KeyEvent,
        now: u64,
        clipboard: Seq<char>,
        fresh: Seq<char>,
        m: Metrics,
        c: CtxState,
    ) -> Option<(EditorState, CtxState, RequestState)> {
        match k.key {
            Key::Char(ch) => self.char_action(ch, k, now, clipboard, fresh, c),
            _ => match self.move_action(k, m) {
                Some(s) => Some((s, c, RequestState::Nothing)),
                None => None,
            },
        }
    }

    /// The editor after a key: the wanted column follows all but vertical
    /// movements, and the view follows the cursor.
    pub open spec fn after_key(
        self,
        k: KeyEvent,
        now: u64,
        clipboard: Seq<char>,
        fresh: Seq<char>,
        m: Metrics,
        c: CtxState,
    ) -> (EditorState, CtxState, RequestState) {
        match self.key_action(k, now, clipboard, fresh, m, c) {
            None => (self, c, RequestState::Nothing),
            Some((s, c2, r)) => {
                let vertical = k.key == Key::Up || k.key == Key::Down || k.key == Key::PageUp || k.key == Key::PageDown;
                let t = EditorState { want_col: if vertical { s.want_col } else { s.cursor.1 }, ..s };
                (t.scrolled(m), c2, r)
            },
        }
    }

    /// A press of the main button in the text: a double click selects the
    /// word, a single one starts a selection.
    pub open spec fn pressed_at(self, p: (int, int), clicks: u8) -> EditorState {
        if clicks >= 2 {
            let line = self.lines[p.0];
            EditorState {
                anchor: Some((p.0, word_start(line, p.1))),
                cursor: (p.0, word_end(line, p.1)),
                want_col: word_end(line, p.1),
                ..self
            }
        } else {
            EditorState { anchor: Some(p), cursor: p, selecting: true, want_col: p.1, ..self }
        }
    }

    pub open spec fn hovered(x: int, y: int) -> Hover {
        if inside(12, 7, 70, 30, x, y) {
            Hover::Save
        } else if inside(88, 7, 86, 30, x, y) {
            Hover::SaveAs
        } else {
            Hover::Nothing
        }
    }

    /// The editor, its requests to the window manager and what it needs
    /// done outside, after an event.
    pub open spec fn after(
        self,
        ev: AppEvent,
        now: u64,
        clipboard: Seq<char>,
        fresh: Seq<char>,
        m: Metrics,
        c: CtxState,
    ) -> (EditorState, CtxState, RequestState) {
        let none = RequestState::Nothing;
        match ev {
            AppEvent::Key(k) => if k.pressed {
                let (s, c2, r) = (EditorState { blink_on: true, last_blink: now, ..self }).after_key(
                    k,
                    now,
                    clipboard,
                    fresh,
                    m,
                    c,
                );
                (s, c2.redrawn(), r)
            } else {
                (self, c, none)
            },
            AppEvent::MouseMove { x, y, buttons } => if self.selecting && buttons & 1 != 0 {
                let p = self.pos_at(x as int, y as int, m);
                if p != self.cursor {
                    ((EditorState { cursor: p, ..self }).scrolled(m), c.redrawn(), none)
                } else {
                    (self, c, none)
                }
            } else {
                let h = Self::hovered(x as int, y as int);
                if h != self.hover {
                    (EditorState { hover: h, ..self }, c.redrawn(), none)
                } else {
                    (self, c, none)
                }
            },
            AppEvent::MouseDown { x, y, button, clicks } => if button != 0 {
                (self, c, none)
            } else if Self::hovered(x as int, y as int) == Hover::Save {
                let (c2, r) = self.saving(fresh, c);
                (self, c2.redrawn(), r)
            } else if Self::hovered(x as int, y as int) == Hover::SaveAs {
                (self, self.save_as_dialog(fresh, c).redrawn(), none)
            } else if inside(0, TOOLBAR_H as int, self.size.0 as int, self.size.1 - TOOLBAR_H - STATUS_H, x as int, y as int) {
                (self.pressed_at(self.pos_at(x as int, y as int, m), clicks), c.redrawn(), none)
            } else {
                (self, c.redrawn(), none)
            },
            AppEvent::MouseUp { x, y, button } => (EditorState { selecting: false, ..self }, c, none),
            AppEvent::Wheel { x, y, delta } => (
                EditorState { top: clamp(self.top + 3 * delta, 0, self.lines.len() - 1), ..self },
                c.redrawn(),
                none,
            ),
            AppEvent::Message(msg) => match msg@ {
                super::app::MsgState::DialogResult { tag, value } => {
                    let v = match value {
                        Some(t) => t,
                        None => Seq::empty(),
                    };
                    if tag == TAG_SAVE_AS && value is Some {
                        (self, c.redrawn(), RequestState::Write { path: normalized("/"@, trim(v)), text: self.text() })
                    } else if tag == TAG_UNSAVED && value is Some && v == "ok"@ {
                        let s = EditorState { close_after_save: true, ..self };
                        let (c2, r) = s.saving(fresh, c);
                        (s, c2.redrawn(), r)
                    } else if tag == TAG_UNSAVED && value is Some && v == "alt"@ {
                        (EditorState { modified: false, ..self }, c.closed().redrawn(), none)
                    } else {
                        (EditorState { close_after_save: false, ..self }, c.redrawn(), none)
                    }
                },
                _ => (self, c, none),
            },
            AppEvent::Focus(_) => (self, c.redrawn(), none),
            AppEvent::Resized { w, h } => (self, c.redrawn(), none),
            AppEvent::MouseLeave => (self, c, none),
        }
    }

    /// The title of the window.
    pub open spec fn title(self) -> Seq<char> {
        (if self.modified { "\u{2022} "@ } else { ""@ }) + self.name() + " \u{2014} Text Editor"@
    }

    /// The question asked before unsaved changes are lost.
    pub open spec fn unsaved_dialog(self, window: u32) -> DialogState {
        DialogState {
            title: "Unsaved Changes"@,
            message: "Save changes to \u{201c}"@ + self.name() + "\u{201d} before closing?"@,
            input: None,
            ok_label: "Save"@,
            cancel_label: Some("Don't Save"@),
            danger: false,
            second_is_alt: true,
            tag: TAG_UNSAVED,
            reply_to: window,
            hover: None,
            size: (420i32, 140i32),
            answered: false,
        }
    }

    /// Columns of line `l` that are selected, and whether the end of the
    /// line is.
    pub open spec fn selected_on(self, l: int) -> Option<(int, int, bool)> {
        match self.selection() {
            Some((s, e)) => if s.0 <= l <= e.0 {
                Some(
                    (
                        if l == s.0 { s.1 } else { 0 },
                        if l == e.0 { e.1 } else { self.lines[l].len() as int },
                        l != e.0,
                    ),
                )
            } else {
                None
            },
            None => None,
        }
    }

    /// Rows of text that are drawn.
    pub open spec fn drawn_rows(self, m: Metrics) -> int {
        min(self.visible(m) + 1, max(self.lines.len() - self.top, 0))
    }
}

/// How one row of text is drawn.
pub struct Row {
    pub line: usize,
    /// Top of the row in the window.
    pub y: i64,
    /// The line of the cursor, with nothing selected.
    pub current: bool,
    /// Selected columns, and whether the selection goes on in the next line.
    pub selected: Option<(usize, usize, bool)>,
    /// Column of the caret, where it is shown.
    pub caret: Option<usize>,
}

impl Row {
    /// What is drawn in row `i` of the window.
    pub open spec fn shows(self, s: EditorState, i: int, focused: bool, m: Metrics) -> bool {
        let l = s.top + i;
        &&& self.line == l
        &&& self.y == TOOLBAR_H + PAD + i * m.lh
        &&& self.current == (l == s.cursor.0 && s.selection() is None)
        &&& match self.selected {
            Some(r) => s.selected_on(l) == Some((r.0 as int, r.1 as int, r.2)),
            None => s.selected_on(l) is None,
        }
        &&& match self.caret {
            Some(c) => l == s.cursor.0 && focused && s.blink_on && c == s.cursor.1,
            None => !(l == s.cursor.0 && focused && s.blink_on),
        }
    }
}

// ---------------------------------------------------------------------
// Editing
// ---------------------------------------------------------------------

fn is_word_char(c: char) -> (r: bool)
    ensures
        r == is_word(c),
{
    c.is_alphanumeric() || c == '_'
}

proof fn lemma_views_update(v: Seq<Vec<char>>, i: int, x: Vec<char>)
    requires
        0 <= i < v.len(),
    ensures
        views(v.update(i, x)) == views(v).update(i, x@),
{
    assert(views(v.update(i, x)) =~= views(v).update(i, x@));
}

impl Editor {
    pub fn new_empty() -> (r: Editor)
        ensures
            r@ == EditorState::empty(),
            r@.wf(),
    {
        let mut lines: Vec<Vec<char>> = Vec::new();
        lines.push(Vec::new());
        let r: Editor = Editor {
            path: None,
            lines,
            cursor: (0, 0),
            anchor: None,
            want_col: 0,
            top: 0,
            left: 0,
            modified: false,
            size: (700i32, 460i32),
            message: None,
            close_after_save: false,
            hover: Hover::Nothing,
            focused: true,
            blink_on: true,
            last_blink: 0,
            selecting: false,
        };
        proof {
            assert(r@.lines =~= EditorState::empty().lines);
        }
        r
    }

    /// Show a message for a while.
    pub fn flash(&mut self, msg: Vec<char>, error: bool, now: u64)
        ensures
            final(self)@ == old(self)@.flashed(msg@, error, now),
    {
        self.message = Some((msg, error, now.saturating_add(MESSAGE_MS)));
        proof {
            assert(self@.lines =~= old(self)@.lines);
        }
    }

    pub fn name(&self) -> (r: Vec<char>)
        ensures
            r@ == self@.name(),
    {
        match &self.path {
            Some(p) => file_name_chars(p),
            None => to_chars("Untitled"),
        }
    }

    /// All of the text.
    pub fn text(&self) -> (r: Vec<char>)
        ensures
            r@ == self@.text(),
    {
        join_with(&self.lines, '\n')
    }

    pub fn selection(&self) -> (r: Option<((usize, usize), (usize, usize))>)
        requires
            self@.wf(),
        ensures
            match r {
                Some(s) => self@.selection() == Some((pos(s.0), pos(s.1))),
                None => self@.selection() is None,
            },
            r matches Some(s) ==> in_text(self@.lines, pos(s.0)) && in_text(self@.lines, pos(s.1)) && before(
                pos(s.0),
                pos(s.1),
            ),
    {
        match self.anchor {
            None => None,
            Some(a) => {
                let c: (usize, usize) = self.cursor;
                if a.0 == c.0 && a.1 == c.1 {
                    None
                } else if a.0 < c.0 || (a.0 == c.0 && a.1 < c.1) {
                    Some((a, c))
                } else {
                    Some((c, a))
                }
            },
        }
    }

    pub fn selected_text(&self) -> (r: Option<Vec<char>>)
        requires
            self@.wf(),
        ensures
            match r {
                Some(t) => self@.selected() == Some(t@),
                None => self@.selected() is None,
            },
    {
        match self.selection() {
            None => None,
            Some((s, e)) => {
                if s.0 == e.0 {
                    return Some(copy_range(&self.lines[s.0], s.1, e.1));
                }
                let mut pieces: Vec<Vec<char>> = Vec::new();
                pieces.push(copy_range(&self.lines[s.0], s.1, self.lines[s.0].len()));
                let mut i: usize = s.0 + 1;
                while i < e.0
                    invariant
                        s.0 + 1 <= i <= e.0 < self.lines@.len(),
                        s.1 <= self.lines@[s.0 as int]@.len(),
                        views(pieces@) == seq![self@.lines[s.0 as int].skip(s.1 as int)] + self@.lines.subrange(
                            s.0 + 1,
                            i as int,
                        ),
                    decreases e.0 - i,
                {
                    let ghost b = pieces@;
                    pieces.push(copy(&self.lines[i]));
                    proof {
                        assert(views(pieces@) =~= views(b).push(self@.lines[i as int]));
                        assert(self@.lines.subrange(s.0 + 1, i + 1) =~= self@.lines.subrange(s.0 + 1, i as int).push(
                            self@.lines[i as int],
                        ));
                        assert(views(pieces@) =~= seq![self@.lines[s.0 as int].skip(s.1 as int)] + self@.lines.subrange(
                            s.0 + 1,
                            i + 1,
                        ));
                    }
                    i += 1;
                }
                let ghost b = pieces@;
                pieces.push(copy_range(&self.lines[e.0], 0, e.1));
                proof {
                    assert(self@.lines[e.0 as int].subrange(0, e.1 as int) =~= self@.lines[e.0 as int].take(e.1 as int));
                    assert(views(pieces@) =~= views(b).push(self@.lines[e.0 as int].take(e.1 as int)));
                    assert(views(pieces@) =~= seq![self@.lines[s.0 as int].skip(s.1 as int)] + self@.lines.subrange(
                        s.0 + 1,
                        e.0 as int,
                    ) + seq![self@.lines[e.0 as int].take(e.1 as int)]);
                }
                Some(join_with(&pieces, '\n'))
            },
        }
    }

    /// Delete the selected text; false where nothing was selected.
    pub fn delete_selection(&mut self) -> (r: bool)
        requires
            old(self)@.wf(),
        ensures
            final(self)@ == old(self)@.selection_deleted(),
            r == (old(self)@.selection() is Some),
            final(self)@.wf(),
            final(self)@.anchor is None,
    {
        let ghost lines0 = self@.lines;
        match self.selection() {
            None => {
                self.anchor = None;
                proof {
                    assert(self@.lines =~= lines0);
                }
                false
            },
            Some((s, e)) => {
                let mut merged: Vec<char> = copy_range(&self.lines[s.0], 0, s.1);
                let rest: Vec<char> = copy_range(&self.lines[e.0], e.1, self.lines[e.0].len());
                push_all(&mut merged, &rest);
                proof {
                    assert(merged@ =~= lines0[s.0 as int].take(s.1 as int) + lines0[e.0 as int].skip(e.1 as int));
                }
                let n: usize = self.lines.len();
                let mut below: Vec<Vec<char>> = self.lines.split_off(s.0);
                let mut keep: Vec<Vec<char>> = below.split_off(e.0 - s.0 + 1);
                let ghost a = self.lines@;
                let ghost k = keep@;
                self.lines.push(merged);
                self.lines.append(&mut keep);
                self.cursor = s;
                self.anchor = None;
                self.modified = true;
                proof {
                    assert(self@.lines =~= without(lines0, pos(s), pos(e)));
                    assert(self@.lines[s.0 as int] == merged@);
                }
                true
            },
        }
    }

    /// Insert a text without line breaks at the cursor.
    fn put(&mut self, part: &[char])
        requires
            old(self)@.wf(),
            old(self)@.anchor is None,
        ensures
            final(self)@ == (EditorState {
                lines: old(self)@.buf().put(part@).lines,
                cursor: old(self)@.buf().put(part@).cursor,
                ..old(self)@
            }),
            final(self)@.wf(),
    {
        let ghost lines0 = self@.lines;
        let (l, c): (usize, usize) = self.cursor;
        let mut line: Vec<char> = copy_range(&self.lines[l], 0, c);
        push_all(&mut line, part);
        let n: usize = line.len();
        let rest: Vec<char> = copy_range(&self.lines[l], c, self.lines[l].len());
        push_all(&mut line, &rest);
        proof {
            assert(line@ =~= lines0[l as int].take(c as int) + part@ + lines0[l as int].skip(c as int));
            lemma_views_update(self.lines@, l as int, line);
        }
        self.lines.set(l, line);
        self.cursor = (l, n);
        proof {
            assert(self@.lines =~= old(self)@.buf().put(part@).lines);
        }
    }

    /// Break the line at the cursor, keeping the indentation.
    pub fn newline(&mut self)
        requires
            old(self)@.wf(),
            old(self)@.anchor is None,
        ensures
            final(self)@ == old(self)@.with_buf(old(self)@.buf().broken()),
            final(self)@.wf(),
    {
        let ghost lines0 = self@.lines;
        let (l, c): (usize, usize) = self.cursor;
        let first: Vec<char> = copy_range(&self.lines[l], 0, c);
        let n: usize = count_run(&first, ' ');
        proof {
            assert(first@ =~= lines0[l as int].take(c as int));
            lemma_run_of(first@, ' ');
        }
        let mut second: Vec<char> = copy_range(&self.lines[l], 0, n);
        let rest: Vec<char> = copy_range(&self.lines[l], c, self.lines[l].len());
        push_all(&mut second, &rest);
        proof {
            assert(second@ =~= lines0[l as int].take(n as int) + lines0[l as int].skip(c as int));
            lemma_views_update(self.lines@, l as int, first);
        }
        self.lines.set(l, first);
        let ghost mid = self.lines@;
        let total: usize = self.lines.len();
        self.lines.insert(l + 1, second);
        self.cursor = (l + 1, n);
        self.modified = true;
        proof {
            assert(self@.lines =~= old(self)@.buf().broken().lines);
        }
    }

    /// Put `text` in place of the selection.
    pub fn insert_text(&mut self, text: &[char])
        requires
            old(self)@.wf(),
        ensures
            final(self)@ == old(self)@.inserted(text@),
            final(self)@.wf(),
            final(self)@.anchor is None,
    {
        self.delete_selection();
        let ghost d = self@;
        let parts: Vec<Vec<char>> = split_on(text, '\n');
        let mut i: usize = 0;
        proof {
            lemma_split_nonempty(text@, '\n');
        }
        while i < parts.len()
            invariant
                i <= parts@.len(),
                views(parts@) == split(text@, '\n'),
                self@.wf(),
                self@.anchor is None,
                d.anchor is None,
                self@ == (EditorState {
                    lines: d.buf().put_all(views(parts@).take(i as int)).lines,
                    cursor: d.buf().put_all(views(parts@).take(i as int)).cursor,
                    modified: self@.modified,
                    ..d
                }),
            decreases parts@.len() - i,
        {
            let ghost b0 = d.buf().put_all(views(parts@).take(i as int));
            if i > 0 {
                self.newline();
            }
            let part: Vec<char> = trimmed_end_char(&parts[i], '\r');
            self.put(&part);
            proof {
                let p = views(parts@).take(i + 1);
                assert(p.drop_last() =~= views(parts@).take(i as int));
                assert(p.last() == parts@[i as int]@);
                if i == 0 {
                    assert(p.len() == 1);
                    assert(views(parts@).take(0).len() == 0);
                }
            }
            i += 1;
        }
        self.modified = true;
        proof {
            assert(views(parts@).take(parts@.len() as int) =~= views(parts@));
            assert(self@.lines =~= old(self)@.inserted(text@).lines);
        }
    }

    pub fn backspace(&mut self)
        requires
            old(self)@.wf(),
        ensures
            final(self)@ == old(self)@.backspaced(),
            final(self)@.wf(),
    {
        let ghost lines0 = self@.lines;
        let (l, c): (usize, usize) = self.cursor;
        if self.delete_selection() {
            return;
        }
        if c > 0 {
            let mut line: Vec<char> = copy_range(&self.lines[l], 0, c - 1);
            let rest: Vec<char> = copy_range(&self.lines[l], c, self.lines[l].len());
            push_all(&mut line, &rest);
            proof {
                assert(line@ =~= lines0[l as int].remove(c - 1));
                lemma_views_update(self.lines@, l as int, line);
            }
            self.lines.set(l, line);
            self.cursor = (l, c - 1);
        } else if l > 0 {
            let mut line: Vec<char> = copy(&self.lines[l - 1]);
            let n: usize = line.len();
            push_all(&mut line, &self.lines[l]);
            proof {
                assert(line@ =~= lines0[l - 1] + lines0[l as int]);
                lemma_views_update(self.lines@, l - 1, line);
            }
            self.lines.set(l - 1, line);
            let ghost mid = self.lines@;
            self.lines.remove(l);
            self.cursor = (l - 1, n);
            proof {
                assert(views(self.lines@) =~= views(mid).remove(l as int));
            }
        } else {
            return;
        }
        self.modified = true;
        proof {
            assert(self@.lines =~= old(self)@.backspaced().lines);
        }
    }

    pub fn delete(&mut self)
        requires
            old(self)@.wf(),
        ensures
            final(self)@ == old(self)@.deleted(),
            final(self)@.wf(),
    {
        let ghost lines0 = self@.lines;
        let (l, c): (usize, usize) = self.cursor;
        if self.delete_selection() {
            return;
        }
        let n: usize = self.lines.len();
        if c < self.lines[l].len() {
            let mut line: Vec<char> = copy_range(&self.lines[l], 0, c);
            let rest: Vec<char> = copy_range(&self.lines[l], c + 1, self.lines[l].len());
            push_all(&mut line, &rest);
            proof {
                assert(line@ =~= lines0[l as int].remove(c as int));
                lemma_views_update(self.lines@, l as int, line);
            }
            self.lines.set(l, line);
        } else if l < n - 1 {
            let mut line: Vec<char> = copy(&self.lines[l]);
            push_all(&mut line, &self.lines[l + 1]);
            proof {
                assert(line@ =~= lines0[l as int] + lines0[l + 1]);
                lemma_views_update(self.lines@, l as int, line);
            }
            self.lines.set(l, line);
            let ghost mid = self.lines@;
            self.lines.remove(l + 1);
            proof {
                assert(views(self.lines@) =~= views(mid).remove(l + 1));
            }
        } else {
            return;
        }
        self.modified = true;
        proof {
            assert(self@.lines =~= old(self)@.deleted().lines);
        }
    }

    pub fn move_cursor(&mut self, to: (usize, usize), extend: bool, keep_col: bool)
        requires
            old(self)@.wf(),
            in_text(old(self)@.lines, pos(to)),
        ensures
            final(self)@ == old(self)@.moved(pos(to), extend, keep_col),
            final(self)@.wf(),
    {
        if extend {
            if self.anchor.is_none() {
                self.anchor = Some(self.cursor);
            }
        } else {
            self.anchor = None;
        }
        self.cursor = to;
        if !keep_col {
            self.want_col = to.1;
        }
        proof {
            assert(self@.lines =~= old(self)@.lines);
        }
    }

    // -----------------------------------------------------------------
    // Geometry
    // -----------------------------------------------------------------

    /// The part of the window that shows the text.
    pub fn text_rect(&self) -> (r: Rect)
        requires
            fits(self.size.1 - TOOLBAR_H - STATUS_H),
        ensures
            r == (Rect { x: 0, y: TOOLBAR_H, w: self.size.0, h: (self.size.1 - TOOLBAR_H - STATUS_H) as i32 }),
    {
        Rect::new(0, TOOLBAR_H, self.size.0, (self.size.1 as i64 - 68) as i32)
    }

    pub fn visible_lines(&self, m: &Metrics) -> (r: usize)
        requires
            m.wf(),
        ensures
            r == self@.visible(*m),
            r >= 1,
    {
        let h: i64 = self.size.1 as i64 - 68;
        if h < m.lh as i64 {
            1
        } else {
            let q: i64 = h / m.lh as i64;
            proof {
                assert(1 <= h / (m.lh as i64) <= h) by (nonlinear_arith)
                    requires
                        0 < m.lh <= h,
                ;
            }
            q as usize
        }
    }

    pub fn save_rect(&self) -> (r: Rect)
        ensures
            r == (Rect { x: 12, y: 7, w: 70, h: 30 }),
    {
        Rect::new(12, 7, 70, 30)
    }

    pub fn save_as_rect(&self) -> (r: Rect)
        ensures
            r == (Rect { x: 88, y: 7, w: 86, h: 30 }),
    {
        Rect::new(88, 7, 86, 30)
    }

    /// The position in the text under a point of the window.
    pub fn pos_at(&self, x: i32, y: i32, m: &Metrics) -> (r: (usize, usize))
        requires
            self@.wf(),
            m.wf(),
        ensures
            pos(r) == self@.pos_at(x as int, y as int, *m),
            in_text(self@.lines, pos(r)),
    {
        let n: usize = self.lines.len();
        let dy: i64 = y as i64 - 52;
        let row: i64 = if dy > 0 { dy / m.lh as i64 } else { 0 };
        proof {
            let b = max(dy as int, 0);
            assert(0 <= b / (m.lh as int) <= b) by (nonlinear_arith)
                requires
                    b >= 0,
                    m.lh > 0,
            ;
            assert(0int / (m.lh as int) == 0) by (nonlinear_arith)
                requires
                    m.lh > 0,
            ;
            assert(row == b / (m.lh as int));
        }
        let line: usize = if self.top >= n - 1 || row as u64 >= (n - 1 - self.top) as u64 {
            n - 1
        } else {
            self.top + row as usize
        };
        let dx: i64 = x as i64 - 60 + self.left as i64 + (m.cw / 2) as i64;
        let col: i64 = if dx > 0 { dx / m.cw as i64 } else { 0 };
        proof {
            let b = max(dx as int, 0);
            assert(0 <= b / (m.cw as int) <= b) by (nonlinear_arith)
                requires
                    b >= 0,
                    m.cw > 0,
            ;
            assert(0int / (m.cw as int) == 0) by (nonlinear_arith)
                requires
                    m.cw > 0,
            ;
            assert(col == b / (m.cw as int));
        }
        let len: usize = self.lines[line].len();
        let c: usize = if col as u64 >= len as u64 { len } else { col as usize };
        (line, c)
    }

    /// Scroll so that the cursor is in view.
    pub fn scroll_to_cursor(&mut self, m: &Metrics)
        requires
            old(self)@.wf(),
            m.wf(),
        ensures
            final(self)@ == old(self)@.scrolled(*m),
            final(self)@.wf(),
    {
        let vis: usize = self.visible_lines(m);
        let l: usize = self.cursor.0;
        if l < self.top {
            self.top = l;
        } else if l - self.top >= vis {
            self.top = l - vis + 1;
        }
        self.left = follow_x(self.cursor.1, m.cw, self.left, self.size.0 as i64 - 80);
        proof {
            assert(self@.lines =~= old(self)@.lines);
        }
    }

    // -----------------------------------------------------------------
    // Files
    // -----------------------------------------------------------------

    /// An editor on the file at `path`, given what reading it brought.
    /// `Err` with no text: there is no such file.
    pub fn open(path: &str, read: Result<Vec<u8>, Option<Vec<char>>>, now: u64) -> (r: Editor)
        ensures
            r@.wf(),
            ({
                let e = EditorState { path: Some(path@), ..EditorState::empty() };
                match read {
                    Ok(data) => {
                        let f = EditorState { lines: file_lines(read_text(data@)), ..e };
                        r@ == if data@.take(min(data@.len() as int, 4096)).contains(0u8) {
                            f.flashed("This looks like a binary file; saving may damage it."@, true, now)
                        } else {
                            f
                        }
                    },
                    Err(None) => r@ == e.flashed(
                        "New file \u{2014} it will be created when you save."@,
                        false,
                        now,
                    ),
                    Err(Some(why)) => r@ == e.flashed("Cannot read file: "@ + why@, true, now),
                }
            }),
    {
        let mut e: Editor = Editor::new_empty();
        e.path = Some(to_chars(path));
        proof {
            assert(e@ =~= (EditorState { path: Some(path@), ..EditorState::empty() }));
        }
        match read {
            Ok(data) => {
                let mut binary: bool = false;
                let mut i: usize = 0;
                let n: usize = min_usize(data.len(), 4096);
                while i < n
                    invariant
                        i <= n,
                        n == min(data@.len() as int, 4096),
                        binary == data@.take(i as int).contains(0u8),
                    decreases n - i,
                {
                    if data[i] == 0 {
                        binary = true;
                    }
                    proof {
                        let a = data@.take(i as int);
                        let b = data@.take(i + 1);
                        assert(b =~= a.push(data@[i as int]));
                        if a.contains(0u8) {
                            let k = choose|k: int| 0 <= k < a.len() && a[k] == 0u8;
                            assert(b[k] == 0u8);
                        }
                        if data@[i as int] == 0u8 {
                            assert(b[i as int] == 0u8);
                        } else if b.contains(0u8) {
                            let k = choose|k: int| 0 <= k < b.len() && b[k] == 0u8;
                            assert(a[k] == 0u8);
                        }
                    }
                    i += 1;
                }
                let text: String = text_of_bytes(&data);
                let pieces: Vec<Vec<char>> = split_on(&to_chars(text.as_str()), '\n');
                let mut lines: Vec<Vec<char>> = Vec::new();
                let mut j: usize = 0;
                while j < pieces.len()
                    invariant
                        j <= pieces@.len(),
                        views(pieces@) == split(text@, '\n'),
                        views(lines@) == file_lines(text@).take(j as int),
                    decreases pieces@.len() - j,
                {
                    let ghost b = lines@;
                    lines.push(trimmed_end_char(&pieces[j], '\r'));
                    proof {
                        assert(views(pieces@)[j as int] == pieces@[j as int]@);
                        assert(views(lines@) =~= views(b).push(file_lines(text@)[j as int]));
                        assert(file_lines(text@).take(j + 1) =~= file_lines(text@).take(j as int).push(
                            file_lines(text@)[j as int],
                        ));
                    }
                    j += 1;
                }
                proof {
                    lemma_split_nonempty(text@, '\n');
                    assert(file_lines(text@).take(pieces@.len() as int) =~= file_lines(text@));
                }
                e.lines = lines;
                if binary {
                    e.flash(to_chars("This looks like a binary file; saving may damage it."), true, now);
                }
            },
            Err(None) => {
                e.flash(to_chars("New file \u{2014} it will be created when you save."), false, now);
            },
            Err(Some(why)) => {
                let mut msg: Vec<char> = to_chars("Cannot read file: ");
                push_all(&mut msg, &why);
                e.flash(msg, true, now);
            },
        }
        e
    }

    /// What follows a write: the editor remembers the file, or shows why
    /// it could not be written; a window that waited for it closes.
    pub fn write_done(&mut self, path: &[char], failure: Option<Vec<char>>, now: u64, ctx: &mut Ctx)
        requires
            old(self)@.wf(),
        ensures
            final(self)@.wf(),
            match failure {
                None => {
                    &&& final(self)@ == (EditorState { path: Some(path@), modified: false, ..old(self)@ }).flashed(
                        "Saved to "@ + path@,
                        false,
                        now,
                    )
                    &&& final(ctx)@ == if old(self)@.close_after_save { old(ctx)@.closed() } else { old(ctx)@ }
                },
                Some(why) => {
                    &&& final(self)@ == old(self)@.flashed("Save failed: "@ + why@, true, now)
                    &&& final(ctx)@ == old(ctx)@
                },
            },
    {
        match failure {
            None => {
                self.path = Some(copy(path));
                self.modified = false;
                proof {
                    assert(self@ =~= (EditorState { path: Some(path@), modified: false, ..old(self)@ }));
                }
                let mut msg: Vec<char> = to_chars("Saved to ");
                push_all(&mut msg, path);
                self.flash(msg, false, now);
                if self.close_after_save {
                    ctx.close();
                }
            },
            Some(why) => {
                let mut msg: Vec<char> = to_chars("Save failed: ");
                push_all(&mut msg, &why);
                self.flash(msg, true, now);
            },
        }
    }

    /// Ask where to save; `fresh` is proposed for a text without a file.
    pub fn save_as(&self, fresh: &[char], ctx: &mut Ctx)
        ensures
            final(ctx)@ == self@.save_as_dialog(fresh@, old(ctx)@),
    {
        let initial: String = match &self.path {
            Some(p) => to_text(p),
            None => to_text(fresh),
        };
        let window: u32 = ctx.window;
        let d: Dialog = Dialog::input(
            "Save As",
            "Save the file as (full path):",
            initial.as_str(),
            "Save",
            TAG_SAVE_AS,
            window,
        );
        ctx.open_child(NewWindow::Dialog(d));
    }

    /// Save to the known file, or ask for a name.
    pub fn save(&self, fresh: &[char], ctx: &mut Ctx) -> (r: Request)
        ensures
            (final(ctx)@, r@) == self@.saving(fresh@, old(ctx)@),
    {
        match &self.path {
            Some(p) => Request::Write { path: copy(p), text: self.text() },
            None => {
                self.save_as(fresh, ctx);
                Request::Nothing
            },
        }
    }

    // -----------------------------------------------------------------
    // Events
    // -----------------------------------------------------------------

    /// Move to line `l`, keeping the wanted column as far as possible.
    fn move_to_line(&mut self, l: usize, extend: bool)
        requires
            old(self)@.wf(),
            l < old(self)@.lines.len(),
        ensures
            final(self)@ == old(self)@.moved(old(self)@.at_line(l as int), extend, true),
            final(self)@.wf(),
    {
        let col: usize = min_usize(self.want_col, self.lines[l].len());
        self.move_cursor((l, col), extend, true);
    }

    /// A character key; `None` where the editor does not use it.
    fn char_key(
        &mut self,
        ch: char,
        k: &KeyEvent,
        now: u64,
        clipboard: &[char],
        fresh: &[char],
        ctx: &mut Ctx,
    ) -> (r: Option<Request>)
        requires
            old(self)@.wf(),
        ensures
            final(self)@.wf(),
            match r {
                Some(q) => old(self)@.char_action(ch, *k, now, clipboard@, fresh@, old(ctx)@) == Some(
                    (final(self)@, final(ctx)@, q@),
                ),
                None => old(self)@.char_action(ch, *k, now, clipboard@, fresh@, old(ctx)@) is None && final(self)@ == old(
                    self,
                )@ && final(ctx)@ == old(ctx)@,
            },
    {
        if !k.ctrl {
            if k.alt {
                return None;
            }
            let mut one: Vec<char> = Vec::new();
            one.push(ch);
            proof {
                assert(one@ =~= seq![ch]);
            }
            self.insert_text(&one);
            return Some(Request::Nothing);
        }
        if ch == 's' {
            return Some(self.save(fresh, ctx));
        }
        if ch == 'S' {
            self.save_as(fresh, ctx);
            return Some(Request::Nothing);
        }
        if ch == 'a' {
            let n: usize = self.lines.len();
            self.anchor = Some((0, 0));
            self.cursor = (n - 1, self.lines[n - 1].len());
            proof {
                assert(self@.lines =~= old(self)@.lines);
            }
            return Some(Request::Nothing);
        }
        if ch == 'c' {
            if let Some(t) = self.selected_text() {
                self.flash(to_chars("Copied"), false, now);
                return Some(Request::Copy(t));
            }
            return Some(Request::Nothing);
        }
        if ch == 'x' {
            if let Some(t) = self.selected_text() {
                self.delete_selection();
                return Some(Request::Copy(t));
            }
            return Some(Request::Nothing);
        }
        if ch == 'v' {
            if clipboard.len() > 0 {
                self.insert_text(clipboard);
            }
            return Some(Request::Nothing);
        }
        None
    }

    fn go_left(&mut self, shift: bool)
        requires
            old(self)@.wf(),
        ensures
            final(self)@ == old(self)@.left_key(shift),
            final(self)@.wf(),
    {
        let (l, c): (usize, usize) = self.cursor;
        if !shift {
            if let Some(sel) = self.selection() {
                self.move_cursor(sel.0, false, false);
                return;
            }
        }
        if c > 0 {
            self.move_cursor((l, c - 1), shift, false);
        } else if l > 0 {
            let e: usize = self.lines[l - 1].len();
            self.move_cursor((l - 1, e), shift, false);
        }
    }

    fn go_right(&mut self, shift: bool)
        requires
            old(self)@.wf(),
        ensures
            final(self)@ == old(self)@.right_key(shift),
            final(self)@.wf(),
    {
        let (l, c): (usize, usize) = self.cursor;
        let n: usize = self.lines.len();
        if !shift {
            if let Some(sel) = self.selection() {
                self.move_cursor(sel.1, false, false);
                return;
            }
        }
        if c < self.lines[l].len() {
            self.move_cursor((l, c + 1), shift, false);
        } else if l < n - 1 {
            self.move_cursor((l + 1, 0), shift, false);
        }
    }

    /// The keys that produce no character; false where the editor does not
    /// use the key.
    fn move_key(&mut self, k: &KeyEvent, m: &Metrics) -> (r: bool)
        requires
            old(self)@.wf(),
            m.wf(),
        ensures
            final(self)@.wf(),
            r ==> old(self)@.move_action(*k, *m) == Some(final(self)@),
            !r ==> old(self)@.move_action(*k, *m) is None && final(self)@ == old(self)@,
    {
        let l: usize = self.cursor.0;
        let n: usize = self.lines.len();
        match k.key {
            Key::Enter => {
                self.delete_selection();
                self.newline();
            },
            Key::Backspace => self.backspace(),
            Key::Delete => self.delete(),
            Key::Tab => {
                let t: Vec<char> = to_chars("    ");
                self.insert_text(&t);
            },
            Key::Left => self.go_left(k.shift),
            Key::Right => self.go_right(k.shift),
            Key::Up => {
                if l > 0 {
                    self.move_to_line(l - 1, k.shift);
                }
            },
            Key::Down => {
                if l < n - 1 {
                    self.move_to_line(l + 1, k.shift);
                }
            },
            Key::Home => self.move_cursor((l, 0), k.shift, false),
            Key::End => {
                let len: usize = self.lines[l].len();
                self.move_cursor((l, len), k.shift, false);
            },
            Key::PageUp => {
                let vis: usize = self.visible_lines(m);
                let nl: usize = if l > vis { l - vis } else { 0 };
                self.move_to_line(nl, k.shift);
            },
            Key::PageDown => {
                let vis: usize = self.visible_lines(m);
                let nl: usize = if vis > n - 1 - l { n - 1 } else { l + vis };
                self.move_to_line(nl, k.shift);
            },
            _ => {
                return false;
            },
        }
        true
    }

    pub fn key(
        &mut self,
        k: &KeyEvent,
        now: u64,
        clipboard: &[char],
        fresh: &[char],
        m: &Metrics,
        ctx: &mut Ctx,
    ) -> (r: Request)
        requires
            old(self)@.wf(),
            m.wf(),
        ensures
            (final(self)@, final(ctx)@, r@) == old(self)@.after_key(*k, now, clipboard@, fresh@, *m, old(ctx)@),
            final(self)@.wf(),
    {
        let request: Request = match k.key {
            Key::Char(ch) => match self.char_key(ch, k, now, clipboard, fresh, ctx) {
                Some(q) => q,
                None => {
                    return Request::Nothing;
                },
            },
            _ => {
                if !self.move_key(k, m) {
                    return Request::Nothing;
                }
                Request::Nothing
            },
        };
        let ghost s1 = self@;
        let vertical: bool = k.key == Key::Up || k.key == Key::Down || k.key == Key::PageUp || k.key == Key::PageDown;
        if !vertical {
            self.want_col = self.cursor.1;
        }
        proof {
            assert(self@ =~= (EditorState { want_col: if vertical { s1.want_col } else { s1.cursor.1 }, ..s1 }));
        }
        self.scroll_to_cursor(m);
        request
    }

    /// Find the word around column `p` of a line.
    fn word_at(&self, l: usize, p: usize) -> (r: (usize, usize))
        requires
            l < self.lines@.len(),
            p <= self.lines@[l as int]@.len(),
        ensures
            r.0 == word_start(self.lines@[l as int]@, p as int),
            r.1 == word_end(self.lines@[l as int]@, p as int),
            r.0 <= p <= r.1 <= self.lines@[l as int]@.len(),
    {
        let line: &Vec<char> = &self.lines[l];
        let mut s: usize = p;
        while s > 0 && is_word_char(line[s - 1])
            invariant
                s <= p <= line@.len(),
                word_start(line@, p as int) == word_start(line@, s as int),
            decreases s,
        {
            s -= 1;
        }
        let mut e: usize = p;
        while e < line.len() && is_word_char(line[e])
            invariant
                p <= e <= line@.len(),
                word_end(line@, p as int) == word_end(line@, e as int),
            decreases line@.len() - e,
        {
            e += 1;
        }
        (s, e)
    }

    /// A press of the main button in the text.
    fn press(&mut self, p: (usize, usize), clicks: u8)
        requires
            old(self)@.wf(),
            in_text(old(self)@.lines, pos(p)),
        ensures
            final(self)@ == old(self)@.pressed_at(pos(p), clicks),
            final(self)@.wf(),
    {
        if clicks >= 2 {
            let (s, e): (usize, usize) = self.word_at(p.0, p.1);
            self.anchor = Some((p.0, s));
            self.cursor = (p.0, e);
        } else {
            self.anchor = Some(p);
            self.cursor = p;
            self.selecting = true;
        }
        self.want_col = self.cursor.1;
        proof {
            assert(self@.lines =~= old(self)@.lines);
        }
    }

    /// Scroll by wheel steps.
    fn wheel(&mut self, delta: i32)
        requires
            old(self)@.wf(),
        ensures
            final(self)@ == (EditorState {
                top: clamp(old(self)@.top + 3 * delta, 0, old(self)@.lines.len() - 1),
                ..old(self)@
            }),
            final(self)@.wf(),
    {
        let last: i128 = self.lines.len() as i128 - 1;
        let wanted: i128 = self.top as i128 + 3 * delta as i128;
        self.top = if wanted <= 0 {
            0
        } else if wanted >= last {
            last as usize
        } else {
            wanted as usize
        };
        proof {
            assert(self@.lines =~= old(self)@.lines);
        }
    }

    /// The answer of a dialog.
    fn dialog_result(&mut self, tag: u32, value: &Option<String>, fresh: &[char], ctx: &mut Ctx) -> (r: Request)
        requires
            old(self)@.wf(),
        ensures
            final(self)@.wf(),
            forall|now: u64, clipboard: Seq<char>, m: Metrics, msg: Msg|
                msg@ == (super::app::MsgState::DialogResult { tag, value: super::app::opt_text(*value) }) ==> (
                final(self)@,
                final(ctx)@,
                r@,
                ) == #[trigger] old(self)@.after(AppEvent::Message(msg), now, clipboard, fresh@, m, old(ctx)@),
    {
        let mut request: Request = Request::Nothing;
        match value {
            Some(text) => {
                let v: Vec<char> = to_chars(text.as_str());
                if tag == TAG_SAVE_AS {
                    let p: Vec<char> = normalize_chars(&to_chars("/"), &trimmed(&v));
                    request = Request::Write { path: p, text: self.text() };
                } else if tag == TAG_UNSAVED && is_str(&v, "ok") {
                    self.close_after_save = true;
                    proof {
                        assert(self@ =~= (EditorState { close_after_save: true, ..old(self)@ }));
                    }
                    request = self.save(fresh, ctx);
                } else if tag == TAG_UNSAVED && is_str(&v, "alt") {
                    self.modified = false;
                    proof {
                        assert(self@ =~= (EditorState { modified: false, ..old(self)@ }));
                    }
                    ctx.close();
                } else {
                    self.close_after_save = false;
                    proof {
                        assert(self@ =~= (EditorState { close_after_save: false, ..old(self)@ }));
                    }
                }
            },
            None => {
                self.close_after_save = false;
                proof {
                    assert(self@ =~= (EditorState { close_after_save: false, ..old(self)@ }));
                }
            },
        }
        ctx.redraw();
        request
    }

    pub fn event(
        &mut self,
        ev: &AppEvent,
        now: u64,
        clipboard: &[char],
        fresh: &[char],
        m: &Metrics,
        ctx: &mut Ctx,
    ) -> (r: Request)
        requires
            old(self)@.wf(),
            m.wf(),
        ensures
            (final(self)@, final(ctx)@, r@) == old(self)@.after(*ev, now, clipboard@, fresh@, *m, old(ctx)@),
            final(self)@.wf(),
    {
        match ev {
            AppEvent::Key(k) => {
                if k.pressed {
                    self.blink_on = true;
                    self.last_blink = now;
                    proof {
                        assert(self@ =~= (EditorState { blink_on: true, last_blink: now, ..old(self)@ }));
                    }
                    let r: Request = self.key(k, now, clipboard, fresh, m, ctx);
                    ctx.redraw();
                    return r;
                }
            },
            AppEvent::MouseMove { x, y, buttons } => {
                if self.selecting && *buttons & 1 != 0 {
                    let p: (usize, usize) = self.pos_at(*x, *y, m);
                    if p.0 != self.cursor.0 || p.1 != self.cursor.1 {
                        self.cursor = p;
                        proof {
                            assert(self@ =~= (EditorState { cursor: pos(p), ..old(self)@ }));
                        }
                        self.scroll_to_cursor(m);
                        ctx.redraw();
                    }
                    return Request::Nothing;
                }
                let h: Hover = if self.save_rect().contains(*x, *y) {
                    Hover::Save
                } else if self.save_as_rect().contains(*x, *y) {
                    Hover::SaveAs
                } else {
                    Hover::Nothing
                };
                if h != self.hover {
                    self.hover = h;
                    proof {
                        assert(self@ =~= (EditorState { hover: h, ..old(self)@ }));
                    }
                    ctx.redraw();
                }
            },
            AppEvent::MouseDown { x, y, button, clicks } => {
                if *button == 0 {
                    let mut request: Request = Request::Nothing;
                    if self.save_rect().contains(*x, *y) {
                        request = self.save(fresh, ctx);
                    } else if self.save_as_rect().contains(*x, *y) {
                        self.save_as(fresh, ctx);
                    } else if 0 <= *x && *x < self.size.0 && 44 <= *y && (*y as i64) < self.size.1 as i64 - 24 {
                        let p: (usize, usize) = self.pos_at(*x, *y, m);
                        self.press(p, *clicks);
                    }
                    ctx.redraw();
                    return request;
                }
            },
            AppEvent::MouseUp { x, y, button } => {
                self.selecting = false;
                proof {
                    assert(self@ =~= (EditorState { selecting: false, ..old(self)@ }));
                }
            },
            AppEvent::Wheel { x, y, delta } => {
                self.wheel(*delta);
                ctx.redraw();
            },
            AppEvent::Message(msg) => {
                if let Msg::DialogResult { tag, value } = msg {
                    return self.dialog_result(*tag, value, fresh, ctx);
                }
            },
            AppEvent::Focus(_) => ctx.redraw(),
            AppEvent::Resized { w, h } => ctx.redraw(),
            AppEvent::MouseLeave => {},
        }
        Request::Nothing
    }

    /// Blink the caret and let messages expire.
    pub fn tick(&mut self, now: u64, ctx: &mut Ctx)
        ensures
            ({
                let s = old(self)@;
                let blink = s.focused && now - s.last_blink >= 530;
                let expire = s.message matches Some(m) && now > m.2;
                &&& final(self)@ == (EditorState {
                    last_blink: if blink { now } else { s.last_blink },
                    blink_on: if blink { !s.blink_on } else { s.blink_on },
                    message: if expire { None } else { s.message },
                    ..s
                })
                &&& final(ctx)@ == if blink || expire { old(ctx)@.redrawn() } else { old(ctx)@ }
            }),
    {
        let ghost s = self@;
        if self.focused && now >= self.last_blink && now - self.last_blink >= 530 {
            self.last_blink = now;
            self.blink_on = !self.blink_on;
            ctx.redraw();
        }
        let expired: bool = match &self.message {
            Some(m) => now > m.2,
            None => false,
        };
        if expired {
            self.message = None;
            ctx.redraw();
        }
        proof {
            assert(self@.lines =~= s.lines);
        }
    }

    /// Whether the window may close at once; otherwise a dialog asks about
    /// the unsaved changes.
    pub fn request_close(&self, ctx: &mut Ctx) -> (r: bool)
        ensures
            r == !self@.modified,
            final(ctx)@ == if self@.modified {
                old(ctx)@.with(CommandState::OpenChild(NewWindowState::Dialog(self@.unsaved_dialog(old(ctx)@.window))))
            } else {
                old(ctx)@
            },
    {
        if !self.modified {
            return true;
        }
        let mut msg: Vec<char> = to_chars("Save changes to \u{201c}");
        let name: Vec<char> = self.name();
        push_all(&mut msg, &name);
        push_str(&mut msg, "\u{201d} before closing?");
        let text: String = to_text(&msg);
        let window: u32 = ctx.window;
        let d: Dialog = Dialog::choice("Unsaved Changes", text.as_str(), "Save", "Don't Save", TAG_UNSAVED, window);
        ctx.open_child(NewWindow::Dialog(d));
        false
    }

    pub fn title(&self) -> (r: String)
        ensures
            r@ == self@.title(),
    {
        let mut out: Vec<char> = if self.modified { to_chars("\u{2022} ") } else { to_chars("") };
        let name: Vec<char> = self.name();
        push_all(&mut out, &name);
        push_str(&mut out, " \u{2014} Text Editor");
        to_text(&out)
    }

    /// "Ln 3, Col 14"
    pub fn position_text(&self) -> (r: String)
        requires
            self.cursor.0 < u64::MAX,
            self.cursor.1 < u64::MAX,
        ensures
            r@ == "Ln "@ + dec((self.cursor.0 + 1) as nat) + ", Col "@ + dec((self.cursor.1 + 1) as nat),
    {
        let mut out: Vec<char> = to_chars("Ln ");
        push_dec(&mut out, self.cursor.0 as u64 + 1);
        push_str(&mut out, ", Col ");
        push_dec(&mut out, self.cursor.1 as u64 + 1);
        to_text(&out)
    }

    /// What the status bar says while there is no message; `bytes` is the
    /// size of the text in UTF-8.
    pub fn status_text(&self, bytes: u64) -> (r: String)
        ensures
            r@ == dec(self@.lines.len()) + " lines \u{00b7} "@ + size_text(bytes as int) + if self@.modified {
                " \u{00b7} unsaved changes"@
            } else {
                ""@
            },
    {
        let mut out: Vec<char> = Vec::new();
        push_dec(&mut out, self.lines.len() as u64);
        push_str(&mut out, " lines \u{00b7} ");
        let s: Vec<char> = size_chars(bytes);
        push_all(&mut out, &s);
        if self.modified {
            push_str(&mut out, " \u{00b7} unsaved changes");
        } else {
            push_str(&mut out, "");
        }
        proof {
            assert(out@ =~= dec(self@.lines.len()) + " lines \u{00b7} "@ + size_text(bytes as int) + if self@.modified {
                " \u{00b7} unsaved changes"@
            } else {
                ""@
            });
        }
        to_text(&out)
    }

    /// The rows of text to draw.
    pub fn rows(&self, focused: bool, m: &Metrics) -> (r: Vec<Row>)
        requires
            self@.wf(),
            m.wf(),
        ensures
            r@.len() == self@.drawn_rows(*m),
            forall|i: int| 0 <= i < r@.len() ==> (#[trigger] r@[i]).shows(self@, i, focused, *m),
    {
        let vis: usize = self.visible_lines(m);
        let n: usize = self.lines.len();
        let left: usize = if n > self.top { n - self.top } else { 0 };
        let count: usize = if left > vis { vis + 1 } else { left };
        let sel: Option<((usize, usize), (usize, usize))> = self.selection();
        let mut out: Vec<Row> = Vec::new();
        let mut i: usize = 0;
        let mut y: i64 = 52;
        while i < count
            invariant
                i <= count,
                count == self@.drawn_rows(*m),
                vis == self@.visible(*m),
                count <= vis + 1,
                vis <= 0x8000_0000,
                count <= left,
                left <= n,
                n == self.lines@.len(),
                left > 0 ==> left == n - self.top,
                m.wf(),
                self@.wf(),
                y == TOOLBAR_H + PAD + i * m.lh,
                match sel {
                    Some(s) => self@.selection() == Some((pos(s.0), pos(s.1))),
                    None => self@.selection() is None,
                },
                sel matches Some(s) ==> in_text(self@.lines, pos(s.0)) && in_text(self@.lines, pos(s.1)),
                out@.len() == i,
                forall|j: int| 0 <= j < i ==> (#[trigger] out@[j]).shows(self@, j, focused, *m),
            decreases count - i,
        {
            let l: usize = self.top + i;
            let selected: Option<(usize, usize, bool)> = match sel {
                Some((s, e)) => if s.0 <= l && l <= e.0 {
                    Some(
                        (if l == s.0 { s.1 } else { 0 }, if l == e.0 { e.1 } else { self.lines[l].len() }, l != e.0),
                    )
                } else {
                    None
                },
                None => None,
            };
            let here: bool = l == self.cursor.0;
            let caret: Option<usize> = if here && focused && self.blink_on { Some(self.cursor.1) } else { None };
            out.push(Row { line: l, y, current: here && sel.is_none(), selected, caret });
            proof {
                assert((i + 1) * m.lh == i * m.lh + m.lh) by (nonlinear_arith);
                assert(i * m.lh <= 0x8000_0001 * 0x7fff_ffff) by (nonlinear_arith)
                    requires
                        0 <= i <= 0x8000_0001,
                        0 <= m.lh <= 0x7fff_ffff,
                ;
            }
            y += m.lh as i64;
            i += 1;
        }
        out
    }
}

// ---------------------------------------------------------------------
// Laws
// ---------------------------------------------------------------------

/// A position cuts the text in two.
pub proof fn lemma_head_tail(lines: Seq<Seq<char>>, p: (int, int))
    requires
        in_text(lines, p),
    ensures
        head(lines, p) + tail(lines, p) == join(lines, '\n'),
{
    let line = lines[p.0];
    lemma_join_cut(lines.take(p.0), line.take(p.1), line.skip(p.1), lines.skip(p.0 + 1), '\n');
    assert(line.take(p.1) + line.skip(p.1) =~= line);
    assert(lines.take(p.0).push(line) + lines.skip(p.0 + 1) =~= lines);
}

/// The selected text is what stands between its two ends.
pub proof fn lemma_between(lines: Seq<Seq<char>>, s: (int, int), e: (int, int))
    requires
        in_text(lines, s),
        in_text(lines, e),
        before(s, e),
    ensures
        head(lines, s) + between(lines, s, e) + tail(lines, e) == join(lines, '\n'),
{
    lemma_head_tail(lines, e);
    let a = lines.take(s.0);
    let first = lines[s.0];
    let last = lines[e.0];
    if s.0 == e.0 {
        lemma_join_cut(a, first.take(s.1), first.subrange(s.1, e.1), Seq::empty(), '\n');
        assert(first.take(s.1) + first.subrange(s.1, e.1) =~= first.take(e.1));
        assert(a.push(first.take(e.1)) + Seq::<Seq<char>>::empty() =~= a.push(first.take(e.1)));
        let one = seq![first.subrange(s.1, e.1)] + Seq::<Seq<char>>::empty();
        assert(one =~= seq![first.subrange(s.1, e.1)]);
        assert(join(one, '\n') =~= first.subrange(s.1, e.1));
    } else {
        let mid = lines.subrange(s.0 + 1, e.0);
        let b = mid.push(last.take(e.1));
        lemma_join_cut(a, first.take(s.1), first.skip(s.1), b, '\n');
        assert(first.take(s.1) + first.skip(s.1) =~= first);
        assert(a.push(first) + b =~= lines.take(e.0).push(last.take(e.1)));
        assert(seq![first.skip(s.1)] + b =~= seq![first.skip(s.1)] + mid + seq![last.take(e.1)]);
    }
}

/// Deleting the selection removes just the selected text.
pub proof fn lemma_delete_removes(lines: Seq<Seq<char>>, s: (int, int), e: (int, int))
    requires
        in_text(lines, s),
        in_text(lines, e),
        before(s, e),
    ensures
        join(without(lines, s, e), '\n') == head(lines, s) + tail(lines, e),
{
    lemma_join_cut(lines.take(s.0), lines[s.0].take(s.1), lines[e.0].skip(e.1), lines.skip(e.0 + 1), '\n');
}

/// Inserting a piece of text puts it at the cursor and leaves the rest.
pub proof fn lemma_put_inserts(b: Buf, part: Seq<char>)
    requires
        b.wf(),
    ensures
        join(b.put(part).lines, '\n') == head(b.lines, b.cursor) + part + tail(b.lines, b.cursor),
        b.put(part).wf(),
{
    let (l, c) = b.cursor;
    let line = b.lines[l];
    let a = b.lines.take(l);
    let z = b.lines.skip(l + 1);
    lemma_join_cut(a, line.take(c) + part, line.skip(c), z, '\n');
    assert(a.push(line.take(c) + part + line.skip(c)) + z =~= b.put(part).lines);
    lemma_join_cut(a, line.take(c), part, Seq::empty(), '\n');
    assert(a.push(line.take(c) + part) + Seq::<Seq<char>>::empty() =~= a.push(line.take(c) + part));
    let one = seq![part] + Seq::<Seq<char>>::empty();
    assert(one =~= seq![part]);
    assert(join(one, '\n') =~= part);
}

/// Breaking a line puts a line break and the indentation at the cursor.
pub proof fn lemma_break_inserts(b: Buf)
    requires
        b.wf(),
    ensures
        join(b.broken().lines, '\n') == head(b.lines, b.cursor) + seq!['\n'] + b.lines[b.cursor.0].take(
            b.indent() as int,
        ) + tail(b.lines, b.cursor),
        b.broken().wf(),
{
    let (l, c) = b.cursor;
    let line = b.lines[l];
    let a = b.lines.take(l).push(line.take(c));
    let z = b.lines.skip(l + 1);
    let n = b.indent() as int;
    lemma_run_of(line.take(c), ' ');
    lemma_join_cut(a, line.take(n), line.skip(c), z, '\n');
    assert(a.push(line.take(n) + line.skip(c)) + z =~= b.broken().lines);
    assert(a.push(line.take(n)).drop_last() =~= a);
    assert(join(a.push(line.take(n)), '\n') =~= join(a, '\n').push('\n') + line.take(n));
    assert(join(a, '\n').push('\n') + line.take(n) =~= join(a, '\n') + seq!['\n'] + line.take(n));
}

/// Cutting a selection inside one line and pasting it again restores the
/// text, unless the cut piece ends in a carriage return, which pasting
/// drops.
pub proof fn lemma_cut_paste(st: EditorState)
    requires
        st.wf(),
        st.selection() is Some,
        ({
            let r = st.selection()->0;
            r.0.0 == r.1.0 && !st.selected()->0.contains('\n') && st.selected()->0.last() != '\r'
        }),
    ensures
        st.selection_deleted().inserted(st.selected()->0).text() == st.text(),
{
    let (s, e) = st.selection()->0;
    let cut = st.selected()->0;
    let d = st.selection_deleted();
    lemma_split_join(seq![cut], '\n');
    assert(join(seq![cut], '\n') =~= cut);
    assert(split(cut, '\n') == seq![cut]);
    assert(trim_end_char(cut, '\r') == cut);
    assert(d.selection() is None);
    let line = st.lines[s.0];
    let r = d.inserted(cut);
    assert(d.lines[s.0] == line.take(s.1) + line.skip(e.1));
    assert(r.lines =~= d.lines.update(s.0, d.lines[s.0].take(s.1) + cut + d.lines[s.0].skip(s.1)));
    assert(d.lines[s.0].take(s.1) =~= line.take(s.1));
    assert(d.lines[s.0].skip(s.1) =~= line.skip(e.1));
    assert(line.take(s.1) + line.subrange(s.1, e.1) + line.skip(e.1) =~= line);
    assert(r.lines =~= st.lines);
}

/// Typing a character and deleting it with backspace restores the text.
pub proof fn lemma_type_backspace(st: EditorState, ch: char)
    requires
        st.wf(),
        st.selection() is None,
        ch != '\n',
        ch != '\r',
    ensures
        st.inserted(seq![ch]).backspaced().text() == st.text(),
        st.inserted(seq![ch]).backspaced().cursor == st.cursor,
{
    let one = seq![ch];
    lemma_split_join(seq![one], '\n');
    assert(join(seq![one], '\n') =~= one);
    assert(split(one, '\n') == seq![one]);
    assert(trim_end_char(one, '\r') == one);
    let (l, c) = st.cursor;
    let line = st.lines[l];
    let d = st.selection_deleted();
    let t = st.inserted(one);
    assert(t.lines =~= st.lines.update(l, line.take(c) + one + line.skip(c)));
    assert(t.cursor == (l, c + 1));
    assert(t.lines[l].remove(c) =~= line);
    assert(t.backspaced().lines =~= st.lines);
}

/// A text whose lines hold no line breaks and end in no carriage return
/// is the same after it was saved and opened again.
pub proof fn lemma_save_open(lines: Seq<Seq<char>>)
    requires
        lines.len() >= 1,
        forall|i: int|
            0 <= i < lines.len() ==> !(#[trigger] lines[i]).contains('\n') && (lines[i].len() > 0 ==> lines[i].last() != '\r'),
    ensures
        file_lines(read_text(encode_utf8(join(lines, '\n')))) == lines,
{
    lemma_read_back(join(lines, '\n'));
    lemma_split_join(lines, '\n');
    assert forall|i: int| 0 <= i < lines.len() implies trim_end_char(#[trigger] lines[i], '\r') == lines[i] by {}
    assert(file_lines(join(lines, '\n')) =~= lines);
}

/// The lines of an opened file hold no line breaks.
pub proof fn lemma_opened_lines(text: Seq<char>)
    ensures
        file_lines(text).len() >= 1,
        forall|i: int| 0 <= i < file_lines(text).len() ==> !(#[trigger] file_lines(text)[i]).contains('\n'),
{
    lemma_split_nonempty(text, '\n');
    lemma_split_pieces(text, '\n');
    assert forall|i: int| 0 <= i < file_lines(text).len() implies !(#[trigger] file_lines(text)[i]).contains('\n') by {
        let p = split(text, '\n')[i];
        lemma_trim_end_char(p, '\r');
        let q = file_lines(text)[i];
        if q.contains('\n') {
            let k = choose|k: int| 0 <= k < q.len() && q[k] == '\n';
            assert(p[k] == '\n');
        }
    }
}

// ---------------------------------------------------------------------
// What keys do to the text
// ---------------------------------------------------------------------

pub open spec fn spaces(n: nat) -> Seq<char> {
    Seq::new(n, |i: int| ' ')
}

/// The position one character further on.
pub open spec fn next_pos(lines: Seq<Seq<char>>, p: (int, int)) -> (int, int) {
    if p.1 < lines[p.0].len() { (p.0, p.1 + 1) } else { (p.0 + 1, 0) }
}

/// One position further on is one character further on in the text.
proof fn lemma_next_pos(lines: Seq<Seq<char>>, p: (int, int)) -> (ch: char)
    requires
        in_text(lines, p),
        p.1 < lines[p.0].len() || p.0 + 1 < lines.len(),
    ensures
        in_text(lines, next_pos(lines, p)),
        head(lines, next_pos(lines, p)) == head(lines, p).push(ch),
        tail(lines, p) == seq![ch] + tail(lines, next_pos(lines, p)),
{
    let (l, c) = p;
    let line = lines[l];
    let none = Seq::<Seq<char>>::empty();
    if c < line.len() {
        let ch = line[c];
        let one = seq![ch];
        let rest = lines.skip(l + 1);
        assert(line.skip(c) =~= one + line.skip(c + 1));
        lemma_join_cut(none, one, line.skip(c + 1), rest, '\n');
        assert(none.push(one + line.skip(c + 1)) + rest =~= seq![line.skip(c)] + rest);
        assert(none.push(one) =~= seq![one]);
        assert(join(seq![one], '\n') =~= one);
        let a = lines.take(l);
        lemma_join_cut(a, line.take(c), one, none, '\n');
        assert(line.take(c + 1) =~= line.take(c) + one);
        assert(a.push(line.take(c) + one) + none =~= a.push(line.take(c + 1)));
        assert(seq![one] + none =~= seq![one]);
        assert(head(lines, (l, c + 1)) =~= head(lines, p).push(ch));
        ch
    } else {
        let a = lines.take(l).push(line.take(c));
        assert(line.take(c) =~= line);
        assert(a =~= lines.take(l + 1));
        let e = Seq::<char>::empty();
        assert(lines[l + 1].take(0) =~= e);
        assert(lines.take(l + 1).push(e).drop_last() =~= a);
        assert(head(lines, (l + 1, 0)) =~= head(lines, p).push('\n'));
        assert(line.skip(c) =~= e);
        let z = lines.skip(l + 1);
        assert(seq![lines[l + 1].skip(0)] + lines.skip(l + 2) =~= z) by {
            assert(lines[l + 1].skip(0) =~= lines[l + 1]);
        }
        lemma_join_append(seq![e], z, '\n');
        assert(join(seq![e], '\n') =~= e);
        assert(tail(lines, p) =~= seq!['\n'] + tail(lines, (l + 1, 0)));
        '\n'
    }
}

/// At the end of the text nothing follows.
proof fn lemma_end(lines: Seq<Seq<char>>, p: (int, int))
    requires
        in_text(lines, p),
    ensures
        tail(lines, p).len() == 0 <==> p.0 + 1 == lines.len() && p.1 == lines[p.0].len(),
{
    if p.0 + 1 == lines.len() && p.1 == lines[p.0].len() {
        let e = Seq::<char>::empty();
        assert(lines[p.0].skip(p.1) =~= e);
        assert(seq![e] + lines.skip(p.0 + 1) =~= seq![e]);
        assert(join(seq![e], '\n') =~= e);
    } else {
        let ch = lemma_next_pos(lines, p);
    }
}

/// At the start of the text nothing stands before.
proof fn lemma_start(lines: Seq<Seq<char>>, p: (int, int))
    requires
        in_text(lines, p),
    ensures
        head(lines, p).len() == 0 <==> p == (0int, 0int),
{
    if p == (0int, 0int) {
        let e = Seq::<char>::empty();
        assert(lines[0].take(0) =~= e);
        assert(lines.take(0).push(e) =~= seq![e]);
        assert(join(seq![e], '\n') =~= e);
    } else if p.1 > 0 {
        let ch = lemma_next_pos(lines, (p.0, p.1 - 1));
    } else {
        let ch = lemma_next_pos(lines, (p.0 - 1, lines[p.0 - 1].len() as int));
    }
}

/// Right goes over one character, and at the end nowhere; the text stays.
pub proof fn lemma_right_passes_one(st: EditorState)
    requires
        st.wf(),
        st.selection() is None,
    ensures
        ({
            let r = st.right_key(false);
            &&& r.lines == st.lines
            &&& r.wf()
            &&& r.selection() is None
            &&& tail(st.lines, st.cursor).len() == 0 ==> r.cursor == st.cursor
            &&& tail(st.lines, st.cursor).len() > 0 ==> tail(r.lines, r.cursor) == tail(st.lines, st.cursor).skip(1)
                && head(r.lines, r.cursor) == head(st.lines, st.cursor).push(tail(st.lines, st.cursor)[0])
        }),
{
    lemma_end(st.lines, st.cursor);
    if tail(st.lines, st.cursor).len() > 0 {
        let ch = lemma_next_pos(st.lines, st.cursor);
        let r = st.right_key(false);
        assert(r.cursor == next_pos(st.lines, st.cursor));
        assert((seq![ch] + tail(r.lines, r.cursor)).skip(1) =~= tail(r.lines, r.cursor));
    }
}

/// Left goes back over one character, and at the start nowhere; the text
/// stays.
pub proof fn lemma_left_passes_one(st: EditorState)
    requires
        st.wf(),
        st.selection() is None,
    ensures
        ({
            let r = st.left_key(false);
            &&& r.lines == st.lines
            &&& r.wf()
            &&& r.selection() is None
            &&& head(st.lines, st.cursor).len() == 0 ==> r.cursor == st.cursor
            &&& head(st.lines, st.cursor).len() > 0 ==> head(r.lines, r.cursor) == head(st.lines, st.cursor).drop_last()
                && tail(r.lines, r.cursor) == seq![head(st.lines, st.cursor).last()] + tail(st.lines, st.cursor)
        }),
{
    lemma_start(st.lines, st.cursor);
    if head(st.lines, st.cursor).len() > 0 {
        let r = st.left_key(false);
        let ch = lemma_next_pos(st.lines, r.cursor);
        assert(next_pos(st.lines, r.cursor) == st.cursor);
        assert(head(r.lines, r.cursor).push(ch).drop_last() =~= head(r.lines, r.cursor));
    }
}

/// Left takes back what Right did, and Right what Left did.
pub proof fn lemma_left_undoes_right(st: EditorState)
    requires
        st.wf(),
        st.selection() is None,
    ensures
        tail(st.lines, st.cursor).len() > 0 ==> st.right_key(false).left_key(false).cursor == st.cursor,
        head(st.lines, st.cursor).len() > 0 ==> st.left_key(false).right_key(false).cursor == st.cursor,
{
    lemma_end(st.lines, st.cursor);
    lemma_start(st.lines, st.cursor);
}

/// Taking out what stands between two positions leaves what is before and
/// behind them.
proof fn lemma_without(lines: Seq<Seq<char>>, s: (int, int), e: (int, int))
    requires
        in_text(lines, s),
        in_text(lines, e),
        s == e || before(s, e),
    ensures
        in_text(without(lines, s, e), s),
        head(without(lines, s, e), s) == head(lines, s),
        tail(without(lines, s, e), s) == tail(lines, e),
{
    let w = without(lines, s, e);
    let new = lines[s.0].take(s.1) + lines[e.0].skip(e.1);
    assert(w[s.0] == new);
    assert(w.take(s.0) =~= lines.take(s.0));
    assert(new.take(s.1) =~= lines[s.0].take(s.1));
    assert(new.skip(s.1) =~= lines[e.0].skip(e.1));
    assert(w.skip(s.0 + 1) =~= lines.skip(e.0 + 1));
}

/// With nothing selected, Delete takes out just the character after the
/// cursor, and at the end nothing: what stands before the cursor stays, and
/// so does the cursor. It does what Right and then Backspace do.
pub proof fn lemma_delete_takes_one(st: EditorState)
    requires
        st.wf(),
        st.selection() is None,
    ensures
        ({
            let d = st.deleted();
            &&& d.wf()
            &&& d.cursor == st.cursor
            &&& head(d.lines, d.cursor) == head(st.lines, st.cursor)
            &&& tail(st.lines, st.cursor).len() == 0 ==> d.lines == st.lines
            &&& tail(st.lines, st.cursor).len() > 0 ==> {
                let rb = st.right_key(false).backspaced();
                &&& tail(d.lines, d.cursor) == tail(st.lines, st.cursor).skip(1)
                &&& d.lines == rb.lines
                &&& d.cursor == rb.cursor
                &&& d.modified
            }
        }),
{
    let d = st.deleted();
    lemma_end(st.lines, st.cursor);
    if tail(st.lines, st.cursor).len() > 0 {
        let q = next_pos(st.lines, st.cursor);
        let ch = lemma_next_pos(st.lines, st.cursor);
        assert((seq![ch] + tail(st.lines, q)).skip(1) =~= tail(st.lines, q));
        lemma_without(st.lines, st.cursor, q);
        let w = without(st.lines, st.cursor, q);
        let (l, c) = st.cursor;
        let line = st.lines[l];
        if c < line.len() {
            assert(line.remove(c) =~= line.take(c) + line.skip(c + 1));
            assert(d.lines =~= w);
            assert(st.right_key(false).backspaced().lines =~= w);
        } else {
            assert(line + st.lines[l + 1] =~= line.take(c) + st.lines[l + 1].skip(0));
            assert(d.lines =~= w);
            assert(st.right_key(false).backspaced().lines =~= w);
        }
    }
}

/// With nothing selected, Backspace takes out just the character before the
/// cursor, and at the start nothing: what stands behind the cursor stays.
pub proof fn lemma_backspace_takes_one(st: EditorState)
    requires
        st.wf(),
        st.selection() is None,
    ensures
        ({
            let b = st.backspaced();
            &&& b.wf()
            &&& tail(b.lines, b.cursor) == tail(st.lines, st.cursor)
            &&& head(st.lines, st.cursor).len() == 0 ==> b.lines == st.lines && b.cursor == st.cursor
            &&& head(st.lines, st.cursor).len() > 0 ==> head(b.lines, b.cursor) == head(
                st.lines,
                st.cursor,
            ).drop_last() && b.modified
        }),
{
    let b = st.backspaced();
    lemma_start(st.lines, st.cursor);
    if head(st.lines, st.cursor).len() > 0 {
        let q = st.left_key(false).cursor;
        let ch = lemma_next_pos(st.lines, q);
        assert(next_pos(st.lines, q) == st.cursor);
        assert(head(st.lines, q).push(ch).drop_last() =~= head(st.lines, q));
        lemma_without(st.lines, q, st.cursor);
        let w = without(st.lines, q, st.cursor);
        let (l, c) = st.cursor;
        if c > 0 {
            assert(st.lines[l].remove(c - 1) =~= st.lines[l].take(c - 1) + st.lines[l].skip(c));
            assert(b.lines =~= w);
        } else {
            assert(st.lines[l - 1] + st.lines[l] =~= st.lines[l - 1].take(q.1) + st.lines[l].skip(0));
            assert(b.lines =~= w);
        }
        assert(b.cursor == q);
    }
}

/// With something selected, Delete and Backspace take out just that, and the
/// cursor is where it was.
pub proof fn lemma_delete_takes_selection(st: EditorState)
    requires
        st.wf(),
        st.selection() is Some,
    ensures
        ({
            let (s, e) = st.selection()->0;
            let d = st.deleted();
            &&& st.backspaced() == d
            &&& d.wf()
            &&& d.selection() is None
            &&& head(d.lines, d.cursor) == head(st.lines, s)
            &&& tail(d.lines, d.cursor) == tail(st.lines, e)
            &&& head(st.lines, s) + st.selected()->0 + tail(st.lines, e) == st.text()
        }),
{
    let (s, e) = st.selection()->0;
    lemma_without(st.lines, s, e);
    lemma_between(st.lines, s, e);
}

/// Where the text goes on after something is put in at the cursor.
proof fn lemma_put_at(b: Buf, part: Seq<char>)
    requires
        b.wf(),
    ensures
        b.put(part).wf(),
        head(b.put(part).lines, b.put(part).cursor) == head(b.lines, b.cursor) + part,
        tail(b.put(part).lines, b.put(part).cursor) == tail(b.lines, b.cursor),
{
    let (l, c) = b.cursor;
    let line = b.lines[l];
    let n = b.put(part);
    let a = b.lines.take(l);
    let none = Seq::<Seq<char>>::empty();
    let new = line.take(c) + part + line.skip(c);
    assert(n.lines[l] == new);
    assert(n.lines.take(l) =~= a);
    assert(new.take(c + part.len()) =~= line.take(c) + part);
    lemma_join_cut(a, line.take(c), part, none, '\n');
    assert(a.push(line.take(c) + part) + none =~= a.push(line.take(c) + part));
    assert(seq![part] + none =~= seq![part]);
    assert(join(seq![part], '\n') =~= part);
    assert(new.skip(c + part.len()) =~= line.skip(c));
    assert(n.lines.skip(l + 1) =~= b.lines.skip(l + 1));
}

proof fn lemma_break_at(b: Buf)
    requires
        b.wf(),
    ensures
        b.broken().wf(),
        head(b.broken().lines, b.broken().cursor) == head(b.lines, b.cursor) + seq!['\n'] + spaces(b.indent()),
        tail(b.broken().lines, b.broken().cursor) == tail(b.lines, b.cursor),
{
    let (l, c) = b.cursor;
    let line = b.lines[l];
    let n = b.indent() as int;
    let r = b.broken();
    lemma_run_of(line.take(c), ' ');
    let new = line.take(n) + line.skip(c);
    assert(r.lines[l + 1] == new);
    let a = b.lines.take(l).push(line.take(c));
    assert(r.lines.take(l + 1) =~= a);
    let blank = spaces(b.indent());
    assert(new.take(n) =~= blank) by {
        assert forall|i: int| 0 <= i < n implies new[i] == ' ' by {
            assert(line.take(c)[i] == ' ');
        }
    }
    assert(a.push(blank).drop_last() =~= a);
    assert(head(r.lines, r.cursor) =~= head(b.lines, b.cursor) + seq!['\n'] + blank);
    assert(new.skip(n) =~= line.skip(c));
    assert(r.lines.skip(l + 2) =~= b.lines.skip(l + 1));
}

proof fn lemma_put_all_at(b: Buf, parts: Seq<Seq<char>>) -> (more: Seq<char>)
    requires
        b.wf(),
    ensures
        b.put_all(parts).wf(),
        head(b.put_all(parts).lines, b.put_all(parts).cursor) == head(b.lines, b.cursor) + more,
        tail(b.put_all(parts).lines, b.put_all(parts).cursor) == tail(b.lines, b.cursor),
    decreases parts.len(),
{
    if parts.len() == 0 {
        assert(head(b.lines, b.cursor) + Seq::<char>::empty() =~= head(b.lines, b.cursor));
        Seq::empty()
    } else if parts.len() == 1 {
        lemma_put_at(b, trim_end_char(parts[0], '\r'));
        trim_end_char(parts[0], '\r')
    } else {
        let a = b.put_all(parts.drop_last());
        let m = lemma_put_all_at(b, parts.drop_last());
        lemma_break_at(a);
        let z = a.broken();
        let t = trim_end_char(parts.last(), '\r');
        lemma_put_at(z, t);
        let more = m + seq!['\n'] + spaces(a.indent()) + t;
        assert(head(b.lines, b.cursor) + more =~= head(b.lines, b.cursor) + m + seq!['\n'] + spaces(a.indent()) + t);
        more
    }
}

/// Text on one line goes in right before the cursor, in place of what is
/// selected; everything else stays as it is.
pub proof fn lemma_typed_goes_in(st: EditorState, text: Seq<char>)
    requires
        st.wf(),
        !text.contains('\n'),
        !text.contains('\r'),
    ensures
        ({
            let n = st.inserted(text);
            let (s, e) = match st.selection() {
                Some(r) => r,
                None => (st.cursor, st.cursor),
            };
            &&& n.wf()
            &&& n.selection() is None
            &&& n.modified
            &&& head(n.lines, n.cursor) == head(st.lines, s) + text
            &&& tail(n.lines, n.cursor) == tail(st.lines, e)
        }),
{
    let d = st.selection_deleted();
    lemma_split_join(seq![text], '\n');
    assert(join(seq![text], '\n') =~= text);
    assert(split(text, '\n') == seq![text]);
    if text.len() > 0 {
        assert(text.contains(text.last()));
    }
    assert(trim_end_char(text, '\r') == text);
    if st.selection() is Some {
        let (s, e) = st.selection()->0;
        lemma_without(st.lines, s, e);
    }
    lemma_put_at(d.buf(), text);
}

/// Whatever is pasted goes in before the cursor: what stood before it still
/// begins the text, and what stood behind it ends it.
pub proof fn lemma_pasted_goes_in(st: EditorState, text: Seq<char>)
    requires
        st.wf(),
    ensures
        ({
            let n = st.inserted(text);
            let (s, e) = match st.selection() {
                Some(r) => r,
                None => (st.cursor, st.cursor),
            };
            &&& n.wf()
            &&& n.selection() is None
            &&& head(st.lines, s).is_prefix_of(head(n.lines, n.cursor))
            &&& tail(n.lines, n.cursor) == tail(st.lines, e)
        }),
{
    let d = st.selection_deleted();
    if st.selection() is Some {
        let (s, e) = st.selection()->0;
        lemma_without(st.lines, s, e);
    }
    let more = lemma_put_all_at(d.buf(), split(text, '\n'));
}

/// Enter puts in a line break and as many spaces as the line began with, and
/// nothing else.
pub proof fn lemma_enter_breaks(st: EditorState)
    requires
        st.wf(),
        st.selection() is None,
    ensures
        ({
            let n = st.entered();
            let line = st.lines[st.cursor.0].take(st.cursor.1);
            &&& n.wf()
            &&& exists|k: nat|
                k <= line.len() && (forall|i: int| 0 <= i < k ==> line[i] == ' ') && (k < line.len() ==> line[k as int]
                    != ' ') && head(n.lines, n.cursor) == head(st.lines, st.cursor) + seq!['\n'] + #[trigger] spaces(k)
            &&& tail(n.lines, n.cursor) == tail(st.lines, st.cursor)
        }),
{
    let line = st.lines[st.cursor.0].take(st.cursor.1);
    lemma_break_at(st.selection_deleted().buf());
    lemma_run_of(line, ' ');
    let k = st.buf().indent();
    assert(spaces(k) == spaces(st.buf().indent()));
}

/// All of the text can be selected at once, and what is copied or cut is
/// what is selected: copying leaves the text as it is, cutting takes it out.
pub proof fn lemma_select_copy_cut(
    st: EditorState,
    k: KeyEvent,
    now: u64,
    clipboard: Seq<char>,
    fresh: Seq<char>,
    c: CtxState,
)
    requires
        st.wf(),
        k.ctrl,
    ensures
        st.text().len() > 0 ==> (st.char_action('a', k, now, clipboard, fresh, c) matches Some((e, _, _)) && e.lines
            == st.lines && e.selected() == Some(st.text())),
        st.selected() matches Some(t) ==> {
            &&& st.char_action('c', k, now, clipboard, fresh, c) matches Some((e, _, RequestState::Copy(u))) && u == t
                && e.lines == st.lines && e.cursor == st.cursor && e.selection() == st.selection()
            &&& st.char_action('x', k, now, clipboard, fresh, c) matches Some((e, _, RequestState::Copy(u))) && u == t
                && e.lines == st.deleted().lines && e.cursor == st.deleted().cursor
        },
        st.char_action('v', k, now, clipboard, fresh, c) matches Some((e, _, RequestState::Nothing)) && (
        clipboard.len() > 0 ==> e == st.inserted(clipboard)) && (clipboard.len() == 0 ==> e == st),
{
    let n = st.lines.len() as int;
    let all = EditorState { anchor: Some((0, 0)), cursor: (n - 1, st.lines[n - 1].len() as int), ..st };
    if st.text().len() > 0 {
        let a = (0int, 0int);
        let z = all.cursor;
        lemma_head_tail(st.lines, a);
        lemma_head_tail(st.lines, z);
        lemma_start(st.lines, a);
        lemma_end(st.lines, z);
        lemma_start(st.lines, z);
        assert(a != z) by {
            if a == z {
                assert(head(st.lines, z).len() == 0);
                assert(st.text().len() == 0);
            }
        }
        lemma_between(st.lines, a, z);
        let e = Seq::<char>::empty();
        assert(head(st.lines, a) =~= e);
        assert(tail(st.lines, z) =~= e);
        assert(e + between(st.lines, a, z) + e =~= between(st.lines, a, z));
    }
}

/// With Shift, moving the cursor selects all that lies between where it was
/// and where it goes.
pub proof fn lemma_shift_selects(st: EditorState, to: (int, int))
    requires
        st.wf(),
        in_text(st.lines, to),
        st.anchor is None,
        to != st.cursor,
    ensures
        ({
            let m = st.moved(to, true, false);
            let (s, e) = if before(st.cursor, to) { (st.cursor, to) } else { (to, st.cursor) };
            &&& m.lines == st.lines
            &&& m.cursor == to
            &&& m.selected() matches Some(t) && head(st.lines, s) + t + tail(st.lines, e) == st.text()
        }),
{
    let (s, e) = if before(st.cursor, to) { (st.cursor, to) } else { (to, st.cursor) };
    lemma_between(st.lines, s, e);
}

/// Down and then Up leads back to where the cursor was, though the line in
/// between may be shorter; likewise Up and then Down.
pub proof fn lemma_up_undoes_down(st: EditorState, up: KeyEvent, down: KeyEvent, m: Metrics)
    requires
        st.wf(),
        st.want_col == st.cursor.1,
        up.key == Key::Up,
        down.key == Key::Down,
    ensures
        st.cursor.0 + 1 < st.lines.len() ==> (st.move_action(down, m) matches Some(d) && d.wf() && d.cursor.0
            == st.cursor.0 + 1 && (d.move_action(up, m) matches Some(u) && u.cursor == st.cursor && u.lines
            == st.lines)),
        st.cursor.0 > 0 ==> (st.move_action(up, m) matches Some(u) && u.wf() && u.cursor.0 == st.cursor.0 - 1 && (
        u.move_action(down, m) matches Some(d) && d.cursor == st.cursor && d.lines == st.lines)),
{
}

/// Home and End lead to the two ends of the line: between them stands the
/// whole of it.
pub proof fn lemma_home_to_end(st: EditorState, home: KeyEvent, end: KeyEvent, m: Metrics)
    requires
        st.wf(),
        home.key == Key::Home,
        end.key == Key::End,
    ensures
        st.move_action(home, m) matches Some(h) && (st.move_action(end, m) matches Some(e) && between(
            st.lines,
            h.cursor,
            e.cursor,
        ) == st.lines[st.cursor.0] && h.lines == st.lines && e.lines == st.lines),
{
    let line = st.lines[st.cursor.0];
    assert(line.subrange(0, line.len() as int) =~= line);
}

/// After every key the line of the cursor is among those that are shown.
pub proof fn lemma_cursor_in_view(st: EditorState, m: Metrics)
    requires
        st.wf(),
        m.lh > 0,
    ensures
        ({
            let s = st.scrolled(m);
            &&& s.top <= s.cursor.0 < s.top + s.visible(m)
            &&& s.cursor == st.cursor
            &&& s.lines == st.lines
        }),
{
    let h = st.size.1 - TOOLBAR_H - STATUS_H;
    assert(st.visible(m) >= 1) by (nonlinear_arith)
        requires
            m.lh > 0,
            st.visible(m) == (if h < m.lh { 1 } else { h / (m.lh as int) }),
    ;
}

/// A press on a character that is shown puts the cursor next to it: on its
/// left half before it, on its right half behind it.
pub proof fn lemma_press_hits(st: EditorState, p: (int, int), dx: int, dy: int, m: Metrics)
    requires
        st.wf(),
        in_text(st.lines, p),
        m.lh > 0,
        m.cw > 0,
        p.0 >= st.top,
        0 <= dy < m.lh,
        -((m.cw as int) / 2) <= dx < m.cw - (m.cw as int) / 2,
    ensures
        st.pos_at(
            GUTTER + PAD + p.1 * m.cw - st.left + dx,
            TOOLBAR_H + PAD + (p.0 - st.top) * m.lh + dy,
            m,
        ) == p,
{
    let cw = m.cw as int;
    let lh = m.lh as int;
    let a = p.0 - st.top;
    let d = dx + cw / 2;
    assert(0 <= a * lh) by (nonlinear_arith)
        requires
            a >= 0,
            lh > 0,
    ;
    assert((a * lh + dy) / lh == a) by (nonlinear_arith)
        requires
            a >= 0,
            lh > 0,
            0 <= dy < lh,
    ;
    assert(0 <= p.1 * cw) by (nonlinear_arith)
        requires
            p.1 >= 0,
            cw > 0,
    ;
    assert((p.1 * cw + d) / cw == p.1) by (nonlinear_arith)
        requires
            p.1 >= 0,
            cw > 0,
            0 <= d < cw,
    ;
}

proof fn lemma_word_bounds(line: Seq<char>, p: int)
    requires
        0 <= p <= line.len(),
    ensures
        0 <= word_start(line, p) <= p,
        forall|i: int| word_start(line, p) <= i < p ==> is_word(#[trigger] line[i]),
        word_start(line, p) > 0 ==> !is_word(line[word_start(line, p) - 1]),
    decreases p,
{
    if 0 < p && is_word(line[p - 1]) {
        lemma_word_bounds(line, p - 1);
    }
}

proof fn lemma_word_bounds_right(line: Seq<char>, p: int)
    requires
        0 <= p <= line.len(),
    ensures
        p <= word_end(line, p) <= line.len(),
        forall|i: int| p <= i < word_end(line, p) ==> is_word(#[trigger] line[i]),
        word_end(line, p) < line.len() ==> !is_word(line[word_end(line, p)]),
    decreases line.len() - p,
{
    if p < line.len() && is_word(line[p]) {
        lemma_word_bounds_right(line, p + 1);
    }
}

/// A double click selects the word around it: letters, digits and
/// underscores as far as they go both ways.
pub proof fn lemma_double_click_selects_word(st: EditorState, p: (int, int), clicks: u8)
    requires
        st.wf(),
        in_text(st.lines, p),
        clicks >= 2,
    ensures
        ({
            let d = st.pressed_at(p, clicks);
            let line = st.lines[p.0];
            &&& d.wf()
            &&& d.lines == st.lines
            &&& d.anchor matches Some(a) && a.0 == p.0 && d.cursor.0 == p.0 && a.1 <= p.1 <= d.cursor.1 && (forall|
                i: int,
            |
                a.1 <= i < d.cursor.1 ==> is_word(#[trigger] line[i])) && (a.1 > 0 ==> !is_word(line[a.1 - 1])) && (
            d.cursor.1 < line.len() ==> !is_word(line[d.cursor.1]))
        }),
{
    lemma_word_bounds(st.lines[p.0], p.1);
    lemma_word_bounds_right(st.lines[p.0], p.1);
}

} // verus!
