//! The scrollback of a terminal: text with colours, written character by
//! character with the usual control codes.

use crate::text::{
    dec, is_digit, is_str, join, lemma_dec_digits, lemma_parse_dec, lemma_split_join, parse_uint, parsed, split, split_on,
    to_chars, views,
};
use vstd::prelude::*;

verus! {

pub type Color = u32;

pub const BG: u32 = 0xff1c1f26;
pub const FG: u32 = 0xffdcdfe4;
pub const DIM: u32 = 0xff8b92a0;
pub const BLUE: u32 = 0xff61afef;
pub const GREEN: u32 = 0xff98c379;
pub const RED: u32 = 0xffe06c75;
pub const YELLOW: u32 = 0xffe5c07b;
pub const CYAN: u32 = 0xff56b6c2;
pub const MAGENTA: u32 = 0xffc678dd;
pub const BLACK: u32 = 0xff5c6370;

pub const MAX_LINES: usize = 3000;

/// A character and its colour.
#[derive(Clone, Copy, PartialEq, Eq, Debug, Structural)]
pub struct Cell {
    pub ch: char,
    pub color: Color,
}

/// Where the parser of escape sequences is.
pub enum Ansi {
    Normal,
    Escape,
    Csi(Vec<char>),
}

pub enum AnsiState {
    Normal,
    Escape,
    Csi(Seq<char>),
}

impl View for Ansi {
    type V = AnsiState;

    open spec fn view(&self) -> AnsiState {
        match *self {
            Ansi::Normal => AnsiState::Normal,
            Ansi::Escape => AnsiState::Escape,
            Ansi::Csi(p) => AnsiState::Csi(p@),
        }
    }
}

pub struct Screen {
    pub lines: Vec<Vec<Cell>>,
    pub color: Color,
    pub ansi: Ansi,
    pub cols: usize,
}

#[verifier::ext_equal]
pub struct ScreenState {
    pub lines: Seq<Seq<Cell>>,
    pub color: Color,
    pub ansi: AnsiState,
    pub cols: int,
}

/// The rows held by a list of vectors.
pub open spec fn rows_of(v: Seq<Vec<Cell>>) -> Seq<Seq<Cell>> {
    Seq::new(v.len(), |i: int| v[i]@)
}

impl View for Screen {
    type V = ScreenState;

    open spec fn view(&self) -> ScreenState {
        ScreenState { lines: rows_of(self.lines@), color: self.color, ansi: self.ansi@, cols: self.cols as int }
    }
}

/// The colour that an SGR number picks, if it picks one.
pub open spec fn sgr_color(n: int) -> Option<Color> {
    let i = if 30 <= n <= 37 { n - 30 } else if 90 <= n <= 97 { n - 90 } else { -1 };
    if n == 0 {
        Some(FG)
    } else if i == 0 {
        Some(BLACK)
    } else if i == 1 {
        Some(RED)
    } else if i == 2 {
        Some(GREEN)
    } else if i == 3 {
        Some(YELLOW)
    } else if i == 4 {
        Some(BLUE)
    } else if i == 5 {
        Some(MAGENTA)
    } else if i == 6 {
        Some(CYAN)
    } else if i == 7 {
        Some(FG)
    } else {
        None
    }
}

/// The colour after a list of SGR parameters.
pub open spec fn sgr(color: Color, params: Seq<Seq<char>>) -> Color
    decreases params.len(),
{
    if params.len() == 0 {
        color
    } else {
        let before = sgr(color, params.drop_last());
        let n = match parsed(params.last(), u32::MAX as int) {
            Some(v) => v,
            None => 0,
        };
        match sgr_color(n) {
            Some(c) => c,
            None => before,
        }
    }
}

impl ScreenState {
    pub open spec fn wf(self) -> bool {
        1 <= self.lines.len() <= MAX_LINES
    }

    /// Characters that fit on a line.
    pub open spec fn width(self) -> int {
        if self.cols >= 10 { self.cols } else { 10 }
    }

    /// With a new line; the oldest one is dropped when there are too many.
    pub open spec fn broken(self) -> ScreenState {
        let l = self.lines.push(Seq::empty());
        ScreenState { lines: if l.len() > MAX_LINES { l.skip(l.len() - MAX_LINES) } else { l }, ..self }
    }

    /// With one more character, on a new line if the last one is full.
    pub open spec fn with_char(self, c: char) -> ScreenState {
        let s = if self.lines.last().len() >= self.width() { self.broken() } else { self };
        let last = s.lines.last().push(Cell { ch: c, color: self.color });
        ScreenState { lines: s.lines.update(s.lines.len() - 1, last), ..s }
    }

    pub open spec fn with_spaces(self, n: int) -> ScreenState
        decreases n,
    {
        if n <= 0 { self } else { self.with_spaces(n - 1).with_char(' ') }
    }

    /// Without text.
    pub open spec fn cleared(self) -> ScreenState {
        ScreenState { lines: seq![Seq::<Cell>::empty()], ..self }
    }

    /// After a control sequence.
    pub open spec fn controlled(self, cmd: char, params: Seq<char>) -> ScreenState {
        if cmd == 'm' {
            ScreenState { color: sgr(self.color, split(params, ';')), ..self }
        } else if cmd == 'J' && params == "2"@ {
            self.cleared()
        } else {
            self
        }
    }

    /// After one character of output.
    pub open spec fn after(self, ch: char) -> ScreenState {
        match self.ansi {
            AnsiState::Escape => ScreenState {
                ansi: if ch == '[' { AnsiState::Csi(Seq::empty()) } else { AnsiState::Normal },
                ..self
            },
            AnsiState::Csi(params) => if is_digit(ch) || ch == ';' {
                ScreenState { ansi: AnsiState::Csi(params.push(ch)), ..self }
            } else {
                (ScreenState { ansi: AnsiState::Normal, ..self }).controlled(ch, params)
            },
            AnsiState::Normal => {
                if ch == '\x1b' {
                    ScreenState { ansi: AnsiState::Escape, ..self }
                } else if ch == '\n' {
                    self.broken()
                } else if ch == '\x08' {
                    let last = self.lines.last();
                    if last.len() > 0 {
                        ScreenState { lines: self.lines.update(self.lines.len() - 1, last.drop_last()), ..self }
                    } else {
                        self
                    }
                } else if ch == '\t' {
                    self.with_spaces(4 - (self.lines.last().len() as int) % 4)
                } else if (ch as u32) < 0x20 {
                    self
                } else {
                    self.with_char(ch)
                }
            },
        }
    }

    /// After a run of output.
    pub open spec fn printed(self, s: Seq<char>) -> ScreenState
        decreases s.len(),
    {
        if s.len() == 0 { self } else { self.printed(s.drop_last()).after(s.last()) }
    }

    pub open spec fn in_color(self, c: Color) -> ScreenState {
        ScreenState { color: c, ..self }
    }
}

// ---------------------------------------------------------------------
// Laws
// ---------------------------------------------------------------------

proof fn lemma_char_wf(s: ScreenState, c: char)
    requires
        s.wf(),
    ensures
        s.broken().wf(),
        s.broken().lines.last() == Seq::<Cell>::empty(),
        s.with_char(c).wf(),
        s.with_char(c).cols == s.cols,
        s.with_char(c).color == s.color,
        s.with_char(c).ansi == s.ansi,
{
    let l = s.lines.push(Seq::empty());
    if l.len() > MAX_LINES {
        assert(l.skip(l.len() - MAX_LINES).last() == l.last());
    }
}

proof fn lemma_spaces_wf(s: ScreenState, n: int)
    requires
        s.wf(),
    ensures
        s.with_spaces(n).wf(),
        s.with_spaces(n).cols == s.cols,
    decreases n,
{
    if n > 0 {
        lemma_spaces_wf(s, n - 1);
        lemma_char_wf(s.with_spaces(n - 1), ' ');
    }
}

/// Whatever is printed, the screen has at least one line and never more
/// than the limit.
pub proof fn lemma_printed_wf(s: ScreenState, t: Seq<char>)
    requires
        s.wf(),
    ensures
        s.printed(t).wf(),
        s.printed(t).cols == s.cols,
    decreases t.len(),
{
    if t.len() > 0 {
        let p = s.printed(t.drop_last());
        lemma_printed_wf(s, t.drop_last());
        lemma_char_wf(p, t.last());
        lemma_spaces_wf(p, 4 - (p.lines.last().len() as int) % 4);
    }
}

/// Every line fits the width of the screen.
pub open spec fn lines_fit(s: ScreenState) -> bool {
    forall|i: int| 0 <= i < s.lines.len() ==> (#[trigger] s.lines[i]).len() <= s.width()
}

proof fn lemma_broken_fits(s: ScreenState)
    requires
        s.wf(),
        lines_fit(s),
    ensures
        lines_fit(s.broken()),
{
    let l = s.lines.push(Seq::empty());
    let b = s.broken();
    assert forall|i: int| 0 <= i < b.lines.len() implies (#[trigger] b.lines[i]).len() <= b.width() by {
        let k = if l.len() > MAX_LINES { i + (l.len() - MAX_LINES) } else { i };
        assert(b.lines[i] == l[k]);
        if k < s.lines.len() {
            assert(l[k] == s.lines[k]);
        }
    }
}

proof fn lemma_char_fits(s: ScreenState, c: char)
    requires
        s.wf(),
        lines_fit(s),
    ensures
        lines_fit(s.with_char(c)),
{
    lemma_broken_fits(s);
    lemma_char_wf(s, c);
    let b = if s.lines.last().len() >= s.width() { s.broken() } else { s };
    let r = s.with_char(c);
    assert forall|i: int| 0 <= i < r.lines.len() implies (#[trigger] r.lines[i]).len() <= r.width() by {
        if i < b.lines.len() - 1 {
            assert(r.lines[i] == b.lines[i]);
        } else {
            assert(b.lines.last().len() < b.width());
        }
    }
}

proof fn lemma_spaces_fit(s: ScreenState, n: int)
    requires
        s.wf(),
        lines_fit(s),
    ensures
        s.with_spaces(n).wf(),
        lines_fit(s.with_spaces(n)),
    decreases n,
{
    lemma_spaces_wf(s, n);
    if n > 0 {
        lemma_spaces_fit(s, n - 1);
        lemma_char_fits(s.with_spaces(n - 1), ' ');
    }
}

/// Output never makes a line longer than the screen is wide.
pub proof fn lemma_printed_fits(s: ScreenState, t: Seq<char>)
    requires
        s.wf(),
        lines_fit(s),
    ensures
        lines_fit(s.printed(t)),
    decreases t.len(),
{
    if t.len() > 0 {
        let p = s.printed(t.drop_last());
        let ch = t.last();
        lemma_printed_fits(s, t.drop_last());
        lemma_printed_wf(s, t.drop_last());
        lemma_char_fits(p, ch);
        lemma_broken_fits(p);
        lemma_spaces_fit(p, 4 - (p.lines.last().len() as int) % 4);
        let r = s.printed(t);
        if p.ansi is Normal && ch == '\x08' {
            assert forall|i: int| 0 <= i < r.lines.len() implies (#[trigger] r.lines[i]).len() <= r.width() by {
                assert(p.lines[i].len() <= p.width());
            }
        } else if p.ansi is Csi && !is_digit(ch) && ch != ';' {
            assert forall|i: int| 0 <= i < r.lines.len() implies (#[trigger] r.lines[i]).len() <= r.width() by {
                if r.lines.len() == p.lines.len() && r.lines == p.lines {
                    assert(p.lines[i].len() <= p.width());
                }
            }
        }
    }
}

/// Printing two texts one after the other is printing them together.
pub proof fn lemma_printed_concat(s: ScreenState, a: Seq<char>, b: Seq<char>)
    ensures
        s.printed(a).printed(b) == s.printed(a + b),
    decreases b.len(),
{
    if b.len() == 0 {
        assert(a + b =~= a);
    } else {
        lemma_printed_concat(s, a, b.drop_last());
        assert((a + b).drop_last() =~= a + b.drop_last());
        assert((a + b).last() == b.last());
    }
}

/// Text in the colour of the moment.
pub open spec fn colored_text(t: Seq<char>, color: Color) -> Seq<Cell>
    decreases t.len(),
{
    if t.len() == 0 { Seq::empty() } else { colored_text(t.drop_last(), color).push(Cell { ch: t.last(), color }) }
}

/// Whether a text has only characters that are shown.
pub open spec fn is_shown(t: Seq<char>) -> bool {
    forall|i: int| 0 <= i < t.len() ==> (#[trigger] t[i]) as u32 >= 0x20
}

/// Text that fits on the last line is added to it, in the colour of the
/// moment, and changes nothing else.
pub proof fn lemma_text_added(s: ScreenState, t: Seq<char>)
    requires
        s.wf(),
        s.ansi is Normal,
        is_shown(t),
        s.lines.last().len() + t.len() <= s.width(),
    ensures
        s.printed(t) == (ScreenState {
            lines: s.lines.drop_last().push(s.lines.last() + colored_text(t, s.color)),
            ..s
        }),
    decreases t.len(),
{
    let before = s.lines.drop_last();
    let line = s.lines.last();
    if t.len() == 0 {
        assert(line + colored_text(t, s.color) =~= line);
        assert(before.push(line) =~= s.lines);
    } else {
        let d = t.drop_last();
        assert forall|i: int| 0 <= i < d.len() implies (#[trigger] d[i]) as u32 >= 0x20 by {
            assert(d[i] == t[i]);
        }
        crate::text::lemma_char_range(t.last());
        lemma_text_added(s, d);
        lemma_colored_len(d, s.color);
        assert(t[t.len() - 1] as u32 >= 0x20);
        let p = s.printed(d);
        let added = colored_text(d, s.color);
        assert(p.lines.last() == line + added);
        assert(p.lines.drop_last() =~= before);
        lemma_char_added(p, t.last());
        lemma_push_assoc(line, added, Cell { ch: t.last(), color: s.color });
    }
}

proof fn lemma_push_assoc(a: Seq<Cell>, b: Seq<Cell>, c: Cell)
    ensures
        (a + b).push(c) == a + b.push(c),
{
    assert((a + b).push(c) =~= a + b.push(c));
}

proof fn lemma_colored_len(t: Seq<char>, color: Color)
    ensures
        colored_text(t, color).len() == t.len(),
    decreases t.len(),
{
    if t.len() > 0 {
        crate::text::lemma_char_range(t.last());
        lemma_colored_len(t.drop_last(), color);
    }
}

proof fn lemma_char_added(s: ScreenState, ch: char)
    requires
        s.wf(),
        s.ansi is Normal,
        ch as u32 >= 0x20,
        s.lines.last().len() < s.width(),
    ensures
        s.after(ch) == (ScreenState {
            lines: s.lines.drop_last().push(s.lines.last().push(Cell { ch, color: s.color })),
            ..s
        }),
{
    let last = s.lines.last().push(Cell { ch, color: s.color });
    assert(s.lines.update(s.lines.len() - 1, last) =~= s.lines.drop_last().push(last));
}

/// Text that does not fit goes on on a new line, and no character of it is
/// lost.
pub proof fn lemma_text_wraps(s: ScreenState, ch: char)
    requires
        s.wf(),
        s.ansi is Normal,
        ch as u32 >= 0x20,
        s.lines.last().len() >= s.width(),
        s.lines.len() < MAX_LINES,
    ensures
        s.after(ch).lines == s.lines.push(seq![Cell { ch, color: s.color }]),
{
    assert(Seq::<Cell>::empty().push(Cell { ch, color: s.color }) =~= seq![Cell { ch, color: s.color }]);
    assert(s.after(ch).lines =~= s.lines.push(seq![Cell { ch, color: s.color }]));
}

/// A line break starts an empty line below the others; when there is no room
/// for one more, the oldest line goes.
pub proof fn lemma_break_starts_line(s: ScreenState)
    requires
        s.wf(),
        s.ansi is Normal,
    ensures
        s.after('\n').lines.last().len() == 0,
        s.lines.len() < MAX_LINES ==> s.after('\n').lines.drop_last() == s.lines,
        s.lines.len() == MAX_LINES ==> s.after('\n').lines.drop_last() == s.lines.skip(1),
        s.after('\n').color == s.color,
{
    let l = s.lines.push(Seq::empty());
    if s.lines.len() == MAX_LINES {
        assert(l.skip(1).drop_last() =~= s.lines.skip(1));
    } else {
        assert(l.drop_last() =~= s.lines);
    }
}

/// A backspace takes back the last character of the line.
pub proof fn lemma_backspace_takes_back(s: ScreenState, ch: char)
    requires
        s.wf(),
        s.ansi is Normal,
        ch as u32 >= 0x20,
        s.lines.last().len() < s.width(),
    ensures
        s.after(ch).after('\x08') == s,
{
    assert(s.after(ch).lines.last().drop_last() =~= s.lines.last());
    assert(s.after(ch).after('\x08').lines =~= s.lines);
}

proof fn lemma_digits_read(s: ScreenState, t: Seq<char>)
    requires
        s.ansi == AnsiState::Csi(Seq::empty()),
        forall|i: int| 0 <= i < t.len() ==> is_digit(#[trigger] t[i]),
    ensures
        s.printed(t) == (ScreenState { ansi: AnsiState::Csi(t), ..s }),
    decreases t.len(),
{
    if t.len() == 0 {
        assert(t =~= Seq::empty());
    } else {
        let d = t.drop_last();
        assert forall|i: int| 0 <= i < d.len() implies is_digit(#[trigger] d[i]) by {
            assert(d[i] == t[i]);
        }
        lemma_digits_read(s, d);
        assert(is_digit(t[t.len() - 1]));
        assert(d.push(t.last()) =~= t);
    }
}

/// The sequence that picks a colour changes the colour of what follows and
/// no text; one with a number that picks none changes nothing at all.
pub proof fn lemma_color_picked(s: ScreenState, n: nat)
    requires
        s.ansi is Normal,
        n <= u32::MAX,
    ensures
        s.printed(seq!['\x1b', '['] + dec(n) + seq!['m']) == (ScreenState {
            color: match sgr_color(n as int) {
                Some(c) => c,
                None => s.color,
            },
            ..s
        }),
{
    let open = seq!['\x1b', '['];
    let d = dec(n);
    lemma_dec_digits(n);
    lemma_parse_dec(n, u32::MAX as int);
    assert(open.drop_last() =~= seq!['\x1b']);
    assert(seq!['\x1b'].drop_last() =~= Seq::empty());
    assert(s.printed(seq!['\x1b']) == s.printed(Seq::empty()).after('\x1b'));
    assert(s.printed(open) == s.printed(seq!['\x1b']).after('['));
    let a = s.printed(open);
    assert(a.ansi == AnsiState::Csi(Seq::empty()));
    lemma_digits_read(a, d);
    lemma_printed_concat(s, open, d);
    lemma_printed_concat(s, open + d, seq!['m']);
    let b = s.printed(open + d);
    assert(seq!['m'].drop_last() =~= Seq::empty());
    assert(b.printed(seq!['m']) == b.printed(Seq::empty()).after('m'));
    let one = seq![d];
    assert(!d.contains(';')) by {
        if d.contains(';') {
            let k = choose|k: int| 0 <= k < d.len() && d[k] == ';';
            assert(is_digit(d[k]));
        }
    }
    lemma_split_join(one, ';');
    assert(join(one, ';') =~= d);
    assert(one.drop_last() =~= Seq::empty());
    assert(sgr(s.color, one.drop_last()) == s.color);
    assert(b.after('m') == (ScreenState {
        color: match sgr_color(n as int) {
            Some(c) => c,
            None => s.color,
        },
        ..s
    }));
}

// ---------------------------------------------------------------------
// Functions
// ---------------------------------------------------------------------

fn pick_color(n: u64) -> (r: Option<Color>)
    ensures
        r == sgr_color(n as int),
{
    let i: u64 = if 30 <= n && n <= 37 {
        n - 30
    } else if 90 <= n && n <= 97 {
        n - 90
    } else {
        8
    };
    if n == 0 {
        Some(FG)
    } else if i == 0 {
        Some(BLACK)
    } else if i == 1 {
        Some(RED)
    } else if i == 2 {
        Some(GREEN)
    } else if i == 3 {
        Some(YELLOW)
    } else if i == 4 {
        Some(BLUE)
    } else if i == 5 {
        Some(MAGENTA)
    } else if i == 6 {
        Some(CYAN)
    } else if i == 7 {
        Some(FG)
    } else {
        None
    }
}

impl Screen {
    pub fn new() -> (r: Screen)
        ensures
            r@ == (ScreenState { lines: seq![Seq::<Cell>::empty()], color: FG, ansi: AnsiState::Normal, cols: 80 }),
            r@.wf(),
    {
        let mut lines: Vec<Vec<Cell>> = Vec::new();
        lines.push(Vec::new());
        let r: Screen = Screen { lines, color: FG, ansi: Ansi::Normal, cols: 80 };
        proof {
            assert(r@.lines =~= seq![Seq::<Cell>::empty()]);
        }
        r
    }

    pub fn set_color(&mut self, c: Color)
        ensures
            final(self)@ == old(self)@.in_color(c),
    {
        self.color = c;
        proof {
            assert(self@.lines =~= old(self)@.lines);
        }
    }

    pub fn newline(&mut self)
        requires
            old(self)@.wf(),
        ensures
            final(self)@ == old(self)@.broken(),
            final(self)@.wf(),
    {
        let ghost l0 = self.lines@;
        self.lines.push(Vec::new());
        let ghost l1 = self.lines@;
        proof {
            assert(rows_of(l1) =~= rows_of(l0).push(Seq::empty()));
        }
        if self.lines.len() > MAX_LINES {
            self.lines.remove(0);
            proof {
                assert(rows_of(self.lines@) =~= rows_of(l1).skip(1));
            }
        }
    }

    pub fn put(&mut self, c: char)
        requires
            old(self)@.wf(),
        ensures
            final(self)@ == old(self)@.with_char(c),
            final(self)@.wf(),
    {
        proof {
            lemma_char_wf(self@, c);
        }
        let width: usize = if self.cols >= 10 { self.cols } else { 10 };
        let color: u32 = self.color;
        if self.lines[self.lines.len() - 1].len() >= width {
            self.newline();
        }
        let ghost s = self@;
        let n: usize = self.lines.len();
        let mut last: Vec<Cell> = self.lines.pop().unwrap();
        let ghost before = self.lines@;
        last.push(Cell { ch: c, color });
        self.lines.push(last);
        proof {
            assert(self@.lines =~= s.lines.update(n - 1, s.lines[n - 1].push(Cell { ch: c, color })));
        }
    }

    fn put_spaces(&mut self, n: usize)
        requires
            old(self)@.wf(),
        ensures
            final(self)@ == old(self)@.with_spaces(n as int),
            final(self)@.wf(),
    {
        let mut i: usize = 0;
        while i < n
            invariant
                i <= n,
                self@ == old(self)@.with_spaces(i as int),
                self@.wf(),
            decreases n - i,
        {
            self.put(' ');
            i += 1;
        }
    }

    pub fn clear(&mut self)
        ensures
            final(self)@ == old(self)@.cleared(),
            final(self)@.wf(),
    {
        self.lines.clear();
        self.lines.push(Vec::new());
        proof {
            assert(self@.lines =~= seq![Seq::<Cell>::empty()]);
        }
    }

    /// Carry out a control sequence.
    fn csi(&mut self, cmd: char, params: &Vec<char>)
        requires
            old(self)@.wf(),
        ensures
            final(self)@ == old(self)@.controlled(cmd, params@),
            final(self)@.wf(),
    {
        if cmd == 'm' {
            let parts: Vec<Vec<char>> = split_on(params, ';');
            let mut color: u32 = self.color;
            let mut i: usize = 0;
            while i < parts.len()
                invariant
                    i <= parts@.len(),
                    color == sgr(self.color, views(parts@).take(i as int)),
                decreases parts@.len() - i,
            {
                proof {
                    let t = views(parts@).take(i + 1);
                    assert(t.drop_last() =~= views(parts@).take(i as int));
                    assert(t.last() == parts@[i as int]@);
                }
                let n: u64 = match parse_uint(&parts[i], 0xffff_ffff) {
                    Some(v) => v,
                    None => 0,
                };
                if let Some(c) = pick_color(n) {
                    color = c;
                }
                i += 1;
            }
            proof {
                assert(views(parts@).take(parts@.len() as int) =~= views(parts@));
            }
            self.color = color;
            proof {
                assert(self@.lines =~= old(self)@.lines);
            }
        } else if cmd == 'J' && is_str(params, "2") {
            self.clear();
        }
    }

    fn rub_out(&mut self)
        requires
            old(self)@.wf(),
        ensures
            ({
                let last = old(self)@.lines.last();
                final(self)@ == if last.len() > 0 {
                    ScreenState {
                        lines: old(self)@.lines.update(old(self)@.lines.len() - 1, last.drop_last()),
                        ..old(self)@
                    }
                } else {
                    old(self)@
                }
            }),
            final(self)@.wf(),
    {
        let n: usize = self.lines.len();
        let mut last: Vec<Cell> = self.lines.pop().unwrap();
        last.pop();
        self.lines.push(last);
        proof {
            let l0 = old(self)@.lines;
            if l0.last().len() > 0 {
                assert(self@.lines =~= l0.update(n - 1, l0.last().drop_last()));
            } else {
                assert(self@.lines =~= l0);
            }
        }
    }

    /// One character of output.
    pub fn feed(&mut self, ch: char)
        requires
            old(self)@.wf(),
        ensures
            final(self)@ == old(self)@.after(ch),
            final(self)@.wf(),
    {
        let mut ansi: Ansi = Ansi::Normal;
        std::mem::swap(&mut ansi, &mut self.ansi);
        proof {
            assert(self@.lines =~= old(self)@.lines);
        }
        match ansi {
            Ansi::Escape => {
                if ch == '[' {
                    self.ansi = Ansi::Csi(Vec::new());
                }
                proof {
                    assert(self@ =~= old(self)@.after(ch));
                }
            },
            Ansi::Csi(mut params) => {
                if ('0' <= ch && ch <= '9') || ch == ';' {
                    params.push(ch);
                    self.ansi = Ansi::Csi(params);
                    proof {
                        assert(self@ =~= old(self)@.after(ch));
                    }
                } else {
                    proof {
                        assert(self@ =~= (ScreenState { ansi: AnsiState::Normal, ..old(self)@ }));
                    }
                    self.csi(ch, &params);
                }
            },
            Ansi::Normal => {
                proof {
                    assert(self@ =~= old(self)@);
                }
                if ch == '\x1b' {
                    self.ansi = Ansi::Escape;
                    proof {
                        assert(self@ =~= old(self)@.after(ch));
                    }
                } else if ch == '\n' {
                    self.newline();
                } else if ch == '\x08' {
                    self.rub_out();
                } else if ch == '\t' {
                    let n: usize = 4 - self.lines[self.lines.len() - 1].len() % 4;
                    self.put_spaces(n);
                } else if (ch as u32) < 0x20 {
                } else {
                    self.put(ch);
                }
            },
        }
    }

    /// Append text, interpreting newlines, backspace, tabs and ANSI colour
    /// escapes (SGR 0, 30-37, 90-97) plus "clear screen".
    pub fn print(&mut self, s: &[char])
        requires
            old(self)@.wf(),
        ensures
            final(self)@ == old(self)@.printed(s@),
            final(self)@.wf(),
    {
        let mut i: usize = 0;
        while i < s.len()
            invariant
                i <= s@.len(),
                self@ == old(self)@.printed(s@.take(i as int)),
                self@.wf(),
            decreases s@.len() - i,
        {
            proof {
                let t = s@.take(i + 1);
                assert(t.drop_last() =~= s@.take(i as int));
                assert(t.last() == s@[i as int]);
            }
            self.feed(s[i]);
            i += 1;
        }
        proof {
            assert(s@.take(s@.len() as int) =~= s@);
        }
    }

    pub fn print_str(&mut self, s: &str)
        requires
            old(self)@.wf(),
        ensures
            final(self)@ == old(self)@.printed(s@),
            final(self)@.wf(),
    {
        let v: Vec<char> = to_chars(s);
        self.print(&v);
    }

    /// Scrollback as plain text.
    pub fn plain_text(&self) -> (r: Vec<char>)
        ensures
            r@ == crate::text::join(
                Seq::new(self@.lines.len(), |i: int| Seq::new(self@.lines[i].len(), |k: int| self@.lines[i][k].ch)),
                '\n',
            ),
    {
        let mut out: Vec<Vec<char>> = Vec::new();
        let ghost want = Seq::new(
            self@.lines.len(),
            |i: int| Seq::new(self@.lines[i].len(), |k: int| self@.lines[i][k].ch),
        );
        let mut i: usize = 0;
        while i < self.lines.len()
            invariant
                i <= self.lines@.len(),
                want == Seq::new(
                    self@.lines.len(),
                    |i: int| Seq::new(self@.lines[i].len(), |k: int| self@.lines[i][k].ch),
                ),
                views(out@) == want.take(i as int),
            decreases self.lines@.len() - i,
        {
            let mut line: Vec<char> = Vec::new();
            let mut k: usize = 0;
            while k < self.lines[i].len()
                invariant
                    i < self.lines@.len(),
                    k <= self.lines@[i as int]@.len(),
                    line@ == Seq::new(k as nat, |k: int| self.lines@[i as int]@[k].ch),
                decreases self.lines@[i as int]@.len() - k,
            {
                line.push(self.lines[i][k].ch);
                k += 1;
                proof {
                    assert(line@ =~= Seq::new(k as nat, |k: int| self.lines@[i as int]@[k].ch));
                }
            }
            let ghost b = out@;
            out.push(line);
            proof {
                assert(line@ =~= want[i as int]);
                assert(views(out@) =~= views(b).push(line@));
                assert(want.take(i + 1) =~= want.take(i as int).push(want[i as int]));
            }
            i += 1;
        }
        proof {
            assert(want.take(want.len() as int) =~= want);
        }
        crate::text::join_with(&out, '\n')
    }
}

// ---------------------------------------------------------------------
// Wrapping
// ---------------------------------------------------------------------

/// A line cut into pieces of at most `n` characters.
pub open spec fn chunks(l: Seq<Cell>, n: int) -> Seq<Seq<Cell>>
    decreases l.len(),
{
    if l.len() <= n || n <= 0 { seq![l] } else { seq![l.take(n)] + chunks(l.skip(n), n) }
}

/// All lines cut into rows of at most `n` characters.
pub open spec fn wrapped(ls: Seq<Seq<Cell>>, n: int) -> Seq<Seq<Cell>>
    decreases ls.len(),
{
    if ls.len() == 0 { Seq::empty() } else { wrapped(ls.drop_last(), n) + chunks(ls.last(), n) }
}

/// Cutting a line loses nothing, and no piece is too long.
pub proof fn lemma_chunks(l: Seq<Cell>, n: int)
    requires
        n > 0,
    ensures
        chunks(l, n).flatten() == l,
        forall|i: int| 0 <= i < chunks(l, n).len() ==> (#[trigger] chunks(l, n)[i]).len() <= n,
    decreases l.len(),
{
    if l.len() <= n {
        chunks(l, n).lemma_flatten_one_element();
    } else {
        let rest = chunks(l.skip(n), n);
        lemma_chunks(l.skip(n), n);
        let c = chunks(l, n);
        assert(c.first() == l.take(n));
        assert(c.drop_first() =~= rest);
        assert(c.flatten() =~= l.take(n) + rest.flatten());
        assert(l.take(n) + l.skip(n) =~= l);
        assert forall|i: int| 0 <= i < c.len() implies (#[trigger] c[i]).len() <= n by {
            if i > 0 {
                assert(c[i] == rest[i - 1]);
            }
        }
    }
}

/// Append the pieces of a line.
pub fn push_chunks(rows: &mut Vec<Vec<Cell>>, l: &[Cell], n: usize)
    requires
        n > 0,
    ensures
        rows_of(final(rows)@) == rows_of(old(rows)@) + chunks(l@, n as int),
{
    let mut at: usize = 0;
    let ghost r0 = rows_of(rows@);
    proof {
        assert(l@.skip(0) =~= l@);
    }
    let len: usize = l.len();
    while len - at > n
        invariant
            n > 0,
            at <= len == l@.len(),
            rows_of(rows@) + chunks(l@.skip(at as int), n as int) == r0 + chunks(l@, n as int),
        decreases len - at,
    {
        let mut piece: Vec<Cell> = Vec::new();
        copy_cells(&mut piece, l, at, at + n);
        let ghost b = rows@;
        rows.push(piece);
        proof {
            let s = l@.skip(at as int);
            assert(piece@ =~= s.take(n as int));
            assert(s.skip(n as int) =~= l@.skip(at + n));
            assert(rows_of(rows@) =~= rows_of(b).push(piece@));
            assert(rows_of(rows@) + chunks(l@.skip(at + n), n as int) =~= rows_of(b) + chunks(s, n as int));
        }
        at = at + n;
    }
    let mut piece: Vec<Cell> = Vec::new();
    copy_cells(&mut piece, l, at, len);
    let ghost b = rows@;
    rows.push(piece);
    proof {
        let s = l@.skip(at as int);
        assert(piece@ =~= s);
        assert(rows_of(rows@) =~= rows_of(b).push(piece@));
        assert(rows_of(rows@) =~= rows_of(b) + chunks(s, n as int));
    }
}

pub fn copy_cells(out: &mut Vec<Cell>, l: &[Cell], from: usize, to: usize)
    requires
        from <= to <= l@.len(),
    ensures
        final(out)@ == old(out)@ + l@.subrange(from as int, to as int),
{
    let mut i: usize = from;
    while i < to
        invariant
            from <= i <= to <= l@.len(),
            out@ == old(out)@ + l@.subrange(from as int, i as int),
        decreases to - i,
    {
        out.push(l[i]);
        i += 1;
        proof {
            assert(out@ =~= old(out)@ + l@.subrange(from as int, i as int));
        }
    }
}

} // verus!
