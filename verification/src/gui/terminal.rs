//! Terminal emulator window: runs the built-in shell and user programs.
//!
//! What the terminal wants of the outside (run a command line, send input
//! to a program, ...) it hands back as a [`Request`].

use super::app::{AppEvent, Ctx, CtxState};
use super::screen::{
    chunks, copy_cells, push_chunks, rows_of, wrapped, Cell, Color, Screen, ScreenState, BLUE, DIM, FG, GREEN,
};
use crate::arith::{clamp, clamp_i64, div, max, min, tdiv};
use crate::fs::entry::{entries_of, DirEntry, EntryState};
use crate::fs::path::{normalize_chars, normalized};
use crate::input::{Key, KeyEvent};
use crate::text::{
    copy, copy_range, int_text, lemma_rfind, push_all, push_int, push_str, read_text, rfind, rfind_char, same, starts, starts_with,
    text_of_bytes, texts, to_chars, to_lowercase, to_text, trim, trimmed, unicode_lower,
};
use vstd::prelude::*;

verus! {

pub const PAD: i32 = 10;

/// What the terminal asks for.
pub enum Request {
    /// Run a command line in the shell.
    Run(String),
    /// Stop the running program.
    Kill,
    /// Tell the running program that there is no more input.
    CloseInput,
    /// Send input to the running program.
    Send(String),
    /// List a folder, for the completion of a name in it.
    List(String),
}

pub enum RequestState {
    Run(Seq<char>),
    Kill,
    CloseInput,
    Send(Seq<char>),
    List(Seq<char>),
}

impl View for Request {
    type V = RequestState;

    open spec fn view(&self) -> RequestState {
        match *self {
            Request::Run(s) => RequestState::Run(s@),
            Request::Kill => RequestState::Kill,
            Request::CloseInput => RequestState::CloseInput,
            Request::Send(s) => RequestState::Send(s@),
            Request::List(s) => RequestState::List(s@),
        }
    }
}

pub open spec fn asked(r: Option<Request>) -> Option<RequestState> {
    match r {
        Some(x) => Some(x@),
        None => None,
    }
}

pub struct Terminal {
    pub screen: Screen,
    pub cwd: Vec<char>,
    pub input: Vec<char>,
    pub caret: usize,
    pub history: Vec<String>,
    pub history_pos: Option<usize>,
    /// The name of the running program.
    pub program: Option<String>,
    pub proc_input: Vec<char>,
    pub scroll: i32,
    pub rows: i32,
    pub size: (i32, i32),
    pub startup: Option<String>,
    pub focused: bool,
    pub blink_on: bool,
    pub last_blink: u64,
    pub close_when_done: bool,
    pub dragging_scrollbar: bool,
}

#[verifier::ext_equal]
pub struct TerminalState {
    pub screen: ScreenState,
    pub cwd: Seq<char>,
    pub input: Seq<char>,
    pub caret: int,
    pub history: Seq<Seq<char>>,
    pub history_pos: Option<usize>,
    pub program: Option<Seq<char>>,
    pub proc_input: Seq<char>,
    pub scroll: int,
    pub rows: int,
    pub size: (i32, i32),
    pub startup: Option<Seq<char>>,
    pub focused: bool,
    pub blink_on: bool,
    pub last_blink: u64,
    pub close_when_done: bool,
    pub dragging_scrollbar: bool,
}

impl View for Terminal {
    type V = TerminalState;

    open spec fn view(&self) -> TerminalState {
        TerminalState {
            screen: self.screen@,
            cwd: self.cwd@,
            input: self.input@,
            caret: self.caret as int,
            history: texts(self.history@),
            history_pos: self.history_pos,
            program: super::app::opt_text(self.program),
            proc_input: self.proc_input@,
            scroll: self.scroll as int,
            rows: self.rows as int,
            size: self.size,
            startup: super::app::opt_text(self.startup),
            focused: self.focused,
            blink_on: self.blink_on,
            last_blink: self.last_blink,
            close_when_done: self.close_when_done,
            dragging_scrollbar: self.dragging_scrollbar,
        }
    }
}

/// Text in one colour.
pub open spec fn cells(s: Seq<char>, color: Color) -> Seq<Cell>
    decreases s.len(),
{
    if s.len() == 0 { Seq::empty() } else { cells(s.drop_last(), color).push(Cell { ch: s.last(), color }) }
}

/// Whether a name starts with a prefix, whatever the case.
pub open spec fn completes(name: Seq<char>, prefix: Seq<char>) -> bool {
    starts(unicode_lower(name), unicode_lower(prefix))
}

/// The entries that complete a prefix.
pub open spec fn completions(s: Seq<EntryState>, prefix: Seq<char>) -> Seq<EntryState>
    decreases s.len(),
{
    if s.len() == 0 {
        Seq::empty()
    } else {
        let rest = completions(s.drop_last(), prefix);
        if completes(s.last().name, prefix) { rest.push(s.last()) } else { rest }
    }
}

/// Names side by side.
pub open spec fn name_list(s: Seq<EntryState>) -> Seq<char>
    decreases s.len(),
{
    if s.len() == 0 {
        Seq::empty()
    } else if s.len() == 1 {
        s[0].name
    } else {
        name_list(s.drop_last()) + "  "@ + s.last().name
    }
}

impl TerminalState {
    pub open spec fn wf(self) -> bool {
        &&& self.screen.wf()
        &&& 0 <= self.caret <= self.input.len()
        &&& 0 <= self.scroll
        &&& 1 <= self.rows <= i32::MAX
        &&& match self.history_pos {
            Some(i) => i < self.history.len(),
            None => true,
        }
    }

    pub open spec fn colored(self, c: Color) -> TerminalState {
        TerminalState { screen: self.screen.in_color(c), ..self }
    }

    pub open spec fn printed(self, s: Seq<char>) -> TerminalState {
        TerminalState { screen: self.screen.printed(s), scroll: 0, ..self }
    }

    pub open spec fn cleared(self) -> TerminalState {
        TerminalState { screen: self.screen.cleared(), scroll: 0, ..self }
    }

    pub open spec fn prompt(self) -> Seq<Cell> {
        cells("user@mayos"@, GREEN) + cells(seq![':'], FG) + cells(self.cwd, BLUE) + cells("$ "@, FG)
    }

    /// The editable line shown after the scrollback, and where its caret is.
    pub open spec fn live_line(self) -> (Seq<Cell>, int) {
        if self.program is Some {
            let l = self.screen.lines.last() + cells(self.proc_input, FG);
            (l, l.len() as int)
        } else {
            (self.prompt() + cells(self.input, FG), self.prompt().len() + self.caret)
        }
    }

    /// The lines above the editable one. The last line of the scrollback is
    /// part of it while a program runs; after that it is left out if it is
    /// empty.
    pub open spec fn body(self) -> Seq<Seq<Cell>> {
        let l = self.screen.lines;
        if self.program is Some || l.last().len() == 0 { l.drop_last() } else { l }
    }

    /// All visual rows, wrapped to the terminal width.
    pub open spec fn visual_rows(self) -> Seq<Seq<Cell>> {
        let cols = self.screen.width();
        let (live, caret) = self.live_line();
        let rows = wrapped(self.body(), cols) + chunks(live, cols);
        if caret > 0 && caret % cols == 0 && caret == live.len() { rows.push(Seq::empty()) } else { rows }
    }

    /// The row and column of the caret.
    pub open spec fn caret_at(self) -> (int, int) {
        let cols = self.screen.width();
        let caret = self.live_line().1;
        (wrapped(self.body(), cols).len() + caret / cols, caret % cols)
    }

    /// The number of rows, as far as it can be scrolled over.
    pub open spec fn total(self) -> int {
        min(self.visual_rows().len() as int, i32::MAX as int)
    }

    /// After the prompt and the command were echoed into the scrollback.
    pub open spec fn echoed(self, line: Seq<char>) -> TerminalState {
        self.colored(GREEN).printed("user@mayos"@).colored(FG).printed(":"@).colored(BLUE).printed(self.cwd).colored(
            FG,
        ).printed("$ "@).printed(line).printed("\n"@)
    }

    /// With a line in the history, unless it is the last one there.
    pub open spec fn remembered(self, line: Seq<char>) -> TerminalState {
        if line.len() > 0 && (self.history.len() == 0 || self.history.last() != line) {
            TerminalState { history: self.history.push(line), ..self }
        } else {
            self
        }
    }

    pub open spec fn submitted(self) -> TerminalState {
        let cleared = TerminalState { input: Seq::empty(), caret: 0, history_pos: None, ..self };
        cleared.echoed(self.input).remembered(trim(self.input))
    }

    pub open spec fn with_input(self, input: Seq<char>, caret: int) -> TerminalState {
        TerminalState { input, caret, ..self }
    }

    pub open spec fn stepped(self, up: bool) -> TerminalState {
        let n = self.history.len();
        if n == 0 {
            self
        } else {
            let pos = match (self.history_pos, up) {
                (None, true) => Some((n - 1) as usize),
                (None, false) => None,
                (Some(i), true) => Some(if i == 0 { 0usize } else { (i - 1) as usize }),
                (Some(i), false) => if i + 1 < n { Some((i + 1) as usize) } else { None },
            };
            let input = match pos {
                Some(i) => self.history[i as int],
                None => Seq::empty(),
            };
            TerminalState { history_pos: pos, input, caret: input.len() as int, ..self }
        }
    }

    /// Where the word before the caret begins.
    pub open spec fn word_start(self) -> int {
        match rfind(self.input.take(self.caret), ' ') {
            Some(i) => i + 1,
            None => 0,
        }
    }

    /// Where the last name of the path before the caret begins.
    pub open spec fn name_start(self) -> int {
        let w = self.input.subrange(self.word_start(), self.caret);
        self.word_start() + match rfind(w, '/') {
            Some(i) => i + 1,
            None => 0,
        }
    }

    /// The folder in which the word before the caret is completed.
    pub open spec fn completion_dir(self) -> Seq<char> {
        let dir = self.input.subrange(self.word_start(), self.name_start());
        normalized(self.cwd, if dir.len() == 0 { "."@ } else { dir })
    }

    /// After completing the word before the caret from a folder's entries.
    pub open spec fn completed(self, s: Seq<EntryState>) -> TerminalState {
        let at = self.name_start();
        let m = completions(s, self.input.subrange(at, self.caret));
        if m.len() == 1 {
            let name = m[0].name.push(if m[0].is_dir { '/' } else { ' ' });
            self.with_input(self.input.take(at) + name + self.input.skip(self.caret), at + name.len())
        } else if m.len() > 1 {
            let p = self.prompt();
            let line = Seq::new(p.len(), |i: int| p[i].ch) + self.input + "\n"@;
            self.printed(line).colored(DIM).printed(name_list(m)).colored(FG).printed("\n"@)
        } else {
            self
        }
    }

    /// After dragging the scroll bar to `y`.
    pub open spec fn scrolled_to(self, y: int) -> TerminalState {
        let range = self.total() - self.rows;
        if range <= 0 {
            self
        } else {
            let t = clamp(tdiv((y - 4) * range, max(self.size.1 - 8, 1)), 0, range);
            TerminalState { scroll: range - t, ..self }
        }
    }

    pub open spec fn on_scrollbar(self, x: int, y: int) -> bool {
        self.size.0 - 14 <= x < self.size.0 + 2 && 0 <= y < self.size.1
    }

    pub open spec fn awake(self, now: u64) -> TerminalState {
        TerminalState { blink_on: true, last_blink: now, ..self }
    }

    pub open spec fn scrolled(self, scroll: int) -> TerminalState {
        TerminalState { scroll: clamp(scroll, 0, i32::MAX as int), ..self }
    }

    /// A key while a program runs: the new state and what is asked for.
    pub open spec fn program_key(self, k: KeyEvent) -> (TerminalState, Option<RequestState>) {
        let s = TerminalState { scroll: 0, ..self };
        if k.key == Key::Char('c') && k.ctrl {
            (s, Some(RequestState::Kill))
        } else if k.key == Key::Char('d') && k.ctrl {
            (s, Some(RequestState::CloseInput))
        } else if k.key == Key::Enter {
            let t = (TerminalState { proc_input: Seq::empty(), ..s }).printed(self.proc_input).printed("\n"@);
            (t, Some(RequestState::Send(self.proc_input.push('\n'))))
        } else if k.key == Key::Backspace {
            let p = self.proc_input;
            (TerminalState { proc_input: if p.len() > 0 { p.drop_last() } else { p }, ..s }, None)
        } else {
            match k.spec_text() {
                Some(ch) => (TerminalState { proc_input: self.proc_input.push(ch), ..s }, None),
                None => (s, None),
            }
        }
    }

    /// A key at the prompt, but for scrolling back to the end.
    pub open spec fn prompt_key(self, k: KeyEvent) -> (TerminalState, Option<RequestState>) {
        let n = self.input.len();
        let c = self.caret;
        if k.key == Key::Enter {
            let line = trim(self.input);
            (self.submitted(), if line.len() > 0 { Some(RequestState::Run(line)) } else { None })
        } else if k.key == Key::Backspace {
            (if c > 0 { self.with_input(self.input.remove(c - 1), c - 1) } else { self }, None)
        } else if k.key == Key::Delete {
            (if c < n { self.with_input(self.input.remove(c), c) } else { self }, None)
        } else if k.key == Key::Left {
            (self.with_input(self.input, max(c - 1, 0)), None)
        } else if k.key == Key::Right {
            (self.with_input(self.input, min(c + 1, n as int)), None)
        } else if k.key == Key::Home {
            (self.with_input(self.input, 0), None)
        } else if k.key == Key::End {
            (self.with_input(self.input, n as int), None)
        } else if k.key == Key::Up {
            (self.stepped(true), None)
        } else if k.key == Key::Down {
            (self.stepped(false), None)
        } else if k.key == Key::PageUp {
            (self.scrolled(self.scroll + tdiv(self.rows, 2)), None)
        } else if k.key == Key::PageDown {
            (self.scrolled(self.scroll - tdiv(self.rows, 2)), None)
        } else if k.key == Key::Tab {
            (self, Some(RequestState::List(self.completion_dir())))
        } else if k.key == Key::Char('l') && k.ctrl {
            (self.cleared(), None)
        } else if k.key == Key::Char('c') && k.ctrl {
            (self.with_input(Seq::empty(), 0).printed("^C\n"@), None)
        } else if k.key == Key::Char('u') && k.ctrl {
            (self.with_input(self.input.skip(c), 0), None)
        } else {
            match k.spec_text() {
                Some(ch) => (self.with_input(self.input.insert(c, ch), c + 1), None),
                None => (self, None),
            }
        }
    }

    pub open spec fn keyed(self, k: KeyEvent) -> (TerminalState, Option<RequestState>) {
        let (s, r) = self.prompt_key(k);
        if k.key == Key::PageUp || k.key == Key::PageDown { (s, r) } else { (TerminalState { scroll: 0, ..s }, r) }
    }

    /// After an event: the new state, what is asked for, and the context.
    pub open spec fn after(self, ev: AppEvent, now: u64, ctx: CtxState) -> (
        TerminalState,
        Option<RequestState>,
        CtxState,
    ) {
        match ev {
            AppEvent::Key(k) => if !k.pressed {
                (self, None, ctx)
            } else if self.close_when_done && self.program is None {
                (self.awake(now), None, ctx.closed())
            } else if self.program is Some {
                let (s, r) = self.awake(now).program_key(k);
                (s, r, ctx.redrawn())
            } else {
                let (s, r) = self.awake(now).keyed(k);
                (s, r, ctx.redrawn())
            },
            AppEvent::Wheel { delta, .. } => (self.scrolled(self.scroll - delta * 3), None, ctx.redrawn()),
            AppEvent::MouseDown { x, y, button, .. } => if button == 0 && self.on_scrollbar(x as int, y as int) {
                (
                    (TerminalState { dragging_scrollbar: true, ..self }).scrolled_to(y as int),
                    None,
                    ctx.redrawn(),
                )
            } else {
                (self, None, ctx)
            },
            AppEvent::MouseMove { y, .. } => if self.dragging_scrollbar {
                (self.scrolled_to(y as int), None, ctx.redrawn())
            } else {
                (self, None, ctx)
            },
            AppEvent::MouseUp { .. } => (TerminalState { dragging_scrollbar: false, ..self }, None, ctx),
            AppEvent::Focus(_) => (self, None, ctx.redrawn()),
            AppEvent::Resized { .. } => (self, None, ctx.redrawn()),
            _ => (self, None, ctx),
        }
    }

    /// With the output of a program, if there is any.
    pub open spec fn with_output(self, out: Seq<u8>) -> TerminalState {
        if out.len() > 0 { self.printed(read_text(out)) } else { self }
    }

    /// After the program ended with a code.
    pub open spec fn program_ended(self, code: int) -> TerminalState {
        let a = TerminalState { program: None, ..self };
        let b = if a.screen.lines.last().len() > 0 { a.printed("\n"@) } else { a };
        let c = if code != 0 {
            b.colored(DIM).printed("[exited with code "@ + int_text(code) + "]\n"@).colored(FG)
        } else {
            b
        };
        if c.close_when_done {
            c.colored(DIM).printed("[process finished - press any key to close]\n"@).colored(FG)
        } else {
            c
        }
    }

    pub open spec fn title(self) -> Seq<char> {
        match self.program {
            Some(p) => p + " \u{2014} Terminal"@,
            None => "Terminal \u{2014} "@ + self.cwd,
        }
    }

    /// Fitted to a window of this size, with characters of this size.
    pub open spec fn fitted(self, w: i32, h: i32, focused: bool, cw: int, lh: int) -> TerminalState {
        let s = TerminalState {
            size: (w, h),
            focused,
            screen: ScreenState { cols: max(tdiv(w - 30, cw), 10), ..self.screen },
            rows: max(tdiv(h - 20, lh), 1),
            ..self
        };
        TerminalState { scroll: clamp(s.scroll, 0, max(s.total() - s.rows, 0)), ..s }
    }

    /// The first row that is shown.
    pub open spec fn first_row(self) -> int {
        max(self.total() - self.rows - self.scroll, 0)
    }
}

// ---------------------------------------------------------------------
// Laws
// ---------------------------------------------------------------------

/// Typing a character and rubbing it out again leaves the input as it was.
pub proof fn lemma_type_backspace(s: TerminalState, k: KeyEvent, ch: char, b: KeyEvent)
    requires
        s.wf(),
        k.key == Key::Char(ch),
        !k.ctrl,
        !k.alt,
        b.key == Key::Backspace,
    ensures
        s.keyed(k).0.keyed(b).0.input == s.input,
        s.keyed(k).0.keyed(b).0.caret == s.caret,
{
    let t = s.keyed(k).0;
    assert(t.input == s.input.insert(s.caret, ch));
    assert(s.input.insert(s.caret, ch).remove(s.caret) =~= s.input);
}

/// Going back in the history and forward again ends at the same line.
pub proof fn lemma_history_back_and_forth(s: TerminalState)
    requires
        s.wf(),
        s.history.len() <= usize::MAX,
        match s.history_pos {
            Some(i) => i > 0 && s.input == s.history[i as int] && s.caret == s.input.len(),
            None => false,
        },
    ensures
        s.stepped(true).stepped(false) == s,
{
}

/// A submitted line is printed with the prompt, and can be had again with
/// one step back in the history.
pub proof fn lemma_submit_then_up(s: TerminalState)
    requires
        s.wf(),
        trim(s.input).len() > 0,
        s.history.len() < usize::MAX,
    ensures
        s.submitted().input.len() == 0,
        s.submitted().stepped(true).input == trim(s.input),
{
}

/// The rows that are shown are within what there is.
pub proof fn lemma_view_in_range(s: TerminalState, w: i32, h: i32, focused: bool, cw: int, lh: int)
    requires
        s.wf(),
        cw > 0,
        lh > 0,
    ensures
        ({
            let f = s.fitted(w, h, focused, cw, lh);
            0 <= f.first_row() <= f.total() && f.first_row() + f.rows >= f.total() - f.scroll
        }),
{
    let f = s.fitted(w, h, focused, cw, lh);
    assert(f.visual_rows() == (TerminalState { scroll: s.scroll, ..f }).visual_rows());
}

/// The keys of the line editor change only what is next to the caret: a
/// character goes in before it, Backspace takes out the one before it, Delete
/// the one behind it, Left and Right go over one, Home and End to the two
/// ends, and Ctrl+U takes out all that is before it.
pub proof fn lemma_keys_at_caret(s: TerminalState, k: KeyEvent)
    requires
        s.wf(),
    ensures
        ({
            let a = s.input.take(s.caret);
            let b = s.input.skip(s.caret);
            let n = s.keyed(k).0;
            let c = n.input.take(n.caret);
            let d = n.input.skip(n.caret);
            &&& !k.ctrl && !k.alt ==> (k.key matches Key::Char(ch) ==> c == a.push(ch) && d == b)
            &&& k.key == Key::Backspace && a.len() > 0 ==> c == a.drop_last() && d == b
            &&& k.key == Key::Delete && b.len() > 0 ==> c == a && d == b.skip(1)
            &&& k.key == Key::Left && a.len() > 0 ==> c == a.drop_last() && d == seq![a.last()] + b
            &&& k.key == Key::Right && b.len() > 0 ==> c == a.push(b[0]) && d == b.skip(1)
            &&& k.key == Key::Home ==> c.len() == 0 && d == s.input
            &&& k.key == Key::End ==> c == s.input && d.len() == 0
            &&& k.key == Key::Char('u') && k.ctrl ==> c.len() == 0 && d == b
            &&& (k.key == Key::Backspace || k.key == Key::Left) && a.len() == 0 ==> n.input == s.input && n.caret == 0
            &&& (k.key == Key::Delete || k.key == Key::Right) && b.len() == 0 ==> n.input == s.input && n.caret
                == s.caret
        }),
{
    let a = s.input.take(s.caret);
    let b = s.input.skip(s.caret);
    let n = s.keyed(k).0;
    let c = n.input.take(n.caret);
    let d = n.input.skip(n.caret);
    if k.key == Key::Backspace && a.len() > 0 {
        assert(c =~= a.drop_last());
        assert(d =~= b);
    } else if k.key == Key::Delete && b.len() > 0 {
        assert(c =~= a);
        assert(d =~= b.skip(1));
    } else if k.key == Key::Left && a.len() > 0 {
        assert(c =~= a.drop_last());
        assert(d =~= seq![a.last()] + b);
    } else if k.key == Key::Right && b.len() > 0 {
        assert(c =~= a.push(b[0]));
        assert(d =~= b.skip(1));
    } else if k.key == Key::Home {
        assert(d =~= s.input);
    } else if k.key == Key::End {
        assert(c =~= s.input);
    } else if k.key == Key::Char('u') && k.ctrl {
        assert(d =~= b);
    } else if k.key is Char && !k.ctrl && !k.alt {
        assert(c =~= a.push(k.key->Char_0));
        assert(d =~= b);
    }
}

/// Enter runs the line as it was typed, without the white space around it,
/// and leaves an empty line; a blank one runs nothing. The history gets the
/// line unless it was the last one, and loses none.
pub proof fn lemma_enter_runs_line(s: TerminalState, k: KeyEvent)
    requires
        s.wf(),
        k.key == Key::Enter,
    ensures
        ({
            let (n, r) = s.keyed(k);
            let line = trim(s.input);
            &&& line.len() > 0 ==> r == Some(RequestState::Run(line)) && n.history.len() > 0 && n.history.last() == line
            &&& line.len() == 0 ==> r is None && n.history == s.history
            &&& n.history == s.history || n.history == s.history.push(line)
            &&& n.input.len() == 0
            &&& n.caret == 0
            &&& n.history_pos is None
        }),
{
}

pub open spec fn steps_back(s: TerminalState, n: nat) -> TerminalState
    decreases n,
{
    if n == 0 { s } else { steps_back(s, (n - 1) as nat).stepped(true) }
}

/// Pressing Up brings back the lines of the history one by one, the latest
/// first, and stays at the first one.
pub proof fn lemma_steps_back(s: TerminalState, n: nat)
    requires
        s.history_pos is None,
        0 < s.history.len() <= usize::MAX,
        n > 0,
    ensures
        ({
            let t = steps_back(s, n);
            &&& t.history == s.history
            &&& t.input == (if n <= s.history.len() { s.history[s.history.len() - n] } else { s.history[0] })
            &&& t.history_pos == Some((if n <= s.history.len() { s.history.len() - n } else { 0 }) as usize)
            &&& t.caret == t.input.len()
        }),
    decreases n,
{
    if n > 1 {
        lemma_steps_back(s, (n - 1) as nat);
    } else {
        assert(steps_back(s, 0) == s);
    }
}

proof fn lemma_completions(s: Seq<EntryState>, prefix: Seq<char>)
    ensures
        completions(s, prefix) == s.filter(|e: EntryState| starts(unicode_lower(e.name), unicode_lower(prefix))),
    decreases s.len(),
{
    reveal(Seq::filter);
    if s.len() > 0 {
        lemma_completions(s.drop_last(), prefix);
    }
}

/// Completing a word puts in the name of the one entry that begins as the
/// word does, with a slash behind a folder and a space behind a file. What
/// stands before that name and what stands behind the caret stays. Without
/// such an entry, or with several, the line stays as it is.
pub proof fn lemma_completion(s: TerminalState, entries: Seq<EntryState>)
    requires
        s.wf(),
    ensures
        ({
            let at = s.name_start();
            let typed = s.input.subrange(at, s.caret);
            let fitting = entries.filter(
                |e: EntryState| starts(unicode_lower(e.name), unicode_lower(typed)),
            );
            let n = s.completed(entries);
            &&& 0 <= at <= s.caret
            &&& !typed.contains('/')
            &&& !typed.contains(' ')
            &&& fitting.len() == 1 ==> n.input == s.input.take(at) + fitting[0].name + seq![
                if fitting[0].is_dir { '/' } else { ' ' },
            ] + s.input.skip(s.caret) && n.caret == at + fitting[0].name.len() + 1
            &&& fitting.len() != 1 ==> n.input == s.input && n.caret == s.caret
        }),
{
    let a = s.input.take(s.caret);
    lemma_rfind(a, ' ');
    let ws = s.word_start();
    let w = s.input.subrange(ws, s.caret);
    lemma_rfind(w, '/');
    let at = s.name_start();
    let typed = s.input.subrange(at, s.caret);
    assert forall|i: int| 0 <= i < typed.len() implies typed[i] != '/' && typed[i] != ' ' by {
        assert(typed[i] == w[at - ws + i]);
        assert(typed[i] == a[at + i]);
    }
    lemma_completions(entries, typed);
    let m = completions(entries, typed);
    if m.len() == 1 {
        let c = if m[0].is_dir { '/' } else { ' ' };
        assert(s.input.take(at) + m[0].name.push(c) + s.input.skip(s.caret) =~= s.input.take(at) + m[0].name + seq![c]
            + s.input.skip(s.caret));
    }
}

/// While a program runs, what is typed is kept until Enter sends it as one
/// line; Backspace takes back the last character.
pub proof fn lemma_program_gets_line(s: TerminalState, k: KeyEvent)
    requires
        s.wf(),
        !k.ctrl,
        !k.alt,
    ensures
        ({
            let (n, r) = s.program_key(k);
            &&& (k.key matches Key::Char(ch) ==> r is None && n.proc_input == s.proc_input.push(ch))
            &&& k.key == Key::Enter ==> r == Some(RequestState::Send(s.proc_input.push('\n'))) && n.proc_input.len() == 0
            &&& k.key == Key::Backspace && s.proc_input.len() > 0 ==> r is None && n.proc_input
                == s.proc_input.drop_last()
        }),
{
}

/// The scroll bar's two ends show the first and the last rows.
pub proof fn lemma_scrollbar_ends(s: TerminalState, y: int)
    requires
        s.total() > s.rows,
        s.size.1 > 8,
    ensures
        y <= 4 ==> s.scrolled_to(y).scroll == s.total() - s.rows,
        y >= s.size.1 - 4 ==> s.scrolled_to(y).scroll == 0,
{
    let range = s.total() - s.rows;
    let h = s.size.1 - 8;
    if y <= 4 {
        assert((y - 4) * range <= 0) by (nonlinear_arith)
            requires
                y <= 4,
                range > 0,
        ;
        let a = -((y - 4) * range);
        assert(a / h >= 0) by (nonlinear_arith)
            requires
                a >= 0,
                h > 0,
        ;
    } else if y >= s.size.1 - 4 {
        assert((y - 4) * range >= h * range) by (nonlinear_arith)
            requires
                y - 4 >= h,
                range > 0,
        ;
        assert(((y - 4) * range) / h >= range) by (nonlinear_arith)
            requires
                (y - 4) * range >= h * range,
                h > 0,
        ;
    }
}

// ---------------------------------------------------------------------
// Functions
// ---------------------------------------------------------------------

fn push_cells(out: &mut Vec<Cell>, s: &[char], color: Color)
    ensures
        final(out)@ == old(out)@ + cells(s@, color),
        cells(s@, color).len() == s@.len(),
{
    let mut i: usize = 0;
    proof {

        assert(out@ =~= old(out)@ + cells(s@.take(0), color));
    }
    while i < s.len()
        invariant
            i <= s@.len(),
            cells(s@.take(i as int), color).len() == i,
            out@ == old(out)@ + cells(s@.take(i as int), color),
        decreases s@.len() - i,
    {
        out.push(Cell { ch: s[i], color });
        i += 1;
        proof {
            assert(s@.take(i as int).drop_last() =~= s@.take(i - 1));
            crate::text::lemma_char_range(s@[i - 1]);
            assert(out@ =~= old(out)@ + cells(s@.take(i as int), color));
        }
    }
    proof {
        assert(s@.take(s@.len() as int) =~= s@);
    }
}

/// The text of cells.
fn chars_of(v: &[Cell]) -> (r: Vec<char>)
    ensures
        r@ == Seq::new(v@.len(), |i: int| v@[i].ch),
{
    let mut out: Vec<char> = Vec::new();
    let mut i: usize = 0;
    while i < v.len()
        invariant
            i <= v@.len(),
            out@ == Seq::new(i as nat, |i: int| v@[i].ch),
        decreases v@.len() - i,
    {
        out.push(v[i].ch);
        i += 1;
        proof {
            assert(out@ =~= Seq::new(i as nat, |i: int| v@[i].ch));
        }
    }
    out
}

impl Terminal {
    pub fn new() -> (r: Terminal)
        ensures
            ({
                let s = TerminalState {
                    screen: ScreenState {
                        lines: seq![Seq::<Cell>::empty()],
                        color: FG,
                        ansi: super::screen::AnsiState::Normal,
                        cols: 80,
                    },
                    cwd: seq!['/'],
                    input: Seq::empty(),
                    caret: 0,
                    history: Seq::empty(),
                    history_pos: None,
                    program: None,
                    proc_input: Seq::empty(),
                    scroll: 0,
                    rows: 24,
                    size: (0, 0),
                    startup: None,
                    focused: true,
                    blink_on: true,
                    last_blink: 0,
                    close_when_done: false,
                    dragging_scrollbar: false,
                };
                r@ == s.colored(BLUE).printed("MayOS Terminal\n"@).colored(DIM).printed(
                    "Type 'help' for a list of commands.\n\n"@,
                ).colored(FG)
            }),
            r@.wf(),
    {
        let cwd: Vec<char> = vec!['/'];
        let mut t: Terminal = Terminal {
            screen: Screen::new(),
            cwd,
            input: Vec::new(),
            caret: 0,
            history: Vec::new(),
            history_pos: None,
            program: None,
            proc_input: Vec::new(),
            scroll: 0,
            rows: 24,
            size: (0, 0),
            startup: None,
            focused: true,
            blink_on: true,
            last_blink: 0,
            close_when_done: false,
            dragging_scrollbar: false,
        };
        proof {
            assert(t@.history =~= Seq::<Seq<char>>::empty());
            assert(t@.cwd =~= seq!['/']);
        }
        t.set_color(BLUE);
        t.print("MayOS Terminal\n");
        t.set_color(DIM);
        t.print("Type 'help' for a list of commands.\n\n");
        t.set_color(FG);
        t
    }

    /// A terminal that immediately runs `command` (e.g. a program opened
    /// from the file explorer).
    pub fn with_command(cwd: &str, command: &str) -> (r: Terminal)
        ensures
            exists|t: Terminal|
                #[trigger] call_ensures(Terminal::new, (), t) && r@ == (TerminalState {
                    cwd: cwd@,
                    startup: Some(command@),
                    ..t@
                }),
            r@.wf(),
    {
        let mut t: Terminal = Terminal::new();
        let ghost t0 = t;
        t.cwd = to_chars(cwd);
        t.startup = Some(to_text(&to_chars(command)));
        proof {
            assert(call_ensures(Terminal::new, (), t0));
            assert(t@ =~= (TerminalState { cwd: cwd@, startup: Some(command@), ..t0@ }));
        }
        t
    }

    pub fn set_color(&mut self, c: Color)
        ensures
            final(self)@ == old(self)@.colored(c),
    {
        self.screen.set_color(c);
    }

    /// Print characters.
    pub fn print_chars(&mut self, s: &[char])
        requires
            old(self)@.wf(),
        ensures
            final(self)@ == old(self)@.printed(s@),
            final(self)@.wf(),
    {
        self.screen.print(s);
        self.scroll = 0;
    }

    /// Append text, interpreting newlines, backspace, tabs and ANSI colour
    /// escapes plus "clear screen".
    pub fn print(&mut self, s: &str)
        requires
            old(self)@.wf(),
        ensures
            final(self)@ == old(self)@.printed(s@),
            final(self)@.wf(),
    {
        self.print_chars(&to_chars(s));
    }

    pub fn clear(&mut self)
        requires
            old(self)@.wf(),
        ensures
            final(self)@ == old(self)@.cleared(),
            final(self)@.wf(),
    {
        self.screen.clear();
        self.scroll = 0;
    }

    fn prompt(&self) -> (r: Vec<Cell>)
        ensures
            r@ == self@.prompt(),
    {
        let mut v: Vec<Cell> = Vec::new();
        push_cells(&mut v, &to_chars("user@mayos"), GREEN);
        let colon: Vec<char> = vec![':'];
        proof {
            assert(colon@ =~= seq![':']);
        }
        push_cells(&mut v, &colon, FG);
        push_cells(&mut v, &self.cwd, BLUE);
        push_cells(&mut v, &to_chars("$ "), FG);
        proof {
            assert(v@ =~= self@.prompt());
        }
        v
    }

    /// The editable line shown after the scrollback.
    fn live_line(&self) -> (r: (Vec<Cell>, usize))
        requires
            self@.wf(),
        ensures
            (r.0@, r.1 as int) == self@.live_line(),
    {
        if self.program.is_some() {
            let mut l: Vec<Cell> = Vec::new();
            let last: &Vec<Cell> = &self.screen.lines[self.screen.lines.len() - 1];
            copy_cells(&mut l, last, 0, last.len());
            push_cells(&mut l, &self.proc_input, FG);
            proof {
                assert(self@.screen.lines.last() == last@);
                assert(l@ =~= last@ + cells(self.proc_input@, FG));
            }
            let n: usize = l.len();
            (l, n)
        } else {
            let mut l: Vec<Cell> = self.prompt();
            let start: usize = l.len();
            push_cells(&mut l, &self.input, FG);
            let n: usize = l.len();
            proof {
                assert(n == start + self.input@.len());
            }
            (l, start + self.caret)
        }
    }

    /// All visual rows, wrapped to the terminal width, plus the caret row
    /// and column.
    pub fn visual_rows(&self) -> (r: (Vec<Vec<Cell>>, (usize, usize)))
        requires
            self@.wf(),
        ensures
            rows_of(r.0@) == self@.visual_rows(),
            r.1.1 == self@.caret_at().1,
            self@.caret_at().0 <= usize::MAX ==> r.1.0 == self@.caret_at().0,
    {
        let cols: usize = if self.screen.cols >= 10 { self.screen.cols } else { 10 };
        let mut rows: Vec<Vec<Cell>> = Vec::new();
        let all: usize = self.screen.lines.len();
        let n: usize = if self.program.is_some() || self.screen.lines[all - 1].len() == 0 { all - 1 } else { all };
        let ghost body = self@.body();
        proof {
            assert(body =~= self@.screen.lines.take(n as int));
            assert(body.take(0) =~= Seq::empty());
            assert(rows_of(rows@) =~= Seq::empty());
        }
        let mut i: usize = 0;
        while i < n
            invariant
                i <= n <= self.screen.lines@.len(),
                cols > 0,
                body == self@.screen.lines.take(n as int),
                rows_of(rows@) == wrapped(body.take(i as int), cols as int),
            decreases n - i,
        {
            proof {
                assert(body.take(i + 1).drop_last() =~= body.take(i as int));
                assert(body.take(i + 1).last() == self.screen.lines@[i as int]@);
            }
            push_chunks(&mut rows, &self.screen.lines[i], cols);
            i += 1;
        }
        proof {
            assert(body.take(n as int) =~= body);
        }
        let (live, caret) = self.live_line();
        let first: usize = rows.len();
        push_chunks(&mut rows, &live, cols);
        if caret > 0 && caret % cols == 0 && caret == live.len() {
            let ghost r0 = rows_of(rows@);
            rows.push(Vec::new());
            proof {
                assert(rows_of(rows@) =~= r0.push(Seq::empty()));
            }
        }
        let down: usize = caret / cols;
        let row: usize = if down <= usize::MAX - first { first + down } else { usize::MAX };
        (rows, (row, caret % cols))
    }

    fn total_rows(&self) -> (r: i64)
        requires
            self@.wf(),
        ensures
            r == self@.total(),
            0 <= r <= i32::MAX,
    {
        let (rows, _) = self.visual_rows();
        let n: usize = rows.len();
        proof {
            assert(n == self@.visual_rows().len());
        }
        if n <= 0x7fff_ffff { n as i64 } else { 0x7fff_ffff }
    }

    /// Echo the line into the scrollback and hand it to the shell.
    fn submit(&mut self) -> (r: Option<Request>)
        requires
            old(self)@.wf(),
        ensures
            final(self)@ == old(self)@.submitted(),
            asked(r) == if trim(old(self)@.input).len() > 0 {
                Some(RequestState::Run(trim(old(self)@.input)))
            } else {
                None
            },
            final(self)@.wf(),
    {
        let mut line: Vec<char> = Vec::new();
        std::mem::swap(&mut line, &mut self.input);
        self.caret = 0;
        self.history_pos = None;
        let ghost s = TerminalState { input: Seq::empty(), caret: 0, history_pos: None, ..old(self)@ };
        proof {
            assert(self@ =~= s);
        }
        self.set_color(GREEN);
        self.print("user@mayos");
        self.set_color(FG);
        self.print(":");
        self.set_color(BLUE);
        let cwd: Vec<char> = copy(&self.cwd);
        self.print_chars(&cwd);
        self.set_color(FG);
        self.print("$ ");
        self.print_chars(&line);
        self.print("\n");
        proof {
            assert(self@ == s.echoed(line@));
        }
        let words: Vec<char> = trimmed(&line);
        if words.len() == 0 {
            return None;
        }
        let n: usize = self.history.len();
        if n == 0 || !same(&to_chars(self.history[n - 1].as_str()), &words) {
            let ghost h = self@.history;
            self.history.push(to_text(&words));
            proof {
                assert(self@.history =~= h.push(words@));
            }
        }
        Some(Request::Run(to_text(&words)))
    }

    /// A user program attached to this terminal was started.
    pub fn start_program(&mut self, name: &str)
        requires
            old(self)@.wf(),
        ensures
            final(self)@ == (TerminalState { program: Some(name@), proc_input: Seq::empty(), ..old(self)@ }),
            final(self)@.wf(),
    {
        self.program = Some(to_text(&to_chars(name)));
        self.proc_input.clear();
        proof {
            assert(self@.history =~= old(self)@.history);
        }
    }

    /// Scrollback as plain text.
    pub fn plain_text(&self) -> (r: String)
        ensures
            r@ == crate::text::join(
                Seq::new(
                    self@.screen.lines.len(),
                    |i: int| Seq::new(self@.screen.lines[i].len(), |k: int| self@.screen.lines[i][k].ch),
                ),
                '\n',
            ),
    {
        to_text(&self.screen.plain_text())
    }

    pub fn history(&self) -> (r: &[String])
        ensures
            texts(r@) == self@.history,
    {
        &self.history
    }

    /// Take the output of the program, and whether it has ended: with its
    /// code and what it wrote last.
    pub fn poll_process(&mut self, out: &[u8], ended: Option<(i64, Vec<u8>)>, ctx: &mut Ctx)
        requires
            old(self)@.wf(),
            old(self)@.program is Some,
        ensures
            ({
                let a = old(self)@.with_output(out@);
                final(self)@ == match ended {
                    Some((code, rest)) => a.with_output(rest@).program_ended(code as int),
                    None => a,
                }
            }),
            final(ctx)@ == if out@.len() > 0 || ended is Some { old(ctx)@.redrawn() } else { old(ctx)@ },
            final(self)@.wf(),
    {
        if out.len() > 0 {
            let s: String = text_of_bytes(out);
            self.print(s.as_str());
            ctx.redraw();
        }
        if let Some((code, rest)) = ended {
            if rest.len() > 0 {
                let s: String = text_of_bytes(&rest);
                self.print(s.as_str());
            }
            self.end_program(code);
            ctx.redraw();
        }
    }

    fn end_program(&mut self, code: i64)
        requires
            old(self)@.wf(),
        ensures
            final(self)@ == old(self)@.program_ended(code as int),
            final(self)@.wf(),
    {
        self.program = None;
        proof {
            assert(self@ =~= (TerminalState { program: None, ..old(self)@ }));
        }
        let n: usize = self.screen.lines.len();
        proof {
            assert(self@.screen.lines.last() == self.screen.lines@[n - 1]@);
        }
        if self.screen.lines[n - 1].len() > 0 {
            self.print("\n");
        }
        if code != 0 {
            self.set_color(DIM);
            let mut m: Vec<char> = to_chars("[exited with code ");
            push_int(&mut m, code);
            push_str(&mut m, "]\n");
            proof {
                assert(m@ =~= "[exited with code "@ + int_text(code as int) + "]\n"@);
            }
            self.print_chars(&m);
            self.set_color(FG);
        }
        if self.close_when_done {
            self.set_color(DIM);
            self.print("[process finished - press any key to close]\n");
            self.set_color(FG);
        }
    }

    fn set_input(&mut self, input: Vec<char>, caret: usize)
        requires
            old(self)@.wf(),
            caret <= input@.len(),
        ensures
            final(self)@ == old(self)@.with_input(input@, caret as int),
            final(self)@.wf(),
    {
        self.input = input;
        self.caret = caret;
        proof {
            assert(self@.history =~= old(self)@.history);
        }
    }

    fn history_step(&mut self, up: bool)
        requires
            old(self)@.wf(),
        ensures
            final(self)@ == old(self)@.stepped(up),
            final(self)@.wf(),
    {
        let n: usize = self.history.len();
        if n == 0 {
            return;
        }
        let pos: Option<usize> = match (self.history_pos, up) {
            (None, true) => Some(n - 1),
            (None, false) => None,
            (Some(i), true) => Some(if i == 0 { 0 } else { i - 1 }),
            (Some(i), false) => if i + 1 < n { Some(i + 1) } else { None },
        };
        self.history_pos = pos;
        self.input = match pos {
            Some(i) => to_chars(self.history[i].as_str()),
            None => Vec::new(),
        };
        self.caret = self.input.len();
        proof {
            assert(self@ =~= old(self)@.stepped(up));
        }
    }

    fn find_name(&self) -> (r: (usize, usize))
        requires
            self@.wf(),
        ensures
            r.0 == self@.word_start(),
            r.1 == self@.name_start(),
            r.0 <= r.1 <= self.caret,
    {
        let before: Vec<char> = copy_range(&self.input, 0, self.caret);
        proof {
            assert(before@ =~= self.input@.take(self.caret as int));
            crate::text::lemma_rfind(before@, ' ');
        }
        let start: usize = match rfind_char(&before, ' ') {
            Some(i) => i + 1,
            None => 0,
        };
        let word: Vec<char> = copy_range(&self.input, start, self.caret);
        proof {
            crate::text::lemma_rfind(word@, '/');
        }
        let at: usize = match rfind_char(&word, '/') {
            Some(i) => start + i + 1,
            None => start,
        };
        (start, at)
    }

    /// The folder in which the word before the caret is completed.
    pub fn completion_dir(&self) -> (r: String)
        requires
            self@.wf(),
        ensures
            r@ == self@.completion_dir(),
    {
        let (start, at) = self.find_name();
        let dir: Vec<char> = copy_range(&self.input, start, at);
        let d: Vec<char> = if dir.len() == 0 { to_chars(".") } else { dir };
        to_text(&normalize_chars(&self.cwd, &d))
    }

    /// Complete the word before the caret; `entries` is the listing of
    /// [`Terminal::completion_dir`].
    pub fn complete(&mut self, entries: &[DirEntry])
        requires
            old(self)@.wf(),
        ensures
            final(self)@ == old(self)@.completed(entries_of(entries@)),
            final(self)@.wf(),
    {
        let (_, at) = self.find_name();
        let prefix: Vec<char> = copy_range(&self.input, at, self.caret);
        let shown: String = to_text(&prefix);
        let lower: Vec<char> = to_chars(to_lowercase(shown.as_str()).as_str());
        let ghost all = entries_of(entries@);
        let mut found: Vec<usize> = Vec::new();
        let mut names: Vec<char> = Vec::new();
        let ghost mut m = Seq::<EntryState>::empty();
        let mut i: usize = 0;
        proof {
            assert(all.take(0) =~= Seq::empty());
        }
        while i < entries.len()
            invariant
                i <= entries@.len(),
                all == entries_of(entries@),
                lower@ == unicode_lower(prefix@),
                m == completions(all.take(i as int), prefix@),
                found@.len() == m.len(),
                forall|k: int|
                    0 <= k < found@.len() ==> (#[trigger] found@[k]) < entries@.len() && m[k]
                        == entries@[found@[k] as int]@,
                names@ == name_list(m),
            decreases entries@.len() - i,
        {
            let low: Vec<char> = to_chars(to_lowercase(entries[i].name.as_str()).as_str());
            proof {
                assert(all.take(i + 1).drop_last() =~= all.take(i as int));
                assert(all.take(i + 1).last() == entries@[i as int]@);
            }
            if starts_with(&low, &lower) {
                let ghost m0 = m;
                let ghost n0 = names@;
                let name: Vec<char> = to_chars(entries[i].name.as_str());
                if found.len() > 0 {
                    push_str(&mut names, "  ");
                }
                push_all(&mut names, &name);
                found.push(i);
                proof {
                    m = m0.push(entries@[i as int]@);
                    assert(m.drop_last() =~= m0);
                    if m0.len() > 0 {
                        assert(names@ =~= n0 + "  "@ + name@);
                    } else {
                        assert(names@ =~= name@);
                    }
                }
            }
            i += 1;
        }
        proof {
            assert(all.take(all.len() as int) =~= all);
        }
        if found.len() == 1 {
            let e: &DirEntry = &entries[found[0]];
            let mut input: Vec<char> = copy_range(&self.input, 0, at);
            push_all(&mut input, &to_chars(e.name.as_str()));
            input.push(if e.is_dir { '/' } else { ' ' });
            let caret: usize = input.len();
            let rest: Vec<char> = copy_range(&self.input, self.caret, self.input.len());
            push_all(&mut input, &rest);
            proof {
                let name = m[0].name.push(if m[0].is_dir { '/' } else { ' ' });
                assert(rest@ =~= self.input@.skip(self.caret as int));
                assert(input@ =~= self.input@.take(at as int) + name + self.input@.skip(self.caret as int));
            }
            self.set_input(input, caret);
        } else if found.len() > 1 {
            let mut line: Vec<char> = chars_of(&self.prompt());
            push_all(&mut line, &self.input);
            push_str(&mut line, "\n");
            self.print_chars(&line);
            self.set_color(DIM);
            self.print_chars(&names);
            self.set_color(FG);
            self.print("\n");
        }
    }

    fn scroll_to_y(&mut self, y: i32)
        requires
            old(self)@.wf(),
        ensures
            final(self)@ == old(self)@.scrolled_to(y as int),
            final(self)@.wf(),
    {
        let total: i64 = self.total_rows();
        let range: i64 = total - self.rows as i64;
        if range <= 0 {
            return;
        }
        let h: i64 = if self.size.1 as i64 - 8 > 1 { self.size.1 as i64 - 8 } else { 1 };
        let d: i64 = y as i64 - 4;
        proof {
            assert(-0x7fff_0000_0000_0000 <= d * range <= 0x7fff_0000_0000_0000) by (nonlinear_arith)
                requires
                    -0x8000_0004 <= d <= 0x7fff_ffff,
                    0 < range <= 0x7fff_ffff,
            ;
            crate::arith::lemma_tdiv_bounds(d * range, h as int);
        }
        let t: i64 = clamp_i64(div(d * range, h), 0, range);
        let s: i64 = range - t;
        self.set_scroll(s);
    }

    fn set_scroll(&mut self, v: i64)
        requires
            old(self)@.wf(),
        ensures
            final(self)@ == old(self)@.scrolled(v as int),
            final(self)@.wf(),
    {
        self.scroll = clamp_i64(v, 0, 0x7fff_ffff) as i32;
        proof {
            assert(self@.history =~= old(self)@.history);
        }
    }

    pub fn title(&self) -> (r: String)
        ensures
            r@ == self@.title(),
    {
        let mut out: Vec<char> = Vec::new();
        match &self.program {
            Some(p) => {
                push_str(&mut out, p.as_str());
                push_str(&mut out, " \u{2014} Terminal");
            },
            None => {
                push_str(&mut out, "Terminal \u{2014} ");
                push_all(&mut out, &self.cwd);
            },
        }
        proof {
            assert(out@ =~= self@.title());
        }
        to_text(&out)
    }

    /// Fit the terminal to its window before it is drawn; `cw` and `lh` are
    /// the size of a character. Returns the rows, the first one that is
    /// shown and where the caret is.
    pub fn render(&mut self, w: i32, h: i32, focused: bool, cw: i32, lh: i32) -> (r: (
        Vec<Vec<Cell>>,
        i64,
        (usize, usize),
    ))
        requires
            old(self)@.wf(),
            cw > 0,
            lh > 0,
        ensures
            final(self)@ == old(self)@.fitted(w, h, focused, cw as int, lh as int),
            rows_of(r.0@) == final(self)@.visual_rows(),
            r.1 == final(self)@.first_row(),
            r.2.1 == final(self)@.caret_at().1,
            final(self)@.caret_at().0 <= usize::MAX ==> r.2.0 == final(self)@.caret_at().0,
            final(self)@.wf(),
    {
        proof {
            crate::arith::lemma_tdiv_bounds(w - 30, cw as int);
            crate::arith::lemma_tdiv_bounds(h - 20, lh as int);
        }
        let cols: i64 = div(w as i64 - 30, cw as i64);
        let rows: i64 = div(h as i64 - 20, lh as i64);
        self.size = (w, h);
        self.focused = focused;
        self.screen.cols = if cols > 10 { cols as usize } else { 10 };
        self.rows = if rows > 1 { rows as i32 } else { 1 };
        proof {
            assert(self@.history =~= old(self)@.history);
            assert(self@.screen.lines =~= old(self)@.screen.lines);
        }
        let ghost s = self@;
        let total: i64 = self.total_rows();
        let range: i64 = if total - self.rows as i64 > 0 { total - self.rows as i64 } else { 0 };
        self.scroll = clamp_i64(self.scroll as i64, 0, range) as i32;
        proof {
            assert(self@.history =~= old(self)@.history);
            assert(self@.visual_rows() == s.visual_rows());
        }
        let first: i64 = total - self.rows as i64 - self.scroll as i64;
        let (shown, at) = self.visual_rows();
        (shown, if first > 0 { first } else { 0 }, at)
    }

    fn program_key(&mut self, k: &KeyEvent) -> (r: Option<Request>)
        requires
            old(self)@.wf(),
        ensures
            (final(self)@, asked(r)) == old(self)@.program_key(*k),
            final(self)@.wf(),
    {
        self.scroll = 0;
        proof {
            assert(self@ =~= (TerminalState { scroll: 0, ..old(self)@ }));
        }
        match k.key {
            Key::Char('c') if k.ctrl => Some(Request::Kill),
            Key::Char('d') if k.ctrl => Some(Request::CloseInput),
            Key::Enter => {
                let mut line: Vec<char> = Vec::new();
                std::mem::swap(&mut line, &mut self.proc_input);
                proof {
                    assert(self@ =~= (TerminalState { scroll: 0, proc_input: Seq::empty(), ..old(self)@ }));
                }
                self.print_chars(&line);
                self.print("\n");
                line.push('\n');
                Some(Request::Send(to_text(&line)))
            },
            Key::Backspace => {
                self.proc_input.pop();
                proof {
                    assert(self@ =~= old(self)@.program_key(*k).0);
                }
                None
            },
            _ => {
                if let Some(ch) = k.text() {
                    self.proc_input.push(ch);
                }
                proof {
                    assert(self@ =~= old(self)@.program_key(*k).0);
                }
                None
            },
        }
    }

    fn prompt_key(&mut self, k: &KeyEvent) -> (r: Option<Request>)
        requires
            old(self)@.wf(),
        ensures
            (final(self)@, asked(r)) == old(self)@.prompt_key(*k),
            final(self)@.wf(),
    {
        let n: usize = self.input.len();
        let c: usize = self.caret;
        match k.key {
            Key::Enter => return self.submit(),
            Key::Tab => return Some(Request::List(self.completion_dir())),
            Key::Backspace => {
                if c > 0 {
                    let mut v: Vec<char> = copy(&self.input);
                    v.remove(c - 1);
                    self.set_input(v, c - 1);
                }
            },
            Key::Delete => {
                if c < n {
                    let mut v: Vec<char> = copy(&self.input);
                    v.remove(c);
                    self.set_input(v, c);
                }
            },
            Key::Left => {
                let v: Vec<char> = copy(&self.input);
                self.set_input(v, if c > 0 { c - 1 } else { 0 });
            },
            Key::Right => {
                let v: Vec<char> = copy(&self.input);
                self.set_input(v, if c < n { c + 1 } else { n });
            },
            Key::Home => {
                let v: Vec<char> = copy(&self.input);
                self.set_input(v, 0);
            },
            Key::End => {
                let v: Vec<char> = copy(&self.input);
                self.set_input(v, n);
            },
            Key::Up => self.history_step(true),
            Key::Down => self.history_step(false),
            Key::PageUp => {
                let half: i64 = div(self.rows as i64, 2);
                self.set_scroll(self.scroll as i64 + half);
            },
            Key::PageDown => {
                let half: i64 = div(self.rows as i64, 2);
                self.set_scroll(self.scroll as i64 - half);
            },
            Key::Char('l') if k.ctrl => self.clear(),
            Key::Char('c') if k.ctrl => {
                self.set_input(Vec::new(), 0);
                self.print("^C\n");
            },
            Key::Char('u') if k.ctrl => {
                let v: Vec<char> = copy_range(&self.input, c, n);
                proof {
                    assert(v@ =~= self.input@.skip(c as int));
                }
                self.set_input(v, 0);
            },
            _ => {
                if let Some(ch) = k.text() {
                    let mut v: Vec<char> = copy(&self.input);
                    v.insert(c, ch);
                    let len: usize = v.len();
                    proof {
                        assert(len == n + 1);
                    }
                    self.set_input(v, c + 1);
                }
            },
        }
        None
    }

    fn key(&mut self, k: &KeyEvent) -> (r: Option<Request>)
        requires
            old(self)@.wf(),
        ensures
            (final(self)@, asked(r)) == old(self)@.keyed(*k),
            final(self)@.wf(),
    {
        let r: Option<Request> = self.prompt_key(k);
        let ghost s = self@;
        if k.key != Key::PageUp && k.key != Key::PageDown {
            self.scroll = 0;
            proof {
                assert(self@ =~= (TerminalState { scroll: 0, ..s }));
            }
        }
        r
    }

    /// An event; `now` is the time in milliseconds.
    pub fn event(&mut self, ev: &AppEvent, now: u64, ctx: &mut Ctx) -> (r: Option<Request>)
        requires
            old(self)@.wf(),
        ensures
            (final(self)@, asked(r), final(ctx)@) == old(self)@.after(*ev, now, old(ctx)@),
            final(self)@.wf(),
    {
        match ev {
            AppEvent::Key(k) => {
                if !k.pressed {
                    return None;
                }
                self.blink_on = true;
                self.last_blink = now;
                proof {
                    assert(self@ =~= old(self)@.awake(now));
                }
                if self.program.is_none() && self.close_when_done {
                    ctx.close();
                    return None;
                }
                let r: Option<Request> = if self.program.is_some() { self.program_key(k) } else { self.key(k) };
                ctx.redraw();
                return r;
            },
            AppEvent::Wheel { delta, .. } => {
                self.set_scroll(self.scroll as i64 - *delta as i64 * 3);
                ctx.redraw();
            },
            AppEvent::MouseDown { x, y, button, .. } => {
                let left: i64 = self.size.0 as i64 - 14;
                if *button == 0 && left <= *x as i64 && (*x as i64) < left + 16 && 0 <= *y && *y < self.size.1 {
                    self.dragging_scrollbar = true;
                    proof {
                        assert(self@ =~= (TerminalState { dragging_scrollbar: true, ..old(self)@ }));
                    }
                    self.scroll_to_y(*y);
                    ctx.redraw();
                }
            },
            AppEvent::MouseMove { y, .. } => {
                if self.dragging_scrollbar {
                    self.scroll_to_y(*y);
                    ctx.redraw();
                }
            },
            AppEvent::MouseUp { .. } => {
                self.dragging_scrollbar = false;
                proof {
                    assert(self@ =~= (TerminalState { dragging_scrollbar: false, ..old(self)@ }));
                }
            },
            AppEvent::Focus(_) => ctx.redraw(),
            AppEvent::Resized { .. } => ctx.redraw(),
            _ => {},
        }
        None
    }

    /// The command line to run first, once.
    pub fn take_startup(&mut self) -> (r: Option<Request>)
        requires
            old(self)@.wf(),
        ensures
            final(self)@ == (TerminalState { startup: None, ..old(self)@ }),
            asked(r) == match old(self)@.startup {
                Some(cmd) => Some(RequestState::Run(cmd)),
                None => None,
            },
            final(self)@.wf(),
    {
        let mut cmd: Option<String> = None;
        std::mem::swap(&mut cmd, &mut self.startup);
        proof {
            assert(self@ =~= (TerminalState { startup: None, ..old(self)@ }));
        }
        match cmd {
            Some(c) => Some(Request::Run(c)),
            None => None,
        }
    }

    /// The first command line was run: if it started a program, the window
    /// goes with it.
    pub fn startup_done(&mut self, ctx: &mut Ctx)
        requires
            old(self)@.wf(),
        ensures
            final(self)@ == (TerminalState {
                close_when_done: old(self)@.close_when_done || old(self)@.program is Some,
                ..old(self)@
            }),
            final(ctx)@ == old(ctx)@.redrawn(),
            final(self)@.wf(),
    {
        if self.program.is_some() {
            self.close_when_done = true;
        }
        proof {
            assert(self@ =~= (TerminalState {
                close_when_done: old(self)@.close_when_done || old(self)@.program is Some,
                ..old(self)@
            }));
        }
        ctx.redraw();
    }

    /// Let the caret blink.
    pub fn tick(&mut self, now: u64, ctx: &mut Ctx)
        requires
            old(self)@.wf(),
            now >= old(self)@.last_blink,
        ensures
            ({
                let s = old(self)@;
                if s.focused && now - s.last_blink >= 530 {
                    final(self)@ == (TerminalState { last_blink: now, blink_on: !s.blink_on, ..s }) && final(ctx)@
                        == old(ctx)@.redrawn()
                } else {
                    final(self)@ == s && final(ctx)@ == old(ctx)@
                }
            }),
            final(self)@.wf(),
    {
        if self.focused && now - self.last_blink >= 530 {
            self.last_blink = now;
            self.blink_on = !self.blink_on;
            proof {
                assert(self@ =~= (TerminalState { last_blink: now, blink_on: !old(self)@.blink_on, ..old(self)@ }));
            }
            ctx.redraw();
        }
    }

    /// The window is about to close: a running program goes with it.
    pub fn request_close(&mut self) -> (r: Option<Request>)
        requires
            old(self)@.wf(),
        ensures
            final(self)@ == (TerminalState { program: None, ..old(self)@ }),
            asked(r) == if old(self)@.program is Some { Some(RequestState::Kill) } else { None },
            final(self)@.wf(),
    {
        let running: bool = self.program.is_some();
        self.program = None;
        proof {
            assert(self@ =~= (TerminalState { program: None, ..old(self)@ }));
        }
        if running { Some(Request::Kill) } else { None }
    }
}

} // verus!
