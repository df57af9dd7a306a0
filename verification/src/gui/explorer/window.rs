//! The explorer's state, and what events do to it.

use super::layout::{all_small, find_hit, hit, Hover, Pane, Tool};
use super::menu::{Action, ContextMenu, MenuState};
use crate::fs::entry::{entries_of, DirEntry, EntryState};
use crate::fs::path::{
    base_name, canonical, file_name_chars, join_chars, joined_path, lemma_join_parent_name, lemma_parts_of_path_of,
    normalize_chars, normalized, parent_chars, parts_of, path_of, proper, up,
};
use crate::gui::app::{AppEvent, Ctx, CtxState, Msg, NewWindow, NewWindowState};
use crate::gui::dialog::{Dialog, DialogState};
use crate::gui::geom::Area;
use crate::gui::widgets::TextInputState;
use crate::input::{Key, KeyEvent};
use crate::text::{copy, is_str, lower, lower_char, push_all, push_str, same, to_chars, to_text, trim, trimmed, views};
use vstd::prelude::*;

verus! {

/// The names that new folders and new files are offered.
pub const NEW_FOLDER: &'static str = "New Folder";

pub const NEW_FILE: &'static str = "New Text File.txt";

pub const TAG_NEW_FOLDER: u32 = 1;
pub const TAG_NEW_FILE: u32 = 2;
pub const TAG_RENAME: u32 = 3;
pub const TAG_DELETE: u32 = 4;

/// What the explorer asks for.
pub enum Request {
    /// Show a folder: `enter` if it is one, `not_a_folder` if not. Then
    /// select the child, if one is named.
    Visit { path: Vec<char>, record: bool, child: Option<Vec<char>> },
    /// List the folder again.
    Refresh,
    /// Open a file with its default app.
    OpenFile { path: Vec<char>, name: Vec<char> },
    /// Find a free name like `NEW_FOLDER`, then `ask_folder`.
    NameFolder,
    /// Find a free name like `NEW_FILE`, then `ask_file`.
    NameFile,
    /// Find out whether the path is a folder, then `ask_delete`.
    ConfirmDelete(Vec<char>),
    /// Copy the path beside itself, then `duplicated`.
    Duplicate(Vec<char>),
    /// Keep the path to be pasted, moved if it was cut.
    Clip { path: Vec<char>, cut: bool },
    /// See what is kept with `paste`, move or copy it under a free name like its
    /// own, then `pasted` and `clip_after`.
    Paste,
    /// Open a terminal in this folder.
    Terminal(Vec<char>),
    CreateDir { path: Vec<char>, name: Vec<char> },
    CreateFile { path: Vec<char>, name: Vec<char> },
    Rename { from: Vec<char>, to: Vec<char>, name: Vec<char> },
    /// Find out whether the path is a folder, `discard` it, then `deleted`.
    Delete(Vec<char>),
}

pub enum RequestState {
    Visit { path: Seq<char>, record: bool, child: Option<Seq<char>> },
    Refresh,
    OpenFile { path: Seq<char>, name: Seq<char> },
    NameFolder,
    NameFile,
    ConfirmDelete(Seq<char>),
    Duplicate(Seq<char>),
    Clip { path: Seq<char>, cut: bool },
    Paste,
    Terminal(Seq<char>),
    CreateDir { path: Seq<char>, name: Seq<char> },
    CreateFile { path: Seq<char>, name: Seq<char> },
    Rename { from: Seq<char>, to: Seq<char>, name: Seq<char> },
    Delete(Seq<char>),
}

pub open spec fn opt_chars(o: Option<Vec<char>>) -> Option<Seq<char>> {
    match o {
        Some(v) => Some(v@),
        None => None,
    }
}

impl View for Request {
    type V = RequestState;

    open spec fn view(&self) -> RequestState {
        match *self {
            Request::Visit { path, record, child } => RequestState::Visit { path: path@, record, child: opt_chars(child) },
            Request::Refresh => RequestState::Refresh,
            Request::OpenFile { path, name } => RequestState::OpenFile { path: path@, name: name@ },
            Request::NameFolder => RequestState::NameFolder,
            Request::NameFile => RequestState::NameFile,
            Request::ConfirmDelete(p) => RequestState::ConfirmDelete(p@),
            Request::Duplicate(p) => RequestState::Duplicate(p@),
            Request::Clip { path, cut } => RequestState::Clip { path: path@, cut },
            Request::Paste => RequestState::Paste,
            Request::Terminal(p) => RequestState::Terminal(p@),
            Request::CreateDir { path, name } => RequestState::CreateDir { path: path@, name: name@ },
            Request::CreateFile { path, name } => RequestState::CreateFile { path: path@, name: name@ },
            Request::Rename { from, to, name } => RequestState::Rename { from: from@, to: to@, name: name@ },
            Request::Delete(p) => RequestState::Delete(p@),
        }
    }
}

pub open spec fn asked(r: Option<Request>) -> Option<RequestState> {
    match r {
        Some(x) => Some(x@),
        None => None,
    }
}

/// What the explorer sees of the outside.
pub struct Env {
    /// Where the breadcrumbs are, and what folders they lead to.
    pub crumb_areas: Vec<Area>,
    pub crumb_paths: Vec<Vec<char>>,
    /// What folders the places at the side lead to.
    pub place_paths: Vec<Vec<char>>,
    /// Whether there is something to paste.
    pub has_clip: bool,
    pub now: u64,
}

impl Env {
    pub open spec fn wf(self) -> bool {
        &&& all_small(self.crumb_areas@)
        &&& self.crumb_areas@.len() == self.crumb_paths@.len()
        &&& self.place_paths@.len() <= 5
    }
}

pub struct Explorer {
    pub path: Vec<char>,
    pub entries: Vec<DirEntry>,
    pub selected: Option<usize>,
    pub pane: Pane,
    pub back: Vec<Vec<char>>,
    pub forward: Vec<Vec<char>>,
    pub generation: u64,
    pub hover: Hover,
    pub menu: Option<ContextMenu>,
    /// A message, whether it is an error, and until when it is shown.
    pub message: Option<(Vec<char>, bool, u64)>,
    /// The path that a dialog is about.
    pub pending: Option<Vec<char>>,
    pub select_after_refresh: Option<Vec<char>>,
    pub dragging_scrollbar: bool,
    pub focused: bool,
}

#[verifier::ext_equal]
pub struct ExplorerState {
    pub path: Seq<char>,
    pub entries: Seq<EntryState>,
    pub selected: Option<usize>,
    pub pane: Pane,
    pub back: Seq<Seq<char>>,
    pub forward: Seq<Seq<char>>,
    pub generation: u64,
    pub hover: Hover,
    pub menu: Option<MenuState>,
    pub message: Option<(Seq<char>, bool, u64)>,
    pub pending: Option<Seq<char>>,
    pub select_after_refresh: Option<Seq<char>>,
    pub dragging_scrollbar: bool,
    pub focused: bool,
}

pub open spec fn menu_of(m: Option<ContextMenu>) -> Option<MenuState> {
    match m {
        Some(x) => Some(x@),
        None => None,
    }
}

impl View for Explorer {
    type V = ExplorerState;

    open spec fn view(&self) -> ExplorerState {
        ExplorerState {
            path: self.path@,
            entries: entries_of(self.entries@),
            selected: self.selected,
            pane: self.pane,
            back: views(self.back@),
            forward: views(self.forward@),
            generation: self.generation,
            hover: self.hover,
            menu: menu_of(self.menu),
            message: match self.message {
                Some((m, e, t)) => Some((m@, e, t)),
                None => None,
            },
            pending: opt_chars(self.pending),
            select_after_refresh: opt_chars(self.select_after_refresh),
            dragging_scrollbar: self.dragging_scrollbar,
            focused: self.focused,
        }
    }
}

pub type Step = (ExplorerState, Option<RequestState>);

/// The first entry with a name.
pub open spec fn position_of(s: Seq<EntryState>, name: Seq<char>, k: int) -> Option<usize>
    decreases s.len() - k,
{
    if k < 0 || k >= s.len() {
        None
    } else if s[k].name == name {
        Some(k as usize)
    } else {
        position_of(s, name, k + 1)
    }
}

/// The entry that comes first from `start` on, around the end, whose name
/// begins with a letter; `k` entries were looked at.
pub open spec fn letter_from(s: Seq<EntryState>, ch: char, start: int, k: int) -> Option<usize>
    decreases s.len() - k,
{
    if k < 0 || k >= s.len() {
        None
    } else {
        let i = (start + k) % (s.len() as int);
        if s[i].name.len() > 0 && lower(s[i].name[0]) == ch {
            Some(i as usize)
        } else {
            letter_from(s, ch, start, k + 1)
        }
    }
}

pub open spec fn quoted(before: Seq<char>, name: Seq<char>, after: Seq<char>) -> Seq<char> {
    before + "\u{201c}"@ + name + "\u{201d}"@ + after
}

pub open spec fn input_dialog(
    title: Seq<char>,
    message: Seq<char>,
    initial: Seq<char>,
    ok: Seq<char>,
    tag: u32,
    reply_to: u32,
) -> NewWindowState {
    NewWindowState::Dialog(
        DialogState {
            title,
            message,
            input: Some(TextInputState::initial(initial).stem_selected()),
            ok_label: ok,
            cancel_label: Some("Cancel"@),
            danger: false,
            second_is_alt: false,
            tag,
            reply_to,
            hover: None,
            size: (400i32, 160i32),
            answered: false,
        },
    )
}

impl ExplorerState {
    pub open spec fn wf(self) -> bool {
        &&& self.pane.wf()
        &&& self.pane.count == self.entries.len()
        &&& (self.selected matches Some(i) ==> i < self.entries.len())
        &&& (self.menu matches Some(m) ==> m.items.len() <= 100)
    }

    pub open spec fn flashed(self, msg: Seq<char>, error: bool, now: u64) -> ExplorerState {
        let until = if now + 4000 > u64::MAX { u64::MAX } else { (now + 4000) as u64 };
        ExplorerState { message: Some((msg, error, until)), ..self }
    }

    pub open spec fn selected_path(self) -> Option<Seq<char>> {
        match self.selected {
            Some(i) => if i < self.entries.len() {
                Some(joined_path(self.path, self.entries[i as int].name))
            } else {
                None
            },
            None => None,
        }
    }

    pub open spec fn visit(path: Seq<char>, record: bool) -> RequestState {
        RequestState::Visit { path: normalized("/"@, path), record, child: None }
    }

    pub open spec fn gone_back(self) -> Step {
        if self.back.len() == 0 {
            (self, None)
        } else {
            let p = self.back.last();
            (
                ExplorerState { back: self.back.drop_last(), forward: self.forward.push(self.path), path: p, ..self },
                Some(ExplorerState::visit(p, false)),
            )
        }
    }

    pub open spec fn gone_forward(self) -> Step {
        if self.forward.len() == 0 {
            (self, None)
        } else {
            let p = self.forward.last();
            (
                ExplorerState { forward: self.forward.drop_last(), back: self.back.push(self.path), path: p, ..self },
                Some(ExplorerState::visit(p, false)),
            )
        }
    }

    pub open spec fn gone_up(self) -> Step {
        if self.path == "/"@ {
            (self, None)
        } else {
            let parent = path_of(up(parts_of("/"@, self.path)));
            (
                self,
                Some(
                    RequestState::Visit {
                        path: normalized("/"@, parent),
                        record: true,
                        child: Some(base_name(self.path)),
                    },
                ),
            )
        }
    }

    pub open spec fn opened(self, i: int) -> Step {
        if 0 <= i < self.entries.len() {
            let e = self.entries[i];
            let p = joined_path(self.path, e.name);
            (
                self,
                Some(
                    if e.is_dir { ExplorerState::visit(p, true) } else { RequestState::OpenFile { path: p, name: e.name } },
                ),
            )
        } else {
            (self, None)
        }
    }

    /// What an action does.
    pub open spec fn acted(self, a: Action, now: u64, ctx: CtxState) -> (Step, CtxState) {
        let c = ctx.redrawn();
        match a {
            Action::Open => match self.selected {
                Some(i) => (self.opened(i as int), c),
                None => ((self, None), c),
            },
            Action::NewFolder => ((self, Some(RequestState::NameFolder)), c),
            Action::NewFile => ((self, Some(RequestState::NameFile)), c),
            Action::Rename => match self.selected_path() {
                Some(p) => {
                    let name = base_name(p);
                    (
                        (ExplorerState { pending: Some(p), ..self }, None),
                        ctx.with(
                            crate::gui::app::CommandState::OpenChild(
                                input_dialog(
                                    "Rename"@,
                                    quoted("New name for "@, name, ":"@),
                                    name,
                                    "Rename"@,
                                    TAG_RENAME,
                                    ctx.window,
                                ),
                            ),
                        ).redrawn(),
                    )
                },
                None => ((self, None), c),
            },
            Action::Delete => match self.selected_path() {
                Some(p) => ((self, Some(RequestState::ConfirmDelete(p))), c),
                None => ((self, None), c),
            },
            Action::Duplicate => match self.selected_path() {
                Some(p) => ((self, Some(RequestState::Duplicate(p))), c),
                None => ((self, None), c),
            },
            Action::Copy => (self.clipped(false, now), c),
            Action::Cut => (self.clipped(true, now), c),
            Action::Paste => ((self, Some(RequestState::Paste)), c),
            Action::Refresh => ((self, Some(RequestState::Refresh)), c),
            Action::TerminalHere => ((self, Some(RequestState::Terminal(self.path))), c),
        }
    }

    pub open spec fn clipped(self, cut: bool, now: u64) -> Step {
        match self.selected_path() {
            Some(p) => (
                self.flashed(quoted(if cut { "Cut "@ } else { "Copied "@ }, base_name(p), ""@), false, now),
                Some(RequestState::Clip { path: p, cut }),
            ),
            None => (self, None),
        }
    }

    pub open spec fn hit_at(self, env: Env, x: int, y: int) -> Hover {
        hit(self.pane, self.menu, env.crumb_areas@, env.place_paths@.len(), x, y)
    }

    /// With row `i` selected and in sight.
    pub open spec fn chosen(self, i: int) -> ExplorerState {
        ExplorerState { selected: Some(i as usize), pane: self.pane.showing(i), ..self }
    }

    pub open spec fn with_menu(self, x: i32, y: i32, on_item: bool, env: Env) -> ExplorerState {
        ExplorerState {
            menu: Some(MenuState { x, y, items: super::menu::menu_items(on_item, env.has_clip) }),
            hover: Hover::Nothing,
            ..self
        }
    }

    pub open spec fn tool_used(self, t: Tool, now: u64, ctx: CtxState) -> (Step, CtxState) {
        match t {
            Tool::Back => (self.gone_back(), ctx),
            Tool::Forward => (self.gone_forward(), ctx),
            Tool::Up => (self.gone_up(), ctx),
            Tool::NewFolder => self.acted(Action::NewFolder, now, ctx),
            Tool::NewFile => self.acted(Action::NewFile, now, ctx),
        }
    }

    /// A press of a mouse button where no menu is open and the scroll bar is
    /// not.
    pub open spec fn clicked(self, env: Env, x: i32, y: i32, button: u8, clicks: u8, ctx: CtxState) -> (Step, CtxState) {
        match self.hit_at(env, x as int, y as int) {
            Hover::Tool(t) if button == 0 => self.tool_used(t, env.now, ctx),
            Hover::Crumb(i) if button == 0 => (
                (self, Some(ExplorerState::visit(env.crumb_paths@[i as int]@, true))),
                ctx,
            ),
            Hover::Place(i) if button == 0 => (
                (self, Some(ExplorerState::visit(env.place_paths@[i as int]@, true))),
                ctx,
            ),
            Hover::Row(i) => {
                let s = ExplorerState { selected: Some(i), ..self };
                if button == 1 {
                    ((s.with_menu(x, y, true, env), None), ctx)
                } else if clicks >= 2 {
                    (s.opened(i as int), ctx)
                } else {
                    ((s, None), ctx)
                }
            },
            _ => if self.pane.list().spec_has(x as int, y as int) {
                let s = ExplorerState { selected: None, ..self };
                ((if button == 1 { s.with_menu(x, y, false, env) } else { s }, None), ctx)
            } else {
                ((self, None), ctx)
            },
        }
    }

    pub open spec fn on_scrollbar(self, x: int, y: int) -> bool {
        self.pane.track().spec_grown(3).spec_has(x, y) && self.pane.content() > self.pane.list().h
    }

    pub open spec fn pressed(self, env: Env, x: i32, y: i32, button: u8, clicks: u8, ctx: CtxState) -> (Step, CtxState) {
        match self.menu {
            Some(m) => {
                let s = ExplorerState { menu: None, ..self };
                let ((t, r), c) = match m.item_at((self.pane.w, self.pane.h), x as int, y as int) {
                    Some(i) => s.acted(m.items[i as int]->0, env.now, ctx),
                    None => ((s, None), ctx),
                };
                ((ExplorerState { hover: t.hit_at(env, x as int, y as int), ..t }, r), c)
            },
            None => if button == 0 && self.on_scrollbar(x as int, y as int) {
                ((ExplorerState { dragging_scrollbar: true, ..self }, None), ctx)
            } else {
                self.clicked(env, x, y, button, clicks, ctx)
            },
        }
    }

    /// A key that moves the selection, if it is one.
    pub open spec fn moved(self, k: KeyEvent) -> Option<ExplorerState> {
        let n = self.entries.len();
        match k.key {
            Key::Down => if n > 0 {
                Some(
                    self.chosen(
                        match self.selected {
                            Some(i) => if i + 1 < n { i + 1 } else { n - 1 },
                            None => 0,
                        },
                    ),
                )
            } else {
                None
            },
            Key::Up => if n > 0 {
                Some(
                    self.chosen(
                        match self.selected {
                            Some(i) => if i > 0 { i - 1 } else { 0 },
                            None => 0,
                        },
                    ),
                )
            } else {
                None
            },
            Key::Home => if n > 0 { Some(self.chosen(0)) } else { None },
            Key::End => if n > 0 { Some(self.chosen(n - 1)) } else { None },
            Key::Char(ch) => if !k.ctrl && !k.alt && n > 0 {
                let start = match self.selected {
                    Some(i) => i + 1,
                    None => 0,
                };
                Some(
                    match letter_from(self.entries, lower(ch), start, 0) {
                        Some(i) => self.chosen(i as int),
                        None => self,
                    },
                )
            } else {
                None
            },
            _ => None,
        }
    }

    /// The action that a key stands for, if it is one.
    pub open spec fn shortcut(k: KeyEvent) -> Option<Action> {
        match k.key {
            Key::Enter => Some(Action::Open),
            Key::Delete => Some(Action::Delete),
            Key::F(f) => if f == 2 { Some(Action::Rename) } else if f == 5 { Some(Action::Refresh) } else { None },
            Key::Char(c) => if !k.ctrl {
                None
            } else if c == 'c' {
                Some(Action::Copy)
            } else if c == 'x' {
                Some(Action::Cut)
            } else if c == 'v' {
                Some(Action::Paste)
            } else if c == 'd' {
                Some(Action::Duplicate)
            } else if c == 'N' {
                Some(Action::NewFolder)
            } else if c == 'n' {
                Some(Action::NewFile)
            } else {
                None
            },
            _ => None,
        }
    }

    pub open spec fn keyed(self, k: KeyEvent, now: u64, ctx: CtxState) -> (Step, CtxState) {
        if self.menu is Some {
            if k.key == Key::Escape {
                ((ExplorerState { menu: None, ..self }, None), ctx.redrawn())
            } else {
                ((self, None), ctx)
            }
        } else {
            match ExplorerState::shortcut(k) {
                Some(a) => self.acted(a, now, ctx),
                None => if k.key == Key::Backspace {
                    (self.gone_up(), ctx.redrawn())
                } else if k.key == Key::Left && k.alt {
                    (self.gone_back(), ctx.redrawn())
                } else if k.key == Key::Right && k.alt {
                    (self.gone_forward(), ctx.redrawn())
                } else {
                    match self.moved(k) {
                        Some(s) => ((s, None), ctx.redrawn()),
                        None => ((self, None), ctx),
                    }
                },
            }
        }
    }

    /// What the answer of a dialog leads to. Without an answer nothing
    /// happens.
    pub open spec fn answered(self, tag: u32, value: Option<Seq<char>>, now: u64) -> Step {
        let s = ExplorerState { pending: None, ..self };
        match value {
            None => (s, None),
            Some(v) => {
                let name = trim(v);
                if (tag == TAG_NEW_FOLDER || tag == TAG_NEW_FILE || tag == TAG_RENAME) && name.len() == 0 {
                    (s.flashed("A name is required"@, true, now), Some(RequestState::Refresh))
                } else if tag == TAG_NEW_FOLDER {
                    (s, Some(RequestState::CreateDir { path: joined_path(self.path, name), name }))
                } else if tag == TAG_NEW_FILE {
                    (s, Some(RequestState::CreateFile { path: joined_path(self.path, name), name }))
                } else if tag == TAG_RENAME {
                    match self.pending {
                        Some(from) => {
                            let to = joined_path(path_of(up(parts_of("/"@, from))), name);
                            (
                                s,
                                Some(
                                    if to == from {
                                        RequestState::Refresh
                                    } else {
                                        RequestState::Rename { from, to, name }
                                    },
                                ),
                            )
                        },
                        None => (s, Some(RequestState::Refresh)),
                    }
                } else if tag == TAG_DELETE {
                    match self.pending {
                        Some(p) => (s, Some(RequestState::Delete(p))),
                        None => (s, Some(RequestState::Refresh)),
                    }
                } else {
                    (s, Some(RequestState::Refresh))
                }
            },
        }
    }

    /// After an event: the new state, what is asked for, and the context.
    pub open spec fn after(self, ev: AppEvent, env: Env, ctx: CtxState) -> (Step, CtxState) {
        match ev {
            AppEvent::MouseMove { x, y, .. } => if self.dragging_scrollbar {
                ((ExplorerState { pane: self.pane.dragged(y as int), ..self }, None), ctx.redrawn())
            } else {
                let h = self.hit_at(env, x as int, y as int);
                if h != self.hover {
                    ((ExplorerState { hover: h, ..self }, None), ctx.redrawn())
                } else {
                    ((self, None), ctx)
                }
            },
            AppEvent::MouseLeave => if self.hover != Hover::Nothing {
                ((ExplorerState { hover: Hover::Nothing, ..self }, None), ctx.redrawn())
            } else {
                ((self, None), ctx)
            },
            AppEvent::MouseUp { .. } => ((ExplorerState { dragging_scrollbar: false, ..self }, None), ctx),
            AppEvent::MouseDown { x, y, button, clicks } => self.pressed(env, x, y, button, clicks, ctx.redrawn()),
            AppEvent::Wheel { delta, .. } => if self.menu is None {
                let p = Pane { scroll: (self.pane.scroll + delta * 56) as i64, ..self.pane };
                ((ExplorerState { pane: p.clamped(), ..self }, None), ctx.redrawn())
            } else {
                ((self, None), ctx)
            },
            AppEvent::Key(k) => if k.pressed { self.keyed(k, env.now, ctx) } else { ((self, None), ctx) },
            AppEvent::Message(m) => match m {
                Msg::DialogResult { tag, value } => (
                    self.answered(tag, crate::gui::app::opt_text(value), env.now),
                    ctx.redrawn(),
                ),
                _ => ((self, None), ctx),
            },
            AppEvent::Focus(_) => ((self, None), ctx.redrawn()),
            AppEvent::Resized { .. } => ((self, None), ctx.redrawn()),
        }
    }
}

// ---------------------------------------------------------------------
// Laws
// ---------------------------------------------------------------------

/// Going back and then forward again leads to where one was.
pub proof fn lemma_back_and_forward(s: ExplorerState)
    requires
        s.back.len() > 0,
    ensures
        s.gone_back().0.gone_forward().0.path == s.path,
        s.gone_back().0.gone_forward().0.back == s.back,
        s.gone_back().0.gone_forward().0.forward == s.forward,
{
    let t = s.gone_back().0;
    assert(t.forward.drop_last() =~= s.forward);
    assert(t.back.push(s.back.last()) =~= s.back);
}

/// No dialog's answer changes or removes anything but the path that the
/// dialog was about.
pub proof fn lemma_answer_touches_pending(s: ExplorerState, tag: u32, value: Option<Seq<char>>, now: u64)
    ensures
        s.answered(tag, value, now).1 matches Some(RequestState::Delete(p)) ==> s.pending == Some(p) && tag == TAG_DELETE,
        s.answered(tag, value, now).1 matches Some(RequestState::Rename { from, .. }) ==> s.pending == Some(from),
        value is None ==> s.answered(tag, value, now).1 is None,
        s.answered(tag, value, now).0.pending is None,
{
}

/// An entry that is found for a letter begins with it.
pub proof fn lemma_letter_found(s: Seq<EntryState>, ch: char, start: int, k: int)
    requires
        0 <= k,
        0 <= start,
        s.len() <= usize::MAX,
        letter_from(s, ch, start, k) is Some,
    ensures
        letter_from(s, ch, start, k)->0 < s.len(),
        s[letter_from(s, ch, start, k)->0 as int].name.len() > 0,
        lower(s[letter_from(s, ch, start, k)->0 as int].name[0]) == ch,
    decreases s.len() - k,
{
    if k < s.len() {
        let i = (start + k) % (s.len() as int);
        if !(s[i].name.len() > 0 && lower(s[i].name[0]) == ch) {
            lemma_letter_found(s, ch, start, k + 1);
        }
    }
}

/// Opening an entry leads into it if it is a folder, and opens it if it is a
/// file: the path is that of the entry in the folder that is shown.
pub proof fn lemma_opens_entry(s: ExplorerState, parts: Seq<Seq<char>>, i: int)
    requires
        canonical(parts),
        s.path == path_of(parts),
        0 <= i < s.entries.len(),
        proper(s.entries[i].name),
    ensures
        ({
            let e = s.entries[i];
            let p = path_of(parts.push(e.name));
            &&& s.opened(i).0 == s
            &&& e.is_dir ==> s.opened(i).1 == Some(RequestState::Visit { path: p, record: true, child: None })
            &&& !e.is_dir ==> s.opened(i).1 == Some(RequestState::OpenFile { path: p, name: e.name })
        }),
{
    let e = s.entries[i];
    lemma_join_parent_name(parts, e.name);
    let q = parts.push(e.name);
    assert(canonical(q)) by {
        assert forall|k: int| 0 <= k < q.len() implies proper(#[trigger] q[k]) by {
            if k < parts.len() {
                assert(q[k] == parts[k]);
            }
        }
    }
    lemma_parts_of_path_of("/"@, q);
}

/// Going up leads to the folder that holds the one shown, and selects that
/// one there; from the root it leads nowhere.
pub proof fn lemma_up_selects_child(s: ExplorerState, parts: Seq<Seq<char>>, name: Seq<char>)
    requires
        canonical(parts),
        proper(name),
        s.path == path_of(parts.push(name)),
    ensures
        s.gone_up().0 == s,
        s.gone_up().1 == Some(RequestState::Visit { path: path_of(parts), record: true, child: Some(name) }),
{
    reveal_strlit("/");
    lemma_join_parent_name(parts, name);
    lemma_parts_of_path_of("/"@, parts);
    lemma_parts_of_path_of("/"@, Seq::empty());
    let none = Seq::<Seq<char>>::empty();
    if s.path == "/"@ {
        assert(path_of(none) =~= "/"@);
        assert(parts.push(name).len() == 0);
    }
}

/// What is copied, cut, deleted, duplicated or renamed is the selected entry
/// of the folder that is shown, and nothing where none is selected.
pub proof fn lemma_acts_on_selected(s: ExplorerState, now: u64, ctx: CtxState)
    requires
        s.wf(),
    ensures
        s.selected matches Some(i) ==> {
            let p = joined_path(s.path, s.entries[i as int].name);
            &&& s.acted(Action::Copy, now, ctx).0.1 == Some(RequestState::Clip { path: p, cut: false })
            &&& s.acted(Action::Cut, now, ctx).0.1 == Some(RequestState::Clip { path: p, cut: true })
            &&& s.acted(Action::Delete, now, ctx).0.1 == Some(RequestState::ConfirmDelete(p))
            &&& s.acted(Action::Duplicate, now, ctx).0.1 == Some(RequestState::Duplicate(p))
            &&& s.acted(Action::Rename, now, ctx).0.0.pending == Some(p)
            &&& s.acted(Action::Open, now, ctx).0 == s.opened(i as int)
        },
        s.selected is None ==> {
            &&& s.acted(Action::Copy, now, ctx).0 == (s, None::<RequestState>)
            &&& s.acted(Action::Cut, now, ctx).0 == (s, None::<RequestState>)
            &&& s.acted(Action::Delete, now, ctx).0 == (s, None::<RequestState>)
            &&& s.acted(Action::Duplicate, now, ctx).0 == (s, None::<RequestState>)
            &&& s.acted(Action::Rename, now, ctx).0 == (s, None::<RequestState>)
            &&& s.acted(Action::Open, now, ctx).0 == (s, None::<RequestState>)
        },
{
}

/// A renamed entry stays in its folder, under the new name without the white
/// space around it; a new one is made in the folder that is shown.
pub proof fn lemma_rename_stays(
    s: ExplorerState,
    parts: Seq<Seq<char>>,
    old_name: Seq<char>,
    typed: Seq<char>,
    now: u64,
)
    requires
        canonical(parts),
        proper(old_name),
        proper(trim(typed)),
        s.pending == Some(path_of(parts.push(old_name))),
        trim(typed) != old_name,
    ensures
        s.answered(TAG_RENAME, Some(typed), now).1 == Some(
            RequestState::Rename {
                from: path_of(parts.push(old_name)),
                to: path_of(parts.push(trim(typed))),
                name: trim(typed),
            },
        ),
        s.answered(TAG_NEW_FOLDER, Some(typed), now).1 == Some(
            RequestState::CreateDir { path: joined_path(s.path, trim(typed)), name: trim(typed) },
        ),
        s.answered(TAG_NEW_FILE, Some(typed), now).1 == Some(
            RequestState::CreateFile { path: joined_path(s.path, trim(typed)), name: trim(typed) },
        ),
{
    reveal_strlit("");
    let name = trim(typed);
    if name.len() == 0 {
        assert(name =~= ""@);
    }
    lemma_join_parent_name(parts, old_name);
    lemma_join_parent_name(parts, name);
    assert(parts.push(old_name).last() != parts.push(name).last());
}

/// Down and Up go over one entry, Home and End to the first and the last;
/// the selection never leaves the list.
pub proof fn lemma_selection_moves(s: ExplorerState, k: KeyEvent)
    requires
        s.wf(),
        s.entries.len() > 0,
    ensures
        k.key == Key::Home ==> (s.moved(k) matches Some(n) && n.selected == Some(0usize)),
        k.key == Key::End ==> (s.moved(k) matches Some(n) && (n.selected matches Some(i) && i + 1 == s.entries.len())),
        s.selected matches Some(i) ==> {
            &&& k.key == Key::Down && i + 1 < s.entries.len() ==> (s.moved(k) matches Some(n) && (n.selected matches Some(
                j,
            ) && j == i + 1))
            &&& k.key == Key::Up && i > 0 ==> (s.moved(k) matches Some(n) && (n.selected matches Some(j) && j + 1 == i))
            &&& k.key == Key::Down && i + 1 == s.entries.len() ==> (s.moved(k) matches Some(n) && n.selected
                == s.selected)
            &&& k.key == Key::Up && i == 0 ==> (s.moved(k) matches Some(n) && n.selected == s.selected)
        },
        s.moved(k) matches Some(n) ==> n.entries == s.entries && n.path == s.path,
{
}

// ---------------------------------------------------------------------
// Functions
// ---------------------------------------------------------------------

fn visit_request(path: &[char], record: bool) -> (r: Request)
    ensures
        r@ == ExplorerState::visit(path@, record),
{
    Request::Visit { path: normalize_chars(&to_chars("/"), path), record, child: None }
}

fn quote(before: &str, name: &[char], after: &str) -> (r: Vec<char>)
    ensures
        r@ == quoted(before@, name@, after@),
{
    let mut out: Vec<char> = to_chars(before);
    push_str(&mut out, "\u{201c}");
    push_all(&mut out, name);
    push_str(&mut out, "\u{201d}");
    push_str(&mut out, after);
    out
}

/// The first entry with a name.
pub fn find_entry(entries: &[DirEntry], name: &[char]) -> (r: Option<usize>)
    ensures
        r == position_of(entries_of(entries@), name@, 0),
        r matches Some(i) ==> i < entries@.len(),
{
    let mut k: usize = 0;
    let ghost all = entries_of(entries@);
    while k < entries.len()
        invariant
            k <= entries@.len(),
            all == entries_of(entries@),
            position_of(all, name@, 0) == position_of(all, name@, k as int),
        decreases entries@.len() - k,
    {
        proof {
            assert(all[k as int].name == entries@[k as int].name@);
        }
        if same(&to_chars(entries[k].name.as_str()), name) {
            return Some(k);
        }
        k += 1;
    }
    None
}

impl Explorer {
    /// Show a message for four seconds.
    pub fn flash(&mut self, msg: Vec<char>, error: bool, now: u64)
        requires
            old(self)@.wf(),
        ensures
            final(self)@ == old(self)@.flashed(msg@, error, now),
            final(self)@.wf(),
    {
        let until: u64 = if now > u64::MAX - 4000 { u64::MAX } else { now + 4000 };
        self.message = Some((msg, error, until));
    }

    pub fn selected_path(&self) -> (r: Option<Vec<char>>)
        ensures
            opt_chars(r) == self@.selected_path(),
    {
        match self.selected {
            Some(i) => if i < self.entries.len() {
                proof {
                    assert(self@.entries[i as int].name == self.entries@[i as int].name@);
                }
                Some(join_chars(&self.path, &to_chars(self.entries[i].name.as_str())))
            } else {
                None
            },
            None => None,
        }
    }

    fn go_back(&mut self) -> (r: Option<Request>)
        requires
            old(self)@.wf(),
        ensures
            (final(self)@, asked(r)) == old(self)@.gone_back(),
            final(self)@.wf(),
    {
        let ghost b0 = views(self.back@);
        let ghost f0 = views(self.forward@);
        match self.back.pop() {
            Some(p) => {
                let r: Request = visit_request(&p, false);
                let ghost p0 = p@;
                let mut was: Vec<char> = p;
                std::mem::swap(&mut was, &mut self.path);
                let ghost w0 = was@;
                self.forward.push(was);
                proof {
                    assert(b0.last() == p0);
                    assert(views(self.back@) =~= b0.drop_last());
                    assert(views(self.forward@) =~= f0.push(w0));
                }
                Some(r)
            },
            None => None,
        }
    }

    fn go_forward(&mut self) -> (r: Option<Request>)
        requires
            old(self)@.wf(),
        ensures
            (final(self)@, asked(r)) == old(self)@.gone_forward(),
            final(self)@.wf(),
    {
        let ghost b0 = views(self.back@);
        let ghost f0 = views(self.forward@);
        match self.forward.pop() {
            Some(p) => {
                let r: Request = visit_request(&p, false);
                let ghost p0 = p@;
                let mut was: Vec<char> = p;
                std::mem::swap(&mut was, &mut self.path);
                let ghost w0 = was@;
                self.back.push(was);
                proof {
                    assert(f0.last() == p0);
                    assert(views(self.forward@) =~= f0.drop_last());
                    assert(views(self.back@) =~= b0.push(w0));
                }
                Some(r)
            },
            None => None,
        }
    }

    fn go_up(&self) -> (r: Option<Request>)
        ensures
            (self@, asked(r)) == self@.gone_up(),
    {
        if is_str(&self.path, "/") {
            return None;
        }
        let parent: Vec<char> = parent_chars(&self.path);
        Some(
            Request::Visit {
                path: normalize_chars(&to_chars("/"), &parent),
                record: true,
                child: Some(file_name_chars(&self.path)),
            },
        )
    }

    fn open_entry(&self, i: usize) -> (r: Option<Request>)
        ensures
            (self@, asked(r)) == self@.opened(i as int),
    {
        if i >= self.entries.len() {
            return None;
        }
        let e: &DirEntry = &self.entries[i];
        proof {
            assert(self@.entries[i as int] == e@);
        }
        let name: Vec<char> = to_chars(e.name.as_str());
        let path: Vec<char> = join_chars(&self.path, &name);
        if e.is_dir { Some(visit_request(&path, true)) } else { Some(Request::OpenFile { path, name }) }
    }

    fn clip(&mut self, cut: bool, now: u64) -> (r: Option<Request>)
        requires
            old(self)@.wf(),
        ensures
            (final(self)@, asked(r)) == old(self)@.clipped(cut, now),
            final(self)@.wf(),
    {
        match self.selected_path() {
            Some(p) => {
                let msg: Vec<char> = quote(if cut { "Cut " } else { "Copied " }, &file_name_chars(&p), "");
                self.flash(msg, false, now);
                Some(Request::Clip { path: p, cut })
            },
            None => None,
        }
    }

    fn ask_rename(&mut self, p: Vec<char>, ctx: &mut Ctx)
        requires
            old(self)@.wf(),
        ensures
            final(self)@ == (ExplorerState { pending: Some(p@), ..old(self)@ }),
            final(ctx)@ == old(ctx)@.with(
                crate::gui::app::CommandState::OpenChild(
                    input_dialog(
                        "Rename"@,
                        quoted("New name for "@, base_name(p@), ":"@),
                        base_name(p@),
                        "Rename"@,
                        TAG_RENAME,
                        old(ctx)@.window,
                    ),
                ),
            ),
            final(self)@.wf(),
    {
        let name: Vec<char> = file_name_chars(&p);
        let msg: String = to_text(&quote("New name for ", &name, ":"));
        let shown: String = to_text(&name);
        self.pending = Some(p);
        let d: Dialog = Dialog::input("Rename", msg.as_str(), shown.as_str(), "Rename", TAG_RENAME, ctx.window);
        ctx.open_child(NewWindow::Dialog(d));
    }

    /// Do what the menu, a tool or a key asks for.
    pub fn run(&mut self, a: Action, now: u64, ctx: &mut Ctx) -> (r: Option<Request>)
        requires
            old(self)@.wf(),
        ensures
            ((final(self)@, asked(r)), final(ctx)@) == old(self)@.acted(a, now, old(ctx)@),
            final(self)@.wf(),
    {
        let r: Option<Request> = match a {
            Action::Open => match self.selected {
                Some(i) => self.open_entry(i),
                None => None,
            },
            Action::NewFolder => Some(Request::NameFolder),
            Action::NewFile => Some(Request::NameFile),
            Action::Rename => {
                if let Some(p) = self.selected_path() {
                    self.ask_rename(p, ctx);
                }
                None
            },
            Action::Delete => match self.selected_path() {
                Some(p) => Some(Request::ConfirmDelete(p)),
                None => None,
            },
            Action::Duplicate => match self.selected_path() {
                Some(p) => Some(Request::Duplicate(p)),
                None => None,
            },
            Action::Copy => self.clip(false, now),
            Action::Cut => self.clip(true, now),
            Action::Paste => Some(Request::Paste),
            Action::Refresh => Some(Request::Refresh),
            Action::TerminalHere => Some(Request::Terminal(copy(&self.path))),
        };
        ctx.redraw();
        r
    }

    /// What is at a point.
    pub fn hit(&self, env: &Env, x: i32, y: i32) -> (r: Hover)
        requires
            self@.wf(),
            env.wf(),
        ensures
            r == self@.hit_at(*env, x as int, y as int),
            r matches Hover::Row(i) ==> i < self@.entries.len(),
            r matches Hover::Crumb(i) ==> i < env.crumb_paths@.len(),
            r matches Hover::Place(i) ==> i < env.place_paths@.len(),
    {
        find_hit(&self.pane, &self.menu, &env.crumb_areas, env.place_paths.len(), x, y)
    }

    fn choose_row(&mut self, i: usize)
        requires
            old(self)@.wf(),
            i < old(self)@.entries.len(),
        ensures
            final(self)@ == old(self)@.chosen(i as int),
            final(self)@.wf(),
    {
        self.selected = Some(i);
        self.pane.ensure_visible(i);
    }

    fn open_menu(&mut self, x: i32, y: i32, on_item: bool, env: &Env)
        requires
            old(self)@.wf(),
        ensures
            final(self)@ == old(self)@.with_menu(x, y, on_item, *env),
            final(self)@.wf(),
    {
        self.menu = Some(ContextMenu::new(x, y, on_item, env.has_clip));
        self.hover = Hover::Nothing;
    }

    fn use_tool(&mut self, t: Tool, now: u64, ctx: &mut Ctx) -> (r: Option<Request>)
        requires
            old(self)@.wf(),
        ensures
            ((final(self)@, asked(r)), final(ctx)@) == old(self)@.tool_used(t, now, old(ctx)@),
            final(self)@.wf(),
    {
        match t {
            Tool::Back => self.go_back(),
            Tool::Forward => self.go_forward(),
            Tool::Up => self.go_up(),
            Tool::NewFolder => self.run(Action::NewFolder, now, ctx),
            Tool::NewFile => self.run(Action::NewFile, now, ctx),
        }
    }

    fn click(&mut self, env: &Env, x: i32, y: i32, button: u8, clicks: u8, ctx: &mut Ctx) -> (r: Option<Request>)
        requires
            old(self)@.wf(),
            env.wf(),
        ensures
            ((final(self)@, asked(r)), final(ctx)@) == old(self)@.clicked(*env, x, y, button, clicks, old(ctx)@),
            final(self)@.wf(),
    {
        let h: Hover = self.hit(env, x, y);
        if let Hover::Row(i) = h {
            self.selected = Some(i);
            if button == 1 {
                self.open_menu(x, y, true, env);
                return None;
            }
            return if clicks >= 2 { self.open_entry(i) } else { None };
        }
        if button == 0 {
            match h {
                Hover::Tool(t) => return self.use_tool(t, env.now, ctx),
                Hover::Crumb(i) => return Some(visit_request(&env.crumb_paths[i], true)),
                Hover::Place(i) => return Some(visit_request(&env.place_paths[i], true)),
                _ => {},
            }
        }
        if self.pane.list_rect().has(x, y) {
            self.selected = None;
            if button == 1 {
                self.open_menu(x, y, false, env);
            }
        }
        None
    }

    fn press(&mut self, env: &Env, x: i32, y: i32, button: u8, clicks: u8, ctx: &mut Ctx) -> (r: Option<Request>)
        requires
            old(self)@.wf(),
            env.wf(),
        ensures
            ((final(self)@, asked(r)), final(ctx)@) == old(self)@.pressed(*env, x, y, button, clicks, old(ctx)@),
            final(self)@.wf(),
    {
        let mut menu: Option<ContextMenu> = None;
        std::mem::swap(&mut menu, &mut self.menu);
        if let Some(m) = menu {
            let mut r: Option<Request> = None;
            if let Some(i) = m.item_at((self.pane.w, self.pane.h), x, y) {
                if let Some(a) = m.items[i] {
                    r = self.run(a, env.now, ctx);
                }
            }
            self.hover = self.hit(env, x, y);
            return r;
        }
        if button == 0 && self.pane.scrollbar_track().grown(3).has(x, y) && self.pane.content_height()
            > self.pane.list_rect().h {
            self.dragging_scrollbar = true;
            return None;
        }
        self.click(env, x, y, button, clicks, ctx)
    }

    fn find_letter(&self, ch: char, start: usize) -> (r: Option<usize>)
        requires
            self@.wf(),
            start <= self.entries@.len(),
        ensures
            r == letter_from(self@.entries, ch, start as int, 0),
            r matches Some(i) ==> i < self@.entries.len(),
    {
        let n: usize = self.entries.len();
        let mut k: usize = 0;
        while k < n
            invariant
                k <= n == self.entries@.len(),
                start <= n,
                n <= 0x7fff_ffff,
                letter_from(self@.entries, ch, start as int, 0) == letter_from(
                    self@.entries,
                    ch,
                    start as int,
                    k as int,
                ),
            decreases n - k,
        {
            let i: usize = (start + k) % n;
            proof {
                assert(self@.entries[i as int] == self.entries@[i as int]@);
            }
            let name: Vec<char> = to_chars(self.entries[i].name.as_str());
            if name.len() > 0 && lower_char(name[0]) == ch {
                return Some(i);
            }
            k += 1;
        }
        None
    }

    fn move_selection(&mut self, k: &KeyEvent) -> (r: bool)
        requires
            old(self)@.wf(),
        ensures
            match old(self)@.moved(*k) {
                Some(s) => r && final(self)@ == s,
                None => !r && final(self)@ == old(self)@,
            },
            final(self)@.wf(),
    {
        let n: usize = self.entries.len();
        if n == 0 {
            return false;
        }
        match k.key {
            Key::Down => {
                let i: usize = match self.selected {
                    Some(i) => if i + 1 < n { i + 1 } else { n - 1 },
                    None => 0,
                };
                self.choose_row(i);
            },
            Key::Up => {
                let i: usize = match self.selected {
                    Some(i) => if i > 0 { i - 1 } else { 0 },
                    None => 0,
                };
                self.choose_row(i);
            },
            Key::Home => self.choose_row(0),
            Key::End => self.choose_row(n - 1),
            Key::Char(ch) => {
                if k.ctrl || k.alt {
                    return false;
                }
                let start: usize = match self.selected {
                    Some(i) => i + 1,
                    None => 0,
                };
                if let Some(i) = self.find_letter(lower_char(ch), start) {
                    self.choose_row(i);
                }
            },
            _ => return false,
        }
        true
    }

    fn key(&mut self, k: &KeyEvent, now: u64, ctx: &mut Ctx) -> (r: Option<Request>)
        requires
            old(self)@.wf(),
        ensures
            ((final(self)@, asked(r)), final(ctx)@) == old(self)@.keyed(*k, now, old(ctx)@),
            final(self)@.wf(),
    {
        if self.menu.is_some() {
            if k.key == Key::Escape {
                self.menu = None;
                ctx.redraw();
            }
            return None;
        }
        if let Some(a) = key_action(k) {
            return self.run(a, now, ctx);
        }
        match k.key {
            Key::Backspace => {
                let r: Option<Request> = self.go_up();
                ctx.redraw();
                return r;
            },
            Key::Left => {
                if k.alt {
                    let r: Option<Request> = self.go_back();
                    ctx.redraw();
                    return r;
                }
            },
            Key::Right => {
                if k.alt {
                    let r: Option<Request> = self.go_forward();
                    ctx.redraw();
                    return r;
                }
            },
            _ => {},
        }
        if self.move_selection(k) {
            ctx.redraw();
        }
        None
    }

    /// A dialog was answered.
    pub fn dialog_result(&mut self, tag: u32, value: &Option<String>, now: u64) -> (r: Option<Request>)
        requires
            old(self)@.wf(),
        ensures
            (final(self)@, asked(r)) == old(self)@.answered(tag, crate::gui::app::opt_text(*value), now),
            final(self)@.wf(),
    {
        let mut pending: Option<Vec<char>> = None;
        std::mem::swap(&mut pending, &mut self.pending);
        match value {
            None => None,
            Some(v) => {
                let name: Vec<char> = trimmed(&to_chars(v.as_str()));
                if (tag == TAG_NEW_FOLDER || tag == TAG_NEW_FILE || tag == TAG_RENAME) && name.len() == 0 {
                    self.flash(to_chars("A name is required"), true, now);
                    return Some(Request::Refresh);
                }
                if tag == TAG_NEW_FOLDER {
                    return Some(Request::CreateDir { path: join_chars(&self.path, &name), name });
                }
                if tag == TAG_NEW_FILE {
                    return Some(Request::CreateFile { path: join_chars(&self.path, &name), name });
                }
                match pending {
                    Some(p) => {
                        if tag == TAG_RENAME {
                            let to: Vec<char> = join_chars(&parent_chars(&p), &name);
                            if !same(&to, &p) {
                                return Some(Request::Rename { from: p, to, name });
                            }
                        } else if tag == TAG_DELETE {
                            return Some(Request::Delete(p));
                        }
                    },
                    None => {},
                }
                Some(Request::Refresh)
            },
        }
    }

    pub fn event(&mut self, ev: &AppEvent, env: &Env, ctx: &mut Ctx) -> (r: Option<Request>)
        requires
            old(self)@.wf(),
            env.wf(),
        ensures
            ((final(self)@, asked(r)), final(ctx)@) == old(self)@.after(*ev, *env, old(ctx)@),
            final(self)@.wf(),
    {
        match ev {
            AppEvent::MouseMove { x, y, .. } => {
                if self.dragging_scrollbar {
                    self.pane.drag_to(*y);
                    ctx.redraw();
                    return None;
                }
                let h: Hover = self.hit(env, *x, *y);
                if h != self.hover {
                    self.hover = h;
                    ctx.redraw();
                }
            },
            AppEvent::MouseLeave => {
                if self.hover != Hover::Nothing {
                    self.hover = Hover::Nothing;
                    ctx.redraw();
                }
            },
            AppEvent::MouseUp { .. } => self.dragging_scrollbar = false,
            AppEvent::MouseDown { x, y, button, clicks } => {
                ctx.redraw();
                return self.press(env, *x, *y, *button, *clicks, ctx);
            },
            AppEvent::Wheel { delta, .. } => {
                if self.menu.is_none() {
                    self.pane.wheel(*delta);
                    ctx.redraw();
                }
            },
            AppEvent::Key(k) => {
                if k.pressed {
                    return self.key(k, env.now, ctx);
                }
            },
            AppEvent::Message(m) => {
                if let Msg::DialogResult { tag, value } = m {
                    let r: Option<Request> = self.dialog_result(*tag, value, env.now);
                    ctx.redraw();
                    return r;
                }
            },
            AppEvent::Focus(_) => ctx.redraw(),
            AppEvent::Resized { .. } => ctx.redraw(),
        }
        None
    }
}

fn key_action(k: &KeyEvent) -> (r: Option<Action>)
    ensures
        r == ExplorerState::shortcut(*k),
{
    match k.key {
        Key::Enter => Some(Action::Open),
        Key::Delete => Some(Action::Delete),
        Key::F(f) => if f == 2 { Some(Action::Rename) } else if f == 5 { Some(Action::Refresh) } else { None },
        Key::Char(c) => if !k.ctrl {
            None
        } else if c == 'c' {
            Some(Action::Copy)
        } else if c == 'x' {
            Some(Action::Cut)
        } else if c == 'v' {
            Some(Action::Paste)
        } else if c == 'd' {
            Some(Action::Duplicate)
        } else if c == 'N' {
            Some(Action::NewFolder)
        } else if c == 'n' {
            Some(Action::NewFile)
        } else {
            None
        },
        _ => None,
    }
}

} // verus!
