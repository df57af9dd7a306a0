//! What came of the explorer's requests.

use super::layout::{Hover, Pane};
use super::window::{
    asked, find_entry, input_dialog, opt_chars, position_of, quoted, Explorer, ExplorerState, Request, RequestState,
    TAG_DELETE, TAG_NEW_FILE, TAG_NEW_FOLDER, TAG_RENAME,
};
use crate::fs::entry::{entries_of, DirEntry, EntryState};
use crate::fs::path::{
    base_name, canonical, file_name_chars, lemma_join_parent_name, lemma_parts_of_path_of, parent_chars, parts_of, path_of,
    proper, up,
};
use crate::gui::app::{CommandState, Ctx, NewWindow, NewWindowState};
use crate::gui::dialog::{Dialog, DialogState};
use crate::text::{copy, is_str, push_all, push_str, same, to_chars, to_text, views};
use vstd::prelude::*;

verus! {

/// What is to be pasted: a copy, or a move of what was cut.
#[derive(Clone, Copy, Debug, PartialEq, Eq, Structural)]
pub enum Pasting {
    /// What was copied is no longer there.
    Gone,
    /// It is already in this folder.
    Nothing,
    Move,
    Copy,
}

/// What is kept to be pasted.
pub struct Clip {
    pub path: Vec<char>,
    pub cut: bool,
}

/// Whether it is kept after it was pasted: not where it is gone, and not where
/// it was moved.
pub open spec fn is_kept(p: Pasting, ok: bool) -> bool {
    !(p is Gone || p is Move && ok)
}

/// What is kept to be pasted again; `ok` says whether the move or the copy went
/// well.
pub fn clip_after(clip: Option<Clip>, p: Pasting, ok: bool) -> (r: Option<Clip>)
    ensures
        r == if is_kept(p, ok) { clip } else { None },
{
    match p {
        Pasting::Gone => None,
        Pasting::Move => if ok { None } else { clip },
        _ => clip,
    }
}

/// What is to be done about what is kept, in a folder: what was cut is moved,
/// unless it is in that folder already, and what was copied is copied.
pub open spec fn pasting(src: Seq<char>, cut: bool, present: bool, dir: Seq<char>) -> Pasting {
    if !present {
        Pasting::Gone
    } else if cut {
        if path_of(up(parts_of("/"@, src))) == dir { Pasting::Nothing } else { Pasting::Move }
    } else {
        Pasting::Copy
    }
}

/// A copy can be pasted again and again, and leaves what was copied in its
/// place. What was cut is moved once: into another folder than its own, and
/// only until that went well.
pub proof fn lemma_paste_moves_once(parts: Seq<Seq<char>>, name: Seq<char>, dir: Seq<Seq<char>>, ok: bool)
    requires
        canonical(parts),
        proper(name),
        canonical(dir),
    ensures
        ({
            let src = path_of(parts.push(name));
            let to = path_of(dir);
            &&& pasting(src, false, true, to) is Copy
            &&& is_kept(pasting(src, false, true, to), ok)
            &&& pasting(src, true, true, to) is Nothing <==> dir == parts
            &&& pasting(src, true, true, to) is Move <==> dir != parts
            &&& dir != parts ==> is_kept(pasting(src, true, true, to), ok) == !ok
            &&& !is_kept(pasting(src, true, false, to), ok)
            &&& !is_kept(pasting(src, false, false, to), ok)
        }),
{
    lemma_join_parent_name(parts, name);
    lemma_parts_of_path_of("/"@, parts);
    lemma_parts_of_path_of("/"@, dir);
}

impl ExplorerState {
    /// The name that is to be selected once the folder is listed again.
    pub open spec fn kept_name(self) -> Option<Seq<char>> {
        match self.select_after_refresh {
            Some(n) => Some(n),
            None => match self.selected {
                Some(i) => if i < self.entries.len() { Some(self.entries[i as int].name) } else { None },
                None => None,
            },
        }
    }

    /// With the entry of this name selected.
    pub open spec fn with_name(self, name: Option<Seq<char>>) -> ExplorerState {
        let at = match name {
            Some(n) => position_of(self.entries, n, 0),
            None => None,
        };
        match at {
            Some(i) => self.chosen(i as int),
            None => ExplorerState { selected: None, ..self },
        }
    }

    pub open spec fn listed(self, entries: Seq<EntryState>, generation: u64) -> ExplorerState {
        (ExplorerState {
            generation,
            select_after_refresh: None,
            selected: None,
            entries,
            pane: Pane { count: entries.len() as usize, ..self.pane },
            ..self
        }).with_name(self.kept_name())
    }

    pub open spec fn refreshed(self, listing: Result<Vec<DirEntry>, String>, generation: u64, now: u64) -> ExplorerState {
        match listing {
            Ok(v) => self.listed(entries_of(v@), generation),
            Err(e) => self.listed(Seq::empty(), generation).flashed(
                "Cannot open "@ + self.path + ": "@ + e@,
                true,
                now,
            ),
        }
    }

    /// In another folder, which is yet to be listed.
    pub open spec fn entered(self, path: Seq<char>, record: bool) -> ExplorerState {
        let s = if record && path != self.path {
            ExplorerState { back: self.back.push(self.path), forward: Seq::empty(), path, ..self }
        } else {
            ExplorerState { path, ..self }
        };
        ExplorerState { selected: None, pane: Pane { scroll: 0, ..self.pane }, menu: None, ..s }
    }

    /// An attempt that selects a name if it succeeds.
    pub open spec fn tried(
        self,
        name: Seq<char>,
        r: Result<(), String>,
        failure: Seq<char>,
        now: u64,
    ) -> ExplorerState {
        match r {
            Ok(_) => ExplorerState { select_after_refresh: Some(name), ..self },
            Err(e) => self.flashed(failure + e@, true, now),
        }
    }
}

/// Entering a folder and going back leads to where one was.
pub proof fn lemma_enter_and_back(s: ExplorerState, path: Seq<char>)
    requires
        path != s.path,
    ensures
        s.entered(path, true).gone_back().0.path == s.path,
        s.entered(path, true).gone_back().0.back == s.back,
{
    assert(s.back.push(s.path).drop_last() =~= s.back);
}

/// Going back and forward again leads to the folder that was entered. A new
/// folder begins at its top, with nothing selected, and there is no way
/// forward from it; entering the folder one is in leaves no trace.
pub proof fn lemma_ways(s: ExplorerState, path: Seq<char>)
    ensures
        s.entered(path, true).path == path,
        s.entered(path, true).selected is None && s.entered(path, true).pane.scroll == 0,
        path != s.path ==> s.entered(path, true).forward.len() == 0,
        path != s.path ==> s.entered(path, true).gone_back().0.gone_forward().0.path == path,
        path != s.path ==> s.entered(path, true).gone_back().0.gone_forward().0.back == s.entered(path, true).back,
        s.entered(s.path, true).back == s.back && s.entered(s.path, true).forward == s.forward,
        s.entered(path, false).back == s.back && s.entered(path, false).forward == s.forward,
{
    let t = s.entered(path, true);
    if path != s.path {
        assert(s.back.push(s.path).drop_last() =~= s.back);
        let b = t.gone_back().0;
        assert(b.forward.len() > 0 && b.forward.last() == path);
        assert(b.back.push(b.path) =~= t.back);
    }
}

/// What was made, renamed or pasted is selected once the folder is listed
/// again; what failed is told, and leaves the folder as it is.
pub proof fn lemma_made_is_selected(
    s: ExplorerState,
    name: Seq<char>,
    failure: Seq<char>,
    e: String,
    now: u64,
    entries: Seq<EntryState>,
    generation: u64,
)
    requires
        entries.len() <= usize::MAX,
        position_of(entries, name, 0) is Some,
    ensures
        ({
            let t = s.tried(name, Ok(()), failure, now).listed(entries, generation);
            t.selected matches Some(k) && k < entries.len() && entries[k as int].name == name
        }),
        ({
            let f = s.tried(name, Err(e), failure, now);
            &&& f.message matches Some((m, error, _)) && error && m == failure + e@
            &&& f.path == s.path && f.entries == s.entries && f.selected == s.selected && f.select_after_refresh
                == s.select_after_refresh
        }),
{
    lemma_position_found(entries, name, 0);
}

/// Listing a folder again keeps the selected name, if it is still there.
pub proof fn lemma_refresh_keeps_selection(s: ExplorerState, entries: Seq<EntryState>, generation: u64, i: usize)
    requires
        s.wf(),
        s.select_after_refresh is None,
        s.selected == Some(i),
        entries.len() <= usize::MAX,
        position_of(entries, s.entries[i as int].name, 0) is Some,
    ensures
        ({
            let t = s.listed(entries, generation);
            t.selected matches Some(k) && k < entries.len() && entries[k as int].name == s.entries[i as int].name
        }),
{
    lemma_position_found(entries, s.entries[i as int].name, 0);
}

proof fn lemma_position_found(s: Seq<EntryState>, name: Seq<char>, k: int)
    requires
        0 <= k,
        s.len() <= usize::MAX,
        position_of(s, name, k) is Some,
    ensures
        position_of(s, name, k)->0 < s.len(),
        s[position_of(s, name, k)->0 as int].name == name,
    decreases s.len() - k,
{
    if k < s.len() && s[k].name != name {
        lemma_position_found(s, name, k + 1);
    }
}

impl Explorer {
    /// An explorer in a folder that is yet to be listed; `/` where `path`
    /// is not a folder.
    pub fn new(path: &str, is_dir: bool) -> (r: Explorer)
        ensures
            r@ == (ExplorerState {
                path: if is_dir { path@ } else { "/"@ },
                entries: Seq::empty(),
                selected: None,
                pane: Pane { w: 760, h: 480, count: 0, scroll: 0 },
                back: Seq::empty(),
                forward: Seq::empty(),
                generation: 0,
                hover: Hover::Nothing,
                menu: None,
                message: None,
                pending: None,
                select_after_refresh: None,
                dragging_scrollbar: false,
                focused: true,
            }),
            r@.wf(),
    {
        let r: Explorer = Explorer {
            path: if is_dir { to_chars(path) } else { to_chars("/") },
            entries: Vec::new(),
            selected: None,
            pane: Pane { w: 760, h: 480, count: 0, scroll: 0 },
            back: Vec::new(),
            forward: Vec::new(),
            generation: 0,
            hover: Hover::Nothing,
            menu: None,
            message: None,
            pending: None,
            select_after_refresh: None,
            dragging_scrollbar: false,
            focused: true,
        };
        proof {
            assert(r@.entries =~= Seq::<EntryState>::empty());
            assert(r@.back =~= Seq::<Seq<char>>::empty());
            assert(r@.forward =~= Seq::<Seq<char>>::empty());
        }
        r
    }

    fn select_name(&mut self, name: &Option<Vec<char>>)
        requires
            old(self)@.pane.wf(),
            old(self)@.pane.count == old(self)@.entries.len(),
            old(self)@.menu matches Some(m) ==> m.items.len() <= 100,
        ensures
            final(self)@ == old(self)@.with_name(opt_chars(*name)),
            final(self)@.wf(),
    {
        let at: Option<usize> = match name {
            Some(n) => find_entry(&self.entries, n),
            None => None,
        };
        match at {
            Some(i) => {
                self.selected = Some(i);
                self.pane.ensure_visible(i);
            },
            None => self.selected = None,
        }
    }

    fn list(&mut self, entries: Vec<DirEntry>, generation: u64)
        requires
            old(self)@.wf(),
            entries@.len() * 28 + 8 <= i32::MAX,
        ensures
            final(self)@ == old(self)@.listed(entries_of(entries@), generation),
            final(self)@.wf(),
    {
        let mut keep: Option<Vec<char>> = None;
        std::mem::swap(&mut keep, &mut self.select_after_refresh);
        if keep.is_none() {
            if let Some(i) = self.selected {
                proof {
                    assert(self@.entries[i as int].name == self.entries@[i as int].name@);
                }
                keep = Some(to_chars(self.entries[i].name.as_str()));
            }
        }
        proof {
            assert(opt_chars(keep) == old(self)@.kept_name());
        }
        self.generation = generation;
        self.selected = None;
        self.pane.count = entries.len();
        self.entries = entries;
        self.select_name(&keep);
    }

    /// The folder was listed again, or could not be.
    pub fn refresh(&mut self, listing: Result<Vec<DirEntry>, String>, generation: u64, now: u64)
        requires
            old(self)@.wf(),
            listing matches Ok(v) ==> v@.len() * 28 + 8 <= i32::MAX,
        ensures
            final(self)@ == old(self)@.refreshed(listing, generation, now),
            final(self)@.wf(),
    {
        match listing {
            Ok(v) => self.list(v, generation),
            Err(e) => {
                let none: Vec<DirEntry> = Vec::new();
                proof {
                    assert(entries_of(none@) =~= Seq::<EntryState>::empty());
                }
                self.list(none, generation);
                let mut m: Vec<char> = to_chars("Cannot open ");
                push_all(&mut m, &self.path);
                push_str(&mut m, ": ");
                push_str(&mut m, e.as_str());
                self.flash(m, true, now);
            },
        }
    }

    /// Go to a folder; `refresh` follows.
    pub fn enter(&mut self, path: Vec<char>, record: bool)
        requires
            old(self)@.wf(),
        ensures
            final(self)@ == old(self)@.entered(path@, record),
            final(self)@.wf(),
    {
        let ghost b0 = views(self.back@);
        let ghost p0 = path@;
        let mut was: Vec<char> = path;
        std::mem::swap(&mut was, &mut self.path);
        if record && !same(&self.path, &was) {
            let ghost w0 = was@;
            self.back.push(was);
            self.forward = Vec::new();
            proof {
                assert(views(self.back@) =~= b0.push(w0));
                assert(views(self.forward@) =~= Seq::<Seq<char>>::empty());
            }
        }
        self.selected = None;
        self.pane.scroll = 0;
        self.menu = None;
    }

    /// The folder above was entered and listed: select the one left.
    pub fn select_child(&mut self, name: &[char])
        requires
            old(self)@.wf(),
        ensures
            final(self)@ == (ExplorerState { selected: position_of(old(self)@.entries, name@, 0), ..old(self)@ }),
            final(self)@.wf(),
    {
        self.selected = find_entry(&self.entries, name);
    }

    /// What was to be visited is not a folder.
    pub fn not_a_folder(&mut self, path: &[char], now: u64)
        requires
            old(self)@.wf(),
        ensures
            final(self)@ == old(self)@.flashed(path@ + " is not a folder"@, true, now),
            final(self)@.wf(),
    {
        let mut m: Vec<char> = copy(path);
        push_str(&mut m, " is not a folder");
        self.flash(m, true, now);
    }

    fn fail(&mut self, what: &str, e: &str, now: u64)
        requires
            old(self)@.wf(),
        ensures
            final(self)@ == old(self)@.flashed(what@ + e@, true, now),
            final(self)@.wf(),
    {
        let mut m: Vec<char> = to_chars(what);
        push_str(&mut m, e);
        self.flash(m, true, now);
    }

    /// A file could not be opened.
    pub fn open_failed(&mut self, name: &[char], e: &str, now: u64)
        requires
            old(self)@.wf(),
        ensures
            final(self)@ == old(self)@.flashed("Cannot open "@ + name@ + ": "@ + e@, true, now),
            final(self)@.wf(),
    {
        let mut m: Vec<char> = to_chars("Cannot open ");
        push_all(&mut m, name);
        push_str(&mut m, ": ");
        push_str(&mut m, e);
        self.flash(m, true, now);
    }

    fn try_done(&mut self, name: &[char], r: &Result<(), String>, failure: &str, now: u64)
        requires
            old(self)@.wf(),
        ensures
            final(self)@ == old(self)@.tried(name@, *r, failure@, now),
            final(self)@.wf(),
    {
        match r {
            Ok(()) => self.select_after_refresh = Some(copy(name)),
            Err(e) => self.fail(failure, e.as_str(), now),
        }
    }

    pub fn folder_created(&mut self, name: &[char], r: &Result<(), String>, now: u64)
        requires
            old(self)@.wf(),
        ensures
            final(self)@ == old(self)@.tried(name@, *r, "Cannot create folder: "@, now),
            final(self)@.wf(),
    {
        self.try_done(name, r, "Cannot create folder: ", now);
    }

    pub fn file_created(&mut self, name: &[char], r: &Result<(), String>, now: u64)
        requires
            old(self)@.wf(),
        ensures
            final(self)@ == old(self)@.tried(name@, *r, "Cannot create file: "@, now),
            final(self)@.wf(),
    {
        self.try_done(name, r, "Cannot create file: ", now);
    }

    pub fn renamed(&mut self, name: &[char], r: &Result<(), String>, now: u64)
        requires
            old(self)@.wf(),
        ensures
            final(self)@ == old(self)@.tried(name@, *r, "Cannot rename: "@, now),
            final(self)@.wf(),
    {
        self.try_done(name, r, "Cannot rename: ", now);
    }

    pub fn duplicated(&mut self, name: &[char], r: &Result<(), String>, now: u64)
        requires
            old(self)@.wf(),
        ensures
            final(self)@ == old(self)@.tried(name@, *r, "Duplicate failed: "@, now),
            final(self)@.wf(),
    {
        self.try_done(name, r, "Duplicate failed: ", now);
    }

    pub fn deleted(&mut self, path: &[char], r: &Result<(), String>, now: u64)
        requires
            old(self)@.wf(),
        ensures
            final(self)@ == match *r {
                Ok(_) => old(self)@.flashed(quoted("Deleted "@, base_name(path@), ""@), false, now),
                Err(e) => old(self)@.flashed("Cannot delete: "@ + e@, true, now),
            },
            final(self)@.wf(),
    {
        match r {
            Ok(()) => {
                let mut m: Vec<char> = to_chars("Deleted ");
                push_str(&mut m, "\u{201c}");
                push_all(&mut m, &file_name_chars(path));
                push_str(&mut m, "\u{201d}");
                push_str(&mut m, "");
                self.flash(m, false, now);
            },
            Err(e) => self.fail("Cannot delete: ", e.as_str(), now),
        }
    }

    /// What is to be pasted here; `present` says whether it is still there.
    pub fn paste(&mut self, src: &[char], cut: bool, present: bool, now: u64) -> (r: Pasting)
        requires
            old(self)@.wf(),
        ensures
            r == pasting(src@, cut, present, old(self)@.path),
            final(self)@ == if present {
                old(self)@
            } else {
                old(self)@.flashed("The copied item no longer exists"@, true, now)
            },
            final(self)@.wf(),
    {
        if !present {
            self.flash(to_chars("The copied item no longer exists"), true, now);
            return Pasting::Gone;
        }
        if cut {
            if same(&parent_chars(src), &self.path) { Pasting::Nothing } else { Pasting::Move }
        } else {
            Pasting::Copy
        }
    }

    pub fn pasted(&mut self, target: &[char], cut: bool, r: &Result<(), String>, now: u64)
        requires
            old(self)@.wf(),
        ensures
            final(self)@ == old(self)@.tried(
                target@,
                *r,
                if cut { "Move failed: "@ } else { "Paste failed: "@ },
                now,
            ),
            final(self)@.wf(),
    {
        self.try_done(target, r, if cut { "Move failed: " } else { "Paste failed: " }, now);
    }

    /// Ask for the name of a new folder.
    pub fn ask_folder(&self, name: &str, ctx: &mut Ctx)
        ensures
            final(ctx)@ == old(ctx)@.with(
                CommandState::OpenChild(
                    input_dialog(
                        "New Folder"@,
                        "Name for the new folder:"@,
                        name@,
                        "Create"@,
                        TAG_NEW_FOLDER,
                        old(ctx)@.window,
                    ),
                ),
            ),
    {
        let d: Dialog = Dialog::input(
            "New Folder",
            "Name for the new folder:",
            name,
            "Create",
            TAG_NEW_FOLDER,
            ctx.window,
        );
        ctx.open_child(NewWindow::Dialog(d));
    }

    /// Ask for the name of a new file.
    pub fn ask_file(&self, name: &str, ctx: &mut Ctx)
        ensures
            final(ctx)@ == old(ctx)@.with(
                CommandState::OpenChild(
                    input_dialog(
                        "New File"@,
                        "Name for the new file:"@,
                        name@,
                        "Create"@,
                        TAG_NEW_FILE,
                        old(ctx)@.window,
                    ),
                ),
            ),
    {
        let d: Dialog = Dialog::input("New File", "Name for the new file:", name, "Create", TAG_NEW_FILE, ctx.window);
        ctx.open_child(NewWindow::Dialog(d));
    }

    /// Ask whether to delete a path.
    pub fn ask_delete(&mut self, path: Vec<char>, is_dir: bool, ctx: &mut Ctx)
        requires
            old(self)@.wf(),
        ensures
            final(self)@ == (ExplorerState { pending: Some(path@), ..old(self)@ }),
            final(ctx)@ == old(ctx)@.with(
                CommandState::OpenChild(
                    NewWindowState::Dialog(
                        DialogState {
                            title: "Delete"@,
                            message: quoted(
                                if is_dir { "Delete the folder and everything in it "@ } else { "Delete the file "@ },
                                base_name(path@),
                                "?"@,
                            ),
                            input: None,
                            ok_label: "Delete"@,
                            cancel_label: Some("Cancel"@),
                            danger: true,
                            second_is_alt: false,
                            tag: TAG_DELETE,
                            reply_to: old(ctx)@.window,
                            hover: None,
                            size: (400i32, 140i32),
                            answered: false,
                        },
                    ),
                ),
            ),
            final(self)@.wf(),
    {
        let name: Vec<char> = file_name_chars(&path);
        let mut m: Vec<char> = to_chars(
            if is_dir { "Delete the folder and everything in it " } else { "Delete the file " },
        );
        push_str(&mut m, "\u{201c}");
        push_all(&mut m, &name);
        push_str(&mut m, "\u{201d}");
        push_str(&mut m, "?");
        let msg: String = to_text(&m);
        self.pending = Some(path);
        let d: Dialog = Dialog::confirm("Delete", msg.as_str(), "Delete", true, TAG_DELETE, ctx.window);
        ctx.open_child(NewWindow::Dialog(d));
    }

    pub fn title(&self) -> (r: String)
        ensures
            r@ == if self@.path == "/"@ { "MayOS Disk"@ } else { base_name(self@.path) },
    {
        if is_str(&self.path, "/") {
            to_text(&to_chars("MayOS Disk"))
        } else {
            to_text(&file_name_chars(&self.path))
        }
    }

    /// The window is about to be drawn at this size.
    pub fn render(&mut self, w: i32, h: i32, focused: bool)
        requires
            old(self)@.wf(),
            w >= 0,
            h >= 0,
        ensures
            final(self)@ == (ExplorerState {
                pane: (Pane { w, h, ..old(self)@.pane }).clamped(),
                focused,
                ..old(self)@
            }),
            final(self)@.wf(),
    {
        self.pane.w = w;
        self.pane.h = h;
        self.focused = focused;
        self.pane.clamp_scroll();
    }

    /// Let the message go when its time is over; whether the folder has to
    /// be listed again.
    pub fn tick(&mut self, generation: u64, now: u64, ctx: &mut Ctx) -> (r: Option<Request>)
        requires
            old(self)@.wf(),
        ensures
            ({
                let s = old(self)@;
                let stale = generation != s.generation;
                let over = s.message matches Some((_, _, until)) && now > until;
                &&& asked(r) == if stale { Some(RequestState::Refresh) } else { None }
                &&& final(self)@ == if over { ExplorerState { message: None, ..s } } else { s }
                &&& final(ctx)@ == if stale || over { old(ctx)@.redrawn() } else { old(ctx)@ }
            }),
            final(self)@.wf(),
    {
        let over: bool = match &self.message {
            Some(m) => now > m.2,
            None => false,
        };
        if over {
            self.message = None;
            ctx.redraw();
        }
        if generation != self.generation {
            ctx.redraw();
            return Some(Request::Refresh);
        }
        None
    }

    /// A dialog was answered.
    pub fn test_dialog_result(&mut self, tag: u32, value: Option<String>, now: u64) -> (r: Option<Request>)
        requires
            old(self)@.wf(),
        ensures
            (final(self)@, asked(r)) == old(self)@.answered(tag, crate::gui::app::opt_text(value), now),
            final(self)@.wf(),
    {
        self.dialog_result(tag, &value, now)
    }

    /// The folder was listed again: select an entry by its name.
    pub fn test_select(&mut self, name: &str)
        requires
            old(self)@.wf(),
        ensures
            final(self)@ == (ExplorerState { selected: position_of(old(self)@.entries, name@, 0), ..old(self)@ }),
            final(self)@.wf(),
    {
        self.select_child(&to_chars(name));
    }

    /// Rename the selected entry.
    pub fn test_rename(&mut self, new_name: &str, now: u64) -> (r: Option<Request>)
        requires
            old(self)@.wf(),
        ensures
            (final(self)@, asked(r)) == (ExplorerState {
                pending: old(self)@.selected_path(),
                ..old(self)@
            }).answered(TAG_RENAME, Some(new_name@), now),
            final(self)@.wf(),
    {
        self.pending = self.selected_path();
        self.dialog_result(TAG_RENAME, &Some(to_text(&to_chars(new_name))), now)
    }

    /// Delete the selected entry.
    pub fn test_delete(&mut self, now: u64) -> (r: Option<Request>)
        requires
            old(self)@.wf(),
        ensures
            (final(self)@, asked(r)) == (ExplorerState {
                pending: old(self)@.selected_path(),
                ..old(self)@
            }).answered(TAG_DELETE, Some("ok"@), now),
            final(self)@.wf(),
    {
        self.pending = self.selected_path();
        self.dialog_result(TAG_DELETE, &Some(to_text(&to_chars("ok"))), now)
    }
}

} // verus!
