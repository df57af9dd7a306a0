//! Copying a file or a whole directory tree, also between disks.
//!
//! The copy runs step by step: [`CopyJob::ask`] says what to do next, and
//! [`CopyJob::answer`] takes what came of it.

use super::entry::{entries_of, DirEntry, EntryState, FsError};
use super::path::{
    canonical, join_chars, joined_path, lemma_normalize_absolute, lemma_parts_of_path_of, lemma_path_below, normalize_chars,
    normalized, path_of,
};
use super::vfs::{is_mount_point, root, Vfs, VfsState};
use crate::text::{copy, same, starts, starts_with, to_chars, to_text, trim_end_char, trimmed_end_char};
use vstd::prelude::*;

verus! {

/// What is to be done next.
pub enum Ask {
    /// Look up this path.
    Stat(String),
    /// Find out whether there is something at this path.
    IsPresent(String),
    CreateDir(String),
    ReadDir(String),
    /// Read one file and write it to another path.
    CopyFile { from: String, to: String },
    Finished(Result<(), FsError>),
}

/// What came of it.
pub enum Reply {
    /// Whether the path is a folder.
    Found(Result<bool, FsError>),
    Present(bool),
    Done(Result<(), FsError>),
    Listing(Result<Vec<DirEntry>, FsError>),
}

pub enum AskState {
    Stat(Seq<char>),
    IsPresent(Seq<char>),
    CreateDir(Seq<char>),
    ReadDir(Seq<char>),
    CopyFile { from: Seq<char>, to: Seq<char> },
    Finished(Result<(), FsError>),
}

impl View for Ask {
    type V = AskState;

    open spec fn view(&self) -> AskState {
        match *self {
            Ask::Stat(p) => AskState::Stat(p@),
            Ask::IsPresent(p) => AskState::IsPresent(p@),
            Ask::CreateDir(p) => AskState::CreateDir(p@),
            Ask::ReadDir(p) => AskState::ReadDir(p@),
            Ask::CopyFile { from, to } => AskState::CopyFile { from: from@, to: to@ },
            Ask::Finished(r) => AskState::Finished(r),
        }
    }
}

#[derive(Clone, Copy, Debug, PartialEq, Eq, Structural)]
pub enum Stage {
    Look,
    Check { is_dir: bool },
    Make,
    List,
    Transfer,
    Succeeded,
    Failed(FsError),
}

/// A copy under way. What is still to be copied is on the stack, next on
/// top.
pub struct CopyJob {
    pub stack: Vec<(Vec<char>, Vec<char>)>,
    pub stage: Stage,
}

#[verifier::ext_equal]
pub struct JobState {
    pub stack: Seq<(Seq<char>, Seq<char>)>,
    pub stage: Stage,
}

pub open spec fn pairs_of(v: Seq<(Vec<char>, Vec<char>)>) -> Seq<(Seq<char>, Seq<char>)> {
    Seq::new(v.len(), |i: int| (v[i].0@, v[i].1@))
}

impl View for CopyJob {
    type V = JobState;

    open spec fn view(&self) -> JobState {
        JobState { stack: pairs_of(self.stack@), stage: self.stage }
    }
}

/// Whether `to` is `from` or lies inside it.
pub open spec fn into_itself(from: Seq<char>, to: Seq<char>) -> bool {
    let f = normalized(root(), from);
    let t = normalized(root(), to);
    t == f || starts(t, trim_end_char(f, '/') + seq!['/'])
}

/// What is to be copied for the entries of a folder. Mount points stay out.
pub open spec fn children<V>(
    t: VfsState<V>,
    from: Seq<char>,
    to: Seq<char>,
    s: Seq<EntryState>,
) -> Seq<(Seq<char>, Seq<char>)>
    decreases s.len(),
{
    if s.len() == 0 {
        Seq::empty()
    } else {
        let rest = children(t, from, to, s.skip(1));
        let c = joined_path(from, s[0].name);
        if t.is_point(c) { rest } else { seq![(c, joined_path(to, s[0].name))] + rest }
    }
}

impl JobState {
    pub open spec fn wf(self) -> bool {
        self.stack.len() > 0 || self.stage is Succeeded || self.stage is Failed
    }

    pub open spec fn asked(self) -> AskState {
        let top = self.stack.last();
        match self.stage {
            Stage::Look => AskState::Stat(top.0),
            Stage::Check { .. } => AskState::IsPresent(top.1),
            Stage::Make => AskState::CreateDir(top.1),
            Stage::List => AskState::ReadDir(top.0),
            Stage::Transfer => AskState::CopyFile { from: top.0, to: top.1 },
            Stage::Succeeded => AskState::Finished(Ok(())),
            Stage::Failed(e) => AskState::Finished(Err(e)),
        }
    }

    pub open spec fn at(self, stage: Stage) -> JobState {
        JobState { stage, ..self }
    }

    /// With `more` in place of what is on top, first of them next.
    pub open spec fn expanded(self, more: Seq<(Seq<char>, Seq<char>)>) -> JobState {
        let stack = self.stack.drop_last() + more.reverse();
        JobState { stack, stage: if stack.len() == 0 { Stage::Succeeded } else { Stage::Look } }
    }

    /// After a reply. A reply to another question changes nothing.
    pub open spec fn after<V>(self, t: VfsState<V>, r: Reply) -> JobState {
        let top = self.stack.last();
        match (self.stage, r) {
            (Stage::Look, Reply::Found(Ok(is_dir))) => self.at(Stage::Check { is_dir }),
            (Stage::Look, Reply::Found(Err(e))) => self.at(Stage::Failed(e)),
            (Stage::Check { is_dir }, Reply::Present(present)) => self.at(
                if present {
                    Stage::Failed(FsError::AlreadyExists)
                } else if !is_dir {
                    Stage::Transfer
                } else if into_itself(top.0, top.1) {
                    Stage::Failed(FsError::InvalidPath)
                } else {
                    Stage::Make
                },
            ),
            (Stage::Make, Reply::Done(Ok(_))) => self.at(Stage::List),
            (Stage::Make, Reply::Done(Err(e))) => self.at(Stage::Failed(e)),
            (Stage::List, Reply::Listing(Ok(l))) => self.expanded(children(t, top.0, top.1, entries_of(l@))),
            (Stage::List, Reply::Listing(Err(e))) => self.at(Stage::Failed(e)),
            (Stage::Transfer, Reply::Done(Ok(_))) => self.expanded(Seq::empty()),
            (Stage::Transfer, Reply::Done(Err(e))) => self.at(Stage::Failed(e)),
            _ => self,
        }
    }
}

/// A file is written, or a folder made, only right after nothing was found
/// in its place; and no folder is made inside the one it is a copy of.
pub proof fn lemma_nothing_overwritten<V>(s: JobState, t: VfsState<V>, r: Reply)
    requires
        s.wf(),
        s.after(t, r).stage is Make || s.after(t, r).stage is Transfer,
        s.stage != s.after(t, r).stage,
    ensures
        r == Reply::Present(false),
        s.asked() == AskState::IsPresent(s.after(t, r).stack.last().1),
        s.after(t, r).stage is Make ==> !into_itself(s.stack.last().0, s.stack.last().1),
{
}

/// Once the copy has ended, replies change nothing.
pub proof fn lemma_ended<V>(s: JobState, t: VfsState<V>, r: Reply)
    requires
        s.stage is Succeeded || s.stage is Failed,
    ensures
        s.after(t, r) == s,
{
}

fn is_into_itself(from: &[char], to: &[char]) -> (r: bool)
    ensures
        r == into_itself(from@, to@),
{
    let slash: Vec<char> = vec!['/'];
    proof {
        assert(slash@ =~= root());
    }
    let f: Vec<char> = normalize_chars(&slash, from);
    let t: Vec<char> = normalize_chars(&slash, to);
    let mut under: Vec<char> = trimmed_end_char(&f, '/');
    under.push('/');
    proof {
        assert(under@ =~= trim_end_char(f@, '/') + seq!['/']);
    }
    same(&t, &f) || starts_with(&t, &under)
}

/// Copy a file or a whole directory tree (also between disks).
pub fn copy_job(from: &str, to: &str) -> (r: CopyJob)
    ensures
        r@ == (JobState { stack: seq![(from@, to@)], stage: Stage::Look }),
        r@.wf(),
{
    let mut stack: Vec<(Vec<char>, Vec<char>)> = Vec::new();
    stack.push((to_chars(from), to_chars(to)));
    let r: CopyJob = CopyJob { stack, stage: Stage::Look };
    proof {
        assert(r@.stack =~= seq![(from@, to@)]);
    }
    r
}

impl CopyJob {
    /// What to do next.
    pub fn ask(&self) -> (r: Ask)
        requires
            self@.wf(),
        ensures
            r@ == self@.asked(),
    {
        match self.stage {
            Stage::Succeeded => return Ask::Finished(Ok(())),
            Stage::Failed(e) => return Ask::Finished(Err(e)),
            _ => {},
        }
        let n: usize = self.stack.len();
        let from: String = to_text(&self.stack[n - 1].0);
        let to: String = to_text(&self.stack[n - 1].1);
        proof {
            assert(self@.stack.last() == (from@, to@));
        }
        match self.stage {
            Stage::Look => Ask::Stat(from),
            Stage::Check { .. } => Ask::IsPresent(to),
            Stage::Make => Ask::CreateDir(to),
            Stage::List => Ask::ReadDir(from),
            _ => Ask::CopyFile { from, to },
        }
    }

    fn set_stage(&mut self, stage: Stage)
        ensures
            final(self)@ == old(self)@.at(stage),
    {
        self.stage = stage;
        proof {
            assert(self@.stack =~= old(self)@.stack);
        }
    }

    fn expand<V>(&mut self, t: &Vfs<V>, from: &[char], to: &[char], l: &[DirEntry])
        requires
            old(self)@.stack.len() > 0,
        ensures
            final(self)@ == old(self)@.expanded(children(t@, from@, to@, entries_of(l@))),
    {
        let ghost s0 = self@.stack;
        let ghost all = entries_of(l@);
        self.stack.pop();
        let mut i: usize = l.len();
        proof {
            assert(all.skip(i as int) =~= Seq::empty());
            assert(pairs_of(self.stack@) =~= s0.drop_last() + children(t@, from@, to@, all.skip(i as int)).reverse());
        }
        while i > 0
            invariant
                i <= l@.len(),
                all == entries_of(l@),
                pairs_of(self.stack@) == s0.drop_last() + children(t@, from@, to@, all.skip(i as int)).reverse(),
            decreases i,
        {
            i -= 1;
            let name: Vec<char> = to_chars(l[i].name.as_str());
            let c: Vec<char> = join_chars(from, &name);
            let shown: String = to_text(&c);
            let ghost before = pairs_of(self.stack@);
            let ghost rest = children(t@, from@, to@, all.skip(i + 1));
            proof {
                assert(all.skip(i as int).skip(1) =~= all.skip(i + 1));
                assert(all.skip(i as int)[0].name == name@);
            }
            if !is_mount_point(t, shown.as_str()) {
                let d: Vec<char> = join_chars(to, &name);
                let ghost x = (c@, d@);
                self.stack.push((c, d));
                proof {
                    assert(pairs_of(self.stack@) =~= before.push(x));
                    assert((seq![x] + rest).reverse() =~= rest.reverse().push(x));
                    assert(before.push(x) =~= s0.drop_last() + rest.reverse().push(x));
                }
            }
        }
        proof {
            assert(all.skip(0) =~= all);
        }
        self.stage = if self.stack.len() == 0 { Stage::Succeeded } else { Stage::Look };
    }

    /// Take a reply to what was asked.
    pub fn answer<V>(&mut self, t: &Vfs<V>, r: Reply)
        requires
            old(self)@.wf(),
        ensures
            final(self)@ == old(self)@.after(t@, r),
            final(self)@.wf(),
    {
        let n: usize = self.stack.len();
        match (self.stage, r) {
            (Stage::Look, Reply::Found(Ok(is_dir))) => self.set_stage(Stage::Check { is_dir }),
            (Stage::Look, Reply::Found(Err(e))) => self.set_stage(Stage::Failed(e)),
            (Stage::Check { is_dir }, Reply::Present(present)) => {
                proof {
                    assert(self@.stack.last() == (self.stack@[n - 1].0@, self.stack@[n - 1].1@));
                }
                let stage: Stage = if present {
                    Stage::Failed(FsError::AlreadyExists)
                } else if !is_dir {
                    Stage::Transfer
                } else if is_into_itself(&self.stack[n - 1].0, &self.stack[n - 1].1) {
                    Stage::Failed(FsError::InvalidPath)
                } else {
                    Stage::Make
                };
                self.set_stage(stage)
            },
            (Stage::Make, Reply::Done(Ok(_))) => self.set_stage(Stage::List),
            (Stage::Make, Reply::Done(Err(e))) => self.set_stage(Stage::Failed(e)),
            (Stage::List, Reply::Listing(Ok(l))) => {
                let from: Vec<char> = copy(&self.stack[n - 1].0);
                let to: Vec<char> = copy(&self.stack[n - 1].1);
                proof {
                    assert(self@.stack.last() == (from@, to@));
                }
                self.expand(t, &from, &to, &l);
            },
            (Stage::List, Reply::Listing(Err(e))) => self.set_stage(Stage::Failed(e)),
            (Stage::Transfer, Reply::Done(Ok(_))) => {
                let none: Vec<DirEntry> = Vec::new();
                proof {
                    assert(entries_of(none@) =~= Seq::empty());
                }
                let e: Vec<char> = Vec::new();
                self.expand(t, &e, &e, &none);
            },
            (Stage::Transfer, Reply::Done(Err(e))) => self.set_stage(Stage::Failed(e)),
            _ => {},
        }
    }
}

// ---------------------------------------------------------------------
// A whole copy
// ---------------------------------------------------------------------

/// What there can be at a path: a file with its bytes, or a folder with the
/// names that it lists.
pub enum Thing {
    File(Seq<u8>),
    Folder(Seq<Seq<char>>),
}

/// What there is at which path.
pub type Files = Map<Seq<char>, Thing>;

/// The names of a listing.
pub open spec fn names_of(l: Seq<DirEntry>) -> Seq<Seq<char>> {
    Seq::new(l.len(), |i: int| l[i].name@)
}

/// The path to which names lead from a folder, one after the other.
pub open spec fn below(dir: Seq<char>, names: Seq<Seq<char>>) -> Seq<char>
    decreases names.len(),
{
    if names.len() == 0 { dir } else { joined_path(below(dir, names.drop_last()), names.last()) }
}

/// Whether names lead to a part of what is at `from`: every name is listed in
/// the folder before it, and none is that of a mount point.
pub open spec fn leads<V>(t: VfsState<V>, src: Files, from: Seq<char>, names: Seq<Seq<char>>) -> bool
    decreases names.len(),
{
    names.len() == 0 || {
        let dir = below(from, names.drop_last());
        &&& leads(t, src, from, names.drop_last())
        &&& src.dom().contains(dir)
        &&& src[dir] matches Thing::Folder(l) && l.contains(names.last())
        &&& !t.is_point(joined_path(dir, names.last()))
    }
}

/// Whether one thing is a copy of another: a file with the same bytes, or a
/// folder.
pub open spec fn alike(a: Thing, b: Thing) -> bool {
    match a {
        Thing::File(_) => b == a,
        Thing::Folder(_) => b is Folder,
    }
}

/// Whether the part of `from` to which names lead is at the same names below
/// `to`.
pub open spec fn copied(src: Files, dst: Files, from: Seq<char>, to: Seq<char>, names: Seq<Seq<char>>) -> bool {
    &&& src.dom().contains(below(from, names))
    &&& dst.dom().contains(below(to, names))
    &&& alike(src[below(from, names)], dst[below(to, names)])
}

/// Whether a question was done as it says: `src` is what is read, `dst` what
/// was written so far, and `then` what is written after it. What fails writes
/// nothing.
pub open spec fn done(src: Files, dst: Files, a: AskState, r: Reply, then: Files) -> bool {
    match (a, r) {
        (AskState::Stat(p), Reply::Found(Ok(is_dir))) => src.dom().contains(p) && is_dir == (src[p] is Folder) && then
            == dst,
        (AskState::Stat(_), Reply::Found(Err(_))) => then == dst,
        (AskState::IsPresent(p), Reply::Present(b)) => b == dst.dom().contains(p) && then == dst,
        (AskState::CreateDir(p), Reply::Done(Ok(_))) => then == dst.insert(p, Thing::Folder(Seq::empty())),
        (AskState::CreateDir(_), Reply::Done(Err(_))) => then == dst,
        (AskState::ReadDir(p), Reply::Listing(Ok(l))) => src.dom().contains(p) && src[p] == Thing::Folder(names_of(l@))
            && then == dst,
        (AskState::ReadDir(_), Reply::Listing(Err(_))) => then == dst,
        (AskState::CopyFile { from, to }, Reply::Done(Ok(_))) => src.dom().contains(from) && src[from] is File && then
            == dst.insert(to, src[from]),
        (AskState::CopyFile { .. }, Reply::Done(Err(_))) => then == dst,
        _ => false,
    }
}

/// A copy and what it has written.
pub struct Moment {
    pub job: JobState,
    pub dst: Files,
}

/// A copy that goes from moment to moment by doing what it asks for.
pub open spec fn is_run<V>(t: VfsState<V>, src: Files, ms: Seq<Moment>, rs: Seq<Reply>) -> bool {
    &&& ms.len() == rs.len() + 1
    &&& forall|i: int|
        0 <= i < rs.len() ==> done(src, ms[i].dst, ms[i].job.asked(), #[trigger] rs[i], ms[i + 1].dst) && ms[i + 1].job
            == ms[i].job.after(t, rs[i])
}

/// A name of a part of `from` that is still to be copied.
spec fn pending(ns: Seq<Seq<Seq<char>>>, names: Seq<Seq<char>>) -> bool {
    exists|k: int| 0 <= k < ns.len() && (#[trigger] ns[k]).is_prefix_of(names)
}

/// A part of `from` that was copied to where nothing was.
spec fn arrived(
    src: Files,
    before: Files,
    dst: Files,
    from: Seq<char>,
    to: Seq<char>,
    names: Seq<Seq<char>>,
) -> bool {
    copied(src, dst, from, to, names) && !before.dom().contains(below(to, names))
}

spec fn brought<V>(
    t: VfsState<V>,
    src: Files,
    from: Seq<char>,
    to: Seq<char>,
    dst: Files,
    p: Seq<char>,
) -> bool {
    exists|names: Seq<Seq<char>>| #[trigger]
        leads(t, src, from, names) && p == below(to, names) && copied(src, dst, from, to, names)
}

/// What holds at every moment of a copy; `ns` are the names of what is on the
/// stack.
spec fn sound<V>(
    t: VfsState<V>,
    src: Files,
    from: Seq<char>,
    to: Seq<char>,
    before: Files,
    m: Moment,
    ns: Seq<Seq<Seq<char>>>,
) -> bool {
    let top = m.job.stack.last();
    &&& m.job.wf()
    &&& ns.len() == m.job.stack.len()
    &&& m.job.stage is Succeeded ==> ns.len() == 0
    &&& forall|k: int|
        0 <= k < ns.len() ==> leads(t, src, from, #[trigger] ns[k]) && m.job.stack[k] == (
            below(from, ns[k]),
            below(to, ns[k]),
        )
    &&& forall|names: Seq<Seq<char>>| #[trigger]
        leads(t, src, from, names) ==> arrived(src, before, m.dst, from, to, names) || pending(ns, names)
    &&& forall|p: Seq<char>| #[trigger]
        before.dom().contains(p) ==> m.dst.dom().contains(p) && m.dst[p] == before[p]
    &&& forall|p: Seq<char>| #[trigger]
        m.dst.dom().contains(p) ==> before.dom().contains(p) || brought(t, src, from, to, m.dst, p)
    &&& match m.job.stage {
        Stage::Check { is_dir } => src.dom().contains(top.0) && is_dir == (src[top.0] is Folder),
        Stage::Make => src.dom().contains(top.0) && src[top.0] is Folder && !m.dst.dom().contains(top.1),
        Stage::Transfer => src.dom().contains(top.0) && src[top.0] is File && !m.dst.dom().contains(top.1),
        Stage::List => arrived(src, before, m.dst, from, to, ns.last()),
        _ => true,
    }
}

/// The names of the entries that are copied.
spec fn kids<V>(t: VfsState<V>, from: Seq<char>, s: Seq<EntryState>) -> Seq<Seq<char>>
    decreases s.len(),
{
    if s.len() == 0 {
        Seq::empty()
    } else {
        let rest = kids(t, from, s.skip(1));
        if t.is_point(joined_path(from, s[0].name)) { rest } else { seq![s[0].name] + rest }
    }
}

proof fn lemma_kids<V>(t: VfsState<V>, from: Seq<char>, to: Seq<char>, s: Seq<EntryState>)
    ensures
        children(t, from, to, s).len() == kids(t, from, s).len(),
        forall|i: int|
            0 <= i < kids(t, from, s).len() ==> children(t, from, to, s)[i] == (
                joined_path(from, #[trigger] kids(t, from, s)[i]),
                joined_path(to, kids(t, from, s)[i]),
            ),
        forall|i: int|
            0 <= i < kids(t, from, s).len() ==> !t.is_point(joined_path(from, #[trigger] kids(t, from, s)[i]))
                && exists|j: int| 0 <= j < s.len() && (#[trigger] s[j]).name == kids(t, from, s)[i],
        forall|j: int|
            0 <= j < s.len() && !t.is_point(joined_path(from, (#[trigger] s[j]).name)) ==> kids(t, from, s).contains(
                s[j].name,
            ),
    decreases s.len(),
{
    if s.len() > 0 {
        let r = s.skip(1);
        lemma_kids(t, from, to, r);
        let point = t.is_point(joined_path(from, s[0].name));
        let ks = kids(t, from, s);
        let ks1 = kids(t, from, r);
        assert forall|i: int| 0 <= i < ks.len() implies children(t, from, to, s)[i] == (
            joined_path(from, #[trigger] ks[i]),
            joined_path(to, ks[i]),
        ) && !t.is_point(joined_path(from, ks[i])) && exists|j: int| 0 <= j < s.len() && (#[trigger] s[j]).name == ks[i] by {
            let d: int = if point { 0 } else { 1 };
            if i < d {
                assert(s[0].name == ks[i]);
            } else {
                assert(ks[i] == ks1[i - d]);
                let j = choose|j: int| 0 <= j < r.len() && (#[trigger] r[j]).name == ks1[i - d];
                assert(s[j + 1] == r[j]);
            }
        }
        assert forall|j: int| 0 <= j < s.len() && !t.is_point(joined_path(from, (#[trigger] s[j]).name)) implies ks.contains(
            s[j].name,
        ) by {
            if j == 0 {
                assert(ks[0] == s[0].name);
            } else {
                assert(r[j - 1] == s[j]);
                let k = choose|k: int| 0 <= k < ks1.len() && ks1[k] == s[j].name;
                assert(ks[k + if point { 0int } else { 1 }] == s[j].name);
            }
        }
    }
}

proof fn lemma_leads_prefix<V>(t: VfsState<V>, src: Files, from: Seq<char>, names: Seq<Seq<char>>, n: int)
    requires
        leads(t, src, from, names),
        0 <= n <= names.len(),
    ensures
        leads(t, src, from, names.take(n)),
    decreases names.len(),
{
    if n == names.len() {
        assert(names.take(n) =~= names);
    } else {
        lemma_leads_prefix(t, src, from, names.drop_last(), n);
        assert(names.drop_last().take(n) =~= names.take(n));
    }
}

/// What was written stays written.
proof fn lemma_written_more<V>(
    t: VfsState<V>,
    src: Files,
    from: Seq<char>,
    to: Seq<char>,
    before: Files,
    m: Moment,
    ns: Seq<Seq<Seq<char>>>,
    thing: Thing,
)
    requires
        sound(t, src, from, to, before, m, ns),
        ns.len() > 0,
        src.dom().contains(m.job.stack.last().0),
        !m.dst.dom().contains(m.job.stack.last().1),
        alike(src[m.job.stack.last().0], thing),
    ensures
        ({
            let dst = m.dst.insert(m.job.stack.last().1, thing);
            &&& arrived(src, before, dst, from, to, ns.last())
            &&& forall|names: Seq<Seq<char>>| #[trigger]
                leads(t, src, from, names) ==> arrived(src, before, dst, from, to, names) || pending(ns, names)
            &&& forall|p: Seq<char>| #[trigger]
                before.dom().contains(p) ==> dst.dom().contains(p) && dst[p] == before[p]
            &&& forall|p: Seq<char>| #[trigger]
                dst.dom().contains(p) ==> before.dom().contains(p) || brought(t, src, from, to, dst, p)
        }),
{
    let top = m.job.stack.last();
    let dst = m.dst.insert(top.1, thing);
    assert(m.job.stack[ns.len() - 1] == (below(from, ns[ns.len() - 1]), below(to, ns[ns.len() - 1])));
    assert(copied(src, dst, from, to, ns.last()));
    assert forall|p: Seq<char>| #[trigger] dst.dom().contains(p) implies before.dom().contains(p) || brought(
        t,
        src,
        from,
        to,
        dst,
        p,
    ) by {
        if p == top.1 {
            assert(leads(t, src, from, ns.last()));
        } else {
            assert(m.dst.dom().contains(p));
            if !before.dom().contains(p) {
                let names = choose|names: Seq<Seq<char>>| #[trigger]
                    leads(t, src, from, names) && p == below(to, names) && copied(src, m.dst, from, to, names);
                assert(copied(src, dst, from, to, names));
            }
        }
    }
}

/// With more of the stack's top to do in its place, or nothing.
proof fn lemma_replaced<V>(
    t: VfsState<V>,
    src: Files,
    from: Seq<char>,
    to: Seq<char>,
    before: Files,
    m: Moment,
    ns: Seq<Seq<Seq<char>>>,
    dst: Files,
    more: Seq<Seq<char>>,
) -> (r: Seq<Seq<Seq<char>>>)
    requires
        sound(t, src, from, to, before, m, ns),
        ns.len() > 0,
        arrived(src, before, dst, from, to, ns.last()),
        forall|names: Seq<Seq<char>>| #[trigger]
            leads(t, src, from, names) ==> arrived(src, before, dst, from, to, names) || pending(ns, names),
        forall|p: Seq<char>| #[trigger]
            before.dom().contains(p) ==> dst.dom().contains(p) && dst[p] == before[p],
        forall|p: Seq<char>| #[trigger]
            dst.dom().contains(p) ==> before.dom().contains(p) || brought(t, src, from, to, dst, p),
        forall|i: int| 0 <= i < more.len() ==> leads(t, src, from, ns.last().push(#[trigger] more[i])),
        forall|name: Seq<char>| #[trigger] leads(t, src, from, ns.last().push(name)) ==> more.contains(name),
    ensures
        ({
            let pairs = Seq::new(
                more.len(),
                |i: int| (joined_path(m.job.stack.last().0, more[i]), joined_path(m.job.stack.last().1, more[i])),
            );
            sound(t, src, from, to, before, Moment { job: m.job.expanded(pairs), dst }, r)
        }),
{
    let top = m.job.stack.last();
    let last = ns.last();
    assert(m.job.stack[ns.len() - 1] == (below(from, ns[ns.len() - 1]), below(to, ns[ns.len() - 1])));
    let pairs = Seq::new(more.len(), |i: int| (joined_path(top.0, more[i]), joined_path(top.1, more[i])));
    let deeper = Seq::new(more.len(), |i: int| last.push(more[i]));
    let job = m.job.expanded(pairs);
    let r = ns.drop_last() + deeper.reverse();
    let n = (ns.len() - 1) as int;
    assert(job.stack =~= m.job.stack.drop_last() + pairs.reverse());
    assert forall|k: int| 0 <= k < r.len() implies leads(t, src, from, #[trigger] r[k]) && job.stack[k] == (
        below(from, r[k]),
        below(to, r[k]),
    ) by {
        if k < n {
            assert(r[k] == ns[k]);
            assert(job.stack[k] == m.job.stack[k]);
        } else {
            let i = more.len() - 1 - (k - n);
            assert(r[k] == last.push(more[i]));
            assert(job.stack[k] == pairs[i]);
            assert(last.push(more[i]).drop_last() =~= last);
        }
    }
    assert forall|names: Seq<Seq<char>>| #[trigger] leads(t, src, from, names) implies arrived(src, before, dst, from, to, names)
        || pending(r, names) by {
        if !arrived(src, before, dst, from, to, names) {
            let k = choose|k: int| 0 <= k < ns.len() && (#[trigger] ns[k]).is_prefix_of(names);
            if k < n {
                assert(r[k] == ns[k]);
            } else {
                assert(ns[k] == last);
                if names.len() == last.len() {
                    assert(names =~= last);
                } else {
                    let c = names[last.len() as int];
                    lemma_leads_prefix(t, src, from, names, last.len() as int + 1);
                    assert(names.take(last.len() as int + 1) =~= last.push(c));
                    let i = choose|i: int| 0 <= i < more.len() && more[i] == c;
                    let j = n + (more.len() - 1 - i);
                    assert(r[j] == last.push(c));
                    assert(r[j].is_prefix_of(names));
                }
            }
        }
    }
    r
}

proof fn lemma_step<V>(
    t: VfsState<V>,
    src: Files,
    from: Seq<char>,
    to: Seq<char>,
    before: Files,
    m: Moment,
    ns: Seq<Seq<Seq<char>>>,
    r: Reply,
    n: Moment,
) -> (more: Seq<Seq<Seq<char>>>)
    requires
        sound(t, src, from, to, before, m, ns),
        done(src, m.dst, m.job.asked(), r, n.dst),
        n.job == m.job.after(t, r),
    ensures
        sound(t, src, from, to, before, n, more),
{
    let top = m.job.stack.last();
    match (m.job.stage, r) {
        (Stage::Make, Reply::Done(Ok(_))) => {
            lemma_written_more(t, src, from, to, before, m, ns, Thing::Folder(Seq::empty()));
            ns
        },
        (Stage::Transfer, Reply::Done(Ok(_))) => {
            lemma_written_more(t, src, from, to, before, m, ns, src[top.0]);
            let last = ns.last();
            assert(m.job.stack[ns.len() - 1] == (below(from, ns[ns.len() - 1]), below(to, ns[ns.len() - 1])));
            assert forall|name: Seq<char>| #[trigger] leads(t, src, from, last.push(name)) implies Seq::<
                Seq<char>,
            >::empty().contains(name) by {
                assert(last.push(name).drop_last() =~= last);
            }
            let out = lemma_replaced(t, src, from, to, before, m, ns, n.dst, Seq::empty());
            assert(Seq::new(
                Seq::<Seq<char>>::empty().len(),
                |i: int|
                    (
                        joined_path(top.0, Seq::<Seq<char>>::empty()[i]),
                        joined_path(top.1, Seq::<Seq<char>>::empty()[i]),
                    ),
            ) =~= Seq::<(Seq<char>, Seq<char>)>::empty());
            out
        },
        (Stage::List, Reply::Listing(Ok(l))) => {
            let s = entries_of(l@);
            let last = ns.last();
            let ks = kids(t, top.0, s);
            lemma_kids(t, top.0, top.1, s);
            assert(m.job.stack[ns.len() - 1] == (below(from, ns[ns.len() - 1]), below(to, ns[ns.len() - 1])));
            assert forall|i: int| 0 <= i < ks.len() implies leads(t, src, from, last.push(#[trigger] ks[i])) by {
                assert(last.push(ks[i]).drop_last() =~= last);
                let j = choose|j: int| 0 <= j < s.len() && (#[trigger] s[j]).name == ks[i];
                assert(names_of(l@)[j] == ks[i]);
            }
            assert forall|name: Seq<char>| #[trigger] leads(t, src, from, last.push(name)) implies ks.contains(name) by {
                assert(last.push(name).drop_last() =~= last);
                let j = choose|j: int| 0 <= j < names_of(l@).len() && names_of(l@)[j] == name;
                assert(s[j].name == name);
            }
            let out = lemma_replaced(t, src, from, to, before, m, ns, m.dst, ks);
            assert(Seq::new(ks.len(), |i: int| (joined_path(top.0, ks[i]), joined_path(top.1, ks[i]))) =~= children(
                t,
                top.0,
                top.1,
                s,
            ));
            out
        },
        _ => ns,
    }
}

proof fn lemma_run<V>(
    t: VfsState<V>,
    src: Files,
    from: Seq<char>,
    to: Seq<char>,
    ms: Seq<Moment>,
    rs: Seq<Reply>,
    n: int,
) -> (ns: Seq<Seq<Seq<char>>>)
    requires
        is_run(t, src, ms, rs),
        0 <= n < ms.len(),
        ms[0].job == (JobState { stack: seq![(from, to)], stage: Stage::Look }),
    ensures
        sound(t, src, from, to, ms[0].dst, ms[n], ns),
    decreases n,
{
    if n == 0 {
        let ns = seq![Seq::<Seq<char>>::empty()];
        assert forall|names: Seq<Seq<char>>| #[trigger] leads(t, src, from, names) implies pending(ns, names) by {
            assert(ns[0].is_prefix_of(names));
        }
        ns
    } else {
        let ns = lemma_run(t, src, from, to, ms, rs, n - 1);
        let r = rs[n - 1];
        lemma_step(t, src, from, to, ms[0].dst, ms[n - 1], ns, r, ms[n])
    }
}

/// A copy that ends well has copied the whole of what is at `from`, and
/// nothing else. Every file and folder in it, however deep, is at the same
/// names below `to`, a file with the same bytes; mount points stay out. What
/// was there before is as it was, and everything new is part of the copy.
pub proof fn lemma_copies_all<V>(
    t: VfsState<V>,
    src: Files,
    from: Seq<char>,
    to: Seq<char>,
    ms: Seq<Moment>,
    rs: Seq<Reply>,
)
    requires
        is_run(t, src, ms, rs),
        ms[0].job == (JobState { stack: seq![(from, to)], stage: Stage::Look }),
        ms.last().job.asked() == AskState::Finished(Ok(())),
    ensures
        forall|names: Seq<Seq<char>>| #[trigger]
            leads(t, src, from, names) ==> copied(src, ms.last().dst, from, to, names) && !ms[0].dst.dom().contains(
                below(to, names),
            ),
        forall|p: Seq<char>| #[trigger]
            ms[0].dst.dom().contains(p) ==> ms.last().dst.dom().contains(p) && ms.last().dst[p] == ms[0].dst[p],
        forall|p: Seq<char>| #[trigger]
            ms.last().dst.dom().contains(p) && !ms[0].dst.dom().contains(p) ==> exists|names: Seq<Seq<char>>| #[trigger]
                leads(t, src, from, names) && p == below(to, names),
{
    let ns = lemma_run(t, src, from, to, ms, rs, ms.len() - 1);
    assert forall|names: Seq<Seq<char>>| #[trigger] leads(t, src, from, names) implies copied(
        src,
        ms.last().dst,
        from,
        to,
        names,
    ) by {
        assert(!pending(ns, names));
    }
    assert forall|p: Seq<char>| #[trigger]
        ms.last().dst.dom().contains(p) && !ms[0].dst.dom().contains(p) implies exists|names: Seq<Seq<char>>| #[trigger]
        leads(t, src, from, names) && p == below(to, names) by {
        assert(brought(t, src, from, to, ms.last().dst, p));
    }
}

/// A folder would go into itself just where the names that lead to it come
/// first among those that lead to the target.
pub proof fn lemma_into_itself(from: Seq<Seq<char>>, to: Seq<Seq<char>>)
    requires
        canonical(from),
        canonical(to),
    ensures
        into_itself(path_of(from), path_of(to)) <==> from.is_prefix_of(to),
{
    reveal_strlit("/");
    lemma_parts_of_path_of(root(), from);
    lemma_parts_of_path_of(root(), to);
    let f = path_of(from);
    if from.len() == 0 {
        assert(f =~= seq!['/']);
        assert(f.drop_last() =~= Seq::empty());
        assert(trim_end_char(f.drop_last(), '/') =~= Seq::empty());
        assert(trim_end_char(f, '/') =~= Seq::empty());
        assert(path_of(to).take(1) =~= Seq::<char>::empty() + seq!['/']);
    } else {
        lemma_normalize_absolute(root(), f);
        assert(f.len() > 1 && f.last() != '/');
        assert(trim_end_char(f, '/') == f);
        lemma_path_below(from, to);
        if f == path_of(to) {
            assert(from == to);
        }
        if from.is_prefix_of(to) && from.len() == to.len() {
            assert(from =~= to);
        }
    }
}

/// A copy fails only with the error of what it asked for, because something
/// is in the way, or because a folder would go into itself; and then nothing
/// more was written.
pub proof fn lemma_fails_for_cause<V>(
    t: VfsState<V>,
    src: Files,
    dst: Files,
    s: JobState,
    r: Reply,
    then: Files,
    e: FsError,
)
    requires
        s.wf(),
        !(s.asked() is Finished),
        done(src, dst, s.asked(), r, then),
        s.after(t, r).asked() == AskState::Finished(Err(e)),
    ensures
        then == dst,
        match r {
            Reply::Found(x) => x == Err::<bool, FsError>(e),
            Reply::Done(x) => x == Err::<(), FsError>(e),
            Reply::Listing(x) => x == Err::<Vec<DirEntry>, FsError>(e),
            Reply::Present(true) => e == FsError::AlreadyExists && dst.dom().contains(s.stack.last().1),
            Reply::Present(false) => e == FsError::InvalidPath && into_itself(s.stack.last().0, s.stack.last().1),
        },
{
}

/// An answer always brings the copy on to another question.
pub proof fn lemma_moves_on<V>(t: VfsState<V>, src: Files, dst: Files, s: JobState, r: Reply, then: Files)
    requires
        s.wf(),
        !(s.asked() is Finished),
        done(src, dst, s.asked(), r, then),
    ensures
        s.after(t, r).asked() != s.asked(),
{
}

} // verus!
