//! Decisions that a command takes once it knows what it found.

use super::help::{err_line, push_err};
use super::report::{play as playing, play_line};
use crate::audio::wav::{contents, decode, fault};
use crate::fs::path::{
    base_name, canonical, file_name_chars, join_chars, joined_path, lemma_join_parent_name, lemma_split_path, path_of, proper,
};
use crate::text::{copy, is_str, push_all, push_str, split, split_on, to_chars, to_text, views};
use vstd::prelude::*;

verus! {

/// "cmd: arg: what went wrong", in the colour of errors.
pub open spec fn failure(cmd: Seq<char>, arg: Seq<char>, e: Seq<char>) -> Seq<char> {
    err_line(cmd + ": "@ + arg + ": "@ + e)
}

/// Report that a command failed on one of its arguments.
pub fn push_failure(out: &mut Vec<char>, cmd: &str, arg: &[char], e: &str)
    ensures
        final(out)@ == old(out)@ + failure(cmd@, arg@, e@),
{
    let mut m: Vec<char> = to_chars(cmd);
    push_str(&mut m, ": ");
    push_all(&mut m, arg);
    push_str(&mut m, ": ");
    push_str(&mut m, e);
    push_err(out, &m);
}

/// "cmd: what went wrong"
pub open spec fn complaint(cmd: Seq<char>, e: Seq<char>) -> Seq<char> {
    err_line(cmd + ": "@ + e)
}

pub fn push_complaint(out: &mut Vec<char>, cmd: &str, e: &str)
    ensures
        final(out)@ == old(out)@ + complaint(cmd@, e@),
{
    let mut m: Vec<char> = to_chars(cmd);
    push_str(&mut m, ": ");
    push_str(&mut m, e);
    push_err(out, &m);
}

/// What `play` says of a file: what was read of it, or why it could not be;
/// `present` says whether there is a sound card.
pub open spec fn play_says(arg: Seq<char>, data: Result<Seq<u8>, Seq<char>>, present: bool) -> Seq<char> {
    match data {
        Err(e) => failure("play"@, arg, e),
        Ok(b) => match fault(b) {
            Some(e) => complaint("play"@, e),
            None => if present {
                let (info, samples) = contents(b);
                play_line(arg, info.rate, info.bits, info.channels, samples.len() as int / 2)
            } else {
                err_line("no sound card"@)
            },
        },
    }
}

/// `play`: the samples to play, if the file is a sound and there is a card.
pub fn play(arg: &[char], data: &Result<Vec<u8>, String>, present: bool, out: &mut Vec<char>) -> (r: Option<Vec<i16>>)
    requires
        *data matches Ok(b) ==> b@.len() * 48000 <= usize::MAX,
    ensures
        r is Some == (present && (*data matches Ok(b) && fault(b@) is None)),
        r matches Some(v) ==> v@ == contents((*data)->Ok_0@).1,
        final(out)@ == old(out)@ + play_says(
            arg@,
            match *data {
                Ok(b) => Ok(b@),
                Err(e) => Err(e@),
            },
            present,
        ),
{
    match data {
        Err(e) => {
            push_failure(out, "play", arg, e.as_str());
            None
        },
        Ok(b) => match decode(b) {
            Err(e) => {
                push_complaint(out, "play", e);
                None
            },
            Ok((info, samples)) => {
                if !present {
                    push_err(out, &to_chars("no sound card"));
                    return None;
                }
                let line: Vec<char> = playing(arg, info.rate, info.bits, info.channels, (samples.len() / 2) as u64);
                push_all(out, &line);
                Some(samples)
            },
        },
    }
}

/// `beep`: whether the test sound is played.
pub fn beep(present: bool, out: &mut Vec<char>) -> (r: bool)
    ensures
        r == present,
        final(out)@ == old(out)@ + if present { Seq::empty() } else { err_line("no sound card"@) },
{
    if !present {
        push_err(out, &to_chars("no sound card"));
    } else {
        proof {
            assert(out@ =~= old(out)@ + Seq::<char>::empty());
        }
    }
    present
}

/// `cd`: the folder to change to, if `target` is one; `found` says whether
/// it is.
pub fn cd(target: &[char], found: &Result<bool, String>, out: &mut Vec<char>) -> (r: bool)
    ensures
        r == (*found == Ok::<bool, String>(true)),
        final(out)@ == old(out)@ + match *found {
            Ok(is_dir) => if is_dir { Seq::empty() } else { failure("cd"@, target@, "not a directory"@) },
            Err(e) => failure("cd"@, target@, e@),
        },
{
    match found {
        Ok(true) => {
            proof {
                assert(out@ =~= old(out)@ + Seq::<char>::empty());
            }
            true
        },
        Ok(false) => {
            push_failure(out, "cd", target, "not a directory");
            false
        },
        Err(e) => {
            push_failure(out, "cd", target, e.as_str());
            false
        },
    }
}

/// How a path is to be removed.
#[derive(Clone, Copy, Debug, PartialEq, Eq, Structural)]
pub enum Removal {
    /// It stays; the reason was printed.
    Refused,
    /// With all that it holds.
    All,
    /// The file, or the empty folder.
    One,
}

pub open spec fn removal(path: Seq<char>, found: Result<bool, String>, recursive: bool) -> Removal {
    if path == "/"@ {
        Removal::Refused
    } else {
        match found {
            Ok(is_dir) => if !is_dir {
                Removal::One
            } else if recursive {
                Removal::All
            } else {
                Removal::Refused
            },
            Err(_) => Removal::Refused,
        }
    }
}

pub open spec fn removal_text(
    arg: Seq<char>,
    path: Seq<char>,
    found: Result<bool, String>,
    recursive: bool,
) -> Seq<char> {
    if path == "/"@ {
        err_line("rm: refusing to remove /"@)
    } else {
        match found {
            Ok(is_dir) => if is_dir && !recursive {
                failure("rm"@, arg, "is a directory (use rm -r)"@)
            } else {
                Seq::empty()
            },
            Err(e) => failure("rm"@, arg, e@),
        }
    }
}

/// `rm`: what to do about one path. `found` says whether it is a folder.
pub fn rm(arg: &[char], path: &[char], found: &Result<bool, String>, recursive: bool, out: &mut Vec<char>) -> (r:
    Removal)
    ensures
        r == removal(path@, *found, recursive),
        final(out)@ == old(out)@ + removal_text(arg@, path@, *found, recursive),
{
    if is_str(path, "/") {
        push_err(out, &to_chars("rm: refusing to remove /"));
        return Removal::Refused;
    }
    match found {
        Ok(is_dir) => {
            if *is_dir && !recursive {
                push_failure(out, "rm", arg, "is a directory (use rm -r)");
                return Removal::Refused;
            }
            proof {
                assert(out@ =~= old(out)@ + Seq::<char>::empty());
            }
            if *is_dir { Removal::All } else { Removal::One }
        },
        Err(e) => {
            push_failure(out, "rm", arg, e.as_str());
            Removal::Refused
        },
    }
}

/// `rmdir`: whether to remove the path.
pub fn rmdir(arg: &[char], found: &Result<bool, String>, out: &mut Vec<char>) -> (r: bool)
    ensures
        r == (*found == Ok::<bool, String>(true)),
        final(out)@ == old(out)@ + match *found {
            Ok(is_dir) => if is_dir { Seq::empty() } else { failure("rmdir"@, arg@, "not a directory"@) },
            Err(e) => failure("rmdir"@, arg@, e@),
        },
{
    match found {
        Ok(true) => {
            proof {
                assert(out@ =~= old(out)@ + Seq::<char>::empty());
            }
            true
        },
        Ok(false) => {
            push_failure(out, "rmdir", arg, "not a directory");
            false
        },
        Err(e) => {
            push_failure(out, "rmdir", arg, e.as_str());
            false
        },
    }
}

/// Where `mv` and `cp` put what is at `from`: moving or copying into an
/// existing folder keeps the name.
pub open spec fn target(from: Seq<char>, to: Seq<char>, to_is_dir: bool) -> Seq<char> {
    if to_is_dir { joined_path(to, base_name(from)) } else { to }
}

pub fn transfer_target(from: &[char], to: &[char], to_is_dir: bool) -> (r: Vec<char>)
    ensures
        r@ == target(from@, to@, to_is_dir),
{
    if to_is_dir { join_chars(to, &file_name_chars(from)) } else { copy(to) }
}

/// `cp`: whether to copy; a folder takes `-r`.
pub fn cp(shown: &[char], from_is_dir: bool, recursive: bool, out: &mut Vec<char>) -> (r: bool)
    ensures
        r == (!from_is_dir || recursive),
        final(out)@ == old(out)@ + if r {
            Seq::empty()
        } else {
            failure("cp"@, shown@, "is a directory (use cp -r)"@)
        },
{
    if from_is_dir && !recursive {
        push_failure(out, "cp", shown, "is a directory (use cp -r)");
        false
    } else {
        proof {
            assert(out@ =~= old(out)@ + Seq::<char>::empty());
        }
        true
    }
}

// ---------------------------------------------------------------------
// mkdir -p
// ---------------------------------------------------------------------

/// The parts that are not empty.
pub open spec fn solid(parts: Seq<Seq<char>>) -> Seq<Seq<char>>
    decreases parts.len(),
{
    if parts.len() == 0 {
        Seq::empty()
    } else {
        let rest = solid(parts.drop_last());
        if parts.last().len() == 0 { rest } else { rest.push(parts.last()) }
    }
}

/// A slash before each part.
pub open spec fn slashed(parts: Seq<Seq<char>>) -> Seq<char>
    decreases parts.len(),
{
    if parts.len() == 0 { Seq::empty() } else { slashed(parts.drop_last()).push('/') + parts.last() }
}

/// The folders on the way to a path, the path itself last.
pub open spec fn way_to(path: Seq<char>) -> Seq<Seq<char>> {
    let p = solid(split(path, '/'));
    Seq::new(p.len(), |i: int| slashed(p.take(i + 1)))
}

/// The folders that `mkdir -p` makes, in order.
pub fn mkdir_parents(path: &[char]) -> (r: Vec<Vec<char>>)
    ensures
        views(r@) == way_to(path@),
{
    let parts: Vec<Vec<char>> = split_on(path, '/');
    let ghost all = views(parts@);
    let mut out: Vec<Vec<char>> = Vec::new();
    let mut cur: Vec<char> = Vec::new();
    let mut i: usize = 0;
    let ghost mut p = Seq::<Seq<char>>::empty();
    proof {
        assert(all.take(0) =~= Seq::<Seq<char>>::empty());
        assert(views(out@) =~= Seq::new(p.len(), |k: int| slashed(p.take(k + 1))));
    }
    while i < parts.len()
        invariant
            i <= parts@.len(),
            all == views(parts@),
            p == solid(all.take(i as int)),
            cur@ == slashed(p),
            views(out@) == Seq::new(p.len(), |k: int| slashed(p.take(k + 1))),
        decreases parts@.len() - i,
    {
        proof {
            assert(all.take(i + 1).drop_last() =~= all.take(i as int));
            assert(all.take(i + 1).last() == parts@[i as int]@);
        }
        if parts[i].len() > 0 {
            let ghost p0 = p;
            let ghost o0 = views(out@);
            cur.push('/');
            push_all(&mut cur, &parts[i]);
            out.push(copy(&cur));
            proof {
                p = p0.push(parts@[i as int]@);
                assert(p.drop_last() =~= p0);
                assert(p.take(p.len() as int) =~= p);
                assert(views(out@) =~= o0.push(cur@));
                assert forall|k: int| 0 <= k < p.len() implies views(out@)[k] == slashed(p.take(k + 1)) by {
                    if k < p0.len() {
                        assert(p.take(k + 1) =~= p0.take(k + 1));
                        assert(views(out@)[k] == o0[k]);
                    }
                }
                assert(views(out@) =~= Seq::new(p.len(), |k: int| slashed(p.take(k + 1))));
            }
        }
        i += 1;
    }
    proof {
        assert(all.take(all.len() as int) =~= all);
    }
    out
}

/// What came of a step of a command: nothing to say where it went well.
pub fn push_result(out: &mut Vec<char>, cmd: &str, arg: &[char], r: &Result<(), String>)
    ensures
        final(out)@ == old(out)@ + match *r {
            Ok(_) => Seq::empty(),
            Err(e) => failure(cmd@, arg@, e@),
        },
{
    match r {
        Ok(()) => {
            proof {
                assert(out@ =~= old(out)@ + Seq::<char>::empty());
            }
        },
        Err(e) => push_failure(out, cmd, arg, e.as_str()),
    }
}

/// `touch`: whether to create a file; what is there already is left alone.
pub fn touch(exists: bool) -> (r: bool)
    ensures
        r == !exists,
{
    !exists
}

/// The making of a folder, with those on the way to it where that is asked.
pub struct MakeDirs {
    /// The folders to be there in the end, in order.
    pub way: Vec<Vec<char>>,
    /// How many of them are there.
    pub at: usize,
    /// Whether the next one is known not to be there.
    pub absent: bool,
    pub error: Option<String>,
}

#[verifier::ext_equal]
pub struct MakeDirsState {
    pub way: Seq<Seq<char>>,
    pub at: int,
    pub absent: bool,
    pub error: Option<Seq<char>>,
}

/// What is to be done next.
pub enum MakeAsk {
    /// Find out whether there is something at this path.
    Look(Vec<char>),
    /// Create this folder.
    Create(Vec<char>),
    /// Nothing: all folders are there, or one could not be created.
    Done(Result<(), String>),
}

pub enum MakeAskState {
    Look(Seq<char>),
    Create(Seq<char>),
    Done(Result<(), Seq<char>>),
}

impl View for MakeDirs {
    type V = MakeDirsState;

    open spec fn view(&self) -> MakeDirsState {
        MakeDirsState {
            way: views(self.way@),
            at: self.at as int,
            absent: self.absent,
            error: match self.error {
                Some(e) => Some(e@),
                None => None,
            },
        }
    }
}

impl View for MakeAsk {
    type V = MakeAskState;

    open spec fn view(&self) -> MakeAskState {
        match *self {
            MakeAsk::Look(p) => MakeAskState::Look(p@),
            MakeAsk::Create(p) => MakeAskState::Create(p@),
            MakeAsk::Done(Ok(_)) => MakeAskState::Done(Ok(())),
            MakeAsk::Done(Err(e)) => MakeAskState::Done(Err(e@)),
        }
    }
}

impl MakeDirsState {
    pub open spec fn wf(self) -> bool {
        0 <= self.at <= self.way.len()
    }

    /// With `parents` the folders on the way are made as far as they are
    /// missing; without, the folder itself is created unseen.
    pub open spec fn start(path: Seq<char>, parents: bool) -> MakeDirsState {
        MakeDirsState { way: if parents { way_to(path) } else { seq![path] }, at: 0, absent: !parents, error: None }
    }

    pub open spec fn asks(self) -> MakeAskState {
        match self.error {
            Some(e) => MakeAskState::Done(Err(e)),
            None => if self.at >= self.way.len() {
                MakeAskState::Done(Ok(()))
            } else if self.absent {
                MakeAskState::Create(self.way[self.at])
            } else {
                MakeAskState::Look(self.way[self.at])
            },
        }
    }

    pub open spec fn looked(self, exists: bool) -> MakeDirsState {
        if exists { MakeDirsState { at: self.at + 1, ..self } } else { MakeDirsState { absent: true, ..self } }
    }

    pub open spec fn created(self, r: Result<(), Seq<char>>) -> MakeDirsState {
        match r {
            Ok(_) => MakeDirsState { at: self.at + 1, absent: false, ..self },
            Err(e) => MakeDirsState { error: Some(e), ..self },
        }
    }
}

impl MakeDirs {
    /// `mkdir` of a folder; `parents` is its flag `-p`.
    pub fn start(path: &[char], parents: bool) -> (r: MakeDirs)
        ensures
            r@.wf(),
            r@ == MakeDirsState::start(path@, parents),
    {
        let way: Vec<Vec<char>> = if parents { mkdir_parents(path) } else { vec![copy(path)] };
        proof {
            if !parents {
                assert(views(way@) =~= seq![path@]);
            }
        }
        MakeDirs { way, at: 0, absent: !parents, error: None }
    }

    /// What is to be done next.
    pub fn ask(&self) -> (r: MakeAsk)
        requires
            self@.wf(),
        ensures
            r@ == self@.asks(),
    {
        if let Some(e) = &self.error {
            return MakeAsk::Done(Err(to_text(&to_chars(e.as_str()))));
        }
        if self.at >= self.way.len() {
            return MakeAsk::Done(Ok(()));
        }
        let p: Vec<char> = copy(&self.way[self.at]);
        if self.absent { MakeAsk::Create(p) } else { MakeAsk::Look(p) }
    }

    /// Whether there was something at the path.
    pub fn look_told(&mut self, exists: bool)
        requires
            old(self)@.wf(),
            old(self)@.asks() is Look,
        ensures
            final(self)@.wf(),
            final(self)@ == old(self)@.looked(exists),
    {
        let n: usize = self.way.len();
        assert(self.at < n);
        if exists {
            self.at += 1;
        } else {
            self.absent = true;
        }
    }

    /// Whether the folder was created.
    pub fn create_told(&mut self, r: Result<(), String>)
        requires
            old(self)@.wf(),
            old(self)@.asks() is Create,
        ensures
            final(self)@.wf(),
            final(self)@ == old(self)@.created(
                match r {
                    Ok(_) => Ok(()),
                    Err(e) => Err(e@),
                },
            ),
    {
        let n: usize = self.way.len();
        assert(self.at < n);
        match r {
            Ok(()) => {
                self.at += 1;
                self.absent = false;
            },
            Err(e) => self.error = Some(e),
        }
    }
}

/// The folders among the first `n` on the way that are not there.
pub open spec fn missing(way: Seq<Seq<char>>, there: spec_fn(Seq<char>) -> bool, n: int) -> Seq<Seq<char>>
    decreases n,
{
    if n <= 0 {
        Seq::empty()
    } else if there(way[n - 1]) {
        missing(way, there, n - 1)
    } else {
        missing(way, there, n - 1).push(way[n - 1])
    }
}

/// The folders that were created so far are those that were missing, and it is
/// known what is there as far as it was looked at.
pub open spec fn making(s: MakeDirsState, there: spec_fn(Seq<char>) -> bool, made: Seq<Seq<char>>) -> bool {
    &&& s.wf()
    &&& made == missing(s.way, there, s.at)
    &&& s.absent ==> s.at < s.way.len() && !there(s.way[s.at])
    &&& s.error is Some ==> s.absent
}

/// `mkdir -p` leaves alone what is there: it goes on to the next folder.
pub proof fn lemma_looked(s: MakeDirsState, there: spec_fn(Seq<char>) -> bool, made: Seq<Seq<char>>)
    requires
        making(s, there, made),
        s.asks() is Look,
    ensures
        making(s.looked(there(s.way[s.at])), there, made),
{
}

/// What it creates is a folder that was missing. Where that fails it stops,
/// with that error, and creates no more.
pub proof fn lemma_created(
    s: MakeDirsState,
    there: spec_fn(Seq<char>) -> bool,
    made: Seq<Seq<char>>,
    r: Result<(), Seq<char>>,
)
    requires
        making(s, there, made),
        s.asks() is Create,
    ensures
        s.asks() == MakeAskState::Create(s.way[s.at]),
        !there(s.way[s.at]),
        r is Ok ==> making(s.created(r), there, made.push(s.way[s.at])),
        r matches Err(e) ==> making(s.created(r), there, made) && s.created(r).asks() == MakeAskState::Done(Err(e)),
{
}

/// Where no folder failed, all that were missing on the way were created, in
/// order, and nothing else.
pub proof fn lemma_made(s: MakeDirsState, there: spec_fn(Seq<char>) -> bool, made: Seq<Seq<char>>)
    requires
        making(s, there, made),
        s.asks() == MakeAskState::Done(Ok(())),
    ensures
        made == missing(s.way, there, s.way.len() as int),
{
}

/// It begins with nothing created.
pub proof fn lemma_making_starts(path: Seq<char>, there: spec_fn(Seq<char>) -> bool)
    ensures
        making(MakeDirsState::start(path, true), there, Seq::empty()),
{
}

/// The root is never removed, and a folder only with all that it holds if
/// that was asked for; what is not there is not removed either. A file always
/// is.
pub proof fn lemma_removal_is_careful(path: Seq<char>, found: Result<bool, String>, recursive: bool)
    ensures
        path == "/"@ ==> removal(path, found, recursive) is Refused,
        found is Err ==> removal(path, found, recursive) is Refused,
        removal(path, found, recursive) is All <==> path != "/"@ && found == Ok::<bool, String>(true) && recursive,
        removal(path, found, recursive) is One <==> path != "/"@ && found == Ok::<bool, String>(false),
        removal(path, found, recursive) is Refused <==> removal_text(path, path, found, recursive).len() > 0,
{
    reveal_strlit("\n");
}

/// What is moved or copied into a folder is put there under its own name;
/// otherwise it is put where the target says.
pub proof fn lemma_target_keeps_name(
    from: Seq<Seq<char>>,
    name: Seq<char>,
    to: Seq<Seq<char>>,
)
    requires
        canonical(from),
        proper(name),
        canonical(to),
    ensures
        target(path_of(from.push(name)), path_of(to), true) == path_of(to.push(name)),
        target(path_of(from.push(name)), path_of(to), false) == path_of(to),
{
    lemma_join_parent_name(from, name);
    lemma_join_parent_name(to, name);
}

/// The parts of a path that are not empty are its names.
pub proof fn lemma_solid(parts: Seq<Seq<char>>)
    requires
        canonical(parts),
    ensures
        solid(seq![""@] + parts) == parts,
    decreases parts.len(),
{
    reveal_strlit("");
    let q = seq![""@] + parts;
    if parts.len() == 0 {
        assert(q.drop_last() =~= Seq::<Seq<char>>::empty());
        assert(solid(q.drop_last()) =~= parts);
    } else {
        lemma_solid(parts.drop_last());
        assert(q.drop_last() =~= seq![""@] + parts.drop_last());
        let l = parts.last();
        assert(proper(parts[parts.len() - 1]));
        if l.len() == 0 {
            assert(l =~= ""@);
        }
        assert(parts.drop_last().push(l) =~= parts);
    }
}

proof fn lemma_slashed(parts: Seq<Seq<char>>)
    requires
        parts.len() > 0,
    ensures
        slashed(parts) == path_of(parts),
    decreases parts.len(),
{
    let d = parts.drop_last();
    if parts.len() == 1 {
        assert(slashed(d) =~= Seq::empty());
        assert(slashed(parts) =~= path_of(parts));
    } else {
        lemma_slashed(d);
        assert(slashed(parts) =~= path_of(parts));
    }
}

/// The folders on the way to a path go down to it one name at a time: each is
/// in the one before it, the first is in the root, and the last is the path.
pub proof fn lemma_way_goes_down(parts: Seq<Seq<char>>)
    requires
        canonical(parts),
        parts.len() > 0,
    ensures
        way_to(path_of(parts)).len() == parts.len(),
        way_to(path_of(parts)).last() == path_of(parts),
        forall|i: int|
            0 <= i < parts.len() ==> #[trigger] way_to(path_of(parts))[i] == path_of(parts.take(i + 1)),
{
    lemma_split_path(parts);
    lemma_solid(parts);
    let way = way_to(path_of(parts));
    assert forall|i: int| 0 <= i < parts.len() implies #[trigger] way[i] == path_of(parts.take(i + 1)) by {
        lemma_slashed(parts.take(i + 1));
    }
    assert(parts.take(parts.len() as int) =~= parts);
}

} // verus!
