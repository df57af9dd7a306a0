//! The mount table: which disk a path belongs to, and what may be done to
//! mount points.

use super::entry::{entries_of, sort_entries, sorted, virtual_entry, DirEntry, EntryState, FsError};
use super::path::{
    base_name, canonical, file_name_chars, lemma_parts_of_path_of, lemma_path_below, normalize_chars, normalized, parts_of,
    path_of,
};
use crate::text::{
    copy_range, lower_all, lowered, same, starts, starts_with, to_chars, to_text,
};
use vstd::prelude::*;

verus! {

/// A mounted volume: "/" for the main one, otherwise "/name".
pub struct Mount<V> {
    pub point: Vec<char>,
    pub vol: V,
}

/// All mounted volumes. `generation` changes with every modification so
/// that views (e.g. the explorer) can refresh.
pub struct Vfs<V> {
    pub mounts: Vec<Mount<V>>,
    pub generation: u64,
}

#[verifier::ext_equal]
pub struct VfsState<V> {
    pub mounts: Seq<(Seq<char>, V)>,
    pub generation: u64,
}

pub open spec fn table_of<V>(m: Seq<Mount<V>>) -> Seq<(Seq<char>, V)> {
    Seq::new(m.len(), |i: int| (m[i].point@, m[i].vol))
}

impl<V> View for Vfs<V> {
    type V = VfsState<V>;

    open spec fn view(&self) -> VfsState<V> {
        VfsState { mounts: table_of(self.mounts@), generation: self.generation }
    }
}

pub open spec fn root() -> Seq<char> {
    seq!['/']
}

/// Whether the mount point `p` is on the way to `path`.
pub open spec fn covers(p: Seq<char>, path: Seq<char>) -> bool {
    p == root() || p == path || starts(path, p + seq!['/'])
}

/// The table without what is mounted at `point`.
pub open spec fn without<V>(m: Seq<(Seq<char>, V)>, point: Seq<char>) -> Seq<(Seq<char>, V)>
    decreases m.len(),
{
    if m.len() == 0 {
        Seq::empty()
    } else {
        let rest = without(m.drop_last(), point);
        if m.last().0 == point { rest } else { rest.push(m.last()) }
    }
}

impl<V> VfsState<V> {
    /// Every point starts with a slash, and no two are the same.
    pub open spec fn wf(self) -> bool {
        &&& forall|i: int|
            0 <= i < self.mounts.len() ==> (#[trigger] self.mounts[i]).0.len() > 0 && self.mounts[i].0[0] == '/'
        &&& forall|i: int, j: int|
            0 <= i < j < self.mounts.len() ==> (#[trigger] self.mounts[i]).0 != (#[trigger] self.mounts[j]).0
    }

    pub open spec fn touched(self) -> VfsState<V> {
        VfsState { generation: self.generation.wrapping_add(1), ..self }
    }

    pub open spec fn with_mount(self, point: Seq<char>, vol: V) -> VfsState<V> {
        VfsState { mounts: without(self.mounts, point).push((point, vol)), ..self }.touched()
    }

    pub open spec fn has_point(self, p: Seq<char>) -> bool {
        exists|i: int| 0 <= i < self.mounts.len() && (#[trigger] self.mounts[i]).0 == p
    }

    /// Whether mount `i` is the one for the normalized path `p`: of those on
    /// the way to it, the one with the longest point.
    pub open spec fn serves(self, i: int, p: Seq<char>) -> bool {
        &&& 0 <= i < self.mounts.len()
        &&& covers(self.mounts[i].0, p)
        &&& forall|j: int|
            0 <= j < self.mounts.len() && covers((#[trigger] self.mounts[j]).0, p) ==> self.mounts[j].0.len()
                <= self.mounts[i].0.len()
    }

    pub open spec fn unserved(self, p: Seq<char>) -> bool {
        forall|j: int| 0 <= j < self.mounts.len() ==> !covers((#[trigger] self.mounts[j]).0, p)
    }

    pub open spec fn is_point(self, path: Seq<char>) -> bool {
        let p = normalized(root(), path);
        p != root() && self.has_point(p)
    }
}

/// The path inside the volume that is mounted at `point`.
pub open spec fn inner_path(point: Seq<char>, p: Seq<char>) -> Seq<char> {
    let i = if point.len() <= 1 { p } else { p.skip(point.len() as int) };
    if i.len() == 0 { root() } else { i }
}

/// A path on a certain volume.
pub struct Place {
    pub index: usize,
    pub inner: String,
}

/// Whether `place` is where `path` is found.
pub open spec fn placed<V>(s: VfsState<V>, path: Seq<char>, place: Place) -> bool {
    let p = normalized(root(), path);
    s.serves(place.index as int, p) && place.inner@ == inner_path(s.mounts[place.index as int].0, p)
}

// ---------------------------------------------------------------------
// Laws
// ---------------------------------------------------------------------

/// A path belongs to one volume only.
pub proof fn lemma_serves_unique<V>(s: VfsState<V>, p: Seq<char>, i: int, j: int)
    requires
        s.wf(),
        s.serves(i, p),
        s.serves(j, p),
    ensures
        i == j,
{
    let a = s.mounts[i].0;
    let b = s.mounts[j].0;
    assert(a.len() == b.len());
    assert(a == b) by {
        if a != root() && b != root() {
            assert(a =~= p.take(a.len() as int)) by {
                if a != p {
                    assert(p.take((a.len() + 1) as int) =~= a + seq!['/']);
                    assert((a + seq!['/']).take(a.len() as int) =~= a);
                    assert(p.take((a.len() + 1) as int).take(a.len() as int) =~= p.take(a.len() as int));
                }
            }
            assert(b =~= p.take(b.len() as int)) by {
                if b != p {
                    assert(p.take((b.len() + 1) as int) =~= b + seq!['/']);
                    assert((b + seq!['/']).take(b.len() as int) =~= b);
                    assert(p.take((b.len() + 1) as int).take(b.len() as int) =~= p.take(b.len() as int));
                }
            }
        } else {
            assert(a[0] == '/' && b[0] == '/');
            assert(a =~= b);
        }
    }
    if i < j {
        assert(s.mounts[i].0 != s.mounts[j].0);
    } else if j < i {
        assert(s.mounts[j].0 != s.mounts[i].0);
    }
}

pub(super) proof fn lemma_without<V>(m: Seq<(Seq<char>, V)>, point: Seq<char>)
    ensures
        forall|i: int|
            0 <= i < without(m, point).len() ==> (#[trigger] without(m, point)[i]).0 != point && m.contains(
                without(m, point)[i],
            ),
        forall|i: int|
            0 <= i < m.len() && (#[trigger] m[i]).0 != point ==> without(m, point).contains(m[i]),
    decreases m.len(),
{
    if m.len() > 0 {
        let d = m.drop_last();
        lemma_without(d, point);
        let w = without(m, point);
        let wd = without(d, point);
        assert forall|i: int| 0 <= i < w.len() implies (#[trigger] w[i]).0 != point && m.contains(w[i]) by {
            if i < wd.len() {
                assert(w[i] == wd[i]);
                let k = choose|k: int| 0 <= k < d.len() && d[k] == wd[i];
                assert(m[k] == w[i]);
            } else {
                assert(m[m.len() - 1] == w[i]);
            }
        }
        assert forall|i: int| 0 <= i < m.len() && (#[trigger] m[i]).0 != point implies w.contains(m[i]) by {
            if i < d.len() {
                assert(d[i] == m[i]);
                let k = choose|k: int| 0 <= k < wd.len() && wd[k] == d[i];
                assert(w[k] == m[i]);
            } else {
                assert(w[w.len() - 1] == m[i]);
            }
        }
    }
}

proof fn lemma_without_wf<V>(s: VfsState<V>, m: Seq<(Seq<char>, V)>, point: Seq<char>)
    requires
        s.wf(),
        s.mounts == m,
    ensures
        (VfsState { mounts: without(m, point), generation: s.generation }).wf(),
    decreases m.len(),
{
    lemma_without(m, point);
    if m.len() > 0 {
        let d = VfsState { mounts: m.drop_last(), generation: s.generation };
        assert(d.wf()) by {
            assert forall|i: int| 0 <= i < d.mounts.len() implies (#[trigger] d.mounts[i]).0.len() > 0
                && d.mounts[i].0[0] == '/' by {
                assert(s.mounts[i] == d.mounts[i]);
            }
            assert forall|i: int, j: int| 0 <= i < j < d.mounts.len() implies (#[trigger] d.mounts[i]).0 != (
            #[trigger] d.mounts[j]).0 by {
                assert(s.mounts[i] == d.mounts[i]);
                assert(s.mounts[j] == d.mounts[j]);
            }
        }
        lemma_without_wf(d, m.drop_last(), point);
        lemma_without(m.drop_last(), point);
        let w = without(m, point);
        let wd = without(m.drop_last(), point);
        let r = VfsState { mounts: w, generation: s.generation };
        assert forall|i: int| 0 <= i < w.len() implies (#[trigger] w[i]).0.len() > 0 && w[i].0[0] == '/' by {
            assert(m.contains(w[i]));
            let k = choose|k: int| 0 <= k < m.len() && m[k] == w[i];
            assert(s.mounts[k] == w[i]);
        }
        assert forall|i: int, j: int| 0 <= i < j < w.len() implies (#[trigger] w[i]).0 != (#[trigger] w[j]).0 by {
            let rd = VfsState { mounts: wd, generation: s.generation };
            assert(w[i] == rd.mounts[i]);
            if j < wd.len() {
                assert(w[j] == rd.mounts[j]);
            } else {
                let k = choose|k: int| 0 <= k < m.drop_last().len() && m.drop_last()[k] == wd[i];
                assert(s.mounts[k] == w[i]);
                assert(s.mounts[m.len() - 1] == w[j]);
            }
        }
    }
}

/// Mounting keeps the table in shape, and what was mounted serves its own
/// point.
pub proof fn lemma_mounted<V>(s: VfsState<V>, point: Seq<char>, vol: V)
    requires
        s.wf(),
        point.len() > 0,
        point[0] == '/',
    ensures
        s.with_mount(point, vol).wf(),
        s.with_mount(point, vol).mounts.last() == (point, vol),
        s.with_mount(point, vol).has_point(point),
        forall|i: int|
            0 <= i < s.mounts.len() && (#[trigger] s.mounts[i]).0 != point ==> s.with_mount(point, vol).mounts.contains(
                s.mounts[i],
            ),
{
    lemma_without(s.mounts, point);
    lemma_without_wf(s, s.mounts, point);
    let w = without(s.mounts, point);
    let r = s.with_mount(point, vol);
    assert(r.mounts[r.mounts.len() - 1].0 == point);
    assert forall|i: int, j: int| 0 <= i < j < r.mounts.len() implies (#[trigger] r.mounts[i]).0 != (
    #[trigger] r.mounts[j]).0 by {
        let rw = VfsState { mounts: w, generation: s.generation };
        assert(r.mounts[i] == rw.mounts[i]);
        if j < w.len() {
            assert(r.mounts[j] == rw.mounts[j]);
        }
    }
    assert forall|i: int| 0 <= i < r.mounts.len() implies (#[trigger] r.mounts[i]).0.len() > 0 && r.mounts[i].0[0]
        == '/' by {
        if i < w.len() {
            assert(r.mounts[i] == w[i]);
        }
    }
    assert forall|i: int| 0 <= i < s.mounts.len() && (#[trigger] s.mounts[i]).0 != point implies r.mounts.contains(
        s.mounts[i],
    ) by {
        let k = choose|k: int| 0 <= k < w.len() && w[k] == s.mounts[i];
        assert(r.mounts[k] == s.mounts[i]);
    }
}

/// A mount is on the way to a path if the names of its point come first in
/// the path; inside the volume the rest of the names lead there.
pub proof fn lemma_volume_path(point: Seq<Seq<char>>, parts: Seq<Seq<char>>)
    requires
        canonical(point),
        canonical(parts),
    ensures
        covers(path_of(point), path_of(parts)) <==> point.is_prefix_of(parts),
        point.is_prefix_of(parts) ==> inner_path(path_of(point), path_of(parts)) == path_of(
            parts.skip(point.len() as int),
        ),
{
    reveal_strlit("/");
    assert(root() =~= path_of(Seq::empty()));
    lemma_parts_of_path_of("/"@, point);
    lemma_parts_of_path_of("/"@, parts);
    lemma_parts_of_path_of("/"@, Seq::empty());
    if point.len() == 0 {
        assert(point =~= Seq::empty());
        assert(parts.skip(0) =~= parts);
        assert(path_of(point).len() == 1);
    } else {
        lemma_path_below(point, parts);
        assert(path_of(point) != root()) by {
            if path_of(point) == root() {
                assert(parts_of("/"@, path_of(point)) == parts_of("/"@, path_of(Seq::empty())));
            }
        }
        if path_of(point) == path_of(parts) {
            assert(point == parts);
        }
        if point.is_prefix_of(parts) && point.len() == parts.len() {
            assert(point =~= parts);
            assert(parts.skip(point.len() as int) =~= Seq::empty());
            assert(path_of(parts).skip(path_of(point).len() as int) =~= Seq::empty());
            assert(path_of(parts.skip(point.len() as int)) =~= root());
        }
        assert(path_of(point).len() > 1) by {
            if path_of(point).len() <= 1 {
                assert(path_of(point) =~= root());
            }
        }
    }
}

// ---------------------------------------------------------------------
// The table
// ---------------------------------------------------------------------

impl<V> Vfs<V> {
    pub fn new() -> (r: Vfs<V>)
        ensures
            r@ == (VfsState { mounts: Seq::<(Seq<char>, V)>::empty(), generation: 0 }),
            r@.wf(),
    {
        let r: Vfs<V> = Vfs { mounts: Vec::new(), generation: 0 };
        proof {
            assert(r@.mounts =~= Seq::<(Seq<char>, V)>::empty());
        }
        r
    }

    fn touch(&mut self)
        ensures
            final(self)@ == old(self)@.touched(),
    {
        self.generation = self.generation.wrapping_add(1);
        proof {
            assert(self@.mounts =~= old(self)@.mounts);
        }
    }

    fn position(&self, p: &[char]) -> (r: Option<usize>)
        ensures
            match r {
                Some(i) => i < self@.mounts.len() && self@.mounts[i as int].0 == p@ && forall|j: int|
                    0 <= j < i ==> (#[trigger] self@.mounts[j]).0 != p@,
                None => forall|j: int| 0 <= j < self@.mounts.len() ==> (#[trigger] self@.mounts[j]).0 != p@,
            },
    {
        let mut i: usize = 0;
        while i < self.mounts.len()
            invariant
                i <= self.mounts@.len(),
                forall|j: int| 0 <= j < i ==> (#[trigger] self@.mounts[j]).0 != p@,
            decreases self.mounts@.len() - i,
        {
            if same(&self.mounts[i].point, p) {
                return Some(i);
            }
            i += 1;
        }
        None
    }

    /// Find the volume for `path` and the path inside it.
    pub fn route(&self, path: &str) -> (r: Option<Place>)
        ensures
            match r {
                Some(place) => placed(self@, path@, place),
                None => self@.unserved(normalized(root(), path@)),
            },
    {
        let slash: Vec<char> = vec!['/'];
        proof {
            assert(slash@ =~= root());
        }
        let p: Vec<char> = normalize_chars(&slash, &to_chars(path));
        let mut best: Option<usize> = None;
        let mut i: usize = 0;
        while i < self.mounts.len()
            invariant
                i <= self.mounts@.len(),
                slash@ == root(),
                match best {
                    Some(b) => b < i && covers(self@.mounts[b as int].0, p@) && forall|j: int|
                        0 <= j < i && covers((#[trigger] self@.mounts[j]).0, p@) ==> self@.mounts[j].0.len()
                            <= self@.mounts[b as int].0.len(),
                    None => forall|j: int| 0 <= j < i ==> !covers((#[trigger] self@.mounts[j]).0, p@),
                },
            decreases self.mounts@.len() - i,
        {
            let m: &Vec<char> = &self.mounts[i].point;
            let mut under: Vec<char> = crate::text::copy(m);
            under.push('/');
            proof {
                assert(under@ =~= m@ + seq!['/']);
                assert(self@.mounts[i as int].0 == m@);
            }
            let hit: bool = same(m, &slash) || same(m, &p) || starts_with(&p, &under);
            let longer: bool = match best {
                Some(b) => m.len() > self.mounts[b].point.len(),
                None => true,
            };
            if hit && longer {
                best = Some(i);
            }
            i += 1;
        }
        match best {
            Some(b) => {
                let len: usize = self.mounts[b].point.len();
                let mut inner: Vec<char> = if len <= 1 { crate::text::copy(&p) } else if len <= p.len() {
                    copy_range(&p, len, p.len())
                } else {
                    Vec::new()
                };
                proof {
                    let pt = self@.mounts[b as int].0;
                    if len > 1 {
                        assert(pt != root()) by {
                            assert(root().len() == 1);
                        }
                        assert(len <= p@.len()) by {
                            if pt != p@ {
                                assert((pt + seq!['/']).len() == len + 1);
                            }
                        }
                        assert(inner@ =~= p@.skip(len as int));
                    }
                }
                if inner.len() == 0 {
                    inner.push('/');
                    proof {
                        assert(inner@ =~= root());
                    }
                }
                Some(Place { index: b, inner: to_text(&inner) })
            },
            None => None,
        }
    }
}

/// Mount `vol` at `point` ("/" replaces the main volume).
pub fn mount_volume<V>(t: &mut Vfs<V>, point: &str, vol: V)
    requires
        old(t)@.wf(),
        point@.len() > 0,
        point@[0] == '/',
    ensures
        final(t)@ == old(t)@.with_mount(point@, vol),
        final(t)@.wf(),
{
    let p: Vec<char> = to_chars(point);
    let ghost all = t@.mounts;
    proof {
        lemma_mounted(t@, point@, vol);
    }
    let mut old_mounts: Vec<Mount<V>> = Vec::new();
    std::mem::swap(&mut old_mounts, &mut t.mounts);
    let mut kept: Vec<Mount<V>> = Vec::new();
    while old_mounts.len() > 0
        invariant
            p@ == point@,
            old_mounts@.len() <= all.len(),
            table_of(old_mounts@) == all.skip(all.len() - old_mounts@.len()),
            table_of(kept@) == without(all.take(all.len() - old_mounts@.len()), point@),
        decreases old_mounts@.len(),
    {
        let ghost k = all.len() - old_mounts@.len();
        let ghost r0 = table_of(old_mounts@);
        let m: Mount<V> = old_mounts.remove(0);
        let ghost k0 = table_of(kept@);
        proof {
            assert(r0[0] == all[k]);
            assert(all.take(k + 1).drop_last() =~= all.take(k));
            assert(r0.skip(1) =~= all.skip(k + 1));
            assert(table_of(old_mounts@) =~= r0.skip(1));
        }
        if !same(&m.point, &p) {
            kept.push(m);
            proof {
                assert(table_of(kept@) =~= k0.push(all[k]));
            }
        }
    }
    proof {
        assert(all.take(all.len() as int) =~= all);
    }
    let ghost k0 = table_of(kept@);
    kept.push(Mount { point: p, vol });
    t.mounts = kept;
    t.generation = t.generation.wrapping_add(1);
    proof {
        assert(t@.mounts =~= k0.push((point@, vol)));
    }
}

/// Make a volume the main one, if it could be opened.
pub fn mount<V>(t: &mut Vfs<V>, opened: Result<V, FsError>) -> (r: Result<(), FsError>)
    requires
        old(t)@.wf(),
    ensures
        match opened {
            Ok(v) => r == Ok::<(), FsError>(()) && final(t)@ == old(t)@.with_mount(root(), v),
            Err(e) => r == Err::<(), FsError>(e) && final(t)@ == old(t)@,
        },
        final(t)@.wf(),
{
    match opened {
        Ok(v) => {
            proof {
                reveal_strlit("/");
                assert("/"@ =~= root());
            }
            mount_volume(t, "/", v);
            Ok(())
        },
        Err(e) => Err(e),
    }
}

/// Remove a mount and give its volume back (used when promoting a disk to
/// be the main volume).
pub fn take_mount<V>(t: &mut Vfs<V>, point: &str) -> (r: Option<V>)
    requires
        old(t)@.wf(),
    ensures
        match r {
            Some(v) => exists|i: int|
                0 <= i < old(t)@.mounts.len() && #[trigger] old(t)@.mounts[i] == (point@, v) && final(t)@ == (VfsState {
                    mounts: old(t)@.mounts.remove(i),
                    ..old(t)@
                }).touched(),
            None => !old(t)@.has_point(point@) && final(t)@ == old(t)@,
        },
        final(t)@.wf(),
{
    match t.position(&to_chars(point)) {
        Some(i) => {
            let ghost s = t@;
            t.generation = t.generation.wrapping_add(1);
            let m: Mount<V> = t.mounts.remove(i);
            proof {
                assert(t@.mounts =~= s.mounts.remove(i as int));
                assert(s.mounts[i as int] == (point@, m.vol));
                assert forall|a: int, b: int| 0 <= a < b < t@.mounts.len() implies (#[trigger] t@.mounts[a]).0 != (
                #[trigger] t@.mounts[b]).0 by {
                    let a0 = if a < i { a } else { a + 1 };
                    let b0 = if b < i { b } else { b + 1 };
                    assert(t@.mounts[a] == s.mounts[a0]);
                    assert(t@.mounts[b] == s.mounts[b0]);
                }
                assert forall|a: int| 0 <= a < t@.mounts.len() implies (#[trigger] t@.mounts[a]).0.len() > 0
                    && t@.mounts[a].0[0] == '/' by {
                    let a0 = if a < i { a } else { a + 1 };
                    assert(t@.mounts[a] == s.mounts[a0]);
                }
            }
            Some(m.vol)
        },
        None => None,
    }
}

pub fn is_mounted<V>(t: &Vfs<V>) -> (r: bool)
    ensures
        r == t@.has_point(root()),
{
    let slash: Vec<char> = vec!['/'];
    proof {
        assert(slash@ =~= root());
    }
    t.position(&slash).is_some()
}

pub fn generation<V>(t: &Vfs<V>) -> (r: u64)
    ensures
        r == t@.generation,
{
    t.generation
}

pub fn is_mount_point<V>(t: &Vfs<V>, path: &str) -> (r: bool)
    ensures
        r == t@.is_point(path@),
{
    let slash: Vec<char> = vec!['/'];
    proof {
        assert(slash@ =~= root());
    }
    let p: Vec<char> = normalize_chars(&slash, &to_chars(path));
    !same(&p, &slash) && t.position(&p).is_some()
}

// ---------------------------------------------------------------------
// Reading
// ---------------------------------------------------------------------

/// Where `stat` finds its answer.
pub enum Lookup {
    /// A mount point: the entry is made up.
    Virtual(DirEntry),
    /// Ask the volume.
    On(Place),
    /// There is no volume to ask.
    Failed(FsError),
}

pub fn stat<V>(t: &Vfs<V>, path: &str) -> (r: Lookup)
    ensures
        ({
            let p = normalized(root(), path@);
            match r {
                Lookup::Virtual(e) => t@.is_point(path@) && e@ == virtual_entry(base_name(p)),
                Lookup::On(place) => !t@.is_point(path@) && placed(t@, path@, place),
                Lookup::Failed(e) => !t@.is_point(path@) && t@.unserved(p) && e == FsError::Io,
            }
        }),
{
    if is_mount_point(t, path) {
        let slash: Vec<char> = vec!['/'];
        proof {
            assert(slash@ =~= root());
        }
        let p: Vec<char> = normalize_chars(&slash, &to_chars(path));
        let name: String = to_text(&file_name_chars(&p));
        return Lookup::Virtual(DirEntry::virtual_dir(name.as_str()));
    }
    match t.route(path) {
        Some(place) => Lookup::On(place),
        None => Lookup::Failed(FsError::Io),
    }
}

/// Whether an answer of `stat` says that there is something.
pub fn is_present(found: &Result<DirEntry, FsError>) -> (r: bool)
    ensures
        r == found is Ok,
{
    found.is_ok()
}

pub fn is_dir(found: &Result<DirEntry, FsError>) -> (r: bool)
    ensures
        r == match *found {
            Ok(e) => e.is_dir,
            Err(_) => false,
        },
{
    match found {
        Ok(e) => e.is_dir,
        Err(_) => false,
    }
}

/// The listing without entries of a certain name.
pub open spec fn hiding(s: Seq<EntryState>, name: Seq<char>) -> Seq<EntryState>
    decreases s.len(),
{
    if s.len() == 0 {
        Seq::empty()
    } else {
        let rest = hiding(s.drop_last(), name);
        if lower_all(s.last().name) == lower_all(name) { rest } else { rest.push(s.last()) }
    }
}

/// The listing of `/` with the mount points shown as folders, each in the
/// place of an entry of the same name.
pub open spec fn with_points<V>(s: Seq<EntryState>, m: Seq<(Seq<char>, V)>) -> Seq<EntryState>
    decreases m.len(),
{
    if m.len() == 0 {
        s
    } else {
        let rest = with_points(s, m.drop_last());
        let p = m.last().0;
        if p == root() { rest } else { hiding(rest, p.skip(1)).push(virtual_entry(p.skip(1))) }
    }
}

pub open spec fn listed<V>(t: VfsState<V>, path: Seq<char>, listing: Seq<EntryState>) -> Seq<EntryState> {
    sorted(if normalized(root(), path) == root() { with_points(listing, t.mounts) } else { listing })
}

/// Hiding a name leaves out every entry of that name, however it is
/// written, and no other.
pub proof fn lemma_hiding(s: Seq<EntryState>, name: Seq<char>, e: EntryState)
    ensures
        hiding(s, name).contains(e) <==> s.contains(e) && lower_all(e.name) != lower_all(name),
    decreases s.len(),
{
    let h = hiding(s, name);
    if s.len() == 0 {
        assert(!h.contains(e) && !s.contains(e));
    } else {
        let d = s.drop_last();
        let r = hiding(d, name);
        lemma_hiding(d, name, e);
        if h.contains(e) {
            let k = choose|k: int| 0 <= k < h.len() && h[k] == e;
            if k < r.len() {
                assert(r[k] == e);
                assert(r.contains(e));
                let j = choose|j: int| 0 <= j < d.len() && d[j] == e;
                assert(s[j] == e);
            } else {
                assert(s[s.len() - 1] == e);
            }
        }
        if s.contains(e) && lower_all(e.name) != lower_all(name) {
            let j = choose|j: int| 0 <= j < s.len() && s[j] == e;
            if j < d.len() {
                assert(d[j] == e);
                assert(r.contains(e));
                let k = choose|k: int| 0 <= k < r.len() && r[k] == e;
                assert(h[k] == e);
            } else {
                assert(h[h.len() - 1] == e);
            }
        }
    }
}

/// The listing of "/" shows each mount point as a folder, in place of what
/// the volume itself has under that name; all else is shown as it is.
pub proof fn lemma_points_listed<V>(s: Seq<EntryState>, m: Seq<(Seq<char>, V)>, e: EntryState)
    ensures
        (forall|k: int|
            0 <= k < m.len() && (#[trigger] m[k]).0 != root() ==> lower_all(m[k].0.skip(1)) != lower_all(e.name)) ==> (
        with_points(s, m).contains(e) <==> s.contains(e)),
        (exists|k: int|
            0 <= k < m.len() && (#[trigger] m[k]).0 != root() && lower_all(m[k].0.skip(1)) == lower_all(e.name))
            && with_points(s, m).contains(e) ==> exists|k: int|
            0 <= k < m.len() && (#[trigger] m[k]).0 != root() && e == virtual_entry(m[k].0.skip(1)),
    decreases m.len(),
{
    if m.len() > 0 {
        let d = m.drop_last();
        lemma_points_listed(s, d, e);
        let rest = with_points(s, d);
        let w = with_points(s, m);
        let p = m.last().0;
        assert forall|k: int| 0 <= k < d.len() implies #[trigger] d[k] == m[k] by {}
        if p != root() {
            let h = hiding(rest, p.skip(1));
            lemma_hiding(rest, p.skip(1), e);
            let v = virtual_entry(p.skip(1));
            assert(w == h.push(v));
            assert(w.contains(e) <==> h.contains(e) || e == v) by {
                if h.contains(e) {
                    let k = choose|k: int| 0 <= k < h.len() && h[k] == e;
                    assert(w[k] == e);
                }
                if e == v {
                    assert(w[w.len() - 1] == e);
                }
            }
            assert(m[m.len() - 1].0 == p);
            if lower_all(e.name) != lower_all(p.skip(1)) {
                assert(e != v);
            } else {
                assert(!h.contains(e));
            }
        }
        let last = m.len() - 1;
        if forall|k: int|
            0 <= k < m.len() && (#[trigger] m[k]).0 != root() ==> lower_all(m[k].0.skip(1)) != lower_all(e.name) {
            assert(m[last].0 == p);
            assert forall|k: int| 0 <= k < d.len() && (#[trigger] d[k]).0 != root() implies lower_all(d[k].0.skip(1))
                != lower_all(e.name) by {
                assert(m[k] == d[k]);
            }
        }
        if w.contains(e) && exists|k: int|
            0 <= k < m.len() && (#[trigger] m[k]).0 != root() && lower_all(m[k].0.skip(1)) == lower_all(e.name) {
            if p != root() && e == virtual_entry(p.skip(1)) {
                assert(m[last].0 == p);
            } else {
                let k = choose|k: int|
                    0 <= k < m.len() && (#[trigger] m[k]).0 != root() && lower_all(m[k].0.skip(1)) == lower_all(e.name);
                assert(rest.contains(e));
                assert(k < d.len());
                assert(d[k].0 != root());
                let j = choose|j: int|
                    0 <= j < d.len() && (#[trigger] d[j]).0 != root() && e == virtual_entry(d[j].0.skip(1));
                assert(m[j] == d[j]);
            }
        }
    }
}

/// The volume that was mounted last at a point is listed there.
pub proof fn lemma_last_point_listed<V>(s: Seq<EntryState>, m: Seq<(Seq<char>, V)>)
    requires
        m.len() > 0,
        m.last().0 != root(),
    ensures
        with_points(s, m).contains(virtual_entry(m.last().0.skip(1))),
{
    let w = with_points(s, m);
    assert(w[w.len() - 1] == virtual_entry(m.last().0.skip(1)));
}

/// Each change is told: the number of the mounts' state is another one then.
pub proof fn lemma_change_is_told<V>(s: VfsState<V>, point: Seq<char>, vol: V)
    ensures
        s.touched().generation != s.generation,
        s.touched().mounts == s.mounts,
        s.with_mount(point, vol).generation != s.generation,
{
}

fn hide_name(entries: Vec<DirEntry>, name: &[char]) -> (r: Vec<DirEntry>)
    ensures
        entries_of(r@) == hiding(entries_of(entries@), name@),
{
    let ghost all = entries_of(entries@);
    let low: Vec<char> = lowered(name);
    let mut rest: Vec<DirEntry> = entries;
    let mut out: Vec<DirEntry> = Vec::new();
    while rest.len() > 0
        invariant
            low@ == lower_all(name@),
            rest@.len() <= all.len(),
            entries_of(rest@) == all.skip(all.len() - rest@.len()),
            entries_of(out@) == hiding(all.take(all.len() - rest@.len()), name@),
        decreases rest@.len(),
    {
        let ghost k = all.len() - rest@.len();
        let ghost r0 = entries_of(rest@);
        let e: DirEntry = rest.remove(0);
        let ghost o0 = entries_of(out@);
        proof {
            assert(r0[0] == all[k]);
            assert(all.take(k + 1).drop_last() =~= all.take(k));
            assert(r0.skip(1) =~= all.skip(k + 1));
            assert(entries_of(rest@) =~= r0.skip(1));
        }
        if !same(&lowered(&to_chars(e.name.as_str())), &low) {
            out.push(e);
            proof {
                assert(entries_of(out@) =~= o0.push(all[k]));
            }
        }
    }
    proof {
        assert(all.take(all.len() as int) =~= all);
    }
    out
}

/// Directory listing sorted with folders first, then by name; `listing` is
/// what the volume holds there.
pub fn read_dir<V>(t: &Vfs<V>, path: &str, listing: Vec<DirEntry>) -> (r: Vec<DirEntry>)
    requires
        t@.wf(),
    ensures
        entries_of(r@) == listed(t@, path@, entries_of(listing@)),
{
    let slash: Vec<char> = vec!['/'];
    proof {
        assert(slash@ =~= root());
    }
    let p: Vec<char> = normalize_chars(&slash, &to_chars(path));
    let ghost l0 = entries_of(listing@);
    let mut entries: Vec<DirEntry> = listing;
    if same(&p, &slash) {
        let mut i: usize = 0;
        proof {
            assert(t@.mounts.take(0) =~= Seq::empty());
        }
        while i < t.mounts.len()
            invariant
                t@.wf(),
                slash@ == root(),
                i <= t.mounts@.len(),
                entries_of(entries@) == with_points(l0, t@.mounts.take(i as int)),
            decreases t.mounts@.len() - i,
        {
            let m: &Vec<char> = &t.mounts[i].point;
            proof {
                assert(t@.mounts[i as int].0 == m@);
                assert(t@.mounts.take(i + 1).drop_last() =~= t@.mounts.take(i as int));
            }
            if !same(m, &slash) {
                let name: Vec<char> = copy_range(m, 1, m.len());
                proof {
                    assert(name@ =~= m@.skip(1));
                }
                entries = hide_name(entries, &name);
                let ghost e0 = entries_of(entries@);
                let shown: String = to_text(&name);
                entries.push(DirEntry::virtual_dir(shown.as_str()));
                proof {
                    assert(entries_of(entries@) =~= e0.push(virtual_entry(name@)));
                }
            }
            i += 1;
        }
        proof {
            assert(t@.mounts.take(t@.mounts.len() as int) =~= t@.mounts);
        }
    }
    sort_entries(entries)
}

pub fn read_file<V>(t: &Vfs<V>, path: &str) -> (r: Result<Place, FsError>)
    ensures
        match r {
            Ok(place) => placed(t@, path@, place),
            Err(e) => t@.unserved(normalized(root(), path@)) && e == FsError::Io,
        },
{
    match t.route(path) {
        Some(place) => Ok(place),
        None => Err(FsError::Io),
    }
}

// ---------------------------------------------------------------------
// Modifying
// ---------------------------------------------------------------------

/// Whether `r` is where to carry out a change at `path`.
pub open spec fn sent<V>(s: VfsState<V>, path: Seq<char>, r: Result<Place, FsError>) -> bool {
    match r {
        Ok(place) => placed(s, path, place),
        Err(e) => s.unserved(normalized(root(), path)) && e == FsError::Io,
    }
}

fn modify<V>(t: &mut Vfs<V>, path: &str) -> (r: Result<Place, FsError>)
    ensures
        sent(old(t)@, path@, r),
        final(t)@ == old(t)@.touched(),
{
    let r: Result<Place, FsError> = read_file(t, path);
    t.touch();
    r
}

pub fn write_file<V>(t: &mut Vfs<V>, path: &str) -> (r: Result<Place, FsError>)
    ensures
        sent(old(t)@, path@, r),
        final(t)@ == old(t)@.touched(),
{
    modify(t, path)
}

pub fn create_file<V>(t: &mut Vfs<V>, path: &str) -> (r: Result<Place, FsError>)
    ensures
        sent(old(t)@, path@, r),
        final(t)@ == old(t)@.touched(),
{
    modify(t, path)
}

/// A mount point cannot be created again.
pub fn create_dir<V>(t: &mut Vfs<V>, path: &str) -> (r: Result<Place, FsError>)
    ensures
        if old(t)@.is_point(path@) {
            r == Err::<Place, FsError>(FsError::AlreadyExists) && final(t)@ == old(t)@
        } else {
            sent(old(t)@, path@, r) && final(t)@ == old(t)@.touched()
        },
{
    if is_mount_point(t, path) {
        return Err(FsError::AlreadyExists);
    }
    modify(t, path)
}

/// A mount point cannot be removed.
pub fn remove<V>(t: &mut Vfs<V>, path: &str) -> (r: Result<Place, FsError>)
    ensures
        if old(t)@.is_point(path@) {
            r == Err::<Place, FsError>(FsError::InvalidPath) && final(t)@ == old(t)@
        } else {
            sent(old(t)@, path@, r) && final(t)@ == old(t)@.touched()
        },
{
    if is_mount_point(t, path) {
        return Err(FsError::InvalidPath);
    }
    modify(t, path)
}

/// Neither a mount point nor `/` can be removed with all they hold.
pub fn remove_all<V>(t: &mut Vfs<V>, path: &str) -> (r: Result<Place, FsError>)
    ensures
        if old(t)@.is_point(path@) || normalized(root(), path@) == root() {
            r == Err::<Place, FsError>(FsError::InvalidPath) && final(t)@ == old(t)@
        } else {
            sent(old(t)@, path@, r) && final(t)@ == old(t)@.touched()
        },
{
    let slash: Vec<char> = vec!['/'];
    proof {
        assert(slash@ =~= root());
    }
    let p: Vec<char> = normalize_chars(&slash, &to_chars(path));
    if is_mount_point(t, path) || same(&p, &slash) {
        return Err(FsError::InvalidPath);
    }
    modify(t, path)
}

/// How a file or folder is to be renamed.
pub enum Renaming {
    Failed(FsError),
    /// From one disk to another: copy, then go on as `after_copy` says.
    AcrossDisks,
    /// On one volume.
    Within { index: usize, from: String, to: String },
}

/// How a file or folder is to be removed.
pub enum Discard {
    /// It stays.
    Failed(FsError),
    /// Remove the folder at this place, with all that it holds.
    RemoveAll(Place),
    /// Remove the file at this place.
    Remove(Place),
}

/// What is to be done about a file or folder that goes, and the mounts then.
pub open spec fn discarded<V>(s: VfsState<V>, path: Seq<char>, is_dir: bool, r: Discard, t: VfsState<V>) -> bool {
    let refused = s.is_point(path) || is_dir && normalized(root(), path) == root();
    match r {
        Discard::Failed(e) => if refused {
            e == FsError::InvalidPath && t == s
        } else {
            sent(s, path, Err::<Place, FsError>(e)) && t == s.touched()
        },
        Discard::RemoveAll(p) => !refused && is_dir && sent(s, path, Ok::<Place, FsError>(p)) && t == s.touched(),
        Discard::Remove(p) => !refused && !is_dir && sent(s, path, Ok::<Place, FsError>(p)) && t == s.touched(),
    }
}

/// Remove a file, or a folder with all that it holds; `is_dir` says which of
/// them it is.
pub fn discard<V>(t: &mut Vfs<V>, path: &str, is_dir: bool) -> (r: Discard)
    ensures
        discarded(old(t)@, path@, is_dir, r, final(t)@),
{
    if is_dir {
        match remove_all(t, path) {
            Ok(p) => Discard::RemoveAll(p),
            Err(e) => Discard::Failed(e),
        }
    } else {
        match remove(t, path) {
            Ok(p) => Discard::Remove(p),
            Err(e) => Discard::Failed(e),
        }
    }
}

/// The end of a rename between disks: where the copy failed, its error and
/// the source as it was; else the removal of the source.
pub fn after_copy<V>(t: &mut Vfs<V>, from: &str, copied: Result<(), FsError>, is_dir: bool) -> (r: Discard)
    ensures
        match copied {
            Err(e) => r == Discard::Failed(e) && final(t)@ == old(t)@,
            Ok(_) => discarded(old(t)@, from@, is_dir, r, final(t)@),
        },
{
    match copied {
        Err(e) => Discard::Failed(e),
        Ok(_) => discard(t, from, is_dir),
    }
}

/// The point of the mount that a normalized path belongs to; "/" if it
/// belongs to none.
pub open spec fn point_for<V>(s: VfsState<V>, p: Seq<char>, point: Seq<char>) -> bool {
    ||| exists|i: int| #[trigger] s.serves(i, p) && s.mounts[i].0 == point
    ||| s.unserved(p) && point == root()
}

fn mount_of<V>(t: &Vfs<V>, path: &str) -> (r: Vec<char>)
    ensures
        point_for(t@, normalized(root(), path@), r@),
{
    match t.route(path) {
        Some(place) => {
            proof {
                assert(t@.serves(place.index as int, normalized(root(), path@)));
            }
            crate::text::copy(&t.mounts[place.index].point)
        },
        None => {
            let slash: Vec<char> = vec!['/'];
            proof {
                assert(slash@ =~= root());
            }
            slash
        },
    }
}

/// The path on the volume at `point`, cut off behind the point.
pub open spec fn cut_path(point: Seq<char>, p: Seq<char>) -> Seq<char> {
    if point == root() { p } else { p.skip(point.len() as int) }
}

pub fn rename<V>(t: &mut Vfs<V>, from: &str, to: &str) -> (r: Renaming)
    requires
        old(t)@.wf(),
    ensures
        ({
            let s = old(t)@;
            let f = normalized(root(), from@);
            let d = normalized(root(), to@);
            match r {
                Renaming::Failed(e) => if s.is_point(from@) {
                    e == FsError::InvalidPath && final(t)@ == s
                } else {
                    e == FsError::Io && s.unserved(f) && point_for(s, d, root()) && final(t)@ == s.touched()
                },
                Renaming::AcrossDisks => !s.is_point(from@) && final(t)@ == s && exists|a: Seq<char>, b: Seq<char>|
                    #[trigger] point_for(s, f, a) && #[trigger] point_for(s, d, b) && a != b,
                Renaming::Within { index, from: a, to: b } => {
                    &&& !s.is_point(from@)
                    &&& s.serves(index as int, f)
                    &&& a@ == inner_path(s.mounts[index as int].0, f)
                    &&& point_for(s, d, s.mounts[index as int].0)
                    &&& b@ == cut_path(s.mounts[index as int].0, d)
                    &&& final(t)@ == s.touched()
                },
            }
        }),
{
    if is_mount_point(t, from) {
        return Renaming::Failed(FsError::InvalidPath);
    }
    let a: Vec<char> = mount_of(t, from);
    let b: Vec<char> = mount_of(t, to);
    let slash: Vec<char> = vec!['/'];
    proof {
        assert(slash@ =~= root());
    }
    if !same(&a, &b) {
        return Renaming::AcrossDisks;
    }
    let p: Vec<char> = normalize_chars(&slash, &to_chars(to));
    let target: Vec<char> = if same(&b, &slash) { crate::text::copy(&p) } else if b.len() <= p.len() {
        copy_range(&p, b.len(), p.len())
    } else {
        Vec::new()
    };
    let ghost s = t@;
    let ghost f = normalized(root(), from@);
    proof {
        if b@ != root() {
            let i = choose|i: int| #[trigger] s.serves(i, p@) && s.mounts[i].0 == b@;
            assert(covers(b@, p@));
            assert(b@.len() <= p@.len()) by {
                if b@ != p@ {
                    assert((b@ + seq!['/']).len() == b@.len() + 1);
                }
            }
            assert(target@ =~= p@.skip(b@.len() as int));
        }
    }
    match modify(t, from) {
        Ok(place) => {
            proof {
                // The volume found is the one whose point was compared.
                let k = place.index as int;
                assert(s.serves(k, f));
                if s.unserved(f) {
                    assert(covers(s.mounts[k].0, f));
                }
                let i = choose|i: int| #[trigger] s.serves(i, f) && s.mounts[i].0 == a@;
                lemma_serves_unique(s, f, i, k);
            }
            Renaming::Within { index: place.index, from: place.inner, to: to_text(&target) }
        },
        Err(e) => {
            proof {
                if exists|i: int| #[trigger] s.serves(i, f) && s.mounts[i].0 == a@ {
                    let i = choose|i: int| #[trigger] s.serves(i, f) && s.mounts[i].0 == a@;
                    assert(covers(s.mounts[i].0, f));
                }
            }
            Renaming::Failed(e)
        },
    }
}

} // verus!
