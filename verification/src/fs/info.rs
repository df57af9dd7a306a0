//! What is known of the mounted volumes.

use super::entry::{is_before, text_before};
use super::vfs::{lemma_mounted, lemma_without, root, Vfs, VfsState};
use crate::text::{is_str, to_chars, to_text};
use vstd::prelude::*;

verus! {

/// How full a volume is.
#[derive(Clone, Copy, Debug, PartialEq, Eq, Structural)]
pub struct FsStats {
    pub total_bytes: u64,
    pub free_bytes: u64,
    pub cluster_size: u32,
}

/// The block devices a volume can live on, with their sizes in sectors.
#[derive(Clone, Copy, Debug, PartialEq, Eq, Structural)]
pub enum Disk {
    Virtio(u64),
    Ram(u64),
    Ahci(u64),
    Ide(u64),
}

impl Disk {
    pub open spec fn spec_describe(self) -> Seq<char> {
        match self {
            Disk::Virtio(_) => "virtio disk"@,
            Disk::Ram(_) => "RAM disk (changes are lost at power off)"@,
            Disk::Ahci(_) => "SATA disk"@,
            Disk::Ide(_) => "IDE disk"@,
        }
    }

    pub open spec fn spec_sectors(self) -> u64 {
        match self {
            Disk::Virtio(n) => n,
            Disk::Ram(n) => n,
            Disk::Ahci(n) => n,
            Disk::Ide(n) => n,
        }
    }

    pub fn persistent(&self) -> (r: bool)
        ensures
            r == !(self is Ram),
    {
        !matches!(self, Disk::Ram(_))
    }

    pub fn describe(&self) -> (r: &'static str)
        ensures
            r@ == self.spec_describe(),
    {
        match self {
            Disk::Virtio(_) => "virtio disk",
            Disk::Ram(_) => "RAM disk (changes are lost at power off)",
            Disk::Ahci(_) => "SATA disk",
            Disk::Ide(_) => "IDE disk",
        }
    }

    pub fn sectors(&self) -> (r: u64)
        ensures
            r == self.spec_sectors(),
    {
        match self {
            Disk::Virtio(n) => *n,
            Disk::Ram(n) => *n,
            Disk::Ahci(n) => *n,
            Disk::Ide(n) => *n,
        }
    }
}

/// What is known of a volume.
pub struct Volume {
    pub disk: Disk,
    pub label: Vec<char>,
    pub stats: FsStats,
}

pub struct MountInfo {
    pub point: String,
    pub label: String,
    pub backend: &'static str,
    pub persistent: bool,
    pub stats: FsStats,
}

#[verifier::ext_equal]
pub struct InfoState {
    pub point: Seq<char>,
    pub label: Seq<char>,
    pub backend: Seq<char>,
    pub persistent: bool,
    pub stats: FsStats,
}

impl View for MountInfo {
    type V = InfoState;

    open spec fn view(&self) -> InfoState {
        InfoState {
            point: self.point@,
            label: self.label@,
            backend: self.backend@,
            persistent: self.persistent,
            stats: self.stats,
        }
    }
}

pub open spec fn infos_of(m: Seq<MountInfo>) -> Seq<InfoState> {
    Seq::new(m.len(), |i: int| m[i]@)
}

/// What there is to say of a mount.
pub open spec fn info_on(m: (Seq<char>, Volume)) -> InfoState {
    InfoState {
        point: m.0,
        label: m.1.label@,
        backend: m.1.disk.spec_describe(),
        persistent: !(m.1.disk is Ram),
        stats: m.1.stats,
    }
}

pub open spec fn infos_on(m: Seq<(Seq<char>, Volume)>) -> Seq<InfoState> {
    Seq::new(m.len(), |i: int| info_on(m[i]))
}

/// Where a volume of this name is in the order of points: behind all that
/// do not come after it.
pub open spec fn point_rank(m: Seq<InfoState>, p: Seq<char>) -> int
    decreases m.len(),
{
    if m.len() == 0 {
        0
    } else if text_before(p, m.last().point) {
        point_rank(m.drop_last(), p)
    } else {
        m.len() as int
    }
}

/// The volumes in the order of their mount points.
pub open spec fn by_point(m: Seq<InfoState>) -> Seq<InfoState>
    decreases m.len(),
{
    if m.len() == 0 {
        Seq::empty()
    } else {
        let b = by_point(m.drop_last());
        b.insert(point_rank(b, m.last().point), m.last())
    }
}

/// All mounted volumes, by mount point.
pub fn mounts(t: &Vfs<Volume>) -> (r: Vec<MountInfo>)
    ensures
        infos_of(r@) == by_point(infos_on(t@.mounts)),
{
    let ghost all = infos_on(t@.mounts);
    let mut out: Vec<MountInfo> = Vec::new();
    let mut i: usize = 0;
    proof {
        assert(infos_of(out@) =~= by_point(all.take(0)));
    }
    while i < t.mounts.len()
        invariant
            i <= t.mounts@.len(),
            all == infos_on(t@.mounts),
            infos_of(out@) == by_point(all.take(i as int)),
        decreases t.mounts@.len() - i,
    {
        let p: &Vec<char> = &t.mounts[i].point;
        let v: &Volume = &t.mounts[i].vol;
        let e = MountInfo {
            point: to_text(p),
            label: to_text(&v.label),
            backend: v.disk.describe(),
            persistent: v.disk.persistent(),
            stats: v.stats,
        };
        let ghost e0 = e@;
        let ghost o0 = infos_of(out@);
        let mut at: usize = out.len();
        proof {
            assert(e@ =~= all[i as int]);
            assert(all.take(i + 1).drop_last() =~= all.take(i as int));
            assert(o0.take(at as int) =~= o0);
        }
        while at > 0 && is_before(p, &to_chars(out[at - 1].point.as_str()))
            invariant
                at <= out@.len(),
                o0 == infos_of(out@),
                point_rank(o0, p@) == point_rank(o0.take(at as int), p@),
            decreases at,
        {
            at -= 1;
            proof {
                assert(o0.take(at + 1).drop_last() =~= o0.take(at as int));
            }
        }
        proof {
            if at > 0 {
                assert(o0.take(at as int).last() == out@[at - 1]@);
            }
            assert(point_rank(o0, p@) == at);
        }
        out.insert(at, e);
        proof {
            assert(infos_of(out@) =~= o0.insert(at as int, e0));
        }
        i += 1;
    }
    proof {
        assert(all.take(all.len() as int) =~= all);
    }
    out
}

/// The first information on `/`, if there is any.
pub open spec fn main_info(m: Seq<InfoState>) -> Option<InfoState>
    decreases m.len(),
{
    if m.len() == 0 {
        None
    } else if m[0].point == root() {
        Some(m[0])
    } else {
        main_info(m.skip(1))
    }
}

fn find_main(m: &[MountInfo]) -> (r: Option<&MountInfo>)
    ensures
        match r {
            Some(x) => main_info(infos_of(m@)) == Some(x@),
            None => main_info(infos_of(m@)) is None,
        },
{
    let ghost all = infos_of(m@);
    let mut i: usize = 0;
    proof {
        assert(all.skip(0) =~= all);
        reveal_strlit("/");
        assert("/"@ =~= root());
    }
    while i < m.len()
        invariant
            i <= m@.len(),
            "/"@ == root(),
            all == infos_of(m@),
            main_info(all) == main_info(all.skip(i as int)),
        decreases m@.len() - i,
    {
        proof {
            assert(all.skip(i as int).skip(1) =~= all.skip(i + 1));
            assert(all.skip(i as int)[0] == m@[i as int]@);
        }
        if is_str(&to_chars(m[i].point.as_str()), "/") {
            return Some(&m[i]);
        }
        i += 1;
    }
    None
}

/// What the table says of `/`.
pub open spec fn main_volume(s: VfsState<Volume>) -> Option<InfoState> {
    main_info(by_point(infos_on(s.mounts)))
}

pub open spec fn backend_of(s: VfsState<Volume>) -> Seq<char> {
    match main_volume(s) {
        Some(x) => x.backend,
        None => "none"@,
    }
}

/// Human-readable description of where `/` lives.
pub fn backend(t: &Vfs<Volume>) -> (r: &'static str)
    ensures
        r@ == backend_of(t@),
{
    let m: Vec<MountInfo> = mounts(t);
    match find_main(&m) {
        Some(x) => x.backend,
        None => "none",
    }
}

pub fn root_is_persistent(t: &Vfs<Volume>) -> (r: bool)
    ensures
        r == match main_volume(t@) {
            Some(x) => x.persistent,
            None => false,
        },
{
    let m: Vec<MountInfo> = mounts(t);
    match find_main(&m) {
        Some(x) => x.persistent,
        None => false,
    }
}

proof fn lemma_rank(m: Seq<InfoState>, p: Seq<char>)
    ensures
        0 <= point_rank(m, p) <= m.len(),
    decreases m.len(),
{
    if m.len() > 0 {
        lemma_rank(m.drop_last(), p);
    }
}

/// Ordering by mount point loses nothing and adds nothing.
proof fn lemma_by_point(m: Seq<InfoState>, e: InfoState)
    ensures
        by_point(m).contains(e) == m.contains(e),
    decreases m.len(),
{
    if m.len() > 0 {
        let d = m.drop_last();
        let b = by_point(d);
        let r = point_rank(b, m.last().point);
        lemma_by_point(d, e);
        lemma_rank(b, m.last().point);
        let n = b.insert(r, m.last());
        if m.contains(e) {
            let i = choose|i: int| 0 <= i < m.len() && m[i] == e;
            if i < d.len() {
                assert(d[i] == e);
                let j = choose|j: int| 0 <= j < b.len() && b[j] == e;
                assert(n[if j < r { j } else { j + 1 }] == e);
            } else {
                assert(n[r] == e);
            }
        }
        if n.contains(e) {
            let i = choose|i: int| 0 <= i < n.len() && n[i] == e;
            if i == r {
                assert(m[m.len() - 1] == e);
            } else {
                assert(b[if i < r { i } else { i - 1 }] == e);
                let j = choose|j: int| 0 <= j < d.len() && d[j] == e;
                assert(m[j] == e);
            }
        }
    }
}

proof fn lemma_main(m: Seq<InfoState>)
    ensures
        main_info(m) matches Some(e) ==> m.contains(e) && e.point == root(),
        main_info(m) is None ==> forall|i: int| 0 <= i < m.len() ==> (#[trigger] m[i]).point != root(),
    decreases m.len(),
{
    if m.len() > 0 && m[0].point != root() {
        let t = m.skip(1);
        lemma_main(t);
        match main_info(t) {
            Some(e) => {
                let i = choose|i: int| 0 <= i < t.len() && t[i] == e;
                assert(m[i + 1] == e);
            },
            None => {
                assert forall|i: int| 0 <= i < m.len() implies (#[trigger] m[i]).point != root() by {
                    if i > 0 {
                        assert(t[i - 1] == m[i]);
                    }
                }
            },
        }
    } else if m.len() > 0 {
        assert(m.contains(m[0]));
    }
}

/// What is said of `/` is what there is to say of the volume that is mounted
/// there, whatever else is mounted; and nothing where none is.
pub proof fn lemma_main_volume(s: VfsState<Volume>)
    requires
        s.wf(),
    ensures
        forall|i: int|
            0 <= i < s.mounts.len() && (#[trigger] s.mounts[i]).0 == root() ==> main_volume(s) == Some(
                info_on(s.mounts[i]),
            ),
        !s.has_point(root()) ==> main_volume(s) is None && backend_of(s) == "none"@,
{
    let all = infos_on(s.mounts);
    let b = by_point(all);
    lemma_main(b);
    match main_info(b) {
        Some(e) => {
            lemma_by_point(all, e);
            let j = choose|j: int| 0 <= j < all.len() && all[j] == e;
            assert(s.mounts[j].0 == root());
            assert forall|i: int| 0 <= i < s.mounts.len() && (#[trigger] s.mounts[i]).0 == root() implies main_volume(s)
                == Some(info_on(s.mounts[i])) by {
                if i < j {
                    assert(s.mounts[i].0 != s.mounts[j].0);
                } else if j < i {
                    assert(s.mounts[j].0 != s.mounts[i].0);
                }
            }
        },
        None => {
            assert forall|i: int| 0 <= i < s.mounts.len() implies (#[trigger] s.mounts[i]).0 != root() by {
                let e = all[i];
                assert(all.contains(e));
                lemma_by_point(all, e);
                let j = choose|j: int| 0 <= j < b.len() && b[j] == e;
                assert(b[j].point != root());
            }
        },
    }
}

/// Once a volume is mounted as the main one, `backend` describes its disk,
/// and goes on to do so while other volumes are mounted and taken away.
pub proof fn lemma_backend(s: VfsState<Volume>, v: Volume, other: Seq<char>, w: Volume, k: int)
    requires
        s.wf(),
        other.len() > 0,
        other[0] == '/',
        other != root(),
    ensures
        backend_of(s.with_mount(root(), v)) == v.disk.spec_describe(),
        backend_of(s.with_mount(other, w)) == backend_of(s),
        0 <= k < s.mounts.len() && s.mounts[k].0 != root() ==> backend_of(
            VfsState { mounts: s.mounts.remove(k), ..s }.touched(),
        ) == backend_of(s),
{
    lemma_main_volume(s);
    let a = s.with_mount(root(), v);
    lemma_mounted(s, root(), v);
    lemma_main_volume(a);
    assert(a.mounts.last() == (root(), v));
    assert(a.mounts[a.mounts.len() - 1].0 == root());
    let b = s.with_mount(other, w);
    lemma_mounted(s, other, w);
    lemma_main_volume(b);
    lemma_without(s.mounts, other);
    lemma_same_main(s, b);
    if 0 <= k < s.mounts.len() && s.mounts[k].0 != root() {
        let c = VfsState { mounts: s.mounts.remove(k), ..s }.touched();
        assert forall|i: int| 0 <= i < c.mounts.len() implies (#[trigger] c.mounts[i]) == s.mounts[if i < k {
            i
        } else {
            i + 1
        }] by {}
        assert(c.wf());
        assert forall|i: int| 0 <= i < s.mounts.len() && (#[trigger] s.mounts[i]).0 == root() implies c.mounts.contains(
            s.mounts[i],
        ) by {
            assert(c.mounts[if i < k { i } else { i - 1 }] == s.mounts[i]);
        }
        lemma_same_main(s, c);
    }
}

/// Two tables with the same main volume, or both without one.
proof fn lemma_same_main(s: VfsState<Volume>, t: VfsState<Volume>)
    requires
        s.wf(),
        t.wf(),
        forall|i: int|
            0 <= i < s.mounts.len() && (#[trigger] s.mounts[i]).0 == root() ==> t.mounts.contains(s.mounts[i]),
        forall|i: int|
            0 <= i < t.mounts.len() && (#[trigger] t.mounts[i]).0 == root() ==> s.mounts.contains(t.mounts[i]),
    ensures
        backend_of(s) == backend_of(t),
{
    lemma_main_volume(s);
    lemma_main_volume(t);
    if s.has_point(root()) {
        let i = choose|i: int| 0 <= i < s.mounts.len() && (#[trigger] s.mounts[i]).0 == root();
        let j = choose|j: int| 0 <= j < t.mounts.len() && t.mounts[j] == s.mounts[i];
        assert(t.mounts[j].0 == root());
    } else if t.has_point(root()) {
        let j = choose|j: int| 0 <= j < t.mounts.len() && (#[trigger] t.mounts[j]).0 == root();
        let i = choose|i: int| 0 <= i < s.mounts.len() && s.mounts[i] == t.mounts[j];
        assert(s.mounts[i].0 == root());
    }
}

} // verus!
