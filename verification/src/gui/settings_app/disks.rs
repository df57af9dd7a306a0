//! What the Storage page says of volumes and disks, and which of them it
//! offers to set up.

use crate::arith::max;
use crate::fs::path::{size_chars, size_text};
use crate::text::{is_str, push_all, push_str, to_chars};
use vstd::prelude::*;

verus! {

/// A mounted volume.
pub struct Volume {
    pub point: Vec<char>,
    pub label: Vec<char>,
    /// What it is kept on.
    pub backend: Vec<char>,
    pub persistent: bool,
    pub total: u64,
    pub free: u64,
}

/// A disk that is not formatted.
pub struct Blank {
    pub name: Vec<char>,
    pub model: Vec<char>,
    pub bytes: u64,
}

impl Volume {
    pub open spec fn is_root(self) -> bool {
        self.point@ == "/"@
    }

    /// Whether it can become the main disk.
    pub open spec fn offered(self, root_persistent: bool) -> bool {
        !self.is_root() && self.persistent && !root_persistent
    }

    pub open spec fn size(self) -> int {
        max(self.total as int, 1)
    }

    pub open spec fn used(self) -> int {
        self.size() - self.free
    }

    /// No more is free than there is.
    pub open spec fn wf(self) -> bool {
        self.free <= self.size()
    }

    pub open spec fn spec_title(self) -> Seq<char> {
        if self.is_root() {
            "MayOS Disk"@
        } else {
            self.point@ + "  \u{2014}  "@ + self.label@
        }
    }

    pub open spec fn spec_kind(self) -> Seq<char> {
        if self.persistent {
            self.backend@
        } else {
            self.backend@ + " \u{2014} set up a disk below to keep your files"@
        }
    }

    pub open spec fn spec_use(self) -> Seq<char> {
        size_text(self.used()) + " used \u{00b7} "@ + size_text(self.free as int) + " free \u{00b7} "@ + size_text(
            self.size(),
        ) + " total"@
    }

    pub open spec fn description(self) -> Seq<char> {
        self.point@ + " (\u{201c}"@ + self.label@ + "\u{201d})"@
    }

    pub fn root(&self) -> (r: bool)
        ensures
            r == self.is_root(),
    {
        is_str(&self.point, "/")
    }

    pub fn can_be_main(&self, root_persistent: bool) -> (r: bool)
        ensures
            r == self.offered(root_persistent),
    {
        !self.root() && self.persistent && !root_persistent
    }

    pub fn title(&self) -> (r: Vec<char>)
        ensures
            r@ == self.spec_title(),
    {
        if self.root() {
            return to_chars("MayOS Disk");
        }
        let mut out: Vec<char> = Vec::new();
        push_all(&mut out, &self.point);
        push_str(&mut out, "  \u{2014}  ");
        push_all(&mut out, &self.label);
        assert(out@ =~= self.spec_title());
        out
    }

    pub fn kind(&self) -> (r: Vec<char>)
        ensures
            r@ == self.spec_kind(),
    {
        let mut out: Vec<char> = Vec::new();
        push_all(&mut out, &self.backend);
        if !self.persistent {
            push_str(&mut out, " \u{2014} set up a disk below to keep your files");
        }
        assert(out@ =~= self.spec_kind());
        out
    }

    /// Bytes used, of how many.
    pub fn usage(&self) -> (r: (u64, u64))
        requires
            self.wf(),
        ensures
            r.0 == self.used(),
            r.1 == self.size(),
    {
        let total: u64 = if self.total > 1 { self.total } else { 1 };
        (total - self.free, total)
    }

    pub fn use_line(&self) -> (r: Vec<char>)
        requires
            self.wf(),
        ensures
            r@ == self.spec_use(),
    {
        let (used, total) = self.usage();
        let mut out: Vec<char> = Vec::new();
        push_all(&mut out, &size_chars(used));
        push_str(&mut out, " used \u{00b7} ");
        push_all(&mut out, &size_chars(self.free));
        push_str(&mut out, " free \u{00b7} ");
        push_all(&mut out, &size_chars(total));
        push_str(&mut out, " total");
        assert(out@ =~= self.spec_use());
        out
    }
}

impl Blank {
    pub open spec fn spec_title(self) -> Seq<char> {
        self.name@ + " \u{2014} "@ + self.model@
    }

    pub open spec fn spec_size(self) -> Seq<char> {
        size_text(self.bytes as int) + " \u{00b7} not formatted"@
    }

    pub open spec fn description(self) -> Seq<char> {
        self.name@ + " ("@ + self.model@ + ", "@ + size_text(self.bytes as int) + ")"@
    }

    pub fn title(&self) -> (r: Vec<char>)
        ensures
            r@ == self.spec_title(),
    {
        let mut out: Vec<char> = Vec::new();
        push_all(&mut out, &self.name);
        push_str(&mut out, " \u{2014} ");
        push_all(&mut out, &self.model);
        assert(out@ =~= self.spec_title());
        out
    }

    pub fn size_line(&self) -> (r: Vec<char>)
        ensures
            r@ == self.spec_size(),
    {
        let mut out: Vec<char> = size_chars(self.bytes);
        push_str(&mut out, " \u{00b7} not formatted");
        out
    }
}

/// How many of the first `n` volumes are offered.
pub open spec fn offered(v: Seq<Volume>, root_persistent: bool, n: int) -> int
    decreases n,
{
    if n <= 0 {
        0
    } else {
        offered(v, root_persistent, n - 1) + if v[n - 1].offered(root_persistent) { 1int } else { 0 }
    }
}

/// The offers for the first `n` volumes: what they are, and that nothing is
/// erased.
pub open spec fn volume_offers(v: Seq<Volume>, root_persistent: bool, n: int) -> Seq<(Seq<char>, bool)>
    decreases n,
{
    if n <= 0 {
        Seq::empty()
    } else {
        let rest = volume_offers(v, root_persistent, n - 1);
        if v[n - 1].offered(root_persistent) {
            rest.push((v[n - 1].description(), false))
        } else {
            rest
        }
    }
}

/// The offers of the Storage page, in the order of their buttons.
pub open spec fn offers(v: Seq<Volume>, b: Seq<Blank>, root_persistent: bool) -> Seq<(Seq<char>, bool)> {
    volume_offers(v, root_persistent, v.len() as int) + Seq::new(b.len(), |i: int| (b[i].description(), true))
}

pub open spec fn offers_of(t: Seq<(Vec<char>, bool)>) -> Seq<(Seq<char>, bool)> {
    Seq::new(t.len(), |i: int| (t[i].0@, t[i].1))
}

/// There is an offer for every volume that can be the main disk and for every
/// disk that is not formatted; only the latter are erased.
pub proof fn lemma_offers(v: Seq<Volume>, b: Seq<Blank>, root_persistent: bool)
    ensures
        offers(v, b, root_persistent).len() == offered(v, root_persistent, v.len() as int) + b.len(),
        forall|i: int|
            0 <= i < offers(v, b, root_persistent).len() ==> (#[trigger] offers(v, b, root_persistent)[i].1 <==> i
                >= offered(v, root_persistent, v.len() as int)),
{
    lemma_volume_offers(v, root_persistent, v.len() as int);
}

proof fn lemma_volume_offers(v: Seq<Volume>, root_persistent: bool, n: int)
    requires
        0 <= n <= v.len(),
    ensures
        volume_offers(v, root_persistent, n).len() == offered(v, root_persistent, n),
        0 <= offered(v, root_persistent, n) <= n,
        forall|i: int|
            0 <= i < volume_offers(v, root_persistent, n).len() ==> !(#[trigger] volume_offers(
                v,
                root_persistent,
                n,
            )[i].1),
    decreases n,
{
    if n > 0 {
        lemma_volume_offers(v, root_persistent, n - 1);
    }
}

pub fn disk_targets(v: &[Volume], b: &[Blank], root_persistent: bool) -> (r: Vec<(Vec<char>, bool)>)
    ensures
        offers_of(r@) == offers(v@, b@, root_persistent),
{
    let mut out: Vec<(Vec<char>, bool)> = Vec::new();
    assert(offers_of(out@) =~= volume_offers(v@, root_persistent, 0));
    let mut i: usize = 0;
    while i < v.len()
        invariant
            i <= v.len(),
            offers_of(out@) == volume_offers(v@, root_persistent, i as int),
        decreases v.len() - i,
    {
        if v[i].can_be_main(root_persistent) {
            let mut t: Vec<char> = Vec::new();
            push_all(&mut t, &v[i].point);
            push_str(&mut t, " (\u{201c}");
            push_all(&mut t, &v[i].label);
            push_str(&mut t, "\u{201d})");
            let ghost before = out@;
            assert(t@ =~= v@[i as int].description());
            out.push((t, false));
            assert(offers_of(out@) =~= offers_of(before).push((v@[i as int].description(), false)));
        }
        i = i + 1;
    }
    let ghost first = offers_of(out@);
    let mut k: usize = 0;
    assert(offers_of(out@) =~= first + Seq::new(0, |i: int| (b@[i].description(), true)));
    while k < b.len()
        invariant
            k <= b.len(),
            offers_of(out@) == first + Seq::new(k as nat, |i: int| (b@[i].description(), true)),
        decreases b.len() - k,
    {
        let mut t: Vec<char> = Vec::new();
        push_all(&mut t, &b[k].name);
        push_str(&mut t, " (");
        push_all(&mut t, &b[k].model);
        push_str(&mut t, ", ");
        push_all(&mut t, &size_chars(b[k].bytes));
        push_str(&mut t, ")");
        let ghost before = out@;
        assert(t@ =~= b@[k as int].description());
        out.push((t, true));
        k = k + 1;
        proof {
            assert(offers_of(out@) =~= offers_of(before).push((b@[k - 1].description(), true)));
            assert(offers_of(out@) =~= first + Seq::new(k as nat, |i: int| (b@[i].description(), true)));
        }
    }
    out
}

} // verus!
