//! virtio 1.x over PCI ("modern" transport) with split virtqueues.
//!
//! Drivers use polling: requests are submitted and the used ring is looked
//! at until the device answers.

use vstd::prelude::*;

verus! {

pub const VENDOR: u16 = 0x1af4;
pub const DEVICE_BLOCK: u16 = 0x1042;
/// Transitional (legacy + modern) block device ID.
pub const DEVICE_BLOCK_TRANSITIONAL: u16 = 0x1001;
pub const DEVICE_GPU: u16 = 0x1050;
pub const DEVICE_INPUT: u16 = 0x1052;

pub const STATUS_ACK: u8 = 1;
pub const STATUS_DRIVER: u8 = 2;
pub const STATUS_DRIVER_OK: u8 = 4;
pub const STATUS_FEATURES_OK: u8 = 8;
pub const STATUS_FAILED: u8 = 128;

pub const F_VERSION_1: u64 = 0x1_0000_0000;

pub const DESC_F_NEXT: u16 = 1;
pub const DESC_F_WRITE: u16 = 2;

// ---------------------------------------------------------------------
// Transport
// ---------------------------------------------------------------------

/// One vendor capability of a device: what it describes, and the part of a
/// base address register's memory that holds it.
#[derive(Clone, Copy, Debug, PartialEq, Eq, Structural)]
pub struct Capability {
    pub kind: u8,
    /// Where the base address register points; zero if nowhere.
    pub base: u64,
    pub offset: u32,
    pub length: u32,
    /// The notification multiplier, where it has one.
    pub multiplier: u32,
}

/// The capabilities that a device is driven by.
#[derive(Clone, Copy, Debug, PartialEq, Eq, Structural)]
pub struct Transport {
    pub common: usize,
    pub notify: usize,
    pub notify_mult: u32,
    pub device_cfg: Option<usize>,
}

/// The last of the first `n` capabilities that has memory and is of this
/// kind.
pub open spec fn last_of(caps: Seq<Capability>, kind: u8, n: int) -> Option<usize>
    decreases n,
{
    if n <= 0 {
        None
    } else if caps[n - 1].base != 0 && caps[n - 1].kind == kind {
        Some((n - 1) as usize)
    } else {
        last_of(caps, kind, n - 1)
    }
}

/// What a device is driven by; nothing for one without the common or the
/// notification part.
pub open spec fn transport_of(caps: Seq<Capability>) -> Option<Transport> {
    let n = caps.len() as int;
    match (last_of(caps, 1, n), last_of(caps, 2, n)) {
        (Some(common), Some(notify)) => Some(
            Transport {
                common,
                notify,
                notify_mult: caps[notify as int].multiplier,
                device_cfg: last_of(caps, 4, n),
            },
        ),
        _ => None,
    }
}

/// The features that are accepted of those offered.
pub open spec fn accepted(offered: u64, wanted: u64) -> u64 {
    offered & (wanted | F_VERSION_1)
}

impl Transport {
    /// Find the parts of a device. `None` for legacy-only devices.
    pub fn new(caps: &[Capability]) -> (r: Option<Transport>)
        ensures
            r == transport_of(caps@),
            r matches Some(t) ==> t.common < caps@.len() && t.notify < caps@.len() && (t.device_cfg matches Some(d) ==> d
                < caps@.len()),
    {
        let mut common: Option<usize> = None;
        let mut notify: Option<usize> = None;
        let mut device_cfg: Option<usize> = None;
        let mut notify_mult: u32 = 0;
        let n: usize = caps.len();
        let mut i: usize = 0;
        while i < n
            invariant
                n == caps@.len(),
                i <= n,
                common == last_of(caps@, 1, i as int),
                notify == last_of(caps@, 2, i as int),
                device_cfg == last_of(caps@, 4, i as int),
                common matches Some(k) ==> k < i,
                notify matches Some(k) ==> k < i && notify_mult == caps@[k as int].multiplier,
                device_cfg matches Some(k) ==> k < i,
            decreases n - i,
        {
            let c: Capability = caps[i];
            if c.base != 0 {
                if c.kind == 1 {
                    common = Some(i);
                } else if c.kind == 2 {
                    notify = Some(i);
                    notify_mult = c.multiplier;
                } else if c.kind == 4 {
                    device_cfg = Some(i);
                }
            }
            i += 1;
        }
        match (common, notify) {
            (Some(common), Some(notify)) => Some(Transport { common, notify, notify_mult, device_cfg }),
            _ => None,
        }
    }

    /// How much memory is mapped for a capability: a page at least.
    pub fn mapped_len(length: u32) -> (r: u32)
        ensures
            r == if length > 0x1000 { length } else { 0x1000u32 },
    {
        if length > 0x1000 { length } else { 0x1000 }
    }

    /// The features to accept of those offered, in two halves. The device
    /// must offer version 1, which is always requested.
    pub fn negotiate(lo: u32, hi: u32, wanted: u64) -> (r: Option<(u32, u32)>)
        ensures
            ({
                let offered = (lo + 0x1_0000_0000 * hi) as u64;
                let accept = accepted(offered, wanted);
                r == if hi % 2 == 1 {
                    Some(((accept % 0x1_0000_0000) as u32, (accept / 0x1_0000_0000) as u32))
                } else {
                    None
                }
            }),
    {
        let offered: u64 = lo as u64 + 0x1_0000_0000 * hi as u64;
        let accept: u64 = offered & (wanted | F_VERSION_1);
        proof {
            let vs = F_VERSION_1;
            assert((offered & (wanted | vs)) & vs == 0 <==> offered / 0x1_0000_0000 % 2 == 0) by (bit_vector)
                requires
                    vs == 0x1_0000_0000u64,
            ;
            assert(offered / 0x1_0000_0000 == hi);
        }
        if accept & F_VERSION_1 == 0 {
            return None;
        }
        Some(((accept % 0x1_0000_0000) as u32, (accept / 0x1_0000_0000) as u32))
    }

    /// Whether the device took the features, by its status.
    pub fn features_ok(status: u8) -> (r: bool)
        ensures
            r == (status & STATUS_FEATURES_OK != 0),
    {
        status & STATUS_FEATURES_OK != 0
    }

    /// The size of a queue; none where the device has no such queue.
    pub fn queue_size(dev_size: u16, max_size: u16) -> (r: Option<u16>)
        ensures
            r == if dev_size == 0 {
                None
            } else if dev_size < max_size {
                Some(dev_size)
            } else {
                Some(max_size)
            },
    {
        if dev_size == 0 {
            None
        } else if dev_size < max_size {
            Some(dev_size)
        } else {
            Some(max_size)
        }
    }

    /// Where a queue is notified, in the notification part.
    pub fn notify_offset(&self, notify_off: u16) -> (r: u64)
        ensures
            r == notify_off * self.notify_mult,
    {
        proof {
            assert(notify_off * self.notify_mult <= 0xffff * 0xffff_ffff) by (nonlinear_arith)
                requires
                    0 <= notify_off <= 0xffff,
                    0 <= self.notify_mult <= 0xffff_ffff,
            ;
        }
        notify_off as u64 * self.notify_mult as u64
    }

    /// The status that tells the device that the driver is ready.
    pub fn driver_ok(status: u8) -> (r: u8)
        ensures
            r == status | STATUS_DRIVER_OK,
    {
        status | STATUS_DRIVER_OK
    }
}

// ---------------------------------------------------------------------
// Virtqueues
// ---------------------------------------------------------------------

/// One buffer in a descriptor chain.
#[derive(Clone, Copy, Debug, PartialEq, Eq, Structural)]
pub struct Buf {
    pub phys: u64,
    pub len: u32,
    pub device_writes: bool,
}

/// One descriptor: a buffer, and the descriptor that follows it.
#[derive(Clone, Copy, Debug, PartialEq, Eq, Structural)]
pub struct Desc {
    pub phys: u64,
    pub len: u32,
    pub flags: u16,
    pub next: u16,
}

/// Where the parts of a queue are in its memory.
#[derive(Clone, Copy, Debug, PartialEq, Eq, Structural)]
pub struct Layout {
    pub avail_off: usize,
    pub used_off: usize,
    pub total: usize,
}

/// The descriptors, the ring of available chains, then, on a page of its
/// own, the ring of used ones.
pub open spec fn layout_of(size: int) -> Layout {
    let used = (18 * size + 6 + 4095) / 4096 * 4096;
    Layout { avail_off: (16 * size) as usize, used_off: used as usize, total: (used + 6 + 8 * size) as usize }
}

#[verifier::ext_equal]
pub ghost struct QueueState {
    pub size: int,
    pub descs: Seq<Desc>,
    /// The descriptors that are in no chain; the last is taken first.
    pub free: Seq<u16>,
    /// How many chains were made available, modulo 65536.
    pub avail: int,
    /// How many used chains were taken, modulo 65536.
    pub last_used: int,
}

/// The chain that begins at a descriptor.
pub open spec fn links(descs: Seq<Desc>, d: u16, fuel: int) -> Seq<u16>
    decreases fuel,
{
    if fuel <= 0 {
        Seq::empty()
    } else if descs[d as int].flags % 2 == 0 {
        seq![d]
    } else {
        seq![d] + links(descs, descs[d as int].next, fuel - 1)
    }
}

/// Whether that chain comes to its end.
pub open spec fn ends(descs: Seq<Desc>, d: u16, fuel: int) -> bool
    decreases fuel,
{
    &&& fuel > 0
    &&& d < descs.len()
    &&& descs[d as int].flags % 2 == 0 || ends(descs, descs[d as int].next, fuel - 1)
}

/// The descriptor of the `i`th buffer of a chain over the descriptors `ids`.
pub open spec fn desc_of(bufs: Seq<Buf>, ids: Seq<u16>, i: int) -> Desc {
    let more = i + 1 < bufs.len();
    Desc {
        phys: bufs[i].phys,
        len: bufs[i].len,
        flags: ((if bufs[i].device_writes { 2int } else { 0 }) + (if more { 1int } else { 0 })) as u16,
        next: if more { ids[i + 1] } else { 0 },
    }
}

/// The descriptors once the first `n` buffers have theirs.
pub open spec fn placed(descs: Seq<Desc>, bufs: Seq<Buf>, ids: Seq<u16>, n: int) -> Seq<Desc>
    decreases n,
{
    if n <= 0 {
        descs
    } else {
        placed(descs, bufs, ids, n - 1).update(ids[n - 1] as int, desc_of(bufs, ids, n - 1))
    }
}

/// Whether all are different.
pub open spec fn distinct(s: Seq<u16>) -> bool {
    forall|i: int, j: int| 0 <= i < j < s.len() ==> #[trigger] s[i] != #[trigger] s[j]
}

impl QueueState {
    pub open spec fn wf(self) -> bool {
        &&& 0 < self.size <= 65535
        &&& self.descs.len() == self.size
        &&& self.free.len() <= self.size
        &&& distinct(self.free)
        &&& forall|i: int| 0 <= i < self.free.len() ==> #[trigger] self.free[i] < self.size
    }

    /// The descriptors that a chain of `n` buffers gets.
    pub open spec fn taken(self, n: int) -> Seq<u16> {
        Seq::new(n as nat, |i: int| self.free[self.free.len() - 1 - i])
    }

    /// Whether there is room for a chain of `n` buffers.
    pub open spec fn has_room(self, n: int) -> bool {
        0 < n <= self.free.len()
    }

    /// The queue after a chain was made available.
    pub open spec fn submitted(self, bufs: Seq<Buf>) -> QueueState {
        let n = bufs.len() as int;
        QueueState {
            descs: placed(self.descs, bufs, self.taken(n), n),
            free: self.free.take(self.free.len() - n),
            avail: (self.avail + 1) % 65536,
            ..self
        }
    }

    /// Whether a descriptor begins a chain that is with the device.
    pub open spec fn outstanding(self, d: u16) -> bool {
        &&& ends(self.descs, d, self.size)
        &&& distinct(links(self.descs, d, self.size))
        &&& forall|i: int|
            0 <= i < links(self.descs, d, self.size).len() ==> !self.free.contains(
                #[trigger] links(self.descs, d, self.size)[i],
            )
    }

    /// The queue after a chain was used and taken back.
    pub open spec fn popped(self, d: u16) -> QueueState {
        QueueState {
            free: self.free + links(self.descs, d, self.size),
            last_used: (self.last_used + 1) % 65536,
            ..self
        }
    }
}

/// What is to be written to the memory of a queue for a chain: its
/// descriptors with their places, the first one in the ring of available
/// chains, and the new count of these.
pub struct Submission {
    pub head: u16,
    pub descs: Vec<(u16, Desc)>,
    pub slot: u16,
    pub avail: u16,
}

pub struct Virtqueue {
    size: u16,
    descs: Vec<Desc>,
    free: Vec<u16>,
    avail: u16,
    last_used: u16,
}

impl View for Virtqueue {
    type V = QueueState;

    closed spec fn view(&self) -> QueueState {
        QueueState {
            size: self.size as int,
            descs: self.descs@,
            free: self.free@,
            avail: self.avail as int,
            last_used: self.last_used as int,
        }
    }
}

/// Whether a list has an item.
fn has(list: &Vec<u16>, d: u16) -> (r: bool)
    ensures
        r == list@.contains(d),
{
    let mut i: usize = 0;
    while i < list.len()
        invariant
            i <= list@.len(),
            forall|k: int| 0 <= k < i ==> list@[k] != d,
        decreases list@.len() - i,
    {
        if list[i] == d {
            proof {
                assert(list@[i as int] == d);
            }
            return true;
        }
        i += 1;
    }
    false
}

impl Virtqueue {
    /// Where the parts of a queue of this size are.
    pub fn layout(size: u16) -> (r: Layout)
        ensures
            r == layout_of(size as int),
    {
        let n: usize = size as usize;
        let used_off: usize = (18 * n + 6 + 4095) / 4096 * 4096;
        Layout { avail_off: 16 * n, used_off, total: used_off + 6 + 8 * n }
    }

    /// A queue with all descriptors free.
    pub fn new(size: u16) -> (q: Virtqueue)
        requires
            size > 0,
        ensures
            q@.wf(),
            q@.size == size,
            q@.free == Seq::new(size as nat, |i: int| (size - 1 - i) as u16),
            q@.avail == 0,
            q@.last_used == 0,
    {
        let mut descs: Vec<Desc> = Vec::new();
        let mut free: Vec<u16> = Vec::new();
        let mut i: u16 = 0;
        while i < size
            invariant
                i <= size,
                descs@.len() == i,
                free@ == Seq::new(i as nat, |k: int| (size - 1 - k) as u16),
            decreases size - i,
        {
            descs.push(Desc { phys: 0, len: 0, flags: 0, next: 0 });
            free.push(size - 1 - i);
            i += 1;
            proof {
                assert(free@ =~= Seq::new(i as nat, |k: int| (size - 1 - k) as u16));
            }
        }
        Virtqueue { size, descs, free, avail: 0, last_used: 0 }
    }

    pub fn size(&self) -> (r: u16)
        ensures
            r == self@.size,
    {
        self.size
    }

    pub fn free_descriptors(&self) -> (r: usize)
        ensures
            r == self@.free.len(),
    {
        self.free.len()
    }

    /// Publish a descriptor chain: what is to be written for it. Nothing if
    /// there are no buffers, or not enough descriptors are free.
    pub fn submit(&mut self, bufs: &[Buf]) -> (r: Option<Submission>)
        requires
            old(self)@.wf(),
        ensures
            final(self)@.wf(),
            match r {
                None => !old(self)@.has_room(bufs@.len() as int) && final(self)@ == old(self)@,
                Some(s) => {
                    let ids = old(self)@.taken(bufs@.len() as int);
                    &&& old(self)@.has_room(bufs@.len() as int)
                    &&& final(self)@ == old(self)@.submitted(bufs@)
                    &&& s.head == ids[0]
                    &&& s.descs@ == Seq::new(bufs@.len(), |i: int| (ids[i], desc_of(bufs@, ids, i)))
                    &&& s.slot == old(self)@.avail % old(self)@.size
                    &&& s.avail == final(self)@.avail
                },
            },
    {
        let n: usize = bufs.len();
        if n == 0 || self.free.len() < n {
            return None;
        }
        let ghost q0 = self@;
        let ghost want = self@.taken(n as int);
        let mut ids: Vec<u16> = Vec::new();
        let mut i: usize = 0;
        while i < n
            invariant
                i <= n,
                n <= q0.free.len(),
                q0.free.len() <= 65535,
                want == q0.taken(n as int),
                ids@ == want.take(i as int),
                self.free@ == q0.free.take(q0.free.len() - i),
                self@ == (QueueState { free: self.free@, ..q0 }),
            decreases n - i,
        {
            let last: usize = self.free.len() - 1;
            let d: u16 = self.free[last];
            self.free.truncate(last);
            ids.push(d);
            i += 1;
            proof {
                assert(ids@ =~= want.take(i as int));
                assert(self.free@ =~= q0.free.take(q0.free.len() - i));
            }
        }
        proof {
            assert(want.take(n as int) =~= want);
            assert forall|k: int| 0 <= k < n implies #[trigger] ids@[k] < q0.size by {
                assert(ids@[k] == q0.free[q0.free.len() - 1 - k]);
            }
        }
        let mut out: Vec<(u16, Desc)> = Vec::new();
        let mut i: usize = 0;
        proof {
            assert(out@ =~= Seq::new(0, |k: int| (ids@[k], desc_of(bufs@, ids@, k))));
        }
        while i < n
            invariant
                i <= n,
                n == bufs@.len(),
                n == ids@.len(),
                q0.wf(),
                self@ == (QueueState {
                    free: q0.free.take(q0.free.len() - n),
                    descs: placed(q0.descs, bufs@, ids@, i as int),
                    ..q0
                }),
                self.descs@.len() == q0.size,
                forall|k: int| 0 <= k < n ==> #[trigger] ids@[k] < q0.size,
                out@ == Seq::new(i as nat, |k: int| (ids@[k], desc_of(bufs@, ids@, k))),
            decreases n - i,
        {
            let b: Buf = bufs[i];
            let more: bool = i + 1 < n;
            let write: u16 = if b.device_writes { DESC_F_WRITE } else { 0 };
            let follow: u16 = if more { DESC_F_NEXT } else { 0 };
            let next: u16 = if more { ids[i + 1] } else { 0 };
            let d: Desc = Desc { phys: b.phys, len: b.len, flags: write + follow, next };
            proof {
                assert(d == desc_of(bufs@, ids@, i as int));
                assert(ids@[i as int] < q0.size);
            }
            self.descs.set(ids[i] as usize, d);
            out.push((ids[i], d));
            i += 1;
            proof {
                assert(out@ =~= Seq::new(i as nat, |k: int| (ids@[k], desc_of(bufs@, ids@, k))));
            }
        }
        let slot: u16 = self.avail % self.size;
        self.avail = if self.avail == 0xffff { 0 } else { self.avail + 1 };
        proof {
            let last = q0.free.take(q0.free.len() - n);
            assert forall|a: int| 0 <= a < last.len() implies #[trigger] last[a] < q0.size by {
                assert(last[a] == q0.free[a]);
            }
            assert forall|a: int, b: int| 0 <= a < b < last.len() implies #[trigger] last[a] != #[trigger] last[b] by {
                assert(last[a] == q0.free[a] && last[b] == q0.free[b]);
            }
        }
        Some(Submission { head: ids[0], descs: out, slot, avail: self.avail })
    }

    /// Whether a descriptor begins a chain that is with the device.
    pub fn is_outstanding(&self, d: u16) -> (r: bool)
        requires
            self@.wf(),
        ensures
            r == self@.outstanding(d),
    {
        let mut at: u16 = d;
        let mut left: u16 = self.size;
        let mut seen: Vec<u16> = Vec::new();
        let ghost all = links(self@.descs, d, self@.size);
        proof {
            assert(seen@ + all =~= all);
        }
        loop
            invariant_except_break
                self@.wf(),
                left <= self.size,
                self@.size == self.size,
                all == links(self@.descs, d, self@.size),
                all == seen@ + links(self@.descs, at, left as int),
                ends(self@.descs, d, self@.size) == ends(self@.descs, at, left as int),
                distinct(seen@),
                forall|k: int| 0 <= k < seen@.len() ==> !self@.free.contains(#[trigger] seen@[k]),
            ensures
                self@.outstanding(d),
            decreases left,
        {
            if left == 0 || at >= self.size {
                return false;
            }
            let ghost rest = links(self@.descs, at, left as int);
            proof {
                assert(rest[0] == at);
                assert(all[seen@.len() as int] == at);
            }
            if has(&self.free, at) {
                proof {
                    assert(self@.free.contains(all[seen@.len() as int]));
                }
                return false;
            }
            if has(&seen, at) {
                proof {
                    let k = choose|k: int| 0 <= k < seen@.len() && seen@[k] == at;
                    assert(all[k] == at);
                    assert(!distinct(all));
                }
                return false;
            }
            let ghost s0 = seen@;
            seen.push(at);
            proof {
                assert forall|a: int, b: int| 0 <= a < b < seen@.len() implies #[trigger] seen@[a] != #[trigger] seen@[b] by {
                    if b == s0.len() {
                        assert(s0[a] != at);
                    } else {
                        assert(s0[a] != s0[b]);
                    }
                }
                assert forall|k: int| 0 <= k < seen@.len() implies !self@.free.contains(#[trigger] seen@[k]) by {
                    if k < s0.len() {
                        assert(seen@[k] == s0[k]);
                    }
                }
            }
            let desc: Desc = self.descs[at as usize];
            if desc.flags % 2 == 0 {
                proof {
                    assert(all =~= seen@);
                }
                break;
            }
            at = desc.next;
            left -= 1;
            proof {
                assert(all =~= seen@ + links(self@.descs, at, left as int));
            }
        }
        true
    }

    /// Take one completed chain: its first descriptor, and the bytes that
    /// the device wrote. `used` is the device's count of used chains, and
    /// `id` and `len` stand in the ring of these at `used_slot`.
    pub fn pop_used(&mut self, used: u16, id: u16, len: u32) -> (r: Option<(u16, u32)>)
        requires
            old(self)@.wf(),
            used != old(self)@.last_used ==> old(self)@.outstanding(id),
        ensures
            final(self)@.wf(),
            r == if used == old(self)@.last_used { None } else { Some((id, len)) },
            final(self)@ == if used == old(self)@.last_used { old(self)@ } else { old(self)@.popped(id) },
    {
        if used == self.last_used {
            return None;
        }
        let ghost q0 = self@;
        let ghost all = links(q0.descs, id, q0.size);
        self.last_used = if self.last_used == 0xffff { 0 } else { self.last_used + 1 };
        let mut d: u16 = id;
        let ghost mut left: int = q0.size;
        let ghost mut done: Seq<u16> = Seq::empty();
        proof {
            assert(done + all =~= all);
            assert(self.free@ =~= q0.free + done);
        }
        loop
            invariant_except_break
                q0.wf(),
                q0.outstanding(id),
                0 <= left <= q0.size,
                self.size == q0.size,
                all == links(q0.descs, id, q0.size),
                all == done + links(q0.descs, d, left),
                ends(q0.descs, d, left),
                self.free@ == q0.free + done,
                self@ == (QueueState { free: self.free@, last_used: (q0.last_used + 1) % 65536, ..q0 }),
            ensures
                self@ == q0.popped(id),
            decreases left,
        {
            self.free.push(d);
            proof {
                done = done.push(d);
                assert(self.free@ =~= q0.free + done);
            }
            let desc: Desc = self.descs[d as usize];
            if desc.flags % 2 == 0 {
                proof {
                    assert(all =~= done);
                }
                break;
            }
            d = desc.next;
            proof {
                left = left - 1;
                assert(all =~= done + links(q0.descs, d, left));
            }
        }
        proof {
            lemma_popped_wf(q0, id);
        }
        Some((id, len))
    }

    /// Whether the device has used a chain that was not taken yet; `used` is
    /// its count of used chains.
    pub fn has_used(&self, used: u16) -> (r: bool)
        ensures
            r == (used != self@.last_used),
    {
        used != self.last_used
    }

    /// Where the next used chain stands in the ring of used ones.
    pub fn used_slot(&self) -> (r: u16)
        requires
            self@.wf(),
        ensures
            r == self@.last_used % self@.size,
    {
        self.last_used % self.size
    }
}

/// While a chain is waited for: what the device wrote for it, once it is
/// that chain which was taken.
pub fn answer(head: u16, popped: Option<(u16, u32)>) -> (r: Option<u32>)
    ensures
        r == match popped {
            Some((id, len)) => if id == head { Some(len) } else { None },
            None => None,
        },
{
    match popped {
        Some((id, len)) => if id == head { Some(len) } else { None },
        None => None,
    }
}

// ---------------------------------------------------------------------
// Laws
// ---------------------------------------------------------------------

proof fn lemma_links(descs: Seq<Desc>, d: u16, fuel: int)
    requires
        ends(descs, d, fuel),
    ensures
        links(descs, d, fuel).len() > 0,
        forall|i: int| 0 <= i < links(descs, d, fuel).len() ==> #[trigger] links(descs, d, fuel)[i] < descs.len(),
    decreases fuel,
{
    if descs[d as int].flags % 2 != 0 {
        let next = descs[d as int].next;
        lemma_links(descs, next, fuel - 1);
        let rest = links(descs, next, fuel - 1);
        assert forall|i: int| 0 <= i < links(descs, d, fuel).len() implies #[trigger] links(descs, d, fuel)[i]
            < descs.len() by {
            if i > 0 {
                assert(links(descs, d, fuel)[i] == rest[i - 1]);
            }
        }
    }
}

/// A chain that was taken back leaves the free descriptors different from
/// each other and in range.
proof fn lemma_popped_wf(q: QueueState, d: u16)
    requires
        q.wf(),
        q.outstanding(d),
    ensures
        q.popped(d).wf(),
{
    let all = links(q.descs, d, q.size);
    let free = q.free + all;
    lemma_links(q.descs, d, q.size);
    assert forall|i: int| 0 <= i < free.len() implies #[trigger] free[i] < q.size by {
        if i >= q.free.len() {
            assert(free[i] == all[i - q.free.len()]);
        } else {
            assert(free[i] == q.free[i]);
        }
    }
    assert forall|i: int, j: int| 0 <= i < j < free.len() implies #[trigger] free[i] != #[trigger] free[j] by {
        if j < q.free.len() {
            assert(free[i] == q.free[i] && free[j] == q.free[j]);
        } else if i >= q.free.len() {
            assert(free[i] == all[i - q.free.len()] && free[j] == all[j - q.free.len()]);
        } else {
            assert(free[i] == q.free[i]);
            assert(q.free.contains(free[i]));
            assert(free[j] == all[j - q.free.len()]);
        }
    }
    lemma_pigeon(free, q.size);
}

/// Different numbers below `n` are no more than `n`.
proof fn lemma_pigeon(s: Seq<u16>, n: int)
    requires
        0 <= n,
        distinct(s),
        forall|i: int| 0 <= i < s.len() ==> #[trigger] s[i] < n,
    ensures
        s.len() <= n,
    decreases n,
{
    if s.len() > 0 {
        assert(s[0] < n);
        let top = (n - 1) as u16;
        if s.contains(top) {
            let k = choose|k: int| 0 <= k < s.len() && s[k] == top;
            let t = s.remove(k);
            assert forall|i: int| 0 <= i < t.len() implies #[trigger] t[i] < n - 1 by {
                let j = if i < k { i } else { i + 1 };
                assert(t[i] == s[j]);
                assert(s[j] != s[k]);
            }
            assert(distinct(t)) by {
                assert forall|i: int, j: int| 0 <= i < j < t.len() implies #[trigger] t[i] != #[trigger] t[j] by {
                    let a = if i < k { i } else { i + 1 };
                    let b = if j < k { j } else { j + 1 };
                    assert(t[i] == s[a] && t[j] == s[b]);
                }
            }
            lemma_pigeon(t, n - 1);
        } else {
            assert forall|i: int| 0 <= i < s.len() implies #[trigger] s[i] < n - 1 by {
                assert(s.contains(s[i]));
            }
            lemma_pigeon(s, n - 1);
        }
    }
}

proof fn lemma_placed(descs: Seq<Desc>, bufs: Seq<Buf>, ids: Seq<u16>, n: int)
    requires
        0 <= n <= ids.len(),
        distinct(ids),
        forall|k: int| 0 <= k < ids.len() ==> #[trigger] ids[k] < descs.len(),
    ensures
        placed(descs, bufs, ids, n).len() == descs.len(),
        forall|k: int| 0 <= k < n ==> placed(descs, bufs, ids, n)[(#[trigger] ids[k]) as int] == desc_of(bufs, ids, k),
        forall|j: int|
            0 <= j < descs.len() && (forall|k: int| 0 <= k < n ==> #[trigger] ids[k] != j) ==> #[trigger] placed(
                descs,
                bufs,
                ids,
                n,
            )[j] == descs[j],
    decreases n,
{
    if n > 0 {
        lemma_placed(descs, bufs, ids, n - 1);
        assert(ids[n - 1] < descs.len());
        assert forall|k: int| 0 <= k < n implies placed(descs, bufs, ids, n)[(#[trigger] ids[k]) as int] == desc_of(
            bufs,
            ids,
            k,
        ) by {
            if k < n - 1 {
                assert(ids[k] != ids[n - 1]);
            }
        }
    }
}

proof fn lemma_chain(q: QueueState, bufs: Seq<Buf>, i: int)
    requires
        q.wf(),
        q.has_room(bufs.len() as int),
        0 <= i < bufs.len(),
    ensures
        ({
            let ids = q.taken(bufs.len() as int);
            let descs = q.submitted(bufs).descs;
            &&& ends(descs, ids[i], q.size - i)
            &&& links(descs, ids[i], q.size - i) == ids.skip(i)
        }),
    decreases bufs.len() - i,
{
    let n = bufs.len() as int;
    let ids = q.taken(n);
    let descs = q.submitted(bufs).descs;
    assert(distinct(ids));
    assert forall|k: int| 0 <= k < ids.len() implies #[trigger] ids[k] < q.descs.len() by {
        assert(ids[k] == q.free[q.free.len() - 1 - k]);
    }
    lemma_placed(q.descs, bufs, ids, n);
    assert(descs[ids[i] as int] == desc_of(bufs, ids, i));
    if i + 1 < n {
        lemma_chain(q, bufs, i + 1);
        assert(seq![ids[i]] + ids.skip(i + 1) =~= ids.skip(i));
    } else {
        assert(seq![ids[i]] =~= ids.skip(i));
    }
}

/// A chain that was submitted is with the device: it is made of the
/// descriptors that were taken for it, in their order.
pub proof fn lemma_submitted_outstanding(q: QueueState, bufs: Seq<Buf>)
    requires
        q.wf(),
        q.has_room(bufs.len() as int),
    ensures
        ({
            let n = bufs.len() as int;
            let after = q.submitted(bufs);
            &&& after.outstanding(q.taken(n)[0])
            &&& links(after.descs, q.taken(n)[0], after.size) == q.taken(n)
        }),
{
    let n = bufs.len() as int;
    let ids = q.taken(n);
    let after = q.submitted(bufs);
    lemma_chain(q, bufs, 0);
    assert(ids.skip(0) =~= ids);
    assert(distinct(ids));
    let all = links(after.descs, ids[0], after.size);
    assert forall|i: int| 0 <= i < all.len() implies !after.free.contains(#[trigger] all[i]) by {
        assert(all[i] == q.free[q.free.len() - 1 - i]);
        if after.free.contains(all[i]) {
            let k = choose|k: int| 0 <= k < after.free.len() && after.free[k] == all[i];
            assert(q.free[k] == q.free[q.free.len() - 1 - i]);
        }
    }
}

/// What is submitted and comes back leaves the same descriptors free.
pub proof fn lemma_submit_and_pop(q: QueueState, bufs: Seq<Buf>)
    requires
        q.wf(),
        q.has_room(bufs.len() as int),
    ensures
        ({
            let n = bufs.len() as int;
            let after = q.submitted(bufs).popped(q.taken(n)[0]);
            &&& after.free.len() == q.free.len()
            &&& forall|d: u16| after.free.contains(d) == q.free.contains(d)
        }),
{
    let n = bufs.len() as int;
    let ids = q.taken(n);
    let after = q.submitted(bufs).popped(ids[0]);
    lemma_submitted_outstanding(q, bufs);
    let m = q.free.len() - n;
    assert(after.free == q.free.take(m) + ids);
    assert forall|d: u16| after.free.contains(d) == q.free.contains(d) by {
        if after.free.contains(d) {
            let k = choose|k: int| 0 <= k < after.free.len() && after.free[k] == d;
            if k < m {
                assert(q.free[k] == d);
            } else {
                assert(q.free[q.free.len() - 1 - (k - m)] == d);
            }
        }
        if q.free.contains(d) {
            let k = choose|k: int| 0 <= k < q.free.len() && q.free[k] == d;
            if k < m {
                assert(after.free[k] == d);
            } else {
                let i = q.free.len() - 1 - k;
                assert(after.free[m + i] == ids[i]);
            }
        }
    }
}

proof fn lemma_untouched(q: QueueState, bufs: Seq<Buf>, d: u16, fuel: int)
    requires
        q.wf(),
        q.has_room(bufs.len() as int),
        ends(q.descs, d, fuel),
        forall|i: int|
            0 <= i < links(q.descs, d, fuel).len() ==> !q.free.contains(#[trigger] links(q.descs, d, fuel)[i]),
    ensures
        ends(q.submitted(bufs).descs, d, fuel),
        links(q.submitted(bufs).descs, d, fuel) == links(q.descs, d, fuel),
    decreases fuel,
{
    let n = bufs.len() as int;
    let ids = q.taken(n);
    let descs = q.submitted(bufs).descs;
    assert(distinct(ids));
    assert forall|k: int| 0 <= k < ids.len() implies #[trigger] ids[k] < q.descs.len() by {
        assert(ids[k] == q.free[q.free.len() - 1 - k]);
    }
    lemma_placed(q.descs, bufs, ids, n);
    let all = links(q.descs, d, fuel);
    assert(all[0] == d);
    assert(descs[d as int] == q.descs[d as int]) by {
        assert forall|k: int| 0 <= k < n implies #[trigger] ids[k] != d by {
            assert(ids[k] == q.free[q.free.len() - 1 - k]);
            assert(q.free.contains(ids[k]));
        }
    }
    if q.descs[d as int].flags % 2 != 0 {
        let next = q.descs[d as int].next;
        let rest = links(q.descs, next, fuel - 1);
        assert forall|i: int| 0 <= i < rest.len() implies !q.free.contains(#[trigger] rest[i]) by {
            assert(all[i + 1] == rest[i]);
        }
        lemma_untouched(q, bufs, next, fuel - 1);
    }
}

/// A new chain leaves those alone that are with the device.
pub proof fn lemma_others_stay(q: QueueState, bufs: Seq<Buf>, d: u16)
    requires
        q.wf(),
        q.has_room(bufs.len() as int),
        q.outstanding(d),
    ensures
        q.submitted(bufs).outstanding(d),
        links(q.submitted(bufs).descs, d, q.size) == links(q.descs, d, q.size),
{
    lemma_untouched(q, bufs, d, q.size);
    let after = q.submitted(bufs);
    let all = links(after.descs, d, q.size);
    assert forall|i: int| 0 <= i < all.len() implies !after.free.contains(#[trigger] all[i]) by {
        assert(!q.free.contains(links(q.descs, d, q.size)[i]));
        if after.free.contains(all[i]) {
            let k = choose|k: int| 0 <= k < after.free.len() && after.free[k] == all[i];
            assert(q.free[k] == all[i]);
        }
    }
}

/// The rings of a queue do not overlap, nor do they with the descriptors.
pub proof fn lemma_layout(size: int)
    requires
        0 < size <= 65535,
    ensures
        16 * size <= layout_of(size).avail_off,
        layout_of(size).avail_off + 6 + 2 * size <= layout_of(size).used_off,
        layout_of(size).used_off % 4096 == 0,
        layout_of(size).used_off + 6 + 8 * size == layout_of(size).total,
{
}

} // verus!
