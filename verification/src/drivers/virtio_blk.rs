//! virtio block device driver.

use super::block::{plan, pieces, Piece};
use super::virtio::Buf;
use crate::bytes::{le32, le32_bytes, lemma_le32_back, push_le32};
use vstd::prelude::*;

verus! {

pub const T_IN: u32 = 0;
pub const T_OUT: u32 = 1;
pub const T_FLUSH: u32 = 4;
pub const F_FLUSH: u64 = 0x200;

/// Sectors in one request: 64 KiB.
pub const MAX_SECTORS: usize = 128;

/// The state of a disk.
#[derive(Clone, Copy, Debug, PartialEq, Eq, Structural)]
pub struct VirtioBlk {
    /// Its sectors.
    pub capacity: u64,
    /// Whether it has not refused to flush yet.
    pub can_flush: bool,
}

/// A request in memory: what to do, where, and the status, which the
/// device sets.
pub open spec fn header(kind: u32, sector: u64) -> Seq<u8> {
    le32_bytes(kind as int) + le32_bytes(0) + le32_bytes(sector as int % 0x1_0000_0000) + le32_bytes(
        sector as int / 0x1_0000_0000,
    ) + seq![0xffu8]
}

/// The chain of a request: its header, the data if there is any, and its
/// status.
pub open spec fn request_bufs(kind: u32, len: u32, hdr: u64, data: u64) -> Seq<Buf> {
    let first = Buf { phys: hdr, len: 16, device_writes: false };
    let last = Buf { phys: (hdr + 16) as u64, len: 1, device_writes: true };
    if len > 0 {
        seq![first, Buf { phys: data, len, device_writes: kind == T_IN }, last]
    } else {
        seq![first, last]
    }
}

impl VirtioBlk {
    /// A disk, by the two halves of its size.
    pub fn new(lo: u32, hi: u32) -> (r: VirtioBlk)
        ensures
            r.capacity == lo + 0x1_0000_0000 * hi,
            r.can_flush,
    {
        VirtioBlk { capacity: lo as u64 + 0x1_0000_0000 * hi as u64, can_flush: true }
    }

    /// A request: its header, and its chain. `hdr` and `data` are where the
    /// header and the data are.
    pub fn request(kind: u32, sector: u64, len: u32, hdr: u64, data: u64) -> (r: (Vec<u8>, Vec<Buf>))
        requires
            hdr <= u64::MAX - 16,
        ensures
            r.0@ == header(kind, sector),
            r.1@ == request_bufs(kind, len, hdr, data),
    {
        let mut h: Vec<u8> = Vec::new();
        push_le32(&mut h, kind);
        push_le32(&mut h, 0);
        push_le32(&mut h, (sector % 0x1_0000_0000) as u32);
        push_le32(&mut h, (sector / 0x1_0000_0000) as u32);
        h.push(0xff);
        let mut bufs: Vec<Buf> = Vec::new();
        bufs.push(Buf { phys: hdr, len: 16, device_writes: false });
        if len > 0 {
            bufs.push(Buf { phys: data, len, device_writes: kind == T_IN });
        }
        bufs.push(Buf { phys: hdr + 16, len: 1, device_writes: true });
        proof {
            assert(h@ =~= header(kind, sector));
            assert(bufs@ =~= request_bufs(kind, len, hdr, data));
        }
        (h, bufs)
    }

    /// Whether a request was done: it came back, and the status says so.
    pub fn succeeded(came_back: bool, status: u8) -> (r: bool)
        ensures
            r == (came_back && status == 0),
    {
        came_back && status == 0
    }

    /// The requests of a transfer, up to the first that is not on the disk,
    /// and whether there is none such.
    pub fn transfer(&self, lba: u64, len: usize) -> (r: (Vec<Piece>, bool))
        ensures
            (r.0@, r.1) == pieces(lba as int, len as int, 0, self.capacity as int, MAX_SECTORS * 512),
    {
        plan(lba, len, self.capacity, MAX_SECTORS * 512)
    }

    /// The request that flushes the disk, unless it has refused one. `ok` is
    /// how it went.
    pub fn flush(&mut self, ok: bool)
        ensures
            *final(self) == (VirtioBlk { can_flush: old(self).can_flush && ok, ..*old(self) }),
    {
        if self.can_flush && !ok {
            self.can_flush = false;
        }
    }
}

/// A request says what it is and for which sector: both can be read back from
/// its bytes, and its status is none that a device sets. The device reads the
/// request, and writes the data just when it is to be read from the disk.
pub proof fn lemma_request_read_back(kind: u32, sector: u64, len: u32, hdr: u64, data: u64)
    requires
        hdr + 16 <= u64::MAX,
    ensures
        ({
            let h = header(kind, sector);
            &&& h.len() == 17
            &&& le32(h, 0) == kind
            &&& le32(h, 8) + 0x1_0000_0000 * le32(h, 12) == sector
            &&& h[16] == 0xff
        }),
        ({
            let b = request_bufs(kind, len, hdr, data);
            &&& b[0].phys == hdr && b[0].len == 16 && !b[0].device_writes
            &&& b.last().phys == hdr + 16 && b.last().len == 1 && b.last().device_writes
            &&& len > 0 ==> b.len() == 3 && b[1].phys == data && b[1].len == len && b[1].device_writes == (kind == T_IN)
            &&& len == 0 ==> b.len() == 2
        }),
{
    let a = le32_bytes(kind as int);
    let z = le32_bytes(0);
    let lo = le32_bytes(sector as int % 0x1_0000_0000);
    let hi = le32_bytes(sector as int / 0x1_0000_0000);
    let h = header(kind, sector);
    lemma_le32_back(kind as int);
    lemma_le32_back(sector as int % 0x1_0000_0000);
    lemma_le32_back(sector as int / 0x1_0000_0000);
    assert(h =~= a + z + lo + hi + seq![0xffu8]);
    assert(a.len() == 4 && z.len() == 4 && lo.len() == 4 && hi.len() == 4);
    assert(h.subrange(0, 4) =~= a);
    assert(h.subrange(8, 12) =~= lo);
    assert(h.subrange(12, 16) =~= hi);
    assert forall|k: int| 0 <= k < 4 implies h[k] == a[k] && h[8 + k] == lo[k] && h[12 + k] == hi[k] by {
        assert(h.subrange(0, 4)[k] == a[k]);
        assert(h.subrange(8, 12)[k] == lo[k]);
        assert(h.subrange(12, 16)[k] == hi[k]);
    }
    assert(h[8] == lo[0] && h[9] == lo[1] && h[10] == lo[2] && h[11] == lo[3]);
    assert(h[12] == hi[0] && h[13] == hi[1] && h[14] == hi[2] && h[15] == hi[3]);
}

} // verus!
