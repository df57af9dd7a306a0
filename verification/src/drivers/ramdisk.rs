//! A disk image held in memory (loaded by the bootloader as a module).
//! Changes last until the machine is switched off.

use crate::bytes::sub_bytes;
use vstd::prelude::*;

verus! {

/// Bytes in a sector.
pub const SECTOR: usize = 512;

pub struct RamDisk {
    pub data: Vec<u8>,
    pub sectors: u64,
}

/// The image, and how many whole sectors there are of it.
#[verifier::ext_equal]
pub ghost struct RamDiskState {
    pub image: Seq<u8>,
    pub sectors: int,
}

impl View for RamDisk {
    type V = RamDiskState;

    open spec fn view(&self) -> RamDiskState {
        RamDiskState { image: self.data@, sectors: self.sectors as int }
    }
}

/// The bytes of an image with some of them written over.
pub open spec fn written(image: Seq<u8>, at: int, b: Seq<u8>) -> Seq<u8> {
    Seq::new(image.len(), |i: int| if at <= i < at + b.len() { b[i - at] } else { image[i] })
}

impl RamDisk {
    pub open spec fn wf(self) -> bool {
        self@.sectors == self@.image.len() as int / 512
    }

    /// Whether so many bytes from a sector on lie on the disk.
    pub open spec fn covers(self, lba: u64, len: int) -> bool {
        lba + len / 512 <= self@.sectors
    }

    /// The image that the bootloader has loaded, if it is large enough for
    /// one sector.
    pub fn from_boot_module(image: Option<Vec<u8>>) -> (r: Option<RamDisk>)
        ensures
            r is Some == (image matches Some(v) && v@.len() >= 512),
            r matches Some(d) ==> d.wf() && d@ == (RamDiskState { image: image->0@, sectors: image->0@.len() as int / 512 }),
    {
        match image {
            Some(data) => {
                if data.len() < SECTOR {
                    return None;
                }
                let sectors: u64 = (data.len() / SECTOR) as u64;
                Some(RamDisk { data, sectors })
            },
            None => None,
        }
    }

    fn place(&self, lba: u64, len: usize) -> (r: Option<usize>)
        requires
            self.wf(),
            len % SECTOR == 0,
        ensures
            r is Some == self.covers(lba, len as int),
            r matches Some(at) ==> at == lba * 512 && at + len <= self.data@.len() && at + len <= usize::MAX,
    {
        let n: u64 = (len / SECTOR) as u64;
        let total: usize = self.data.len();
        if n > self.sectors || lba > self.sectors - n {
            return None;
        }
        Some(lba as usize * SECTOR)
    }

    /// Read whole sectors.
    pub fn read(&self, lba: u64, len: usize) -> (r: Result<Vec<u8>, ()>)
        requires
            self.wf(),
            len % SECTOR == 0,
        ensures
            r is Ok == self.covers(lba, len as int),
            r matches Ok(v) ==> v@ == self@.image.subrange(lba * 512, lba * 512 + len),
    {
        match self.place(lba, len) {
            Some(at) => Ok(sub_bytes(&self.data, at, at + len)),
            None => Err(()),
        }
    }

    /// Write whole sectors.
    pub fn write(&mut self, lba: u64, buf: &[u8]) -> (r: Result<(), ()>)
        requires
            old(self).wf(),
            buf@.len() % 512 == 0,
        ensures
            final(self).wf(),
            r is Ok == old(self).covers(lba, buf@.len() as int),
            final(self)@ == if r is Ok {
                (RamDiskState { image: written(old(self)@.image, lba * 512, buf@), ..old(self)@ })
            } else {
                old(self)@
            },
    {
        let len: usize = buf.len();
        let at: usize = match self.place(lba, len) {
            Some(at) => at,
            None => return Err(()),
        };
        let ghost image = self@.image;
        let mut i: usize = 0;
        proof {
            assert(self@.image =~= written(image, at as int, buf@.take(0)));
        }
        while i < len
            invariant
                i <= len,
                len == buf@.len(),
                at + len <= self.data@.len(),
                at + len <= usize::MAX,
                self.data@.len() == image.len(),
                self.wf(),
                self.sectors == old(self).sectors,
                self@.image == written(image, at as int, buf@.take(i as int)),
            decreases len - i,
        {
            self.data.set(at + i, buf[i]);
            i += 1;
            proof {
                assert(self@.image =~= written(image, at as int, buf@.take(i as int)));
            }
        }
        proof {
            assert(buf@.take(len as int) =~= buf@);
        }
        Ok(())
    }
}

/// What was written is read back, and nothing else has changed.
pub proof fn lemma_read_back(image: Seq<u8>, at: int, b: Seq<u8>, from: int, to: int)
    requires
        0 <= at,
        at + b.len() <= image.len(),
        0 <= from <= to <= image.len(),
    ensures
        written(image, at, b).subrange(at, at + b.len()) == b,
        to <= at || from >= at + b.len() ==> written(image, at, b).subrange(from, to) == image.subrange(from, to),
        written(image, at, b).len() == image.len(),
{
    assert(written(image, at, b).subrange(at, at + b.len()) =~= b);
    if to <= at || from >= at + b.len() {
        assert(written(image, at, b).subrange(from, to) =~= image.subrange(from, to));
    }
}

} // verus!
