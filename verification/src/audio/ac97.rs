//! Intel ICH AC'97 audio controller. 48 kHz, 16-bit stereo output through
//! the PCM-out DMA engine and a ring of 32 buffer descriptors.

use crate::arith::min;
use crate::drivers::io::Io;
use vstd::prelude::*;

verus! {

pub const VENDOR_INTEL: u16 = 0x8086;

pub const BUFFERS: usize = 32;

/// Stereo frames per buffer (about 21 ms at 48 kHz).
pub const FRAMES: usize = 1024;

// Mixer registers.
pub const NAM_RESET: u16 = 0x00;
pub const NAM_MASTER: u16 = 0x02;
pub const NAM_PCM_OUT: u16 = 0x18;
pub const NAM_EXT_ID: u16 = 0x28;
pub const NAM_EXT_CTRL: u16 = 0x2a;
pub const NAM_FRONT_RATE: u16 = 0x2c;

// Bus master registers, PCM-out box at 0x10.
pub const PO_BDBAR: u16 = 0x10;
pub const PO_CIV: u16 = 0x14;
pub const PO_LVI: u16 = 0x15;
pub const PO_SR: u16 = 0x16;
pub const PO_CR: u16 = 0x1b;
pub const GLOB_CNT: u16 = 0x2c;

/// Whether a device of Intel is such a controller.
pub open spec fn known_device(id: u16) -> bool {
    id == 0x2415 || id == 0x2425 || id == 0x2445 || id == 0x2485 || id == 0x24c5 || id == 0x24d5 || id == 0x266e || id
        == 0x27de
}

pub fn is_device(vendor: u16, id: u16) -> (r: bool)
    ensures
        r == (vendor == VENDOR_INTEL && known_device(id)),
{
    vendor == VENDOR_INTEL && (id == 0x2415 || id == 0x2425 || id == 0x2445 || id == 0x2485 || id == 0x24c5 || id
        == 0x24d5 || id == 0x266e || id == 0x27de)
}

/// The controller: its two blocks of ports, the last buffer that counts,
/// and whether it runs.
#[derive(Clone, Copy, Debug, PartialEq, Eq, Structural)]
pub struct Ac97 {
    pub nam: u16,
    pub nabm: u16,
    pub lvi: u8,
    pub running: bool,
}

/// The port that a base address register holds.
pub open spec fn port_of(bar: u32) -> u16 {
    (bar / 4 * 4 % 0x1_0000) as u16
}

impl Ac97 {
    pub open spec fn wf(self) -> bool {
        self.nam <= 0xff00 && self.nabm <= 0xff00 && self.lvi < 32
    }

    /// The controller with these base address registers.
    pub fn new(bar0: u32, bar1: u32) -> (r: Option<Ac97>)
        ensures
            r == if port_of(bar0) == 0 || port_of(bar1) == 0 {
                None
            } else {
                Some(Ac97 { nam: port_of(bar0), nabm: port_of(bar1), lvi: 0, running: false })
            },
    {
        let nam: u16 = (bar0 / 4 * 4 % 0x1_0000) as u16;
        let nabm: u16 = (bar1 / 4 * 4 % 0x1_0000) as u16;
        if nam == 0 || nabm == 0 {
            return None;
        }
        Some(Ac97 { nam, nabm, lvi: 0, running: false })
    }

    /// Leave cold reset, reset the mixer, and set the volumes.
    pub fn reset(&self) -> (r: Vec<Io>)
        requires
            self.wf(),
        ensures
            r@ == seq![
                Io::Out32((self.nabm + GLOB_CNT) as u16, 2),
                Io::Sleep(20),
                Io::Out16((self.nam + NAM_RESET) as u16, 1),
                Io::Sleep(20),
                Io::Out16((self.nam + NAM_MASTER) as u16, 0),
                Io::Out16((self.nam + NAM_PCM_OUT) as u16, 0x0808),
            ],
    {
        let mut v: Vec<Io> = Vec::new();
        v.push(Io::Out32(self.nabm + GLOB_CNT, 2));
        v.push(Io::Sleep(20));
        v.push(Io::Out16(self.nam + NAM_RESET, 1));
        v.push(Io::Sleep(20));
        v.push(Io::Out16(self.nam + NAM_MASTER, 0));
        v.push(Io::Out16(self.nam + NAM_PCM_OUT, 0x0808));
        v
    }

    /// Variable rate audio: pin the converter to 48 kHz, where it has a
    /// choice. `ext_id` and `ext_ctrl` are what the mixer says.
    pub fn pin_rate(&self, ext_id: u16, ext_ctrl: u16) -> (r: Vec<Io>)
        requires
            self.wf(),
        ensures
            r@ == if ext_id % 2 == 1 {
                seq![
                    Io::Out16((self.nam + NAM_EXT_CTRL) as u16, ext_ctrl | 1),
                    Io::Out16((self.nam + NAM_FRONT_RATE) as u16, 48000),
                ]
            } else {
                Seq::<Io>::empty()
            },
    {
        let mut v: Vec<Io> = Vec::new();
        if ext_id % 2 == 1 {
            v.push(Io::Out16(self.nam + NAM_EXT_CTRL, ext_ctrl | 1));
            v.push(Io::Out16(self.nam + NAM_FRONT_RATE, 48000));
        }
        v
    }

    /// Make a buffer the last one that counts.
    pub fn set_last_valid(&mut self, i: u8) -> (r: Io)
        requires
            old(self).wf(),
        ensures
            *final(self) == (Ac97 { lvi: i % 32, ..*old(self) }),
            final(self).wf(),
            r == Io::Out8((old(self).nabm + PO_LVI) as u16, i % 32),
    {
        self.lvi = i % 32;
        Io::Out8(self.nabm + PO_LVI, self.lvi)
    }

    pub fn last_valid(&self) -> (r: u8)
        ensures
            r == self.lvi,
    {
        self.lvi
    }

    pub fn is_running(&self) -> (r: bool)
        ensures
            r == self.running,
    {
        self.running
    }

    /// Start or resume the engine if it halted (for example because it
    /// caught up with the last buffer). `sr` is its status.
    pub fn kick(&mut self, sr: u16) -> (r: Vec<Io>)
        requires
            old(self).wf(),
        ensures
            ({
                let clear = if sr & 0x1c != 0 {
                    seq![Io::Out16((old(self).nabm + PO_SR) as u16, sr & 0x1c)]
                } else {
                    Seq::<Io>::empty()
                };
                let start = !old(self).running || sr & 1 != 0;
                &&& r@ == clear + if start {
                    seq![Io::Out8((old(self).nabm + PO_CR) as u16, 1)]
                } else {
                    Seq::<Io>::empty()
                }
                &&& *final(self) == (Ac97 { running: true, ..*old(self) })
            }),
            final(self).wf(),
    {
        let mut v: Vec<Io> = Vec::new();
        if sr & 0x1c != 0 {
            v.push(Io::Out16(self.nabm + PO_SR, sr & 0x1c));
        }
        if !self.running || sr & 1 != 0 {
            v.push(Io::Out8(self.nabm + PO_CR, 1));
            self.running = true;
        }
        v
    }

    pub fn stop(&mut self) -> (r: Io)
        requires
            old(self).wf(),
        ensures
            *final(self) == (Ac97 { running: false, ..*old(self) }),
            final(self).wf(),
            r == (Io::Out8((old(self).nabm + PO_CR) as u16, 0)),
    {
        self.running = false;
        Io::Out8(self.nabm + PO_CR, 0)
    }

    /// Hardware master volume: 0..=100.
    pub fn set_volume(&self, percent: u8, mute: bool) -> (r: Io)
        requires
            self.wf(),
        ensures
            r == (Io::Out16((self.nam + NAM_MASTER) as u16, volume_word(percent as int, mute) as u16)),
    {
        let p: u16 = if percent < 100 { percent as u16 } else { 100 };
        let att: u16 = (100 - p) * 31 / 100;
        let v: u16 = if mute || percent == 0 { 0x8000 } else { att * 256 + att };
        Io::Out16(self.nam + NAM_MASTER, v)
    }
}

/// The attenuation of both channels, or the mute bit.
pub open spec fn volume_word(percent: int, mute: bool) -> int {
    if mute || percent == 0 { 0x8000 } else { (100 - min(percent, 100)) * 31 / 100 * 257 }
}

/// More volume is less attenuation; full volume is none.
pub proof fn lemma_louder(a: int, b: int)
    requires
        0 < a <= b,
    ensures
        volume_word(b, false) <= volume_word(a, false) < 0x8000,
        volume_word(100, false) == 0,
{
}

/// A descriptor of the ring: where a buffer is, and how many samples it
/// holds.
#[derive(Clone, Copy, Debug, PartialEq, Eq, Structural)]
pub struct Descriptor {
    pub address: u32,
    pub samples: u16,
    pub flags: u16,
}

/// The ring of descriptors for buffers that begin at `phys`.
pub fn ring(phys: u32) -> (r: Vec<Descriptor>)
    requires
        phys + BUFFERS * FRAMES * 4 <= u32::MAX,
    ensures
        r@ == Seq::new(
            BUFFERS as nat,
            |i: int| Descriptor { address: (phys + i * FRAMES * 4) as u32, samples: (FRAMES * 2) as u16, flags: 0 },
        ),
{
    let mut v: Vec<Descriptor> = Vec::new();
    let mut i: usize = 0;
    while i < BUFFERS
        invariant
            i <= BUFFERS,
            phys + BUFFERS * FRAMES * 4 <= u32::MAX,
            v@ == Seq::new(
                i as nat,
                |k: int| Descriptor { address: (phys + k * FRAMES * 4) as u32, samples: (FRAMES * 2) as u16, flags: 0 },
            ),
        decreases BUFFERS - i,
    {
        v.push(
            Descriptor { address: phys + (i * FRAMES * 4) as u32, samples: (FRAMES * 2) as u16, flags: 0 },
        );
        i += 1;
        proof {
            assert(v@ =~= Seq::new(
                i as nat,
                |k: int| Descriptor { address: (phys + k * FRAMES * 4) as u32, samples: (FRAMES * 2) as u16, flags: 0 },
            ));
        }
    }
    v
}

/// Both channels are as loud as each other; no volume at all is silence,
/// and so is a mute, whatever the volume.
pub proof fn lemma_silence(percent: int, other: int)
    requires
        0 <= percent,
    ensures
        volume_word(percent, true) == volume_word(other, true),
        volume_word(0, false) == volume_word(percent, true),
        percent > 0 ==> volume_word(percent, false) != volume_word(percent, true),
        percent > 0 ==> volume_word(percent, false) % 256 == volume_word(percent, false) / 256 && volume_word(percent, false)
            / 256 < 32,
{
    if percent > 0 {
        let a = (100 - min(percent, 100)) * 31 / 100;
        assert(0 <= a < 32);
        assert(a * 257 % 256 == a && a * 257 / 256 == a);
    }
}

} // verus!
