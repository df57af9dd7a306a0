//! Intel 8254x / 82574 ("e1000") gigabit Ethernet driver. Legacy
//! descriptors, polled.

use super::io::Io;
use crate::arith::min;
use vstd::prelude::*;

verus! {

pub const CTRL: u32 = 0x0000;
pub const STATUS: u32 = 0x0008;
pub const EERD: u32 = 0x0014;
pub const IMC: u32 = 0x00d8;
pub const RCTL: u32 = 0x0100;
pub const TCTL: u32 = 0x0400;
pub const TIPG: u32 = 0x0410;
pub const RDBAL: u32 = 0x2800;
pub const RDBAH: u32 = 0x2804;
pub const RDLEN: u32 = 0x2808;
pub const RDH: u32 = 0x2810;
pub const RDT: u32 = 0x2818;
pub const TDBAL: u32 = 0x3800;
pub const TDBAH: u32 = 0x3804;
pub const TDLEN: u32 = 0x3808;
pub const TDH: u32 = 0x3810;
pub const TDT: u32 = 0x3818;
pub const MTA: u32 = 0x5200;
pub const RAL: u32 = 0x5400;
pub const RAH: u32 = 0x5404;

pub const N_RX: usize = 64;
pub const N_TX: usize = 32;

/// Bytes in a buffer.
pub const BUF: usize = 2048;

/// How often the driver looks for a free slot before it gives up.
pub const SPINS: u32 = 1_000_000;

/// Whether a device is such a network card.
pub fn is_device(id: u16) -> (r: bool)
    ensures
        r == (id == 0x100e || id == 0x100f || id == 0x1004 || id == 0x100c || id == 0x10d3 || id == 0x10ea || id == 0x1502
            || id == 0x153a),
{
    id == 0x100e || id == 0x100f || id == 0x1004 || id == 0x100c || id == 0x10d3 || id == 0x10ea || id == 0x1502 || id
        == 0x153a
}

/// What the card is called.
pub fn model(id: u16) -> (r: &'static str)
    ensures
        r@ == if id == 0x10d3 || id == 0x10ea || id == 0x1502 || id == 0x153a {
            "Intel 82574L-class Gigabit Ethernet"@
        } else {
            "Intel PRO/1000 (8254x) Gigabit Ethernet"@
        },
{
    if id == 0x10d3 || id == 0x10ea || id == 0x1502 || id == 0x153a {
        "Intel 82574L-class Gigabit Ethernet"
    } else {
        "Intel PRO/1000 (8254x) Gigabit Ethernet"
    }
}

/// The control register that resets the card.
pub fn reset_control(ctrl: u32) -> (r: u32)
    ensures
        r == ctrl | (1u32 << 26),
{
    ctrl | (1u32 << 26)
}

/// The control register that brings the link up, with the speed found out
/// by itself.
pub fn link_control(ctrl: u32) -> (r: u32)
    ensures
        r == (ctrl | (1u32 << 6) | (1u32 << 5)) & !(1u32 << 3) & !(1u32 << 31) & !(1u32 << 7),
{
    (ctrl | (1u32 << 6) | (1u32 << 5)) & !(1u32 << 3) & !(1u32 << 31) & !(1u32 << 7)
}

// ---------------------------------------------------------------------
// The hardware address
// ---------------------------------------------------------------------

/// The hardware address in the receive-address registers.
pub open spec fn mac_of(lo: u32, hi: u32) -> Seq<u8> {
    seq![
        (lo % 256) as u8,
        (lo / 0x100 % 256) as u8,
        (lo / 0x1_0000 % 256) as u8,
        (lo / 0x100_0000) as u8,
        (hi % 256) as u8,
        (hi / 0x100 % 256) as u8,
    ]
}

/// The hardware address in the EEPROM: three words.
pub open spec fn mac_of_words(a: u16, b: u16, c: u16) -> Seq<u8> {
    seq![
        (a % 256) as u8,
        (a / 256) as u8,
        (b % 256) as u8,
        (b / 256) as u8,
        (c % 256) as u8,
        (c / 256) as u8,
    ]
}

/// The hardware address in the receive-address registers; none if they are
/// empty, and the EEPROM has it.
pub fn mac_from_registers(lo: u32, hi: u32) -> (r: Option<[u8; 6]>)
    ensures
        match r {
            Some(m) => m@ == mac_of(lo, hi) && mac_of(lo, hi) != seq![0u8, 0, 0, 0, 0, 0],
            None => mac_of(lo, hi) == seq![0u8, 0, 0, 0, 0, 0],
        },
{
    let m: [u8; 6] = [
        (lo % 256) as u8,
        (lo / 0x100 % 256) as u8,
        (lo / 0x1_0000 % 256) as u8,
        (lo / 0x100_0000) as u8,
        (hi % 256) as u8,
        (hi / 0x100 % 256) as u8,
    ];
    proof {
        assert(m@ =~= mac_of(lo, hi));
    }
    if m[0] == 0 && m[1] == 0 && m[2] == 0 && m[3] == 0 && m[4] == 0 && m[5] == 0 {
        proof {
            assert(m@ =~= seq![0u8, 0, 0, 0, 0, 0]);
        }
        None
    } else {
        proof {
            assert(seq![0u8, 0, 0, 0, 0, 0][0] == 0);
            assert(m@[0] != 0 || m@[1] != 0 || m@[2] != 0 || m@[3] != 0 || m@[4] != 0 || m@[5] != 0);
        }
        Some(m)
    }
}

/// The hardware address in the EEPROM, and what to write to the
/// receive-address registers for it.
pub fn mac_from_eeprom(a: u16, b: u16, c: u16) -> (r: ([u8; 6], u32, u32))
    ensures
        r.0@ == mac_of_words(a, b, c),
        r.1 == a + 0x1_0000 * b,
        r.2 == c + 0x8000_0000,
        mac_of(r.1, r.2) == mac_of_words(a, b, c),
{
    let m: [u8; 6] = [
        (a % 256) as u8,
        (a / 256) as u8,
        (b % 256) as u8,
        (b / 256) as u8,
        (c % 256) as u8,
        (c / 256) as u8,
    ];
    let lo: u32 = a as u32 + 0x1_0000 * b as u32;
    let hi: u32 = c as u32 + 0x8000_0000;
    proof {
        assert(m@ =~= mac_of_words(a, b, c));
        assert(mac_of(lo, hi) =~= mac_of_words(a, b, c));
    }
    (m, lo, hi)
}

/// Ask for a word of the EEPROM.
pub fn eeprom_request(addr: u8) -> (r: u32)
    ensures
        r == 1 + addr * 0x100,
{
    1 + addr as u32 * 0x100
}

/// The word that the EEPROM register holds, once it is there.
pub fn eeprom_read(v: u32) -> (r: Option<u16>)
    ensures
        r == if v / 16 % 2 == 1 { Some((v / 0x1_0000) as u16) } else { None },
{
    if v / 16 % 2 == 1 { Some((v / 0x1_0000) as u16) } else { None }
}

// ---------------------------------------------------------------------
// Setting up
// ---------------------------------------------------------------------

/// The first `n` writes that empty the multicast table.
pub open spec fn clear_multicast(n: int) -> Seq<Io> {
    Seq::new(n as nat, |i: int| Io::Mem32((MTA + i * 4) as u32, 0))
}

/// The registers of the receive ring at `rx`: where it is, its length, all
/// slots but one with the card; then on, with broadcasts, without
/// checksums.
pub open spec fn receive_setup(rx: int) -> Seq<Io> {
    seq![
        Io::Mem32(RDBAL, (rx % 0x1_0000_0000) as u32),
        Io::Mem32(RDBAH, (rx / 0x1_0000_0000) as u32),
        Io::Mem32(RDLEN, 1024),
        Io::Mem32(RDH, 0),
        Io::Mem32(RDT, 63),
        Io::Mem32(RCTL, 0x0400_8002),
    ]
}

/// The registers of the transmit ring at `tx`.
pub open spec fn transmit_setup(tx: int) -> Seq<Io> {
    seq![
        Io::Mem32(TDBAL, (tx % 0x1_0000_0000) as u32),
        Io::Mem32(TDBAH, (tx / 0x1_0000_0000) as u32),
        Io::Mem32(TDLEN, 512),
        Io::Mem32(TDH, 0),
        Io::Mem32(TDT, 0),
        Io::Mem32(TCTL, 0x0004_00fa),
        Io::Mem32(TIPG, 0x0060_200a),
    ]
}

/// A descriptor of a ring, as two words.
#[derive(Clone, Copy, Debug, PartialEq, Eq, Structural)]
pub struct Descriptor {
    pub address: u64,
    pub control: u64,
}

/// The descriptor of the `i`th receive buffer.
pub open spec fn receive_descriptor(bufs: int, i: int) -> Descriptor {
    Descriptor { address: (bufs + i * BUF) as u64, control: 0 }
}

/// The descriptor of the `i`th transmit buffer, marked as done so that the
/// slot counts as free.
pub open spec fn transmit_descriptor(bufs: int, i: int) -> Descriptor {
    Descriptor { address: (bufs + i * BUF) as u64, control: 0x1_0000_0000 }
}

/// The network card: where it is in its rings.
#[derive(Clone, Copy)]
pub struct E1000 {
    pub rx_cur: usize,
    pub tx_cur: usize,
    pub mac: [u8; 6],
}

/// What the card has received.
#[derive(Clone, Copy, Debug, PartialEq, Eq, Structural)]
pub enum Received {
    Nothing,
    /// A frame of so many bytes, in this buffer.
    Frame { buffer: usize, len: usize },
    /// Something that is no whole frame, to be dropped.
    Broken { buffer: usize },
}

impl E1000 {
    pub open spec fn wf(self) -> bool {
        self.rx_cur < N_RX && self.tx_cur < N_TX
    }

    /// A card whose memory is mapped, with its hardware address.
    pub fn new(mac: [u8; 6]) -> (r: E1000)
        ensures
            r.wf(),
            r.rx_cur == 0,
            r.tx_cur == 0,
            r.mac == mac,
    {
        E1000 { rx_cur: 0, tx_cur: 0, mac }
    }

    /// Everything that is written to the registers once the hardware
    /// address is known. `rx` and `tx` are where the rings are.
    pub fn setup(rx: u64, tx: u64) -> (r: Vec<Io>)
        ensures
            r@ == clear_multicast(128) + receive_setup(rx as int) + transmit_setup(tx as int),
    {
        let mut v: Vec<Io> = Vec::new();
        let mut i: u32 = 0;
        proof {
            assert(v@ =~= clear_multicast(0));
        }
        while i < 128
            invariant
                i <= 128,
                v@ == clear_multicast(i as int),
            decreases 128 - i,
        {
            v.push(Io::Mem32(MTA + i * 4, 0));
            i += 1;
            proof {
                assert(v@ =~= clear_multicast(i as int));
            }
        }
        v.push(Io::Mem32(RDBAL, (rx % 0x1_0000_0000) as u32));
        v.push(Io::Mem32(RDBAH, (rx / 0x1_0000_0000) as u32));
        v.push(Io::Mem32(RDLEN, 1024));
        v.push(Io::Mem32(RDH, 0));
        v.push(Io::Mem32(RDT, 63));
        v.push(Io::Mem32(RCTL, 0x0400_8002));
        proof {
            assert(v@ =~= clear_multicast(128) + receive_setup(rx as int));
        }
        v.push(Io::Mem32(TDBAL, (tx % 0x1_0000_0000) as u32));
        v.push(Io::Mem32(TDBAH, (tx / 0x1_0000_0000) as u32));
        v.push(Io::Mem32(TDLEN, 512));
        v.push(Io::Mem32(TDH, 0));
        v.push(Io::Mem32(TDT, 0));
        v.push(Io::Mem32(TCTL, 0x0004_00fa));
        v.push(Io::Mem32(TIPG, 0x0060_200a));
        proof {
            assert(v@ =~= clear_multicast(128) + receive_setup(rx as int) + transmit_setup(tx as int));
        }
        v
    }

    /// The receive ring for buffers at `bufs`.
    pub fn receive_ring(bufs: u64) -> (r: Vec<Descriptor>)
        requires
            bufs + N_RX * BUF <= u64::MAX,
        ensures
            r@ == Seq::new(N_RX as nat, |i: int| receive_descriptor(bufs as int, i)),
    {
        let mut v: Vec<Descriptor> = Vec::new();
        let mut i: usize = 0;
        while i < N_RX
            invariant
                i <= N_RX,
                bufs + N_RX * BUF <= u64::MAX,
                v@ == Seq::new(i as nat, |k: int| receive_descriptor(bufs as int, k)),
            decreases N_RX - i,
        {
            v.push(Descriptor { address: bufs + (i * BUF) as u64, control: 0 });
            i += 1;
            proof {
                assert(v@ =~= Seq::new(i as nat, |k: int| receive_descriptor(bufs as int, k)));
            }
        }
        v
    }

    /// The transmit ring for buffers at `bufs`.
    pub fn transmit_ring(bufs: u64) -> (r: Vec<Descriptor>)
        requires
            bufs + N_TX * BUF <= u64::MAX,
        ensures
            r@ == Seq::new(N_TX as nat, |i: int| transmit_descriptor(bufs as int, i)),
    {
        let mut v: Vec<Descriptor> = Vec::new();
        let mut i: usize = 0;
        while i < N_TX
            invariant
                i <= N_TX,
                bufs + N_TX * BUF <= u64::MAX,
                v@ == Seq::new(i as nat, |k: int| transmit_descriptor(bufs as int, k)),
            decreases N_TX - i,
        {
            v.push(Descriptor { address: bufs + (i * BUF) as u64, control: 0x1_0000_0000 });
            i += 1;
            proof {
                assert(v@ =~= Seq::new(i as nat, |k: int| transmit_descriptor(bufs as int, k)));
            }
        }
        v
    }

    pub fn link_up(status: u32) -> (r: bool)
        ensures
            r == (status / 2 % 2 == 1),
    {
        status / 2 % 2 == 1
    }

    pub fn speed_mbps(status: u32) -> (r: u32)
        ensures
            r == if status / 64 % 4 == 0 {
                10u32
            } else if status / 64 % 4 == 1 {
                100u32
            } else {
                1000u32
            },
    {
        if status / 64 % 4 == 0 {
            10
        } else if status / 64 % 4 == 1 {
            100
        } else {
            1000
        }
    }

    /// The slot for a frame of this length; none if it is too long.
    pub fn slot_for(&self, len: usize) -> (r: Option<usize>)
        requires
            self.wf(),
        ensures
            r == if len > BUF { None } else { Some(self.tx_cur) },
    {
        if len > BUF { None } else { Some(self.tx_cur) }
    }

    /// The frame stands in the buffer of its slot: the second word of the
    /// descriptor that sends it, and the new end of the ring.
    pub fn send(&mut self, len: usize) -> (r: (u64, Io))
        requires
            old(self).wf(),
            len <= BUF,
        ensures
            final(self).wf(),
            *final(self) == (E1000 { tx_cur: (old(self).tx_cur + 1) as usize % N_TX, ..*old(self) }),
            r.0 == len + 0x0b00_0000,
            r.1 == Io::Mem32(TDT, final(self).tx_cur as u32),
    {
        self.tx_cur = (self.tx_cur + 1) % N_TX;
        (len as u64 + 0x0b00_0000, Io::Mem32(TDT, self.tx_cur as u32))
    }

    /// What the slot of the receive ring holds, by its descriptor's status,
    /// length and errors.
    pub open spec fn received(self, status: u8, len: u16, errors: u8) -> Received {
        if status % 2 == 0 {
            Received::Nothing
        } else if status / 2 % 2 == 1 && errors == 0 {
            Received::Frame { buffer: self.rx_cur, len: min(len as int, BUF as int) as usize }
        } else {
            Received::Broken { buffer: self.rx_cur }
        }
    }

    /// Take what the slot of the receive ring holds: it goes back to the
    /// card, whose new end of the ring it is.
    pub fn recv(&mut self, status: u8, len: u16, errors: u8) -> (r: (Received, Option<Io>))
        requires
            old(self).wf(),
        ensures
            final(self).wf(),
            r.0 == old(self).received(status, len, errors),
            r.1 == if status % 2 == 0 { None } else { Some(Io::Mem32(RDT, old(self).rx_cur as u32)) },
            *final(self) == if status % 2 == 0 {
                *old(self)
            } else {
                (E1000 { rx_cur: (old(self).rx_cur + 1) as usize % N_RX, ..*old(self) })
            },
    {
        if status % 2 == 0 {
            return (Received::Nothing, None);
        }
        let at: usize = self.rx_cur;
        let got: Received = if status / 2 % 2 == 1 && errors == 0 {
            Received::Frame { buffer: at, len: if (len as usize) < BUF { len as usize } else { BUF } }
        } else {
            Received::Broken { buffer: at }
        };
        self.rx_cur = (self.rx_cur + 1) % N_RX;
        (got, Some(Io::Mem32(RDT, at as u32)))
    }
}

/// The buffers of a ring do not overlap.
pub proof fn lemma_buffers_apart(bufs: int, i: int, j: int)
    requires
        0 <= bufs,
        0 <= i < j < N_RX,
        bufs + N_RX * BUF <= u64::MAX,
    ensures
        receive_descriptor(bufs, i).address + BUF <= receive_descriptor(bufs, j).address,
{
}

/// A hardware address that stands in the registers, or in the words of the
/// EEPROM, is read byte for byte, the first byte lowest.
pub proof fn lemma_mac_read(m: Seq<u8>)
    requires
        m.len() == 6,
    ensures
        mac_of(
            (m[0] + 0x100 * m[1] + 0x1_0000 * m[2] + 0x100_0000 * m[3]) as u32,
            (m[4] + 0x100 * m[5]) as u32,
        ) == m,
        mac_of_words((m[0] + 256 * m[1]) as u16, (m[2] + 256 * m[3]) as u16, (m[4] + 256 * m[5]) as u16) == m,
{
    let lo = m[0] + 0x100 * m[1] + 0x1_0000 * m[2] + 0x100_0000 * m[3];
    assert(lo / 0x100 == m[1] + 0x100 * m[2] + 0x1_0000 * m[3]);
    assert(lo / 0x1_0000 == m[2] + 0x100 * m[3]);
    assert(lo / 0x100_0000 == m[3]);
    assert(mac_of(lo as u32, (m[4] + 0x100 * m[5]) as u32) =~= m);
    assert(mac_of_words((m[0] + 256 * m[1]) as u16, (m[2] + 256 * m[3]) as u16, (m[4] + 256 * m[5]) as u16) =~= m);
}

/// What a slot holds is handed on only if it is there whole and without
/// errors, and no more of it than a buffer holds.
pub proof fn lemma_whole_frames(e: E1000, status: u8, len: u16, errors: u8)
    ensures
        e.received(status, len, errors) matches Received::Frame { buffer, len: n } ==> {
            &&& buffer == e.rx_cur
            &&& n <= BUF
            &&& len <= BUF ==> n == len
            &&& errors == 0
            &&& status % 4 == 3
        },
        status % 4 == 3 && errors == 0 ==> e.received(status, len, errors) is Frame,
        e.received(status, len, errors) is Nothing <==> status % 2 == 0,
{
}

} // verus!
