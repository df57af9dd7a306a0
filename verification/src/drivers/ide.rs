//! Legacy IDE (ATA PIO) disk driver. Slow but simple: 48-bit LBA, 16-bit
//! programmed I/O.

use super::block::{ata_model, ata_sectors, identify};
use super::io::{Io, Poll};
use crate::text::{dec, push_dec, to_chars};
use vstd::prelude::*;

verus! {

pub const READ: u8 = 0x24;
pub const WRITE: u8 = 0x34;
pub const FLUSH: u8 = 0xea;
pub const IDENTIFY: u8 = 0xec;

pub struct IdeDisk {
    pub io: u16,
    pub ctrl: u16,
    pub slave: bool,
    pub sectors: u64,
    pub model: Vec<char>,
    pub name: Vec<char>,
}

/// The ports of a channel: its registers and its control register.
pub fn channel(ch: u8) -> (r: (u16, u16))
    ensures
        r == if ch == 0 { (0x1f0u16, 0x3f6u16) } else { (0x170u16, 0x376u16) },
{
    if ch == 0 { (0x1f0, 0x3f6) } else { (0x170, 0x376) }
}

/// Reading the control register four times takes as long as a disk needs
/// to show its status.
pub open spec fn delay_of(ctrl: u16) -> Seq<Io> {
    seq![Io::In8(ctrl), Io::In8(ctrl), Io::In8(ctrl), Io::In8(ctrl)]
}

fn push_delay(v: &mut Vec<Io>, ctrl: u16)
    ensures
        final(v)@ == old(v)@ + delay_of(ctrl),
{
    v.push(Io::In8(ctrl));
    v.push(Io::In8(ctrl));
    v.push(Io::In8(ctrl));
    v.push(Io::In8(ctrl));
    proof {
        assert(v@ =~= old(v)@ + delay_of(ctrl));
    }
}

/// Set up a command: select the disk, then the 48-bit sector number and the
/// count, high bytes first, then low bytes.
pub open spec fn setup_steps(io: u16, ctrl: u16, slave: bool, lba: int, count: int, cmd: u8) -> Seq<Io> {
    seq![Io::Out8((io + 6) as u16, if slave { 0x50u8 } else { 0x40u8 })] + delay_of(ctrl) + seq![
        Io::Out8((io + 2) as u16, (count / 256 % 256) as u8),
        Io::Out8((io + 3) as u16, (lba / 0x100_0000 % 256) as u8),
        Io::Out8((io + 4) as u16, (lba / 0x1_0000_0000 % 256) as u8),
        Io::Out8((io + 5) as u16, (lba / 0x100_0000_0000 % 256) as u8),
        Io::Out8((io + 2) as u16, (count % 256) as u8),
        Io::Out8((io + 3) as u16, (lba % 256) as u8),
        Io::Out8((io + 4) as u16, (lba / 0x100 % 256) as u8),
        Io::Out8((io + 5) as u16, (lba / 0x1_0000 % 256) as u8),
        Io::Out8((io + 7) as u16, cmd),
    ]
}

/// Ask a disk what it is.
pub open spec fn identify_steps(io: u16, ctrl: u16, slave: bool) -> Seq<Io> {
    seq![Io::Out8((io + 6) as u16, if slave { 0xb0u8 } else { 0xa0u8 })] + delay_of(ctrl) + seq![
        Io::Out8((io + 2) as u16, 0),
        Io::Out8((io + 3) as u16, 0),
        Io::Out8((io + 4) as u16, 0),
        Io::Out8((io + 5) as u16, 0),
        Io::Out8((io + 7) as u16, IDENTIFY),
    ]
}

pub fn ask(io: u16, ctrl: u16, slave: bool) -> (r: Vec<Io>)
    requires
        io <= 0xff00,
    ensures
        r@ == identify_steps(io, ctrl, slave),
{
    let mut v: Vec<Io> = Vec::new();
    v.push(Io::Out8(io + 6, if slave { 0xb0 } else { 0xa0 }));
    push_delay(&mut v, ctrl);
    v.push(Io::Out8(io + 2, 0));
    v.push(Io::Out8(io + 3, 0));
    v.push(Io::Out8(io + 4, 0));
    v.push(Io::Out8(io + 5, 0));
    v.push(Io::Out8(io + 7, IDENTIFY));
    proof {
        assert(v@ =~= identify_steps(io, ctrl, slave));
    }
    v
}

/// Whether a channel has no disks: a floating bus reads all ones.
pub fn is_floating(status: u8) -> (r: bool)
    ensures
        r == (status == 0xff),
{
    status == 0xff
}

/// Whether a disk answers a question at all, by its status right after.
pub fn answers(status: u8) -> (r: bool)
    ensures
        r == (status != 0),
{
    status != 0
}

/// Whether a disk that is ready is a hard disk: ATAPI devices leave a
/// signature in two registers.
pub fn is_ata(mid: u8, high: u8) -> (r: bool)
    ensures
        r == (mid == 0 && high == 0),
{
    mid == 0 && high == 0
}

/// How many sectors the next command of a transfer moves.
pub fn batch(total: usize, done: usize) -> (r: u16)
    requires
        done <= total,
    ensures
        r == if total - done < 256 { total - done } else { 256 },
{
    if total - done < 256 { (total - done) as u16 } else { 256 }
}

/// Whether a disk is ready for the next command, by its status.
pub open spec fn ready(status: u8, elapsed_ms: u64, ms: u64) -> Poll {
    if status < 0x80 {
        if status % 2 == 0 { Poll::Done } else { Poll::Failed }
    } else if elapsed_ms > ms {
        Poll::Failed
    } else {
        Poll::Wait
    }
}

/// Whether a disk wants data moved, by its status.
pub open spec fn data_ready(status: u8, elapsed_ms: u64) -> Poll {
    if status % 2 == 1 {
        Poll::Failed
    } else if status < 0x80 && status / 8 % 2 == 1 {
        Poll::Done
    } else if elapsed_ms > 2000 {
        Poll::Failed
    } else {
        Poll::Wait
    }
}

impl IdeDisk {
    pub open spec fn wf(self) -> bool {
        self.io <= 0xff00
    }

    pub fn wait_ready(status: u8, elapsed_ms: u64, ms: u64) -> (r: Poll)
        ensures
            r == ready(status, elapsed_ms, ms),
    {
        if status < 0x80 {
            if status % 2 == 0 { Poll::Done } else { Poll::Failed }
        } else if elapsed_ms > ms {
            Poll::Failed
        } else {
            Poll::Wait
        }
    }

    pub fn wait_drq(status: u8, elapsed_ms: u64) -> (r: Poll)
        ensures
            r == data_ready(status, elapsed_ms),
    {
        if status % 2 == 1 {
            Poll::Failed
        } else if status < 0x80 && status / 8 % 2 == 1 {
            Poll::Done
        } else if elapsed_ms > 2000 {
            Poll::Failed
        } else {
            Poll::Wait
        }
    }

    pub fn setup(&self, lba: u64, count: u16, cmd: u8) -> (r: Vec<Io>)
        requires
            self.wf(),
        ensures
            r@ == setup_steps(self.io, self.ctrl, self.slave, lba as int, count as int, cmd),
    {
        let io: u16 = self.io;
        let mut v: Vec<Io> = Vec::new();
        v.push(Io::Out8(io + 6, if self.slave { 0x50 } else { 0x40 }));
        push_delay(&mut v, self.ctrl);
        v.push(Io::Out8(io + 2, (count / 256 % 256) as u8));
        v.push(Io::Out8(io + 3, (lba / 0x100_0000 % 256) as u8));
        v.push(Io::Out8(io + 4, (lba / 0x1_0000_0000 % 256) as u8));
        v.push(Io::Out8(io + 5, (lba / 0x100_0000_0000 % 256) as u8));
        v.push(Io::Out8(io + 2, (count % 256) as u8));
        v.push(Io::Out8(io + 3, (lba % 256) as u8));
        v.push(Io::Out8(io + 4, (lba / 0x100 % 256) as u8));
        v.push(Io::Out8(io + 5, (lba / 0x1_0000 % 256) as u8));
        v.push(Io::Out8(io + 7, cmd));
        proof {
            assert(v@ =~= setup_steps(self.io, self.ctrl, self.slave, lba as int, count as int, cmd));
        }
        v
    }

    /// The disk of a channel, by what it says of itself; none if it has no
    /// sectors.
    pub fn new(ch: u8, slave: bool, id: &[u8]) -> (r: Option<IdeDisk>)
        requires
            id@.len() >= 512,
            ch < 2,
        ensures
            r is Some == (ata_sectors(id@) > 0),
            r matches Some(d) ==> {
                &&& (d.io, d.ctrl) == if ch == 0 { (0x1f0u16, 0x3f6u16) } else { (0x170u16, 0x376u16) }
                &&& d.slave == slave
                &&& d.sectors == ata_sectors(id@)
                &&& d.model@ == ata_model(id@)
                &&& d.name@ == "ide"@ + dec((2 * ch + if slave { 1int } else { 0 }) as nat)
                &&& d.wf()
            },
    {
        let (sectors, model) = identify(id);
        if sectors == 0 {
            return None;
        }
        let (io, ctrl) = channel(ch);
        let mut name: Vec<char> = to_chars("ide");
        push_dec(&mut name, ch as u64 * 2 + if slave { 1 } else { 0 });
        Some(IdeDisk { io, ctrl, slave, sectors, model, name })
    }
}

/// The bytes that are written to a register, in order.
pub open spec fn bytes_to(v: Seq<Io>, port: int) -> Seq<u8>
    decreases v.len(),
{
    if v.len() == 0 {
        Seq::empty()
    } else {
        let before = bytes_to(v.drop_last(), port);
        match v.last() {
            Io::Out8(p, b) => if p == port { before.push(b) } else { before },
            _ => before,
        }
    }
}

proof fn lemma_bytes_push(v: Seq<Io>, x: Io, port: int)
    ensures
        bytes_to(v.push(x), port) == (match x {
            Io::Out8(p, b) => if p == port { bytes_to(v, port).push(b) } else { bytes_to(v, port) },
            _ => bytes_to(v, port),
        }),
{
    assert(v.push(x).drop_last() =~= v);
}

proof fn lemma_register(io: u16, ctrl: u16, slave: bool, lba: int, count: int, cmd: u8, r: int, high: u8, low: u8)
    requires
        io <= 0xff00,
        r == 2 ==> high == (count / 256 % 256) as u8 && low == (count % 256) as u8,
        r == 3 ==> high == (lba / 0x100_0000 % 256) as u8 && low == (lba % 256) as u8,
        r == 4 ==> high == (lba / 0x1_0000_0000 % 256) as u8 && low == (lba / 0x100 % 256) as u8,
        r == 5 ==> high == (lba / 0x100_0000_0000 % 256) as u8 && low == (lba / 0x1_0000 % 256) as u8,
        2 <= r <= 5,
    ensures
        bytes_to(setup_steps(io, ctrl, slave, lba, count, cmd), io + r) == seq![high, low],
{
    let e = Seq::<Io>::empty();
    let p = io + r;
    let x0 = Io::Out8((io + 6) as u16, if slave { 0x50u8 } else { 0x40u8 });
    let d = Io::In8(ctrl);
    let x1 = Io::Out8((io + 2) as u16, (count / 256 % 256) as u8);
    let x2 = Io::Out8((io + 3) as u16, (lba / 0x100_0000 % 256) as u8);
    let x3 = Io::Out8((io + 4) as u16, (lba / 0x1_0000_0000 % 256) as u8);
    let x4 = Io::Out8((io + 5) as u16, (lba / 0x100_0000_0000 % 256) as u8);
    let x5 = Io::Out8((io + 2) as u16, (count % 256) as u8);
    let x6 = Io::Out8((io + 3) as u16, (lba % 256) as u8);
    let x7 = Io::Out8((io + 4) as u16, (lba / 0x100 % 256) as u8);
    let x8 = Io::Out8((io + 5) as u16, (lba / 0x1_0000 % 256) as u8);
    let x9 = Io::Out8((io + 7) as u16, cmd);
    let b0 = e.push(x0);
    let b1 = b0.push(d);
    let b2 = b1.push(d);
    let b3 = b2.push(d);
    let b4 = b3.push(d);
    let a1 = b4.push(x1);
    let a2 = a1.push(x2);
    let a3 = a2.push(x3);
    let a4 = a3.push(x4);
    let a5 = a4.push(x5);
    let a6 = a5.push(x6);
    let a7 = a6.push(x7);
    let a8 = a7.push(x8);
    let a9 = a8.push(x9);
    assert(setup_steps(io, ctrl, slave, lba, count, cmd) =~= a9);
    lemma_bytes_push(e, x0, p);
    lemma_bytes_push(b0, d, p);
    lemma_bytes_push(b1, d, p);
    lemma_bytes_push(b2, d, p);
    lemma_bytes_push(b3, d, p);
    lemma_bytes_push(b4, x1, p);
    lemma_bytes_push(a1, x2, p);
    lemma_bytes_push(a2, x3, p);
    lemma_bytes_push(a3, x4, p);
    lemma_bytes_push(a4, x5, p);
    lemma_bytes_push(a5, x6, p);
    lemma_bytes_push(a6, x7, p);
    lemma_bytes_push(a7, x8, p);
    lemma_bytes_push(a8, x9, p);
    assert(bytes_to(e, p) =~= Seq::<u8>::empty());
    assert(Seq::<u8>::empty().push(high).push(low) =~= seq![high, low]);
}

/// A command reaches the disk with the sector and the count that it is for:
/// each register gets two bytes, the high one first. The disk is chosen
/// before, and the command itself is the last thing that is written.
pub proof fn lemma_sector_reaches_disk(io: u16, ctrl: u16, slave: bool, lba: int, count: int, cmd: u8)
    requires
        io <= 0xff00,
        0 <= lba < 0x1_0000_0000_0000,
        0 <= count < 0x1_0000,
    ensures
        ({
            let v = setup_steps(io, ctrl, slave, lba, count, cmd);
            let n = bytes_to(v, io + 2);
            let (a, b, c) = (bytes_to(v, io + 3), bytes_to(v, io + 4), bytes_to(v, io + 5));
            &&& v.last() == Io::Out8((io + 7) as u16, cmd)
            &&& v[0] == Io::Out8((io + 6) as u16, if slave { 0x50u8 } else { 0x40u8 })
            &&& n.len() == 2 && a.len() == 2 && b.len() == 2 && c.len() == 2
            &&& n[0] * 256 + n[1] == count
            &&& a[1] + 0x100 * b[1] + 0x1_0000 * c[1] + 0x100_0000 * a[0] + 0x1_0000_0000 * b[0] + 0x100_0000_0000
                * c[0] == lba
        }),
{
    lemma_register(io, ctrl, slave, lba, count, cmd, 2, (count / 256 % 256) as u8, (count % 256) as u8);
    lemma_register(io, ctrl, slave, lba, count, cmd, 3, (lba / 0x100_0000 % 256) as u8, (lba % 256) as u8);
    lemma_register(io, ctrl, slave, lba, count, cmd, 4, (lba / 0x1_0000_0000 % 256) as u8, (lba / 0x100 % 256) as u8);
    lemma_register(
        io,
        ctrl,
        slave,
        lba,
        count,
        cmd,
        5,
        (lba / 0x100_0000_0000 % 256) as u8,
        (lba / 0x1_0000 % 256) as u8,
    );
    lemma_six_bytes(lba);
}

proof fn lemma_six_bytes(lba: int)
    requires
        0 <= lba < 0x1_0000_0000_0000,
    ensures
        lba == lba % 256 + 0x100 * (lba / 0x100 % 256) + 0x1_0000 * (lba / 0x1_0000 % 256) + 0x100_0000 * (lba
            / 0x100_0000 % 256) + 0x1_0000_0000 * (lba / 0x1_0000_0000 % 256) + 0x100_0000_0000 * (lba
            / 0x100_0000_0000 % 256),
{
    let q1 = lba / 0x100;
    let q2 = q1 / 0x100;
    let q3 = q2 / 0x100;
    let q4 = q3 / 0x100;
    let q5 = q4 / 0x100;
    lemma_twice(lba, 0x100);
    lemma_twice(lba, 0x1_0000);
    lemma_twice(lba, 0x100_0000);
    lemma_twice(lba, 0x1_0000_0000);
    assert(q2 == lba / 0x1_0000);
    assert(q3 == lba / 0x100_0000);
    assert(q4 == lba / 0x1_0000_0000);
    assert(q5 == lba / 0x100_0000_0000);
    assert(lba == lba % 256 + 256 * q1);
    assert(q1 == q1 % 256 + 256 * q2);
    assert(q2 == q2 % 256 + 256 * q3);
    assert(q3 == q3 % 256 + 256 * q4);
    assert(q4 == q4 % 256 + 256 * q5);
    assert(0 <= q5 < 256);
}

proof fn lemma_twice(v: int, d: int)
    requires
        v >= 0,
        d > 0,
    ensures
        v / d / 0x100 == v / (d * 0x100),
{
    vstd::arithmetic::div_mod::lemma_div_denominator(v, d, 0x100);
}

} // verus!
