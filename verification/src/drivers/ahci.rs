//! AHCI (SATA) disk driver. Polled DMA, one command at a time.

use super::block::{ata_model, ata_sectors, identify, pieces, plan, Piece};
use super::io::{Io, Poll};
use crate::text::{dec, push_dec, to_chars};
use vstd::prelude::*;

verus! {

pub const GHC: u32 = 0x04;
pub const PI: u32 = 0x0c;
pub const PORT_BASE: u32 = 0x100;

pub const P_CLB: u32 = 0x00;
pub const P_CLBU: u32 = 0x04;
pub const P_FB: u32 = 0x08;
pub const P_FBU: u32 = 0x0c;
pub const P_IS: u32 = 0x10;
pub const P_IE: u32 = 0x14;
pub const P_CMD: u32 = 0x18;
pub const P_TFD: u32 = 0x20;
pub const P_SIG: u32 = 0x24;
pub const P_SSTS: u32 = 0x28;
pub const P_SERR: u32 = 0x30;
pub const P_CI: u32 = 0x38;

pub const CMD_ST: u32 = 0x1;
pub const CMD_FRE: u32 = 0x10;
pub const CMD_FR: u32 = 0x4000;
pub const CMD_CR: u32 = 0x8000;

pub const SIG_ATA: u32 = 0x101;
pub const ATA_READ_DMA_EXT: u8 = 0x25;
pub const ATA_WRITE_DMA_EXT: u8 = 0x35;
pub const ATA_FLUSH_EXT: u8 = 0xea;
pub const ATA_IDENTIFY: u8 = 0xec;

/// How many sectors one command moves at most.
pub const BOUNCE_SECTORS: usize = 128;

pub struct AhciDisk {
    pub sectors: u64,
    pub model: Vec<char>,
    pub name: Vec<char>,
}

/// Whether a port is there, has an active device, and that is an ATA disk.
pub fn has_disk(implemented: u32, port: u32, ssts: u32, sig: u32) -> (r: bool)
    requires
        port < 32,
    ensures
        r == (implemented & (1u32 << port) != 0 && ssts % 16 == 3 && ssts / 0x100 % 16 == 1 && sig == SIG_ATA),
{
    implemented & (1u32 << port) != 0 && ssts % 16 == 3 && ssts / 0x100 % 16 == 1 && sig == SIG_ATA
}

/// Where the registers of a port are.
pub fn port_base(port: u32) -> (r: u32)
    requires
        port < 32,
    ensures
        r == PORT_BASE + port * 0x80,
{
    PORT_BASE + port * 0x80
}

/// The control register in AHCI mode.
pub fn ahci_mode(ghc: u32) -> (r: u32)
    ensures
        r == ghc | (1u32 << 31),
{
    ghc | (1u32 << 31)
}

/// The command register of a port, first without commands and then without
/// received frames.
pub fn stopped(cmd: u32) -> (r: (u32, u32))
    ensures
        r == (cmd & !CMD_ST, cmd & !CMD_FRE),
{
    (cmd & !CMD_ST, cmd & !CMD_FRE)
}

/// What installs a command list at `mem`, with the received frames behind
/// it, in a port that stands still.
pub fn install(mem: u64) -> (r: Vec<Io>)
    requires
        mem + 1024 <= u64::MAX,
    ensures
        r@ == seq![
            Io::Mem32(P_CLB, (mem % 0x1_0000_0000) as u32),
            Io::Mem32(P_CLBU, (mem / 0x1_0000_0000) as u32),
            Io::Mem32(P_FB, ((mem + 1024) as int % 0x1_0000_0000) as u32),
            Io::Mem32(P_FBU, ((mem + 1024) as int / 0x1_0000_0000) as u32),
            Io::Mem32(P_SERR, 0xffff_ffff),
            Io::Mem32(P_IS, 0xffff_ffff),
            Io::Mem32(P_IE, 0),
        ],
{
    let fb: u64 = mem + 1024;
    let mut v: Vec<Io> = Vec::new();
    v.push(Io::Mem32(P_CLB, (mem % 0x1_0000_0000) as u32));
    v.push(Io::Mem32(P_CLBU, (mem / 0x1_0000_0000) as u32));
    v.push(Io::Mem32(P_FB, (fb % 0x1_0000_0000) as u32));
    v.push(Io::Mem32(P_FBU, (fb / 0x1_0000_0000) as u32));
    v.push(Io::Mem32(P_SERR, 0xffff_ffff));
    v.push(Io::Mem32(P_IS, 0xffff_ffff));
    v.push(Io::Mem32(P_IE, 0));
    v
}

/// A command: its header, its frame, and the entry for its data, if it
/// moves any.
pub struct CommandBlock {
    pub header: Vec<u32>,
    pub frame: Vec<u8>,
    pub data: Option<(u64, u32)>,
}

/// The frame of a command: a register update from the host, with a 48-bit
/// sector number and a 16-bit count.
pub open spec fn frame_of(cmd: u8, lba: int, count: int) -> Seq<u8> {
    seq![
        0x27u8,
        0x80,
        cmd,
        0,
        (lba % 256) as u8,
        (lba / 0x100 % 256) as u8,
        (lba / 0x1_0000 % 256) as u8,
        0x40,
        (lba / 0x100_0000 % 256) as u8,
        (lba / 0x1_0000_0000 % 256) as u8,
        (lba / 0x100_0000_0000 % 256) as u8,
        0,
        (count % 256) as u8,
        (count / 256 % 256) as u8,
        0,
        0,
    ]
}

/// The sector number that a frame holds.
pub open spec fn frame_lba(f: Seq<u8>) -> int {
    f[4] + 0x100 * f[5] + 0x1_0000 * f[6] + 0x100_0000 * f[8] + 0x1_0000_0000 * f[9] + 0x100_0000_0000 * f[10]
}

/// A frame holds its sector number and its count.
pub proof fn lemma_frame(cmd: u8, lba: int, count: int)
    requires
        0 <= lba < 0x1_0000_0000_0000,
        0 <= count < 0x1_0000,
    ensures
        frame_lba(frame_of(cmd, lba, count)) == lba,
        frame_of(cmd, lba, count)[12] + 256 * frame_of(cmd, lba, count)[13] == count,
{
    let b0 = lba % 256;
    let r1 = lba / 0x100;
    let r2 = lba / 0x1_0000;
    let r3 = lba / 0x100_0000;
    let r4 = lba / 0x1_0000_0000;
    let r5 = lba / 0x100_0000_0000;
    assert(r1 == r2 * 256 + r1 % 256);
    assert(r2 == r3 * 256 + r2 % 256);
    assert(r3 == r4 * 256 + r3 % 256);
    assert(r4 == r5 * 256 + r4 % 256);
    assert(r5 % 256 == r5);
}

impl AhciDisk {
    /// One ATA command through the first command slot, moving `count`
    /// sectors via the buffer at `bounce`. `mem` is where the command list
    /// is.
    pub fn command(cmd: u8, lba: u64, count: usize, write: bool, mem: u64, bounce: u64) -> (r: CommandBlock)
        requires
            count <= BOUNCE_SECTORS,
            mem + 2048 <= u64::MAX,
        ensures
            r.header@ == seq![
                (5 + (if write { 0x40int } else { 0 }) + 0x1_0000) as u32,
                0u32,
                ((mem + 2048) as int % 0x1_0000_0000) as u32,
                ((mem + 2048) as int / 0x1_0000_0000) as u32,
            ],
            r.frame@ == frame_of(cmd, lba as int, count as int),
            r.data == if count > 0 { Some((bounce, (count * 512 - 1) as u32)) } else { None },
    {
        let table: u64 = mem + 2048;
        let mut header: Vec<u32> = Vec::new();
        header.push(5 + (if write { 0x40 } else { 0 }) + 0x1_0000);
        header.push(0);
        header.push((table % 0x1_0000_0000) as u32);
        header.push((table / 0x1_0000_0000) as u32);
        let mut frame: Vec<u8> = Vec::new();
        frame.push(0x27);
        frame.push(0x80);
        frame.push(cmd);
        frame.push(0);
        frame.push((lba % 256) as u8);
        frame.push((lba / 0x100 % 256) as u8);
        frame.push((lba / 0x1_0000 % 256) as u8);
        frame.push(0x40);
        frame.push((lba / 0x100_0000 % 256) as u8);
        frame.push((lba / 0x1_0000_0000 % 256) as u8);
        frame.push((lba / 0x100_0000_0000 % 256) as u8);
        frame.push(0);
        frame.push((count % 256) as u8);
        frame.push((count / 256 % 256) as u8);
        frame.push(0);
        frame.push(0);
        let data: Option<(u64, u32)> = if count > 0 { Some((bounce, (count * 512 - 1) as u32)) } else { None };
        CommandBlock { header, frame, data }
    }

    /// Whether a command is done, by the slots still busy, the interrupt
    /// status, and how long it has taken.
    pub fn poll(ci: u32, is: u32, elapsed_ms: u64) -> (r: Poll)
        ensures
            r == if ci % 2 == 0 {
                Poll::Done
            } else if is & (1u32 << 30) != 0 || elapsed_ms > 5000 {
                Poll::Failed
            } else {
                Poll::Wait
            },
    {
        if ci % 2 == 0 {
            Poll::Done
        } else if is & (1u32 << 30) != 0 || elapsed_ms > 5000 {
            Poll::Failed
        } else {
            Poll::Wait
        }
    }

    /// Whether a register has the bits of a mask cleared.
    pub fn wait_clear(value: u32, mask: u32, elapsed_ms: u64, ms: u64) -> (r: Poll)
        ensures
            r == if value & mask == 0 {
                Poll::Done
            } else if elapsed_ms > ms {
                Poll::Failed
            } else {
                Poll::Wait
            },
    {
        if value & mask == 0 {
            Poll::Done
        } else if elapsed_ms > ms {
            Poll::Failed
        } else {
            Poll::Wait
        }
    }

    /// Whether a command that is done has succeeded, by the task file.
    pub fn succeeded(tfd: u32) -> (r: bool)
        ensures
            r == (tfd % 2 == 0),
    {
        tfd % 2 == 0
    }

    /// The disk at a port, by what it says of itself.
    pub fn new(port: u32, id: &[u8]) -> (r: AhciDisk)
        requires
            id@.len() >= 512,
        ensures
            r.sectors == ata_sectors(id@),
            r.model@ == ata_model(id@),
            r.name@ == "sata"@ + dec(port as nat),
    {
        let (sectors, model) = identify(id);
        let mut name: Vec<char> = to_chars("sata");
        push_dec(&mut name, port as u64);
        AhciDisk { sectors, model, name }
    }

    /// The commands for a transfer, up to the first that is not on the
    /// disk, and whether there is none such.
    pub fn transfer(&self, lba: u64, len: usize) -> (r: (Vec<Piece>, bool))
        ensures
            (r.0@, r.1) == pieces(lba as int, len as int, 0, self.sectors as int, 65536),
    {
        plan(lba, len, self.sectors, BOUNCE_SECTORS * 512)
    }
}

} // verus!
