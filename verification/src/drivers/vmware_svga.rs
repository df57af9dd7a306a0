//! VMware SVGA II display adapter.
//!
//! Registers are reached through an index/value I/O port pair at BAR 0;
//! the framebuffer is BAR 1 and the command FIFO BAR 2. We use it in 2D:
//! set a mode, draw into video memory, and send UPDATE commands for changed
//! areas.
//!
//! All of the video memory is mapped once at start-up, and every mode is
//! checked to fit inside it before it is used.

use crate::arith::{max, min};
use vstd::prelude::*;

verus! {

pub const REG_ID: u32 = 0;
pub const REG_ENABLE: u32 = 1;
pub const REG_WIDTH: u32 = 2;
pub const REG_HEIGHT: u32 = 3;
pub const REG_MAX_WIDTH: u32 = 4;
pub const REG_MAX_HEIGHT: u32 = 5;
pub const REG_BITS_PER_PIXEL: u32 = 7;
pub const REG_BYTES_PER_LINE: u32 = 12;
pub const REG_FB_START: u32 = 13;
pub const REG_FB_OFFSET: u32 = 14;
pub const REG_VRAM_SIZE: u32 = 15;
pub const REG_CAPABILITIES: u32 = 17;
pub const REG_MEM_START: u32 = 18;
pub const REG_MEM_SIZE: u32 = 19;
pub const REG_CONFIG_DONE: u32 = 20;
pub const REG_SYNC: u32 = 21;
pub const REG_BUSY: u32 = 22;
pub const REG_GUEST_ID: u32 = 23;

pub const SVGA_ID_2: u32 = 0x9000_0002;
pub const CAP_EXTENDED_FIFO: u32 = 0x8000;
pub const CMD_UPDATE: u32 = 1;

pub const FIFO_MIN: u32 = 0;
pub const FIFO_MAX: u32 = 1;
pub const FIFO_NEXT_CMD: u32 = 2;
pub const FIFO_STOP: u32 = 3;

/// Number of FIFO registers when the extended FIFO is in use: commands
/// must start after them, or the device's own register writes would
/// land in our command stream.
pub const FIFO_NUM_REGS: u32 = 293;

/// Video memory that is used at most.
pub const MAX_VRAM: u64 = 0x1000_0000;

/// What the registers of the adapter say.
#[derive(Clone, Copy, Debug, PartialEq, Eq, Structural)]
pub struct Registers {
    /// The identification that it gives back.
    pub id: u32,
    pub fb_start: u32,
    pub vram: u32,
    pub max_width: u32,
    pub max_height: u32,
    pub mem_start: u32,
    pub mem_size: u32,
    pub capabilities: u32,
}

#[derive(Clone, Copy)]
pub struct VmwareSvga {
    pub io: u16,
    pub fb_phys: u64,
    pub fb_len: u64,
    pub fifo_phys: u64,
    pub fifo_size: u32,
    pub vram: u32,
    pub max: (u32, u32),
    pub width: u32,
    pub height: u32,
    pub pitch: u64,
    pub offset: u64,
    pub stalled: bool,
    /// UPDATE commands queued since the last nudge.
    pub pending: bool,
}

/// Where the framebuffer is: what the register says, or the second base
/// address register.
pub open spec fn fb_address(r: Registers, bar1: u64) -> u64 {
    if r.fb_start != 0 { r.fb_start as u64 } else { bar1 }
}

pub open spec fn fifo_address(r: Registers, bar2: u64) -> u64 {
    if r.mem_start != 0 { r.mem_start as u64 } else { bar2 }
}

/// Where commands begin in the FIFO, in bytes.
pub open spec fn fifo_first(capabilities: u32) -> int {
    if capabilities & CAP_EXTENDED_FIFO != 0 { FIFO_NUM_REGS * 4 } else { 16 }
}

/// Whether the adapter can be used.
pub open spec fn usable(bar0: u32, r: Registers, bar1: u64, bar2: u64) -> bool {
    &&& bar0 % 2 == 1
    &&& r.id == SVGA_ID_2
    &&& fb_address(r, bar1) != 0
    &&& r.vram >= 0x10_0000
    &&& fifo_address(r, bar2) != 0
    &&& r.mem_size >= 4096
}

/// The registers that set a mode, with their values.
pub open spec fn mode_values(w: u32, h: u32) -> Seq<(u32, u32)> {
    seq![(REG_WIDTH, w), (REG_HEIGHT, h), (REG_BITS_PER_PIXEL, 32u32), (REG_ENABLE, 1u32)]
}

/// The words that set the FIFO up: its registers cleared, then its bounds,
/// with nothing in it.
pub open spec fn fifo_setup(first: int, size: u32) -> Seq<(u32, u32)> {
    Seq::new((first / 4) as nat, |i: int| (i as u32, 0u32)) + seq![
        (FIFO_MIN, first as u32),
        (FIFO_MAX, size),
        (FIFO_NEXT_CMD, first as u32),
        (FIFO_STOP, first as u32),
    ]
}

/// The place after `next` in the FIFO.
pub open spec fn step(lo: int, hi: int, next: int) -> int {
    if next + 4 >= hi { lo } else { next + 4 }
}

/// The place `k` words after `next`.
pub open spec fn steps(lo: int, hi: int, next: int, k: int) -> int
    decreases k,
{
    if k <= 0 { next } else { step(lo, hi, steps(lo, hi, next, k - 1)) }
}

/// The places stay between the bounds of the FIFO and whole words apart.
pub proof fn lemma_steps(lo: int, hi: int, next: int, k: int)
    requires
        lo <= next < hi,
        lo % 4 == 0,
        next % 4 == 0,
        hi > lo,
        k >= 0,
    ensures
        lo <= steps(lo, hi, next, k) < hi,
        steps(lo, hi, next, k) % 4 == 0,
    decreases k,
{
    if k > 0 {
        lemma_steps(lo, hi, next, k - 1);
    }
}

/// The words of an update, and where they go.
pub open spec fn update_words(lo: int, hi: int, next: int, x: u32, y: u32, w: u32, h: u32) -> Seq<(u32, u32)> {
    seq![
        ((steps(lo, hi, next, 0) / 4) as u32, CMD_UPDATE),
        ((steps(lo, hi, next, 1) / 4) as u32, x),
        ((steps(lo, hi, next, 2) / 4) as u32, y),
        ((steps(lo, hi, next, 3) / 4) as u32, w),
        ((steps(lo, hi, next, 4) / 4) as u32, h),
        (FIFO_NEXT_CMD, steps(lo, hi, next, 5) as u32),
    ]
}

/// The command FIFO: its bounds, where the next command goes, and how far
/// the device has come, in bytes.
#[derive(Clone, Copy, Debug, PartialEq, Eq, Structural)]
pub struct Fifo {
    pub lo: u32,
    pub hi: u32,
    pub next: u32,
    pub stop: u32,
}

impl Fifo {
    pub open spec fn wf(self) -> bool {
        &&& self.lo <= self.next < self.hi <= u32::MAX - 4
        &&& self.lo <= self.stop < self.hi
        &&& self.lo % 4 == 0
        &&& self.next % 4 == 0
    }

    /// How much room is left.
    pub open spec fn free(self) -> int {
        if self.next >= self.stop {
            (self.hi - self.next) + (self.stop - self.lo)
        } else {
            self.stop - self.next
        }
    }

    /// Whether a FIFO can be used as it is.
    pub fn is_sound(&self) -> (r: bool)
        ensures
            r == self.wf(),
    {
        self.lo <= self.next && self.next < self.hi && self.hi <= u32::MAX - 4 && self.lo <= self.stop && self.stop
            < self.hi && self.lo % 4 == 0 && self.next % 4 == 0
    }

    /// Whether an update fits.
    fn has_room(&self) -> (r: bool)
        requires
            self.wf(),
        ensures
            r == (self.free() > 24),
    {
        let free: u64 = if self.next >= self.stop {
            (self.hi - self.next) as u64 + (self.stop - self.lo) as u64
        } else {
            (self.stop - self.next) as u64
        };
        free > 24
    }
}

/// What to do next for an update: words to write, with their places;
/// have the device process the FIFO; or leave it.
pub enum UpdateStep {
    Write { words: Vec<(u32, u32)> },
    Sync,
    /// `fresh`: the device has just stopped processing the FIFO.
    Skip { fresh: bool },
}

#[verifier::ext_equal]
pub ghost enum Update {
    Write { words: Seq<(u32, u32)> },
    Sync,
    Skip { fresh: bool },
}

impl View for UpdateStep {
    type V = Update;

    open spec fn view(&self) -> Update {
        match self {
            UpdateStep::Write { words } => Update::Write { words: words@ },
            UpdateStep::Sync => Update::Sync,
            UpdateStep::Skip { fresh } => Update::Skip { fresh: *fresh },
        }
    }
}

impl VmwareSvga {
    /// The adapter, by its base address registers and its own registers.
    pub fn new(bar0: u32, r: Registers, bar1: u64, bar2: u64) -> (dev: Option<VmwareSvga>)
        ensures
            dev is Some == usable(bar0, r, bar1, bar2),
            dev matches Some(d) ==> d == (VmwareSvga {
                io: (bar0 / 4 * 4 % 0x1_0000) as u16,
                fb_phys: fb_address(r, bar1),
                fb_len: min(r.vram as int, MAX_VRAM as int) as u64,
                fifo_phys: fifo_address(r, bar2),
                fifo_size: r.mem_size,
                vram: r.vram,
                max: (r.max_width, r.max_height),
                width: 0,
                height: 0,
                pitch: 0,
                offset: 0,
                stalled: false,
                pending: false,
            }),
    {
        if bar0 % 2 == 0 || r.id != SVGA_ID_2 {
            return None;
        }
        let fb_phys: u64 = if r.fb_start != 0 { r.fb_start as u64 } else { bar1 };
        if fb_phys == 0 || r.vram < 0x10_0000 {
            return None;
        }
        let fifo_phys: u64 = if r.mem_start != 0 { r.mem_start as u64 } else { bar2 };
        if fifo_phys == 0 || r.mem_size < 4096 {
            return None;
        }
        Some(
            VmwareSvga {
                io: (bar0 / 4 * 4 % 0x1_0000) as u16,
                fb_phys,
                fb_len: if (r.vram as u64) < MAX_VRAM { r.vram as u64 } else { MAX_VRAM },
                fifo_phys,
                fifo_size: r.mem_size,
                vram: r.vram,
                max: (r.max_width, r.max_height),
                width: 0,
                height: 0,
                pitch: 0,
                offset: 0,
                stalled: false,
                pending: false,
            },
        )
    }

    /// The words that set the FIFO up.
    pub fn fifo_init(capabilities: u32, size: u32) -> (r: Vec<(u32, u32)>)
        ensures
            r@ == fifo_setup(fifo_first(capabilities), size),
    {
        let first: u32 = if capabilities & CAP_EXTENDED_FIFO != 0 { FIFO_NUM_REGS * 4 } else { 16 };
        let mut v: Vec<(u32, u32)> = Vec::new();
        let mut i: u32 = 0;
        while i < first / 4
            invariant
                i <= first / 4,
                v@ == Seq::new(i as nat, |k: int| (k as u32, 0u32)),
            decreases first / 4 - i,
        {
            v.push((i, 0));
            i += 1;
            proof {
                assert(v@ =~= Seq::new(i as nat, |k: int| (k as u32, 0u32)));
            }
        }
        v.push((FIFO_MIN, first));
        v.push((FIFO_MAX, size));
        v.push((FIFO_NEXT_CMD, first));
        v.push((FIFO_STOP, first));
        proof {
            assert(v@ =~= fifo_setup(first as int, size));
        }
        v
    }

    pub open spec fn can_show(self, w: u32, h: u32) -> bool {
        &&& w >= 640
        &&& h >= 480
        &&& w <= max(self.max.0 as int, 640)
        &&& h <= max(self.max.1 as int, 480)
        &&& w * h * 4 <= self.fb_len
    }

    pub fn supports(&self, w: u32, h: u32) -> (r: bool)
        ensures
            r == self.can_show(w, h),
    {
        let mw: u32 = if self.max.0 > 640 { self.max.0 } else { 640 };
        let mh: u32 = if self.max.1 > 480 { self.max.1 } else { 480 };
        proof {
            assert(0 <= w * h <= 0xffff_ffff * 0xffff_ffff) by (nonlinear_arith)
                requires
                    0 <= w <= 0xffff_ffff,
                    0 <= h <= 0xffff_ffff,
            ;
        }
        w >= 640 && h >= 480 && w <= mw && h <= mh && w as u128 * h as u128 * 4 <= self.fb_len as u128
    }

    /// The registers that set a mode which the adapter can show, with their
    /// values; nothing for another.
    pub fn set_mode(&self, w: u32, h: u32) -> (r: Option<[(u32, u32); 4]>)
        ensures
            match r {
                Some(v) => self.can_show(w, h) && v@ == mode_values(w, h),
                None => !self.can_show(w, h),
            },
    {
        if self.supports(w, h) { Some(Self::mode_registers(w, h)) } else { None }
    }

    /// The registers that set a mode, with their values.
    pub fn mode_registers(w: u32, h: u32) -> (r: [(u32, u32); 4])
        ensures
            r@ == mode_values(w, h),
    {
        let r: [(u32, u32); 4] = [(REG_WIDTH, w), (REG_HEIGHT, h), (REG_BITS_PER_PIXEL, 32), (REG_ENABLE, 1)];
        proof {
            assert(r@ =~= mode_values(w, h));
        }
        r
    }

    /// Whether a mode holds, by what the adapter says of it: its size, and
    /// lines that fit into the video memory.
    pub open spec fn holds(self, w: u32, h: u32, now: (u32, u32), pitch: u32, offset: u32) -> bool {
        &&& now.0 == w
        &&& now.1 == h
        &&& pitch >= w * 4
        &&& offset + pitch * h <= self.fb_len
    }

    /// After a mode was set: take it over if it holds.
    pub fn apply_mode(&mut self, w: u32, h: u32, now: (u32, u32), pitch: u32, offset: u32) -> (r: bool)
        ensures
            r == old(self).holds(w, h, now, pitch, offset),
            *final(self) == if r {
                (VmwareSvga {
                    width: w,
                    height: h,
                    pitch: pitch as u64,
                    offset: offset as u64,
                    ..*old(self)
                })
            } else {
                *old(self)
            },
    {
        proof {
            assert(0 <= pitch * h <= 0xffff_ffff * 0xffff_ffff) by (nonlinear_arith)
                requires
                    0 <= pitch <= 0xffff_ffff,
                    0 <= h <= 0xffff_ffff,
            ;
        }
        if now.0 != w || now.1 != h || (pitch as u64) < w as u64 * 4 || offset as u128 + pitch as u128 * h as u128
            > self.fb_len as u128 {
            return false;
        }
        self.width = w;
        self.height = h;
        self.pitch = pitch as u64;
        self.offset = offset as u64;
        true
    }

    /// The mode to go back to when another does not hold.
    pub fn previous_mode(&self) -> (r: Option<(u32, u32)>)
        ensures
            r == if self.width != 0 { Some((self.width, self.height)) } else { None },
    {
        if self.width != 0 { Some((self.width, self.height)) } else { None }
    }

    /// The words of an update, and where they go.
    fn write_update(lo: u32, hi: u32, next: u32, x: u32, y: u32, w: u32, h: u32) -> (r: Vec<(u32, u32)>)
        requires
            lo <= next < hi,
            hi <= u32::MAX - 4,
            lo % 4 == 0,
            next % 4 == 0,
        ensures
            r@ == update_words(lo as int, hi as int, next as int, x, y, w, h),
    {
        let words: [u32; 5] = [CMD_UPDATE, x, y, w, h];
        let mut out: Vec<(u32, u32)> = Vec::new();
        let mut at: u32 = next;
        let mut k: usize = 0;
        proof {
            assert(out@ =~= Seq::new(
                0,
                |j: int| ((steps(lo as int, hi as int, next as int, j) / 4) as u32, words@[j]),
            ));
        }
        while k < 5
            invariant
                k <= 5,
                lo <= next < hi,
                hi <= u32::MAX - 4,
                lo % 4 == 0,
                next % 4 == 0,
                at == steps(lo as int, hi as int, next as int, k as int),
                lo <= at < hi,
                out@ == Seq::new(
                    k as nat,
                    |j: int| ((steps(lo as int, hi as int, next as int, j) / 4) as u32, words@[j]),
                ),
            decreases 5 - k,
        {
            out.push((at / 4, words[k]));
            proof {
                lemma_steps(lo as int, hi as int, next as int, k + 1);
            }
            at = if at + 4 >= hi { lo } else { at + 4 };
            k += 1;
            proof {
                assert(out@ =~= Seq::new(
                    k as nat,
                    |j: int| ((steps(lo as int, hi as int, next as int, j) / 4) as u32, words@[j]),
                ));
            }
        }
        out.push((FIFO_NEXT_CMD, at));
        proof {
            assert(words@ =~= seq![CMD_UPDATE, x, y, w, h]);
            assert(out@ =~= update_words(lo as int, hi as int, next as int, x, y, w, h));
        }
        out
    }

    /// What `update` does about a rectangle, and with the adapter.
    pub open spec fn updated(self, f: Fifo, synced: Option<bool>, x: u32, y: u32, w: u32, h: u32) -> (VmwareSvga, Update) {
        if synced == Some(false) {
            (VmwareSvga { stalled: true, ..self }, Update::Skip { fresh: !self.stalled })
        } else if f.free() > 24 {
            (
                VmwareSvga { stalled: false, pending: true, ..self },
                Update::Write { words: update_words(f.lo as int, f.hi as int, f.next as int, x, y, w, h) },
            )
        } else if synced is None {
            (VmwareSvga { pending: false, ..self }, Update::Sync)
        } else {
            (self, Update::Skip { fresh: false })
        }
    }

    /// Queue an UPDATE command so the host redraws a rectangle. Where the
    /// FIFO is full the device is asked once to process it; `synced` tells
    /// whether it did so in time. A device that does not is reported once.
    pub fn update(&mut self, f: Fifo, synced: Option<bool>, x: u32, y: u32, w: u32, h: u32) -> (r: UpdateStep)
        requires
            f.wf(),
        ensures
            (*final(self), r@) == old(self).updated(f, synced, x, y, w, h),
    {
        if let Some(false) = synced {
            let fresh: bool = !self.stalled;
            self.stalled = true;
            return UpdateStep::Skip { fresh };
        }
        if f.has_room() {
            self.stalled = false;
            self.pending = true;
            return UpdateStep::Write { words: Self::write_update(f.lo, f.hi, f.next, x, y, w, h) };
        }
        if synced.is_none() {
            self.pending = false;
            return UpdateStep::Sync;
        }
        UpdateStep::Skip { fresh: false }
    }

    /// Whether to tell the device that new commands are waiting: only when
    /// there are some.
    pub fn kick(&mut self) -> (r: bool)
        ensures
            r == old(self).pending,
            *final(self) == (VmwareSvga { pending: false, ..*old(self) }),
    {
        let r: bool = self.pending;
        self.pending = false;
        r
    }

    /// Bytes in a line, where the first one is, and how many bytes are safe
    /// to write from there.
    pub fn framebuffer(&self) -> (r: (u64, u64, u64))
        requires
            self.offset <= self.fb_len,
        ensures
            r == (self.pitch, self.offset, (self.fb_len - self.offset) as u64),
    {
        (self.pitch, self.offset, self.fb_len - self.offset)
    }
}

/// An update leaves the FIFO in order: the next command goes to a whole
/// word between its bounds.
pub proof fn lemma_fifo_kept(f: Fifo)
    requires
        f.wf(),
    ensures
        (Fifo { next: steps(f.lo as int, f.hi as int, f.next as int, 5) as u32, ..f }).wf(),
{
    lemma_steps(f.lo as int, f.hi as int, f.next as int, 5);
}

/// A device that does not process its FIFO is reported once.
pub proof fn lemma_reported_once(d: VmwareSvga, f: Fifo, g: Fifo, x: u32, y: u32, w: u32, h: u32)
    ensures
        d.updated(f, Some(false), x, y, w, h).0.updated(g, Some(false), x, y, w, h).1 == (Update::Skip { fresh: false }),
{
}

/// A mode that holds is drawn within the video memory.
pub proof fn lemma_mode_fits(d: VmwareSvga, w: u32, h: u32, now: (u32, u32), pitch: u32, offset: u32, y: int)
    requires
        d.holds(w, h, now, pitch, offset),
        0 <= y < h,
    ensures
        offset + y * pitch + w * 4 <= d.fb_len,
{
    assert(y * pitch + pitch <= pitch * h) by (nonlinear_arith)
        requires
            0 <= y < h,
            0 <= pitch,
    ;
}

} // verus!
