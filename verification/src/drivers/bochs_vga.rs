//! Bochs/QEMU "DISPI" VBE display interface. Mode setting is a handful of
//! index/data port writes; the framebuffer is PCI BAR 0.

use super::io::Io;
use crate::arith::min;
use vstd::prelude::*;

verus! {

pub const INDEX: u16 = 0x01ce;
pub const DATA: u16 = 0x01cf;

pub const REG_ID: u16 = 0;
pub const REG_XRES: u16 = 1;
pub const REG_YRES: u16 = 2;
pub const REG_BPP: u16 = 3;
pub const REG_ENABLE: u16 = 4;
pub const REG_VIRT_WIDTH: u16 = 6;
pub const REG_VIRT_HEIGHT: u16 = 7;
pub const REG_X_OFFSET: u16 = 8;
pub const REG_Y_OFFSET: u16 = 9;
pub const REG_VIDEO_MEMORY_64K: u16 = 0x0a;

/// Video memory that is used at most.
pub const MAX_VRAM: u64 = 0x1000_0000;

#[derive(Clone, Copy, Debug, PartialEq, Eq, Structural)]
pub struct BochsVga {
    pub fb_len: u64,
    pub width: u32,
    pub height: u32,
}

/// How much video memory there is, by the adapter's register, in bytes.
pub open spec fn vram_of(blocks: u16) -> int {
    if blocks != 0 { blocks * 0x1_0000 } else { 0x100_0000 }
}

/// A register and its value.
pub open spec fn set(reg: u16, value: u16) -> Seq<Io> {
    seq![Io::Out16(INDEX, reg), Io::Out16(DATA, value)]
}

/// What sets a mode: off, sizes and depth, no offset, then on with a linear
/// framebuffer.
pub open spec fn mode_steps(w: u16, h: u16) -> Seq<Io> {
    set(REG_ENABLE, 0) + set(REG_XRES, w) + set(REG_YRES, h) + set(REG_BPP, 32) + set(REG_VIRT_WIDTH, w) + set(
        REG_VIRT_HEIGHT,
        h,
    ) + set(REG_X_OFFSET, 0) + set(REG_Y_OFFSET, 0) + set(REG_ENABLE, 0x41)
}

fn push_set(v: &mut Vec<Io>, reg: u16, value: u16)
    ensures
        final(v)@ == old(v)@ + set(reg, value),
{
    v.push(Io::Out16(INDEX, reg));
    v.push(Io::Out16(DATA, value));
    proof {
        assert(v@ =~= old(v)@ + set(reg, value));
    }
}

impl BochsVga {
    /// The adapter, by its identification, its base address register (raw,
    /// and as an address), and its register for video memory.
    pub fn new(id: u16, bar_raw: u32, bar: u64, blocks: u16) -> (r: Option<BochsVga>)
        ensures
            r == if 0xb0c0 <= id <= 0xb0cf && bar != 0 && bar_raw % 2 == 0 {
                Some(BochsVga { fb_len: min(vram_of(blocks), MAX_VRAM as int) as u64, width: 0, height: 0 })
            } else {
                None
            },
    {
        if !(0xb0c0 <= id && id <= 0xb0cf) || bar == 0 || bar_raw % 2 != 0 {
            return None;
        }
        let vram: u64 = if blocks != 0 { blocks as u64 * 0x1_0000 } else { 0x100_0000 };
        Some(BochsVga { fb_len: if vram < MAX_VRAM { vram } else { MAX_VRAM }, width: 0, height: 0 })
    }

    pub open spec fn can_show(self, w: u32, h: u32) -> bool {
        w >= 640 && h >= 480 && w % 8 == 0 && w <= 4096 && h <= 4096 && w * h * 4 <= self.fb_len
    }

    /// Whether the adapter can show a mode. The width must be a multiple
    /// of 8.
    pub fn supports(&self, w: u32, h: u32) -> (r: bool)
        ensures
            r == self.can_show(w, h),
    {
        if !(w >= 640 && h >= 480 && w % 8 == 0 && w <= 4096 && h <= 4096) {
            return false;
        }
        proof {
            assert(0 <= w * h <= 4096 * 4096) by (nonlinear_arith)
                requires
                    0 <= w <= 4096,
                    0 <= h <= 4096,
            ;
        }
        w as u64 * h as u64 * 4 <= self.fb_len
    }

    /// What sets a mode that the adapter can show; nothing for another.
    pub fn set_mode(&self, w: u32, h: u32) -> (r: Option<Vec<Io>>)
        ensures
            match r {
                Some(v) => self.can_show(w, h) && v@ == mode_steps(w as u16, h as u16),
                None => !self.can_show(w, h),
            },
    {
        if !self.supports(w, h) {
            return None;
        }
        let (x, y) = (w as u16, h as u16);
        let mut v: Vec<Io> = Vec::new();
        push_set(&mut v, REG_ENABLE, 0);
        push_set(&mut v, REG_XRES, x);
        push_set(&mut v, REG_YRES, y);
        push_set(&mut v, REG_BPP, 32);
        push_set(&mut v, REG_VIRT_WIDTH, x);
        push_set(&mut v, REG_VIRT_HEIGHT, y);
        push_set(&mut v, REG_X_OFFSET, 0);
        push_set(&mut v, REG_Y_OFFSET, 0);
        push_set(&mut v, REG_ENABLE, 0x41);
        proof {
            assert(v@ =~= mode_steps(w as u16, h as u16));
        }
        Some(v)
    }

    /// After a mode was set: what the adapter says its size is. Whether the
    /// mode holds; if not, the mode to go back to, if there was one. That
    /// one is forgotten until it holds again.
    pub fn mode_set(&mut self, w: u32, h: u32, xres: u16, yres: u16) -> (r: (bool, Option<(u32, u32)>))
        requires
            old(self).can_show(w, h),
        ensures
            r.0 == (xres == w && yres == h),
            r.1 == if !r.0 && old(self).width != 0 { Some((old(self).width, old(self).height)) } else { None },
            *final(self) == if r.0 {
                (BochsVga { width: w, height: h, ..*old(self) })
            } else {
                (BochsVga { width: 0, ..*old(self) })
            },
    {
        if xres as u32 != w || yres as u32 != h {
            let back: Option<(u32, u32)> = if self.width != 0 { Some((self.width, self.height)) } else { None };
            self.width = 0;
            return (false, back);
        }
        self.width = w;
        self.height = h;
        (true, None)
    }

    /// Bytes in a line, and how many bytes are safe to write.
    pub fn framebuffer(&self) -> (r: (u64, u64))
        ensures
            r.0 == self.width * 4,
            r.1 == self.fb_len,
    {
        (self.width as u64 * 4, self.fb_len)
    }
}

/// A mode that can be shown fits into the video memory, line by line.
pub proof fn lemma_mode_fits(b: BochsVga, w: u32, h: u32, y: int)
    requires
        b.can_show(w, h),
        0 <= y < h,
    ensures
        y * (w * 4) + w * 4 <= b.fb_len,
{
    assert(y * (w * 4) + w * 4 <= w * h * 4) by (nonlinear_arith)
        requires
            0 <= y < h,
            0 <= w,
    ;
}

} // verus!
