//! virtio GPU driver (2D): a host-backed scanout plus a hardware cursor.
//!
//! Commands are lists of 32-bit words, least significant byte first.

use crate::bytes::{get_le32, le32};
use vstd::prelude::*;

verus! {

pub const CMD_GET_DISPLAY_INFO: u32 = 0x0100;
pub const CMD_RESOURCE_CREATE_2D: u32 = 0x0101;
pub const CMD_RESOURCE_UNREF: u32 = 0x0102;
pub const CMD_SET_SCANOUT: u32 = 0x0103;
pub const CMD_RESOURCE_FLUSH: u32 = 0x0104;
pub const CMD_TRANSFER_TO_HOST_2D: u32 = 0x0105;
pub const CMD_RESOURCE_ATTACH_BACKING: u32 = 0x0106;
pub const CMD_RESOURCE_DETACH_BACKING: u32 = 0x0107;
pub const CMD_UPDATE_CURSOR: u32 = 0x0300;
pub const CMD_MOVE_CURSOR: u32 = 0x0301;
pub const RESP_OK_NODATA: u32 = 0x1100;
pub const RESP_OK_DISPLAY_INFO: u32 = 0x1101;

pub const FORMAT_B8G8R8A8: u32 = 1;
pub const FORMAT_B8G8R8X8: u32 = 2;

pub const FB_RESOURCE: u32 = 1;
pub const FB_RESOURCE_ALT: u32 = 3;
pub const CURSOR_RESOURCE: u32 = 2;
pub const CURSOR_SIZE: u32 = 64;

#[derive(Clone, Copy, Debug, PartialEq, Eq, Structural)]
pub struct VirtioGpu {
    pub width: u32,
    pub height: u32,
    /// The resource that is shown.
    pub fb_resource: u32,
}

// ---------------------------------------------------------------------
// Commands
// ---------------------------------------------------------------------

/// What every command begins with.
pub open spec fn hdr(kind: u32) -> Seq<u32> {
    seq![kind, 0, 0, 0, 0, 0]
}

/// A 64-bit number in two words.
pub open spec fn wide(v: u64) -> Seq<u32> {
    seq![(v % 0x1_0000_0000) as u32, (v / 0x1_0000_0000) as u32]
}

pub open spec fn create_2d(res: u32, format: u32, w: u32, h: u32) -> Seq<u32> {
    hdr(CMD_RESOURCE_CREATE_2D) + seq![res, format, w, h]
}

pub open spec fn attach(res: u32, phys: u64, len: u32) -> Seq<u32> {
    hdr(CMD_RESOURCE_ATTACH_BACKING) + seq![res, 1u32] + wide(phys) + seq![len, 0u32]
}

pub open spec fn set_scanout(res: u32, w: u32, h: u32) -> Seq<u32> {
    hdr(CMD_SET_SCANOUT) + seq![0u32, 0, w, h, 0, res]
}

pub open spec fn unref(res: u32) -> Seq<u32> {
    hdr(CMD_RESOURCE_UNREF) + seq![res, 0u32]
}

pub open spec fn detach(res: u32) -> Seq<u32> {
    hdr(CMD_RESOURCE_DETACH_BACKING) + seq![res, 0u32]
}

pub open spec fn transfer(x: u32, y: u32, w: u32, h: u32, offset: u64, res: u32) -> Seq<u32> {
    hdr(CMD_TRANSFER_TO_HOST_2D) + seq![x, y, w, h] + wide(offset) + seq![res, 0u32]
}

pub open spec fn flush_of(x: u32, y: u32, w: u32, h: u32, res: u32) -> Seq<u32> {
    hdr(CMD_RESOURCE_FLUSH) + seq![x, y, w, h, res, 0]
}

pub open spec fn cursor_of(kind: u32, x: u32, y: u32, res: u32, hx: u32, hy: u32) -> Seq<u32> {
    hdr(kind) + seq![0, x, y, 0, res, hx, hy, 0]
}

/// The words of each command.
pub open spec fn words(v: Seq<Vec<u32>>) -> Seq<Seq<u32>> {
    Seq::new(v.len(), |i: int| v[i]@)
}

fn start(kind: u32) -> (c: Vec<u32>)
    ensures
        c@ == hdr(kind),
{
    let mut c: Vec<u32> = Vec::new();
    c.push(kind);
    c.push(0);
    c.push(0);
    c.push(0);
    c.push(0);
    c.push(0);
    proof {
        assert(c@ =~= hdr(kind));
    }
    c
}

fn push_wide(c: &mut Vec<u32>, v: u64)
    ensures
        final(c)@ == old(c)@ + wide(v),
{
    c.push((v % 0x1_0000_0000) as u32);
    c.push((v / 0x1_0000_0000) as u32);
    proof {
        assert(c@ =~= old(c)@ + wide(v));
    }
}

fn create_command(res: u32, format: u32, w: u32, h: u32) -> (c: Vec<u32>)
    ensures
        c@ == create_2d(res, format, w, h),
{
    let mut c: Vec<u32> = start(CMD_RESOURCE_CREATE_2D);
    c.push(res);
    c.push(format);
    c.push(w);
    c.push(h);
    proof {
        assert(c@ =~= create_2d(res, format, w, h));
    }
    c
}

fn attach_command(res: u32, phys: u64, len: u32) -> (c: Vec<u32>)
    ensures
        c@ == attach(res, phys, len),
{
    let mut c: Vec<u32> = start(CMD_RESOURCE_ATTACH_BACKING);
    c.push(res);
    c.push(1);
    push_wide(&mut c, phys);
    c.push(len);
    c.push(0);
    proof {
        assert(c@ =~= attach(res, phys, len));
    }
    c
}

fn scanout_command(res: u32, w: u32, h: u32) -> (c: Vec<u32>)
    ensures
        c@ == set_scanout(res, w, h),
{
    let mut c: Vec<u32> = start(CMD_SET_SCANOUT);
    c.push(0);
    c.push(0);
    c.push(w);
    c.push(h);
    c.push(0);
    c.push(res);
    proof {
        assert(c@ =~= set_scanout(res, w, h));
    }
    c
}

fn unref_command(res: u32) -> (c: Vec<u32>)
    ensures
        c@ == unref(res),
{
    let mut c: Vec<u32> = start(CMD_RESOURCE_UNREF);
    c.push(res);
    c.push(0);
    proof {
        assert(c@ =~= unref(res));
    }
    c
}

fn detach_command(res: u32) -> (c: Vec<u32>)
    ensures
        c@ == detach(res),
{
    let mut c: Vec<u32> = start(CMD_RESOURCE_DETACH_BACKING);
    c.push(res);
    c.push(0);
    proof {
        assert(c@ =~= detach(res));
    }
    c
}

fn transfer_command(x: u32, y: u32, w: u32, h: u32, offset: u64, res: u32) -> (c: Vec<u32>)
    ensures
        c@ == transfer(x, y, w, h, offset, res),
{
    let mut c: Vec<u32> = start(CMD_TRANSFER_TO_HOST_2D);
    c.push(x);
    c.push(y);
    c.push(w);
    c.push(h);
    push_wide(&mut c, offset);
    c.push(res);
    c.push(0);
    proof {
        assert(c@ =~= transfer(x, y, w, h, offset, res));
    }
    c
}

fn cursor_command(kind: u32, x: u32, y: u32, res: u32, hx: u32, hy: u32) -> (c: Vec<u32>)
    ensures
        c@ == cursor_of(kind, x, y, res, hx, hy),
{
    let mut c: Vec<u32> = start(kind);
    c.push(0);
    c.push(x);
    c.push(y);
    c.push(0);
    c.push(res);
    c.push(hx);
    c.push(hy);
    c.push(0);
    proof {
        assert(c@ =~= cursor_of(kind, x, y, res, hx, hy));
    }
    c
}

/// Whether a command went well, by the first word of the response.
pub fn is_ok(response: u32) -> (r: bool)
    ensures
        r == (response == RESP_OK_NODATA),
{
    response == RESP_OK_NODATA
}

/// The command that asks for the displays.
pub fn display_info_command() -> (c: Vec<u32>)
    ensures
        c@ == hdr(CMD_GET_DISPLAY_INFO),
{
    start(CMD_GET_DISPLAY_INFO)
}

/// The size of the first display, by the response.
pub open spec fn display_of(r: Seq<u8>) -> Option<(u32, u32)> {
    let w = le32(r, 32);
    let h = le32(r, 36);
    if r.len() < 44 || le32(r, 0) != RESP_OK_DISPLAY_INFO || le32(r, 40) == 0 || w == 0 || h == 0 {
        None
    } else {
        Some((w as u32, h as u32))
    }
}

/// The size of the first display, if it is on.
pub fn display_info(r: &[u8]) -> (size: Option<(u32, u32)>)
    ensures
        size == display_of(r@),
{
    match (get_le32(r, 0), get_le32(r, 32), get_le32(r, 36), get_le32(r, 40)) {
        (Some(kind), Some(w), Some(h), Some(enabled)) => {
            if kind != RESP_OK_DISPLAY_INFO || enabled == 0 || w == 0 || h == 0 {
                None
            } else {
                Some((w, h))
            }
        },
        _ => None,
    }
}

impl VirtioGpu {
    /// The commands that set the adapter up: the scanout, then the cursor.
    pub open spec fn setup(w: u32, h: u32, phys: u64, cursor: u64) -> Seq<Seq<u32>> {
        seq![
            create_2d(FB_RESOURCE, FORMAT_B8G8R8X8, w, h),
            attach(FB_RESOURCE, phys, (w * h * 4) as u32),
            set_scanout(FB_RESOURCE, w, h),
            create_2d(CURSOR_RESOURCE, FORMAT_B8G8R8A8, CURSOR_SIZE, CURSOR_SIZE),
            attach(CURSOR_RESOURCE, cursor, 16384),
        ]
    }

    /// An adapter of the size that it says, or of a usual one.
    pub fn new(info: Option<(u32, u32)>) -> (r: VirtioGpu)
        ensures
            r.fb_resource == FB_RESOURCE,
            (r.width, r.height) == match info {
                Some(s) => s,
                None => (1280, 800),
            },
    {
        let (width, height) = match info {
            Some(s) => s,
            None => (1280, 800),
        };
        VirtioGpu { width, height, fb_resource: FB_RESOURCE }
    }

    /// The commands that set the adapter up, for a framebuffer and a cursor
    /// at these places.
    pub fn setup_commands(&self, phys: u64, cursor: u64) -> (r: Vec<Vec<u32>>)
        requires
            self.width * self.height * 4 <= u32::MAX,
        ensures
            words(r@) == Self::setup(self.width, self.height, phys, cursor),
    {
        let (w, h) = (self.width, self.height);
        proof {
            assert(w * h * 4 <= u32::MAX);
            assert(w * h >= 0) by (nonlinear_arith)
                requires
                    0 <= w,
                    0 <= h,
            ;
        }
        let mut v: Vec<Vec<u32>> = Vec::new();
        v.push(create_command(FB_RESOURCE, FORMAT_B8G8R8X8, w, h));
        v.push(attach_command(FB_RESOURCE, phys, w * h * 4));
        v.push(scanout_command(FB_RESOURCE, w, h));
        v.push(create_command(CURSOR_RESOURCE, FORMAT_B8G8R8A8, CURSOR_SIZE, CURSOR_SIZE));
        v.push(attach_command(CURSOR_RESOURCE, cursor, 16384));
        proof {
            assert(words(v@) =~= Self::setup(w, h, phys, cursor));
        }
        v
    }

    /// Modes that the adapter is asked for.
    pub open spec fn can_show(w: u32, h: u32) -> bool {
        640 <= w <= 3840 && 480 <= h <= 2160
    }

    /// The resource for the next mode.
    pub open spec fn other_resource(self) -> u32 {
        if self.fb_resource == FB_RESOURCE { FB_RESOURCE_ALT } else { FB_RESOURCE }
    }

    /// The size of a framebuffer, in bytes; none for a mode that the
    /// adapter is not asked for.
    pub fn mode_bytes(w: u32, h: u32) -> (r: Option<u32>)
        ensures
            r == if Self::can_show(w, h) { Some((w * h * 4) as u32) } else { None },
    {
        if w < 640 || h < 480 || w > 3840 || h > 2160 {
            return None;
        }
        proof {
            assert(0 <= w * h <= 3840 * 2160) by (nonlinear_arith)
                requires
                    0 <= w <= 3840,
                    0 <= h <= 2160,
            ;
        }
        Some(w * h * 4)
    }

    /// The commands that switch to a new resolution: a new scanout resource
    /// with the framebuffer at `phys`, which is then shown.
    pub fn mode_commands(&self, w: u32, h: u32, phys: u64) -> (r: Vec<Vec<u32>>)
        requires
            Self::can_show(w, h),
        ensures
            words(r@) == seq![
                create_2d(self.other_resource(), FORMAT_B8G8R8X8, w, h),
                attach(self.other_resource(), phys, (w * h * 4) as u32),
                set_scanout(self.other_resource(), w, h),
            ],
    {
        let res: u32 = if self.fb_resource == FB_RESOURCE { FB_RESOURCE_ALT } else { FB_RESOURCE };
        proof {
            assert(0 <= w * h <= 3840 * 2160) by (nonlinear_arith)
                requires
                    0 <= w <= 3840,
                    0 <= h <= 2160,
            ;
        }
        let mut v: Vec<Vec<u32>> = Vec::new();
        v.push(create_command(res, FORMAT_B8G8R8X8, w, h));
        v.push(attach_command(res, phys, w * h * 4));
        v.push(scanout_command(res, w, h));
        proof {
            assert(words(v@) =~= seq![
                create_2d(self.other_resource(), FORMAT_B8G8R8X8, w, h),
                attach(self.other_resource(), phys, (w * h * 4) as u32),
                set_scanout(self.other_resource(), w, h),
            ]);
        }
        v
    }

    /// After those commands: `ok` if all went well. The commands that
    /// release the old scanout, or else the new one.
    pub fn set_mode(&mut self, w: u32, h: u32, ok: bool) -> (r: Vec<Vec<u32>>)
        requires
            Self::can_show(w, h),
        ensures
            *final(self) == if ok {
                (VirtioGpu { width: w, height: h, fb_resource: old(self).other_resource() })
            } else {
                *old(self)
            },
            words(r@) == if ok {
                seq![detach(old(self).fb_resource), unref(old(self).fb_resource)]
            } else {
                seq![unref(old(self).other_resource())]
            },
    {
        let old_res: u32 = self.fb_resource;
        let new_res: u32 = if old_res == FB_RESOURCE { FB_RESOURCE_ALT } else { FB_RESOURCE };
        let mut v: Vec<Vec<u32>> = Vec::new();
        if !ok {
            v.push(unref_command(new_res));
            proof {
                assert(words(v@) =~= seq![unref(new_res)]);
            }
            return v;
        }
        v.push(detach_command(old_res));
        v.push(unref_command(old_res));
        self.fb_resource = new_res;
        self.width = w;
        self.height = h;
        proof {
            assert(words(v@) =~= seq![detach(old_res), unref(old_res)]);
        }
        v
    }

    /// The commands that copy a rectangle of the framebuffer to the host and
    /// show it.
    pub fn flush(&self, x: u32, y: u32, w: u32, h: u32) -> (r: Vec<Vec<u32>>)
        requires
            (y * self.width + x) * 4 <= u64::MAX,
        ensures
            words(r@) == if w == 0 || h == 0 {
                Seq::<Seq<u32>>::empty()
            } else {
                seq![
                    transfer(x, y, w, h, ((y * self.width + x) * 4) as u64, self.fb_resource),
                    flush_of(x, y, w, h, self.fb_resource),
                ]
            },
    {
        let mut v: Vec<Vec<u32>> = Vec::new();
        if w == 0 || h == 0 {
            proof {
                assert(words(v@) =~= Seq::<Seq<u32>>::empty());
            }
            return v;
        }
        proof {
            assert(0 <= y * self.width) by (nonlinear_arith)
                requires
                    0 <= y,
                    0 <= self.width,
            ;
        }
        let offset: u64 = (y as u64 * self.width as u64 + x as u64) * 4;
        let res: u32 = self.fb_resource;
        v.push(transfer_command(x, y, w, h, offset, res));
        let mut c: Vec<u32> = start(CMD_RESOURCE_FLUSH);
        c.push(x);
        c.push(y);
        c.push(w);
        c.push(h);
        c.push(res);
        c.push(0);
        proof {
            assert(c@ =~= flush_of(x, y, w, h, res));
        }
        v.push(c);
        proof {
            assert(words(v@) =~= seq![transfer(x, y, w, h, offset, res), flush_of(x, y, w, h, res)]);
        }
        v
    }

    /// The command that copies the cursor image to the host, and the one for
    /// the cursor queue that shows it.
    pub fn set_cursor(hot_x: u32, hot_y: u32, x: u32, y: u32) -> (r: (Vec<u32>, Vec<u32>))
        ensures
            r.0@ == transfer(0, 0, CURSOR_SIZE, CURSOR_SIZE, 0, CURSOR_RESOURCE),
            r.1@ == cursor_of(CMD_UPDATE_CURSOR, x, y, CURSOR_RESOURCE, hot_x, hot_y),
    {
        (
            transfer_command(0, 0, CURSOR_SIZE, CURSOR_SIZE, 0, CURSOR_RESOURCE),
            cursor_command(CMD_UPDATE_CURSOR, x, y, CURSOR_RESOURCE, hot_x, hot_y),
        )
    }

    /// The command for the cursor queue that moves the cursor.
    pub fn move_cursor(x: u32, y: u32) -> (r: Vec<u32>)
        ensures
            r@ == cursor_of(CMD_MOVE_CURSOR, x, y, CURSOR_RESOURCE, 0, 0),
    {
        cursor_command(CMD_MOVE_CURSOR, x, y, CURSOR_RESOURCE, 0, 0)
    }
}

/// The resource of a new mode is never the one that is shown, nor that of
/// the cursor.
pub proof fn lemma_resources_apart(g: VirtioGpu)
    ensures
        g.other_resource() != g.fb_resource,
        g.other_resource() != CURSOR_RESOURCE,
{
}

} // verus!
