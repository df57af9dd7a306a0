//! Output devices for the compositor:
//! - virtio GPU, with a hardware cursor
//! - VMware SVGA II
//! - Bochs VBE
//! - the boot framebuffer from the firmware (fixed resolution)
//!
//! Except for virtio-gpu (whose backing store is ordinary RAM), the
//! compositor draws into a back buffer in RAM and `present` copies changed
//! rectangles to video memory.

use super::geom::Rect;
use crate::drivers::bochs_vga::{mode_steps, BochsVga};
use crate::drivers::io::Io;
use crate::drivers::virtio_gpu::{
    attach, create_2d, cursor_of, detach, set_scanout, transfer, unref, words, VirtioGpu, CMD_MOVE_CURSOR,
    CMD_UPDATE_CURSOR, CURSOR_RESOURCE, CURSOR_SIZE, FORMAT_B8G8R8X8,
};
use crate::drivers::vmware_svga::{mode_values, VmwareSvga};
use vstd::prelude::*;

verus! {

#[derive(Clone, Copy)]
pub enum Display {
    Virtio(VirtioGpu),
    Svga(VmwareSvga),
    Bochs(BochsVga),
    Framebuffer { pitch: u64, width: u32, height: u32 },
}

/// What an adapter is told to show a mode.
pub enum ModeAsk {
    /// Nothing; whether it shows the mode.
    Done(bool),
    /// Commands for a virtio adapter, one after the other until one fails.
    Commands(Vec<Vec<u32>>),
    /// Registers of a VMware adapter, with their values.
    Registers([(u32, u32); 4]),
    /// Steps for a Bochs adapter.
    Steps(Vec<Io>),
}

#[verifier::ext_equal]
pub ghost enum ModeAskState {
    Done(bool),
    Commands(Seq<Seq<u32>>),
    Registers(Seq<(u32, u32)>),
    Steps(Seq<Io>),
}

impl View for ModeAsk {
    type V = ModeAskState;

    open spec fn view(&self) -> ModeAskState {
        match self {
            ModeAsk::Done(b) => ModeAskState::Done(*b),
            ModeAsk::Commands(v) => ModeAskState::Commands(words(v@)),
            ModeAsk::Registers(v) => ModeAskState::Registers(v@),
            ModeAsk::Steps(v) => ModeAskState::Steps(v@),
        }
    }
}

/// What the adapter says then.
#[derive(Clone, Copy, Debug)]
pub enum ModeAnswer {
    /// Whether all commands succeeded.
    Virtio(bool),
    Svga { now: (u32, u32), pitch: u32, offset: u32 },
    Bochs { xres: u16, yres: u16 },
}

pub struct ModeOutcome {
    pub shown: bool,
    /// How many pixels the back buffer needs.
    pub pixels: u64,
    /// The mode to ask for again, since the new one was refused.
    pub back: Option<(u32, u32)>,
    /// Commands for a virtio adapter to release what it shows no more.
    pub commands: Vec<Vec<u32>>,
}

pub const CURSOR_DIM: i32 = 64;

/// Resolutions offered in Settings (filtered by what the adapter supports).
pub open spec fn common_modes() -> Seq<(u32, u32)> {
    seq![
        (800u32, 600u32),
        (1024, 768),
        (1152, 864),
        (1280, 720),
        (1280, 800),
        (1280, 1024),
        (1366, 768),
        (1440, 900),
        (1600, 900),
        (1680, 1050),
        (1920, 1080),
        (1920, 1200),
        (2560, 1440),
    ]
}

fn common() -> (r: [(u32, u32); 13])
    ensures
        r@ == common_modes(),
{
    let r: [(u32, u32); 13] = [
        (800, 600),
        (1024, 768),
        (1152, 864),
        (1280, 720),
        (1280, 800),
        (1280, 1024),
        (1366, 768),
        (1440, 900),
        (1600, 900),
        (1680, 1050),
        (1920, 1080),
        (1920, 1200),
        (2560, 1440),
    ];
    proof {
        assert(r@ =~= common_modes());
    }
    r
}

/// Whether a mode comes before another: by width, then by height.
pub open spec fn before(a: (u32, u32), b: (u32, u32)) -> bool {
    a.0 < b.0 || a.0 == b.0 && a.1 < b.1
}

pub open spec fn in_order(v: Seq<(u32, u32)>) -> bool {
    forall|i: int, j: int| 0 <= i < j < v.len() ==> before(#[trigger] v[i], #[trigger] v[j])
}

/// How many of the first `n` modes come before one.
pub open spec fn place_of(v: Seq<(u32, u32)>, m: (u32, u32), n: int) -> int
    decreases n,
{
    if n <= 0 {
        0
    } else {
        place_of(v, m, n - 1) + if before(v[n - 1], m) { 1int } else { 0 }
    }
}

/// The list with a mode at its place, unless it is there.
pub open spec fn with_mode(v: Seq<(u32, u32)>, m: (u32, u32)) -> Seq<(u32, u32)> {
    if v.contains(m) {
        v
    } else {
        v.insert(place_of(v, m, v.len() as int), m)
    }
}

/// A copy of part of a line from the back buffer to video memory: the first
/// pixel, the first byte, and how many pixels.
#[derive(Clone, Copy, Debug, PartialEq, Eq, Structural)]
pub struct RowCopy {
    pub from: u64,
    pub to: u64,
    pub pixels: u32,
}

/// The copy of the line `y` of a rectangle.
pub open spec fn row_of(width: u32, pitch: u64, r: Rect, y: int) -> RowCopy {
    RowCopy { from: (y * width + r.x) as u64, to: (y * pitch + r.x * 4) as u64, pixels: r.w as u32 }
}

/// Whether a rectangle lies in `len` bytes of video memory.
pub open spec fn in_memory(pitch: u64, len: u64, r: Rect) -> bool {
    (r.y + r.h - 1) * pitch + (r.x + r.w) * 4 <= len
}

/// The copies of the first `n` lines.
pub open spec fn rows(width: u32, pitch: u64, r: Rect, n: int) -> Seq<RowCopy> {
    Seq::new(n as nat, |i: int| row_of(width, pitch, r, r.y + i))
}

/// Copy a rectangle of the back buffer to video memory, never writing past
/// `fb_len` bytes.
pub fn copy_rect(width: u32, pitch: u64, fb_len: u64, r: &Rect) -> (v: Vec<RowCopy>)
    requires
        0 <= r.x,
        0 <= r.y,
        0 < r.w,
        0 < r.h,
        r.fits(),
    ensures
        v@ == if in_memory(pitch, fb_len, *r) {
            rows(width, pitch, *r, r.h as int)
        } else {
            Seq::<RowCopy>::empty()
        },
{
    let (right, bottom) = (r.right(), r.bottom());
    let mut v: Vec<RowCopy> = Vec::new();
    proof {
        assert(0 <= (bottom - 1) * pitch <= 0x7fff_ffff * 0xffff_ffff_ffff_ffff) by (nonlinear_arith)
            requires
                0 <= bottom - 1 <= 0x7fff_ffff,
                0 <= pitch <= 0xffff_ffff_ffff_ffff,
        ;
    }
    if (bottom - 1) as u128 * pitch as u128 + right as u128 * 4 > fb_len as u128 {
        return v;
    }
    let mut i: i32 = 0;
    proof {
        assert(v@ =~= rows(width, pitch, *r, 0));
    }
    while i < r.h
        invariant
            0 <= i <= r.h,
            0 <= r.x,
            0 <= r.y,
            0 < r.w,
            r.fits(),
            bottom == r.y + r.h,
            in_memory(pitch, fb_len, *r),
            v@ == rows(width, pitch, *r, i as int),
        decreases r.h - i,
    {
        let y: i32 = r.y + i;
        proof {
            assert(0 <= y * pitch <= (bottom - 1) * pitch) by (nonlinear_arith)
                requires
                    0 <= y <= bottom - 1,
                    0 <= pitch,
            ;
            assert(0 <= y * width <= 0x7fff_ffff * 0xffff_ffff) by (nonlinear_arith)
                requires
                    0 <= y <= 0x7fff_ffff,
                    0 <= width <= 0xffff_ffff,
            ;
        }
        v.push(
            RowCopy {
                from: y as u64 * width as u64 + r.x as u64,
                to: y as u64 * pitch + r.x as u64 * 4,
                pixels: r.w as u32,
            },
        );
        i += 1;
        proof {
            assert(v@ =~= rows(width, pitch, *r, i as int));
        }
    }
    v
}

/// A number as its 32 bits.
pub open spec fn bits32(v: i32) -> u32 {
    if v >= 0 { v as u32 } else { (v + 0x1_0000_0000) as u32 }
}

fn to_bits(v: i32) -> (r: u32)
    ensures
        r == bits32(v),
{
    if v >= 0 { v as u32 } else { (v as i64 + 0x1_0000_0000) as u32 }
}

impl Display {
    /// Width and height.
    pub open spec fn extent(self) -> (u32, u32) {
        match self {
            Display::Virtio(g) => (g.width, g.height),
            Display::Svga(d) => (d.width, d.height),
            Display::Bochs(d) => (d.width, d.height),
            Display::Framebuffer { pitch, width, height } => (width, height),
        }
    }

    /// The size is one that windows can have.
    pub open spec fn wf(self) -> bool {
        self.extent().0 <= i32::MAX && self.extent().1 <= i32::MAX
    }

    /// The framebuffer of the firmware, if its pixels have 32 bits.
    pub fn from_boot_framebuffer(bpp: u16, pitch: u64, width: u64, height: u64) -> (r: Option<Display>)
        ensures
            r == if bpp == 32 {
                Some(
                    Display::Framebuffer {
                        pitch,
                        width: (width % 0x1_0000_0000) as u32,
                        height: (height % 0x1_0000_0000) as u32,
                    },
                )
            } else {
                None
            },
    {
        if bpp != 32 {
            return None;
        }
        Some(
            Display::Framebuffer {
                pitch,
                width: (width % 0x1_0000_0000) as u32,
                height: (height % 0x1_0000_0000) as u32,
            },
        )
    }

    /// Size of the firmware framebuffer, used as the starting mode for
    /// adapters we drive ourselves (so the screen doesn't jump at boot).
    pub fn boot_size(first: Option<(u64, u64)>) -> (r: (u32, u32))
        ensures
            r == match first {
                Some((w, h)) => ((w % 0x1_0000_0000) as u32, (h % 0x1_0000_0000) as u32),
                None => (1280u32, 800u32),
            },
    {
        match first {
            Some((w, h)) => ((w % 0x1_0000_0000) as u32, (h % 0x1_0000_0000) as u32),
            None => (1280, 800),
        }
    }

    /// The modes that an adapter is started in, the first that it takes.
    pub fn starting_modes(boot: (u32, u32)) -> (r: [(u32, u32); 2])
        ensures
            r@ == seq![boot, (1024u32, 768u32)],
    {
        let r: [(u32, u32); 2] = [boot, (1024, 768)];
        proof {
            assert(r@ =~= seq![boot, (1024u32, 768u32)]);
        }
        r
    }

    pub fn size(&self) -> (r: (i32, i32))
        requires
            self.wf(),
        ensures
            r.0 == self.extent().0,
            r.1 == self.extent().1,
    {
        match self {
            Display::Virtio(g) => (g.width as i32, g.height as i32),
            Display::Svga(d) => (d.width as i32, d.height as i32),
            Display::Bochs(d) => (d.width as i32, d.height as i32),
            Display::Framebuffer { pitch: _, width, height } => (*width as i32, *height as i32),
        }
    }

    pub open spec fn spec_name(self) -> Seq<char> {
        match self {
            Display::Virtio(_) => "virtio-gpu"@,
            Display::Svga(_) => "VMware SVGA II"@,
            Display::Bochs(_) => "Bochs VBE"@,
            Display::Framebuffer { .. } => "boot framebuffer"@,
        }
    }

    pub fn name(&self) -> (r: &'static str)
        ensures
            r@ == self.spec_name(),
    {
        match self {
            Display::Virtio(_) => "virtio-gpu",
            Display::Svga(_) => "VMware SVGA II",
            Display::Bochs(_) => "Bochs VBE",
            Display::Framebuffer { .. } => "boot framebuffer",
        }
    }

    /// The part of a region that is on the screen, to be made visible; none
    /// if nothing of it is.
    pub fn present(&self, r: &Rect) -> (v: Option<Rect>)
        requires
            self.wf(),
            r.w >= 0,
            r.h >= 0,
        ensures
            ({
                let (w, h) = self.extent();
                let part = r.spec_intersect(Rect { x: 0, y: 0, w: w as i32, h: h as i32 });
                v == if part.spec_is_empty() { None } else { Some(part) }
            }),
            v matches Some(p) ==> {
                &&& 0 <= p.x && 0 <= p.y && 0 < p.w && 0 < p.h && p.fits()
                &&& p.x + p.w <= self.extent().0
                &&& p.y + p.h <= self.extent().1
            },
    {
        let (w, h) = self.size();
        let part: Rect = r.intersect(&Rect::new(0, 0, w, h));
        if part.is_empty() {
            return None;
        }
        Some(part)
    }

    /// Whether a common mode is offered. The boot framebuffer is fixed by
    /// the firmware.
    pub open spec fn offers(self, m: (u32, u32)) -> bool {
        match self {
            Display::Virtio(_) => m.0 <= 1920 && m.1 <= 1200,
            Display::Svga(d) => d.can_show(m.0, m.1),
            Display::Bochs(d) => d.can_show(m.0, m.1),
            Display::Framebuffer { .. } => false,
        }
    }

    fn offered(&self, w: u32, h: u32) -> (r: bool)
        ensures
            r == self.offers((w, h)),
    {
        match self {
            Display::Virtio(_) => w <= 1920 && h <= 1200,
            Display::Svga(d) => d.supports(w, h),
            Display::Bochs(d) => d.supports(w, h),
            Display::Framebuffer { .. } => false,
        }
    }

    /// Those of the first `n` common modes that are offered.
    pub open spec fn kept(self, n: int) -> Seq<(u32, u32)>
        decreases n,
    {
        if n <= 0 {
            Seq::empty()
        } else if self.offers(common_modes()[n - 1]) {
            self.kept(n - 1).push(common_modes()[n - 1])
        } else {
            self.kept(n - 1)
        }
    }

    pub open spec fn all_modes(self) -> Seq<(u32, u32)> {
        with_mode(self.kept(13), self.extent())
    }

    /// Resolutions the user may pick, in order. The boot framebuffer only
    /// offers its current mode.
    pub fn modes(&self) -> (r: Vec<(u32, u32)>)
        ensures
            r@ == self.all_modes(),
    {
        let list: [(u32, u32); 13] = common();
        let mut v: Vec<(u32, u32)> = Vec::new();
        let mut i: usize = 0;
        while i < 13
            invariant
                i <= 13,
                list@ == common_modes(),
                v@ == self.kept(i as int),
                v@.len() <= i,
            decreases 13 - i,
        {
            let (w, h) = list[i];
            if self.offered(w, h) {
                v.push((w, h));
            }
            i += 1;
        }
        let now: (u32, u32) = match self {
            Display::Virtio(g) => (g.width, g.height),
            Display::Svga(d) => (d.width, d.height),
            Display::Bochs(d) => (d.width, d.height),
            Display::Framebuffer { pitch: _, width, height } => (*width, *height),
        };
        let mut at: usize = 0;
        let mut k: usize = 0;
        while k < v.len()
            invariant
                k <= v@.len(),
                v@.len() <= 13,
                at <= k,
                at == place_of(v@, now, k as int),
                forall|j: int| 0 <= j < k ==> v@[j] != now,
                v@ == self.kept(13),
                now == self.extent(),
            decreases v@.len() - k,
        {
            let (w, h) = v[k];
            if w == now.0 && h == now.1 {
                proof {
                    assert(v@[k as int] == now);
                }
                return v;
            }
            if w < now.0 || w == now.0 && h < now.1 {
                at += 1;
            }
            k += 1;
        }
        v.insert(at, now);
        v
    }

    /// Whether the adapter can be asked for a mode.
    pub open spec fn can_ask(self, w: u32, h: u32) -> bool {
        match self {
            Display::Virtio(_) => VirtioGpu::can_show(w, h),
            Display::Svga(d) => d.can_show(w, h),
            Display::Bochs(d) => d.can_show(w, h),
            Display::Framebuffer { .. } => false,
        }
    }

    pub open spec fn asked(self, w: u32, h: u32, phys: u64) -> ModeAskState {
        match self {
            Display::Framebuffer { .. } => ModeAskState::Done(self.extent() == (w, h)),
            Display::Virtio(g) => if VirtioGpu::can_show(w, h) {
                ModeAskState::Commands(
                    seq![
                        create_2d(g.other_resource(), FORMAT_B8G8R8X8, w, h),
                        attach(g.other_resource(), phys, (w * h * 4) as u32),
                        set_scanout(g.other_resource(), w, h),
                    ],
                )
            } else {
                ModeAskState::Done(false)
            },
            Display::Svga(d) => if d.can_show(w, h) {
                ModeAskState::Registers(mode_values(w, h))
            } else {
                ModeAskState::Done(false)
            },
            Display::Bochs(d) => if d.can_show(w, h) {
                ModeAskState::Steps(mode_steps(w as u16, h as u16))
            } else {
                ModeAskState::Done(false)
            },
        }
    }

    /// Ask for a mode; what comes of it goes to `mode_answered`. `phys` is
    /// where the picture of a virtio adapter will be kept. The boot
    /// framebuffer has only one mode.
    pub fn set_mode(&self, w: u32, h: u32, phys: u64) -> (r: ModeAsk)
        ensures
            r@ == self.asked(w, h, phys),
    {
        match self {
            Display::Framebuffer { pitch: _, width, height } => ModeAsk::Done(*width == w && *height == h),
            Display::Virtio(g) => match VirtioGpu::mode_bytes(w, h) {
                Some(_) => ModeAsk::Commands(g.mode_commands(w, h, phys)),
                None => ModeAsk::Done(false),
            },
            Display::Svga(d) => match d.set_mode(w, h) {
                Some(v) => ModeAsk::Registers(v),
                None => ModeAsk::Done(false),
            },
            Display::Bochs(d) => match d.set_mode(w, h) {
                Some(v) => ModeAsk::Steps(v),
                None => ModeAsk::Done(false),
            },
        }
    }

    /// Whether the mode is shown, by what the adapter said.
    pub open spec fn shows(self, w: u32, h: u32, a: ModeAnswer) -> bool {
        self.can_ask(w, h) && match (self, a) {
            (Display::Virtio(_), ModeAnswer::Virtio(ok)) => ok,
            (Display::Svga(d), ModeAnswer::Svga { now, pitch, offset }) => d.holds(w, h, now, pitch, offset),
            (Display::Bochs(_), ModeAnswer::Bochs { xres, yres }) => xres == w && yres == h,
            _ => false,
        }
    }

    /// The display once the adapter has answered. A Bochs adapter that did not
    /// follow shows nothing until it is back in its mode.
    pub open spec fn answered(self, w: u32, h: u32, a: ModeAnswer) -> Display {
        match (self, a) {
            (Display::Virtio(g), ModeAnswer::Virtio(_)) => if self.shows(w, h, a) {
                Display::Virtio(VirtioGpu { width: w, height: h, fb_resource: g.other_resource() })
            } else {
                self
            },
            (Display::Svga(d), ModeAnswer::Svga { now, pitch, offset }) => if self.shows(w, h, a) {
                Display::Svga(VmwareSvga { width: w, height: h, pitch: pitch as u64, offset: offset as u64, ..d })
            } else {
                self
            },
            (Display::Bochs(d), ModeAnswer::Bochs { .. }) => if !d.can_show(w, h) {
                self
            } else if self.shows(w, h, a) {
                Display::Bochs(BochsVga { width: w, height: h, ..d })
            } else {
                Display::Bochs(BochsVga { width: 0, ..d })
            },
            _ => self,
        }
    }

    /// The mode to go back to where one was refused, if there was one.
    pub open spec fn mode_back(self, w: u32, h: u32, a: ModeAnswer) -> Option<(u32, u32)> {
        match (self, a) {
            (Display::Svga(d), ModeAnswer::Svga { .. }) => if self.can_ask(w, h) && !self.shows(w, h, a) && d.width != 0 {
                Some((d.width, d.height))
            } else {
                None
            },
            (Display::Bochs(d), ModeAnswer::Bochs { .. }) => if self.can_ask(w, h) && !self.shows(w, h, a) && d.width
                != 0 {
                Some((d.width, d.height))
            } else {
                None
            },
            _ => None,
        }
    }

    /// The commands that release what a virtio adapter shows no more.
    pub open spec fn released(self, w: u32, h: u32, a: ModeAnswer) -> Seq<Seq<u32>> {
        match (self, a) {
            (Display::Virtio(g), ModeAnswer::Virtio(ok)) => if !self.can_ask(w, h) {
                Seq::empty()
            } else if ok {
                seq![detach(g.fb_resource), unref(g.fb_resource)]
            } else {
                seq![unref(g.other_resource())]
            },
            _ => Seq::empty(),
        }
    }

    /// Take what the adapter answered when it was asked for a mode. Where the
    /// mode is shown, the compositor starts with a black back buffer.
    pub fn mode_answered(&mut self, w: u32, h: u32, a: ModeAnswer) -> (r: ModeOutcome)
        ensures
            *final(self) == old(self).answered(w, h, a),
            r.shown == old(self).shows(w, h, a),
            r.pixels == if r.shown { w * h } else { 0 },
            r.back == old(self).mode_back(w, h, a),
            words(r.commands@) == old(self).released(w, h, a),
    {
        let mut r = ModeOutcome { shown: false, pixels: 0, back: None, commands: Vec::new() };
        proof {
            assert(words(r.commands@) =~= Seq::<Seq<u32>>::empty());
            assert(0 <= w * h <= 0xffff_ffff * 0xffff_ffff) by (nonlinear_arith)
                requires
                    0 <= w <= 0xffff_ffff,
                    0 <= h <= 0xffff_ffff,
            ;
        }
        match (*self, a) {
            (Display::Virtio(g), ModeAnswer::Virtio(ok)) => {
                if VirtioGpu::mode_bytes(w, h).is_some() {
                    let mut dev: VirtioGpu = g;
                    r.commands = dev.set_mode(w, h, ok);
                    r.shown = ok;
                    *self = Display::Virtio(dev);
                }
            },
            (Display::Svga(d), ModeAnswer::Svga { now, pitch, offset }) => {
                if d.supports(w, h) {
                    let mut dev: VmwareSvga = d;
                    r.shown = dev.apply_mode(w, h, now, pitch, offset);
                    if !r.shown {
                        r.back = d.previous_mode();
                    }
                    *self = Display::Svga(dev);
                }
            },
            (Display::Bochs(d), ModeAnswer::Bochs { xres, yres }) => {
                if d.supports(w, h) {
                    let mut dev: BochsVga = d;
                    let (shown, back) = dev.mode_set(w, h, xres, yres);
                    r.shown = shown;
                    r.back = back;
                    *self = Display::Bochs(dev);
                }
            },
            _ => {},
        }
        if r.shown {
            r.pixels = w as u64 * h as u64;
        }
        r
    }

    /// Called once per composited frame, after everything was presented:
    /// whether the device must be told of new commands.
    pub fn end_frame(&mut self) -> (r: bool)
        ensures
            match *old(self) {
                Display::Svga(d) => {
                    &&& r == d.pending
                    &&& *final(self) == Display::Svga(VmwareSvga { pending: false, ..d })
                },
                _ => !r && *final(self) == *old(self),
            },
    {
        match *self {
            Display::Svga(d) => {
                let mut dev: VmwareSvga = d;
                let r: bool = dev.kick();
                *self = Display::Svga(dev);
                r
            },
            _ => false,
        }
    }

    pub fn has_hw_cursor(&self) -> (r: bool)
        ensures
            r == (self is Virtio),
    {
        match self {
            Display::Virtio(_) => true,
            _ => false,
        }
    }

    /// The commands that show a new cursor image, where the hardware has a
    /// cursor.
    pub fn set_cursor(&self, hot: (i32, i32), pos: (i32, i32)) -> (r: Option<(Vec<u32>, Vec<u32>)>)
        ensures
            r is Some == self is Virtio,
            r matches Some(c) ==> {
                &&& c.0@ == transfer(0, 0, CURSOR_SIZE, CURSOR_SIZE, 0, CURSOR_RESOURCE)
                &&& c.1@ == cursor_of(
                    CMD_UPDATE_CURSOR,
                    bits32(pos.0),
                    bits32(pos.1),
                    CURSOR_RESOURCE,
                    bits32(hot.0),
                    bits32(hot.1),
                )
            },
    {
        if self.has_hw_cursor() {
            Some(VirtioGpu::set_cursor(to_bits(hot.0), to_bits(hot.1), to_bits(pos.0), to_bits(pos.1)))
        } else {
            None
        }
    }

    /// The command that moves the cursor, where the hardware has one.
    pub fn move_cursor(&self, x: i32, y: i32) -> (r: Option<Vec<u32>>)
        ensures
            r is Some == self is Virtio,
            r matches Some(c) ==> c@ == cursor_of(
                CMD_MOVE_CURSOR,
                (if x > 0 { x } else { 0 }) as u32,
                (if y > 0 { y } else { 0 }) as u32,
                CURSOR_RESOURCE,
                0,
                0,
            ),
    {
        if self.has_hw_cursor() {
            Some(VirtioGpu::move_cursor(if x > 0 { x as u32 } else { 0 }, if y > 0 { y as u32 } else { 0 }))
        } else {
            None
        }
    }
}

/// What is copied for a part of the screen stays within the back buffer and
/// within the video memory.
pub proof fn lemma_copies_fit(width: u32, height: u32, pitch: u64, len: u64, r: Rect, i: int)
    requires
        0 <= r.x,
        0 <= r.y,
        0 <= i < r.h,
        0 < r.w,
        r.x + r.w <= width,
        r.y + r.h <= height,
        in_memory(pitch, len, r),
    ensures
        ({
            let c = rows(width, pitch, r, r.h as int)[i];
            &&& c.from + c.pixels <= width * height
            &&& c.to + c.pixels * 4 <= len
        }),
{
    let y = r.y + i;
    assert(y * width + width <= width * height) by (nonlinear_arith)
        requires
            0 <= y < height,
            0 <= width,
    ;
    assert(0 <= width * height <= 0xffff_ffff * 0xffff_ffff) by (nonlinear_arith)
        requires
            0 <= width <= 0xffff_ffff,
            0 <= height <= 0xffff_ffff,
    ;
    assert(0 <= y * pitch <= (r.y + r.h - 1) * pitch) by (nonlinear_arith)
        requires
            0 <= y <= r.y + r.h - 1,
            0 <= pitch,
    ;
    assert(0 <= y * width) by (nonlinear_arith)
        requires
            0 <= y,
            0 <= width,
    ;
}

proof fn lemma_kept_in_order(d: Display, n: int)
    requires
        0 <= n <= 13,
    ensures
        in_order(d.kept(n)),
        forall|i: int|
            0 <= i < d.kept(n).len() ==> exists|j: int| 0 <= j < n && #[trigger] d.kept(n)[i] == #[trigger] common_modes()[j],
    decreases n,
{
    if n > 0 {
        lemma_kept_in_order(d, n - 1);
        let k0 = d.kept(n - 1);
        let k1 = d.kept(n);
        let c = common_modes();
        assert forall|i: int| 0 <= i < k1.len() implies exists|j: int| 0 <= j < n && #[trigger] k1[i] == #[trigger] c[j] by {
            if i < k0.len() {
                let j = choose|j: int| 0 <= j < n - 1 && k0[i] == c[j];
                assert(k1[i] == c[j]);
            } else {
                assert(k1[i] == c[n - 1]);
            }
        }
        assert forall|i: int, j: int| 0 <= i < j < k1.len() implies before(#[trigger] k1[i], #[trigger] k1[j]) by {
            if j == k0.len() {
                let m = choose|m: int| 0 <= m < n - 1 && k0[i] == c[m];
                assert(k1[i] == c[m]);
                lemma_common_in_order(m, n - 1);
            } else {
                assert(k1[i] == k0[i] && k1[j] == k0[j]);
            }
        }
    }
}

proof fn lemma_common_in_order(i: int, j: int)
    requires
        0 <= i < j < 13,
    ensures
        before(common_modes()[i], common_modes()[j]),
    decreases j - i,
{
    let c = common_modes();
    assert(c[0].0 == 800 && c[1].0 == 1024 && c[2].0 == 1152 && c[3].0 == 1280 && c[4].0 == 1280 && c[5].0 == 1280 && c[6].0
        == 1366 && c[7].0 == 1440 && c[8].0 == 1600 && c[9].0 == 1680 && c[10].0 == 1920 && c[11].0 == 1920 && c[12].0
        == 2560);
    if i + 1 < j {
        lemma_common_in_order(i, j - 1);
        lemma_common_in_order(j - 1, j);
    }
}

proof fn lemma_place(v: Seq<(u32, u32)>, m: (u32, u32), n: int)
    requires
        in_order(v),
        0 <= n <= v.len(),
    ensures
        0 <= place_of(v, m, n) <= n,
        forall|i: int| 0 <= i < n ==> (i < place_of(v, m, n) <==> before(#[trigger] v[i], m)),
    decreases n,
{
    if n > 0 {
        lemma_place(v, m, n - 1);
        if before(v[n - 1], m) {
            assert forall|i: int| 0 <= i < n implies before(#[trigger] v[i], m) by {
                if i < n - 1 {
                    assert(before(v[i], v[n - 1]));
                }
            }
            if n > 1 {
                assert(before(v[n - 2], m));
            }
        }
    }
}

/// The modes that are offered come in order, each once, and the current one
/// is among them.
pub proof fn lemma_modes(d: Display)
    ensures
        in_order(d.all_modes()),
        d.all_modes().contains(d.extent()),
{
    let v = d.kept(13);
    let m = d.extent();
    lemma_kept_in_order(d, 13);
    if !v.contains(m) {
        lemma_place(v, m, v.len() as int);
        let p = place_of(v, m, v.len() as int);
        let w = v.insert(p, m);
        assert(w[p] == m);
        assert forall|i: int, j: int| 0 <= i < j < w.len() implies before(#[trigger] w[i], #[trigger] w[j]) by {
            let a = if i < p { i } else { i - 1 };
            let b = if j < p { j } else { j - 1 };
            if i == p {
                assert(w[j] == v[b]);
                assert(!before(v[b], m));
                assert(v[b] != m);
            } else if j == p {
                assert(w[i] == v[a]);
                assert(before(v[a], m));
            } else {
                assert(w[i] == v[a] && w[j] == v[b]);
            }
        }
    }
}

/// A mode that is refused is not shown, and the adapter goes back to the one
/// before: a Bochs adapter that follows then is as it was, and the others
/// were never changed.
pub proof fn lemma_mode_refused(d: Display, w: u32, h: u32, a: ModeAnswer)
    requires
        !d.shows(w, h, a),
    ensures
        !(d is Bochs) ==> d.answered(w, h, a) == d,
        d matches Display::Bochs(b) ==> (b.can_show(b.width, b.height) && d.mode_back(w, h, a) is Some ==> d.answered(
            w,
            h,
            a,
        ).answered(b.width, b.height, ModeAnswer::Bochs { xres: b.width as u16, yres: b.height as u16 }) == d),
        d.mode_back(w, h, a) matches Some(m) ==> m == d.extent(),
{
}

} // verus!
