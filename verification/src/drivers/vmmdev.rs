//! VirtualBox guest device (VMMDev, PCI 80ee:cafe).
//!
//! The desktop follows the size of the VirtualBox window, and the mouse
//! moves seamlessly in and out of the VM without being captured.
//!
//! Requests are small structures in physical memory; writing their physical
//! address to the device's I/O port makes the host process them
//! synchronously and fill in the result.

use crate::arith::{signed32, to_signed};
use crate::input::InputEvent;
use vstd::prelude::*;

verus! {

pub const VMMDEV_REQUEST_HEADER_VERSION: u32 = 0x10001;
pub const VMMDEV_VERSION: u32 = 0x0001_0004;

pub const REQ_GET_MOUSE_STATUS: u32 = 1;
pub const REQ_SET_MOUSE_STATUS: u32 = 2;
pub const REQ_REPORT_GUEST_INFO: u32 = 50;
pub const REQ_GET_DISPLAY_CHANGE_REQUEST2: u32 = 54;
pub const REQ_SET_GUEST_CAPABILITIES: u32 = 56;

pub const MOUSE_GUEST_CAN_ABSOLUTE: u32 = 1;
pub const MOUSE_HOST_WANTS_ABSOLUTE: u32 = 2;
pub const MOUSE_NEW_PROTOCOL: u32 = 16;
pub const GUEST_SUPPORTS_GRAPHICS: u32 = 4;
pub const EVENT_DISPLAY_CHANGE_REQUEST: u32 = 4;

#[derive(Clone, Copy)]
pub struct VmmDev {
    pub port: u16,
    pub last_mouse: (i32, i32),
    pub last_display: Option<(u32, u32)>,
}

/// A request in memory: a header, then the body. The fourth word is the
/// result, which the host sets.
pub open spec fn request_words(kind: u32, body: Seq<u32>) -> Seq<u32> {
    seq![(24 + body.len() * 4) as u32, VMMDEV_REQUEST_HEADER_VERSION, kind, 0xffff_ffffu32, 0, 0] + body
}

/// The requests that tell the host of the guest: its interface, that it
/// can change its size, and that it takes an absolute pointer.
pub open spec fn greetings() -> Seq<Seq<u32>> {
    seq![
        request_words(REQ_REPORT_GUEST_INFO, seq![VMMDEV_VERSION, 0]),
        request_words(REQ_SET_GUEST_CAPABILITIES, seq![GUEST_SUPPORTS_GRAPHICS, 0]),
        request_words(REQ_SET_MOUSE_STATUS, seq![17u32, 0, 0]),
    ]
}

/// A number kept between 0 and 65535.
pub open spec fn clamped(v: int) -> u32 {
    if v < 0 {
        0
    } else if v > 0xffff {
        0xffff
    } else {
        v as u32
    }
}

fn clamp(v: i32) -> (r: u32)
    ensures
        r == clamped(v as int),
{
    if v < 0 {
        0
    } else if v > 0xffff {
        0xffff
    } else {
        v as u32
    }
}

/// A request: the words to write.
pub fn request(kind: u32, body: &[u32]) -> (r: Vec<u32>)
    requires
        body@.len() <= 8,
    ensures
        r@ == request_words(kind, body@),
{
    let n: usize = body.len();
    let mut v: Vec<u32> = Vec::new();
    v.push(24 + n as u32 * 4);
    v.push(VMMDEV_REQUEST_HEADER_VERSION);
    v.push(kind);
    v.push(0xffff_ffff);
    v.push(0);
    v.push(0);
    let mut i: usize = 0;
    let ghost want = request_words(kind, body@);
    proof {
        assert(v@ =~= want.take(6));
    }
    while i < n
        invariant
            n == body@.len(),
            i <= n,
            want == request_words(kind, body@),
            v@ == want.take(6 + i),
        decreases n - i,
    {
        v.push(body[i]);
        i += 1;
        proof {
            assert(v@ =~= want.take(6 + i));
        }
    }
    proof {
        assert(want.take(want.len() as int) =~= want);
    }
    v
}

/// What the host answered to a request with a body of `n` words: the body,
/// filled up with zeros, or nothing if it refused.
pub open spec fn answer_of(words: Seq<u32>, n: int) -> Option<Seq<u32>> {
    if words[3] != 0 {
        None
    } else {
        Some(Seq::new(8, |i: int| if i < n { words[6 + i] } else { 0 }))
    }
}

pub fn answer(words: &[u32], n: usize) -> (r: Option<[u32; 8]>)
    requires
        n <= 8,
        words@.len() >= 6 + n,
    ensures
        match r {
            Some(a) => answer_of(words@, n as int) == Some(a@),
            None => answer_of(words@, n as int) is None,
        },
{
    if words[3] != 0 {
        return None;
    }
    let mut out: [u32; 8] = [0, 0, 0, 0, 0, 0, 0, 0];
    let mut i: usize = 0;
    while i < n
        invariant
            n <= 8,
            i <= n,
            words@.len() >= 6 + n,
            forall|k: int| 0 <= k < i ==> out@[k] == words@[6 + k],
            forall|k: int| i <= k < 8 ==> out@[k] == 0,
        decreases n - i,
    {
        out[i] = words[6 + i];
        i += 1;
    }
    proof {
        assert(out@ =~= Seq::new(8, |i: int| if i < n { words@[6 + i] } else { 0 }));
    }
    Some(out)
}

impl VmmDev {
    /// The device, by its base address register and the place of the
    /// request block, which must sit below 4 GiB: the port takes 32 bits.
    pub fn new(bar: u32, req: u64) -> (r: Option<VmmDev>)
        ensures
            r == if bar % 2 == 1 && req < 0x1_0000_0000 {
                Some(
                    VmmDev {
                        port: (bar / 4 * 4 % 0x1_0000) as u16,
                        last_mouse: (-1i32, -1i32),
                        last_display: None,
                    },
                )
            } else {
                None
            },
    {
        if bar % 2 == 0 || req >= 0x1_0000_0000 {
            return None;
        }
        Some(VmmDev { port: (bar / 4 * 4 % 0x1_0000) as u16, last_mouse: (-1, -1), last_display: None })
    }

    /// The requests that tell the host of the guest. If the host refuses the
    /// first, the device is not used.
    pub fn greeting() -> (r: [Vec<u32>; 3])
        ensures
            r@[0]@ == greetings()[0],
            r@[1]@ == greetings()[1],
            r@[2]@ == greetings()[2],
    {
        let info: [u32; 2] = [VMMDEV_VERSION, 0];
        let caps: [u32; 2] = [GUEST_SUPPORTS_GRAPHICS, 0];
        let mouse: [u32; 3] = [17, 0, 0];
        proof {
            assert(info@ =~= seq![VMMDEV_VERSION, 0]);
            assert(caps@ =~= seq![GUEST_SUPPORTS_GRAPHICS, 0]);
            assert(mouse@ =~= seq![17u32, 0, 0]);
        }
        [
            request(REQ_REPORT_GUEST_INFO, &info),
            request(REQ_SET_GUEST_CAPABILITIES, &caps),
            request(REQ_SET_MOUSE_STATUS, &mouse),
        ]
    }

    /// The request for the state of the mouse.
    pub fn mouse_request() -> (r: Vec<u32>)
        ensures
            r@ == request_words(REQ_GET_MOUSE_STATUS, seq![0u32, 0, 0]),
    {
        let body: [u32; 3] = [0, 0, 0];
        proof {
            assert(body@ =~= seq![0u32, 0, 0]);
        }
        request(REQ_GET_MOUSE_STATUS, &body)
    }

    /// The request for a new screen size.
    pub fn display_request() -> (r: Vec<u32>)
        ensures
            r@ == request_words(
                REQ_GET_DISPLAY_CHANGE_REQUEST2,
                seq![0u32, 0, 0, EVENT_DISPLAY_CHANGE_REQUEST, 0],
            ),
    {
        let body: [u32; 5] = [0, 0, 0, EVENT_DISPLAY_CHANGE_REQUEST, 0];
        proof {
            assert(body@ =~= seq![0u32, 0, 0, EVENT_DISPLAY_CHANGE_REQUEST, 0]);
        }
        request(REQ_GET_DISPLAY_CHANGE_REQUEST2, &body)
    }

    /// What the state of the mouse tells: its flags, and where it is.
    pub open spec fn moused(self, flags: u32, x: u32, y: u32) -> (VmmDev, Option<InputEvent>) {
        let pos = (signed32(x) as i32, signed32(y) as i32);
        if flags / 2 % 2 == 0 || pos == self.last_mouse {
            (self, None)
        } else {
            (
                VmmDev { last_mouse: pos, ..self },
                Some(InputEvent::MouseAbsolute { x: Some(clamped(pos.0 as int)), y: Some(clamped(pos.1 as int)) }),
            )
        }
    }

    /// An absolute pointer event if the host moved the mouse.
    pub fn poll_mouse(&mut self, flags: u32, x: u32, y: u32) -> (r: Option<InputEvent>)
        ensures
            (*final(self), r) == old(self).moused(flags, x, y),
    {
        if flags / 2 % 2 == 0 {
            return None;
        }
        let (px, py) = (to_signed(x), to_signed(y));
        if px == self.last_mouse.0 && py == self.last_mouse.1 {
            return None;
        }
        self.last_mouse = (px, py);
        Some(InputEvent::MouseAbsolute { x: Some(clamp(px)), y: Some(clamp(py)) })
    }

    /// What the request for a new screen size tells.
    pub open spec fn displayed(self, w: u32, h: u32) -> (VmmDev, Option<(u32, u32)>) {
        if w == 0 || h == 0 || self.last_display == Some((w, h)) {
            (self, None)
        } else {
            (VmmDev { last_display: Some((w, h)), ..self }, Some((w, h)))
        }
    }

    /// A new screen size that the host asked for, reported once per change.
    pub fn display_change(&mut self, w: u32, h: u32) -> (r: Option<(u32, u32)>)
        ensures
            (*final(self), r) == old(self).displayed(w, h),
    {
        let same: bool = match self.last_display {
            Some((lw, lh)) => lw == w && lh == h,
            None => false,
        };
        if w == 0 || h == 0 || same {
            return None;
        }
        self.last_display = Some((w, h));
        Some((w, h))
    }
}

/// A change of the screen size is reported once.
pub proof fn lemma_display_once(d: VmmDev, w: u32, h: u32)
    ensures
        d.displayed(w, h).0.displayed(w, h).1 is None,
{
}

/// A mouse that rests is reported once.
pub proof fn lemma_mouse_once(d: VmmDev, flags: u32, x: u32, y: u32)
    ensures
        d.moused(flags, x, y).0.moused(flags, x, y).1 is None,
{
}

} // verus!
