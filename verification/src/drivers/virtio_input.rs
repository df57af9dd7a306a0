//! virtio input driver, used for tablets: with absolute pointer coordinates
//! the mouse need not be grabbed.

use super::virtio::Buf;
use crate::arith::{signed32, to_signed};
use crate::input::InputEvent;
use crate::text::{read_text, text_of_bytes};
use vstd::prelude::*;

verus! {

pub const EV_SYN: u16 = 0;
pub const EV_KEY: u16 = 1;
pub const EV_REL: u16 = 2;
pub const EV_ABS: u16 = 3;
pub const BTN_LEFT: u16 = 0x110;
pub const BTN_RIGHT: u16 = 0x111;
pub const BTN_MIDDLE: u16 = 0x112;
pub const REL_WHEEL: u16 = 8;
pub const ABS_X: u16 = 0;
pub const ABS_Y: u16 = 1;

pub const QUEUE_LEN: u16 = 64;

#[verifier::ext_equal]
pub ghost struct TabletState {
    pub name: Seq<char>,
    pub max_x: int,
    pub max_y: int,
    pub x: Option<u32>,
    pub y: Option<u32>,
}

pub struct VirtioInput {
    pub name: String,
    pub abs_max: (u32, u32),
    pub pending_abs: (Option<u32>, Option<u32>),
}

impl View for VirtioInput {
    type V = TabletState;

    open spec fn view(&self) -> TabletState {
        TabletState {
            name: self.name@,
            max_x: self.abs_max.0 as int,
            max_y: self.abs_max.1 as int,
            x: self.pending_abs.0,
            y: self.pending_abs.1,
        }
    }
}

/// A coordinate of the device, of which `max` is the largest, on a scale to
/// 65535.
pub open spec fn scaled(v: Option<u32>, max: int) -> Option<u32> {
    match v {
        Some(v) => Some((v * 65535 / max % 0x1_0000_0000) as u32),
        None => None,
    }
}

/// The largest coordinate, by what the device says if it says so.
pub open spec fn largest(said: Option<u32>) -> int {
    match said {
        Some(m) => if m > 1 { m as int } else { 1 },
        None => 32767,
    }
}

impl TabletState {
    pub open spec fn wf(self) -> bool {
        0 < self.max_x <= u32::MAX && 0 < self.max_y <= u32::MAX
    }

    /// What an event of the device does, and the input that it is.
    pub open spec fn handled(self, kind: u16, code: u16, value: u32) -> (TabletState, Option<InputEvent>) {
        if kind == EV_ABS && code == ABS_X {
            (TabletState { x: Some(value), ..self }, None)
        } else if kind == EV_ABS && code == ABS_Y {
            (TabletState { y: Some(value), ..self }, None)
        } else if kind == EV_KEY && BTN_LEFT <= code <= BTN_MIDDLE {
            (self, Some(InputEvent::MouseButton { button: (code - BTN_LEFT) as u8, pressed: value != 0 }))
        } else if kind == EV_REL && code == REL_WHEEL {
            (self, Some(InputEvent::Wheel((-signed32(value)) as i32)))
        } else if kind == EV_SYN && (self.x is Some || self.y is Some) {
            (
                TabletState { x: None, y: None, ..self },
                Some(InputEvent::MouseAbsolute { x: scaled(self.x, self.max_x), y: scaled(self.y, self.max_y) }),
            )
        } else {
            (self, None)
        }
    }
}

fn scale(v: Option<u32>, max: u32) -> (r: Option<u32>)
    requires
        max > 0,
    ensures
        r == scaled(v, max as int),
{
    match v {
        Some(v) => Some(((v as u64 * 65535 / max as u64) % 0x1_0000_0000) as u32),
        None => None,
    }
}

impl VirtioInput {
    /// A device, by the bytes of its name and its largest coordinates if it
    /// has such.
    pub fn new(name: &[u8], max_x: Option<u32>, max_y: Option<u32>) -> (r: VirtioInput)
        ensures
            r@ == (TabletState {
                name: read_text(name@),
                max_x: largest(max_x),
                max_y: largest(max_y),
                x: None,
                y: None,
            }),
            r@.wf(),
    {
        let x: u32 = match max_x {
            Some(m) => if m > 1 { m } else { 1 },
            None => 32767,
        };
        let y: u32 = match max_y {
            Some(m) => if m > 1 { m } else { 1 },
            None => 32767,
        };
        VirtioInput { name: text_of_bytes(name), abs_max: (x, y), pending_abs: (None, None) }
    }

    /// Whether a device has absolute coordinates, by the length of what it
    /// says of the first axis.
    pub fn is_tablet(info_len: u8) -> (r: bool)
        ensures
            r == (info_len >= 8),
    {
        info_len >= 8
    }

    /// The buffer of the `id`th event.
    pub fn event_buf(events: u64, id: u16) -> (r: Buf)
        requires
            events + id * 8 <= u64::MAX,
        ensures
            r == (Buf { phys: (events + id * 8) as u64, len: 8, device_writes: true }),
    {
        Buf { phys: events + id as u64 * 8, len: 8, device_writes: true }
    }

    /// What an event of the device does: coordinates wait until the report
    /// is complete.
    pub fn handle(&mut self, kind: u16, code: u16, value: u32) -> (r: Option<InputEvent>)
        requires
            old(self)@.wf(),
            kind == EV_REL && code == REL_WHEEL ==> value != 0x8000_0000,
        ensures
            (final(self)@, r) == old(self)@.handled(kind, code, value),
    {
        if kind == EV_ABS && code == ABS_X {
            self.pending_abs.0 = Some(value);
            return None;
        }
        if kind == EV_ABS && code == ABS_Y {
            self.pending_abs.1 = Some(value);
            return None;
        }
        if kind == EV_KEY {
            let button: u8 = if code == BTN_LEFT {
                0
            } else if code == BTN_RIGHT {
                1
            } else if code == BTN_MIDDLE {
                2
            } else {
                return None;
            };
            return Some(InputEvent::MouseButton { button, pressed: value != 0 });
        }
        if kind == EV_REL && code == REL_WHEEL {
            return Some(InputEvent::Wheel(-to_signed(value)));
        }
        if kind == EV_SYN && (self.pending_abs.0.is_some() || self.pending_abs.1.is_some()) {
            let x: Option<u32> = scale(self.pending_abs.0, self.abs_max.0);
            let y: Option<u32> = scale(self.pending_abs.1, self.abs_max.1);
            self.pending_abs = (None, None);
            return Some(InputEvent::MouseAbsolute { x, y });
        }
        None
    }
}

/// A coordinate within the device's range is within the scale.
pub proof fn lemma_in_scale(v: u32, max: int)
    requires
        0 < max,
        v <= max,
    ensures
        scaled(Some(v), max)->0 <= 65535,
        scaled(Some(v), max)->0 == v * 65535 / max,
{
    assert(0 <= v * 65535 / max <= 65535) by (nonlinear_arith)
        requires
            0 <= v <= max,
            0 < max,
    ;
}

/// A move of the tablet, reported in its three parts, is one input with
/// both coordinates, and nothing of it waits.
pub proof fn lemma_move(t: TabletState, x: u32, y: u32)
    requires
        t.wf(),
    ensures
        ({
            let (a, ra) = t.handled(EV_ABS, ABS_X, x);
            let (b, rb) = a.handled(EV_ABS, ABS_Y, y);
            let (c, rc) = b.handled(EV_SYN, 0, 0);
            &&& ra is None && rb is None
            &&& rc == Some(InputEvent::MouseAbsolute { x: scaled(Some(x), t.max_x), y: scaled(Some(y), t.max_y) })
            &&& c == (TabletState { x: None, y: None, ..t })
        }),
{
}

} // verus!
