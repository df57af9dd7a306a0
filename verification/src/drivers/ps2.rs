//! PS/2 keyboard (scancode set 1 via controller translation) and mouse.

use crate::input::{InputEvent, Key, KeyEvent};
use vstd::prelude::*;

verus! {

/// Characters of the keys without shift, by scancode; 0 where there is none.
pub open spec fn lower_keys() -> Seq<u8> {
    seq![
        0u8, 0x1b, 0x31, 0x32, 0x33, 0x34, 0x35, 0x36, 0x37, 0x38, 0x39, 0x30, 0x2d, 0x3d, 0x08,
        0x09, 0x71, 0x77, 0x65, 0x72, 0x74, 0x79, 0x75, 0x69, 0x6f, 0x70, 0x5b, 0x5d, 0x0a, 0,
        0x61, 0x73, 0x64, 0x66, 0x67, 0x68, 0x6a, 0x6b, 0x6c, 0x3b, 0x27, 0x60, 0, 0x5c,
        0x7a, 0x78, 0x63, 0x76, 0x62, 0x6e, 0x6d, 0x2c, 0x2e, 0x2f, 0, 0x2a, 0, 0x20,
    ]
}

/// Characters of the keys with shift.
pub open spec fn upper_keys() -> Seq<u8> {
    seq![
        0u8, 0x1b, 0x21, 0x40, 0x23, 0x24, 0x25, 0x5e, 0x26, 0x2a, 0x28, 0x29, 0x5f, 0x2b, 0x08,
        0x09, 0x51, 0x57, 0x45, 0x52, 0x54, 0x59, 0x55, 0x49, 0x4f, 0x50, 0x7b, 0x7d, 0x0a, 0,
        0x41, 0x53, 0x44, 0x46, 0x47, 0x48, 0x4a, 0x4b, 0x4c, 0x3a, 0x22, 0x7e, 0, 0x7c,
        0x5a, 0x58, 0x43, 0x56, 0x42, 0x4e, 0x4d, 0x3c, 0x3e, 0x3f, 0, 0x2a, 0, 0x20,
    ]
}

pub open spec fn extended_key(code: u8) -> Key {
    if code == 0x1c {
        Key::Enter
    } else if code == 0x1d {
        Key::Ctrl
    } else if code == 0x35 {
        Key::Char('/')
    } else if code == 0x38 {
        Key::Alt
    } else if code == 0x47 {
        Key::Home
    } else if code == 0x48 {
        Key::Up
    } else if code == 0x49 {
        Key::PageUp
    } else if code == 0x4b {
        Key::Left
    } else if code == 0x4d {
        Key::Right
    } else if code == 0x4f {
        Key::End
    } else if code == 0x50 {
        Key::Down
    } else if code == 0x51 {
        Key::PageDown
    } else if code == 0x52 {
        Key::Insert
    } else if code == 0x53 {
        Key::Delete
    } else if code == 0x5b || code == 0x5c {
        Key::Super
    } else {
        Key::Unknown
    }
}

/// Keys that are the same with and without shift; none for the others.
pub open spec fn fixed_key(code: u8) -> Option<Key> {
    if code == 0x01 {
        Some(Key::Escape)
    } else if code == 0x0e {
        Some(Key::Backspace)
    } else if code == 0x0f {
        Some(Key::Tab)
    } else if code == 0x1c {
        Some(Key::Enter)
    } else if code == 0x1d {
        Some(Key::Ctrl)
    } else if code == 0x2a || code == 0x36 {
        Some(Key::Shift)
    } else if code == 0x38 {
        Some(Key::Alt)
    } else if code == 0x3a {
        Some(Key::CapsLock)
    } else if 0x3b <= code <= 0x44 {
        Some(Key::F((code - 0x3b + 1) as u8))
    } else if code == 0x57 {
        Some(Key::F(11))
    } else if code == 0x58 {
        Some(Key::F(12))
    } else if code == 0x47 {
        Some(Key::Char('7'))
    } else if code == 0x48 {
        Some(Key::Char('8'))
    } else if code == 0x49 {
        Some(Key::Char('9'))
    } else if code == 0x4a {
        Some(Key::Char('-'))
    } else if code == 0x4b {
        Some(Key::Char('4'))
    } else if code == 0x4c {
        Some(Key::Char('5'))
    } else if code == 0x4d {
        Some(Key::Char('6'))
    } else if code == 0x4e {
        Some(Key::Char('+'))
    } else if code == 0x4f {
        Some(Key::Char('1'))
    } else if code == 0x50 {
        Some(Key::Char('2'))
    } else if code == 0x51 {
        Some(Key::Char('3'))
    } else if code == 0x52 {
        Some(Key::Char('0'))
    } else if code == 0x53 {
        Some(Key::Char('.'))
    } else {
        None
    }
}

/// The character of a key; caps lock counts for letters only.
pub open spec fn printed_key(code: u8, shift: bool, caps: bool) -> Key {
    if code >= 58 || lower_keys()[code as int] == 0 {
        Key::Unknown
    } else {
        let low = lower_keys()[code as int];
        let upper = if 0x61 <= low <= 0x7a { shift != caps } else { shift };
        Key::Char((if upper { upper_keys()[code as int] } else { low }) as char)
    }
}

/// The key of a scancode.
pub open spec fn key_of(code: u8, extended: bool, shift: bool, caps: bool) -> Key {
    if extended {
        extended_key(code)
    } else {
        match fixed_key(code) {
            Some(k) => k,
            None => printed_key(code, shift, caps),
        }
    }
}

fn key_extended(code: u8) -> (r: Key)
    ensures
        r == extended_key(code),
{
    if code == 0x1c {
        Key::Enter
    } else if code == 0x1d {
        Key::Ctrl
    } else if code == 0x35 {
        Key::Char('/')
    } else if code == 0x38 {
        Key::Alt
    } else if code == 0x47 {
        Key::Home
    } else if code == 0x48 {
        Key::Up
    } else if code == 0x49 {
        Key::PageUp
    } else if code == 0x4b {
        Key::Left
    } else if code == 0x4d {
        Key::Right
    } else if code == 0x4f {
        Key::End
    } else if code == 0x50 {
        Key::Down
    } else if code == 0x51 {
        Key::PageDown
    } else if code == 0x52 {
        Key::Insert
    } else if code == 0x53 {
        Key::Delete
    } else if code == 0x5b || code == 0x5c {
        Key::Super
    } else {
        Key::Unknown
    }
}

fn key_fixed(code: u8) -> (r: Option<Key>)
    ensures
        r == fixed_key(code),
{
    if code == 0x01 {
        Some(Key::Escape)
    } else if code == 0x0e {
        Some(Key::Backspace)
    } else if code == 0x0f {
        Some(Key::Tab)
    } else if code == 0x1c {
        Some(Key::Enter)
    } else if code == 0x1d {
        Some(Key::Ctrl)
    } else if code == 0x2a || code == 0x36 {
        Some(Key::Shift)
    } else if code == 0x38 {
        Some(Key::Alt)
    } else if code == 0x3a {
        Some(Key::CapsLock)
    } else if 0x3b <= code && code <= 0x44 {
        Some(Key::F(code - 0x3b + 1))
    } else if code == 0x57 {
        Some(Key::F(11))
    } else if code == 0x58 {
        Some(Key::F(12))
    } else if code == 0x47 {
        Some(Key::Char('7'))
    } else if code == 0x48 {
        Some(Key::Char('8'))
    } else if code == 0x49 {
        Some(Key::Char('9'))
    } else if code == 0x4a {
        Some(Key::Char('-'))
    } else if code == 0x4b {
        Some(Key::Char('4'))
    } else if code == 0x4c {
        Some(Key::Char('5'))
    } else if code == 0x4d {
        Some(Key::Char('6'))
    } else if code == 0x4e {
        Some(Key::Char('+'))
    } else if code == 0x4f {
        Some(Key::Char('1'))
    } else if code == 0x50 {
        Some(Key::Char('2'))
    } else if code == 0x51 {
        Some(Key::Char('3'))
    } else if code == 0x52 {
        Some(Key::Char('0'))
    } else if code == 0x53 {
        Some(Key::Char('.'))
    } else {
        None
    }
}

/// The key of a scancode.
pub fn set1_key(code: u8, extended: bool, shift: bool, caps: bool) -> (r: Key)
    ensures
        r == key_of(code, extended, shift, caps),
{
    if extended {
        return key_extended(code);
    }
    if let Some(k) = key_fixed(code) {
        return k;
    }
    if code >= 58 {
        return Key::Unknown;
    }
    let lower: [u8; 58] = [
        0, 0x1b, 0x31, 0x32, 0x33, 0x34, 0x35, 0x36, 0x37, 0x38, 0x39, 0x30, 0x2d, 0x3d, 0x08,
        0x09, 0x71, 0x77, 0x65, 0x72, 0x74, 0x79, 0x75, 0x69, 0x6f, 0x70, 0x5b, 0x5d, 0x0a, 0,
        0x61, 0x73, 0x64, 0x66, 0x67, 0x68, 0x6a, 0x6b, 0x6c, 0x3b, 0x27, 0x60, 0, 0x5c,
        0x7a, 0x78, 0x63, 0x76, 0x62, 0x6e, 0x6d, 0x2c, 0x2e, 0x2f, 0, 0x2a, 0, 0x20,
    ];
    let upper: [u8; 58] = [
        0, 0x1b, 0x21, 0x40, 0x23, 0x24, 0x25, 0x5e, 0x26, 0x2a, 0x28, 0x29, 0x5f, 0x2b, 0x08,
        0x09, 0x51, 0x57, 0x45, 0x52, 0x54, 0x59, 0x55, 0x49, 0x4f, 0x50, 0x7b, 0x7d, 0x0a, 0,
        0x41, 0x53, 0x44, 0x46, 0x47, 0x48, 0x4a, 0x4b, 0x4c, 0x3a, 0x22, 0x7e, 0, 0x7c,
        0x5a, 0x58, 0x43, 0x56, 0x42, 0x4e, 0x4d, 0x3c, 0x3e, 0x3f, 0, 0x2a, 0, 0x20,
    ];
    proof {
        assert(lower@ =~= lower_keys());
        assert(upper@ =~= upper_keys());
    }
    let low: u8 = lower[code as usize];
    if low == 0 {
        return Key::Unknown;
    }
    let letter: bool = 0x61 <= low && low <= 0x7a;
    let up: bool = if letter { shift != caps } else { shift };
    Key::Char((if up { upper[code as usize] } else { low }) as char)
}

/// The state of the keyboard and the mouse.
#[derive(Clone, Copy, Debug)]
pub struct State {
    pub extended: bool,
    pub shift_l: bool,
    pub shift_r: bool,
    pub ctrl: bool,
    pub alt: bool,
    pub caps: bool,
    pub packet: (u8, u8, u8, u8),
    pub packet_len: u8,
    pub packet_size: u8,
    pub buttons: u8,
}

impl State {
    pub open spec fn wf(self) -> bool {
        (self.packet_size == 3 || self.packet_size == 4) && self.packet_len < self.packet_size && self.buttons < 8
    }

    /// With the modifiers that a key sets or clears.
    pub open spec fn modified(self, key: Key, make: u8, pressed: bool) -> State {
        match key {
            Key::Shift => if make == 0x2a {
                State { shift_l: pressed, ..self }
            } else {
                State { shift_r: pressed, ..self }
            },
            Key::Ctrl => State { ctrl: pressed, ..self },
            Key::Alt => State { alt: pressed, ..self },
            Key::CapsLock => if pressed { State { caps: !self.caps, ..self } } else { self },
            _ => self,
        }
    }

    /// A byte from the keyboard: the state after it, and the event.
    pub open spec fn keyed(self, code: u8) -> (State, Option<KeyEvent>) {
        if code == 0xe0 {
            (State { extended: true, ..self }, None)
        } else {
            let s = State { extended: false, ..self };
            let pressed = code < 0x80;
            let make = (code % 0x80) as u8;
            if self.extended && (make == 0x2a || make == 0x36) {
                (s, None)
            } else {
                let key = key_of(make, self.extended, self.shift_l || self.shift_r, self.caps);
                let t = s.modified(key, make, pressed);
                (
                    t,
                    Some(KeyEvent { key, pressed, shift: t.shift_l || t.shift_r, ctrl: t.ctrl, alt: t.alt }),
                )
            }
        }
    }

    /// With one more byte of a mouse packet.
    pub open spec fn with_byte(self, b: u8) -> State {
        let p = self.packet;
        State {
            packet: if self.packet_len == 0 {
                (b, p.1, p.2, p.3)
            } else if self.packet_len == 1 {
                (p.0, b, p.2, p.3)
            } else if self.packet_len == 2 {
                (p.0, p.1, b, p.3)
            } else {
                (p.0, p.1, p.2, b)
            },
            packet_len: (self.packet_len + 1) as u8,
            ..self
        }
    }

    /// A byte from the mouse: the state after it, and the events.
    pub open spec fn moused(self, b: u8) -> (State, Seq<InputEvent>) {
        if self.packet_len == 0 && b / 8 % 2 == 0 {
            (self, Seq::empty())
        } else {
            let s = self.with_byte(b);
            if s.packet_len < s.packet_size {
                (s, Seq::empty())
            } else {
                let now = (s.packet.0 % 8) as u8;
                (
                    State { packet_len: 0, buttons: now, ..s },
                    motion(s.packet) + clicks(self.buttons, now) + turn(s.packet, s.packet_size),
                )
            }
        }
    }
}

/// A movement: nine bits with a sign; upwards is positive.
pub open spec fn deltas(p: (u8, u8, u8, u8)) -> (int, int) {
    (
        p.1 - if p.0 / 16 % 2 == 1 { 256int } else { 0 },
        p.2 - if p.0 / 32 % 2 == 1 { 256int } else { 0 },
    )
}

#[verifier::opaque]
pub open spec fn motion(p: (u8, u8, u8, u8)) -> Seq<InputEvent> {
    let (dx, dy) = deltas(p);
    if dx != 0 || dy != 0 {
        seq![InputEvent::MouseMove { dx: dx as i32, dy: (-dy) as i32 }]
    } else {
        Seq::empty()
    }
}

/// The change of one button.
#[verifier::opaque]
pub open spec fn click(before: bool, now: bool, button: u8) -> Seq<InputEvent> {
    if before != now { seq![InputEvent::MouseButton { button, pressed: now }] } else { Seq::empty() }
}

/// The changes of the three buttons, one bit each.
pub open spec fn clicks(before: u8, now: u8) -> Seq<InputEvent> {
    click(before % 2 == 1, now % 2 == 1, 0) + click(before / 2 % 2 == 1, now / 2 % 2 == 1, 1) + click(
        before / 4 % 2 == 1,
        now / 4 % 2 == 1,
        2,
    )
}

/// The wheel: four bits with a sign.
#[verifier::opaque]
pub open spec fn turn(p: (u8, u8, u8, u8), size: u8) -> Seq<InputEvent> {
    let n = p.3 as int % 16;
    let z = if n >= 8 { n - 16 } else { n };
    if size == 4 && z != 0 { seq![InputEvent::Wheel(z as i32)] } else { Seq::empty() }
}

/// A modifier that is pressed and let go is as it was.
pub proof fn lemma_press_and_release(s: State, make: u8)
    requires
        !s.extended,
        make == 0x2a && !s.shift_l || make == 0x36 && !s.shift_r || make == 0x1d && !s.ctrl || make == 0x38 && !s.alt,
    ensures
        s.keyed(make).0.keyed((make + 0x80) as u8).0 == s,
{
}

/// Caps lock is off again when it is pressed twice.
pub proof fn lemma_caps_twice(s: State)
    requires
        !s.extended,
    ensures
        s.keyed(0x3a).0.keyed(0xba).0.caps == !s.caps,
        s.keyed(0x3a).0.keyed(0xba).0.keyed(0x3a).0.keyed(0xba).0 == s,
{
}

/// With caps lock, shift makes a letter small again, and other keys are as
/// without it.
pub proof fn lemma_caps_and_shift(code: u8)
    requires
        code < 58,
    ensures
        0x61 <= lower_keys()[code as int] <= 0x7a ==> printed_key(code, true, true) == printed_key(code, false, false),
        !(0x61 <= lower_keys()[code as int] <= 0x7a) ==> printed_key(code, true, true) == printed_key(code, true, false),
{
}

/// After a whole packet the mouse is at the beginning of the next one.
pub proof fn lemma_packet_ends(s: State, a: u8, b: u8, c: u8)
    requires
        s.wf(),
        s.packet_len == 0,
        s.packet_size == 3,
        a / 8 % 2 == 1,
    ensures
        s.moused(a).0.moused(b).0.moused(c).0.packet_len == 0,
        s.moused(a).0.moused(b).0.moused(c).0.buttons == a % 8,
        s.moused(a).1.len() == 0,
        s.moused(a).0.moused(b).1.len() == 0,
{
}

impl State {
    pub fn new() -> (r: State)
        ensures
            r.wf(),
            r == (State {
                extended: false,
                shift_l: false,
                shift_r: false,
                ctrl: false,
                alt: false,
                caps: false,
                packet: (0, 0, 0, 0),
                packet_len: 0,
                packet_size: 3,
                buttons: 0,
            }),
    {
        State {
            extended: false,
            shift_l: false,
            shift_r: false,
            ctrl: false,
            alt: false,
            caps: false,
            packet: (0, 0, 0, 0),
            packet_len: 0,
            packet_size: 3,
            buttons: 0,
        }
    }

    /// What kind of mouse there is, by what it calls itself; whether it has
    /// a wheel.
    pub fn mouse_found(&mut self, id: u8) -> (wheel: bool)
        requires
            old(self).wf(),
            old(self).packet_len == 0,
        ensures
            wheel == (id == 3),
            *final(self) == (State { packet_size: if wheel { 4u8 } else { 3u8 }, ..*old(self) }),
            final(self).wf(),
    {
        let wheel: bool = id == 3;
        self.packet_size = if wheel { 4 } else { 3 };
        wheel
    }

    /// A byte from the keyboard.
    pub fn on_keyboard_irq(&mut self, code: u8) -> (r: Option<KeyEvent>)
        requires
            old(self).wf(),
        ensures
            (*final(self), r) == old(self).keyed(code),
            final(self).wf(),
    {
        if code == 0xe0 {
            self.extended = true;
            return None;
        }
        let extended: bool = self.extended;
        self.extended = false;
        let pressed: bool = code < 0x80;
        let make: u8 = code % 0x80;
        // Ignore fake shifts that some keyboards wrap around extended keys.
        if extended && (make == 0x2a || make == 0x36) {
            return None;
        }
        let key: Key = set1_key(make, extended, self.shift_l || self.shift_r, self.caps);
        match key {
            Key::Shift => {
                if make == 0x2a {
                    self.shift_l = pressed;
                } else {
                    self.shift_r = pressed;
                }
            },
            Key::Ctrl => {
                self.ctrl = pressed;
            },
            Key::Alt => {
                self.alt = pressed;
            },
            Key::CapsLock => {
                if pressed {
                    self.caps = !self.caps;
                }
            },
            _ => {},
        }
        Some(KeyEvent { key, pressed, shift: self.shift_l || self.shift_r, ctrl: self.ctrl, alt: self.alt })
    }

    fn push_byte(&mut self, b: u8)
        requires
            old(self).wf(),
        ensures
            *final(self) == old(self).with_byte(b),
    {
        let p: (u8, u8, u8, u8) = self.packet;
        self.packet = if self.packet_len == 0 {
            (b, p.1, p.2, p.3)
        } else if self.packet_len == 1 {
            (p.0, b, p.2, p.3)
        } else if self.packet_len == 2 {
            (p.0, p.1, b, p.3)
        } else {
            (p.0, p.1, p.2, b)
        };
        self.packet_len += 1;
    }

    /// A byte from the mouse.
    pub fn on_mouse_irq(&mut self, b: u8) -> (r: Vec<InputEvent>)
        requires
            old(self).wf(),
        ensures
            (*final(self), r@) == old(self).moused(b),
            final(self).wf(),
    {
        if self.packet_len == 0 && b / 8 % 2 == 0 {
            return Vec::new();
        }
        let before: u8 = self.buttons;
        self.push_byte(b);
        if self.packet_len < self.packet_size {
            return Vec::new();
        }
        self.packet_len = 0;
        let p: (u8, u8, u8, u8) = self.packet;
        let now: u8 = p.0 % 8;
        let out: Vec<InputEvent> = packet_events(p, before, now, self.packet_size);
        self.buttons = now;
        out
    }
}

fn packet_events(p: (u8, u8, u8, u8), before: u8, now: u8, size: u8) -> (r: Vec<InputEvent>)
    ensures
        r@ == motion(p) + clicks(before, now) + turn(p, size),
{
    let mut out: Vec<InputEvent> = Vec::new();
    push_motion(&mut out, p);
    push_click(&mut out, before % 2 == 1, now % 2 == 1, 0);
    push_click(&mut out, before / 2 % 2 == 1, now / 2 % 2 == 1, 1);
    push_click(&mut out, before / 4 % 2 == 1, now / 4 % 2 == 1, 2);
    push_turn(&mut out, p, size);
    proof {
        assert(out@ =~= motion(p) + clicks(before, now) + turn(p, size));
    }
    out
}

fn push_motion(out: &mut Vec<InputEvent>, p: (u8, u8, u8, u8))
    ensures
        final(out)@ == old(out)@ + motion(p),
{
    let dx: i32 = p.1 as i32 - if p.0 / 16 % 2 == 1 { 256 } else { 0 };
    let dy: i32 = p.2 as i32 - if p.0 / 32 % 2 == 1 { 256 } else { 0 };
    if dx != 0 || dy != 0 {
        out.push(InputEvent::MouseMove { dx, dy: -dy });
    }
    proof {
        reveal(motion);
        assert(out@ =~= old(out)@ + motion(p));
    }
}

fn push_click(out: &mut Vec<InputEvent>, before: bool, now: bool, button: u8)
    ensures
        final(out)@ == old(out)@ + click(before, now, button),
{
    if before != now {
        out.push(InputEvent::MouseButton { button, pressed: now });
    }
    proof {
        reveal(click);
        assert(out@ =~= old(out)@ + click(before, now, button));
    }
}

fn push_turn(out: &mut Vec<InputEvent>, p: (u8, u8, u8, u8), size: u8)
    ensures
        final(out)@ == old(out)@ + turn(p, size),
{
    if size == 4 {
        let n: i32 = (p.3 % 16) as i32;
        let z: i32 = if n >= 8 { n - 16 } else { n };
        if z != 0 {
            out.push(InputEvent::Wheel(z));
        }
    }
    proof {
        reveal(turn);
        assert(out@ =~= old(out)@ + turn(p, size));
    }
}

/// The configuration of the controller with both interrupts and both
/// clocks on.
pub fn enabled_config(cfg: u8) -> (r: u8)
    ensures
        r == (cfg | 0x03) & !0x30u8,
{
    (cfg | 0x03) & !0x30u8
}

/// The sample rates that make a wheel mouse show itself.
pub fn wheel_rates() -> (r: [u8; 3])
    ensures
        r@ == seq![200u8, 100, 80],
{
    let r: [u8; 3] = [200, 100, 80];
    proof {
        assert(r@ =~= seq![200u8, 100, 80]);
    }
    r
}

/// The first byte of a mouse packet: which buttons are down, and the signs of
/// the movement.
pub open spec fn packet_head(buttons: u8, dx: int, dy: int) -> u8 {
    (8 + buttons + (if dx < 0 { 16int } else { 0 }) + (if dy < 0 { 32int } else { 0 })) as u8
}

/// A movement of the mouse comes out as it was made, with down for up: where
/// there is one, it is the first event of the packet.
pub proof fn lemma_mouse_moves(s: State, dx: int, dy: int, buttons: u8)
    requires
        s.wf(),
        s.packet_len == 0,
        s.packet_size == 3,
        -256 <= dx <= 255,
        -256 <= dy <= 255,
        buttons < 8,
    ensures
        ({
            let a = s.moused(packet_head(buttons, dx, dy));
            let b = a.0.moused((dx % 256) as u8);
            let c = b.0.moused((dy % 256) as u8);
            &&& a.1.len() == 0
            &&& b.1.len() == 0
            &&& dx != 0 || dy != 0 ==> c.1.len() > 0 && c.1[0] == (InputEvent::MouseMove {
                dx: dx as i32,
                dy: (-dy) as i32,
            })
            &&& dx == 0 && dy == 0 ==> c.1 == clicks(s.buttons, buttons)
            &&& c.0.buttons == buttons
            &&& c.0.packet_len == 0
        }),
{
    reveal(motion);
    reveal(turn);
    let h = packet_head(buttons, dx, dy);
    let a = s.moused(h);
    let b = a.0.moused((dx % 256) as u8);
    let c = b.0.moused((dy % 256) as u8);
    let p = b.0.with_byte((dy % 256) as u8).packet;
    assert(p.0 == h && p.1 == dx % 256 && p.2 == dy % 256);
    assert(deltas(p) == (dx, dy));
    assert(h % 8 == buttons);
    let m = motion(p);
    let k = clicks(s.buttons, buttons);
    assert(c.1 == m + k + Seq::<InputEvent>::empty());
    if dx == 0 && dy == 0 {
        assert(c.1 =~= k);
    } else {
        assert(c.1[0] == m[0]);
    }
}

/// A button that goes down or up is told once, with its number; one that
/// stays as it is is not.
pub proof fn lemma_buttons_told(before: u8, now: u8, button: u8)
    requires
        before < 8,
        now < 8,
        button < 3,
    ensures
        ({
            let bit: int = if button == 0 { 1 } else if button == 1 { 2 } else { 4 };
            let was = before as int / bit % 2 == 1;
            let is = now as int / bit % 2 == 1;
            let told = clicks(before, now);
            &&& was != is ==> told.contains(InputEvent::MouseButton { button, pressed: is })
            &&& was == is ==> !told.contains(InputEvent::MouseButton { button, pressed: true }) && !told.contains(
                InputEvent::MouseButton { button, pressed: false },
            )
        }),
{
    reveal(click);
    let a = click(before % 2 == 1, now % 2 == 1, 0);
    let b = click(before / 2 % 2 == 1, now / 2 % 2 == 1, 1);
    let c = click(before / 4 % 2 == 1, now / 4 % 2 == 1, 2);
    let told = clicks(before, now);
    assert(told == a + b + c);
    if button == 0 && a.len() == 1 {
        assert(told[0] == a[0]);
    }
    if button == 1 && b.len() == 1 {
        assert(told[a.len() as int] == b[0]);
    }
    if button == 2 && c.len() == 1 {
        assert(told[(a.len() + b.len()) as int] == c[0]);
    }
}

} // verus!
