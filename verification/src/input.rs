//! Input events from all devices, queued for the window manager.

use std::collections::VecDeque;
use vstd::prelude::*;

verus! {

#[derive(Clone, Copy, Debug, PartialEq, Eq, Structural)]
pub enum Key {
    Char(char),
    Enter,
    Backspace,
    Tab,
    Escape,
    Up,
    Down,
    Left,
    Right,
    Home,
    End,
    PageUp,
    PageDown,
    Delete,
    Insert,
    F(u8),
    Shift,
    Ctrl,
    Alt,
    Super,
    CapsLock,
    Unknown,
}

#[derive(Clone, Copy, Debug, PartialEq, Eq, Structural)]
pub struct KeyEvent {
    pub key: Key,
    pub pressed: bool,
    pub shift: bool,
    pub ctrl: bool,
    pub alt: bool,
}

impl KeyEvent {
    pub open spec fn spec_text(self) -> Option<char> {
        match self.key {
            Key::Char(c) => if !self.ctrl && !self.alt { Some(c) } else { None },
            _ => None,
        }
    }

    /// Printable character produced by this key press, if any.
    pub fn text(&self) -> (r: Option<char>)
        ensures
            r == self.spec_text(),
    {
        match self.key {
            Key::Char(c) => if !self.ctrl && !self.alt { Some(c) } else { None },
            _ => None,
        }
    }
}

#[derive(Clone, Copy, Debug, PartialEq, Eq, Structural)]
pub enum InputEvent {
    Key(KeyEvent),
    /// Relative motion (PS/2 mouse). Positive dy is down.
    MouseMove { dx: i32, dy: i32 },
    /// Absolute position scaled to 0..=65535 (tablet).
    MouseAbsolute { x: Option<u32>, y: Option<u32> },
    MouseButton { button: u8, pressed: bool },
    /// Positive scrolls down.
    Wheel(i32),
}

/// Events that may wait at one time; later ones are dropped.
pub const QUEUE_LIMIT: usize = 1024;

/// The events that no one has taken yet, oldest first.
pub struct InputQueue {
    events: VecDeque<InputEvent>,
}

impl View for InputQueue {
    type V = Seq<InputEvent>;

    closed spec fn view(&self) -> Seq<InputEvent> {
        self.events@
    }
}

impl InputQueue {
    pub fn new() -> (r: InputQueue)
        ensures
            r@ == Seq::<InputEvent>::empty(),
    {
        InputQueue { events: VecDeque::new() }
    }
}

/// The queue after one more event came in.
pub open spec fn queued(q: Seq<InputEvent>, e: InputEvent) -> Seq<InputEvent> {
    if q.len() < QUEUE_LIMIT {
        q.push(e)
    } else {
        q
    }
}

/// The queue after a series of events came in.
pub open spec fn queued_all(q: Seq<InputEvent>, es: Seq<InputEvent>) -> Seq<InputEvent>
    decreases es.len(),
{
    if es.len() == 0 {
        q
    } else {
        queued(queued_all(q, es.drop_last()), es.last())
    }
}

pub fn push(q: &mut InputQueue, e: InputEvent)
    ensures
        final(q)@ == queued(old(q)@, e),
{
    if q.events.len() < QUEUE_LIMIT {
        q.events.push_back(e);
    }
}

pub fn pop(q: &mut InputQueue) -> (r: Option<InputEvent>)
    ensures
        match r {
            Some(e) => old(q)@.len() > 0 && e == old(q)@[0] && final(q)@ == old(q)@.skip(1),
            None => old(q)@.len() == 0 && final(q)@ == old(q)@,
        },
{
    let r: Option<InputEvent> = q.events.pop_front();
    proof {
        if r is Some {
            assert(q.events@ =~= old(q)@.skip(1));
        }
    }
    r
}

/// The queue never holds more events than its limit, however many come in.
pub proof fn lemma_queue_bounded(q: Seq<InputEvent>, es: Seq<InputEvent>)
    requires
        q.len() <= QUEUE_LIMIT,
    ensures
        queued_all(q, es).len() <= QUEUE_LIMIT,
    decreases es.len(),
{
    if es.len() > 0 {
        lemma_queue_bounded(q, es.drop_last());
    }
}

/// However many events come in, the queue keeps those that came first, in
/// the order in which they came, up to its limit.
pub proof fn lemma_queue_keeps_first(q: Seq<InputEvent>, es: Seq<InputEvent>)
    requires
        q.len() <= QUEUE_LIMIT,
    ensures
        queued_all(q, es) == (q + es).take(crate::arith::min(QUEUE_LIMIT as int, (q.len() + es.len()) as int)),
    decreases es.len(),
{
    let all = q + es;
    let n = crate::arith::min(QUEUE_LIMIT as int, all.len() as int);
    if es.len() > 0 {
        lemma_queue_keeps_first(q, es.drop_last());
        assert(q + es.drop_last() =~= all.drop_last());
        assert(queued_all(q, es) =~= all.take(n));
    } else {
        assert(q =~= all.take(n));
    }
}

/// Events come out in the order in which they went in: while there is
/// room, the queue is what it held before followed by what was pushed.
pub proof fn lemma_queue_fifo(q: Seq<InputEvent>, es: Seq<InputEvent>)
    requires
        q.len() + es.len() <= QUEUE_LIMIT,
    ensures
        queued_all(q, es) == q + es,
{
    lemma_queue_keeps_first(q, es);
    assert((q + es).take((q.len() + es.len()) as int) =~= q + es);
}

} // verus!
