//! Central interrupt dispatcher.

use crate::arch::idt::{
    TrapFrame, VEC_KEYBOARD, VEC_MOUSE, VEC_SPURIOUS, VEC_SYSCALL, VEC_TIMER, VEC_YIELD,
};
use crate::text::{dec, hex, pad_left, push_dec, push_hex, push_hex_zeros, push_str, to_chars, to_text};
use vstd::prelude::*;

verus! {

/// What an interrupt asks for.
#[derive(Clone, Copy, Debug, PartialEq, Eq, Structural)]
pub enum Dispatch {
    Exception(u8),
    /// Acknowledge it, then let another thread run.
    Timer,
    /// Read the keyboard, then acknowledge.
    Keyboard,
    /// Read the mouse, then acknowledge.
    Mouse,
    /// Run a system call with interrupts enabled.
    Syscall,
    /// Let another thread run.
    Yield,
    /// Go on.
    Resume,
    /// Acknowledge it and go on.
    Acknowledge,
}

pub open spec fn dispatch_of(vector: int) -> Dispatch {
    if vector <= 31 {
        Dispatch::Exception(vector as u8)
    } else if vector == VEC_TIMER {
        Dispatch::Timer
    } else if vector == VEC_KEYBOARD {
        Dispatch::Keyboard
    } else if vector == VEC_MOUSE {
        Dispatch::Mouse
    } else if vector == VEC_SYSCALL {
        Dispatch::Syscall
    } else if vector == VEC_YIELD {
        Dispatch::Yield
    } else if vector == VEC_SPURIOUS {
        Dispatch::Resume
    } else {
        Dispatch::Acknowledge
    }
}

/// What an interrupt asks for; only the low byte of the vector counts.
pub fn interrupt_dispatch(frame: &TrapFrame) -> (r: Dispatch)
    ensures
        r == dispatch_of(frame.vector as int % 256),
{
    let v: u8 = (frame.vector % 256) as u8;
    if v <= 31 {
        Dispatch::Exception(v)
    } else if v == VEC_TIMER {
        Dispatch::Timer
    } else if v == VEC_KEYBOARD {
        Dispatch::Keyboard
    } else if v == VEC_MOUSE {
        Dispatch::Mouse
    } else if v == VEC_SYSCALL {
        Dispatch::Syscall
    } else if v == VEC_YIELD {
        Dispatch::Yield
    } else if v == VEC_SPURIOUS {
        Dispatch::Resume
    } else {
        Dispatch::Acknowledge
    }
}

/// What becomes of an exception.
#[derive(Clone, Copy, Debug, PartialEq, Eq, Structural)]
pub enum Outcome {
    /// Memory was handed out on first use: go on.
    Resume,
    /// The process ends.
    Crash,
    /// The kernel is at fault.
    Panic,
}

/// The number of the exception for an access to a missing page.
pub const PAGE_FAULT: u8 = 14;

/// What becomes of an exception; `mapped` says whether the page that was
/// missing could be handed out.
pub fn exception(frame: &TrapFrame, mapped: bool) -> (r: Outcome)
    ensures
        r == if !frame.in_user() {
            Outcome::Panic
        } else if frame.vector == PAGE_FAULT && mapped {
            Outcome::Resume
        } else {
            Outcome::Crash
        },
{
    if !frame.from_user() {
        Outcome::Panic
    } else if frame.vector == PAGE_FAULT as u64 && mapped {
        Outcome::Resume
    } else {
        Outcome::Crash
    }
}

pub open spec fn exception_title(v: int) -> Seq<char> {
    if v == 0 {
        "Divide error"@
    } else if v == 1 {
        "Debug"@
    } else if v == 2 {
        "NMI"@
    } else if v == 3 {
        "Breakpoint"@
    } else if v == 4 {
        "Overflow"@
    } else if v == 5 {
        "Bound range exceeded"@
    } else if v == 6 {
        "Invalid opcode"@
    } else if v == 7 {
        "Device not available"@
    } else if v == 8 {
        "Double fault"@
    } else if v == 9 {
        "Coprocessor segment overrun"@
    } else if v == 10 {
        "Invalid TSS"@
    } else if v == 11 {
        "Segment not present"@
    } else if v == 12 {
        "Stack-segment fault"@
    } else if v == 13 {
        "General protection fault"@
    } else if v == 14 {
        "Page fault"@
    } else if v == 16 {
        "x87 floating-point error"@
    } else if v == 17 {
        "Alignment check"@
    } else if v == 18 {
        "Machine check"@
    } else if v == 19 {
        "SIMD floating-point error"@
    } else if v == 20 {
        "Virtualization exception"@
    } else if v == 21 {
        "Control protection exception"@
    } else if v == 28 {
        "Hypervisor injection"@
    } else if v == 29 {
        "VMM communication"@
    } else if v == 30 {
        "Security exception"@
    } else {
        "Reserved"@
    }
}

pub fn exception_name(v: u8) -> (r: &'static str)
    ensures
        r@ == exception_title(v as int),
{
    if v == 0 {
        "Divide error"
    } else if v == 1 {
        "Debug"
    } else if v == 2 {
        "NMI"
    } else if v == 3 {
        "Breakpoint"
    } else if v == 4 {
        "Overflow"
    } else if v == 5 {
        "Bound range exceeded"
    } else if v == 6 {
        "Invalid opcode"
    } else if v == 7 {
        "Device not available"
    } else if v == 8 {
        "Double fault"
    } else if v == 9 {
        "Coprocessor segment overrun"
    } else if v == 10 {
        "Invalid TSS"
    } else if v == 11 {
        "Segment not present"
    } else if v == 12 {
        "Stack-segment fault"
    } else if v == 13 {
        "General protection fault"
    } else if v == 14 {
        "Page fault"
    } else if v == 16 {
        "x87 floating-point error"
    } else if v == 17 {
        "Alignment check"
    } else if v == 18 {
        "Machine check"
    } else if v == 19 {
        "SIMD floating-point error"
    } else if v == 20 {
        "Virtualization exception"
    } else if v == 21 {
        "Control protection exception"
    } else if v == 28 {
        "Hypervisor injection"
    } else if v == 29 {
        "VMM communication"
    } else if v == 30 {
        "Security exception"
    } else {
        "Reserved"
    }
}

/// What is said of a process that crashed.
pub open spec fn crash_text(frame: TrapFrame, address: u64) -> Seq<char> {
    "\n[process crashed] "@ + exception_title(frame.vector as int) + " at rip=0x"@ + hex(frame.rip as nat)
        + " addr=0x"@ + hex((if frame.vector == PAGE_FAULT { address } else { 0 }) as nat) + " err=0x"@ + hex(
        frame.error as nat,
    ) + "\n"@
}

/// What is said of a process that crashed; `address` is the one that a
/// page fault was about.
pub fn crash_message(frame: &TrapFrame, address: u64) -> (r: String)
    requires
        frame.vector < 32,
    ensures
        r@ == crash_text(*frame, address),
{
    let mut s: Vec<char> = to_chars("\n[process crashed] ");
    push_str(&mut s, exception_name(frame.vector as u8));
    push_str(&mut s, " at rip=0x");
    push_hex(&mut s, frame.rip);
    push_str(&mut s, " addr=0x");
    push_hex(&mut s, if frame.vector == PAGE_FAULT as u64 { address } else { 0 });
    push_str(&mut s, " err=0x");
    push_hex(&mut s, frame.error);
    push_str(&mut s, "\n");
    to_text(&s)
}

pub open spec fn word(v: u64) -> Seq<char> {
    "0x"@ + pad_left(hex(v as nat), 16, '0')
}

/// What is said when the kernel is at fault.
pub open spec fn panic_text(f: TrapFrame, cr2: u64) -> Seq<char> {
    exception_title(f.vector as int) + " (vector "@ + dec(f.vector as nat) + ") in kernel\n rip="@ + word(f.rip)
        + " err=0x"@ + hex(f.error as nat) + " cr2="@ + word(cr2) + "\n rsp="@ + word(f.rsp) + " rbp="@ + word(f.rbp)
        + " rax="@ + word(f.rax) + "\n rbx="@ + word(f.rbx) + " rcx="@ + word(f.rcx) + " rdx="@ + word(f.rdx)
}

fn push_word(s: &mut Vec<char>, v: u64)
    ensures
        final(s)@ == old(s)@ + word(v),
{
    push_str(s, "0x");
    push_hex_zeros(s, v, 16);
    proof {
        assert(s@ =~= old(s)@ + word(v));
    }
}

pub fn panic_message(f: &TrapFrame, cr2: u64) -> (r: String)
    requires
        f.vector < 32,
    ensures
        r@ == panic_text(*f, cr2),
{
    let mut s: Vec<char> = to_chars(exception_name(f.vector as u8));
    push_str(&mut s, " (vector ");
    push_dec(&mut s, f.vector);
    push_str(&mut s, ") in kernel\n rip=");
    push_word(&mut s, f.rip);
    push_str(&mut s, " err=0x");
    push_hex(&mut s, f.error);
    push_str(&mut s, " cr2=");
    push_word(&mut s, cr2);
    push_str(&mut s, "\n rsp=");
    push_word(&mut s, f.rsp);
    push_str(&mut s, " rbp=");
    push_word(&mut s, f.rbp);
    push_str(&mut s, " rax=");
    push_word(&mut s, f.rax);
    push_str(&mut s, "\n rbx=");
    push_word(&mut s, f.rbx);
    push_str(&mut s, " rcx=");
    push_word(&mut s, f.rcx);
    push_str(&mut s, " rdx=");
    push_word(&mut s, f.rdx);
    to_text(&s)
}

} // verus!
