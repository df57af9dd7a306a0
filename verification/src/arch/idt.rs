//! Interrupt Descriptor Table.
//!
//! Every vector enters through a 16-byte stub that pushes a uniform
//! `TrapFrame` and calls the dispatcher. System calls build the same frame,
//! so system calls, interrupts, exceptions and voluntary yields all share
//! one save/restore path.

use super::gdt::KERNEL_CS;
use vstd::prelude::*;

verus! {

pub const VEC_TIMER: u8 = 0x20;
pub const VEC_KEYBOARD: u8 = 0x21;
pub const VEC_MOUSE: u8 = 0x2c;
pub const VEC_SYSCALL: u8 = 0x80;
pub const VEC_YIELD: u8 = 0x81;
pub const VEC_SPURIOUS: u8 = 0xff;

#[derive(Clone, Copy, Debug, PartialEq, Eq, Structural)]
pub struct TrapFrame {
    pub r15: u64,
    pub r14: u64,
    pub r13: u64,
    pub r12: u64,
    pub r11: u64,
    pub r10: u64,
    pub r9: u64,
    pub r8: u64,
    pub rbp: u64,
    pub rdi: u64,
    pub rsi: u64,
    pub rdx: u64,
    pub rcx: u64,
    pub rbx: u64,
    pub rax: u64,
    pub vector: u64,
    pub error: u64,
    pub rip: u64,
    pub cs: u64,
    pub rflags: u64,
    pub rsp: u64,
    pub ss: u64,
}

impl TrapFrame {
    /// Whether the interrupted code ran in user mode: at privilege level 3.
    pub open spec fn in_user(self) -> bool {
        self.cs % 4 == 3
    }

    pub fn from_user(&self) -> (r: bool)
        ensures
            r == self.in_user(),
    {
        self.cs % 4 == 3
    }
}

/// An entry of the table.
#[derive(Clone, Copy, Debug, PartialEq, Eq, Structural)]
pub struct Gate {
    pub off_lo: u16,
    pub sel: u16,
    pub ist: u8,
    pub attr: u8,
    pub off_mid: u16,
    pub off_hi: u32,
}

impl Gate {
    /// The address that the entry leads to.
    pub open spec fn target(self) -> int {
        self.off_lo + 0x1_0000 * self.off_mid + 0x1_0000_0000 * self.off_hi
    }
}

/// The entry of a vector whose stubs begin at `base`. Double faults get a
/// stack of their own.
pub fn gate(base: u64, vector: u8) -> (r: Gate)
    requires
        base + 255 * 16 <= u64::MAX,
    ensures
        r.target() == base + vector * 16,
        r.sel == KERNEL_CS,
        r.ist == if vector == 8 { 1u8 } else { 0u8 },
        r.attr == 0x8e,
{
    let h: u64 = base + vector as u64 * 16;
    Gate {
        off_lo: (h % 0x1_0000) as u16,
        sel: KERNEL_CS,
        ist: if vector == 8 { 1 } else { 0 },
        attr: 0x8e,
        off_mid: (h / 0x1_0000 % 0x1_0000) as u16,
        off_hi: (h / 0x1_0000_0000) as u32,
    }
}

/// The whole table.
pub fn gates(base: u64) -> (r: Vec<Gate>)
    requires
        base + 255 * 16 <= u64::MAX,
    ensures
        r@.len() == 256,
        forall|v: int| 0 <= v < 256 ==> (#[trigger] r@[v]).target() == base + v * 16 && r@[v].sel == KERNEL_CS && r@[v].ist
            == (if v == 8 { 1u8 } else { 0u8 }) && r@[v].attr == 0x8e,
{
    let mut t: Vec<Gate> = Vec::new();
    let mut v: usize = 0;
    while v < 256
        invariant
            v <= 256,
            t@.len() == v,
            base + 255 * 16 <= u64::MAX,
            forall|k: int| 0 <= k < v ==> (#[trigger] t@[k]).target() == base + k * 16 && t@[k].sel == KERNEL_CS && t@[k].ist
                == (if k == 8 { 1u8 } else { 0u8 }) && t@[k].attr == 0x8e,
        decreases 256 - v,
    {
        t.push(gate(base, v as u8));
        v += 1;
    }
    t
}

/// The value of the register that enables `syscall` and no-execute pages,
/// given its old value.
pub fn efer_with_syscall(efer: u64) -> (r: u64)
    ensures
        r == efer | 1 | (1u64 << 11),
        r & 1 == 1,
        r & 0x800 == 0x800,
        efer & 1 == 1 && efer & 0x800 == 0x800 ==> r == efer,
{
    let r: u64 = efer | 1 | (1u64 << 11);
    proof {
        assert(r & 1 == 1 && r & 0x800 == 0x800 && (efer & 1 == 1 && efer & 0x800 == 0x800 ==> r == efer)) by (bit_vector)
            requires
                r == efer | 1 | (1u64 << 11),
        ;
    }
    r
}

/// The value of the register that enables no-execute pages.
pub fn efer_with_nx(efer: u64) -> (r: u64)
    ensures
        r == efer | (1u64 << 11),
{
    efer | (1u64 << 11)
}

/// The segments that `syscall` and `sysret` load.
pub fn star() -> (r: u64)
    ensures
        r == 0x10 * 0x1_0000_0000_0000 + KERNEL_CS * 0x1_0000_0000,
{
    0x10 * 0x1_0000_0000_0000 + KERNEL_CS as u64 * 0x1_0000_0000
}

/// The flags that `syscall` clears: interrupts, single steps, direction
/// and alignment checks.
pub const SYSCALL_MASK: u64 = 0x40700;

} // verus!
