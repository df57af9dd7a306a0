//! Per-CPU data.

use super::gdt::{gdt_for, table, DOUBLE_FAULT_STACK, TSS_SIZE};
use crate::arith::clamp;
use vstd::prelude::*;

verus! {

pub const MAX_CPUS: usize = 32;

/// Task state segment.
#[derive(Clone, Copy)]
pub struct Tss {
    /// Stacks for interrupts from less privileged code.
    pub rsp: [u64; 3],
    /// Stacks for chosen interrupts.
    pub ist: [u64; 7],
    pub iomap_base: u16,
}

#[derive(Clone, Copy)]
pub struct PerCpu {
    /// This structure's own address.
    pub self_ptr: u64,
    /// Kernel stack for system calls.
    pub kernel_rsp: u64,
    /// User stack pointer saved by a system call.
    pub user_rsp: u64,
    /// CPU number, 0 = the boot CPU.
    pub index: u64,
    /// `on_cpu` flag of the thread switched away from, cleared once we are
    /// off its stack.
    pub prev_on_cpu: u64,
    pub lapic_id: u32,
    pub gdt: [u64; 7],
    pub tss: Tss,
}

fn zeros7() -> (r: [u64; 7])
    ensures
        r@ == seq![0u64, 0, 0, 0, 0, 0, 0],
{
    let r: [u64; 7] = [0, 0, 0, 0, 0, 0, 0];
    proof {
        assert(r@ =~= seq![0u64, 0, 0, 0, 0, 0, 0]);
    }
    r
}

/// A per-CPU area for CPU `index`, at an address.
pub fn install(index: usize, lapic_id: u32, address: u64) -> (r: PerCpu)
    requires
        index < MAX_CPUS,
    ensures
        r.self_ptr == address,
        r.index == index,
        r.lapic_id == lapic_id,
        r.kernel_rsp == 0,
        r.user_rsp == 0,
        r.prev_on_cpu == 0,
        r.gdt@ == seq![0u64, 0, 0, 0, 0, 0, 0],
        r.tss.rsp@ == seq![0u64, 0, 0],
        r.tss.ist@ == seq![0u64, 0, 0, 0, 0, 0, 0],
        r.tss.iomap_base == TSS_SIZE,
{
    let rsp: [u64; 3] = [0, 0, 0];
    proof {
        assert(rsp@ =~= seq![0u64, 0, 0]);
    }
    PerCpu {
        self_ptr: address,
        kernel_rsp: 0,
        user_rsp: 0,
        index: index as u64,
        prev_on_cpu: 0,
        lapic_id,
        gdt: zeros7(),
        tss: Tss { rsp, ist: zeros7(), iomap_base: TSS_SIZE as u16 },
    }
}

impl PerCpu {
    /// Fill in the descriptor table and the stack for double faults, which
    /// begins at `stack` and grows down from its end. `tss` is the address
    /// of the task state segment.
    pub fn init_cpu(&mut self, stack: u64, tss: u64)
        requires
            stack + DOUBLE_FAULT_STACK <= u64::MAX,
        ensures
            final(self).gdt@ == table(tss),
            final(self).tss.ist@ == old(self).tss.ist@.update(0, (stack + DOUBLE_FAULT_STACK) as u64),
            final(self).tss.rsp == old(self).tss.rsp,
            final(self).tss.iomap_base == old(self).tss.iomap_base,
            final(self).self_ptr == old(self).self_ptr,
            final(self).index == old(self).index,
            final(self).lapic_id == old(self).lapic_id,
            final(self).kernel_rsp == old(self).kernel_rsp,
            final(self).user_rsp == old(self).user_rsp,
            final(self).prev_on_cpu == old(self).prev_on_cpu,
    {
        self.gdt = gdt_for(tss);
        self.tss.ist[0] = stack + DOUBLE_FAULT_STACK;
    }

    /// Stack used when an interrupt arrives while running in user mode.
    pub fn set_kernel_stack(&mut self, top: u64)
        ensures
            final(self).tss.rsp@ == old(self).tss.rsp@.update(0, top),
            *final(self) == (PerCpu {
                tss: Tss { rsp: final(self).tss.rsp, ..old(self).tss },
                ..*old(self)
            }),
    {
        self.tss.rsp[0] = top;
    }
}

/// How many CPUs are running (or being started).
#[derive(Clone, Copy)]
pub struct CpuCount {
    pub n: usize,
}

impl CpuCount {
    pub fn new() -> (r: CpuCount)
        ensures
            r.n == 1,
    {
        CpuCount { n: 1 }
    }

    pub fn set_count(&mut self, n: usize)
        ensures
            final(self).n == clamp(n as int, 1, MAX_CPUS as int),
            1 <= final(self).n <= MAX_CPUS,
    {
        self.n = if n < 1 { 1 } else if n > MAX_CPUS { MAX_CPUS } else { n };
    }

    pub fn count(&self) -> (r: usize)
        ensures
            r == self.n,
    {
        self.n
    }
}

} // verus!
