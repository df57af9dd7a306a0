//! Global Descriptor Table and Task State Segment, one of each per CPU.
//!
//! The segment order matters for `syscall`/`sysret`:
//! 0x08 kernel code, 0x10 kernel data, 0x18 user data, 0x20 user code.

use vstd::prelude::*;

verus! {

pub const KERNEL_CS: u16 = 0x08;
pub const KERNEL_DS: u16 = 0x10;
pub const USER_DS: u16 = 0x1b;
pub const USER_CS: u16 = 0x23;
pub const TSS_SEL: u16 = 0x28;

/// Size of a task state segment, in bytes.
pub const TSS_SIZE: u64 = 104;

/// Size of the stack for double faults.
pub const DOUBLE_FAULT_STACK: u64 = 16384;

/// The lower half of the descriptor of a task state segment.
pub open spec fn tss_low(base: u64, limit: u64) -> u64 {
    (limit & 0xffff) | ((base & 0xff_ffff) << 16) | (0x89u64 << 40) | (((limit >> 16) & 0xf) << 48) | (((base >> 24)
        & 0xff) << 56)
}

pub open spec fn tss_high(base: u64) -> u64 {
    base >> 32
}

/// The address that a descriptor of a task state segment holds.
pub open spec fn descriptor_base(low: u64, high: u64) -> u64 {
    ((low >> 16) & 0xff_ffff) | (((low >> 56) & 0xff) << 24) | (high << 32)
}

/// The limit that a descriptor holds.
pub open spec fn descriptor_limit(low: u64) -> u64 {
    (low & 0xffff) | (((low >> 48) & 0xf) << 16)
}

/// The descriptor says where the segment is and how long it is.
pub proof fn lemma_descriptor(base: u64, limit: u64)
    requires
        limit < 0x10_0000,
    ensures
        descriptor_base(tss_low(base, limit), tss_high(base)) == base,
        descriptor_limit(tss_low(base, limit)) == limit,
        (tss_low(base, limit) >> 40) & 0xff == 0x89,
{
    let low = tss_low(base, limit);
    let high = tss_high(base);
    assert((((low >> 16) & 0xff_ffff) | (((low >> 56) & 0xff) << 24) | (high << 32)) == base) by (bit_vector)
        requires
            limit < 0x10_0000,
            low == (limit & 0xffff) | ((base & 0xff_ffff) << 16) | (0x89u64 << 40) | (((limit >> 16) & 0xf) << 48)
                | (((base >> 24) & 0xff) << 56),
            high == base >> 32,
    ;
    assert(((low & 0xffff) | (((low >> 48) & 0xf) << 16)) == limit && (low >> 40) & 0xff == 0x89) by (bit_vector)
        requires
            limit < 0x10_0000,
            low == (limit & 0xffff) | ((base & 0xff_ffff) << 16) | (0x89u64 << 40) | (((limit >> 16) & 0xf) << 48)
                | (((base >> 24) & 0xff) << 56),
    ;
}

/// The table of a CPU whose task state segment is at `tss`.
pub open spec fn table(tss: u64) -> Seq<u64> {
    seq![
        0u64,
        0x00af_9a00_0000_ffff,
        0x00cf_9200_0000_ffff,
        0x00cf_f200_0000_ffff,
        0x00af_fa00_0000_ffff,
        tss_low(tss, (TSS_SIZE - 1) as u64),
        tss_high(tss),
    ]
}

/// The table of a CPU whose task state segment is at `tss`.
pub fn gdt_for(tss: u64) -> (r: [u64; 7])
    ensures
        r@ == table(tss),
{
    let limit: u64 = TSS_SIZE - 1;
    let low: u64 = (limit & 0xffff) | ((tss & 0xff_ffff) << 16) | (0x89u64 << 40) | (((limit >> 16) & 0xf) << 48) | (((
    tss >> 24) & 0xff) << 56);
    let r: [u64; 7] = [
        0,
        0x00af_9a00_0000_ffff,
        0x00cf_9200_0000_ffff,
        0x00cf_f200_0000_ffff,
        0x00af_fa00_0000_ffff,
        low,
        tss >> 32,
    ];
    proof {
        assert(r@ =~= table(tss));
    }
    r
}

} // verus!
