//! Local APIC, I/O APIC, legacy PIC shutdown and PIT-based calibration.

use crate::acpi::{AcpiInfo, IrqOverride};
use crate::arch::idt::{VEC_SPURIOUS, VEC_TIMER};
use crate::arith::max;
use vstd::prelude::*;

verus! {

pub const LAPIC_ID: usize = 0x20;
pub const LAPIC_TPR: usize = 0x80;
pub const LAPIC_EOI: usize = 0xb0;
pub const LAPIC_SVR: usize = 0xf0;
pub const LAPIC_LVT_TIMER: usize = 0x320;
pub const LAPIC_TIMER_INIT: usize = 0x380;
pub const LAPIC_TIMER_CUR: usize = 0x390;
pub const LAPIC_TIMER_DIV: usize = 0x3e0;

/// A byte written to a port.
#[derive(Clone, Copy, Debug, PartialEq, Eq, Structural)]
pub struct PortByte {
    pub port: u16,
    pub value: u8,
}

/// What remaps the 8259 PICs away from the exception vectors and masks
/// them: initialise both, at 0xf0 and 0xf8, chained, in 8086 mode, all
/// lines off.
pub open spec fn pic_off() -> Seq<PortByte> {
    seq![
        PortByte { port: 0x20, value: 0x11 },
        PortByte { port: 0xa0, value: 0x11 },
        PortByte { port: 0x21, value: 0xf0 },
        PortByte { port: 0xa1, value: 0xf8 },
        PortByte { port: 0x21, value: 0x04 },
        PortByte { port: 0xa1, value: 0x02 },
        PortByte { port: 0x21, value: 0x01 },
        PortByte { port: 0xa1, value: 0x01 },
        PortByte { port: 0x21, value: 0xff },
        PortByte { port: 0xa1, value: 0xff },
    ]
}

pub fn disable_pic() -> (r: Vec<PortByte>)
    ensures
        r@ == pic_off(),
{
    let mut v: Vec<PortByte> = Vec::new();
    v.push(PortByte { port: 0x20, value: 0x11 });
    v.push(PortByte { port: 0xa0, value: 0x11 });
    v.push(PortByte { port: 0x21, value: 0xf0 });
    v.push(PortByte { port: 0xa1, value: 0xf8 });
    v.push(PortByte { port: 0x21, value: 0x04 });
    v.push(PortByte { port: 0xa1, value: 0x02 });
    v.push(PortByte { port: 0x21, value: 0x01 });
    v.push(PortByte { port: 0xa1, value: 0x01 });
    v.push(PortByte { port: 0x21, value: 0xff });
    v.push(PortByte { port: 0xa1, value: 0xff });
    proof {
        assert(v@ =~= pic_off());
    }
    v
}

/// The PIT ticks in `ms` milliseconds (up to about 50).
pub fn pit_count(ms: u32) -> (r: u16)
    requires
        ms <= 54,
    ensures
        r == 1_193_182 * ms as int / 1000,
{
    (1_193_182u32 * ms / 1000) as u16
}

/// The value of the register that switches the local APIC on.
pub fn spurious_vector() -> (r: u32)
    ensures
        r == 0x100 + VEC_SPURIOUS,
{
    0x100 + VEC_SPURIOUS as u32
}

/// The number of a local APIC in its register.
pub fn lapic_id(reg: u32) -> (r: u32)
    ensures
        r == reg / 0x100_0000,
{
    reg / 0x100_0000
}

/// The first override of a legacy interrupt.
pub open spec fn override_of(v: Seq<IrqOverride>, irq: u8) -> Option<IrqOverride>
    decreases v.len(),
{
    if v.len() == 0 {
        None
    } else if v[0].irq == irq {
        Some(v[0])
    } else {
        override_of(v.skip(1), irq)
    }
}

/// The interrupt line and the flags of a legacy interrupt.
pub open spec fn line_of(v: Seq<IrqOverride>, irq: u8) -> (u32, u16) {
    match override_of(v, irq) {
        Some(o) => (o.gsi, o.flags),
        None => (irq as u32, 0u16),
    }
}

/// The lower word of an entry of the I/O APIC: the vector, whether the
/// line is active low, and whether it is level triggered.
pub open spec fn entry_low(vector: u8, flags: u16) -> int {
    vector + (if flags % 4 == 3 { 0x2000int } else { 0 }) + (if flags / 4 % 4 == 3 { 0x8000int } else { 0 })
}

/// What the I/O APIC is told: two registers and their values.
#[derive(Clone, Copy, Debug, PartialEq, Eq, Structural)]
pub struct Route {
    pub high_reg: u32,
    pub high: u32,
    pub low_reg: u32,
    pub low: u32,
}

fn find_override(acpi: &AcpiInfo, irq: u8) -> (r: Option<IrqOverride>)
    ensures
        r == override_of(acpi.overrides@, irq),
{
    let mut i: usize = 0;
    proof {
        assert(acpi.overrides@.skip(0) =~= acpi.overrides@);
    }
    while i < acpi.overrides.len()
        invariant
            i <= acpi.overrides@.len(),
            override_of(acpi.overrides@, irq) == override_of(acpi.overrides@.skip(i as int), irq),
        decreases acpi.overrides@.len() - i,
    {
        let o: IrqOverride = acpi.overrides[i];
        if o.irq == irq {
            return Some(o);
        }
        proof {
            assert(acpi.overrides@.skip(i as int).skip(1) =~= acpi.overrides@.skip(i + 1));
        }
        i += 1;
    }
    None
}

/// Route a legacy interrupt to `vector` on the CPU with this local APIC,
/// honouring ACPI overrides. `gsi_base` is the first line of the I/O APIC.
pub fn route_irq(acpi: &AcpiInfo, irq: u8, vector: u8, gsi_base: u32, lapic: u32) -> (r: Route)
    requires
        gsi_base <= line_of(acpi.overrides@, irq).0,
        0x10 + (line_of(acpi.overrides@, irq).0 - gsi_base) * 2 + 1 <= u32::MAX,
        lapic < 256,
    ensures
        ({
            let (gsi, flags) = line_of(acpi.overrides@, irq);
            let reg = 0x10 + (gsi - gsi_base) * 2;
            &&& r.low_reg == reg
            &&& r.high_reg == reg + 1
            &&& r.high == lapic * 0x100_0000
            &&& r.low == entry_low(vector, flags)
        }),
{
    let (gsi, flags) = match find_override(acpi, irq) {
        Some(o) => (o.gsi, o.flags),
        None => (irq as u32, 0u16),
    };
    let mut low: u32 = vector as u32;
    if flags % 4 == 3 {
        low += 0x2000;
    }
    if flags / 4 % 4 == 3 {
        low += 0x8000;
    }
    let idx: u32 = gsi - gsi_base;
    Route { high_reg: 0x10 + idx * 2 + 1, high: lapic * 0x100_0000, low_reg: 0x10 + idx * 2, low }
}

/// What comes of measuring 20 ms: the timer's start value for `hz` ticks a
/// second, and the processor's cycles in a millisecond.
pub fn calibrate(timer_left: u32, tsc_before: u64, tsc_after: u64, hz: u32) -> (r: (u64, u64))
    requires
        hz > 0,
        tsc_before <= tsc_after,
    ensures
        r.0 == max((u32::MAX - timer_left) / 20, 1) * 1000 / (hz as int),
        r.1 == max((tsc_after - tsc_before) / 20, 1),
{
    let elapsed: u32 = u32::MAX - timer_left;
    let q: u32 = elapsed / 20;
    let per_ms: u64 = if q > 1 { q as u64 } else { 1 };
    let t: u64 = (tsc_after - tsc_before) / 20;
    (per_ms * 1000 / hz as u64, if t > 1 { t } else { 1 })
}

/// The register that makes the timer tick, periodically.
pub fn timer_entry() -> (r: u32)
    ensures
        r == VEC_TIMER + 0x2_0000,
{
    VEC_TIMER as u32 + 0x2_0000
}

/// The first override of an interrupt decides its line; an interrupt that
/// none overrides is on the line of its own number, as it is by default.
pub proof fn lemma_first_override(v: Seq<IrqOverride>, irq: u8, k: int)
    requires
        0 <= k <= v.len(),
        forall|i: int| 0 <= i < k ==> (#[trigger] v[i]).irq != irq,
    ensures
        k == v.len() ==> line_of(v, irq).0 == irq && line_of(v, irq).1 == 0,
        k < v.len() && v[k].irq == irq ==> line_of(v, irq).0 == v[k].gsi && line_of(v, irq).1 == v[k].flags,
    decreases k,
{
    if k > 0 {
        let w = v.skip(1);
        assert(v[0].irq != irq);
        assert forall|i: int| 0 <= i < k - 1 implies (#[trigger] w[i]).irq != irq by {
            assert(v[i + 1].irq != irq);
        }
        lemma_first_override(w, irq, k - 1);
        if k < v.len() {
            assert(w[k - 1] == v[k]);
        }
    }
}

/// What an entry tells can be read off it again: the vector, whether the
/// line is active low, and whether it is level triggered. Nothing else is
/// set: the line is on, and its interrupt goes to the one processor named.
pub proof fn lemma_entry_read(vector: u8, polarity: u16, trigger: u16)
    requires
        polarity < 4,
        trigger < 4,
    ensures
        entry_low(vector, (polarity + 4 * trigger) as u16) % 0x100 == vector,
        entry_low(vector, (polarity + 4 * trigger) as u16) / 0x100 % 0x20 == 0,
        entry_low(vector, (polarity + 4 * trigger) as u16) / 0x2000 % 2 == 1 <==> polarity == 3,
        entry_low(vector, (polarity + 4 * trigger) as u16) / 0x4000 % 2 == 0,
        entry_low(vector, (polarity + 4 * trigger) as u16) / 0x8000 == 1 <==> trigger == 3,
        entry_low(vector, (polarity + 4 * trigger) as u16) < 0x1_0000,
{
}

} // verus!
