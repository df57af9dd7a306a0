//! Minimal ACPI table parsing: MADT (interrupt controllers) and FADT
//! (power management, for shutdown).

use crate::bytes::{get_le16, get_le32, get_le64, le16, le16_bytes, le32, le32_bytes, le64, lemma_le16_back, lemma_le32_back};
use vstd::prelude::*;

verus! {

/// Length of the header that every table begins with.
pub const HEADER: usize = 36;

#[derive(Clone, Copy, PartialEq, Eq, Debug, Structural)]
pub struct IoApic {
    pub phys: u64,
    pub gsi_base: u32,
}

#[derive(Clone, Copy, PartialEq, Eq, Debug, Structural)]
pub struct IrqOverride {
    pub irq: u8,
    pub gsi: u32,
    pub flags: u16,
}

pub struct AcpiInfo {
    pub lapic_phys: u64,
    pub ioapics: Vec<IoApic>,
    pub overrides: Vec<IrqOverride>,
    pub cpu_count: usize,
    pub pm1a_cnt: Option<u16>,
    pub slp_typ_s5: Option<u16>,
}

#[verifier::ext_equal]
pub struct InfoState {
    pub lapic_phys: u64,
    pub ioapics: Seq<IoApic>,
    pub overrides: Seq<IrqOverride>,
    pub cpu_count: int,
    pub pm1a_cnt: Option<u16>,
    pub slp_typ_s5: Option<u16>,
}

impl View for AcpiInfo {
    type V = InfoState;

    open spec fn view(&self) -> InfoState {
        InfoState {
            lapic_phys: self.lapic_phys,
            ioapics: self.ioapics@,
            overrides: self.overrides@,
            cpu_count: self.cpu_count as int,
            pm1a_cnt: self.pm1a_cnt,
            slp_typ_s5: self.slp_typ_s5,
        }
    }
}

/// What a table is about.
#[derive(Clone, Copy, PartialEq, Eq, Debug, Structural)]
pub enum Kind {
    /// Interrupt controllers.
    Madt,
    /// Power management.
    Fadt,
    Other,
}

pub open spec fn kind_of(t: Seq<u8>) -> Kind {
    if t.len() >= 4 && t[0] == 65 && t[1] == 80 && t[2] == 73 && t[3] == 67 {
        Kind::Madt
    } else if t.len() >= 4 && t[0] == 70 && t[1] == 65 && t[2] == 67 && t[3] == 80 {
        Kind::Fadt
    } else {
        Kind::Other
    }
}

/// What a table is about, by its signature.
pub fn table_kind(t: &[u8]) -> (r: Kind)
    ensures
        r == kind_of(t@),
{
    if t.len() >= 4 && t[0] == 65 && t[1] == 80 && t[2] == 73 && t[3] == 67 {
        Kind::Madt
    } else if t.len() >= 4 && t[0] == 70 && t[1] == 65 && t[2] == 67 && t[3] == 80 {
        Kind::Fadt
    } else {
        Kind::Other
    }
}

/// Where the root table is, and how long an entry of it is: 64-bit
/// addresses since revision 2, 32-bit ones before.
pub fn root_table(rsdp: &[u8]) -> (r: (u64, usize))
    requires
        rsdp@.len() >= HEADER,
    ensures
        r == if rsdp@[15] >= 2 { (le64(rsdp@, 24) as u64, 8usize) } else { (le32(rsdp@, 16) as u64, 4usize) },
{
    if rsdp[15] >= 2 {
        match get_le64(rsdp, 24) {
            Some(a) => (a, 8),
            None => (0, 8),
        }
    } else {
        match get_le32(rsdp, 16) {
            Some(a) => (a as u64, 4),
            None => (0, 4),
        }
    }
}

/// The `i`th address in a root table.
pub open spec fn root_entry(t: Seq<u8>, size: int, i: int) -> u64 {
    if size == 8 { le64(t, HEADER + 8 * i) as u64 } else { le32(t, HEADER + 4 * i) as u64 }
}

/// The addresses of the tables that a root table lists.
pub fn root_entries(t: &[u8], size: usize) -> (r: Vec<u64>)
    requires
        t@.len() >= HEADER,
        size == 4 || size == 8,
    ensures
        r@ == Seq::new(((t@.len() - HEADER) / (size as int)) as nat, |i: int| root_entry(t@, size as int, i)),
{
    let n: usize = t.len();
    let count: usize = (n - HEADER) / size;
    proof {
        assert(size == 8 ==> count * 8 <= n - HEADER);
        assert(size == 4 ==> count * 4 <= n - HEADER);
    }
    let mut out: Vec<u64> = Vec::new();
    let mut i: usize = 0;
    while i < count
        invariant
            i <= count,
            n == t@.len(),
            n >= HEADER,
            size == 8 ==> count * 8 <= n - HEADER,
            size == 4 ==> count * 4 <= n - HEADER,
            size == 4 || size == 8,
            count == (t@.len() - HEADER) / (size as int),
            out@ == Seq::new(i as nat, |k: int| root_entry(t@, size as int, k)),
        decreases count - i,
    {
        let a: u64 = if size == 8 {
            match get_le64(t, HEADER + i * 8) {
                Some(a) => a,
                None => 0,
            }
        } else {
            match get_le32(t, HEADER + i * 4) {
                Some(a) => a as u64,
                None => 0,
            }
        };
        out.push(a);
        i += 1;
        proof {
            assert(out@ =~= Seq::new(i as nat, |k: int| root_entry(t@, size as int, k)));
        }
    }
    out
}

// ---------------------------------------------------------------------
// Interrupt controllers
// ---------------------------------------------------------------------

/// How many bytes of an entry of this kind are read.
pub open spec fn entry_need(kind: u8) -> int {
    if kind == 0 {
        8
    } else if kind == 1 || kind == 5 {
        12
    } else if kind == 2 {
        10
    } else {
        2
    }
}

/// What the entry at `o` says.
pub open spec fn with_entry(s: InfoState, t: Seq<u8>, o: int) -> InfoState {
    let kind = t[o];
    if kind == 0 {
        if le32(t, o + 4) % 2 == 1 { InfoState { cpu_count: s.cpu_count + 1, ..s } } else { s }
    } else if kind == 1 {
        InfoState {
            ioapics: s.ioapics.push(
                IoApic { phys: le32(t, o + 4) as u64, gsi_base: le32(t, o + 8) as u32 },
            ),
            ..s
        }
    } else if kind == 2 {
        InfoState {
            overrides: s.overrides.push(
                IrqOverride { irq: t[o + 3], gsi: le32(t, o + 4) as u32, flags: le16(t, o + 8) as u16 },
            ),
            ..s
        }
    } else if kind == 5 {
        InfoState { lapic_phys: le64(t, o + 4) as u64, ..s }
    } else {
        s
    }
}

/// What the entries from `o` on say. An entry too short to be one, or one
/// that the table cuts off, ends the list.
pub open spec fn with_entries(s: InfoState, t: Seq<u8>, o: int) -> InfoState
    decreases (if o < t.len() { t.len() - o } else { 0 }),
{
    if o < 0 || o + 2 > t.len() || t[o + 1] < 2 || o + entry_need(t[o]) > t.len() {
        s
    } else {
        with_entries(with_entry(s, t, o), t, o + t[o + 1])
    }
}

impl AcpiInfo {
    /// What holds where no table says otherwise.
    pub fn new() -> (r: AcpiInfo)
        ensures
            r@ == (InfoState {
                lapic_phys: 0xfee0_0000,
                ioapics: Seq::empty(),
                overrides: Seq::empty(),
                cpu_count: 0,
                pm1a_cnt: None,
                slp_typ_s5: None,
            }),
    {
        AcpiInfo {
            lapic_phys: 0xfee0_0000,
            ioapics: Vec::new(),
            overrides: Vec::new(),
            cpu_count: 0,
            pm1a_cnt: None,
            slp_typ_s5: None,
        }
    }

    fn read_entry(&mut self, t: &[u8], o: usize)
        requires
            o + 2 <= t@.len(),
            o + entry_need(t@[o as int]) <= t@.len(),
            old(self).cpu_count < usize::MAX,
        ensures
            final(self)@ == with_entry(old(self)@, t@, o as int),
            final(self).cpu_count <= old(self).cpu_count + 1,
    {
        let kind: u8 = t[o];
        if kind == 0 {
            if let Some(flags) = get_le32(t, o + 4) {
                if flags % 2 == 1 {
                    self.cpu_count += 1;
                }
            }
        } else if kind == 1 {
            if let (Some(phys), Some(gsi_base)) = (get_le32(t, o + 4), get_le32(t, o + 8)) {
                self.ioapics.push(IoApic { phys: phys as u64, gsi_base });
            }
        } else if kind == 2 {
            if let (Some(gsi), Some(flags)) = (get_le32(t, o + 4), get_le16(t, o + 8)) {
                self.overrides.push(IrqOverride { irq: t[o + 3], gsi, flags });
            }
        } else if kind == 5 {
            if let Some(a) = get_le64(t, o + 4) {
                self.lapic_phys = a;
            }
        }
    }

    /// Read the table of interrupt controllers.
    pub fn parse_madt(&mut self, t: &[u8])
        requires
            t@.len() >= 44,
            old(self).cpu_count + t@.len() <= usize::MAX,
        ensures
            final(self)@ == with_entries(
                InfoState { lapic_phys: le32(t@, 36) as u64, ..old(self)@ },
                t@,
                44,
            ),
    {
        if let Some(a) = get_le32(t, 36) {
            self.lapic_phys = a as u64;
        }
        let ghost s0 = self@;
        let n: usize = t.len();
        let mut o: usize = 44;
        let mut more: bool = true;
        while more && o < n - 1
            invariant
                n == t@.len(),
                44 <= n,
                44 <= o,
                self.cpu_count + (n - o) <= usize::MAX || o > n,
                more ==> with_entries(s0, t@, 44) == with_entries(self@, t@, o as int),
                !more ==> with_entries(s0, t@, 44) == self@,
            decreases n - o, (if more { 1int } else { 0 }),
        {
            let kind: u8 = t[o];
            let len: usize = t[o + 1] as usize;
            let need: usize = if kind == 0 {
                8
            } else if kind == 1 || kind == 5 {
                12
            } else if kind == 2 {
                10
            } else {
                2
            };
            if len < 2 || n - o < need {
                more = false;
            } else {
                let ghost before = self@;
                let ghost at = o as int;
                self.read_entry(t, o);
                if len > n - o {
                    o = n;
                } else {
                    o += len;
                }
                proof {
                    assert(with_entries(before, t@, at) == with_entries(self@, t@, at + len));
                    if at + len > n {
                        assert(with_entries(self@, t@, at + len) == self@);
                        assert(with_entries(self@, t@, n as int) == self@);
                    }
                }
            }
        }
    }
}

// ---------------------------------------------------------------------
// Power management
// ---------------------------------------------------------------------

/// The port that switches the machine off, if the table names one.
pub open spec fn pm1a_port(t: Seq<u8>) -> Option<u16> {
    let v = le32(t, 64);
    if v != 0 { Some((v % 65536) as u16) } else { None }
}

/// Where the table is that says how: the 64-bit address if there is one.
pub open spec fn dsdt_address(t: Seq<u8>) -> Option<u64> {
    let a = if t.len() >= 148 && le64(t, 140) != 0 { le64(t, 140) } else { le32(t, 40) };
    if a != 0 { Some(a as u64) } else { None }
}

/// Read the power management table: the port, and where the table is that
/// says how to switch off.
pub fn parse_fadt(t: &[u8]) -> (r: (Option<u16>, Option<u64>))
    requires
        t@.len() >= 68,
    ensures
        r == (pm1a_port(t@), dsdt_address(t@)),
{
    let pm1a: Option<u16> = match get_le32(t, 64) {
        Some(v) => if v != 0 { Some((v % 65536) as u16) } else { None },
        None => None,
    };
    let mut dsdt: u64 = match get_le32(t, 40) {
        Some(v) => v as u64,
        None => 0,
    };
    if t.len() >= 148 {
        if let Some(x) = get_le64(t, 140) {
            if x != 0 {
                dsdt = x;
            }
        }
    }
    (pm1a, if dsdt != 0 { Some(dsdt) } else { None })
}

/// Whether the name `_S5_` stands at `i`.
pub open spec fn s5_at(b: Seq<u8>, i: int) -> bool {
    0 <= i && i + 4 <= b.len() && b[i] == 95 && b[i + 1] == 83 && b[i + 2] == 53 && b[i + 3] == 95
}

/// The first place from `i` on where the name stands.
pub open spec fn s5_place(b: Seq<u8>, i: int) -> Option<int>
    decreases b.len() - i,
{
    if i < 0 || i + 4 > b.len() {
        None
    } else if s5_at(b, i) {
        Some(i)
    } else {
        s5_place(b, i + 1)
    }
}

/// The value in the package after the name at `p`: package op, its length,
/// the number of elements, the first element. There is none where the table
/// ends before it.
pub open spec fn s5_value(b: Seq<u8>, p: int) -> Option<u16> {
    if p + 5 >= b.len() || b[p + 4] != 0x12 {
        None
    } else {
        let i = p + 7 + b[p + 5] as int / 64;
        if i >= b.len() {
            None
        } else if b[i] != 0x0a {
            Some(b[i] as u16)
        } else if i + 1 < b.len() {
            Some(b[i + 1] as u16)
        } else {
            None
        }
    }
}

/// The sleep type that switches the machine off.
pub open spec fn s5_type(b: Seq<u8>) -> Option<u16> {
    match s5_place(b, 0) {
        Some(p) => s5_value(b, p),
        None => None,
    }
}

/// Look for the sleep type that switches the machine off.
pub fn find_s5(b: &[u8]) -> (r: Option<u16>)
    ensures
        r == s5_type(b@),
{
    let n: usize = b.len();
    let mut i: usize = 0;
    while n - i >= 4
        invariant
            i <= n,
            n == b@.len(),
            s5_place(b@, 0) == s5_place(b@, i as int),
        decreases n - i,
    {
        if b[i] == 95 && b[i + 1] == 83 && b[i + 2] == 53 && b[i + 3] == 95 {
            if n - i <= 5 || b[i + 4] != 0x12 {
                return None;
            }
            let skip: usize = 7 + (b[i + 5] / 64) as usize;
            if n - i <= skip {
                return None;
            }
            let v: u8 = b[i + skip];
            if v != 0x0a {
                return Some(v as u16);
            }
            if n - i - skip <= 1 {
                return None;
            }
            return Some(b[i + skip + 1] as u16);
        }
        i += 1;
    }
    None
}

/// The value is found wherever the package stands in the table, as long as
/// the name does not come before it.
pub proof fn lemma_s5_found(front: Seq<u8>, v: u8)
    requires
        forall|i: int| 0 <= i < front.len() ==> front[i] != 95,
        v != 0x0a,
    ensures
        s5_type(front + seq![95u8, 83, 53, 95, 0x12, 0x06, 0x04, v]) == Some(v as u16),
{
    let b = front + seq![95u8, 83, 53, 95, 0x12, 0x06, 0x04, v];
    lemma_s5_skip(b, front.len() as int, 0);
}

proof fn lemma_s5_skip(b: Seq<u8>, p: int, i: int)
    requires
        0 <= i <= p,
        s5_at(b, p),
        forall|k: int| 0 <= k < p ==> b[k] != 95,
    ensures
        s5_place(b, i) == Some(p),
    decreases p - i,
{
    if i < p {
        lemma_s5_skip(b, p, i + 1);
    }
}

/// An override of an interrupt says the line and the flags that were
/// written in it, and the list goes on behind it.
pub proof fn lemma_override_read(s: InfoState, front: Seq<u8>, rest: Seq<u8>, bus: u8, irq: u8, gsi: u32, flags: u16)
    ensures
        ({
            let e = seq![2u8, 10, bus, irq] + le32_bytes(gsi as int) + le16_bytes(flags as int);
            with_entries(s, front + e + rest, front.len() as int) == with_entries(
                InfoState { overrides: s.overrides.push(IrqOverride { irq, gsi, flags }), ..s },
                front + e + rest,
                front.len() as int + 10,
            )
        }),
{
    let o = front.len() as int;
    let e = seq![2u8, 10, bus, irq] + le32_bytes(gsi as int) + le16_bytes(flags as int);
    let t = front + e + rest;
    lemma_within(front, e, rest);
    lemma_le32_back(gsi as int);
    lemma_le16_back(flags as int);
    lemma_number_within(t, o + 4, gsi);
    assert(t[o + 8] == le16_bytes(flags as int)[0] && t[o + 9] == le16_bytes(flags as int)[1]);
    assert(le16(t, o + 8) == flags);
}

/// An I/O APIC says the address and the first line that were written in it,
/// and the list goes on behind it.
pub proof fn lemma_ioapic_read(s: InfoState, front: Seq<u8>, rest: Seq<u8>, id: u8, pad: u8, phys: u32, gsi_base: u32)
    ensures
        ({
            let e = seq![1u8, 12, id, pad] + le32_bytes(phys as int) + le32_bytes(gsi_base as int);
            with_entries(s, front + e + rest, front.len() as int) == with_entries(
                InfoState { ioapics: s.ioapics.push(IoApic { phys: phys as u64, gsi_base }), ..s },
                front + e + rest,
                front.len() as int + 12,
            )
        }),
{
    let o = front.len() as int;
    let e = seq![1u8, 12, id, pad] + le32_bytes(phys as int) + le32_bytes(gsi_base as int);
    let t = front + e + rest;
    lemma_within(front, e, rest);
    lemma_number_within(t, o + 4, phys);
    lemma_number_within(t, o + 8, gsi_base);
}

/// A processor counts if it is on, and the list goes on behind it.
pub proof fn lemma_processor_read(s: InfoState, front: Seq<u8>, rest: Seq<u8>, id: u8, apic: u8, flags: u32)
    ensures
        ({
            let e = seq![0u8, 8, id, apic] + le32_bytes(flags as int);
            with_entries(s, front + e + rest, front.len() as int) == with_entries(
                InfoState { cpu_count: s.cpu_count + (if flags % 2 == 1 { 1int } else { 0 }), ..s },
                front + e + rest,
                front.len() as int + 8,
            )
        }),
{
    let o = front.len() as int;
    let e = seq![0u8, 8, id, apic] + le32_bytes(flags as int);
    let t = front + e + rest;
    lemma_within(front, e, rest);
    lemma_number_within(t, o + 4, flags);
}

proof fn lemma_number_within(t: Seq<u8>, o: int, v: u32)
    requires
        t[o] == le32_bytes(v as int)[0],
        t[o + 1] == le32_bytes(v as int)[1],
        t[o + 2] == le32_bytes(v as int)[2],
        t[o + 3] == le32_bytes(v as int)[3],
    ensures
        le32(t, o) == v,
{
    lemma_le32_back(v as int);
}

proof fn lemma_within(front: Seq<u8>, e: Seq<u8>, rest: Seq<u8>)
    ensures
        (front + e + rest).len() >= front.len() + e.len(),
        forall|k: int| #![trigger (front + e + rest)[k]]
            front.len() <= k < front.len() + e.len() ==> (front + e + rest)[k] == e[k - front.len()],
{
}

} // verus!
