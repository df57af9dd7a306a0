//! PCI configuration space and bus scan.

use vstd::prelude::*;

verus! {

#[derive(Clone, Copy, Debug, PartialEq, Eq, Structural)]
pub struct PciDevice {
    pub bus: u8,
    pub slot: u8,
    pub func: u8,
    pub vendor: u16,
    pub device: u16,
    pub class: u8,
    pub subclass: u8,
    pub prog_if: u8,
}

/// The number that selects a register of a device.
pub open spec fn address_of(bus: u8, slot: u8, func: u8, off: u8) -> int {
    0x8000_0000 + bus * 0x1_0000 + slot * 0x800 + func * 0x100 + off / 4 * 4
}

/// The number that selects a register of a device.
pub fn addr(bus: u8, slot: u8, func: u8, off: u8) -> (r: u32)
    requires
        slot < 32,
        func < 8,
    ensures
        r == address_of(bus, slot, func, off),
{
    0x8000_0000 + bus as u32 * 0x1_0000 + slot as u32 * 0x800 + func as u32 * 0x100 + (off / 4 * 4) as u32
}

/// Different registers have different numbers.
pub proof fn lemma_address_unique(b1: u8, s1: u8, f1: u8, o1: u8, b2: u8, s2: u8, f2: u8, o2: u8)
    requires
        s1 < 32,
        f1 < 8,
        s2 < 32,
        f2 < 8,
        address_of(b1, s1, f1, o1) == address_of(b2, s2, f2, o2),
    ensures
        b1 == b2,
        s1 == s2,
        f1 == f2,
        o1 / 4 == o2 / 4,
{
}

/// Whether there is a device, by its first register.
pub open spec fn present(id: u32) -> bool {
    id % 0x1_0000 != 0xffff
}

pub fn is_present(id: u32) -> (r: bool)
    ensures
        r == present(id),
{
    id % 0x1_0000 != 0xffff
}

/// How many functions a device may have, by its header register.
pub open spec fn function_count(header: u32) -> u8 {
    if header / 0x80_0000 % 2 == 1 { 8 } else { 1 }
}

pub fn functions(header: u32) -> (r: u8)
    ensures
        r == function_count(header),
{
    if header / 0x80_0000 % 2 == 1 { 8 } else { 1 }
}

/// A device by its identifier and class registers.
pub open spec fn device_of(bus: u8, slot: u8, func: u8, id: u32, class: u32) -> PciDevice {
    PciDevice {
        bus,
        slot,
        func,
        vendor: (id % 0x1_0000) as u16,
        device: (id / 0x1_0000) as u16,
        class: (class / 0x100_0000) as u8,
        subclass: (class / 0x1_0000 % 256) as u8,
        prog_if: (class / 0x100 % 256) as u8,
    }
}

pub fn device_at(bus: u8, slot: u8, func: u8, id: u32, class: u32) -> (r: PciDevice)
    ensures
        r == device_of(bus, slot, func, id, class),
{
    PciDevice {
        bus,
        slot,
        func,
        vendor: (id % 0x1_0000) as u16,
        device: (id / 0x1_0000) as u16,
        class: (class / 0x100_0000) as u8,
        subclass: (class / 0x1_0000 % 256) as u8,
        prog_if: (class / 0x100 % 256) as u8,
    }
}

/// The command register with memory decoding and bus mastering on.
pub fn enabled(command: u32) -> (r: u32)
    ensures
        r == (command & 0xffff) | 6,
{
    (command & 0xffff) | 6
}

/// The command register with port decoding on as well.
pub fn enabled_io(command: u32) -> (r: u32)
    ensures
        r == (command & 0xffff) | 7,
{
    (command & 0xffff) | 7
}

/// The address in a base address register; `next` is the register after it,
/// which holds the upper half of a 64-bit address.
pub open spec fn bar_address(lo: u32, next: u32) -> int {
    if lo % 2 == 1 {
        lo as int / 4 * 4
    } else {
        lo as int / 16 * 16 + if lo / 2 % 4 == 2 { next * 0x1_0000_0000 } else { 0 }
    }
}

/// Physical address in a base address register (handles 64-bit ones).
pub fn bar(lo: u32, next: u32) -> (r: u64)
    ensures
        r == bar_address(lo, next),
{
    if lo % 2 == 1 {
        return (lo / 4 * 4) as u64;
    }
    let a: u64 = (lo / 16 * 16) as u64;
    if lo / 2 % 4 == 2 { a + next as u64 * 0x1_0000_0000 } else { a }
}

/// The offsets of the capabilities with an identifier, from `p` on, at most
/// `left` of the list.
pub open spec fn capabilities_from(cfg: Seq<u8>, id: u8, p: int, left: int) -> Seq<u8>
    decreases left,
{
    if p == 0 || left <= 0 {
        Seq::empty()
    } else {
        let rest = capabilities_from(cfg, id, cfg[p + 1] as int / 4 * 4, left - 1);
        if cfg[p] == id { seq![p as u8] + rest } else { rest }
    }
}

pub open spec fn capabilities_of(cfg: Seq<u8>, id: u8) -> Seq<u8> {
    if cfg[6] / 16 % 2 == 0 { Seq::empty() } else { capabilities_from(cfg, id, cfg[0x34] as int / 4 * 4, 48) }
}

/// Walk the capability list of a device's configuration space, returning
/// the offsets of the capabilities with `id`.
pub fn capabilities(cfg: &[u8], id: u8) -> (r: Vec<u8>)
    requires
        cfg@.len() == 256,
    ensures
        r@ == capabilities_of(cfg@, id),
{
    let mut out: Vec<u8> = Vec::new();
    if cfg[6] / 16 % 2 == 0 {
        return out;
    }
    let mut p: u8 = cfg[0x34] / 4 * 4;
    let mut guard: u8 = 0;
    let ghost want = capabilities_from(cfg@, id, p as int, 48);
    proof {
        assert(out@ + want =~= want);
    }
    while p != 0 && guard < 48
        invariant
            cfg@.len() == 256,
            guard <= 48,
            p % 4 == 0,
            want == out@ + capabilities_from(cfg@, id, p as int, 48 - guard),
        decreases 48 - guard,
    {
        let ghost rest = capabilities_from(cfg@, id, p as int, 48 - guard);
        let ghost o0 = out@;
        if cfg[p as usize] == id {
            out.push(p);
        }
        let next: u8 = cfg[p as usize + 1] / 4 * 4;
        proof {
            assert(out@ + capabilities_from(cfg@, id, next as int, 48 - guard - 1) =~= o0 + rest);
        }
        p = next;
        guard += 1;
    }
    proof {
        assert(out@ + Seq::<u8>::empty() =~= out@);
    }
    out
}

pub open spec fn class_title(class: u8, subclass: u8) -> Seq<char> {
    if class == 1 {
        if subclass == 0 {
            "SCSI storage"@
        } else if subclass == 1 {
            "IDE controller"@
        } else if subclass == 6 {
            "SATA controller"@
        } else if subclass == 8 {
            "NVMe controller"@
        } else {
            "Storage controller"@
        }
    } else if class == 2 {
        "Network controller"@
    } else if class == 3 {
        "Display controller"@
    } else if class == 4 {
        "Multimedia controller"@
    } else if class == 6 {
        if subclass == 0 {
            "Host bridge"@
        } else if subclass == 1 {
            "ISA bridge"@
        } else if subclass == 4 {
            "PCI bridge"@
        } else {
            "Bridge"@
        }
    } else if class == 9 {
        "Input controller"@
    } else if class == 0x0c {
        if subclass == 3 {
            "USB controller"@
        } else if subclass == 5 {
            "SMBus controller"@
        } else {
            "Serial bus controller"@
        }
    } else {
        "Device"@
    }
}

impl PciDevice {
    pub fn class_name(&self) -> (r: &'static str)
        ensures
            r@ == class_title(self.class, self.subclass),
    {
        if self.class == 1 {
            if self.subclass == 0 {
                "SCSI storage"
            } else if self.subclass == 1 {
                "IDE controller"
            } else if self.subclass == 6 {
                "SATA controller"
            } else if self.subclass == 8 {
                "NVMe controller"
            } else {
                "Storage controller"
            }
        } else if self.class == 2 {
            "Network controller"
        } else if self.class == 3 {
            "Display controller"
        } else if self.class == 4 {
            "Multimedia controller"
        } else if self.class == 6 {
            if self.subclass == 0 {
                "Host bridge"
            } else if self.subclass == 1 {
                "ISA bridge"
            } else if self.subclass == 4 {
                "PCI bridge"
            } else {
                "Bridge"
            }
        } else if self.class == 9 {
            "Input controller"
        } else if self.class == 0x0c {
            if self.subclass == 3 {
                "USB controller"
            } else if self.subclass == 5 {
                "SMBus controller"
            } else {
                "Serial bus controller"
            }
        } else {
            "Device"
        }
    }

    /// A byte of a register.
    pub fn read8(word: u32, off: u8) -> (r: u8)
        ensures
            r == if off % 4 == 0 {
                word % 256
            } else if off % 4 == 1 {
                word / 0x100 % 256
            } else if off % 4 == 2 {
                word / 0x1_0000 % 256
            } else {
                word / 0x100_0000
            },
    {
        if off % 4 == 0 {
            (word % 256) as u8
        } else if off % 4 == 1 {
            (word / 0x100 % 256) as u8
        } else if off % 4 == 2 {
            (word / 0x1_0000 % 256) as u8
        } else {
            (word / 0x100_0000) as u8
        }
    }
}

// ---------------------------------------------------------------------
// Looking for devices
// ---------------------------------------------------------------------

/// How far the scan is with a slot.
#[derive(Clone, Copy, Debug, PartialEq, Eq, Structural)]
pub enum Stage {
    /// Is there anything?
    Slot,
    /// How many functions has it?
    Header,
    /// Is there this function, of so many?
    Function { func: u8, funcs: u8 },
    /// What is it, by its identifier?
    Class { func: u8, funcs: u8, id: u32 },
}

#[verifier::ext_equal]
pub ghost struct ScanState {
    pub place: int,
    pub stage: Stage,
    pub found: Seq<PciDevice>,
}

/// A look at every slot of every bus for devices: registers are asked for
/// one after the other.
pub struct Scan {
    place: u16,
    stage: Stage,
    found: Vec<PciDevice>,
}

impl View for Scan {
    type V = ScanState;

    closed spec fn view(&self) -> ScanState {
        ScanState { place: self.place as int, stage: self.stage, found: self.found@ }
    }
}

/// A register of a device: bus, slot, function and offset.
pub type Register = (u8, u8, u8, u8);

/// 256 buses with 32 slots each.
pub const SLOTS: u16 = 8192;

pub open spec fn bus_of(place: int) -> u8 {
    (place / 32) as u8
}

pub open spec fn slot_of(place: int) -> u8 {
    (place % 32) as u8
}

impl ScanState {
    pub open spec fn wf(self) -> bool {
        &&& 0 <= self.place <= SLOTS
        &&& match self.stage {
            Stage::Function { func, funcs } => func < funcs <= 8,
            Stage::Class { func, funcs, id } => func < funcs <= 8,
            _ => true,
        }
    }

    /// The register that is asked for next; none at the end.
    pub open spec fn asks(self) -> Option<Register> {
        let (bus, slot) = (bus_of(self.place), slot_of(self.place));
        if self.place >= SLOTS {
            None
        } else {
            match self.stage {
                Stage::Slot => Some((bus, slot, 0u8, 0u8)),
                Stage::Header => Some((bus, slot, 0u8, 0x0cu8)),
                Stage::Function { func, .. } => Some((bus, slot, func, 0u8)),
                Stage::Class { func, .. } => Some((bus, slot, func, 8u8)),
            }
        }
    }

    /// On to the next slot.
    pub open spec fn next_slot(self) -> ScanState {
        ScanState { place: self.place + 1, stage: Stage::Slot, ..self }
    }

    /// On to the next function, or to the next slot.
    pub open spec fn next_function(self, func: u8, funcs: u8) -> ScanState {
        if func + 1 < funcs {
            ScanState { stage: Stage::Function { func: (func + 1) as u8, funcs }, ..self }
        } else {
            self.next_slot()
        }
    }

    /// The scan after the value of the register that it asked for.
    pub open spec fn told(self, v: u32) -> ScanState {
        if self.place >= SLOTS {
            self
        } else {
            match self.stage {
                Stage::Slot => if present(v) {
                    ScanState { stage: Stage::Header, ..self }
                } else {
                    self.next_slot()
                },
                Stage::Header => ScanState { stage: Stage::Function { func: 0, funcs: function_count(v) }, ..self },
                Stage::Function { func, funcs } => if present(v) {
                    ScanState { stage: Stage::Class { func, funcs, id: v }, ..self }
                } else {
                    self.next_function(func, funcs)
                },
                Stage::Class { func, funcs, id } => (ScanState {
                    found: self.found.push(device_of(bus_of(self.place), slot_of(self.place), func, id, v)),
                    ..self
                }).next_function(func, funcs),
            }
        }
    }
}

impl Scan {
    pub fn new() -> (r: Scan)
        ensures
            r@ == (ScanState { place: 0, stage: Stage::Slot, found: Seq::empty() }),
            r@.wf(),
    {
        Scan { place: 0, stage: Stage::Slot, found: Vec::new() }
    }

    /// The register to read next; none at the end.
    pub fn ask(&self) -> (r: Option<Register>)
        requires
            self@.wf(),
        ensures
            r == self@.asks(),
    {
        if self.place >= SLOTS {
            return None;
        }
        let (bus, slot) = ((self.place / 32) as u8, (self.place % 32) as u8);
        match self.stage {
            Stage::Slot => Some((bus, slot, 0, 0)),
            Stage::Header => Some((bus, slot, 0, 0x0c)),
            Stage::Function { func, funcs: _ } => Some((bus, slot, func, 0)),
            Stage::Class { func, funcs: _, id: _ } => Some((bus, slot, func, 8)),
        }
    }

    fn next_function(&mut self, func: u8, funcs: u8)
        requires
            old(self)@.place < SLOTS,
            func < funcs <= 8,
        ensures
            final(self)@ == old(self)@.next_function(func, funcs),
    {
        if func + 1 < funcs {
            self.stage = Stage::Function { func: func + 1, funcs };
        } else {
            self.place += 1;
            self.stage = Stage::Slot;
        }
    }

    /// The value of that register.
    pub fn tell(&mut self, v: u32)
        requires
            old(self)@.wf(),
        ensures
            final(self)@ == old(self)@.told(v),
            final(self)@.wf(),
    {
        if self.place >= SLOTS {
            return;
        }
        match self.stage {
            Stage::Slot => {
                if is_present(v) {
                    self.stage = Stage::Header;
                } else {
                    self.place += 1;
                }
            },
            Stage::Header => {
                self.stage = Stage::Function { func: 0, funcs: functions(v) };
            },
            Stage::Function { func, funcs } => {
                if is_present(v) {
                    self.stage = Stage::Class { func, funcs, id: v };
                } else {
                    self.next_function(func, funcs);
                }
            },
            Stage::Class { func, funcs, id } => {
                let (bus, slot) = ((self.place / 32) as u8, (self.place % 32) as u8);
                self.found.push(device_at(bus, slot, func, id, v));
                self.next_function(func, funcs);
            },
        }
    }

    /// The devices that were found so far.
    pub fn devices(&self) -> (r: &Vec<PciDevice>)
        ensures
            r@ == self@.found,
    {
        &self.found
    }
}

/// What registers hold.
pub type Config = spec_fn(Register) -> u32;

/// The devices among the first `n` functions of a slot.
pub open spec fn among(cfg: Config, place: int, n: int) -> Seq<PciDevice>
    decreases n,
{
    if n <= 0 {
        Seq::empty()
    } else {
        let f = (n - 1) as u8;
        let (bus, slot) = (bus_of(place), slot_of(place));
        let id = cfg((bus, slot, f, 0u8));
        let rest = among(cfg, place, n - 1);
        if present(id) { rest.push(device_of(bus, slot, f, id, cfg((bus, slot, f, 8u8)))) } else { rest }
    }
}

/// The devices of a slot: none if its first function is not there.
pub open spec fn in_slot(cfg: Config, place: int) -> Seq<PciDevice> {
    let (bus, slot) = (bus_of(place), slot_of(place));
    if present(cfg((bus, slot, 0u8, 0u8))) {
        among(cfg, place, function_count(cfg((bus, slot, 0u8, 0x0cu8))) as int)
    } else {
        Seq::empty()
    }
}

/// The devices of the first `n` slots.
pub open spec fn in_slots(cfg: Config, n: int) -> Seq<PciDevice>
    decreases n,
{
    if n <= 0 { Seq::empty() } else { in_slots(cfg, n - 1) + in_slot(cfg, n - 1) }
}

/// What the scan has found is what there is, as far as it has come.
pub open spec fn faithful(s: ScanState, cfg: Config) -> bool {
    let (bus, slot) = (bus_of(s.place), slot_of(s.place));
    let first = cfg((bus, slot, 0u8, 0u8));
    let funcs_there = function_count(cfg((bus, slot, 0u8, 0x0cu8)));
    let before = in_slots(cfg, s.place);
    &&& s.wf()
    &&& match s.stage {
        Stage::Slot => s.found == before,
        Stage::Header => s.found == before && present(first) && s.place < SLOTS,
        Stage::Function { func, funcs } => {
            &&& s.found == before + among(cfg, s.place, func as int)
            &&& present(first) && funcs == funcs_there && s.place < SLOTS
        },
        Stage::Class { func, funcs, id } => {
            &&& s.found == before + among(cfg, s.place, func as int)
            &&& present(first) && funcs == funcs_there && s.place < SLOTS
            &&& present(id) && id == cfg((bus, slot, func, 0u8))
        },
    }
}

/// A scan that is told what the registers hold goes on to find what there
/// is.
pub proof fn lemma_scan_step(s: ScanState, cfg: Config)
    requires
        faithful(s, cfg),
        s.asks() is Some,
    ensures
        faithful(s.told(cfg(s.asks()->0)), cfg),
{
    let (bus, slot) = (bus_of(s.place), slot_of(s.place));
    let v = cfg(s.asks()->0);
    let t = s.told(v);
    assert(in_slots(cfg, s.place + 1) == in_slots(cfg, s.place) + in_slot(cfg, s.place));
    match s.stage {
        Stage::Slot => {
            assert(in_slots(cfg, s.place) + Seq::<PciDevice>::empty() =~= in_slots(cfg, s.place));
        },
        Stage::Header => {
            assert(in_slots(cfg, s.place) + among(cfg, s.place, 0) =~= in_slots(cfg, s.place));
        },
        Stage::Function { func, funcs } => {
            assert(((func + 1) - 1) as u8 == func);
            assert(among(cfg, s.place, func + 1) == if present(v) {
                among(cfg, s.place, func as int).push(device_of(bus, slot, func, v, cfg((bus, slot, func, 8u8))))
            } else {
                among(cfg, s.place, func as int)
            });
        },
        Stage::Class { func, funcs, id } => {
            let d = device_of(bus, slot, func, id, v);
            assert(((func + 1) - 1) as u8 == func);
            assert(among(cfg, s.place, func + 1) == among(cfg, s.place, func as int).push(d));
            assert(t.found =~= in_slots(cfg, s.place) + among(cfg, s.place, func + 1));
        },
    }
}

/// At its end the scan has found every device, in order.
pub proof fn lemma_scan_done(s: ScanState, cfg: Config)
    requires
        faithful(s, cfg),
        s.asks() is None,
    ensures
        s.found == in_slots(cfg, SLOTS as int),
{
}

/// It begins with nothing.
pub proof fn lemma_scan_start(cfg: Config)
    ensures
        faithful(ScanState { place: 0, stage: Stage::Slot, found: Seq::empty() }, cfg),
{
}

/// Where a device stands among all that there can be: by bus, by slot, by
/// function.
pub open spec fn rank(d: PciDevice) -> int {
    (d.bus * 32 + d.slot) * 8 + d.func
}

/// Every device comes before those that follow it.
pub open spec fn ascending(s: Seq<PciDevice>) -> bool {
    forall|i: int, j: int| 0 <= i < j < s.len() ==> rank(#[trigger] s[i]) < rank(#[trigger] s[j])
}

proof fn lemma_among_ascending(cfg: Config, place: int, n: int)
    requires
        0 <= place < SLOTS,
        0 <= n <= 8,
    ensures
        ascending(among(cfg, place, n)),
        forall|i: int|
            0 <= i < among(cfg, place, n).len() ==> place * 8 <= rank(#[trigger] among(cfg, place, n)[i]) < place * 8 + n,
    decreases n,
{
    if n > 0 {
        lemma_among_ascending(cfg, place, n - 1);
        let f = (n - 1) as u8;
        let (bus, slot) = (bus_of(place), slot_of(place));
        assert(bus * 32 + slot == place);
    }
}

proof fn lemma_slots_ascending(cfg: Config, n: int)
    requires
        0 <= n <= SLOTS,
    ensures
        ascending(in_slots(cfg, n)),
        forall|i: int| 0 <= i < in_slots(cfg, n).len() ==> rank(#[trigger] in_slots(cfg, n)[i]) < n * 8,
    decreases n,
{
    if n > 0 {
        lemma_slots_ascending(cfg, n - 1);
        let count = function_count(cfg((bus_of(n - 1), slot_of(n - 1), 0u8, 0x0cu8))) as int;
        lemma_among_ascending(cfg, n - 1, count);
        let (a, b) = (in_slots(cfg, n - 1), in_slot(cfg, n - 1));
        let all = a + b;
        assert forall|i: int| 0 <= i < all.len() implies rank(#[trigger] all[i]) < n * 8 by {
            if i < a.len() {
                assert(all[i] == a[i]);
            } else {
                assert(all[i] == b[i - a.len()]);
            }
        }
        assert forall|i: int, j: int| 0 <= i < j < all.len() implies rank(#[trigger] all[i]) < rank(#[trigger] all[j]) by {
            if j < a.len() {
                assert(all[i] == a[i] && all[j] == a[j]);
            } else if i < a.len() {
                assert(all[i] == a[i] && all[j] == b[j - a.len()]);
            } else {
                assert(all[i] == b[i - a.len()] && all[j] == b[j - a.len()]);
            }
        }
    }
}

/// The list at the end of a scan is strictly ascending by bus, slot and
/// function: no device stands in it twice.
pub proof fn lemma_scan_ascending(s: ScanState, cfg: Config)
    requires
        faithful(s, cfg),
        s.asks() is None,
    ensures
        ascending(s.found),
{
    lemma_slots_ascending(cfg, SLOTS as int);
}

} // verus!
