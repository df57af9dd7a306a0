//! What the bootloader hands over.

use crate::text::utf8_text;
use vstd::prelude::*;
use vstd::utf8::{decode_utf8, valid_utf8};

verus! {

/// The kind of memory that may be used.
pub const MEMMAP_USABLE: u64 = 0;

/// The identifier of a request.
pub fn request_id(a: u64, b: u64) -> (r: [u64; 4])
    ensures
        r@ == seq![0xc7b1_dd30_df4c_8b88u64, 0x0a82_e883_a194_f07bu64, a, b],
{
    let r: [u64; 4] = [0xc7b1_dd30_df4c_8b88, 0x0a82_e883_a194_f07b, a, b];
    proof {
        assert(r@ =~= seq![0xc7b1_dd30_df4c_8b88u64, 0x0a82_e883_a194_f07bu64, a, b]);
    }
    r
}

/// The protocol revision that was asked for; the bootloader sets its last
/// number to zero if it knows it.
#[derive(Clone, Copy)]
pub struct BaseRevision {
    pub numbers: (u64, u64, u64),
}

impl BaseRevision {
    pub fn is_supported(&self) -> (r: bool)
        ensures
            r == (self.numbers.2 == 0),
    {
        self.numbers.2 == 0
    }
}

#[derive(Clone, Copy, PartialEq, Eq, Debug, Structural)]
pub struct HhdmResponse {
    pub revision: u64,
    pub offset: u64,
}

#[derive(Clone, Copy, PartialEq, Eq, Debug, Structural)]
pub struct Framebuffer {
    pub address: u64,
    pub width: u64,
    pub height: u64,
    pub pitch: u64,
    pub bpp: u16,
    pub memory_model: u8,
    pub red_mask_size: u8,
    pub red_mask_shift: u8,
    pub green_mask_size: u8,
    pub green_mask_shift: u8,
    pub blue_mask_size: u8,
    pub blue_mask_shift: u8,
}

pub struct FramebufferResponse {
    pub revision: u64,
    pub framebuffers: Vec<Framebuffer>,
}

impl FramebufferResponse {
    pub fn first(&self) -> (r: Option<Framebuffer>)
        ensures
            r == if self.framebuffers@.len() == 0 { None } else { Some(self.framebuffers@[0]) },
    {
        if self.framebuffers.len() == 0 {
            return None;
        }
        Some(self.framebuffers[0])
    }
}

#[derive(Clone, Copy, PartialEq, Eq, Debug, Structural)]
pub struct MemmapEntry {
    pub base: u64,
    pub length: u64,
    pub kind: u64,
}

pub struct MemmapResponse {
    pub revision: u64,
    pub entries: Vec<MemmapEntry>,
}

impl MemmapResponse {
    pub fn entries(&self) -> (r: &Vec<MemmapEntry>)
        ensures
            r@ == self.entries@,
    {
        &self.entries
    }
}

#[derive(Clone, Copy, PartialEq, Eq, Debug, Structural)]
pub struct RsdpResponse {
    pub revision: u64,
    /// Physical address with base revision 3.
    pub address: u64,
}

/// The command line: its bytes up to a zero, if there is one.
pub struct CmdlineResponse {
    pub revision: u64,
    pub cmdline: Option<Vec<u8>>,
}

/// The bytes before the first zero.
pub open spec fn before_zero(b: Seq<u8>) -> Seq<u8>
    decreases b.len(),
{
    if b.len() == 0 || b[0] == 0 { Seq::empty() } else { seq![b[0]] + before_zero(b.skip(1)) }
}

impl CmdlineResponse {
    /// The command line; empty if there is none, or if it is not text.
    pub open spec fn text(self) -> Seq<char> {
        match self.cmdline {
            Some(b) => if valid_utf8(before_zero(b@)) { decode_utf8(before_zero(b@)) } else { ""@ },
            None => ""@,
        }
    }

    pub fn as_str(&self) -> (r: String)
        ensures
            r@ == self.text(),
    {
        let b: &Vec<u8> = match &self.cmdline {
            Some(b) => b,
            None => return crate::text::to_text(&crate::text::to_chars("")),
        };
        let mut out: Vec<u8> = Vec::new();
        let mut i: usize = 0;
        proof {
            assert(b@.skip(0) =~= b@);
            assert(out@ + before_zero(b@) =~= before_zero(b@));
        }
        while i < b.len() && b[i] != 0
            invariant
                i <= b@.len(),
                before_zero(b@) == out@ + before_zero(b@.skip(i as int)),
            decreases b@.len() - i,
        {
            let ghost rest = before_zero(b@.skip(i as int));
            let ghost o0 = out@;
            out.push(b[i]);
            proof {
                assert(b@.skip(i as int).skip(1) =~= b@.skip(i + 1));
                assert(out@ + before_zero(b@.skip(i + 1)) =~= o0 + rest);
            }
            i += 1;
        }
        proof {
            assert(out@ + Seq::<u8>::empty() =~= out@);
        }
        match utf8_text(&out) {
            Some(t) => t,
            None => crate::text::to_text(&crate::text::to_chars("")),
        }
    }
}

/// The command line of a boot that may have none.
pub fn cmdline(r: &Option<CmdlineResponse>) -> (s: String)
    ensures
        s@ == match *r {
            Some(c) => c.text(),
            None => ""@,
        },
{
    match r {
        Some(c) => c.as_str(),
        None => crate::text::to_text(&crate::text::to_chars("")),
    }
}

/// A file that the bootloader has loaded.
#[derive(Clone, Copy, PartialEq, Eq, Debug, Structural)]
pub struct LimineFile {
    pub revision: u64,
    pub address: u64,
    pub size: u64,
}

pub struct ModuleResponse {
    pub revision: u64,
    pub modules: Vec<LimineFile>,
}

impl ModuleResponse {
    pub fn first(&self) -> (r: Option<LimineFile>)
        ensures
            r == if self.modules@.len() == 0 { None } else { Some(self.modules@[0]) },
    {
        if self.modules.len() == 0 {
            return None;
        }
        Some(self.modules[0])
    }
}

/// A processor that the bootloader has found.
#[derive(Clone, Copy, PartialEq, Eq, Debug, Structural)]
pub struct MpInfo {
    pub processor_id: u32,
    pub lapic_id: u32,
    pub extra_argument: u64,
}

pub struct MpResponse {
    pub revision: u64,
    pub flags: u32,
    pub bsp_lapic_id: u32,
    pub cpus: Vec<MpInfo>,
}

} // verus!
