//! Numbers in byte strings, least or most significant byte first.

use vstd::prelude::*;

verus! {

/// Two bytes of `s` from `o` on, least significant first.
pub open spec fn le16(s: Seq<u8>, o: int) -> int {
    s[o] + 256 * s[o + 1]
}

pub open spec fn le32(s: Seq<u8>, o: int) -> int {
    le16(s, o) + 65536 * le16(s, o + 2)
}

pub open spec fn le64(s: Seq<u8>, o: int) -> int {
    le32(s, o) + 0x1_0000_0000 * le32(s, o + 4)
}

/// Two bytes of `s` from `o` on, most significant first.
pub open spec fn be16(s: Seq<u8>, o: int) -> int {
    256 * s[o] + s[o + 1]
}

pub open spec fn be32(s: Seq<u8>, o: int) -> int {
    65536 * be16(s, o) + be16(s, o + 2)
}

pub open spec fn le16_bytes(v: int) -> Seq<u8> {
    seq![(v % 256) as u8, (v / 256 % 256) as u8]
}

pub open spec fn le32_bytes(v: int) -> Seq<u8> {
    seq![(v % 256) as u8, (v / 256 % 256) as u8, (v / 65536 % 256) as u8, (v / 0x100_0000 % 256) as u8]
}

pub open spec fn be16_bytes(v: int) -> Seq<u8> {
    seq![(v / 256 % 256) as u8, (v % 256) as u8]
}

pub open spec fn be32_bytes(v: int) -> Seq<u8> {
    seq![(v / 0x100_0000 % 256) as u8, (v / 65536 % 256) as u8, (v / 256 % 256) as u8, (v % 256) as u8]
}

/// A number that was written is read back.
pub proof fn lemma_le16_back(v: int)
    requires
        0 <= v < 65536,
    ensures
        le16(le16_bytes(v), 0) == v,
{
}

pub proof fn lemma_le32_back(v: int)
    requires
        0 <= v < 0x1_0000_0000,
    ensures
        le32(le32_bytes(v), 0) == v,
{
}

pub proof fn lemma_be16_back(v: int)
    requires
        0 <= v < 65536,
    ensures
        be16(be16_bytes(v), 0) == v,
{
}

pub proof fn lemma_be32_back(v: int)
    requires
        0 <= v < 0x1_0000_0000,
    ensures
        be32(be32_bytes(v), 0) == v,
{
}

pub fn get_le16(s: &[u8], o: usize) -> (r: Option<u16>)
    ensures
        r is Some == (o + 2 <= s@.len()),
        r is Some ==> r->0 == le16(s@, o as int),
{
    if s.len() < 2 || o > s.len() - 2 {
        return None;
    }
    Some(s[o] as u16 + 256 * s[o + 1] as u16)
}

pub fn get_le32(s: &[u8], o: usize) -> (r: Option<u32>)
    ensures
        r is Some == (o + 4 <= s@.len()),
        r is Some ==> r->0 == le32(s@, o as int),
{
    if s.len() < 4 || o > s.len() - 4 {
        return None;
    }
    let a: u32 = s[o] as u32 + 256 * s[o + 1] as u32;
    let b: u32 = s[o + 2] as u32 + 256 * s[o + 3] as u32;
    Some(a + 65536 * b)
}

pub fn get_le64(s: &[u8], o: usize) -> (r: Option<u64>)
    ensures
        r is Some == (o + 8 <= s@.len()),
        r is Some ==> r->0 == le64(s@, o as int),
{
    if s.len() < 8 || o > s.len() - 8 {
        return None;
    }
    match (get_le32(s, o), get_le32(s, o + 4)) {
        (Some(a), Some(b)) => Some(a as u64 + 0x1_0000_0000 * b as u64),
        _ => None,
    }
}

pub fn get_be16(s: &[u8], o: usize) -> (r: Option<u16>)
    ensures
        r is Some == (o + 2 <= s@.len()),
        r is Some ==> r->0 == be16(s@, o as int),
{
    if s.len() < 2 || o > s.len() - 2 {
        return None;
    }
    Some(256 * s[o] as u16 + s[o + 1] as u16)
}

pub fn get_be32(s: &[u8], o: usize) -> (r: Option<u32>)
    ensures
        r is Some == (o + 4 <= s@.len()),
        r is Some ==> r->0 == be32(s@, o as int),
{
    if s.len() < 4 || o > s.len() - 4 {
        return None;
    }
    let a: u32 = 256 * s[o] as u32 + s[o + 1] as u32;
    let b: u32 = 256 * s[o + 2] as u32 + s[o + 3] as u32;
    Some(65536 * a + b)
}

pub fn push_le16(out: &mut Vec<u8>, v: u16)
    ensures
        final(out)@ == old(out)@ + le16_bytes(v as int),
{
    out.push((v % 256) as u8);
    out.push((v / 256 % 256) as u8);
    proof {
        assert(out@ =~= old(out)@ + le16_bytes(v as int));
    }
}

pub fn push_le32(out: &mut Vec<u8>, v: u32)
    ensures
        final(out)@ == old(out)@ + le32_bytes(v as int),
{
    out.push((v % 256) as u8);
    out.push((v / 256 % 256) as u8);
    out.push((v / 65536 % 256) as u8);
    out.push((v / 0x100_0000 % 256) as u8);
    proof {
        assert(out@ =~= old(out)@ + le32_bytes(v as int));
    }
}

pub fn push_be16(out: &mut Vec<u8>, v: u16)
    ensures
        final(out)@ == old(out)@ + be16_bytes(v as int),
{
    out.push((v / 256 % 256) as u8);
    out.push((v % 256) as u8);
    proof {
        assert(out@ =~= old(out)@ + be16_bytes(v as int));
    }
}

pub fn push_be32(out: &mut Vec<u8>, v: u32)
    ensures
        final(out)@ == old(out)@ + be32_bytes(v as int),
{
    out.push((v / 0x100_0000 % 256) as u8);
    out.push((v / 65536 % 256) as u8);
    out.push((v / 256 % 256) as u8);
    out.push((v % 256) as u8);
    proof {
        assert(out@ =~= old(out)@ + be32_bytes(v as int));
    }
}

pub fn push_bytes(out: &mut Vec<u8>, s: &[u8])
    ensures
        final(out)@ == old(out)@ + s@,
{
    let mut i: usize = 0;
    proof {
        assert(out@ =~= old(out)@ + s@.take(0));
    }
    while i < s.len()
        invariant
            i <= s@.len(),
            out@ == old(out)@ + s@.take(i as int),
        decreases s@.len() - i,
    {
        out.push(s[i]);
        i += 1;
        proof {
            assert(out@ =~= old(out)@ + s@.take(i as int));
        }
    }
    proof {
        assert(s@.take(s@.len() as int) =~= s@);
    }
}

/// The bytes from `a` up to `b`.
pub fn sub_bytes(s: &[u8], a: usize, b: usize) -> (r: Vec<u8>)
    requires
        a <= b <= s@.len(),
    ensures
        r@ == s@.subrange(a as int, b as int),
{
    let mut out: Vec<u8> = Vec::new();
    let mut i: usize = a;
    while i < b
        invariant
            a <= i <= b <= s@.len(),
            out@ == s@.subrange(a as int, i as int),
        decreases b - i,
    {
        out.push(s[i]);
        i += 1;
        proof {
            assert(out@ =~= s@.subrange(a as int, i as int));
        }
    }
    out
}

} // verus!
