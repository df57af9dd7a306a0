//! What disk drivers have in common: cutting transfers into pieces that a
//! device can take, and reading what a disk says of itself.

use crate::bytes::{get_le32, get_le64, le32, le64};
use crate::text::{read_text, text_of_bytes, to_chars, trim, trimmed};
use vstd::prelude::*;

verus! {

/// One piece of a transfer: the sector, the place in the buffer, and how
/// many bytes.
#[derive(Clone, Copy, Debug, PartialEq, Eq, Structural)]
pub struct Piece {
    pub sector: u64,
    pub offset: usize,
    pub bytes: usize,
}

/// The size of the piece at `done`.
pub open spec fn piece_len(len: int, done: int, max: int) -> int {
    if len - done < max { len - done } else { max }
}

/// The pieces from `done` on, up to the first that is not on the disk, and
/// whether there is none such.
pub open spec fn pieces(lba: int, len: int, done: int, sectors: int, max: int) -> (Seq<Piece>, bool)
    decreases len - done,
{
    if done >= len || max <= 0 {
        (Seq::empty(), true)
    } else {
        let n = piece_len(len, done, max);
        let sector = lba + done / 512;
        if sector + n / 512 > sectors {
            (Seq::empty(), false)
        } else {
            let (rest, ok) = pieces(lba, len, done + n, sectors, max);
            (seq![Piece { sector: sector as u64, offset: done as usize, bytes: n as usize }] + rest, ok)
        }
    }
}

/// The pieces of a transfer, up to the first that is not on the disk, and
/// whether there is none such.
pub fn plan(lba: u64, len: usize, sectors: u64, max: usize) -> (r: (Vec<Piece>, bool))
    requires
        max > 0,
    ensures
        (r.0@, r.1) == pieces(lba as int, len as int, 0, sectors as int, max as int),
{
    let mut out: Vec<Piece> = Vec::new();
    let mut done: usize = 0;
    let ghost want = pieces(lba as int, len as int, 0, sectors as int, max as int);
    proof {
        assert(out@ + want.0 =~= want.0);
    }
    while done < len
        invariant
            done <= len,
            max > 0,
            want == pieces(lba as int, len as int, 0, sectors as int, max as int),
            want.0 == out@ + pieces(lba as int, len as int, done as int, sectors as int, max as int).0,
            want.1 == pieces(lba as int, len as int, done as int, sectors as int, max as int).1,
        decreases len - done,
    {
        let ghost here = pieces(lba as int, len as int, done as int, sectors as int, max as int);
        let ghost o0 = out@;
        let n: usize = if len - done < max { len - done } else { max };
        let sector: u128 = lba as u128 + (done / 512) as u128;
        if sector + (n / 512) as u128 > sectors as u128 {
            proof {
                assert(here.0 =~= Seq::<Piece>::empty());
                assert(out@ + here.0 =~= out@);
            }
            return (out, false);
        }
        out.push(Piece { sector: sector as u64, offset: done, bytes: n });
        proof {
            assert(out@ + pieces(lba as int, len as int, done + n, sectors as int, max as int).0 =~= o0 + here.0);
        }
        done += n;
    }
    proof {
        assert(out@ + Seq::<Piece>::empty() =~= out@);
    }
    (out, true)
}

/// Where the pieces up to the `k`th end in the buffer.
pub open spec fn end_at(p: Seq<Piece>, k: int) -> int
    decreases k,
{
    if k <= 0 { 0 } else { end_at(p, k - 1) + p[k - 1].bytes }
}

/// The pieces follow each other without a gap, each lies on the disk and is
/// no larger than the device can take, and together they are the whole
/// transfer.
pub proof fn lemma_pieces(lba: int, len: int, done: int, sectors: int, max: int)
    requires
        0 <= lba,
        0 <= done <= len <= usize::MAX,
        0 < max <= usize::MAX,
        sectors <= u64::MAX,
    ensures
        ({
            let (p, ok) = pieces(lba, len, done, sectors, max);
            &&& forall|k: int|
                0 <= k < p.len() ==> {
                    &&& (#[trigger] p[k]).offset == done + end_at(p, k)
                    &&& p[k].sector == lba + (done + end_at(p, k)) / 512
                    &&& 0 < p[k].bytes <= max
                    &&& p[k].sector + p[k].bytes as int / 512 <= sectors
                }
            &&& ok ==> done + end_at(p, p.len() as int) == len
        }),
    decreases len - done,
{
    let (p, ok) = pieces(lba, len, done, sectors, max);
    if done < len {
        let n = piece_len(len, done, max);
        let sector = lba + done / 512;
        if sector + n / 512 <= sectors {
            let (rest, ok2) = pieces(lba, len, done + n, sectors, max);
            lemma_pieces(lba, len, done + n, sectors, max);
            let first = Piece { sector: sector as u64, offset: done as usize, bytes: n as usize };
            assert(p == seq![first] + rest);
            assert forall|k: int| 0 <= k <= rest.len() implies end_at(p, k + 1) == n + #[trigger] end_at(rest, k) by {
                lemma_end_shift(first, rest, k);
            }
            assert forall|k: int| 0 <= k < p.len() implies {
                &&& (#[trigger] p[k]).offset == done + end_at(p, k)
                &&& p[k].sector == lba + (done + end_at(p, k)) / 512
                &&& 0 < p[k].bytes <= max
                &&& p[k].sector + p[k].bytes as int / 512 <= sectors
            } by {
                if k > 0 {
                    assert(p[k] == rest[k - 1]);
                    assert(end_at(p, k) == n + end_at(rest, k - 1));
                }
            }
            assert(end_at(p, p.len() as int) == n + end_at(rest, rest.len() as int));
        }
    }
}

proof fn lemma_end_shift(first: Piece, rest: Seq<Piece>, k: int)
    requires
        0 <= k <= rest.len(),
    ensures
        end_at(seq![first] + rest, k + 1) == first.bytes + end_at(rest, k),
    decreases k,
{
    let p = seq![first] + rest;
    if k > 0 {
        lemma_end_shift(first, rest, k - 1);
        assert(p[k] == rest[k - 1]);
    } else {
        reveal_with_fuel(end_at, 2);
        assert(p[0] == first);
    }
}

// ---------------------------------------------------------------------
// Identification
// ---------------------------------------------------------------------

/// How many sectors an ATA disk has: the 48-bit count, or the 28-bit one
/// where that is zero.
pub open spec fn ata_sectors(id: Seq<u8>) -> int {
    if le64(id, 200) != 0 { le64(id, 200) } else { le32(id, 120) }
}

/// The bytes of the model name: each two are the wrong way round.
pub open spec fn model_bytes(id: Seq<u8>) -> Seq<u8> {
    Seq::new(40, |i: int| if i % 2 == 0 { id[54 + i + 1] } else { id[54 + i - 1] })
}

/// The model name of an ATA disk.
pub open spec fn ata_model(id: Seq<u8>) -> Seq<char> {
    trim(read_text(model_bytes(id)))
}

/// What a disk says of itself: its sectors and its model.
pub fn identify(id: &[u8]) -> (r: (u64, Vec<char>))
    requires
        id@.len() >= 512,
    ensures
        r.0 == ata_sectors(id@),
        r.1@ == ata_model(id@),
{
    let wide: u64 = match get_le64(id, 200) {
        Some(v) => v,
        None => 0,
    };
    let narrow: u64 = match get_le32(id, 120) {
        Some(v) => v as u64,
        None => 0,
    };
    let sectors: u64 = if wide != 0 { wide } else { narrow };
    let mut model: Vec<u8> = Vec::new();
    let mut i: usize = 0;
    let ghost want = model_bytes(id@);
    proof {
        assert(model@ =~= want.take(0));
    }
    while i < 40
        invariant
            id@.len() >= 512,
            i <= 40,
            want == model_bytes(id@),
            model@ == want.take(i as int),
        decreases 40 - i,
    {
        model.push(if i % 2 == 0 { id[54 + i + 1] } else { id[54 + i - 1] });
        i += 1;
        proof {
            assert(model@ =~= want.take(i as int));
        }
    }
    proof {
        assert(want.take(40) =~= want);
    }
    let text: Vec<char> = to_chars(text_of_bytes(&model).as_str());
    (sectors, trimmed(&text))
}

/// A model name that a disk gives with each two bytes the wrong way round
/// is read the right way round, without the spaces that fill it up.
pub proof fn lemma_model_read(id: Seq<u8>, m: Seq<u8>)
    requires
        id.len() >= 512,
        m.len() == 40,
        forall|i: int| 0 <= i < 20 ==> #[trigger] id[54 + 2 * i] == m[2 * i + 1] && id[55 + 2 * i] == m[2 * i],
    ensures
        ata_model(id) == trim(read_text(m)),
{
    assert forall|k: int| 0 <= k < 40 implies model_bytes(id)[k] == m[k] by {
        let i = k / 2;
        assert(id[54 + 2 * i] == m[2 * i + 1] && id[55 + 2 * i] == m[2 * i]);
        if k % 2 == 0 {
            assert(k == 2 * i);
        } else {
            assert(k == 2 * i + 1);
        }
    }
    assert(model_bytes(id) =~= m);
}

} // verus!
