//! Fonts for the browser: which face a page's font is drawn with, and the
//! fonts that pages bring along (TTF, OTF and WOFF 1.0).

use crate::arith::{div_any, tdiv};
use crate::bytes::{
    be16, be16_bytes, be32, be32_bytes, get_be16, get_be32, push_be16, push_be32, push_bytes, sub_bytes,
};
use crate::text::{copy_range, is_str, join, lemma_split_join, lower_all, lowered, same, split, split_on, to_chars, trim, trimmed, views};
use vstd::prelude::*;

verus! {

// ---------------------------------------------------------------------
// WOFF
// ---------------------------------------------------------------------

/// What `miniz_oxide::inflate::decompress_to_vec_zlib` makes of bytes; none
/// where it reports an error.
pub uninterp spec fn zlib_inflated(b: Seq<u8>) -> Option<Seq<u8>>;

/// `decompress_to_vec_zlib` of the `miniz_oxide` crate: unpacks a zlib
/// stream. What comes out, and whether it fails, depends on the bytes alone.
#[verifier::external_body]
fn inflate_zlib(raw: &[u8]) -> (r: Option<Vec<u8>>)
    ensures
        match r {
            Some(v) => zlib_inflated(raw@) == Some(v@),
            None => zlib_inflated(raw@) is None,
        },
{
    miniz_oxide::inflate::decompress_to_vec_zlib(raw).ok()
}

/// A table of a font.
pub struct Table {
    pub tag: u32,
    pub sum: u32,
    pub data: Vec<u8>,
}

#[verifier::ext_equal]
pub struct TableState {
    pub tag: u32,
    pub sum: u32,
    pub data: Seq<u8>,
}

impl View for Table {
    type V = TableState;

    open spec fn view(&self) -> TableState {
        TableState { tag: self.tag, sum: self.sum, data: self.data@ }
    }
}

pub open spec fn tables_of(v: Seq<Table>) -> Seq<TableState> {
    Seq::new(v.len(), |i: int| v[i]@)
}

/// The bytes of a table: as they are, or unpacked where they are shorter
/// than the table.
pub open spec fn table_data(raw: Seq<u8>, clen: int, olen: int) -> Option<Seq<u8>> {
    if clen < olen { zlib_inflated(raw) } else { Some(raw) }
}

/// The `i`th table of a WOFF file.
pub open spec fn woff_table(d: Seq<u8>, i: int) -> Option<TableState> {
    let e = 44 + i * 20;
    if e + 20 > d.len() {
        None
    } else {
        let (off, clen, olen) = (be32(d, e + 4), be32(d, e + 8), be32(d, e + 12));
        if off + clen > d.len() {
            None
        } else {
            match table_data(d.subrange(off, off + clen), clen, olen) {
                Some(data) => Some(TableState { tag: be32(d, e) as u32, sum: be32(d, e + 16) as u32, data }),
                None => None,
            }
        }
    }
}

/// The first `n` tables of a WOFF file, if all of them can be read.
pub open spec fn woff_tables(d: Seq<u8>, n: int) -> Option<Seq<TableState>>
    decreases n,
{
    if n <= 0 {
        Some(Seq::empty())
    } else {
        match (woff_tables(d, n - 1), woff_table(d, n - 1)) {
            (Some(v), Some(t)) => Some(v.push(t)),
            _ => None,
        }
    }
}

/// The largest power of two up to `n`.
pub open spec fn top_power(n: int) -> int
    decreases n,
{
    if n < 2 { 1 } else { 2 * top_power(n / 2) }
}

pub open spec fn log2(n: int) -> int
    decreases n,
{
    if n < 2 { 0 } else { 1 + log2(n / 2) }
}

/// A length rounded up to whole words.
pub open spec fn padded(n: int) -> int {
    (n + 3) / 4 * 4
}

pub open spec fn zeros(n: int) -> Seq<u8> {
    Seq::new(n as nat, |i: int| 0u8)
}

pub open spec fn font_header(flavor: int, n: int) -> Seq<u8> {
    let p = top_power(n);
    be32_bytes(flavor) + be16_bytes(n) + be16_bytes(p * 16) + be16_bytes(log2(n)) + be16_bytes(n * 16 - p * 16)
}

/// Where the data of the `i`th table begins.
pub open spec fn data_offset(tables: Seq<TableState>, i: int) -> int
    decreases i,
{
    if i <= 0 {
        12 + 16 * tables.len() as int
    } else {
        data_offset(tables, i - 1) + padded(tables[i - 1].data.len() as int)
    }
}

/// The entries of the first `i` tables.
pub open spec fn directory(tables: Seq<TableState>, i: int) -> Seq<u8>
    decreases i,
{
    if i <= 0 {
        Seq::empty()
    } else {
        let t = tables[i - 1];
        directory(tables, i - 1) + be32_bytes(t.tag as int) + be32_bytes(t.sum as int) + be32_bytes(
            data_offset(tables, i - 1) % 0x1_0000_0000,
        ) + be32_bytes(t.data.len() as int % 0x1_0000_0000)
    }
}

/// The data of the first `i` tables, each padded to whole words.
pub open spec fn font_data(tables: Seq<TableState>, i: int) -> Seq<u8>
    decreases i,
{
    if i <= 0 {
        Seq::empty()
    } else {
        let t = tables[i - 1].data;
        font_data(tables, i - 1) + t + zeros(padded(t.len() as int) - t.len())
    }
}

/// A font made of these tables.
pub open spec fn font_file(flavor: int, tables: Seq<TableState>) -> Seq<u8> {
    let n = tables.len() as int;
    font_header(flavor, n) + directory(tables, n) + font_data(tables, n)
}

/// The font that a WOFF file holds.
pub open spec fn unpacked(d: Seq<u8>) -> Option<Seq<u8>> {
    if d.len() < 14 {
        None
    } else {
        match woff_tables(d, be16(d, 12)) {
            Some(t) => Some(font_file(be32(d, 4), t)),
            None => None,
        }
    }
}

proof fn lemma_zeros(n: int)
    requires
        n >= 0,
    ensures
        zeros(n + 1) == zeros(n).push(0u8),
{
    assert(zeros(n + 1) =~= zeros(n).push(0u8));
}

proof fn lemma_directory_len(tables: Seq<TableState>, i: int)
    requires
        0 <= i,
    ensures
        directory(tables, i).len() == 16 * i,
    decreases i,
{
    if i > 0 {
        lemma_directory_len(tables, i - 1);
    }
}

proof fn lemma_data_len(tables: Seq<TableState>, i: int)
    requires
        0 <= i <= tables.len(),
    ensures
        font_data(tables, i).len() % 4 == 0,
        data_offset(tables, i) == 12 + 16 * tables.len() + font_data(tables, i).len(),
    decreases i,
{
    if i > 0 {
        lemma_data_len(tables, i - 1);
    }
}

/// Among the data of all tables, a table stands behind those before it.
proof fn lemma_table_in_data(tables: Seq<TableState>, i: int)
    requires
        0 <= i < tables.len(),
    ensures
        ({
            let all = font_data(tables, tables.len() as int);
            let from = font_data(tables, i).len();
            let t = tables[i].data;
            from + t.len() <= all.len() && all.subrange(from as int, (from + t.len()) as int) == t
        }),
{
    let all = font_data(tables, tables.len() as int);
    let before = font_data(tables, i);
    let upto = font_data(tables, i + 1);
    let t = tables[i].data;
    lemma_data_prefix(tables, i + 1, tables.len() as int);
    assert(upto == before + t + zeros(padded(t.len() as int) - t.len()));
    let (from, to) = (before.len() as int, (before.len() + t.len()) as int);
    assert(all.subrange(from, to) =~= all.take(upto.len() as int).subrange(from, to));
    assert(upto.subrange(from, to) =~= t);
}

/// The directory of a font points at its tables: at each offset stand the
/// bytes of the table.
pub proof fn lemma_directory_points(flavor: int, tables: Seq<TableState>, i: int)
    requires
        0 <= i < tables.len(),
    ensures
        ({
            let f = font_file(flavor, tables);
            let o = data_offset(tables, i);
            let t = tables[i].data;
            &&& o + t.len() <= f.len()
            &&& f.subrange(o, o + t.len()) == t
            &&& o % 4 == 0
        }),
{
    let n = tables.len() as int;
    lemma_directory_len(tables, n);
    lemma_data_len(tables, i);
    lemma_table_in_data(tables, i);
    let head = font_header(flavor, n) + directory(tables, n);
    let all = font_data(tables, n);
    assert(head.len() == 12 + 16 * n);
    let from = font_data(tables, i).len() as int;
    let len = tables[i].data.len() as int;
    assert((head + all).subrange(head.len() + from, head.len() + from + len) =~= all.subrange(from, from + len));
}

proof fn lemma_data_prefix(tables: Seq<TableState>, i: int, n: int)
    requires
        0 <= i <= n <= tables.len(),
    ensures
        font_data(tables, i).len() <= font_data(tables, n).len(),
        font_data(tables, n).take(font_data(tables, i).len() as int) == font_data(tables, i),
    decreases n - i,
{
    let a = font_data(tables, i);
    if i == n {
        assert(a.take(a.len() as int) =~= a);
    } else {
        lemma_data_prefix(tables, i, n - 1);
        let b = font_data(tables, n - 1);
        let c = font_data(tables, n);
        assert(c.take(a.len() as int) =~= b.take(a.len() as int));
    }
}

pub open spec fn two(k: int) -> int
    decreases k,
{
    if k <= 0 { 1 } else { 2 * two(k - 1) }
}

proof fn lemma_power(k: int, n: int)
    requires
        0 <= k,
        two(k) <= n < 2 * two(k),
    ensures
        top_power(n) == two(k),
        log2(n) == k,
    decreases k,
{
    if k == 0 {
    } else {
        lemma_two(k - 1);
        lemma_power(k - 1, n / 2);
    }
}

proof fn lemma_two(k: int)
    ensures
        two(k) >= 1,
    decreases k,
{
    if k > 0 {
        lemma_two(k - 1);
    }
}

/// A font made of these tables.
pub fn sfnt(flavor: u32, tables: &[Table]) -> (r: Vec<u8>)
    requires
        1 <= tables@.len() < 4096,
    ensures
        r@ == font_file(flavor as int, tables_of(tables@)),
{
    let ghost all = tables_of(tables@);
    let n: usize = tables.len();
    let mut out: Vec<u8> = Vec::new();
    push_be32(&mut out, flavor);
    let n16: u16 = n as u16;
    let mut p: u16 = 1;
    let mut log: u16 = 0;
    while p * 2 <= n16
        invariant
            1 <= p <= n16 < 4096,
            p == two(log as int),
            log <= p,
        decreases n16 - p,
    {
        p = p * 2;
        log += 1;
    }
    proof {
        lemma_power(log as int, n16 as int);
        assert(out@ =~= be32_bytes(flavor as int));
    }
    push_be16(&mut out, n16);
    push_be16(&mut out, p * 16);
    push_be16(&mut out, log);
    push_be16(&mut out, n16 * 16 - p * 16);
    proof {
        assert(out@ =~= font_header(flavor as int, n as int));
    }
    let ghost head = out@;
    let mut offset: u128 = 12 + 16 * n as u128;
    let mut i: usize = 0;
    proof {
        assert(out@ =~= head + directory(all, 0));
    }
    while i < n
        invariant
            i <= n,
            n == tables@.len(),
            n < 4096,
            all == tables_of(tables@),
            out@ == head + directory(all, i as int),
            offset == data_offset(all, i as int),
            offset <= 0x2_0000 + i * 0x1_0000_0000_0000_0004,
        decreases n - i,
    {
        let t: &Table = &tables[i];
        proof {
            assert(all[i as int] == t@);
        }
        let len: u128 = t.data.len() as u128;
        push_be32(&mut out, t.tag);
        push_be32(&mut out, t.sum);
        push_be32(&mut out, (offset % 0x1_0000_0000) as u32);
        push_be32(&mut out, (len % 0x1_0000_0000) as u32);
        proof {
            assert(out@ =~= head + directory(all, i + 1));
        }
        offset = offset + (len + 3) / 4 * 4;
        i += 1;
    }
    let ghost front = out@;
    let mut j: usize = 0;
    proof {
        assert(out@ =~= front + font_data(all, 0));
    }
    while j < n
        invariant
            j <= n,
            n == tables@.len(),
            all == tables_of(tables@),
            out@ == front + font_data(all, j as int),
        decreases n - j,
    {
        let t: &Table = &tables[j];
        let ghost before = out@;
        push_bytes(&mut out, &t.data);
        let len: u128 = t.data.len() as u128;
        let missing: u128 = (len + 3) / 4 * 4 - len;
        let mut k: u128 = 0;
        proof {
            assert(out@ =~= before + t.data@ + zeros(0));
        }
        while k < missing
            invariant
                0 <= k <= missing,
                out@ == before + t.data@ + zeros(k as int),
            decreases missing - k,
        {
            proof {
                lemma_zeros(k as int);
            }
            out.push(0);
            k += 1;
            proof {
                assert(out@ =~= before + t.data@ + zeros(k as int));
            }
        }
        proof {
            assert(all[j as int] == t@);
            assert(out@ =~= front + font_data(all, j + 1));
        }
        j += 1;
    }
    proof {
        assert(out@ =~= font_file(flavor as int, all));
    }
    out
}

fn read_table(d: &[u8], i: usize) -> (r: Option<Table>)
    requires
        i < 4096,
    ensures
        match r {
            Some(t) => woff_table(d@, i as int) == Some(t@),
            None => woff_table(d@, i as int) is None,
        },
{
    let e: usize = 44 + i * 20;
    if d.len() < 20 || e > d.len() - 20 {
        return None;
    }
    let (tag, off, clen, olen, sum) = match (
        get_be32(d, e),
        get_be32(d, e + 4),
        get_be32(d, e + 8),
        get_be32(d, e + 12),
        get_be32(d, e + 16),
    ) {
        (Some(a), Some(b), Some(c), Some(o), Some(s)) => (a, b, c, o, s),
        _ => return None,
    };
    let end: u64 = off as u64 + clen as u64;
    if end > d.len() as u64 {
        return None;
    }
    let raw: Vec<u8> = sub_bytes(d, off as usize, end as usize);
    if clen < olen {
        match inflate_zlib(&raw) {
            Some(data) => Some(Table { tag, sum, data }),
            None => None,
        }
    } else {
        Some(Table { tag, sum, data: raw })
    }
}

/// WOFF 1.0 to a plain font (each table zlib-compressed or stored).
pub fn woff_to_sfnt(d: &[u8]) -> (r: Option<Vec<u8>>)
    requires
        d@.len() >= 14 ==> 1 <= be16(d@, 12) < 4096,
    ensures
        match r {
            Some(v) => unpacked(d@) == Some(v@),
            None => unpacked(d@) is None,
        },
{
    let (flavor, n) = match (get_be32(d, 4), get_be16(d, 12)) {
        (Some(f), Some(n)) => (f, n as usize),
        _ => return None,
    };
    let mut tables: Vec<Table> = Vec::new();
    let mut i: usize = 0;
    proof {
        assert(tables_of(tables@) =~= Seq::<TableState>::empty());
    }
    while i < n
        invariant
            i <= n < 4096,
            n == be16(d@, 12),
            d@.len() >= 14,
            tables@.len() == i,
            woff_tables(d@, i as int) == Some(tables_of(tables@)),
        decreases n - i,
    {
        match read_table(d, i) {
            Some(t) => {
                let ghost v0 = tables_of(tables@);
                let ghost t0 = t@;
                tables.push(t);
                proof {
                    assert(tables_of(tables@) =~= v0.push(t0));
                }
            },
            None => {
                proof {
                    lemma_missing(d@, i + 1, n as int);
                }
                return None;
            },
        }
        i += 1;
    }
    Some(sfnt(flavor, &tables))
}

proof fn lemma_missing(d: Seq<u8>, i: int, n: int)
    requires
        0 <= i <= n,
        woff_tables(d, i) is None,
    ensures
        woff_tables(d, n) is None,
    decreases n - i,
{
    if i < n {
        lemma_missing(d, i, n - 1);
    }
}

/// Whether a file is in the WOFF format.
pub open spec fn is_woff(d: Seq<u8>) -> bool {
    d.len() >= 4 && d[0] == 0x77 && d[1] == 0x4f && d[2] == 0x46 && d[3] == 0x46
}

/// The font that a page has sent, as a plain font. A WOFF file without
/// tables, or with more than a font can count, holds none.
pub open spec fn plain_bytes(d: Seq<u8>) -> Option<Seq<u8>> {
    if !is_woff(d) {
        Some(d)
    } else if d.len() >= 14 && !(1 <= be16(d, 12) < 4096) {
        None
    } else {
        unpacked(d)
    }
}

pub fn plain_font(d: Vec<u8>) -> (r: Option<Vec<u8>>)
    ensures
        match r {
            Some(v) => plain_bytes(d@) == Some(v@),
            None => plain_bytes(d@) is None,
        },
{
    if !(d.len() >= 4 && d[0] == 0x77 && d[1] == 0x4f && d[2] == 0x46 && d[3] == 0x46) {
        return Some(d);
    }
    if let Some(n) = get_be16(&d, 12) {
        if n == 0 || n >= 4096 {
            return None;
        }
    }
    woff_to_sfnt(&d)
}

// ---------------------------------------------------------------------
// Faces
// ---------------------------------------------------------------------

pub const SANS: u16 = 0;
pub const SANS_BOLD: u16 = 1;
pub const SERIF: u16 = 2;
pub const MONO: u16 = 3;

pub struct Face {
    /// Lower-case family name ("dejavu sans", "roboto"...).
    pub family: Vec<char>,
    pub bold: bool,
    pub italic: bool,
}

#[verifier::ext_equal]
pub struct FaceState {
    pub family: Seq<char>,
    pub bold: bool,
    pub italic: bool,
}

impl View for Face {
    type V = FaceState;

    open spec fn view(&self) -> FaceState {
        FaceState { family: self.family@, bold: self.bold, italic: self.italic }
    }
}

pub open spec fn faces_of(v: Seq<Face>) -> Seq<FaceState> {
    Seq::new(v.len(), |i: int| v[i]@)
}

/// What a page asks for.
#[derive(Clone, Copy)]
pub struct Style {
    pub bold: bool,
    pub italic: bool,
    pub mono: bool,
}

pub open spec fn is_quote(c: char) -> bool {
    c == '"' || c == '\''
}

pub open spec fn unquote_front(s: Seq<char>) -> Seq<char>
    decreases s.len(),
{
    if s.len() > 0 && is_quote(s[0]) { unquote_front(s.skip(1)) } else { s }
}

pub open spec fn unquote_back(s: Seq<char>) -> Seq<char>
    decreases s.len(),
{
    if s.len() > 0 && is_quote(s.last()) { unquote_back(s.drop_last()) } else { s }
}

/// A family name as it is compared: without blanks and quotes, in lower
/// case.
pub open spec fn plain_name(s: Seq<char>) -> Seq<char> {
    lower_all(unquote_back(unquote_front(trim(s))))
}

/// The built-in face that a common family name stands for.
pub open spec fn generic(name: Seq<char>, bold: bool) -> Option<u16> {
    if name == "monospace"@ || name == "ui-monospace"@ || name == "courier"@ || name == "courier new"@ || name
        == "consolas"@ || name == "menlo"@ {
        Some(MONO)
    } else if name == "serif"@ || name == "times"@ || name == "times new roman"@ || name == "georgia"@ || name
        == "ui-serif"@ {
        Some(SERIF)
    } else if name == "sans-serif"@ || name == "system-ui"@ || name == "-apple-system"@ || name == "arial"@ || name
        == "helvetica"@ || name == "helvetica neue"@ || name == "segoe ui"@ || name == "ui-sans-serif"@ || name
        == "verdana"@ {
        Some(if bold { SANS_BOLD } else { SANS })
    } else {
        None
    }
}

/// How well a face matches a style.
pub open spec fn score(f: FaceState, st: Style) -> int {
    (if f.bold == st.bold { 2int } else { 0 }) + (if f.italic == st.italic { 1int } else { 0 })
}

/// The downloaded face with a family name that matches a style best; of
/// equals the one that came last.
pub open spec fn best_face(faces: Seq<FaceState>, name: Seq<char>, st: Style, n: int) -> Option<int>
    decreases n,
{
    if n <= 4 {
        None
    } else {
        let k = best_face(faces, name, st, n - 1);
        let f = faces[n - 1];
        if f.family != name {
            k
        } else {
            match k {
                Some(j) => if score(f, st) >= score(faces[j], st) { Some(n - 1) } else { k },
                None => Some(n - 1),
            }
        }
    }
}

/// The face for one family name.
pub open spec fn face_named(faces: Seq<FaceState>, name: Seq<char>, st: Style) -> Option<u16> {
    match best_face(faces, name, st, faces.len() as int) {
        Some(i) => Some(i as u16),
        None => generic(name, st.bold),
    }
}

/// The face for the first family of a list that there is one for.
pub open spec fn first_face(faces: Seq<FaceState>, names: Seq<Seq<char>>, st: Style) -> Option<u16>
    decreases names.len(),
{
    if names.len() == 0 {
        None
    } else {
        match first_face(faces, names.drop_last(), st) {
            Some(f) => Some(f),
            None => face_named(faces, plain_name(names.last()), st),
        }
    }
}

/// The face that a font is drawn with.
pub open spec fn picked(faces: Seq<FaceState>, names: Seq<char>, st: Style) -> u16 {
    match first_face(faces, split(names, ','), st) {
        Some(f) => f,
        None => if st.mono { MONO } else if st.bold { SANS_BOLD } else { SANS },
    }
}

/// A downloaded face goes before a built-in one of the same name.
pub proof fn lemma_downloaded_first(faces: Seq<FaceState>, name: Seq<char>, st: Style, k: int)
    requires
        4 <= k < faces.len() <= 0x1_0000,
        faces[k].family == name,
    ensures
        face_named(faces, name, st) is Some,
        face_named(faces, name, st)->0 >= 4,
        face_named(faces, name, st)->0 < faces.len(),
        faces[face_named(faces, name, st)->0 as int].family == name,
        score(faces[face_named(faces, name, st)->0 as int], st) >= score(faces[k], st),
{
    lemma_best(faces, name, st, faces.len() as int);
    lemma_found(faces, name, st, k, faces.len() as int);
}

proof fn lemma_best(faces: Seq<FaceState>, name: Seq<char>, st: Style, n: int)
    requires
        n <= faces.len(),
    ensures
        best_face(faces, name, st, n) matches Some(i) ==> 4 <= i < n && faces[i].family == name && forall|k: int|
            4 <= k < n && (#[trigger] faces[k]).family == name ==> score(faces[k], st) <= score(faces[i], st),
    decreases n,
{
    if n > 4 {
        lemma_best(faces, name, st, n - 1);
        lemma_none(faces, name, st, n - 1);
    }
}

proof fn lemma_none(faces: Seq<FaceState>, name: Seq<char>, st: Style, n: int)
    requires
        n <= faces.len(),
    ensures
        best_face(faces, name, st, n) is None ==> forall|k: int| 4 <= k < n ==> (#[trigger] faces[k]).family != name,
    decreases n,
{
    if n > 4 {
        lemma_none(faces, name, st, n - 1);
    }
}

proof fn lemma_found(faces: Seq<FaceState>, name: Seq<char>, st: Style, k: int, n: int)
    requires
        4 <= k < n <= faces.len(),
        faces[k].family == name,
    ensures
        best_face(faces, name, st, n) is Some,
{
    lemma_none(faces, name, st, n);
}

/// A family name as it is compared.
pub fn family_key(s: &[char]) -> (r: Vec<char>)
    ensures
        r@ == plain_name(s@),
{
    let t: Vec<char> = trimmed(s);
    let n: usize = t.len();
    let mut from: usize = 0;
    proof {
        assert(t@.skip(0) =~= t@);
    }
    while from < n && (t[from] == '"' || t[from] == '\'')
        invariant
            from <= n,
            n == t@.len(),
            unquote_front(t@) == unquote_front(t@.skip(from as int)),
        decreases n - from,
    {
        proof {
            assert(t@.skip(from as int).skip(1) =~= t@.skip(from + 1));
        }
        from += 1;
    }
    let ghost u = t@.skip(from as int);
    let mut to: usize = n;
    proof {
        assert(unquote_front(t@) == u);
        assert(t@.subrange(from as int, n as int) =~= u);
    }
    while to > from && (t[to - 1] == '"' || t[to - 1] == '\'')
        invariant
            from <= to <= n,
            n == t@.len(),
            unquote_back(u) == unquote_back(t@.subrange(from as int, to as int)),
        decreases to,
    {
        proof {
            assert(t@.subrange(from as int, to as int).drop_last() =~= t@.subrange(from as int, to - 1));
        }
        to -= 1;
    }
    lowered(&copy_range(&t, from, to))
}

fn generic_face(name: &[char], bold: bool) -> (r: Option<u16>)
    ensures
        r == generic(name@, bold),
{
    if is_str(name, "monospace") || is_str(name, "ui-monospace") || is_str(name, "courier") || is_str(
        name,
        "courier new",
    ) || is_str(name, "consolas") || is_str(name, "menlo") {
        Some(MONO)
    } else if is_str(name, "serif") || is_str(name, "times") || is_str(name, "times new roman") || is_str(
        name,
        "georgia",
    ) || is_str(name, "ui-serif") {
        Some(SERIF)
    } else if is_str(name, "sans-serif") || is_str(name, "system-ui") || is_str(name, "-apple-system") || is_str(
        name,
        "arial",
    ) || is_str(name, "helvetica") || is_str(name, "helvetica neue") || is_str(name, "segoe ui") || is_str(
        name,
        "ui-sans-serif",
    ) || is_str(name, "verdana") {
        Some(if bold { SANS_BOLD } else { SANS })
    } else {
        None
    }
}

fn downloaded(faces: &[Face], name: &[char], st: Style) -> (r: Option<usize>)
    ensures
        match r {
            Some(i) => best_face(faces_of(faces@), name@, st, faces@.len() as int) == Some(i as int) && i < faces@.len(),
            None => best_face(faces_of(faces@), name@, st, faces@.len() as int) is None,
        },
{
    let ghost all = faces_of(faces@);
    let mut best: Option<usize> = None;
    let mut best_score: u8 = 0;
    let mut i: usize = 4;
    if faces.len() <= 4 {
        return None;
    }
    while i < faces.len()
        invariant
            4 <= i <= faces@.len(),
            all == faces_of(faces@),
            match best {
                Some(b) => best_face(all, name@, st, i as int) == Some(b as int) && b < i && best_score == score(
                    all[b as int],
                    st,
                ),
                None => best_face(all, name@, st, i as int) is None,
            },
        decreases faces@.len() - i,
    {
        let f: &Face = &faces[i];
        proof {
            assert(all[i as int] == f@);
        }
        if same(&f.family, name) {
            let s: u8 = (if f.bold == st.bold { 2u8 } else { 0u8 }) + (if f.italic == st.italic { 1u8 } else { 0u8 });
            let better: bool = match best {
                Some(_) => s >= best_score,
                None => true,
            };
            if better {
                best = Some(i);
                best_score = s;
            }
        }
        i += 1;
    }
    best
}

/// The face that a font is drawn with; `names` lists the families that the
/// page asks for.
pub fn pick(faces: &[Face], names: &[char], st: Style) -> (r: u16)
    requires
        faces@.len() <= 0x1_0000,
    ensures
        r == picked(faces_of(faces@), names@, st),
{
    let list: Vec<Vec<char>> = split_on(names, ',');
    let ghost all = views(list@);
    let mut i: usize = 0;
    proof {
        assert(all.take(0) =~= Seq::<Seq<char>>::empty());
    }
    while i < list.len()
        invariant
            i <= list@.len(),
            all == views(list@),
            all == split(names@, ','),
            faces@.len() <= 0x1_0000,
            first_face(faces_of(faces@), all.take(i as int), st) is None,
        decreases list@.len() - i,
    {
        let name: Vec<char> = family_key(&list[i]);
        proof {
            assert(all.take(i + 1).drop_last() =~= all.take(i as int));
            assert(all.take(i + 1).last() == list@[i as int]@);
        }
        let found: Option<u16> = match downloaded(faces, &name, st) {
            Some(k) => Some(k as u16),
            None => generic_face(&name, st.bold),
        };
        if let Some(f) = found {
            proof {
                lemma_first_found(faces_of(faces@), all, st, i + 1);
            }
            return f;
        }
        i += 1;
    }
    proof {
        assert(all.take(all.len() as int) =~= all);
    }
    if st.mono { MONO } else if st.bold { SANS_BOLD } else { SANS }
}

proof fn lemma_first_found(faces: Seq<FaceState>, names: Seq<Seq<char>>, st: Style, i: int)
    requires
        0 <= i <= names.len(),
        first_face(faces, names.take(i), st) is Some,
    ensures
        first_face(faces, names, st) == first_face(faces, names.take(i), st),
    decreases names.len() - i,
{
    if i < names.len() {
        assert(names.take(i + 1).drop_last() =~= names.take(i));
        lemma_first_found(faces, names, st, i + 1);
    } else {
        assert(names.take(i) =~= names);
    }
}

/// The size that a font is drawn at.
pub fn px(size: u16) -> (r: u16)
    ensures
        r == if size < 6 { 6 } else if size > 120 { 120 } else { size },
        6 <= r <= 120,
{
    if size < 6 { 6 } else if size > 120 { 120 } else { size }
}

/// A width in 1/64 of a pixel, as whole pixels.
pub fn whole_pixels(w: i32) -> (r: i64)
    ensures
        r == tdiv(w + 32, 64),
{
    div_any(w as i64 + 32, 64)
}

// ---------------------------------------------------------------------
// The fonts that there are
// ---------------------------------------------------------------------

/// A font of the `ab_glyph` crate, which keeps the bytes that it was read
/// from.
#[verifier::external_type_specification]
#[verifier::external_body]
pub struct ExFontArc(ab_glyph::FontArc);

/// The font that `ab_glyph::FontArc::try_from_vec` reads out of bytes; none
/// where it reports an error.
pub uninterp spec fn font_of(b: Seq<u8>) -> Option<ab_glyph::FontArc>;

/// Whether there is a font in bytes.
pub open spec fn is_font(b: Seq<u8>) -> bool {
    font_of(b) is Some
}

/// `FontArc::try_from_vec` of the `ab_glyph` crate: reads a TrueType or
/// OpenType font. Which font comes out, and whether it fails, depends on the
/// bytes alone.
#[verifier::external_body]
fn read_font(data: Vec<u8>) -> (r: Option<ab_glyph::FontArc>)
    ensures
        r == font_of(data@),
{
    ab_glyph::FontArc::try_from_vec(data).ok()
}

/// The fonts to draw with: the built-in ones, then those that pages brought.
pub struct Store {
    pub faces: Vec<Face>,
    /// The font of each face.
    pub fonts: Vec<ab_glyph::FontArc>,
}

/// The faces by their numbers, and the font of each.
#[verifier::ext_equal]
pub ghost struct StoreState {
    pub faces: Seq<FaceState>,
    pub fonts: Seq<ab_glyph::FontArc>,
}

impl View for Store {
    type V = StoreState;

    open spec fn view(&self) -> StoreState {
        StoreState { faces: faces_of(self.faces@), fonts: self.fonts@ }
    }
}

impl StoreState {
    /// With a font that a page has sent, if it is one.
    pub open spec fn with_font(self, family: Seq<char>, bold: bool, italic: bool, data: Seq<u8>) -> StoreState {
        match sent_font(data) {
            Some(f) => StoreState {
                faces: self.faces.push(FaceState { family: plain_name(family), bold, italic }),
                fonts: self.fonts.push(f),
            },
            None => self,
        }
    }
}

/// The font that a page has sent: TTF, OTF or WOFF 1.0.
pub open spec fn sent_font(data: Seq<u8>) -> Option<ab_glyph::FontArc> {
    match plain_bytes(data) {
        Some(b) => font_of(b),
        None => None,
    }
}

/// The built-in faces, by their numbers.
pub open spec fn built_in() -> Seq<FaceState> {
    seq![
        FaceState { family: "dejavu sans"@, bold: false, italic: false },
        FaceState { family: "dejavu sans"@, bold: true, italic: false },
        FaceState { family: "dejavu serif"@, bold: false, italic: false },
        FaceState { family: "dejavu sans mono"@, bold: false, italic: false },
    ]
}

impl Store {
    /// There is a font for every face, and there are the built-in ones.
    pub open spec fn wf(self) -> bool {
        &&& self@.fonts.len() == self@.faces.len()
        &&& self@.faces.len() >= 4
        &&& self@.faces.take(4) == built_in()
    }

    /// The built-in fonts, from their files: sans, its bold, serif and mono.
    pub fn new(sans: Vec<u8>, bold: Vec<u8>, serif: Vec<u8>, mono: Vec<u8>) -> (r: Option<Store>)
        ensures
            r is Some == (is_font(sans@) && is_font(bold@) && is_font(serif@) && is_font(mono@)),
            r matches Some(s) ==> s.wf() && s@ == (StoreState {
                faces: built_in(),
                fonts: seq![font_of(sans@)->0, font_of(bold@)->0, font_of(serif@)->0, font_of(mono@)->0],
            }),
    {
        match (read_font(sans), read_font(bold), read_font(serif), read_font(mono)) {
            (Some(a), Some(b), Some(c), Some(d)) => {
                let mut faces: Vec<Face> = Vec::new();
                faces.push(Face { family: to_chars("dejavu sans"), bold: false, italic: false });
                faces.push(Face { family: to_chars("dejavu sans"), bold: true, italic: false });
                faces.push(Face { family: to_chars("dejavu serif"), bold: false, italic: false });
                faces.push(Face { family: to_chars("dejavu sans mono"), bold: false, italic: false });
                let mut fonts: Vec<ab_glyph::FontArc> = Vec::new();
                fonts.push(a);
                fonts.push(b);
                fonts.push(c);
                fonts.push(d);
                let s = Store { faces, fonts };
                proof {
                    assert(s@.faces =~= built_in());
                    assert(s@.faces.take(4) =~= built_in());
                }
                Some(s)
            },
            _ => None,
        }
    }
}

/// Adds a font that a page has sent (TTF, OTF or WOFF 1.0); whether it is
/// one.
pub fn add_web_font(s: &mut Store, family: &str, bold: bool, italic: bool, data: Vec<u8>) -> (r: bool)
    requires
        old(s).wf(),
    ensures
        final(s).wf(),
        r == (sent_font(data@) is Some),
        final(s)@ == old(s)@.with_font(family@, bold, italic, data@),
{
    let plain: Vec<u8> = match plain_font(data) {
        Some(p) => p,
        None => {
            return false;
        },
    };
    match read_font(plain) {
        Some(font) => {
            let face = Face { family: family_key(&to_chars(family)), bold, italic };
            s.faces.push(face);
            s.fonts.push(font);
            proof {
                assert(s@ =~= old(s)@.with_font(family@, bold, italic, data@));
                assert(s@.faces.take(4) =~= old(s)@.faces.take(4));
            }
            true
        },
        None => false,
    }
}

/// The face that a character is drawn with: the one that was picked, or sans
/// where that has no glyph for it.
pub fn glyph_face(f: u16, found: bool) -> (r: u16)
    ensures
        r == if found { f } else { SANS },
{
    if found { f } else { SANS }
}

/// The face that says how wide a character is; a space is as wide as the
/// picked face has it.
pub fn width_face(f: u16, found: bool, ch: char) -> (r: u16)
    ensures
        r == if found || ch == ' ' { f } else { SANS },
{
    if found || ch == ' ' { f } else { SANS }
}

/// Whether a glyph is drawn twice, one pixel apart, for want of a bold face.
pub fn fake_bold(faces: &[Face], face: u16, bold: bool) -> (r: bool)
    requires
        face < faces@.len(),
    ensures
        r == (bold && !faces@[face as int].bold && face != SANS_BOLD),
{
    bold && !faces[face as usize].bold && face != SANS_BOLD
}

/// A page that asks for the font that it has brought, in its style, is drawn
/// with the font in the bytes that it sent, whatever other fonts there are.
pub proof fn lemma_brought_is_used(s: StoreState, family: Seq<char>, st: Style, data: Seq<u8>)
    requires
        4 <= s.faces.len() < 0x1_0000,
        s.fonts.len() == s.faces.len(),
        !family.contains(','),
        sent_font(data) is Some,
    ensures
        ({
            let t = s.with_font(family, st.bold, st.italic, data);
            &&& picked(t.faces, family, st) == s.faces.len()
            &&& Some(t.fonts[picked(t.faces, family, st) as int]) == sent_font(data)
        }),
{
    let parts = seq![family];
    lemma_split_join(parts, ',');
    assert(join(parts, ',') =~= family) by {
        assert(parts.drop_last() =~= Seq::<Seq<char>>::empty());
    }
    let all = s.with_font(family, st.bold, st.italic, data).faces;
    assert(best_face(all, plain_name(family), st, all.len() as int) == Some(s.faces.len() as int));
    assert(split(family, ',').drop_last() =~= Seq::<Seq<char>>::empty());
    assert(split(family, ',').last() == family);
    assert(first_face(all, split(family, ',').drop_last(), st) is None);
}

/// Fonts that pages bring change none of those that there are: each face keeps
/// its number and its font.
pub proof fn lemma_fonts_stay(s: StoreState, family: Seq<char>, bold: bool, italic: bool, data: Seq<u8>, i: int)
    requires
        s.fonts.len() == s.faces.len(),
        0 <= i < s.faces.len(),
    ensures
        s.with_font(family, bold, italic, data).faces[i] == s.faces[i],
        s.with_font(family, bold, italic, data).fonts[i] == s.fonts[i],
        s.with_font(family, bold, italic, data).fonts.len() == s.with_font(family, bold, italic, data).faces.len(),
{
}

} // verus!
