//! WAV (RIFF PCM) decoding into 48 kHz stereo 16-bit samples.

use crate::bytes::{get_le16, get_le32, le16, le16_bytes, le32, le32_bytes, push_le16, push_le32};
use vstd::prelude::*;

verus! {

#[derive(Clone, Copy, Debug, PartialEq, Eq, Structural)]
pub struct WavInfo {
    pub channels: u16,
    pub rate: u32,
    pub bits: u16,
}

/// What a file says of its sound, and where its samples are.
#[verifier::ext_equal]
pub struct Found {
    pub info: Option<WavInfo>,
    pub data: Option<(int, int)>,
}

pub open spec fn is_tag(b: Seq<u8>, i: int, w: u8, x: u8, y: u8, z: u8) -> bool {
    b[i] == w && b[i + 1] == x && b[i + 2] == y && b[i + 3] == z
}

pub open spec fn is_wav(b: Seq<u8>) -> bool {
    b.len() >= 12 && is_tag(b, 0, 82, 73, 70, 70) && is_tag(b, 8, 87, 65, 86, 69)
}

/// Where the body of the chunk at `i` ends.
pub open spec fn body_end(b: Seq<u8>, i: int) -> int {
    let e = i + 8 + le32(b, i + 4);
    if e < b.len() { e } else { b.len() as int }
}

/// Where the chunk after the one at `i` begins: chunks have even lengths.
pub open spec fn next_chunk(b: Seq<u8>, i: int) -> int {
    i + 8 + le32(b, i + 4) + le32(b, i + 4) % 2
}

/// What the chunks from `i` on say; none if the sound is not plain PCM.
pub open spec fn chunks(b: Seq<u8>, i: int, f: Found) -> Option<Found>
    decreases (if i < b.len() { b.len() - i } else { 0 }),
{
    if i < 0 || i + 8 > b.len() {
        Some(f)
    } else if is_tag(b, i, 102, 109, 116, 32) && body_end(b, i) - (i + 8) >= 16 {
        if le16(b, i + 8) != 1 {
            None
        } else {
            chunks(
                b,
                next_chunk(b, i),
                Found {
                    info: Some(
                        WavInfo {
                            channels: le16(b, i + 10) as u16,
                            rate: le32(b, i + 12) as u32,
                            bits: le16(b, i + 22) as u16,
                        },
                    ),
                    ..f
                },
            )
        }
    } else if is_tag(b, i, 100, 97, 116, 97) {
        chunks(b, next_chunk(b, i), Found { data: Some((i + 8, body_end(b, i))), ..f })
    } else {
        chunks(b, next_chunk(b, i), f)
    }
}

pub open spec fn supported(w: WavInfo) -> bool {
    (w.channels == 1 || w.channels == 2) && (w.bits == 8 || w.bits == 16) && w.rate != 0
}

/// A 16-bit number as a signed one.
pub open spec fn signed(v: int) -> int {
    if v < 0x8000 { v } else { v - 0x1_0000 }
}

/// Bytes in one frame: a sample of each channel.
pub open spec fn frame_bytes(w: WavInfo) -> int {
    (w.bits / 8) as int * w.channels
}

/// The sample of a channel in a frame of data that begins at `at`. A mono
/// file has the same sound on both sides.
pub open spec fn sample(b: Seq<u8>, at: int, w: WavInfo, f: int, ch: int) -> int {
    let bytes = w.bits as int / 8;
    let c = if ch < w.channels - 1 { ch } else { w.channels - 1 };
    let o = at + f * frame_bytes(w) + c * bytes;
    if bytes == 1 { (b[o] - 128) * 256 } else { signed(le16(b, o)) }
}

/// How far to go in the data for each sample that comes out, in 1/65536 of
/// a frame.
pub open spec fn step(w: WavInfo) -> int {
    w.rate as int * 65536 / 48000
}

/// A sample between two others.
pub open spec fn between(a: int, b: int, frac: int) -> int {
    a + (b - a) * frac / 65536
}

/// The sample of a channel at a place in the data, between the two frames
/// next to it; the last frame goes on for ever.
pub open spec fn resampled(b: Seq<u8>, at: int, w: WavInfo, n: int, pos: int, ch: int) -> int {
    let f = pos / 65536;
    let f1 = if f < n - 1 { f } else { n - 1 };
    let f2 = if f + 1 < n - 1 { f + 1 } else { n - 1 };
    between(sample(b, at, w, f1, ch), sample(b, at, w, f2, ch), pos % 65536)
}

pub open spec fn frames_in(w: WavInfo, data: (int, int)) -> int {
    (data.1 - data.0) / frame_bytes(w)
}

pub open spec fn frames_out(w: WavInfo, data: (int, int)) -> int {
    frames_in(w, data) * 48000 / (w.rate as int)
}

/// What a file decodes to.
pub open spec fn decoded(b: Seq<u8>, w: WavInfo, data: (int, int)) -> Seq<i16> {
    Seq::new(
        (2 * frames_out(w, data)) as nat,
        |k: int| resampled(b, data.0, w, frames_in(w, data), k / 2 * step(w), k % 2) as i16,
    )
}

proof fn lemma_between(a: int, b: int, frac: int)
    requires
        0 <= frac < 65536,
        -32768 <= a <= 32767,
        -32768 <= b <= 32767,
    ensures
        -32768 <= between(a, b, frac) <= 32767,
        a <= between(a, b, frac) <= b || b <= between(a, b, frac) <= a,
{
    let d = b - a;
    assert(if d >= 0 { 0 <= d * frac / 65536 <= d } else { d <= d * frac / 65536 <= 0 }) by (nonlinear_arith)
        requires
            0 <= frac < 65536,
    ;
}

proof fn lemma_frame_bytes(w: WavInfo)
    requires
        supported(w),
    ensures
        w.bits as int / 8 == 1 || w.bits as int / 8 == 2,
        1 <= frame_bytes(w) <= 4,
        w.channels == 1 ==> frame_bytes(w) == w.bits as int / 8,
        w.channels == 2 ==> frame_bytes(w) == 2 * (w.bits as int / 8),
{
    let (b, c) = ((w.bits / 8) as int, w.channels as int);
    assert(1 <= b * c <= 4 && (c == 1 ==> b * c == b) && (c == 2 ==> b * c == 2 * b)) by (nonlinear_arith)
        requires
            b == 1 || b == 2,
            c == 1 || c == 2,
    ;
}

proof fn lemma_sample_at(w: WavInfo, n: int, f: int, c: int, len: int)
    requires
        supported(w),
        0 <= f < n,
        n == len / frame_bytes(w),
        0 <= c < w.channels,
        len >= 0,
    ensures
        0 <= f * frame_bytes(w) + c * (w.bits as int / 8),
        f * frame_bytes(w) + c * (w.bits as int / 8) + w.bits as int / 8 <= len,
{
    lemma_frame_bytes(w);
    let fb = frame_bytes(w);
    let bytes = w.bits as int / 8;
    assert(0 <= c * bytes <= fb - bytes) by (nonlinear_arith)
        requires
            0 <= c < w.channels,
            bytes == 1 || bytes == 2,
            w.channels == 1 || w.channels == 2,
            w.channels == 1 ==> fb == bytes,
            w.channels == 2 ==> fb == 2 * bytes,
    ;
    assert((f + 1) * fb <= len) by (nonlinear_arith)
        requires
            0 <= f < n,
            n == len / fb,
            fb > 0,
            len >= 0,
    {
        assert(n * fb <= len);
        assert((f + 1) * fb <= n * fb);
    }
    assert((f + 1) * fb == f * fb + fb) by (nonlinear_arith);
    assert(f * fb >= 0) by (nonlinear_arith)
        requires
            f >= 0,
            fb > 0,
    ;
}

fn tag(b: &[u8], i: usize, w: u8, x: u8, y: u8, z: u8) -> (r: bool)
    requires
        i + 4 <= b@.len(),
    ensures
        r == is_tag(b@, i as int, w, x, y, z),
{
    b[i] == w && b[i + 1] == x && b[i + 2] == y && b[i + 3] == z
}

fn num16(b: &[u8], o: usize) -> (r: u16)
    requires
        o + 2 <= b@.len(),
    ensures
        r == le16(b@, o as int),
{
    match get_le16(b, o) {
        Some(v) => v,
        None => 0,
    }
}

fn num32(b: &[u8], o: usize) -> (r: u32)
    requires
        o + 4 <= b@.len(),
    ensures
        r == le32(b@, o as int),
{
    match get_le32(b, o) {
        Some(v) => v,
        None => 0,
    }
}

fn read_sample(b: &[u8], at: usize, len: usize, w: WavInfo, n: usize, f: usize, ch: usize) -> (r: i32)
    requires
        supported(w),
        at + len <= b@.len(),
        n == len as int / frame_bytes(w),
        f < n,
        ch < 2,
    ensures
        r == sample(b@, at as int, w, f as int, ch as int),
        -32768 <= r <= 32767,
{
    let bytes: usize = (w.bits / 8) as usize;
    let channels: usize = w.channels as usize;
    proof {
        lemma_frame_bytes(w);
        assert(bytes * channels == frame_bytes(w));
    }
    let frame: usize = bytes * channels;
    let c: usize = if ch < channels - 1 { ch } else { channels - 1 };
    proof {
        lemma_sample_at(w, n as int, f as int, c as int, len as int);
        assert(frame == frame_bytes(w));
        assert(0 <= f * frame <= f * frame + c * bytes) by (nonlinear_arith)
            requires
                f >= 0,
                frame >= 0,
                c >= 0,
                bytes >= 0,
        ;
        assert(0 <= c * bytes) by (nonlinear_arith)
            requires
                c >= 0,
                bytes >= 0,
        ;
    }
    let total: usize = b.len();
    proof {
        assert(at + (f * frame + c * bytes) <= total);
    }
    let o: usize = at + (f * frame + c * bytes);
    if bytes == 1 {
        (b[o] as i32 - 128) * 256
    } else {
        let v: u16 = num16(b, o);
        if v < 0x8000 { v as i32 } else { v as i32 - 0x1_0000 }
    }
}

fn resample(b: &[u8], at: usize, len: usize, w: WavInfo, n: usize, pos: u128, ch: usize) -> (r: i16)
    requires
        supported(w),
        at + len <= b@.len(),
        n == len as int / frame_bytes(w),
        n > 0,
        ch < 2,
    ensures
        r == resampled(b@, at as int, w, n as int, pos as int, ch as int) as i16,
        r == resampled(b@, at as int, w, n as int, pos as int, ch as int),
{
    let f: u128 = pos / 65536;
    let frac: i64 = (pos % 65536) as i64;
    let last: usize = n - 1;
    let f1: usize = if f < last as u128 { f as usize } else { last };
    let f2: usize = if f + 1 < last as u128 { (f + 1) as usize } else { last };
    let a: i64 = read_sample(b, at, len, w, n, f1, ch) as i64;
    let c: i64 = read_sample(b, at, len, w, n, f2, ch) as i64;
    let d: i64 = c - a;
    proof {
        assert(-65535 * 65535 <= d * frac <= 65535 * 65535) by (nonlinear_arith)
            requires
                -65535 <= d <= 65535,
                0 <= frac <= 65535,
        ;
        lemma_between(a as int, c as int, frac as int);
    }
    let q: i64 = crate::arith::floor_div(d * frac, 65536);
    (a + q) as i16
}

fn convert(b: &[u8], at: usize, end: usize, w: WavInfo) -> (r: Vec<i16>)
    requires
        supported(w),
        at <= end <= b@.len(),
        b@.len() * 48000 <= usize::MAX,
    ensures
        r@ == decoded(b@, w, (at as int, end as int)),
{
    let len: usize = end - at;
    proof {
        lemma_frame_bytes(w);
        assert((w.bits / 8) as int * w.channels == frame_bytes(w));
    }
    let frame: usize = (w.bits / 8) as usize * w.channels as usize;
    let n: usize = len / frame;
    proof {
        assert(0 <= n * 48000 <= usize::MAX) by {
            assert(n <= len);
        }
        assert(n as int * 48000 / (w.rate as int) <= n * 48000) by (nonlinear_arith)
            requires
                w.rate >= 1,
                n >= 0,
        ;
        assert(n as int * 48000 / (w.rate as int) >= 0) by (nonlinear_arith)
            requires
                w.rate >= 1,
                n >= 0,
        ;
    }
    let out_frames: u128 = n as u128 * 48000 / w.rate as u128;
    let st: u128 = w.rate as u128 * 65536 / 48000;
    let mut out: Vec<i16> = Vec::new();
    let mut k: u128 = 0;
    let mut pos: u128 = 0;
    let ghost want = decoded(b@, w, (at as int, end as int));
    proof {
        assert(want.len() == 2 * out_frames);
        assert(out@ =~= want.take(0));
        if n == 0 {
            assert(out_frames == 0) by (nonlinear_arith)
                requires
                    n == 0,
                    w.rate >= 1,
                    out_frames == n as int * 48000 / (w.rate as int),
            ;
        }
    }
    while k < out_frames
        invariant
            supported(w),
            at <= end <= b@.len(),
            len == end - at,
            n == len as int / frame_bytes(w),
            n == frames_in(w, (at as int, end as int)),
            out_frames == frames_out(w, (at as int, end as int)),
            out_frames > 0 ==> n > 0,
            out_frames <= usize::MAX,
            k <= out_frames,
            st == step(w),
            st <= 0x2_0000_0000,
            pos == k * st,
            pos <= k * 0x2_0000_0000,
            want == decoded(b@, w, (at as int, end as int)),
            out@ == want.take(2 * k as int),
        decreases out_frames - k,
    {
        let l: i16 = resample(b, at, len, w, n, pos, 0);
        let r: i16 = resample(b, at, len, w, n, pos, 1);
        proof {
            assert((2 * k) / 2 * step(w) == pos && (2 * k + 1) / 2 * step(w) == pos) by {
                assert((2 * k) / 2 == k && (2 * k + 1) / 2 == k);
            }
            assert(want[2 * k as int] == l);
            assert(want[2 * k + 1] == r);
        }
        out.push(l);
        out.push(r);
        proof {
            assert((k + 1) * st == k * st + st) by (nonlinear_arith);
        }
        pos = pos + st;
        k = k + 1;
        proof {
            assert(out@ =~= want.take(2 * k as int));
        }
    }
    proof {
        assert(want.take(want.len() as int) =~= want);
    }
    out
}

/// Why a file cannot be decoded; none if it can.
pub open spec fn fault(b: Seq<u8>) -> Option<Seq<char>> {
    if !is_wav(b) {
        Some("not a WAV file"@)
    } else {
        match chunks(b, 12, Found { info: None, data: None }) {
            None => Some("only uncompressed PCM WAV files are supported"@),
            Some(f) => if f.info is None {
                Some("missing fmt chunk"@)
            } else if f.data is None {
                Some("missing data chunk"@)
            } else if !supported(f.info->0) {
                Some("unsupported WAV format (need 8/16-bit mono or stereo)"@)
            } else {
                None
            },
        }
    }
}

/// What a file holds that can be decoded.
pub open spec fn contents(b: Seq<u8>) -> (WavInfo, Seq<i16>) {
    let f = chunks(b, 12, Found { info: None, data: None })->0;
    (f.info->0, decoded(b, f.info->0, f.data->0))
}

/// Decode a PCM WAV file (8/16-bit, mono/stereo, any rate).
pub fn decode(b: &[u8]) -> (r: Result<(WavInfo, Vec<i16>), &'static str>)
    requires
        b@.len() * 48000 <= usize::MAX,
    ensures
        match r {
            Ok(p) => fault(b@) is None && (p.0, p.1@) == contents(b@),
            Err(e) => fault(b@) == Some(e@),
        },
{
    let n: usize = b.len();
    if n < 12 || !tag(b, 0, 82, 73, 70, 70) || !tag(b, 8, 87, 65, 86, 69) {
        return Err("not a WAV file");
    }
    let mut info: Option<WavInfo> = None;
    let mut data: Option<(usize, usize)> = None;
    let mut i: u64 = 12;
    let ghost start = Found { info: None, data: None };
    while i + 8 <= n as u64
        invariant
            n == b@.len(),
            12 <= i <= n + 0x1_0000_0010,
            n * 48000 <= usize::MAX,
            is_wav(b@),
            start == (Found { info: None, data: None }),
            data matches Some(d) ==> d.0 <= d.1 <= n,
            chunks(b@, 12, start) == chunks(
                b@,
                i as int,
                Found {
                    info,
                    data: match data {
                        Some(d) => Some((d.0 as int, d.1 as int)),
                        None => None,
                    },
                },
            ),
        decreases n + 0x1_0000_0010 - i,
    {
        let at: usize = i as usize;
        let len: u64 = num32(b, at + 4) as u64;
        let e: u64 = i + 8 + len;
        let end: usize = if e < n as u64 { e as usize } else { n };
        if tag(b, at, 102, 109, 116, 32) && end - (at + 8) >= 16 {
            if num16(b, at + 8) != 1 {
                return Err("only uncompressed PCM WAV files are supported");
            }
            info = Some(
                WavInfo { channels: num16(b, at + 10), rate: num32(b, at + 12), bits: num16(b, at + 22) },
            );
        } else if tag(b, at, 100, 97, 116, 97) {
            data = Some((at + 8, end));
        }
        i = i + 8 + len + len % 2;
    }
    let w: WavInfo = match info {
        Some(w) => w,
        None => return Err("missing fmt chunk"),
    };
    let d: (usize, usize) = match data {
        Some(d) => d,
        None => return Err("missing data chunk"),
    };
    if !(w.channels == 1 || w.channels == 2) || !(w.bits == 8 || w.bits == 16) || w.rate == 0 {
        return Err("unsupported WAV format (need 8/16-bit mono or stereo)");
    }
    Ok((w, convert(b, d.0, d.1, w)))
}

// ---------------------------------------------------------------------
// Encoding
// ---------------------------------------------------------------------

/// A sample as two bytes.
pub open spec fn sample_bytes(v: i16) -> Seq<u8> {
    le16_bytes(if v >= 0 { v as int } else { v + 0x1_0000 })
}

pub open spec fn all_bytes(s: Seq<i16>) -> Seq<u8>
    decreases s.len(),
{
    if s.len() == 0 { Seq::empty() } else { all_bytes(s.drop_last()) + sample_bytes(s.last()) }
}

/// The header of a file with so many bytes of samples.
pub open spec fn header(n: int) -> Seq<u8> {
    seq![82u8, 73, 70, 70] + le32_bytes(36 + n) + seq![87u8, 65, 86, 69, 102, 109, 116, 32] + le32_bytes(16) + le16_bytes(
        1,
    ) + le16_bytes(2) + le32_bytes(48000) + le32_bytes(192000) + le16_bytes(4) + le16_bytes(16) + seq![
        100u8,
        97,
        116,
        97,
    ] + le32_bytes(n)
}

/// A WAV file with these samples.
pub open spec fn encoded(s: Seq<i16>) -> Seq<u8> {
    header(2 * s.len() as int) + all_bytes(s)
}

fn push_tag(v: &mut Vec<u8>, a: u8, b: u8, c: u8, d: u8)
    ensures
        final(v)@ == old(v)@ + seq![a, b, c, d],
{
    v.push(a);
    v.push(b);
    v.push(c);
    v.push(d);
    proof {
        assert(v@ =~= old(v)@ + seq![a, b, c, d]);
    }
}

/// Encode 48 kHz stereo samples as a 16-bit WAV file.
pub fn encode(samples: &[i16]) -> (r: Vec<u8>)
    requires
        2 * samples@.len() + 36 <= u32::MAX,
    ensures
        r@ == encoded(samples@),
{
    let n: u32 = 2 * samples.len() as u32;
    let mut v: Vec<u8> = Vec::new();
    push_tag(&mut v, 82, 73, 70, 70);
    push_le32(&mut v, 36 + n);
    push_tag(&mut v, 87, 65, 86, 69);
    push_tag(&mut v, 102, 109, 116, 32);
    push_le32(&mut v, 16);
    push_le16(&mut v, 1);
    push_le16(&mut v, 2);
    push_le32(&mut v, 48000);
    push_le32(&mut v, 192000);
    push_le16(&mut v, 4);
    push_le16(&mut v, 16);
    push_tag(&mut v, 100, 97, 116, 97);
    push_le32(&mut v, n);
    proof {
        assert(v@ =~= header(n as int));
    }
    let ghost head = v@;
    let mut i: usize = 0;
    proof {
        assert(v@ =~= head + all_bytes(samples@.take(0)));
    }
    while i < samples.len()
        invariant
            i <= samples@.len(),
            v@ == head + all_bytes(samples@.take(i as int)),
        decreases samples@.len() - i,
    {
        let s: i16 = samples[i];
        push_le16(&mut v, if s >= 0 { s as u16 } else { (s as i32 + 0x1_0000) as u16 });
        proof {
            assert(samples@.take(i + 1).drop_last() =~= samples@.take(i as int));
            assert(v@ =~= head + all_bytes(samples@.take(i + 1)));
        }
        i += 1;
    }
    proof {
        assert(samples@.take(samples@.len() as int) =~= samples@);
    }
    v
}

proof fn lemma_all_bytes(s: Seq<i16>, k: int)
    requires
        0 <= k < s.len(),
    ensures
        all_bytes(s).len() == 2 * s.len(),
        le16(all_bytes(s), 2 * k) == if s[k] >= 0 { s[k] as int } else { s[k] + 0x1_0000 },
    decreases s.len(),
{
    let d = s.drop_last();
    lemma_all_len(d);
    let v = if s.last() >= 0 { s.last() as int } else { s.last() + 0x1_0000 };
    assert(all_bytes(s) == all_bytes(d) + le16_bytes(v));
    crate::bytes::lemma_le16_back(v);
    if k < s.len() - 1 {
        lemma_all_bytes(d, k);
        assert(all_bytes(s)[2 * k] == all_bytes(d)[2 * k]);
        assert(all_bytes(s)[2 * k + 1] == all_bytes(d)[2 * k + 1]);
    } else {
        assert(all_bytes(s)[2 * k] == le16_bytes(v)[0]);
        assert(all_bytes(s)[2 * k + 1] == le16_bytes(v)[1]);
    }
}

proof fn lemma_all_len(s: Seq<i16>)
    ensures
        all_bytes(s).len() == 2 * s.len(),
    decreases s.len(),
{
    if s.len() > 0 {
        lemma_all_len(s.drop_last());
    }
}

proof fn lemma_header(n: int)
    requires
        0 <= n,
        36 + n <= u32::MAX,
    ensures
        ({
            let h = header(n);
            &&& h.len() == 44
            &&& is_tag(h, 0, 82, 73, 70, 70)
            &&& is_tag(h, 8, 87, 65, 86, 69)
            &&& is_tag(h, 12, 102, 109, 116, 32)
            &&& le32(h, 16) == 16
            &&& le16(h, 20) == 1
            &&& le16(h, 22) == 2
            &&& le32(h, 24) == 48000
            &&& le16(h, 34) == 16
            &&& is_tag(h, 36, 100, 97, 116, 97)
            &&& le32(h, 40) == n
        }),
{
    let h = header(n);
    let l = le32_bytes(n);
    crate::bytes::lemma_le32_back(n);
    assert(h.len() == 44);
    assert(h[40] == l[0] && h[41] == l[1] && h[42] == l[2] && h[43] == l[3]);
}

/// The chunks of an encoded file.
proof fn lemma_encoded_chunks(s: Seq<i16>)
    requires
        2 * s.len() + 36 <= u32::MAX,
    ensures
        encoded(s).len() == 44 + 2 * s.len(),
        is_wav(encoded(s)),
        chunks(encoded(s), 12, Found { info: None, data: None }) == Some(
            Found {
                info: Some(WavInfo { channels: 2, rate: 48000, bits: 16 }),
                data: Some((44, encoded(s).len() as int)),
            },
        ),
{
    let n = 2 * s.len() as int;
    let b = encoded(s);
    let h = header(n);
    lemma_all_len(s);
    lemma_header(n);
    assert forall|i: int| 0 <= i < 44 implies b[i] == h[i] by {}
    let w = WavInfo { channels: 2, rate: 48000, bits: 16 };
    let f0 = Found { info: None, data: None };
    let f1 = Found { info: Some(w), data: None };
    let f2 = Found { info: Some(w), data: Some((44, b.len() as int)) };
    assert(le32(b, 16) == 16 && le16(b, 20) == 1 && le16(b, 22) == 2 && le32(b, 24) == 48000 && le16(b, 34) == 16);
    assert(next_chunk(b, 12) == 36);
    assert(chunks(b, 12, f0) == chunks(b, 36, f1));
    assert(le32(b, 40) == n);
    assert(body_end(b, 36) == b.len());
    assert(chunks(b, 36, f1) == chunks(b, next_chunk(b, 36), f2));
    assert(chunks(b, next_chunk(b, 36), f2) == Some(f2));
}

/// What was encoded is decoded again as it was.
pub proof fn lemma_decode_encoded(s: Seq<i16>)
    requires
        s.len() % 2 == 0,
        2 * s.len() + 36 <= u32::MAX,
    ensures
        fault(encoded(s)) is None,
        contents(encoded(s)) == (WavInfo { channels: 2, rate: 48000, bits: 16 }, s),
{
    let b = encoded(s);
    lemma_encoded_chunks(s);
    let w = WavInfo { channels: 2, rate: 48000, bits: 16 };
    assert forall|k: int| 0 <= k < s.len() implies #[trigger] resampled(
        b,
        44,
        w,
        s.len() as int / 2,
        k / 2 * 65536,
        k % 2,
    ) == s[k] by {
        lemma_sample_back(s, k);
    }
    lemma_frames(b, s);
}

/// Data at 48 kHz comes out as it is.
proof fn lemma_frames(b: Seq<u8>, s: Seq<i16>)
    requires
        b.len() == 44 + 2 * s.len(),
        s.len() % 2 == 0,
        forall|k: int|
            0 <= k < s.len() ==> #[trigger] resampled(
                b,
                44,
                WavInfo { channels: 2, rate: 48000, bits: 16 },
                s.len() as int / 2,
                k / 2 * 65536,
                k % 2,
            ) == s[k],
    ensures
        decoded(b, WavInfo { channels: 2, rate: 48000, bits: 16 }, (44, b.len() as int)) == s,
{
    let w = WavInfo { channels: 2, rate: 48000, bits: 16 };
    let d = (44int, b.len() as int);
    lemma_frame_bytes(w);
    let (fb, l) = (frame_bytes(w), s.len() as int);
    assert(fb == 4);
    assert((2 * l) / fb == l / 2) by (nonlinear_arith)
        requires
            fb == 4,
    ;
    assert(frames_in(w, d) == l / 2);
    assert(frames_out(w, d) == s.len() / 2);
    assert(step(w) == 65536);
    let out = decoded(b, w, d);
    assert forall|k: int| 0 <= k < s.len() implies out[k] == s[k] by {
        assert(resampled(b, 44, w, s.len() as int / 2, k / 2 * 65536, k % 2) == s[k]);
    }
    assert(out =~= s);
}

proof fn lemma_sample_back(s: Seq<i16>, k: int)
    requires
        0 <= k < s.len(),
        s.len() % 2 == 0,
        2 * s.len() + 36 <= u32::MAX,
    ensures
        resampled(
            encoded(s),
            44,
            WavInfo { channels: 2, rate: 48000, bits: 16 },
            s.len() as int / 2,
            k / 2 * 65536,
            k % 2,
        ) == s[k],
{
    let b = encoded(s);
    let w = WavInfo { channels: 2, rate: 48000, bits: 16 };
    let n = s.len() as int / 2;
    let (f, ch) = (k / 2, k % 2);
    lemma_header(2 * s.len() as int);
    lemma_all_bytes(s, k);
    lemma_frame_bytes(w);
    assert(f * 65536 / 65536 == f && f * 65536 % 65536 == 0);
    let a = sample(b, 44, w, f, ch);
    let f2 = if f + 1 < n - 1 { f + 1 } else { n - 1 };
    let c = sample(b, 44, w, f2, ch);
    assert((c - a) * 0 == 0);
    assert(between(a, c, 0) == a);
    let o = 44 + 2 * k;
    assert(44 + f * 4 + ch * 2 == o);
    assert(b[o] == all_bytes(s)[2 * k]);
    assert(b[o + 1] == all_bytes(s)[2 * k + 1]);
    assert(a == signed(le16(b, o)));
}

/// A sound of one channel is heard alike on both sides.
pub proof fn lemma_mono_on_both_sides(b: Seq<u8>, w: WavInfo, data: (int, int), k: int)
    requires
        w.channels == 1,
        0 <= k < frames_out(w, data),
    ensures
        decoded(b, w, data)[2 * k] == decoded(b, w, data)[2 * k + 1],
{
    assert((2 * k) / 2 == k && (2 * k + 1) / 2 == k);
}

/// A sound lasts as long as it did, to less than a frame, whatever its rate;
/// and what is heard at a time is what was there at that time.
pub proof fn lemma_duration_kept(w: WavInfo, data: (int, int), k: int)
    requires
        w.rate > 0,
        frames_in(w, data) >= 0,
        k >= 0,
    ensures
        frames_out(w, data) * w.rate <= frames_in(w, data) * 48000 < (frames_out(w, data) + 1) * w.rate,
        k * step(w) * 48000 <= k * w.rate * 65536,
        k * w.rate * 65536 <= k * (step(w) + 1) * 48000,
        w.rate == 48000 ==> k * step(w) / 65536 == k && k * step(w) % 65536 == 0 && frames_out(w, data) == frames_in(
            w,
            data,
        ),
{
    let n = frames_in(w, data) * 48000;
    let r = w.rate as int;
    assert((n / r) * r <= n < (n / r + 1) * r) by (nonlinear_arith)
        requires
            r > 0,
    ;
    let st = step(w);
    assert(st * 48000 <= r * 65536 <= (st + 1) * 48000);
    assert(k * st * 48000 <= k * r * 65536) by (nonlinear_arith)
        requires
            st * 48000 <= r * 65536,
            k >= 0,
    ;
    assert(k * r * 65536 <= k * (st + 1) * 48000) by (nonlinear_arith)
        requires
            r * 65536 <= (st + 1) * 48000,
            k >= 0,
    ;
    if w.rate == 48000 {
        let f = frames_in(w, data);
        assert(f * 48000 / 48000 == f) by (nonlinear_arith);
        assert(st == 65536);
        assert(k * 65536 / 65536 == k && k * 65536 % 65536 == 0);
    }
}

/// What comes out lies between the two samples next to it, and is the sample
/// itself where it falls on one.
pub proof fn lemma_between_neighbours(a: int, b: int, frac: int)
    requires
        0 <= frac < 65536,
        -32768 <= a <= 32767,
        -32768 <= b <= 32767,
    ensures
        a <= between(a, b, frac) <= b || b <= between(a, b, frac) <= a,
        between(a, b, 0) == a,
        between(a, a, frac) == a,
{
    lemma_between(a, b, frac);
    assert((b - a) * 0 / 65536 == 0) by (nonlinear_arith);
    assert((a - a) * frac / 65536 == 0) by (nonlinear_arith);
}

/// Eight bits are spread over the range of sixteen: 128 is silence, and a
/// greater byte is a greater sample.
pub proof fn lemma_eight_bits(b: Seq<u8>, at: int, w: WavInfo, f: int, g: int)
    requires
        w.bits == 8,
        w.channels == 1,
    ensures
        -32768 <= sample(b, at, w, f, 0) <= 32767,
        b[at + f] == 128 ==> sample(b, at, w, f, 0) == 0,
        b[at + f] < b[at + g] ==> sample(b, at, w, f, 0) < sample(b, at, w, g, 0),
{
    assert(frame_bytes(w) == 1);
}

} // verus!
