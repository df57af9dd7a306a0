//! Synthesised system sounds (48 kHz stereo).
//!
//! The sine table comes from the caller: 1024 entries scaled to +-32767.

use crate::arith::{clamp, clamp_i64, div, max, min, tdiv};
use vstd::prelude::*;

verus! {

pub const TABLE: usize = 1024;

/// Samples in 5 ms, over which a note comes in.
pub const ATTACK: u64 = 240;

/// A note: frequency in Hz, start and length in ms, amplitude 0..=1000,
/// pan -100 (left) ..= 100 (right).
#[derive(Clone, Copy, Debug, PartialEq, Eq, Structural)]
pub struct Note {
    pub freq: u32,
    pub start_ms: u32,
    pub len_ms: u32,
    pub amp: i32,
    pub pan: i32,
}

impl Note {
    pub open spec fn wf(self) -> bool {
        &&& self.start_ms + self.len_ms <= 80_000
        &&& 0 <= self.amp <= 1000
        &&& -100 <= self.pan <= 100
    }

    /// First frame of the note, and how many there are.
    pub open spec fn start(self) -> int {
        self.start_ms * 48
    }

    pub open spec fn len(self) -> int {
        self.len_ms * 48
    }

    /// How far to go in the table for each frame, in 1/2^32 of an entry.
    pub open spec fn pitch(self) -> int {
        self.freq * 0x1_0000_0000 / 48000 * 1024
    }

    /// How loud the note is in its `i`th frame, of 1000: fast attack,
    /// quadratic decay.
    pub open spec fn envelope(self, i: int) -> int {
        if i < ATTACK {
            i * 1000 / (ATTACK as int)
        } else {
            let rem = (self.len() - i) * 1000 / self.len();
            rem * rem / 1000
        }
    }

    /// The wave in the `i`th frame, with a quiet octave overtone for a
    /// bell-like timbre.
    pub open spec fn wave(self, table: Seq<i16>, i: int) -> int {
        let phase = (i * self.pitch()) % 0x1_0000_0000_0000_0000;
        tdiv(
            table[phase / 0x1_0000_0000 % 1024] * 3 + table[phase / 0x8000_0000 % 1024],
            4,
        )
    }

    /// What the note adds to a channel (0: left, 1: right) in its `i`th
    /// frame.
    pub open spec fn adds(self, table: Seq<i16>, i: int, ch: int) -> int {
        if 0 <= i < self.len() {
            let v = tdiv(tdiv(self.wave(table, i) * self.envelope(i), 1000) * self.amp, 1000);
            let side = min(if ch == 0 { 100 - self.pan } else { 100 + self.pan }, 100);
            tdiv(v * side, 100)
        } else {
            0
        }
    }
}

pub open spec fn end_of(notes: Seq<Note>) -> int
    decreases notes.len(),
{
    if notes.len() == 0 {
        0
    } else {
        max(end_of(notes.drop_last()), notes.last().start() + notes.last().len())
    }
}

/// What all notes add to a channel in a frame.
pub open spec fn sum(notes: Seq<Note>, table: Seq<i16>, f: int, ch: int) -> int
    decreases notes.len(),
{
    if notes.len() == 0 {
        0
    } else {
        sum(notes.drop_last(), table, f, ch) + notes.last().adds(table, f - notes.last().start(), ch)
    }
}

/// The samples of some notes played together.
pub open spec fn rendered(notes: Seq<Note>, table: Seq<i16>) -> Seq<i16> {
    Seq::new((2 * end_of(notes)) as nat, |k: int| clamp(sum(notes, table, k / 2, k % 2), -32767, 32767) as i16)
}

/// A note that is panned hard to one side is not heard on the other.
pub proof fn lemma_hard_pan(n: Note, table: Seq<i16>, i: int)
    ensures
        n.pan == -100 ==> n.adds(table, i, 1) == 0,
        n.pan == 100 ==> n.adds(table, i, 0) == 0,
{
    if 0 <= i < n.len() {
        let v = tdiv(tdiv(n.wave(table, i) * n.envelope(i), 1000) * n.amp, 1000);
        assert(v * 0 == 0);
    }
}

/// A note in the middle is as loud on both sides; one that is as far to the
/// other side is heard there as this one here.
pub proof fn lemma_pan_mirrored(n: Note, table: Seq<i16>, i: int)
    requires
        n.wf(),
    ensures
        n.adds(table, i, 0) == (Note { pan: (-n.pan) as i32, ..n }).adds(table, i, 1),
        n.adds(table, i, 1) == (Note { pan: (-n.pan) as i32, ..n }).adds(table, i, 0),
        n.pan == 0 ==> n.adds(table, i, 0) == n.adds(table, i, 1),
        i < 0 || i >= n.len() ==> n.adds(table, i, 0) == 0 && n.adds(table, i, 1) == 0,
{
    let m = Note { pan: (-n.pan) as i32, ..n };
    assert(m.wave(table, i) == n.wave(table, i) && m.envelope(i) == n.envelope(i));
}

/// A note dies away: after its attack it is never louder than before.
pub proof fn lemma_dies_away(n: Note, i: int, j: int)
    requires
        ATTACK <= i <= j < n.len(),
    ensures
        n.envelope(j) <= n.envelope(i) <= 1000,
        n.envelope(0) == 0,
{
    let l = n.len();
    let a = (l - i) * 1000 / l;
    let b = (l - j) * 1000 / l;
    assert(0 <= b <= a <= 1000 && b * b / 1000 <= a * a / 1000 && a * a / 1000 <= 1000) by (nonlinear_arith)
        requires
            l > 0,
            0 <= i <= j < l,
            a == (l - i) * 1000 / l,
            b == (l - j) * 1000 / l,
    {
        assert((l - j) * 1000 <= (l - i) * 1000);
        assert((l - j) * 1000 / l <= (l - i) * 1000 / l);
        assert((l - i) * 1000 <= 1000 * l);
        assert(1000 * l / l == 1000);
        assert((l - i) * 1000 / l <= 1000 * l / l);
        assert(b * b <= a * a);
        assert(a * a <= 1000 * 1000);
    }
}

/// Notes that are played together last until the last of them ends.
pub proof fn lemma_all_heard(notes: Seq<Note>, i: int)
    requires
        0 <= i < notes.len(),
    ensures
        notes[i].start() + notes[i].len() <= end_of(notes),
        exists|k: int| 0 <= k < notes.len() && (#[trigger] notes[k]).start() + notes[k].len() == end_of(notes) || end_of(notes)
            == 0,
    decreases notes.len(),
{
    let d = notes.drop_last();
    let n = notes.len() - 1;
    assert(notes[n] == notes.last());
    if d.len() > 0 {
        lemma_all_heard(d, if i < n { i } else { 0 });
        assert(i < n ==> d[i] == notes[i]);
        if end_of(notes) == end_of(d) && end_of(d) != 0 {
            let k = choose|k: int| 0 <= k < d.len() && (#[trigger] d[k]).start() + d[k].len() == end_of(d);
            assert(notes[k] == d[k]);
        }
    } else {
        assert(end_of(d) == 0);
    }
}

proof fn lemma_envelope(n: Note, i: int)
    requires
        0 <= i < n.len(),
    ensures
        0 <= n.envelope(i) <= 1000,
        i >= ATTACK ==> 0 <= (n.len() - i) * 1000 / n.len() <= 1000,
{
    if i >= ATTACK {
        let (a, l) = (n.len() - i, n.len());
        assert(0 <= a * 1000 / l <= 1000) by (nonlinear_arith)
            requires
                0 <= a <= l,
                l > 0,
        ;
        let rem = a * 1000 / l;
        assert(0 <= rem * rem <= 1_000_000) by (nonlinear_arith)
            requires
                0 <= rem <= 1000,
        ;
    }
}

/// The product of two bounded numbers.
proof fn lemma_product(a: int, b: int, m: int, n: int)
    requires
        -m <= a <= m,
        -n <= b <= n,
    ensures
        -m * n <= a * b <= m * n,
{
    assert(-m * n <= a * b <= m * n) by (nonlinear_arith)
        requires
            -m <= a <= m,
            -n <= b <= n,
    ;
}

proof fn lemma_smaller(a: int, b: int, m: int)
    requires
        b > 0,
        -m * b <= a <= m * b,
        m >= 0,
    ensures
        -m <= tdiv(a, b) <= m,
{
    assert(-m * b == -(m * b)) by (nonlinear_arith);
    assert(-m <= tdiv(a, b) <= m) by {
        if a >= 0 {
            assert(a / b <= m) by (nonlinear_arith)
                requires
                    0 <= a <= m * b,
                    b > 0,
            ;
        } else {
            assert(-a / b <= m) by (nonlinear_arith)
                requires
                    0 <= -a <= m * b,
                    b > 0,
            ;
        }
    }
}

impl Note {
    fn sound(&self, table: &[i16], i: u64) -> (r: (i64, i64))
        requires
            self.wf(),
            table@.len() == TABLE,
            i < self.len(),
        ensures
            r.0 == self.adds(table@, i as int, 0),
            r.1 == self.adds(table@, i as int, 1),
            -32768 <= r.0 <= 32768,
            -32768 <= r.1 <= 32768,
    {
        let len: i64 = self.len_ms as i64 * 48;
        proof {
            lemma_envelope(*self, i as int);
        }
        let env: i64 = if i < ATTACK {
            (i * 1000 / ATTACK) as i64
        } else {
            let rem: i64 = (len - i as i64) * 1000 / len;
            proof {
                assert(rem * rem <= 1_000_000) by (nonlinear_arith)
                    requires
                        0 <= rem <= 1000,
                ;
            }
            rem * rem / 1000
        };
        let pitch: u64 = (self.freq as u64 * 0x1_0000_0000) / 48000 * 1024;
        let phase: u64 = pitch.wrapping_mul(i);
        proof {
            assert(pitch == self.pitch());
            assert(pitch as int * i as int == i as int * pitch as int) by (nonlinear_arith);
            assert(phase == (i * self.pitch()) % 0x1_0000_0000_0000_0000);
        }
        let a: usize = (phase / 0x1_0000_0000 % 1024) as usize;
        let b: usize = (phase / 0x8000_0000 % 1024) as usize;
        let s: i64 = div(table[a] as i64 * 3 + table[b] as i64, 4);
        proof {
            lemma_smaller(table@[a as int] * 3 + table@[b as int], 4, 32768);
            lemma_product(s as int, env as int, 32768, 1000);
            lemma_smaller(s * env, 1000, 32768);
        }
        let e: i64 = div(s * env, 1000);
        let amp: i64 = self.amp as i64;
        proof {
            lemma_product(e as int, amp as int, 32768, 1000);
            lemma_smaller(e * amp, 1000, 32768);
        }
        let v: i64 = div(e * amp, 1000);
        let pan: i64 = self.pan as i64;
        let left: i64 = if 100 - pan < 100 { 100 - pan } else { 100 };
        let right: i64 = if 100 + pan < 100 { 100 + pan } else { 100 };
        proof {
            lemma_product(v as int, left as int, 32768, 100);
            lemma_product(v as int, right as int, 32768, 100);
            lemma_smaller(v * left, 100, 32768);
            lemma_smaller(v * right, 100, 32768);
        }
        (div(v * left, 100), div(v * right, 100))
    }
}

fn frame(notes: &[Note], table: &[i16], f: u64) -> (r: (i16, i16))
    requires
        table@.len() == TABLE,
        forall|i: int| 0 <= i < notes@.len() ==> (#[trigger] notes@[i]).wf(),
        notes@.len() <= 0xffff,
        f < 0x1_0000_0000,
    ensures
        r.0 == clamp(sum(notes@, table@, f as int, 0), -32767, 32767) as i16,
        r.1 == clamp(sum(notes@, table@, f as int, 1), -32767, 32767) as i16,
{
    let mut l: i64 = 0;
    let mut r: i64 = 0;
    let mut k: usize = 0;
    proof {
        assert(notes@.take(0) =~= Seq::<Note>::empty());
    }
    while k < notes.len()
        invariant
            table@.len() == TABLE,
            forall|i: int| 0 <= i < notes@.len() ==> (#[trigger] notes@[i]).wf(),
            notes@.len() <= 0xffff,
            f < 0x1_0000_0000,
            k <= notes@.len(),
            l == sum(notes@.take(k as int), table@, f as int, 0),
            r == sum(notes@.take(k as int), table@, f as int, 1),
            -32768 * k <= l <= 32768 * k,
            -32768 * k <= r <= 32768 * k,
        decreases notes@.len() - k,
    {
        let n: Note = notes[k];
        proof {
            assert(notes@.take(k + 1).drop_last() =~= notes@.take(k as int));
            assert(notes@[k as int].wf());
        }
        let start: u64 = n.start_ms as u64 * 48;
        let len: u64 = n.len_ms as u64 * 48;
        if f >= start && f - start < len {
            let (a, b) = n.sound(table, f - start);
            l += a;
            r += b;
        }
        k += 1;
    }
    proof {
        assert(notes@.take(notes@.len() as int) =~= notes@);
    }
    (clamp_i64(l, -32767, 32767) as i16, clamp_i64(r, -32767, 32767) as i16)
}

/// The samples of some notes played together.
pub fn render(notes: &[Note], table: &[i16]) -> (r: Vec<i16>)
    requires
        table@.len() == TABLE,
        forall|i: int| 0 <= i < notes@.len() ==> (#[trigger] notes@[i]).wf(),
        notes@.len() <= 0xffff,
    ensures
        r@ == rendered(notes@, table@),
{
    let mut end: u64 = 0;
    let mut k: usize = 0;
    proof {
        assert(notes@.take(0) =~= Seq::<Note>::empty());
    }
    while k < notes.len()
        invariant
            forall|i: int| 0 <= i < notes@.len() ==> (#[trigger] notes@[i]).wf(),
            k <= notes@.len(),
            end == end_of(notes@.take(k as int)),
            end <= 80_000 * 48,
        decreases notes@.len() - k,
    {
        let n: Note = notes[k];
        proof {
            assert(notes@.take(k + 1).drop_last() =~= notes@.take(k as int));
            assert(notes@[k as int].wf());
        }
        let e: u64 = n.start_ms as u64 * 48 + n.len_ms as u64 * 48;
        if e > end {
            end = e;
        }
        k += 1;
    }
    proof {
        assert(notes@.take(notes@.len() as int) =~= notes@);
    }
    let ghost want = rendered(notes@, table@);
    let mut out: Vec<i16> = Vec::new();
    let mut f: u64 = 0;
    proof {
        assert(out@ =~= want.take(0));
    }
    while f < end
        invariant
            table@.len() == TABLE,
            forall|i: int| 0 <= i < notes@.len() ==> (#[trigger] notes@[i]).wf(),
            notes@.len() <= 0xffff,
            end == end_of(notes@),
            end <= 80_000 * 48,
            f <= end,
            want == rendered(notes@, table@),
            out@ == want.take(2 * f as int),
        decreases end - f,
    {
        let (l, r) = frame(notes, table, f);
        proof {
            assert((2 * f) / 2 == f && (2 * f) % 2 == 0);
            assert((2 * f + 1) / 2 == f && (2 * f + 1) % 2 == 1);
            assert(want[2 * f as int] == l);
            assert(want[2 * f + 1] == r);
        }
        out.push(l);
        out.push(r);
        f += 1;
        proof {
            assert(out@ =~= want.take(2 * f as int));
        }
    }
    proof {
        assert(want.take(want.len() as int) =~= want);
    }
    out
}

/// C major arpeggio: C5 E5 G5 C6.
pub open spec fn startup_notes() -> Seq<Note> {
    seq![
        Note { freq: 523, start_ms: 0, len_ms: 900, amp: 380, pan: -30i32 },
        Note { freq: 659, start_ms: 120, len_ms: 900, amp: 340, pan: -10i32 },
        Note { freq: 784, start_ms: 240, len_ms: 900, amp: 320, pan: 10 },
        Note { freq: 1047, start_ms: 360, len_ms: 1200, amp: 300, pan: 30 },
    ]
}

pub open spec fn click_notes() -> Seq<Note> {
    seq![Note { freq: 1800, start_ms: 0, len_ms: 18, amp: 250, pan: 0 }]
}

pub open spec fn notify_notes() -> Seq<Note> {
    seq![
        Note { freq: 880, start_ms: 0, len_ms: 250, amp: 350, pan: 0 },
        Note { freq: 1320, start_ms: 110, len_ms: 400, amp: 300, pan: 0 },
    ]
}

pub open spec fn error_notes() -> Seq<Note> {
    seq![
        Note { freq: 330, start_ms: 0, len_ms: 180, amp: 400, pan: 0 },
        Note { freq: 247, start_ms: 150, len_ms: 300, amp: 400, pan: 0 },
    ]
}

/// Left channel, then right channel.
pub open spec fn test_notes() -> Seq<Note> {
    seq![
        Note { freq: 440, start_ms: 0, len_ms: 600, amp: 500, pan: -100i32 },
        Note { freq: 660, start_ms: 700, len_ms: 600, amp: 500, pan: 100 },
    ]
}

pub fn startup(table: &[i16]) -> (r: Vec<i16>)
    requires
        table@.len() == TABLE,
    ensures
        r@ == rendered(startup_notes(), table@),
{
    let mut v: Vec<Note> = Vec::new();
    v.push(Note { freq: 523, start_ms: 0, len_ms: 900, amp: 380, pan: -30 });
    v.push(Note { freq: 659, start_ms: 120, len_ms: 900, amp: 340, pan: -10 });
    v.push(Note { freq: 784, start_ms: 240, len_ms: 900, amp: 320, pan: 10 });
    v.push(Note { freq: 1047, start_ms: 360, len_ms: 1200, amp: 300, pan: 30 });
    proof {
        assert(v@ =~= startup_notes());
    }
    render(&v, table)
}

pub fn click(table: &[i16]) -> (r: Vec<i16>)
    requires
        table@.len() == TABLE,
    ensures
        r@ == rendered(click_notes(), table@),
{
    let mut v: Vec<Note> = Vec::new();
    v.push(Note { freq: 1800, start_ms: 0, len_ms: 18, amp: 250, pan: 0 });
    proof {
        assert(v@ =~= click_notes());
    }
    render(&v, table)
}

pub fn notify(table: &[i16]) -> (r: Vec<i16>)
    requires
        table@.len() == TABLE,
    ensures
        r@ == rendered(notify_notes(), table@),
{
    let mut v: Vec<Note> = Vec::new();
    v.push(Note { freq: 880, start_ms: 0, len_ms: 250, amp: 350, pan: 0 });
    v.push(Note { freq: 1320, start_ms: 110, len_ms: 400, amp: 300, pan: 0 });
    proof {
        assert(v@ =~= notify_notes());
    }
    render(&v, table)
}

pub fn error(table: &[i16]) -> (r: Vec<i16>)
    requires
        table@.len() == TABLE,
    ensures
        r@ == rendered(error_notes(), table@),
{
    let mut v: Vec<Note> = Vec::new();
    v.push(Note { freq: 330, start_ms: 0, len_ms: 180, amp: 400, pan: 0 });
    v.push(Note { freq: 247, start_ms: 150, len_ms: 300, amp: 400, pan: 0 });
    proof {
        assert(v@ =~= error_notes());
    }
    render(&v, table)
}

/// Left channel, then right channel, so speakers can be checked.
pub fn test(table: &[i16]) -> (r: Vec<i16>)
    requires
        table@.len() == TABLE,
    ensures
        r@ == rendered(test_notes(), table@),
{
    let mut v: Vec<Note> = Vec::new();
    v.push(Note { freq: 440, start_ms: 0, len_ms: 600, amp: 500, pan: -100 });
    v.push(Note { freq: 660, start_ms: 700, len_ms: 600, amp: 500, pan: 100 });
    proof {
        assert(v@ =~= test_notes());
    }
    render(&v, table)
}

} // verus!
