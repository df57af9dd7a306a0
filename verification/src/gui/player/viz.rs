//! The visualiser: the sound that is playing, and the bars drawn from it.

use crate::arith::{max, tdiv};
use vstd::prelude::*;

verus! {

/// Samples kept for the visualiser.
pub const VIZ_RING: usize = 32768;

/// Samples that one picture of the sound takes.
pub const WINDOW: usize = 512;

/// A mono copy of the queued audio (48 kHz), indexed by audio frame number
/// since the last seek.
pub struct Viz {
    pub ring: Vec<i16>,
    pub written: u64,
}

/// The mean of a left and a right sample.
pub open spec fn mono(l: i16, r: i16) -> i16 {
    tdiv(l as int + r as int, 2) as i16
}

/// The mono samples of interleaved stereo.
pub open spec fn mono_of(pcm: Seq<i16>) -> Seq<i16> {
    Seq::new(pcm.len() / 2, |i: int| mono(pcm[2 * i], pcm[2 * i + 1]))
}

/// The ring after more samples.
pub open spec fn ring_after(ring: Seq<i16>, written: int, s: Seq<i16>) -> Seq<i16>
    decreases s.len(),
{
    if s.len() == 0 {
        ring
    } else {
        ring_after(ring, written, s.drop_last()).update((written + s.len() - 1) % (VIZ_RING as int), s.last())
    }
}

/// Of all that was written since a seek, the ring holds the last samples,
/// each in the place of its number.
pub proof fn lemma_ring_holds(ring: Seq<i16>, s: Seq<i16>, i: int)
    requires
        ring.len() == VIZ_RING,
        max(0, s.len() - VIZ_RING) <= i < s.len(),
    ensures
        ring_after(ring, 0, s).len() == VIZ_RING,
        ring_after(ring, 0, s)[i % (VIZ_RING as int)] == s[i],
    decreases s.len(),
{
    let n = VIZ_RING as int;
    let d = s.drop_last();
    let k = s.len() - 1;
    lemma_ring_len(ring, 0, d);
    if i < k {
        lemma_ring_holds(ring, d, i);
        assert(i % n != k % n) by (nonlinear_arith)
            requires
                n == 32768,
                0 <= i < k,
                k - i < n,
        ;
    }
}

proof fn lemma_ring_len(ring: Seq<i16>, written: int, s: Seq<i16>)
    requires
        ring.len() == VIZ_RING,
        written >= 0,
    ensures
        ring_after(ring, written, s).len() == ring.len(),
    decreases s.len(),
{
    if s.len() > 0 {
        lemma_ring_len(ring, written, s.drop_last());
    }
}

/// The number of the first sample of the picture at a media time.
pub open spec fn window_at(clock: int, base: int) -> int {
    max(clock - base, 0) * 48 / 1000
}

/// Whether the samples of the picture are in the ring.
pub open spec fn in_ring(pos: int, written: int) -> bool {
    pos + WINDOW <= written && written - pos <= VIZ_RING - 1024
}

impl Viz {
    pub open spec fn wf(self) -> bool {
        self.ring@.len() == VIZ_RING
    }

    pub fn new() -> (r: Viz)
        ensures
            r.wf(),
            r.written == 0,
            r.ring@ == Seq::new(VIZ_RING as nat, |i: int| 0i16),
    {
        let mut ring: Vec<i16> = Vec::new();
        let mut i: usize = 0;
        while i < VIZ_RING
            invariant
                i <= VIZ_RING,
                ring@ == Seq::new(i as nat, |i: int| 0i16),
            decreases VIZ_RING - i,
        {
            ring.push(0);
            i += 1;
            proof {
                assert(ring@ =~= Seq::new(i as nat, |i: int| 0i16));
            }
        }
        Viz { ring, written: 0 }
    }

    /// Add interleaved stereo samples.
    pub fn push(&mut self, pcm: &[i16])
        requires
            old(self).wf(),
            old(self).written + pcm@.len() / 2 <= u64::MAX,
        ensures
            final(self).wf(),
            final(self).ring@ == ring_after(old(self).ring@, old(self).written as int, mono_of(pcm@)),
            final(self).written == old(self).written + pcm@.len() / 2,
    {
        let len: usize = pcm.len();
        let n: usize = len / 2;
        let ghost all = mono_of(pcm@);
        let mut i: usize = 0;
        proof {
            assert(all.take(0) =~= Seq::empty());
        }
        while i < n
            invariant
                i <= n == len / 2,
                len == pcm@.len(),
                all == mono_of(pcm@),
                self.wf(),
                self.written == old(self).written + i,
                self.written - i + n <= u64::MAX,
                self.ring@ == ring_after(old(self).ring@, old(self).written as int, all.take(i as int)),
            decreases n - i,
        {
            let l: i64 = pcm[2 * i] as i64;
            let r: i64 = pcm[2 * i + 1] as i64;
            let m: i16 = crate::arith::div(l + r, 2) as i16;
            let at: usize = (self.written % 32768) as usize;
            proof {
                assert(all.take(i + 1).drop_last() =~= all.take(i as int));
                assert(all.take(i + 1).last() == m);
            }
            self.ring.set(at, m);
            self.written = self.written + 1;
            i += 1;
        }
        proof {
            assert(all.take(n as int) =~= all);
        }
    }

    /// The samples of the picture at media time `clock`, if they are there;
    /// `base` is the media time of the first sample.
    pub fn window(&self, clock: i64, base: i64) -> (r: Option<Vec<i16>>)
        requires
            self.wf(),
        ensures
            ({
                let pos = window_at(clock as int, base as int);
                match r {
                    Some(v) => in_ring(pos, self.written as int) && v@ == Seq::new(
                        WINDOW as nat,
                        |i: int| self.ring@[(pos + i) % (VIZ_RING as int)],
                    ),
                    None => !in_ring(pos, self.written as int),
                }
            }),
    {
        let d: i128 = clock as i128 - base as i128;
        let pos: u128 = if d > 0 { d as u128 * 48 / 1000 } else { 0 };
        let w: u128 = self.written as u128;
        if pos + 512 > w || w - pos > 31744 {
            return None;
        }
        let mut out: Vec<i16> = Vec::new();
        let mut i: usize = 0;
        while i < WINDOW
            invariant
                i <= WINDOW,
                self.wf(),
                pos + 512 <= self.written,
                out@ == Seq::new(i as nat, |i: int| self.ring@[(pos + i) % (VIZ_RING as int)]),
            decreases WINDOW - i,
        {
            let at: usize = ((pos + i as u128) % 32768) as usize;
            out.push(self.ring[at]);
            i += 1;
            proof {
                assert(out@ =~= Seq::new(i as nat, |i: int| self.ring@[(pos + i) % (VIZ_RING as int)]));
            }
        }
        Some(out)
    }
}

// ---------------------------------------------------------------------
// Bars
// ---------------------------------------------------------------------

/// Where a bar is going for a level.
pub open spec fn bar_target(level: u8) -> int {
    max(level - 40, 0) * 255 / 215
}

/// Fast attack, slow release.
pub open spec fn bar_after(b: u8, level: u8) -> u8 {
    let t = bar_target(level);
    (if t > b { t } else { max(max(b - 10, 0), t) }) as u8
}

pub open spec fn bars_after(bars: Seq<u8>, levels: Seq<u8>) -> Seq<u8> {
    Seq::new(bars.len(), |i: int| bar_after(bars[i], levels[i]))
}

/// A bar rises at once, and falls by ten at most.
pub proof fn lemma_bar_moves(b: u8, level: u8)
    ensures
        bar_after(b, level) >= bar_target(level),
        bar_after(b, level) >= b - 10,
        bar_target(level) >= b ==> bar_after(b, level) == bar_target(level),
{
    let t = bar_target(level);
    assert(0 <= t <= 255);
}

/// Let the bars follow the levels; true if one moved.
pub fn move_bars(bars: &mut Vec<u8>, levels: &[u8]) -> (r: bool)
    requires
        old(bars)@.len() == levels@.len(),
    ensures
        final(bars)@ == bars_after(old(bars)@, levels@),
        r == (final(bars)@ != old(bars)@),
{
    let n: usize = bars.len();
    let mut changed: bool = false;
    let mut i: usize = 0;
    while i < n
        invariant
            i <= n == bars@.len() == levels@.len() == old(bars)@.len(),
            forall|k: int| 0 <= k < i ==> #[trigger] bars@[k] == bar_after(old(bars)@[k], levels@[k]),
            forall|k: int| i <= k < n ==> #[trigger] bars@[k] == old(bars)@[k],
            changed == exists|k: int| 0 <= k < i && bars@[k] != #[trigger] old(bars)@[k],
        decreases n - i,
    {
        let b: u8 = bars[i];
        let l: u32 = levels[i] as u32;
        let t: u32 = if l > 40 { (l - 40) * 255 / 215 } else { 0 };
        let slow: u8 = if b > 10 { b - 10 } else { 0 };
        let t8: u8 = t as u8;
        let v: u8 = if t8 > b { t8 } else if slow > t8 { slow } else { t8 };
        let ghost before = bars@;
        bars.set(i, v);
        proof {
            assert(v == bar_after(b, levels@[i as int]));
            assert forall|k: int| 0 <= k < i implies bars@[k] == before[k] by {}
            if changed {
                let k = choose|k: int| 0 <= k < i && before[k] != #[trigger] old(bars)@[k];
                assert(bars@[k] != old(bars)@[k]);
            }
        }
        if v != b {
            changed = true;
            proof {
                assert(bars@[i as int] != old(bars)@[i as int]);
            }
        }
        i += 1;
    }
    proof {
        assert(bars@ =~= bars_after(old(bars)@, levels@));
        if !changed {
            assert forall|k: int| 0 <= k < n implies bars@[k] == old(bars)@[k] by {
                if bars@[k] != old(bars)@[k] {
                    assert(changed);
                }
            }
            assert(bars@ =~= old(bars)@);
        }
    }
    changed
}

} // verus!
