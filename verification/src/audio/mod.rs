//! Audio output: a software mixer feeding the AC'97 controller.
//!
//! Sounds are 48 kHz stereo 16-bit sample vectors. `play` queues one; the
//! audio thread mixes all active sounds into the DMA ring a few buffers
//! ahead of the hardware.

pub mod ac97;
pub mod sounds;
pub mod wav;

use crate::arith::{clamp, clamp_i64, floor_div, min};
use crate::text::{to_chars, to_text};
use std::collections::VecDeque;
use vstd::prelude::*;

verus! {

/// Samples in a buffer of the sound card, both channels together.
pub const SAMPLES: usize = 2048;

/// How many buffers are filled ahead of the one that plays.
pub const AHEAD: u8 = 4;

/// How many sounds play at a time.
pub const MAX_VOICES: usize = 16;

// ---------------------------------------------------------------------
// Streams
// ---------------------------------------------------------------------

/// A continuous sound fed piece by piece (music and video players).
/// Samples are 48 kHz stereo.
pub struct AudioStream {
    pub queue: VecDeque<i16>,
    /// Frames the mixer has taken from the queue.
    pub played: u64,
    pub paused: bool,
    pub closed: bool,
    /// 0..=256
    pub volume: u32,
}

#[verifier::ext_equal]
pub struct StreamState {
    pub queue: Seq<i16>,
    pub played: int,
    pub paused: bool,
    pub closed: bool,
    pub volume: u32,
}

impl View for AudioStream {
    type V = StreamState;

    open spec fn view(&self) -> StreamState {
        StreamState {
            queue: self.queue@,
            played: self.played as int,
            paused: self.paused,
            closed: self.closed,
            volume: self.volume,
        }
    }
}

impl StreamState {
    pub open spec fn wf(self) -> bool {
        self.volume <= 256
    }

    /// How many samples the mixer takes: whole frames, a buffer at most.
    pub open spec fn taken(self) -> int {
        if self.paused { 0 } else { min(self.queue.len() as int, SAMPLES as int) / 2 * 2 }
    }

    /// What the stream adds to the `i`th sample of a buffer.
    pub open spec fn adds(self, i: int) -> int {
        if i < self.taken() { self.queue[i] * self.volume / 256 } else { 0 }
    }

    /// After a buffer was filled.
    pub open spec fn after_fill(self) -> StreamState {
        StreamState { queue: self.queue.skip(self.taken()), played: self.played + self.taken() / 2, ..self }
    }
}

/// No frame is lost or played twice: what was played and what waits add up
/// to the same.
pub proof fn lemma_frames_accounted(s: StreamState)
    requires
        s.queue.len() % 2 == 0,
    ensures
        s.after_fill().played + s.after_fill().queue.len() as int / 2 == s.played + s.queue.len() as int / 2,
        s.after_fill().queue.len() % 2 == 0,
{
}

/// A paused stream keeps still.
pub proof fn lemma_paused_keeps(s: StreamState, i: int)
    requires
        s.paused,
        0 <= i,
    ensures
        s.adds(i) == 0,
        s.after_fill() == s,
{
    assert(s.queue.skip(0) =~= s.queue);
}

pub fn open_stream() -> (r: AudioStream)
    ensures
        r@ == (StreamState { queue: Seq::empty(), played: 0, paused: false, closed: false, volume: 256 }),
{
    AudioStream { queue: VecDeque::new(), played: 0, paused: false, closed: false, volume: 256 }
}

impl AudioStream {
    pub fn push(&mut self, samples: &[i16])
        ensures
            final(self)@ == (StreamState { queue: old(self)@.queue + samples@, ..old(self)@ }),
    {
        let mut i: usize = 0;
        proof {
            assert(self.queue@ =~= old(self)@.queue + samples@.take(0));
        }
        while i < samples.len()
            invariant
                i <= samples@.len(),
                self@ == (StreamState { queue: old(self)@.queue + samples@.take(i as int), ..old(self)@ }),
            decreases samples@.len() - i,
        {
            self.queue.push_back(samples[i]);
            i += 1;
            proof {
                assert(self.queue@ =~= old(self)@.queue + samples@.take(i as int));
            }
        }
        proof {
            assert(samples@.take(samples@.len() as int) =~= samples@);
        }
    }

    /// Frames waiting to be played.
    pub fn queued(&self) -> (r: usize)
        ensures
            r == self@.queue.len() as int / 2,
    {
        self.queue.len() / 2
    }

    /// Frames handed to the sound card so far.
    pub fn played(&self) -> (r: u64)
        ensures
            r == self@.played,
    {
        self.played
    }

    /// Drop everything queued (after a seek); `played` restarts at `frames`.
    pub fn reset(&mut self, frames: u64)
        ensures
            final(self)@ == (StreamState { queue: Seq::empty(), played: frames as int, ..old(self)@ }),
    {
        self.queue.clear();
        self.played = frames;
    }

    pub fn set_paused(&mut self, p: bool)
        ensures
            final(self)@ == (StreamState { paused: p, ..old(self)@ }),
    {
        self.paused = p;
    }

    pub fn set_volume(&mut self, v: u32)
        ensures
            final(self)@ == (StreamState { volume: min(v as int, 256) as u32, ..old(self)@ }),
            final(self)@.wf(),
    {
        self.volume = if v < 256 { v } else { 256 };
    }

    pub fn close(&mut self)
        ensures
            final(self)@ == (StreamState { closed: true, ..old(self)@ }),
    {
        self.closed = true;
    }

    fn count(&self) -> (r: usize)
        ensures
            r == self@.taken(),
            r <= SAMPLES,
            r <= self.queue@.len(),
    {
        if self.paused {
            return 0;
        }
        let n: usize = self.queue.len();
        (if n < SAMPLES { n } else { SAMPLES }) / 2 * 2
    }

    fn filled(&mut self)
        requires
            old(self).played + SAMPLES <= u64::MAX,
        ensures
            final(self)@ == old(self)@.after_fill(),
    {
        let n: usize = self.count();
        let rest: VecDeque<i16> = self.queue.split_off(n);
        proof {
            assert(rest@ =~= old(self)@.queue.skip(n as int));
        }
        self.queue = rest;
        self.played += (n / 2) as u64;
    }
}

// ---------------------------------------------------------------------
// Voices
// ---------------------------------------------------------------------

/// A sound that plays.
pub struct Voice {
    pub id: u64,
    pub samples: Vec<i16>,
    pub pos: usize,
}

#[verifier::ext_equal]
pub struct VoiceState {
    pub id: u64,
    pub samples: Seq<i16>,
    pub pos: int,
}

impl View for Voice {
    type V = VoiceState;

    open spec fn view(&self) -> VoiceState {
        VoiceState { id: self.id, samples: self.samples@, pos: self.pos as int }
    }
}

impl VoiceState {
    pub open spec fn wf(self) -> bool {
        0 <= self.pos <= self.samples.len()
    }

    /// What the voice adds to the `i`th sample of a buffer.
    pub open spec fn adds(self, i: int) -> int {
        if self.pos + i < self.samples.len() { self.samples[self.pos + i] as int } else { 0 }
    }

    pub open spec fn after_fill(self) -> VoiceState {
        VoiceState { pos: min(self.pos + SAMPLES, self.samples.len() as int), ..self }
    }

    pub open spec fn over(self) -> bool {
        self.pos >= self.samples.len()
    }
}

pub open spec fn voices_of(v: Seq<Voice>) -> Seq<VoiceState> {
    Seq::new(v.len(), |i: int| v[i]@)
}

pub open spec fn streams_of(v: Seq<AudioStream>) -> Seq<StreamState> {
    Seq::new(v.len(), |i: int| v[i]@)
}

/// What all voices add to the `i`th sample.
pub open spec fn voices_sum(v: Seq<VoiceState>, i: int) -> int
    decreases v.len(),
{
    if v.len() == 0 { 0 } else { voices_sum(v.drop_last(), i) + v.last().adds(i) }
}

pub open spec fn streams_sum(v: Seq<StreamState>, i: int) -> int
    decreases v.len(),
{
    if v.len() == 0 { 0 } else { streams_sum(v.drop_last(), i) + v.last().adds(i) }
}

/// The voices after a buffer was filled, without those that are over.
pub open spec fn voices_after(v: Seq<VoiceState>) -> Seq<VoiceState>
    decreases v.len(),
{
    if v.len() == 0 {
        Seq::empty()
    } else {
        let x = v.last().after_fill();
        let rest = voices_after(v.drop_last());
        if x.over() { rest } else { rest.push(x) }
    }
}

/// The streams that are not closed.
pub open spec fn open_streams(v: Seq<StreamState>) -> Seq<StreamState>
    decreases v.len(),
{
    if v.len() == 0 {
        Seq::empty()
    } else {
        let rest = open_streams(v.drop_last());
        if v.last().closed { rest } else { rest.push(v.last()) }
    }
}

pub open spec fn streams_after(v: Seq<StreamState>) -> Seq<StreamState> {
    let o = open_streams(v);
    Seq::new(o.len(), |i: int| o[i].after_fill())
}

/// The voices without the one of this number.
pub open spec fn without(v: Seq<VoiceState>, id: u64) -> Seq<VoiceState>
    decreases v.len(),
{
    if v.len() == 0 {
        Seq::empty()
    } else {
        let rest = without(v.drop_last(), id);
        if v.last().id == id { rest } else { rest.push(v.last()) }
    }
}

/// Everything that sounds.
pub struct Mixer {
    pub voices: Vec<Voice>,
    pub streams: Vec<AudioStream>,
    pub next_id: u64,
    pub frames_mixed: u64,
}

#[verifier::ext_equal]
pub struct MixerState {
    pub voices: Seq<VoiceState>,
    pub streams: Seq<StreamState>,
    pub next_id: u64,
    pub frames_mixed: int,
}

impl View for Mixer {
    type V = MixerState;

    open spec fn view(&self) -> MixerState {
        MixerState {
            voices: voices_of(self.voices@),
            streams: streams_of(self.streams@),
            next_id: self.next_id,
            frames_mixed: self.frames_mixed as int,
        }
    }
}

impl MixerState {
    pub open spec fn wf(self) -> bool {
        &&& forall|i: int| 0 <= i < self.voices.len() ==> (#[trigger] self.voices[i]).wf()
        &&& forall|i: int| 0 <= i < self.streams.len() ==> (#[trigger] self.streams[i]).wf()
        &&& self.voices.len() <= MAX_VOICES
        &&& self.streams.len() <= 0x1_0000_0000
    }

    /// The `i`th sample of the next buffer: everything added up, and cut
    /// off where it is too loud.
    pub open spec fn sample(self, i: int) -> i16 {
        clamp(voices_sum(self.voices, i) + streams_sum(open_streams(self.streams), i), -32768, 32767) as i16
    }

    pub open spec fn after_fill(self) -> MixerState {
        MixerState {
            voices: voices_after(self.voices),
            streams: streams_after(self.streams),
            frames_mixed: self.frames_mixed + SAMPLES as int / 2,
            ..self
        }
    }

    pub open spec fn playing(self, samples: Seq<i16>) -> MixerState {
        MixerState {
            voices: if self.voices.len() < MAX_VOICES {
                self.voices.push(VoiceState { id: self.next_id, samples, pos: 0 })
            } else {
                self.voices
            },
            next_id: (self.next_id + 1) as u64,
            ..self
        }
    }

    pub open spec fn is_on(self, id: u64) -> bool {
        exists|i: int| 0 <= i < self.voices.len() && (#[trigger] self.voices[i]).id == id
    }
}

/// A stream is heard in order: after a buffer comes what follows it in the
/// queue. At full volume it is heard as it is, and at none not at all.
pub proof fn lemma_stream_goes_on(s: StreamState, i: int)
    requires
        s.wf(),
        !s.paused,
        s.queue.len() % 2 == 0,
        s.queue.len() >= SAMPLES,
        0 <= i,
    ensures
        s.volume == 256 && i < SAMPLES ==> s.adds(i) == s.queue[i],
        s.volume == 0 && i < SAMPLES ==> s.adds(i) == 0,
        s.volume == 256 && i < SAMPLES && SAMPLES + i < s.queue.len() ==> s.after_fill().adds(i) == s.queue[SAMPLES + i],
        s.after_fill().played - s.played == SAMPLES / 2,
        s.after_fill().volume == s.volume,
{
    let t = s.after_fill();
    assert(s.taken() == SAMPLES);
    if SAMPLES + i < s.queue.len() {
        let r = s.queue[SAMPLES + i] as int;
        assert(t.queue[i] == r);
        assert(r * 256 / 256 == r) by (nonlinear_arith);
        assert(i < SAMPLES ==> i < t.taken());
    }
    if i < SAMPLES {
        let q = s.queue[i] as int;
        assert(q * 256 / 256 == q && q * 0 / 256 == 0) by (nonlinear_arith);
    }
}

pub open spec fn fills(v: VoiceState, n: nat) -> VoiceState
    decreases n,
{
    if n == 0 { v } else { fills(v, (n - 1) as nat).after_fill() }
}

/// A sound is heard from where it is to its end, every sample once and in
/// order, and then it is over.
pub proof fn lemma_voice_heard_in_order(v: VoiceState, n: nat, i: int)
    requires
        v.wf(),
        0 <= i < SAMPLES,
    ensures
        v.pos + n * SAMPLES + i < v.samples.len() ==> fills(v, n).adds(i) == v.samples[v.pos + n * SAMPLES + i],
        v.pos + n * SAMPLES + i >= v.samples.len() ==> fills(v, n).adds(i) == 0,
        fills(v, n).over() <==> v.pos + n * SAMPLES >= v.samples.len(),
        fills(v, n).samples == v.samples,
        fills(v, n).pos == min(v.pos + n * SAMPLES, v.samples.len() as int),
    decreases n,
{
    if n > 0 {
        lemma_voice_heard_in_order(v, (n - 1) as nat, i);
        assert((n - 1) * SAMPLES + SAMPLES == n * SAMPLES) by (nonlinear_arith);
    }
}

/// What sounds together is added up, whichever comes first.
pub proof fn lemma_sounds_add_up(a: Seq<VoiceState>, b: Seq<VoiceState>, i: int)
    ensures
        voices_sum(a + b, i) == voices_sum(a, i) + voices_sum(b, i),
        voices_sum(a + b, i) == voices_sum(b + a, i),
    decreases a.len() + b.len(),
{
    lemma_voices_sum(a, b, i);
    lemma_voices_sum(b, a, i);
}

proof fn lemma_voices_sum(a: Seq<VoiceState>, b: Seq<VoiceState>, i: int)
    ensures
        voices_sum(a + b, i) == voices_sum(a, i) + voices_sum(b, i),
    decreases b.len(),
{
    if b.len() == 0 {
        assert(a + b =~= a);
    } else {
        lemma_voices_sum(a, b.drop_last(), i);
        assert((a + b).drop_last() =~= a + b.drop_last());
    }
}

/// A new sound joins those that are heard, from its first sample on; it takes
/// none of them away. With too many of them it is not heard.
pub proof fn lemma_new_sound(m: MixerState, samples: Seq<i16>, i: int)
    requires
        m.next_id < u64::MAX,
        0 <= i < samples.len(),
    ensures
        m.voices.len() < MAX_VOICES ==> voices_sum(m.playing(samples).voices, i) == voices_sum(m.voices, i) + samples[i],
        m.voices.len() >= MAX_VOICES ==> m.playing(samples).voices == m.voices,
        m.playing(samples).streams == m.streams,
{
    if m.voices.len() < MAX_VOICES {
        let v = VoiceState { id: m.next_id, samples, pos: 0 };
        assert(m.voices.push(v).drop_last() =~= m.voices);
    }
}

/// Silence is mixed from nothing.
pub proof fn lemma_silence(m: MixerState, i: int)
    requires
        m.voices.len() == 0,
        open_streams(m.streams).len() == 0,
    ensures
        m.sample(i) == 0,
{
}

/// A sound alone is heard as it is.
pub proof fn lemma_alone(m: MixerState, i: int)
    requires
        m.voices.len() == 1,
        m.voices[0].wf(),
        m.voices[0].pos + i < m.voices[0].samples.len(),
        0 <= i,
        open_streams(m.streams).len() == 0,
    ensures
        m.sample(i) == m.voices[0].samples[m.voices[0].pos + i],
{
    reveal_with_fuel(voices_sum, 2);
    assert(m.voices.drop_last() =~= Seq::<VoiceState>::empty());
}

/// A sound that was stopped does not play.
pub proof fn lemma_stopped(v: Seq<VoiceState>, id: u64)
    ensures
        forall|i: int| 0 <= i < without(v, id).len() ==> (#[trigger] without(v, id)[i]).id != id,
    decreases v.len(),
{
    if v.len() > 0 {
        lemma_stopped(v.drop_last(), id);
        let rest = without(v.drop_last(), id);
        let w = without(v, id);
        assert forall|i: int| 0 <= i < w.len() implies (#[trigger] w[i]).id != id by {
            if i < rest.len() {
                assert(w[i] == rest[i]);
            }
        }
    }
}

proof fn lemma_without_wf(v: Seq<VoiceState>, id: u64)
    requires
        forall|k: int| 0 <= k < v.len() ==> (#[trigger] v[k]).wf(),
    ensures
        without(v, id).len() <= v.len(),
        forall|k: int| 0 <= k < without(v, id).len() ==> (#[trigger] without(v, id)[k]).wf(),
    decreases v.len(),
{
    if v.len() > 0 {
        let d = v.drop_last();
        assert forall|k: int| 0 <= k < d.len() implies (#[trigger] d[k]).wf() by {
            assert(v[k].wf());
        }
        lemma_without_wf(d, id);
        assert(v[v.len() - 1].wf());
    }
}

proof fn lemma_stream_adds(s: StreamState, i: int)
    requires
        s.wf(),
        0 <= i,
    ensures
        -32768 <= s.adds(i) <= 32767,
{
    if i < s.taken() {
        let (q, v) = (s.queue[i] as int, s.volume as int);
        assert(-32768 <= q * v / 256 <= 32767) by (nonlinear_arith)
            requires
                -32768 <= q <= 32767,
                0 <= v <= 256,
        ;
    }
}

proof fn lemma_voices_bound(v: Seq<VoiceState>, i: int)
    ensures
        -32768 * v.len() <= voices_sum(v, i) <= 32767 * v.len(),
    decreases v.len(),
{
    if v.len() > 0 {
        lemma_voices_bound(v.drop_last(), i);
    }
}

proof fn lemma_streams_bound(v: Seq<StreamState>, i: int)
    requires
        0 <= i,
        forall|k: int| 0 <= k < v.len() ==> (#[trigger] v[k]).wf(),
    ensures
        -32768 * v.len() <= streams_sum(v, i) <= 32767 * v.len(),
    decreases v.len(),
{
    if v.len() > 0 {
        assert forall|k: int| 0 <= k < v.drop_last().len() implies (#[trigger] v.drop_last()[k]).wf() by {
            assert(v[k].wf());
        }
        lemma_streams_bound(v.drop_last(), i);
        lemma_stream_adds(v.last(), i);
    }
}

proof fn lemma_open_wf(v: Seq<StreamState>)
    requires
        forall|k: int| 0 <= k < v.len() ==> (#[trigger] v[k]).wf(),
    ensures
        open_streams(v).len() <= v.len(),
        forall|k: int| 0 <= k < open_streams(v).len() ==> (#[trigger] open_streams(v)[k]).wf(),
    decreases v.len(),
{
    if v.len() > 0 {
        let d = v.drop_last();
        assert forall|k: int| 0 <= k < d.len() implies (#[trigger] d[k]).wf() by {
            assert(v[k].wf());
        }
        lemma_open_wf(d);
        assert(v[v.len() - 1].wf());
    }
}

proof fn lemma_voices_after_wf(v: Seq<VoiceState>)
    requires
        forall|k: int| 0 <= k < v.len() ==> (#[trigger] v[k]).wf(),
    ensures
        voices_after(v).len() <= v.len(),
        forall|k: int| 0 <= k < voices_after(v).len() ==> (#[trigger] voices_after(v)[k]).wf(),
    decreases v.len(),
{
    if v.len() > 0 {
        let d = v.drop_last();
        assert forall|k: int| 0 <= k < d.len() implies (#[trigger] d[k]).wf() by {
            assert(v[k].wf());
        }
        lemma_voices_after_wf(d);
        assert(v[v.len() - 1].wf());
    }
}

impl Mixer {
    pub fn new() -> (r: Mixer)
        ensures
            r@ == (MixerState { voices: Seq::empty(), streams: Seq::empty(), next_id: 1, frames_mixed: 0 }),
            r@.wf(),
    {
        let r: Mixer = Mixer { voices: Vec::new(), streams: Vec::new(), next_id: 1, frames_mixed: 0 };
        proof {
            assert(r@.voices =~= Seq::<VoiceState>::empty());
            assert(r@.streams =~= Seq::<StreamState>::empty());
        }
        r
    }

    /// Queue a sound; returns an id usable with `stop`.
    pub fn play(&mut self, samples: Vec<i16>) -> (r: u64)
        requires
            old(self)@.wf(),
            old(self)@.next_id < u64::MAX,
        ensures
            final(self)@ == old(self)@.playing(samples@),
            final(self)@.wf(),
            r == old(self)@.next_id,
    {
        let id: u64 = self.next_id;
        self.next_id += 1;
        if self.voices.len() < MAX_VOICES {
            let ghost v0 = voices_of(self.voices@);
            let x: Voice = Voice { id, samples, pos: 0 };
            let ghost x0 = x@;
            self.voices.push(x);
            proof {
                assert(voices_of(self.voices@) =~= v0.push(x0));
            }
        }
        id
    }

    pub fn stop(&mut self, id: u64)
        requires
            old(self)@.wf(),
        ensures
            final(self)@ == (MixerState { voices: without(old(self)@.voices, id), ..old(self)@ }),
            final(self)@.wf(),
    {
        let ghost v0 = voices_of(self.voices@);
        proof {
            lemma_without_wf(v0, id);
        }
        let mut all: Vec<Voice> = Vec::new();
        std::mem::swap(&mut all, &mut self.voices);
        let mut kept: Vec<Voice> = Vec::new();
        let n: usize = all.len();
        let mut i: usize = 0;
        proof {
            assert(v0.skip(0) =~= v0);
            assert(v0.take(0) =~= Seq::<VoiceState>::empty());
            assert(voices_of(kept@) =~= Seq::<VoiceState>::empty());
        }
        while i < n
            invariant
                i <= n,
                n == v0.len(),
                voices_of(all@) == v0.skip(i as int),
                voices_of(kept@) == without(v0.take(i as int), id),
            decreases n - i,
        {
            proof {
                assert(voices_of(all@).len() == n - i);
            }
            let ghost a0 = all@;
            let x: Voice = all.remove(0);
            proof {
                assert(x@ == v0[i as int]) by {
                    assert(v0.skip(i as int)[0] == v0[i as int]);
                }
                assert forall|k: int| 0 <= k < all@.len() implies voices_of(all@)[k] == v0.skip(i + 1)[k] by {
                    assert(all@[k] == a0[k + 1]);
                    assert(voices_of(a0)[k + 1] == v0.skip(i as int)[k + 1]);
                }
                assert(voices_of(all@) =~= v0.skip(i + 1));
                assert(v0.take(i + 1).drop_last() =~= v0.take(i as int));
            }
            if x.id != id {
                let ghost k0 = voices_of(kept@);
                let ghost x0 = x@;
                kept.push(x);
                proof {
                    assert(voices_of(kept@) =~= k0.push(x0));
                }
            }
            i += 1;
        }
        proof {
            assert(v0.take(n as int) =~= v0);
        }
        self.voices = kept;
    }

    pub fn is_playing(&self, id: u64) -> (r: bool)
        ensures
            r == self@.is_on(id),
    {
        let ghost all = voices_of(self.voices@);
        let mut i: usize = 0;
        while i < self.voices.len()
            invariant
                i <= self.voices@.len(),
                all == voices_of(self.voices@),
                forall|k: int| 0 <= k < i ==> (#[trigger] all[k]).id != id,
            decreases self.voices@.len() - i,
        {
            if self.voices[i].id == id {
                proof {
                    assert(self@.voices[i as int].id == id);
                }
                return true;
            }
            i += 1;
        }
        false
    }

    /// Whether some stream has something to play.
    pub fn streaming(&self) -> (r: bool)
        ensures
            r == exists|i: int|
                0 <= i < self@.streams.len() && !(#[trigger] self@.streams[i]).paused && self@.streams[i].queue.len()
                    >= 2,
    {
        let ghost all = streams_of(self.streams@);
        let mut i: usize = 0;
        while i < self.streams.len()
            invariant
                i <= self.streams@.len(),
                all == streams_of(self.streams@),
                forall|k: int| 0 <= k < i ==> (#[trigger] all[k]).paused || all[k].queue.len() < 2,
            decreases self.streams@.len() - i,
        {
            if !self.streams[i].paused && self.streams[i].queued() > 0 {
                proof {
                    assert(!self@.streams[i as int].paused);
                }
                return true;
            }
            i += 1;
        }
        false
    }

    /// Forget the streams that are closed.
    fn drop_closed(&mut self)
        requires
            old(self)@.wf(),
        ensures
            final(self)@ == (MixerState { streams: open_streams(old(self)@.streams), ..old(self)@ }),
            final(self)@.wf(),
    {
        let ghost v0 = streams_of(self.streams@);
        proof {
            lemma_open_wf(v0);
        }
        let mut all: Vec<AudioStream> = Vec::new();
        std::mem::swap(&mut all, &mut self.streams);
        let mut kept: Vec<AudioStream> = Vec::new();
        let n: usize = all.len();
        let mut i: usize = 0;
        proof {
            assert(v0.skip(0) =~= v0);
            assert(v0.take(0) =~= Seq::<StreamState>::empty());
            assert(streams_of(kept@) =~= Seq::<StreamState>::empty());
        }
        while i < n
            invariant
                i <= n,
                n == v0.len(),
                streams_of(all@) == v0.skip(i as int),
                streams_of(kept@) == open_streams(v0.take(i as int)),
            decreases n - i,
        {
            proof {
                assert(streams_of(all@).len() == n - i);
            }
            let ghost a0 = all@;
            let x: AudioStream = all.remove(0);
            proof {
                assert(x@ == v0[i as int]) by {
                    assert(v0.skip(i as int)[0] == v0[i as int]);
                }
                assert forall|k: int| 0 <= k < all@.len() implies streams_of(all@)[k] == v0.skip(i + 1)[k] by {
                    assert(all@[k] == a0[k + 1]);
                    assert(streams_of(a0)[k + 1] == v0.skip(i as int)[k + 1]);
                }
                assert(streams_of(all@) =~= v0.skip(i + 1));
                assert(v0.take(i + 1).drop_last() =~= v0.take(i as int));
            }
            if !x.closed {
                let ghost k0 = streams_of(kept@);
                let ghost x0 = x@;
                kept.push(x);
                proof {
                    assert(streams_of(kept@) =~= k0.push(x0));
                }
            }
            i += 1;
        }
        proof {
            assert(v0.take(n as int) =~= v0);
        }
        self.streams = kept;
    }

    fn mix_one(&self, i: usize) -> (r: i16)
        requires
            self@.wf(),
            i < SAMPLES,
        ensures
            r == clamp(voices_sum(self@.voices, i as int) + streams_sum(self@.streams, i as int), -32768, 32767) as i16,
    {
        let ghost vs = voices_of(self.voices@);
        let ghost ss = streams_of(self.streams@);
        let mut acc: i64 = 0;
        let mut k: usize = 0;
        proof {
            assert(vs.take(0) =~= Seq::<VoiceState>::empty());
            assert(ss.take(0) =~= Seq::<StreamState>::empty());
        }
        while k < self.voices.len()
            invariant
                self@.wf(),
                i < SAMPLES,
                k <= self.voices@.len(),
                vs == voices_of(self.voices@),
                self@.voices == vs,
                acc == voices_sum(vs.take(k as int), i as int),
                -32768 * k <= acc <= 32767 * k,
                self.voices@.len() <= MAX_VOICES,
            decreases self.voices@.len() - k,
        {
            let v: &Voice = &self.voices[k];
            proof {
                assert(vs.take(k + 1).drop_last() =~= vs.take(k as int));
                assert(vs[k as int] == v@);
                assert(vs[k as int].wf());
            }
            let n: usize = v.samples.len();
            if i < n - v.pos {
                acc += v.samples[v.pos + i] as i64;
            }
            k += 1;
        }
        proof {
            assert(vs.take(vs.len() as int) =~= vs);
        }
        let ghost base = acc as int;
        let mut j: usize = 0;
        while j < self.streams.len()
            invariant
                self@.wf(),
                i < SAMPLES,
                j <= self.streams@.len(),
                ss == streams_of(self.streams@),
                self@.streams == ss,
                ss.len() <= 0x1_0000_0000,
                acc == base + streams_sum(ss.take(j as int), i as int),
                -32768 * 16 <= base <= 32767 * 16,
                base - 32768 * j <= acc <= base + 32767 * j,
            decreases self.streams@.len() - j,
        {
            let s: &AudioStream = &self.streams[j];
            proof {
                assert(ss.take(j + 1).drop_last() =~= ss.take(j as int));
                assert(ss[j as int] == s@);
                assert(ss[j as int].wf());
                lemma_stream_adds(s@, i as int);
            }
            if i < s.count() {
                let q: i64 = s.queue[i] as i64;
                let v: i64 = s.volume as i64;
                proof {
                    assert(-32768 * 256 <= q * v <= 32767 * 256) by (nonlinear_arith)
                        requires
                            -32768 <= q <= 32767,
                            0 <= v <= 256,
                    ;
                }
                acc += floor_div(q * v, 256);
            }
            j += 1;
        }
        proof {
            assert(ss.take(ss.len() as int) =~= ss);
        }
        clamp_i64(acc, -32768, 32767) as i16
    }

    fn advance_voices(&mut self)
        requires
            old(self)@.wf(),
        ensures
            final(self)@ == (MixerState { voices: voices_after(old(self)@.voices), ..old(self)@ }),
    {
        let ghost v0 = voices_of(self.voices@);
        let mut all: Vec<Voice> = Vec::new();
        std::mem::swap(&mut all, &mut self.voices);
        let mut kept: Vec<Voice> = Vec::new();
        let n: usize = all.len();
        let mut i: usize = 0;
        proof {
            assert(v0.skip(0) =~= v0);
            assert(v0.take(0) =~= Seq::<VoiceState>::empty());
            assert(voices_of(kept@) =~= Seq::<VoiceState>::empty());
        }
        while i < n
            invariant
                i <= n,
                n == v0.len(),
                forall|k: int| 0 <= k < v0.len() ==> (#[trigger] v0[k]).wf(),
                voices_of(all@) == v0.skip(i as int),
                voices_of(kept@) == voices_after(v0.take(i as int)),
            decreases n - i,
        {
            proof {
                assert(voices_of(all@).len() == n - i);
            }
            let ghost a0 = all@;
            let x: Voice = all.remove(0);
            proof {
                assert(x@ == v0[i as int]) by {
                    assert(v0.skip(i as int)[0] == v0[i as int]);
                }
                assert forall|k: int| 0 <= k < all@.len() implies voices_of(all@)[k] == v0.skip(i + 1)[k] by {
                    assert(all@[k] == a0[k + 1]);
                    assert(voices_of(a0)[k + 1] == v0.skip(i as int)[k + 1]);
                }
                assert(voices_of(all@) =~= v0.skip(i + 1));
                assert(v0.take(i + 1).drop_last() =~= v0.take(i as int));
                assert(v0[i as int].wf());
            }
            let len: usize = x.samples.len();
            let pos: usize = if len - x.pos > SAMPLES { x.pos + SAMPLES } else { len };
            let ghost x0 = x@.after_fill();
            if pos < len {
                let y: Voice = Voice { id: x.id, samples: x.samples, pos };
                let ghost k0 = voices_of(kept@);
                proof {
                    assert(y@ =~= x0);
                }
                kept.push(y);
                proof {
                    assert(voices_of(kept@) =~= k0.push(x0));
                }
            }
            i += 1;
        }
        proof {
            assert(v0.take(n as int) =~= v0);
        }
        self.voices = kept;
    }

    fn advance_streams(&mut self)
        requires
            old(self)@.wf(),
            forall|i: int| 0 <= i < old(self)@.streams.len() ==> (#[trigger] old(self)@.streams[i]).played + SAMPLES
                <= u64::MAX,
        ensures
            final(self)@ == (MixerState {
                streams: Seq::new(old(self)@.streams.len(), |i: int| old(self)@.streams[i].after_fill()),
                ..old(self)@
            }),
    {
        let ghost v0 = streams_of(self.streams@);
        let mut all: Vec<AudioStream> = Vec::new();
        std::mem::swap(&mut all, &mut self.streams);
        let mut done: Vec<AudioStream> = Vec::new();
        let n: usize = all.len();
        let mut i: usize = 0;
        proof {
            assert(v0.skip(0) =~= v0);
            assert(streams_of(done@) =~= Seq::new(0, |k: int| v0[k].after_fill()));
        }
        while i < n
            invariant
                i <= n,
                n == v0.len(),
                streams_of(all@) == v0.skip(i as int),
                forall|k: int| 0 <= k < v0.len() ==> (#[trigger] v0[k]).played + SAMPLES <= u64::MAX,
                streams_of(done@) == Seq::new(i as nat, |k: int| v0[k].after_fill()),
            decreases n - i,
        {
            proof {
                assert(streams_of(all@).len() == n - i);
            }
            let ghost a0 = all@;
            let mut x: AudioStream = all.remove(0);
            proof {
                assert(x@ == v0[i as int]) by {
                    assert(v0.skip(i as int)[0] == v0[i as int]);
                }
                assert forall|k: int| 0 <= k < all@.len() implies streams_of(all@)[k] == v0.skip(i + 1)[k] by {
                    assert(all@[k] == a0[k + 1]);
                    assert(streams_of(a0)[k + 1] == v0.skip(i as int)[k + 1]);
                }
                assert(streams_of(all@) =~= v0.skip(i + 1));
            }
            x.filled();
            let ghost d0 = streams_of(done@);
            let ghost x0 = x@;
            done.push(x);
            i += 1;
            proof {
                assert(streams_of(done@) =~= d0.push(x0));
                assert(streams_of(done@) =~= Seq::new(i as nat, |k: int| v0[k].after_fill()));
            }
        }
        self.streams = done;
    }

    /// Fill the next buffer.
    pub fn fill(&mut self) -> (r: Vec<i16>)
        requires
            old(self)@.wf(),
            old(self)@.frames_mixed + SAMPLES <= u64::MAX,
            forall|i: int| 0 <= i < old(self)@.streams.len() ==> (#[trigger] old(self)@.streams[i]).played + SAMPLES
                <= u64::MAX,
        ensures
            final(self)@ == old(self)@.after_fill(),
            final(self)@.wf(),
            r@ == Seq::new(SAMPLES as nat, |i: int| old(self)@.sample(i)),
    {
        let ghost m0 = self@;
        self.drop_closed();
        let ghost o = self@.streams;
        let mut out: Vec<i16> = Vec::new();
        let mut i: usize = 0;
        while i < SAMPLES
            invariant
                self@.wf(),
                self@.voices == m0.voices,
                self@.streams == open_streams(m0.streams),
                i <= SAMPLES,
                out@ == Seq::new(i as nat, |k: int| m0.sample(k)),
            decreases SAMPLES - i,
        {
            let v: i16 = self.mix_one(i);
            out.push(v);
            i += 1;
            proof {
                assert(out@ =~= Seq::new(i as nat, |k: int| m0.sample(k)));
            }
        }
        proof {
            lemma_open_played(m0.streams);
            lemma_voices_after_wf(m0.voices);
        }
        self.advance_voices();
        proof {
            assert forall|k: int| 0 <= k < o.len() implies (#[trigger] o[k]).wf() by {}
        }
        self.advance_streams();
        self.frames_mixed += (SAMPLES / 2) as u64;
        proof {
            assert(self@ =~= m0.after_fill());
            assert forall|k: int| 0 <= k < self@.streams.len() implies (#[trigger] self@.streams[k]).wf() by {
                assert(o[k].wf());
            }
        }
        out
    }
}

proof fn lemma_open_played(v: Seq<StreamState>)
    requires
        forall|i: int| 0 <= i < v.len() ==> (#[trigger] v[i]).played + SAMPLES <= u64::MAX,
    ensures
        forall|i: int| 0 <= i < open_streams(v).len() ==> (#[trigger] open_streams(v)[i]).played + SAMPLES <= u64::MAX,
    decreases v.len(),
{
    if v.len() > 0 {
        let d = v.drop_last();
        assert forall|i: int| 0 <= i < d.len() implies (#[trigger] d[i]).played + SAMPLES <= u64::MAX by {
            assert(v[i].played + SAMPLES <= u64::MAX);
        }
        lemma_open_played(d);
        assert(v[v.len() - 1].played + SAMPLES <= u64::MAX);
        let (o, od) = (open_streams(v), open_streams(d));
        assert forall|i: int| 0 <= i < o.len() implies (#[trigger] o[i]).played + SAMPLES <= u64::MAX by {
            if i < od.len() {
                assert(o[i] == od[i]);
            }
        }
    }
}

// ---------------------------------------------------------------------
// The audio thread
// ---------------------------------------------------------------------

/// What the audio thread does in one turn.
#[derive(Clone, Copy, Debug, PartialEq, Eq, Structural)]
pub struct Turn {
    /// Since when nothing has sounded; 0 while something does.
    pub idle_since: u64,
    /// Stop the card.
    pub stop: bool,
    /// Make this the last buffer that counts, before anything is filled.
    pub restart: Option<u8>,
    /// How many buffers to fill, after the last one that counts.
    pub fill: u8,
    /// Start the card, or let it go on.
    pub kick: bool,
}

/// How far one buffer is ahead of another, in the ring.
pub open spec fn distance(a: int, b: int) -> int {
    (a - b) % 32
}

pub open spec fn turn_of(idle_since: u64, running: bool, lvi: u8, busy: bool, now: u64, civ: u8) -> Turn {
    let quiet = !busy && running;
    let stop = quiet && idle_since != 0 && now - idle_since > 1000;
    let restart = if busy && !running { Some(((civ - 1) % 32) as u8) } else { None };
    let last = match restart {
        Some(l) => l as int,
        None => lvi as int,
    };
    let on = busy || (running && !stop);
    Turn {
        idle_since: if quiet { if idle_since == 0 { now } else { idle_since } } else if busy { 0 } else { idle_since },
        stop,
        restart,
        fill: (if on && distance(last, civ as int) < AHEAD { AHEAD - distance(last, civ as int) } else { 0 }) as u8,
        kick: on,
    }
}

/// One turn of the audio thread: whether the card runs, the last buffer
/// that counts (`lvi`), the one that plays (`civ`), and whether there is
/// anything to play. A quiet card is stopped after a second.
pub fn audio_turn(idle_since: u64, running: bool, lvi: u8, busy: bool, now: u64, civ: u8) -> (r: Turn)
    requires
        lvi < 32,
        civ < 32,
        idle_since <= now,
    ensures
        r == turn_of(idle_since, running, lvi, busy, now, civ),
        r.fill <= AHEAD,
{
    let quiet: bool = !busy && running;
    let stop: bool = quiet && idle_since != 0 && now - idle_since > 1000;
    let restart: Option<u8> = if busy && !running { Some((civ + 31) % 32) } else { None };
    let last: u8 = match restart {
        Some(l) => l,
        None => lvi,
    };
    let on: bool = busy || (running && !stop);
    let d: u8 = (last + 32 - civ) % 32;
    Turn {
        idle_since: if quiet { if idle_since == 0 { now } else { idle_since } } else if busy { 0 } else { idle_since },
        stop,
        restart,
        fill: if on && d < AHEAD { AHEAD - d } else { 0 },
        kick: on,
    }
}

/// While something plays, the ring is filled as far ahead as it should be:
/// never less than four buffers from where it is less.
pub proof fn lemma_filled_ahead(running: bool, lvi: u8, now: u64, civ: u8)
    requires
        lvi < 32,
        civ < 32,
        running,
        distance(lvi as int, civ as int) < AHEAD,
    ensures
        distance(lvi + turn_of(0, running, lvi, true, now, civ).fill, civ as int) == AHEAD,
{
}

/// Frames between being mixed and being heard (the DMA queue depth).
pub fn latency_frames() -> (r: u64)
    ensures
        r == AHEAD as int * SAMPLES as int / 2,
{
    AHEAD as u64 * SAMPLES as u64 / 2
}

/// The name of the sound card.
pub fn device_name(name: &Option<String>) -> (r: String)
    ensures
        r@ == match *name {
            Some(n) => n@,
            None => "No sound card found"@,
        },
{
    match name {
        Some(n) => to_text(&to_chars(n.as_str())),
        None => to_text(&to_chars("No sound card found")),
    }
}

/// Which system sound to play; respects the "system sounds" setting.
#[derive(Clone, Copy, Debug, PartialEq, Eq, Structural)]
pub enum SystemSound {
    Startup,
    Notify,
    Error,
    Click,
    Test,
}

/// Whether a system sound is played: not without a sound card, and only the
/// test sound while system sounds are off.
pub open spec fn is_heard(s: SystemSound, present: bool, system_sounds: bool) -> bool {
    present && (s == SystemSound::Test || system_sounds)
}

/// The notes of a system sound.
pub open spec fn notes_of(s: SystemSound) -> Seq<sounds::Note> {
    match s {
        SystemSound::Startup => sounds::startup_notes(),
        SystemSound::Notify => sounds::notify_notes(),
        SystemSound::Error => sounds::error_notes(),
        SystemSound::Click => sounds::click_notes(),
        SystemSound::Test => sounds::test_notes(),
    }
}

/// The samples of a system sound.
pub fn system_sound(s: SystemSound, table: &[i16]) -> (r: Vec<i16>)
    requires
        table@.len() == sounds::TABLE,
    ensures
        r@ == sounds::rendered(notes_of(s), table@),
{
    match s {
        SystemSound::Startup => sounds::startup(table),
        SystemSound::Notify => sounds::notify(table),
        SystemSound::Error => sounds::error(table),
        SystemSound::Click => sounds::click(table),
        SystemSound::Test => sounds::test(table),
    }
}

/// Play a system sound on the mixer of the sound card, if there is one;
/// returns an id usable with `stop`.
pub fn play_system(m: &mut Option<Mixer>, s: SystemSound, system_sounds: bool, table: &[i16]) -> (r: Option<u64>)
    requires
        *old(m) matches Some(x) ==> x@.wf() && x@.next_id < u64::MAX,
        table@.len() == sounds::TABLE,
    ensures
        match (*old(m), *final(m)) {
            (Some(x), Some(y)) => if is_heard(s, true, system_sounds) {
                y@ == x@.playing(sounds::rendered(notes_of(s), table@)) && r == Some(x@.next_id)
            } else {
                y@ == x@ && r is None
            },
            (None, None) => r is None,
            _ => false,
        },
        *final(m) matches Some(y) ==> y@.wf(),
{
    if !(s == SystemSound::Test || system_sounds) {
        return None;
    }
    match m {
        Some(x) => Some(x.play(system_sound(s, table))),
        None => None,
    }
}

/// Stopping a sound takes that one away, and leaves all others as they are
/// and in their order.
pub proof fn lemma_others_play_on(v: Seq<VoiceState>, id: u64)
    ensures
        without(v, id) == v.filter(|x: VoiceState| x.id != id),
        forall|i: int| 0 <= i < v.len() && (#[trigger] v[i]).id != id ==> without(v, id).contains(v[i]),
        forall|i: int| 0 <= i < without(v, id).len() ==> (#[trigger] without(v, id)[i]).id != id,
    decreases v.len(),
{
    let p = |x: VoiceState| x.id != id;
    reveal(Seq::filter);
    if v.len() == 0 {
        assert(without(v, id) =~= v.filter(p));
    } else {
        let w = without(v.drop_last(), id);
        lemma_others_play_on(v.drop_last(), id);
        assert(without(v, id) =~= v.filter(p));
        assert forall|i: int| 0 <= i < v.len() && (#[trigger] v[i]).id != id implies without(v, id).contains(v[i]) by {
            if i < v.len() - 1 {
                assert(v.drop_last()[i] == v[i]);
                let j = choose|j: int| 0 <= j < w.len() && w[j] == v[i];
                assert(without(v, id)[j] == v[i]);
            } else {
                assert(without(v, id).last() == v[i]);
            }
        }
    }
}

/// The master volume: a percentage, and whether all sound is off.
#[derive(Clone, Copy, Debug, PartialEq, Eq, Structural)]
pub struct Volume {
    pub percent: u8,
    pub muted: bool,
}

pub fn set_volume(percent: u8, muted: bool) -> (r: Volume)
    ensures
        r == (Volume { percent: min(percent as int, 100) as u8, muted }),
{
    Volume { percent: if percent < 100 { percent } else { 100 }, muted }
}

} // verus!
