//! The decoding engine: what to read and decode next.
//!
//! Audio always comes first: video is decoded only while enough sound is
//! queued, and when the CPU can't keep up, video skips ahead to the next
//! keyframe instead of making the sound stutter.

use crate::arith::{max, min};
use crate::text::{dec, push_dec, push_str, to_chars, to_text};
use std::collections::VecDeque;
use vstd::prelude::*;

verus! {

// ---------------------------------------------------------------------
// Opening
// ---------------------------------------------------------------------

/// What of a file can be played.
pub struct Tracks {
    pub video: bool,
    pub audio: bool,
    /// Shown when only part of the file can be played.
    pub warning: Option<String>,
}

/// The reason why nothing can be played, if that is so: the only track
/// cannot be decoded, or the audio track after the video track failed too.
pub open spec fn open_error(video: Option<Result<(), String>>, audio: Option<Result<(), String>>) -> Option<String> {
    match (video, audio) {
        (Some(Err(e)), None) => Some(e),
        (Some(Err(_)), Some(Err(e))) => Some(e),
        (None, Some(Err(e))) => Some(e),
        _ => None,
    }
}

/// Whether there is a track that can be decoded.
pub open spec fn opened(o: Option<Result<(), String>>) -> bool {
    match o {
        Some(Ok(_)) => true,
        _ => false,
    }
}

/// What can be played, given how the decoders of the tracks could be
/// opened.
pub fn playable(video: Option<Result<(), String>>, audio: Option<Result<(), String>>) -> (r: Result<Tracks, String>)
    ensures
        match r {
            Ok(t) => {
                &&& open_error(video, audio) is None
                &&& t.video == opened(video)
                &&& t.audio == opened(audio)
                &&& t.warning == match (video, audio) {
                    (_, Some(Err(e))) => Some(e),
                    (Some(Err(e)), _) => Some(e),
                    _ => None,
                }
            },
            Err(e) => open_error(video, audio) == Some(e),
        },
{
    let mut warning: Option<String> = None;
    let mut has_video: bool = false;
    match video {
        Some(Ok(())) => has_video = true,
        Some(Err(e)) => {
            if audio.is_none() {
                return Err(e);
            }
            warning = Some(e);
        },
        None => {},
    }
    let mut has_audio: bool = false;
    match audio {
        Some(Ok(())) => has_audio = true,
        Some(Err(e)) => {
            if !has_video {
                return Err(e);
            }
            warning = Some(e);
        },
        None => {},
    }
    Ok(Tracks { video: has_video, audio: has_audio, warning })
}

pub struct VideoTrack {
    pub codec: String,
    pub width: u32,
    pub height: u32,
}

pub struct AudioTrack {
    pub codec: String,
    pub rate: u32,
}

/// "MP4 - H.264 1280x720 - AAC 44100 Hz", with proper signs.
pub open spec fn described(format: Seq<char>, video: Option<VideoTrack>, audio: Option<AudioTrack>) -> Seq<char> {
    format + match video {
        Some(t) => " \u{b7} "@ + t.codec@ + " "@ + dec(t.width as nat) + "\u{d7}"@ + dec(t.height as nat),
        None => Seq::empty(),
    } + match audio {
        Some(t) => " \u{b7} "@ + t.codec@ + " "@ + dec(t.rate as nat) + " Hz"@,
        None => Seq::empty(),
    }
}

pub fn describe(format: &str, video: &Option<VideoTrack>, audio: &Option<AudioTrack>) -> (r: String)
    ensures
        r@ == described(format@, *video, *audio),
{
    let mut out: Vec<char> = to_chars(format);
    if let Some(t) = video {
        push_str(&mut out, " \u{b7} ");
        push_str(&mut out, t.codec.as_str());
        push_str(&mut out, " ");
        push_dec(&mut out, t.width as u64);
        push_str(&mut out, "\u{d7}");
        push_dec(&mut out, t.height as u64);
    }
    if let Some(t) = audio {
        push_str(&mut out, " \u{b7} ");
        push_str(&mut out, t.codec.as_str());
        push_str(&mut out, " ");
        push_dec(&mut out, t.rate as u64);
        push_str(&mut out, " Hz");
    }
    proof {
        assert(out@ =~= described(format@, *video, *audio));
    }
    to_text(&out)
}

// ---------------------------------------------------------------------
// Running
// ---------------------------------------------------------------------

/// Compressed video waiting to be decoded.
#[derive(Clone, Copy, Debug, PartialEq, Eq, Structural)]
pub struct Packet {
    pub pts: i64,
    pub key: bool,
}

/// Packets of video that may wait.
pub const MAX_WAITING: usize = 3000;

pub struct Engine {
    pub has_video: bool,
    pub has_audio: bool,
    pub duration_us: i64,
    /// Nothing before this time is shown or heard.
    pub skip_until: i64,
    /// The time at which the next audio is expected.
    pub audio_next: Option<i64>,
    /// There are no more packets.
    pub eof: bool,
    pub flushed: bool,
    /// Video waits for the next keyframe.
    pub skipping: bool,
    pub waiting: VecDeque<Packet>,
}

/// What the engine does next.
#[derive(Clone, Copy, Debug, PartialEq, Eq, Structural)]
pub enum Turn {
    /// The window is gone.
    Stop,
    /// Go to this time, with decoders, resampler and sound reset.
    Seek(i64),
    /// Go on; whether to leave out frames that others do not need, and
    /// whether to read a packet.
    Work { skip_nonref: bool, read: bool },
}

/// What becomes of the first packet of video that waits.
#[derive(Clone, Copy, Debug, PartialEq, Eq, Structural)]
pub enum VideoTurn {
    /// It stays.
    Wait,
    /// It is thrown away.
    Drop,
    /// It is decoded, with the decoder reset if it is the keyframe that was
    /// waited for.
    Decode { reset: bool },
}

/// What becomes of a packet of audio: how many frames of it are left out,
/// and how many frames of silence come before it.
#[derive(Clone, Copy, Debug, PartialEq, Eq, Structural)]
pub struct AudioTurn {
    pub start: u64,
    pub gap: u64,
}

pub open spec fn clamp64(v: int) -> int {
    if v > i64::MAX { i64::MAX as int } else if v < i64::MIN { i64::MIN as int } else { v }
}

fn to_i64(v: i128) -> (r: i64)
    ensures
        r == clamp64(v as int),
{
    if v > i64::MAX as i128 { i64::MAX } else if v < i64::MIN as i128 { i64::MIN } else { v as i64 }
}

/// Frames of a packet that lie before the time from which sound is wanted.
pub open spec fn audio_start(skip_until: int, pts: int, frames: int, rate: int) -> int {
    if pts < skip_until { min((skip_until - pts) * rate / 1_000_000, frames) } else { 0 }
}

/// The time of the first frame that is kept.
pub open spec fn audio_from(skip_until: int, pts: int, frames: int, rate: int) -> int {
    pts + audio_start(skip_until, pts, frames, rate) * 1_000_000 / rate
}

/// Frames of silence (at 48 kHz, five seconds at most) between the time at
/// which sound is expected and the time at which it starts. Gaps up to
/// thirty milliseconds are left alone.
pub open spec fn silence(expected: int, from: int) -> int {
    if from > expected + 30_000 { min((from - expected) * 48 / 1000, 240_000) } else { 0 }
}

/// Whether a keyframe is among the packets.
pub open spec fn key_waits(v: Seq<Packet>) -> bool {
    exists|i: int| 0 <= i < v.len() && (#[trigger] v[i]).key
}

impl Engine {
    /// Whether sound is so short that it comes before all else.
    pub open spec fn audio_low(self, queued: int) -> bool {
        self.has_audio && queued < 14_400
    }

    pub open spec fn audio_full(self, queued: int) -> bool {
        !self.has_audio || queued >= 24_000
    }

    pub open spec fn video_wanted(self, frames: int) -> bool {
        self.has_video && frames < 8
    }

    /// Whether to read the next packet: while sound is short, or video needs
    /// one.
    pub open spec fn reads(self, queued: int, frames: int) -> bool {
        !self.eof && (!self.audio_full(queued) || (self.video_wanted(frames) && self.waiting@.len() == 0))
            && self.waiting@.len() < MAX_WAITING
    }

    /// What becomes of the first packet that waits, and whether video then
    /// skips to a keyframe.
    pub open spec fn video_turn(self, queued: int, frames: int, clock: int) -> (VideoTurn, bool) {
        if !self.video_wanted(frames) || self.waiting@.len() == 0 || (self.audio_low(queued) && self.waiting@.len()
            < MAX_WAITING) {
            (VideoTurn::Wait, self.skipping)
        } else {
            let p = self.waiting@[0];
            let rest = self.waiting@.skip(1);
            let behind = self.has_audio && p.pts + 250_000 < clock;
            if self.skipping {
                if p.key { (VideoTurn::Decode { reset: true }, false) } else { (VideoTurn::Drop, true) }
            } else if (behind || rest.len() >= MAX_WAITING) && !p.key && key_waits(rest) {
                (VideoTurn::Drop, true)
            } else {
                (VideoTurn::Decode { reset: false }, false)
            }
        }
    }

    pub fn new(has_video: bool, has_audio: bool, duration_us: i64) -> (r: Engine)
        ensures
            r.has_video == has_video,
            r.has_audio == has_audio,
            r.duration_us == duration_us,
            r.skip_until == 0,
            r.audio_next is None,
            !r.eof,
            !r.flushed,
            !r.skipping,
            r.waiting@.len() == 0,
    {
        Engine {
            has_video,
            has_audio,
            duration_us,
            skip_until: 0,
            audio_next: None,
            eof: false,
            flushed: false,
            skipping: false,
            waiting: VecDeque::new(),
        }
    }

    /// What to do next: `stop` and `seek` come from the window, `late` says
    /// that it shows frames too late, `frames` are ready to be shown, and
    /// `queued` frames of sound are yet to be heard.
    pub fn turn(&mut self, stop: bool, seek: Option<i64>, late: bool, frames: usize, queued: u64) -> (r: Turn)
        ensures
            if stop {
                r == Turn::Stop && *final(self) == *old(self)
            } else {
                match seek {
                    Some(t) => {
                        let to = max(0, min(t as int, max(old(self).duration_us as int, 0)));
                        &&& r == Turn::Seek(to as i64)
                        &&& final(self).skip_until == to
                        &&& final(self).audio_next is None
                        &&& !final(self).eof
                        &&& !final(self).flushed
                        &&& !final(self).skipping
                        &&& final(self).waiting@.len() == 0
                        &&& final(self).has_video == old(self).has_video
                        &&& final(self).has_audio == old(self).has_audio
                        &&& final(self).duration_us == old(self).duration_us
                    },
                    None => r == (Turn::Work {
                        skip_nonref: late || old(self).skipping,
                        read: old(self).reads(queued as int, frames as int),
                    }) && *final(self) == *old(self),
                }
            },
    {
        if stop {
            return Turn::Stop;
        }
        if let Some(t) = seek {
            let end: i64 = if self.duration_us > 0 { self.duration_us } else { 0 };
            let to: i64 = if t < 0 { 0 } else if t > end { end } else { t };
            self.skip_until = to;
            self.audio_next = None;
            self.eof = false;
            self.flushed = false;
            self.waiting.clear();
            self.skipping = false;
            return Turn::Seek(to);
        }
        let full: bool = !self.has_audio || queued >= 24_000;
        let wanted: bool = self.has_video && frames < 8;
        let n: usize = self.waiting.len();
        Turn::Work {
            skip_nonref: late || self.skipping,
            read: !self.eof && (!full || (wanted && n == 0)) && n < MAX_WAITING,
        }
    }

    /// There was no packet to read.
    pub fn end_of_file(&mut self)
        ensures
            *final(self) == (Engine { eof: true, ..*old(self) }),
    {
        self.eof = true;
    }

    /// A packet of video was read.
    pub fn video_packet(&mut self, p: Packet)
        ensures
            final(self).waiting@ == old(self).waiting@.push(p),
            final(self).skipping == old(self).skipping,
            final(self).eof == old(self).eof,
            final(self).skip_until == old(self).skip_until,
            final(self).audio_next == old(self).audio_next,
            final(self).has_video == old(self).has_video,
            final(self).has_audio == old(self).has_audio,
            final(self).flushed == old(self).flushed,
            final(self).duration_us == old(self).duration_us,
    {
        self.waiting.push_back(p);
    }

    /// A packet of audio was decoded to so many frames at `rate`.
    pub fn audio_packet(&mut self, pts: i64, frames: u64, rate: u32) -> (r: AudioTurn)
        requires
            rate > 0,
        ensures
            ({
                let skip = old(self).skip_until as int;
                let start = audio_start(skip, pts as int, frames as int, rate as int);
                let from = audio_from(skip, pts as int, frames as int, rate as int);
                let expected = match old(self).audio_next {
                    Some(t) => t as int,
                    None => skip,
                };
                &&& r.start == start
                &&& r.gap == if start < frames { silence(expected, from) } else { 0 }
                &&& *final(self) == (Engine {
                    audio_next: if start < frames {
                        Some(clamp64(from + (frames - start) * 1_000_000 / (rate as int)) as i64)
                    } else {
                        old(self).audio_next
                    },
                    ..*old(self)
                })
            }),
    {
        let rate_w: i128 = rate as i128;
        let skip: i128 = self.skip_until as i128;
        let before: u128 = if (pts as i128) < skip { (skip - pts as i128) as u128 } else { 0 };
        proof {
            assert(before * rate <= 0x1_0000_0000_0000_0000 * 0x1_0000_0000) by (nonlinear_arith)
                requires
                    0 <= before <= 0x1_0000_0000_0000_0000,
                    0 <= rate <= 0x1_0000_0000,
            ;
            assert(0 <= before * rate) by (nonlinear_arith)
                requires
                    0 <= before,
                    0 <= rate,
            ;
        }
        let cut: u128 = before * rate as u128 / 1_000_000;
        let start: u64 = if cut < frames as u128 { cut as u64 } else { frames };
        proof {
            if pts >= self.skip_until {
                assert(before * rate == 0) by (nonlinear_arith)
                    requires
                        before == 0,
                ;
            }
            assert(start == audio_start(skip as int, pts as int, frames as int, rate as int));
        }
        let from: i128 = pts as i128 + (start as u128 * 1_000_000 / rate as u128) as i128;
        let expected: i128 = match self.audio_next {
            Some(t) => t as i128,
            None => skip,
        };
        let mut gap: u64 = 0;
        proof {
            assert(start * 1_000_000 / (rate as int) <= start * 1_000_000) by (nonlinear_arith)
                requires
                    rate > 0,
                    start >= 0,
            ;
        }
        if start < frames {
            if from > expected + 30_000 {
                let g: u128 = (from - expected) as u128 * 48 / 1000;
                gap = if g < 240_000 { g as u64 } else { 240_000 };
            }
            let rest: u128 = (frames - start) as u128 * 1_000_000 / rate as u128;
            proof {
                assert((frames - start) * 1_000_000 / (rate as int) <= (frames - start) * 1_000_000)
                    by (nonlinear_arith)
                    requires
                        rate > 0,
                        frames >= start,
                ;
            }
            self.audio_next = Some(to_i64(from + rest as i128));
        }
        AudioTurn { start, gap }
    }

    /// What becomes of the first packet of video that waits; `clock` is
    /// what the listener hears now.
    pub fn next_video(&mut self, queued: u64, frames: usize, clock: i64) -> (r: VideoTurn)
        ensures
            (r, final(self).skipping) == old(self).video_turn(queued as int, frames as int, clock as int),
            final(self).waiting@ == if r is Wait { old(self).waiting@ } else { old(self).waiting@.skip(1) },
            final(self).eof == old(self).eof,
            final(self).skip_until == old(self).skip_until,
            final(self).audio_next == old(self).audio_next,
            final(self).has_video == old(self).has_video,
            final(self).has_audio == old(self).has_audio,
            final(self).flushed == old(self).flushed,
            final(self).duration_us == old(self).duration_us,
    {
        let low: bool = self.has_audio && queued < 14_400;
        let n: usize = self.waiting.len();
        if !(self.has_video && frames < 8) || n == 0 || (low && n < MAX_WAITING) {
            return VideoTurn::Wait;
        }
        let p: Packet = match self.waiting.pop_front() {
            Some(p) => p,
            None => {
                return VideoTurn::Wait;
            },
        };
        proof {
            assert(self.waiting@ =~= old(self).waiting@.skip(1));
        }
        let behind: bool = self.has_audio && p.pts as i128 + 250_000 < clock as i128;
        if self.skipping {
            if p.key {
                self.skipping = false;
                return VideoTurn::Decode { reset: true };
            }
            return VideoTurn::Drop;
        }
        if (behind || n - 1 >= MAX_WAITING) && !p.key && self.has_key() {
            self.skipping = true;
            return VideoTurn::Drop;
        }
        VideoTurn::Decode { reset: false }
    }

    fn has_key(&self) -> (r: bool)
        ensures
            r == key_waits(self.waiting@),
    {
        let mut i: usize = 0;
        while i < self.waiting.len()
            invariant
                i <= self.waiting@.len(),
                forall|k: int| 0 <= k < i ==> !(#[trigger] self.waiting@[k]).key,
            decreases self.waiting@.len() - i,
        {
            if self.waiting[i].key {
                return true;
            }
            i += 1;
        }
        false
    }

    /// Whether a decoded frame is wanted.
    pub fn keeps_frame(&self, pts: i64) -> (r: bool)
        ensures
            r == (pts + 20_000 >= self.skip_until),
    {
        pts as i128 + 20_000 >= self.skip_until as i128
    }

    /// Whether all is decoded and the decoder is to be flushed, once.
    pub fn take_flush(&mut self) -> (r: bool)
        ensures
            r == (old(self).eof && old(self).waiting@.len() == 0 && !old(self).flushed),
            *final(self) == (Engine { flushed: old(self).flushed || r, ..*old(self) }),
    {
        if self.eof && self.waiting.len() == 0 && !self.flushed {
            self.flushed = true;
            return true;
        }
        false
    }
}

// ---------------------------------------------------------------------
// Laws
// ---------------------------------------------------------------------

/// While sound is short and there is room, video is left alone.
pub proof fn lemma_audio_first(e: Engine, queued: int, frames: int, clock: int)
    requires
        e.has_audio,
        queued < 14_400,
        e.waiting@.len() < MAX_WAITING,
    ensures
        e.video_turn(queued, frames, clock).0 is Wait,
        !e.eof ==> e.reads(queued, frames),
{
}

/// Once video skips, the next packet that is decoded is a keyframe.
pub proof fn lemma_skip_to_key(e: Engine, queued: int, frames: int, clock: int)
    requires
        e.skipping,
        e.video_turn(queued, frames, clock).0 is Decode,
    ensures
        e.waiting@[0].key,
        e.video_turn(queued, frames, clock).0 == (VideoTurn::Decode { reset: true }),
        !e.video_turn(queued, frames, clock).1,
{
}

/// Video starts to skip only if there is a keyframe to skip to.
pub proof fn lemma_skip_has_goal(e: Engine, queued: int, frames: int, clock: int)
    requires
        !e.skipping,
        e.video_turn(queued, frames, clock).1,
    ensures
        key_waits(e.waiting@.skip(1)),
{
}

/// Sound that was cut at the front does not start before the time from
/// which it is wanted by more than one frame.
pub proof fn lemma_cut_audio(skip_until: int, pts: int, frames: int, rate: int)
    requires
        rate > 0,
        frames >= 0,
        audio_start(skip_until, pts, frames, rate) < frames,
    ensures
        audio_from(skip_until, pts, frames, rate) > skip_until - 1_000_000int / rate - 2,
{
    if pts < skip_until {
        let d = skip_until - pts;
        let q = d * rate / 1_000_000;
        assert(q >= 0) by (nonlinear_arith)
            requires
                d > 0,
                rate > 0,
                q == d * rate / 1_000_000,
        ;
        // q frames take all but less than one frame of the time.
        assert(q * 1_000_000 > d * rate - 1_000_000) by (nonlinear_arith)
            requires
                q == d * rate / 1_000_000,
        ;
        let f = q * 1_000_000 / rate;
        let m = 1_000_000int / rate;
        assert(f * rate > q * 1_000_000 - rate) by (nonlinear_arith)
            requires
                f == q * 1_000_000 / rate,
                rate > 0,
        ;
        assert((m + 1) * rate > 1_000_000) by (nonlinear_arith)
            requires
                m == 1_000_000int / rate,
                rate > 0,
        ;
        assert(f > d - m - 2) by (nonlinear_arith)
            requires
                f * rate > q * 1_000_000 - rate,
                q * 1_000_000 > d * rate - 1_000_000,
                (m + 1) * rate > 1_000_000,
                rate > 0,
        ;
    }
}

/// No sound is cut that is wanted: what is dropped at the front of a packet
/// ends before the time from which sound is wanted.
pub proof fn lemma_cut_no_more(skip_until: int, pts: int, frames: int, rate: int)
    requires
        rate > 0,
        frames >= 0,
    ensures
        pts < skip_until ==> audio_from(skip_until, pts, frames, rate) <= skip_until,
        pts >= skip_until ==> audio_from(skip_until, pts, frames, rate) == pts,
        0 <= audio_start(skip_until, pts, frames, rate) <= frames,
{
    if pts < skip_until {
        let d = skip_until - pts;
        let q = d * rate / 1_000_000;
        let n = audio_start(skip_until, pts, frames, rate);
        assert(q >= 0 && q * 1_000_000 <= d * rate) by (nonlinear_arith)
            requires
                d > 0,
                rate > 0,
                q == d * rate / 1_000_000,
        ;
        assert(n * 1_000_000 / rate <= d) by (nonlinear_arith)
            requires
                n <= q,
                q * 1_000_000 <= d * rate,
                rate > 0,
        {
            assert(n * 1_000_000 <= d * rate);
            assert((n * 1_000_000) / rate <= (d * rate) / rate);
            assert((d * rate) / rate == d);
        }
    } else {
        assert(0int * 1_000_000 / rate == 0) by (nonlinear_arith)
            requires
                rate > 0,
        ;
    }
}

/// Silence fills a gap of up to five seconds, to within a frame, and never
/// more than the gap; a gap that nobody hears, and sound that overlaps,
/// get none.
pub proof fn lemma_silence_fills(expected: int, from: int)
    ensures
        expected + 30_000 < from <= expected + 5_000_000 ==> silence(expected, from) * 1000 <= (from - expected) * 48
            < (silence(expected, from) + 1) * 1000,
        from <= expected + 30_000 ==> silence(expected, from) == 0,
        from > expected + 5_000_000 ==> silence(expected, from) == silence(expected, expected + 5_000_000),
{
}

} // verus!
