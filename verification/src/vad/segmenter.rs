//! Segmentation: per-frame speech probabilities in, speech segments out.
//!
//! Positions are absolute sample positions, not frame indices. One frame is 512 samples at
//! 16 kHz and 256 at 8 kHz, and every frame that is fed advances the position by that much.

use vstd::prelude::*;

use crate::level::Level;
use crate::vad::config::VadConfig;

verus! {

/// A speech segment in absolute sample positions, padding included.
#[derive(Clone, Copy, Debug, PartialEq, Eq, Structural)]
pub struct Segment {
    /// First sample of the segment.
    pub start_sample: u64,
    /// The sample just after the segment.
    pub end_sample: u64,
}

impl Segment {
    /// The start position in milliseconds. A rate of 0 counts as 1.
    pub fn start_ms(&self, sample_rate: u32) -> (res: u64)
        requires
            self.start_sample * 1000 <= u64::MAX,
        ensures
            res == (self.start_sample * 1000) / (if sample_rate == 0 {
                1
            } else {
                sample_rate as int
            }),
    {
        position_ms(self.start_sample, sample_rate)
    }

    /// The end position in milliseconds. A rate of 0 counts as 1.
    pub fn end_ms(&self, sample_rate: u32) -> (res: u64)
        requires
            self.end_sample * 1000 <= u64::MAX,
        ensures
            res == (self.end_sample * 1000) / (if sample_rate == 0 {
                1
            } else {
                sample_rate as int
            }),
    {
        position_ms(self.end_sample, sample_rate)
    }

    /// The length in samples, 0 where the end lies before the start.
    pub fn len_samples(&self) -> (res: u64)
        ensures
            res == if self.end_sample >= self.start_sample {
                self.end_sample - self.start_sample
            } else {
                0
            },
    {
        if self.end_sample >= self.start_sample {
            self.end_sample - self.start_sample
        } else {
            0
        }
    }
}

fn position_ms(position: u64, sample_rate: u32) -> (res: u64)
    requires
        position * 1000 <= u64::MAX,
    ensures
        res == (position * 1000) / (if sample_rate == 0 {
            1
        } else {
            sample_rate as int
        }),
{
    let rate: u64 = if sample_rate == 0 {
        1
    } else {
        sample_rate as u64
    };
    position * 1000 / rate
}

/// The state of the segmentation.
pub struct Track {
    /// Frames at or above this are speech.
    pub threshold: Level,
    /// Frames below this are silence.
    pub neg: Level,
    /// Shorter speech is discarded (samples).
    pub min_speech: nat,
    /// Silence of this length ends speech (samples).
    pub min_silence: nat,
    /// Padding on both sides (samples).
    pub pad: nat,
    /// Longest speech before a forced split (samples), 0 for unlimited.
    pub max_speech: nat,
    /// Samples in one frame.
    pub frame: nat,
    /// Whether speech is open.
    pub triggered: bool,
    /// Where the open speech started.
    pub start: nat,
    /// Where the current silence started, 0 for none.
    pub temp_end: nat,
    /// Samples fed so far.
    pub pos: nat,
    /// End of the latest segment, 0 for none.
    pub prev_end: nat,
}

/// `a - b`, 0 where that is negative.
pub open spec fn monus(a: nat, b: nat) -> nat {
    if a >= b {
        (a - b) as nat
    } else {
        0
    }
}

impl Track {
    /// The state before the first frame.
    pub open spec fn fresh(config: VadConfig) -> Track {
        Track {
            threshold: config.threshold,
            neg: config.neg(),
            min_speech: config.samples(config.min_speech_ms),
            min_silence: config.samples(config.min_silence_ms),
            pad: config.samples(config.speech_pad_ms),
            max_speech: config.samples(config.max_speech_ms),
            frame: config.frame(),
            triggered: false,
            start: 0,
            temp_end: 0,
            pos: 0,
            prev_end: 0,
        }
    }

    /// The same settings, before the first frame.
    pub open spec fn cleared(self) -> Track {
        Track { triggered: false, start: 0, temp_end: 0, pos: 0, prev_end: 0, ..self }
    }

    /// The segment for the speech `[a, b)`: none where it is too short, else widened by the
    /// padding without reaching into the latest segment.
    pub open spec fn segment(self, a: nat, b: nat) -> Option<Segment> {
        if monus(b, a) < self.min_speech {
            None
        } else {
            let padded = monus(a, self.pad);
            Some(
                Segment {
                    start_sample: (if padded < self.prev_end {
                        self.prev_end
                    } else {
                        padded
                    }) as u64,
                    end_sample: (b + self.pad) as u64,
                },
            )
        }
    }

    /// The state once the speech `[a, b)` is settled.
    pub open spec fn settled(self, a: nat, b: nat) -> Track {
        if monus(b, a) < self.min_speech {
            self
        } else {
            Track { prev_end: b + self.pad, ..self }
        }
    }

    /// Whether the open speech has outgrown the longest length.
    pub open spec fn too_long(self) -> bool {
        self.triggered && self.max_speech != 0 && monus(self.pos, self.start) > self.max_speech
    }

    /// Where speech that is too long is cut: at the current silence where speech goes before it,
    /// else at the position.
    pub open spec fn cut(self) -> nat {
        if self.temp_end > self.start {
            self.temp_end
        } else {
            self.pos
        }
    }

    /// Cuts speech that is too long; the rest stays open.
    pub open spec fn limited(self) -> (Track, Option<Segment>) {
        if self.too_long() {
            (
                Track { start: self.cut(), temp_end: 0, ..self.settled(self.start, self.cut()) },
                self.segment(self.start, self.cut()),
            )
        } else {
            (self, None)
        }
    }

    /// One frame of probability `prob`.
    pub open spec fn step(self, prob: Level) -> (Track, Option<Segment>) {
        let at = self.pos;
        let next = Track { pos: self.pos + self.frame, ..self };
        if prob.ge(self.threshold) {
            let spoken = if self.triggered {
                Track { temp_end: 0, ..next }
            } else {
                Track { triggered: true, start: at, temp_end: 0, ..next }
            };
            spoken.limited()
        } else if prob.lt(self.neg) && self.triggered {
            let quiet_from = if self.temp_end == 0 {
                at
            } else {
                self.temp_end
            };
            if monus(at, quiet_from) >= self.min_silence {
                (
                    Track {
                        triggered: false,
                        temp_end: 0,
                        ..next.settled(self.start, quiet_from)
                    },
                    next.segment(self.start, quiet_from),
                )
            } else {
                Track { temp_end: quiet_from, ..next }.limited()
            }
        } else {
            next.limited()
        }
    }

    /// The end of input at `end`: open speech is closed there.
    pub open spec fn finished_at(self, end: nat) -> (Track, Option<Segment>) {
        if self.triggered {
            (
                Track { triggered: false, temp_end: 0, ..self.settled(self.start, end) },
                self.segment(self.start, end),
            )
        } else {
            (self, None)
        }
    }

    /// The end of input at the position.
    pub open spec fn finished(self) -> (Track, Option<Segment>) {
        self.finished_at(self.pos)
    }

    /// What holds between frames.
    pub open spec fn wf(self) -> bool {
        &&& self.frame > 0
        &&& self.pos + self.pad <= u64::MAX
        &&& !self.triggered ==> self.temp_end == 0
        &&& self.triggered ==> self.pos > 0 && (self.start == self.pos || self.start + self.frame
            <= self.pos)
        &&& self.temp_end != 0 ==> self.temp_end + self.frame <= self.pos && (self.temp_end
            == self.start || self.start + self.frame <= self.temp_end)
        &&& self.prev_end <= (if self.triggered {
            self.start
        } else {
            self.pos
        }) + self.pad
        &&& self.triggered && self.max_speech > 0 ==> self.pos - self.start <= self.max_speech
    }
}

/// The state machine that cuts frames into segments.
#[derive(Clone, Copy, Debug)]
pub struct Segmenter {
    threshold: Level,
    neg_threshold: Level,
    min_speech_samples: u64,
    min_silence_samples: u64,
    speech_pad_samples: u64,
    max_speech_samples: u64,
    frame_size: u64,
    triggered: bool,
    current_start: u64,
    temp_end: u64,
    next_pos: u64,
    prev_end: u64,
}

impl View for Segmenter {
    type V = Track;

    closed spec fn view(&self) -> Track {
        Track {
            threshold: self.threshold,
            neg: self.neg_threshold,
            min_speech: self.min_speech_samples as nat,
            min_silence: self.min_silence_samples as nat,
            pad: self.speech_pad_samples as nat,
            max_speech: self.max_speech_samples as nat,
            frame: self.frame_size as nat,
            triggered: self.triggered,
            start: self.current_start as nat,
            temp_end: self.temp_end as nat,
            pos: self.next_pos as nat,
            prev_end: self.prev_end as nat,
        }
    }
}

/// `out` grown by the segment, if there is one.
pub open spec fn grown(out: Seq<Segment>, segment: Option<Segment>) -> Seq<Segment> {
    match segment {
        Some(s) => out.push(s),
        None => out,
    }
}

impl Segmenter {
    /// A segmenter before its first frame.
    pub fn new(config: &VadConfig) -> (res: Segmenter)
        ensures
            res@ == Track::fresh(*config),
            res@.wf(),
    {
        Segmenter {
            threshold: config.threshold,
            neg_threshold: config.resolved_neg_threshold(),
            min_speech_samples: config.ms_to_samples(config.min_speech_ms),
            min_silence_samples: config.ms_to_samples(config.min_silence_ms),
            speech_pad_samples: config.ms_to_samples(config.speech_pad_ms),
            max_speech_samples: config.ms_to_samples(config.max_speech_ms),
            frame_size: config.frame_size() as u64,
            triggered: false,
            current_start: 0,
            temp_end: 0,
            next_pos: 0,
            prev_end: 0,
        }
    }

    /// Returns to the state before the first frame.
    pub fn reset(&mut self)
        requires
            old(self)@.wf(),
        ensures
            final(self)@ == old(self)@.cleared(),
            final(self)@.wf(),
    {
        self.triggered = false;
        self.current_start = 0;
        self.temp_end = 0;
        self.next_pos = 0;
        self.prev_end = 0;
    }

    /// Whether the positions of `frames` more frames fit a machine word.
    pub fn has_room(&self, frames: usize) -> (res: bool)
        requires
            self@.wf(),
        ensures
            res == fits(self@, frames as nat),
    {
        assert(0 <= frames * self.frame_size <= 0xffff_ffff_ffff_ffff * 0xffff_ffff_ffff_ffff)
            by (nonlinear_arith)
            requires
                0 <= frames <= 0xffff_ffff_ffff_ffff,
                0 <= self.frame_size <= 0xffff_ffff_ffff_ffff,
        ;
        let end: u128 = frames as u128 * self.frame_size as u128;
        end <= 0xffff_ffff_ffff_ffff && self.next_pos as u128 + end + self.speech_pad_samples as u128
            <= 0xffff_ffff_ffff_ffff
    }

    /// Feeds the probability of one frame and appends the segment that it settles, if any.
    pub fn feed(&mut self, prob: Level, out: &mut Vec<Segment>)
        requires
            old(self)@.wf(),
            old(self)@.pos + old(self)@.frame + old(self)@.pad <= u64::MAX,
        ensures
            final(self)@ == old(self)@.step(prob).0,
            final(out)@ == grown(old(out)@, old(self)@.step(prob).1),
            final(self)@.wf(),
    {
        let frame_start: u64 = self.next_pos;
        let frame_end: u64 = frame_start + self.frame_size;
        self.next_pos = frame_end;
        if prob.at_least(self.threshold) {
            self.temp_end = 0;
            if !self.triggered {
                self.triggered = true;
                self.current_start = frame_start;
            }
            self.check_max_speech(out);
            return;
        }
        if prob.below(self.neg_threshold) && self.triggered {
            if self.temp_end == 0 {
                self.temp_end = frame_start;
            }
            if frame_start - self.temp_end >= self.min_silence_samples {
                let start: u64 = self.current_start;
                let end: u64 = self.temp_end;
                self.finalize_segment(start, end, out);
                self.triggered = false;
                self.temp_end = 0;
                return;
            }
        }
        self.check_max_speech(out);
    }

    /// Cuts the open speech where it has grown too long.
    fn check_max_speech(&mut self, out: &mut Vec<Segment>)
        requires
            old(self)@.pos + old(self)@.pad <= u64::MAX,
            old(self)@.triggered ==> old(self)@.start <= old(self)@.pos,
            old(self)@.temp_end <= old(self)@.pos,
            old(self)@.prev_end <= u64::MAX,
        ensures
            final(self)@ == old(self)@.limited().0,
            final(out)@ == grown(old(out)@, old(self)@.limited().1),
    {
        if !self.triggered || self.max_speech_samples == 0 {
            return;
        }
        let frame_end: u64 = self.next_pos;
        let start: u64 = self.current_start;
        if frame_end - start <= self.max_speech_samples {
            return;
        }
        let split: u64 = if self.temp_end > start {
            self.temp_end
        } else {
            frame_end
        };
        self.finalize_segment(start, split, out);
        self.current_start = split;
        self.temp_end = 0;
    }

    /// Closes the open speech at the position, as at the end of input.
    pub fn flush(&mut self, out: &mut Vec<Segment>)
        requires
            old(self)@.wf(),
        ensures
            final(self)@ == old(self)@.finished().0,
            final(out)@ == grown(old(out)@, old(self)@.finished().1),
            final(self)@.wf(),
    {
        let end: u64 = self.next_pos;
        self.flush_at(end, out);
    }

    /// Closes the open speech at the end of input, which may lie within a frame that was not fed.
    pub fn flush_at(&mut self, end: u64, out: &mut Vec<Segment>)
        requires
            old(self)@.wf(),
            end + old(self)@.pad <= u64::MAX,
        ensures
            final(self)@ == old(self)@.finished_at(end as nat).0,
            final(out)@ == grown(old(out)@, old(self)@.finished_at(end as nat).1),
            end == old(self)@.pos ==> final(self)@.wf(),
    {
        if self.triggered {
            let start: u64 = self.current_start;
            self.finalize_segment(start, end, out);
            self.triggered = false;
            self.temp_end = 0;
        }
    }

    /// Appends the segment for the speech from `raw_start` to `raw_end`, unless it is too short.
    fn finalize_segment(&mut self, raw_start: u64, raw_end: u64, out: &mut Vec<Segment>)
        requires
            raw_end + old(self)@.pad <= u64::MAX,
        ensures
            final(self)@ == old(self)@.settled(raw_start as nat, raw_end as nat),
            final(out)@ == grown(
                old(out)@,
                old(self)@.segment(raw_start as nat, raw_end as nat),
            ),
    {
        let length: u64 = if raw_end >= raw_start {
            raw_end - raw_start
        } else {
            0
        };
        if length < self.min_speech_samples {
            return;
        }
        let mut start: u64 = if raw_start >= self.speech_pad_samples {
            raw_start - self.speech_pad_samples
        } else {
            0
        };
        let end: u64 = raw_end + self.speech_pad_samples;
        if start < self.prev_end {
            start = self.prev_end;
        }
        self.prev_end = end;
        out.push(Segment { start_sample: start, end_sample: end });
    }
}

// ---------------------------------------------------------------------------
// Laws
// ---------------------------------------------------------------------------

/// All frames of a recording, fed in order: the state and the segments so far.
pub open spec fn run(t: Track, probs: Seq<Level>) -> (Track, Seq<Segment>)
    decreases probs.len(),
{
    if probs.len() == 0 {
        (t, Seq::empty())
    } else {
        let before = run(t, probs.drop_last());
        let now = before.0.step(probs.last());
        (now.0, grown(before.1, now.1))
    }
}

/// A whole recording of so many samples: all its frames, then the end of input.
pub open spec fn batch(t: Track, probs: Seq<Level>, samples: nat) -> Seq<Segment> {
    let fed = run(t, probs);
    grown(fed.1, fed.0.finished_at(samples).1)
}

/// Whether a recording of so many samples has so many whole frames, and its end fits a machine
/// word.
pub open spec fn holds(t: Track, samples: nat, frames: nat) -> bool {
    &&& t.pos + frames * t.frame <= samples < t.pos + (frames + 1) * t.frame
    &&& samples + t.pad <= u64::MAX
}

/// Whether the positions of `n` more frames fit a machine word.
pub open spec fn fits(t: Track, n: nat) -> bool {
    t.pos + n * t.frame + t.pad <= u64::MAX
}

/// Settings never change, and every frame advances the position by one frame.
pub open spec fn same_settings(a: Track, b: Track) -> bool {
    &&& a.threshold == b.threshold
    &&& a.neg == b.neg
    &&& a.min_speech == b.min_speech
    &&& a.min_silence == b.min_silence
    &&& a.pad == b.pad
    &&& a.max_speech == b.max_speech
    &&& a.frame == b.frame
}

/// What holds of a segment that comes after one that ended at `before`.
pub open spec fn sound_segment(t: Track, before: nat, s: Segment) -> bool {
    &&& before <= s.start_sample <= s.end_sample
    &&& s.end_sample - s.start_sample >= t.min_speech
    &&& t.max_speech > 0 ==> s.end_sample - s.start_sample <= t.max_speech + t.frame + 2 * t.pad
}

/// One frame keeps the invariant, advances the position by one frame, and settles at most one
/// segment, which starts no earlier than the previous one ended, is no shorter than the least
/// speech, and no longer than the longest speech by more than one frame and the padding.
pub proof fn lemma_step_sound(t: Track, prob: Level)
    requires
        t.wf(),
        fits(t, 1),
    ensures
        t.step(prob).0.wf(),
        same_settings(t, t.step(prob).0),
        t.step(prob).0.pos == t.pos + t.frame,
        match t.step(prob).1 {
            Some(s) => sound_segment(t, t.prev_end, s) && t.step(prob).0.prev_end
                == s.end_sample && s.end_sample <= t.step(prob).0.pos + t.pad,
            None => t.step(prob).0.prev_end == t.prev_end,
        },
{
}

/// The same of the end of input, less than a frame behind the last frame that was fed.
pub proof fn lemma_finish_sound(t: Track, end: nat)
    requires
        t.wf(),
        t.pos <= end < t.pos + t.frame,
        end + t.pad <= u64::MAX,
    ensures
        t.finished().0.wf(),
        !t.finished_at(end).0.triggered,
        same_settings(t, t.finished_at(end).0),
        t.finished_at(end).0.pos == t.pos,
        match t.finished_at(end).1 {
            Some(s) => sound_segment(t, t.prev_end, s) && t.finished_at(end).0.prev_end
                == s.end_sample && s.end_sample == end + t.pad,
            None => t.finished_at(end).0.prev_end == t.prev_end,
        },
{
}

/// Whether segments lie in order without overlap, none under the least speech and none over
/// the longest speech by more than one frame and the padding.
pub open spec fn well_cut(t: Track, out: Seq<Segment>) -> bool {
    &&& forall|i: int| 0 <= i < out.len() ==> sound_segment(t, 0, #[trigger] out[i])
    &&& forall|i: int, j: int|
        0 <= i < j < out.len() ==> (#[trigger] out[i]).end_sample <= (
        #[trigger] out[j]).start_sample
}

proof fn lemma_grown_well_cut(t: Track, out: Seq<Segment>, before: nat, s: Segment)
    requires
        well_cut(t, out),
        forall|i: int| 0 <= i < out.len() ==> (#[trigger] out[i]).end_sample <= before,
        sound_segment(t, before, s),
    ensures
        well_cut(t, out.push(s)),
        forall|i: int|
            0 <= i < out.len() + 1 ==> (#[trigger] out.push(s)[i]).end_sample <= s.end_sample,
{
}

/// Frames fed in order keep the invariant and settle segments that are well cut, all of them
/// ending within the fed samples plus the padding.
pub proof fn lemma_run_sound(t: Track, probs: Seq<Level>)
    requires
        t.wf(),
        t.prev_end == 0,
        fits(t, probs.len()),
    ensures
        ({
            let (after, out) = run(t, probs);
            &&& after.wf()
            &&& same_settings(t, after)
            &&& after.pos == t.pos + probs.len() * t.frame
            &&& well_cut(t, out)
            &&& forall|i: int|
                0 <= i < out.len() ==> (#[trigger] out[i]).end_sample <= after.prev_end
            &&& after.prev_end <= after.pos + t.pad
        }),
    decreases probs.len(),
{
    if probs.len() > 0 {
        let shorter = probs.drop_last();
        assert(shorter.len() * t.frame + t.frame == probs.len() * t.frame) by (nonlinear_arith)
            requires
                shorter.len() == probs.len() - 1,
        ;
        lemma_run_sound(t, shorter);
        let (mid, out) = run(t, shorter);
        assert(fits(mid, 1));
        lemma_step_sound(mid, probs.last());
        match mid.step(probs.last()).1 {
            Some(s) => {
                lemma_grown_well_cut(t, out, mid.prev_end, s);
            },
            None => {},
        }
    }
}

/// A whole recording is cut into segments that lie in order without overlap, each no shorter
/// than the least speech and no longer than the longest speech by more than one frame and the
/// padding, the last one ending within the recording plus the padding.
pub proof fn lemma_batch_sound(config: VadConfig, probs: Seq<Level>, samples: nat)
    requires
        holds(Track::fresh(config), samples, probs.len()),
    ensures
        well_cut(Track::fresh(config), batch(Track::fresh(config), probs, samples)),
        forall|i: int|
            0 <= i < batch(Track::fresh(config), probs, samples).len() ==> (
            #[trigger] batch(Track::fresh(config), probs, samples)[i]).end_sample <= samples
                + config.samples(config.speech_pad_ms),
{
    let t = Track::fresh(config);
    assert((probs.len() + 1) * t.frame == probs.len() * t.frame + t.frame) by (nonlinear_arith);
    lemma_run_sound(t, probs);
    let (mid, out) = run(t, probs);
    lemma_finish_sound(mid, samples);
    match mid.finished_at(samples).1 {
        Some(s) => {
            lemma_grown_well_cut(t, out, mid.prev_end, s);
        },
        None => {},
    }
}

/// Feeding two stretches one after the other is feeding them as one.
pub proof fn lemma_run_splits(t: Track, a: Seq<Level>, b: Seq<Level>)
    ensures
        run(t, a + b).0 == run(run(t, a).0, b).0,
        run(t, a + b).1 == run(t, a).1 + run(run(t, a).0, b).1,
    decreases b.len(),
{
    if b.len() == 0 {
        assert(a + b =~= a);
        assert(run(t, a).1 + Seq::<Segment>::empty() =~= run(t, a).1);
    } else {
        lemma_run_splits(t, a, b.drop_last());
        assert((a + b).drop_last() =~= a + b.drop_last());
        assert((a + b).last() == b.last());
        let now = run(t, a + b.drop_last()).0.step(b.last());
        match now.1 {
            Some(s) => {
                assert(run(t, a).1 + run(run(t, a).0, b.drop_last()).1.push(s) =~= (run(t, a).1
                    + run(run(t, a).0, b.drop_last()).1).push(s));
            },
            None => {},
        }
    }
}

/// Speech that is open at the end of a recording extends to its end, padding included.
pub proof fn lemma_open_speech_extends_to_the_end(t: Track, probs: Seq<Level>, samples: nat)
    requires
        run(t, probs).0.triggered,
        monus(samples, run(t, probs).0.start) >= run(t, probs).0.min_speech,
        samples + run(t, probs).0.pad <= u64::MAX,
    ensures
        batch(t, probs, samples).len() > 0,
        batch(t, probs, samples).last().end_sample == samples + run(t, probs).0.pad,
{
}

/// Frames that never reach the threshold open no speech and settle no segment.
pub proof fn lemma_no_speech_no_segment(t: Track, probs: Seq<Level>, samples: nat)
    requires
        !t.triggered,
        forall|i: int| 0 <= i < probs.len() ==> !(#[trigger] probs[i]).ge(t.threshold),
    ensures
        run(t, probs).1 == Seq::<Segment>::empty(),
        !run(t, probs).0.triggered,
        same_settings(t, run(t, probs).0),
        batch(t, probs, samples) == Seq::<Segment>::empty(),
    decreases probs.len(),
{
    if probs.len() > 0 {
        lemma_no_speech_no_segment(t, probs.drop_last(), samples);
        assert(!probs[probs.len() - 1].ge(t.threshold));
    }
}

/// A frame between the two thresholds changes nothing but the position while the speech is
/// not too long.
pub proof fn lemma_gray_zone_keeps_state(t: Track, prob: Level)
    requires
        !prob.ge(t.threshold),
        !prob.lt(t.neg),
        !(Track { pos: t.pos + t.frame, ..t }).too_long(),
    ensures
        t.step(prob) == (Track { pos: t.pos + t.frame, ..t }, None::<Segment>),
{
}

/// Returning to the start after any frames gives the state of a new segmenter.
pub proof fn lemma_cleared_is_fresh(config: VadConfig, probs: Seq<Level>)
    requires
        fits(Track::fresh(config), probs.len()),
    ensures
        run(Track::fresh(config), probs).0.cleared() == Track::fresh(config),
{
    lemma_run_sound(Track::fresh(config), probs);
}

/// At the end of input nothing is settled unless speech is open.
pub proof fn lemma_finish_idle(t: Track, end: nat)
    requires
        !t.triggered,
    ensures
        t.finished_at(end) == (t, None::<Segment>),
{
}

/// Speech is settled by its own two ends alone. It becomes a segment exactly where it is no
/// shorter than the least speech. The segment starts by the padding before the speech, but
/// neither before the recording nor before the end of the latest segment, and ends by the padding
/// behind it; the end of the latest segment is then its end.
pub proof fn lemma_segment_of_speech(t: Track, a: nat, b: nat)
    requires
        b + t.pad <= u64::MAX,
        t.prev_end <= u64::MAX,
        a <= b,
    ensures
        t.segment(a, b) is Some <==> b - a >= t.min_speech,
        b - a >= t.min_speech ==> {
            let s = t.segment(a, b)->0;
            &&& s.end_sample == b + t.pad
            &&& s.start_sample >= t.prev_end
            &&& s.start_sample + t.pad >= a
            &&& s.start_sample == t.prev_end || s.start_sample == 0 || s.start_sample + t.pad == a
            &&& t.settled(a, b) == (Track { prev_end: b + t.pad, ..t })
        },
        b - a < t.min_speech ==> t.settled(a, b) == t,
{
}

/// A frame of speech opens speech at its first sample, unless a frame alone is too long.
pub proof fn lemma_speech_opens(t: Track, prob: Level)
    requires
        !t.triggered,
        prob.ge(t.threshold),
        t.max_speech == 0 || t.frame <= t.max_speech,
    ensures
        t.step(prob).1 is None,
        t.step(prob).0 == (Track {
            triggered: true,
            start: t.pos,
            temp_end: 0,
            pos: t.pos + t.frame,
            ..t
        }),
{
}

/// A frame of speech keeps open speech open and ends the silence in it.
pub proof fn lemma_speech_goes_on(t: Track, prob: Level)
    requires
        t.triggered,
        prob.ge(t.threshold),
        t.max_speech == 0 || t.pos + t.frame <= t.start + t.max_speech,
    ensures
        t.step(prob).1 is None,
        t.step(prob).0 == (Track { temp_end: 0, pos: t.pos + t.frame, ..t }),
{
}

/// Outside speech a frame below the threshold only advances the position.
pub proof fn lemma_silence_stays_idle(t: Track, prob: Level)
    requires
        !t.triggered,
        !prob.ge(t.threshold),
    ensures
        t.step(prob).1 is None,
        t.step(prob).0 == (Track { pos: t.pos + t.frame, ..t }),
{
}

/// Silence in speech is remembered from its first frame on, and leaves the speech open until it
/// has lasted long enough.
pub proof fn lemma_short_silence_is_bridged(t: Track, prob: Level)
    requires
        t.triggered,
        !prob.ge(t.threshold),
        prob.lt(t.neg),
        t.temp_end <= t.pos,
        t.temp_end == 0 ==> t.min_silence > 0,
        t.temp_end > 0 ==> t.pos < t.temp_end + t.min_silence,
        t.max_speech == 0 || t.pos + t.frame <= t.start + t.max_speech,
    ensures
        t.step(prob).1 is None,
        t.temp_end == 0 ==> t.step(prob).0 == (Track {
            temp_end: t.pos,
            pos: t.pos + t.frame,
            ..t
        }),
        t.temp_end > 0 ==> t.step(prob).0 == (Track { pos: t.pos + t.frame, ..t }),
{
}

/// Silence that has lasted long enough ends the speech where the silence began. The speech
/// becomes a segment exactly where it is no shorter than the least speech.
pub proof fn lemma_long_silence_ends_speech(t: Track, prob: Level, quiet: nat)
    requires
        t.wf(),
        t.triggered,
        !prob.ge(t.threshold),
        prob.lt(t.neg),
        t.temp_end == 0 ==> quiet == t.pos,
        t.temp_end > 0 ==> quiet == t.temp_end,
        t.pos >= quiet + t.min_silence,
        t.pos + t.frame + t.pad <= u64::MAX,
    ensures
        !t.step(prob).0.triggered,
        t.step(prob).0.temp_end == 0,
        t.step(prob).0.pos == t.pos + t.frame,
        same_settings(t, t.step(prob).0),
        t.step(prob).1 is Some <==> quiet >= t.start + t.min_speech,
        t.step(prob).1 is None ==> t.step(prob).0.prev_end == t.prev_end,
        t.step(prob).1 is Some ==> {
            let s = t.step(prob).1->0;
            &&& s.end_sample == quiet + t.pad
            &&& t.step(prob).0.prev_end == s.end_sample
            &&& s.start_sample >= t.prev_end
            &&& s.start_sample + t.pad >= t.start
            &&& s.start_sample == t.prev_end || s.start_sample == 0 || s.start_sample + t.pad
                == t.start
        },
{
}

/// Speech that has grown too long is cut at the silence in it, where there is one behind its
/// start, and else behind the frame. What was cut off becomes a segment exactly where it is no
/// shorter than the least speech, and the speech goes on from the cut.
pub proof fn lemma_long_speech_is_cut(t: Track, prob: Level, start: nat, cut: nat)
    requires
        t.wf(),
        t.triggered || prob.ge(t.threshold),
        t.triggered ==> start == t.start,
        !t.triggered ==> start == t.pos,
        t.max_speech > 0,
        t.pos + t.frame > start + t.max_speech,
        t.pos + t.frame + t.pad <= u64::MAX,
        prob.ge(t.threshold) ==> cut == t.pos + t.frame,
        !prob.ge(t.threshold) && t.temp_end > start ==> cut == t.temp_end,
        !prob.ge(t.threshold) && t.temp_end == 0 && prob.lt(t.neg) && t.pos > start ==> cut
            == t.pos,
        !prob.ge(t.threshold) && t.temp_end == 0 && prob.lt(t.neg) && t.pos == start ==> cut
            == t.pos + t.frame,
        !prob.ge(t.threshold) && t.temp_end == 0 && !prob.lt(t.neg) ==> cut == t.pos + t.frame,
        !prob.ge(t.threshold) && 0 < t.temp_end <= start ==> cut == t.pos + t.frame,
        !prob.ge(t.threshold) && prob.lt(t.neg) && t.temp_end == 0 ==> t.min_silence > 0,
        !prob.ge(t.threshold) && prob.lt(t.neg) && t.temp_end > 0 ==> t.pos < t.temp_end
            + t.min_silence,
    ensures
        t.step(prob).0.triggered,
        t.step(prob).0.start == cut,
        t.step(prob).0.temp_end == 0,
        t.step(prob).0.pos == t.pos + t.frame,
        same_settings(t, t.step(prob).0),
        t.step(prob).1 is Some <==> cut >= start + t.min_speech,
        t.step(prob).1 is None ==> t.step(prob).0.prev_end == t.prev_end,
        t.step(prob).1 is Some ==> {
            let s = t.step(prob).1->0;
            &&& s.end_sample == cut + t.pad
            &&& t.step(prob).0.prev_end == s.end_sample
            &&& s.start_sample >= t.prev_end
            &&& s.start_sample + t.pad >= start
            &&& s.start_sample == t.prev_end || s.start_sample == 0 || s.start_sample + t.pad
                == start
        },
{
}

/// Speech that is open at the end of input is closed there, and becomes a segment exactly where
/// it is no shorter than the least speech.
pub proof fn lemma_end_closes_speech(t: Track, end: nat)
    requires
        t.triggered,
        t.start <= end,
        t.prev_end <= u64::MAX,
        end + t.pad <= u64::MAX,
    ensures
        !t.finished_at(end).0.triggered,
        t.finished_at(end).0.pos == t.pos,
        t.finished_at(end).0.temp_end == 0,
        t.finished() == t.finished_at(t.pos),
        t.finished_at(end).1 is Some <==> end >= t.start + t.min_speech,
        t.finished_at(end).1 is None ==> t.finished_at(end).0.prev_end == t.prev_end,
        t.finished_at(end).1 is Some ==> {
            let s = t.finished_at(end).1->0;
            &&& s.end_sample == end + t.pad
            &&& t.finished_at(end).0.prev_end == s.end_sample
            &&& s.start_sample >= t.prev_end
            &&& s.start_sample + t.pad >= t.start
            &&& s.start_sample == t.prev_end || s.start_sample == 0 || s.start_sample + t.pad
                == t.start
        },
{
}

/// The settings of a segmenter are those of its configuration, its lengths in samples.
pub proof fn lemma_fresh_settings(config: VadConfig)
    ensures
        ({
            let t = Track::fresh(config);
            let rate = config.sample_rate as int;
            &&& t.threshold == config.threshold
            &&& t.neg == config.neg()
            &&& t.min_speech == config.min_speech_ms * rate / 1000
            &&& t.min_silence == config.min_silence_ms * rate / 1000
            &&& t.pad == config.speech_pad_ms * rate / 1000
            &&& t.max_speech == config.max_speech_ms * rate / 1000
            &&& t.frame == if config.sample_rate == 8000 {
                256int
            } else {
                512
            }
            &&& !t.triggered && t.pos == 0 && t.prev_end == 0 && t.temp_end == 0
        }),
{
}

/// Whether a position is the first sample of a frame of speech.
pub open spec fn opens(t: Track, probs: Seq<Level>, a: nat) -> bool {
    exists|k: int|
        0 <= k < probs.len() && (#[trigger] probs[k]).ge(t.threshold) && a == t.pos + k * t.frame
}

/// Whether speech that had grown too long was cut at a position with frame `m`.
pub open spec fn cuts(t: Track, probs: Seq<Level>, m: int, a: nat) -> bool {
    let before = run(t, probs.take(m)).0;
    let after = run(t, probs.take(m + 1)).0;
    &&& 0 <= m < probs.len()
    &&& t.max_speech > 0
    &&& after.triggered
    &&& after.start == a
    &&& after.pos > t.max_speech + if before.triggered {
        before.start
    } else {
        before.pos
    }
}

/// Whether a position is the first sample of a stretch of silence, up to frame `c`, in which no
/// frame is speech.
pub open spec fn quiet(t: Track, probs: Seq<Level>, q: int, c: int, b: nat) -> bool {
    &&& 0 <= q <= c < probs.len()
    &&& b == t.pos + q * t.frame
    &&& probs[q].lt(t.neg)
    &&& forall|j: int| q <= j <= c ==> !(#[trigger] probs[j]).ge(t.threshold)
}

spec fn quiet_until(t: Track, probs: Seq<Level>, c: int, b: nat) -> bool {
    exists|q: int| quiet(t, probs, q, c, b)
}

/// Whether speech starts at a position: with a frame of speech, or behind a cut.
pub open spec fn starts(t: Track, probs: Seq<Level>, a: nat) -> bool {
    opens(t, probs, a) || exists|m: int| cuts(t, probs, m, a)
}

/// Whether speech ends at a position: with silence that lasts long enough, or at a cut.
pub open spec fn ends(t: Track, probs: Seq<Level>, b: nat) -> bool {
    ||| exists|m: int| cuts(t, probs, m, b)
    ||| exists|q: int, c: int|
        #![trigger quiet(t, probs, q, c, b)]
        quiet(t, probs, q, c, b) && probs[c].lt(t.neg) && (c - q) * t.frame >= t.min_silence
}

/// Whether a segment is that of the speech `[a, b)`, with the end of the segment before it.
pub open spec fn covers(t: Track, before: nat, a: nat, b: nat, s: Segment) -> bool {
    &&& a + t.min_speech <= b
    &&& s.end_sample == b + t.pad
    &&& s.start_sample >= before
    &&& s.start_sample + t.pad >= a
    &&& s.start_sample <= a + t.pad
    &&& s.start_sample == before || s.start_sample == 0 || s.start_sample + t.pad == a
}

/// The end of segment `i - 1`, 0 where there is none.
pub open spec fn end_before(out: Seq<Segment>, i: int) -> nat {
    if 0 < i <= out.len() {
        out[i - 1].end_sample as nat
    } else {
        0
    }
}

spec fn explained(t: Track, probs: Seq<Level>, out: Seq<Segment>, i: int) -> bool {
    exists|a: nat, b: nat|
        #![trigger covers(t, end_before(out, i), a, b, out[i])]
        starts(t, probs, a) && ends(t, probs, b) && covers(t, end_before(out, i), a, b, out[i])
}

#[verifier::rlimit(60)]
proof fn lemma_explained(t: Track, probs: Seq<Level>, n: int)
    requires
        t.wf(),
        !t.triggered,
        t.prev_end == 0,
        0 <= n <= probs.len(),
        fits(t, probs.len()),
    ensures
        ({
            let (now, out) = run(t, probs.take(n));
            &&& now.wf()
            &&& same_settings(t, now)
            &&& now.pos == t.pos + n * t.frame
            &&& now.prev_end == end_before(out, out.len() as int)
            &&& now.triggered ==> starts(t, probs, now.start)
            &&& now.temp_end > 0 ==> quiet_until(t, probs, n - 1, now.temp_end)
            &&& forall|i: int| 0 <= i < out.len() ==> #[trigger] explained(t, probs, out, i)
        }),
    decreases n,
{
    if n == 0 {
        assert(probs.take(0).len() == 0);
        assert(n * t.frame == 0) by (nonlinear_arith)
            requires
                n == 0,
        ;
    } else {
        lemma_explained(t, probs, n - 1);
        let head = probs.take(n);
        assert(head.drop_last() =~= probs.take(n - 1));
        assert(head.last() == probs[n - 1]);
        let (mid, had) = run(t, probs.take(n - 1));
        let prob = probs[n - 1];
        let (now, out) = run(t, head);
        assert(n * t.frame == (n - 1) * t.frame + t.frame) by (nonlinear_arith);
        assert(n * t.frame <= probs.len() * t.frame) by (nonlinear_arith)
            requires
                n <= probs.len(),
                t.frame > 0,
        ;
        assert(fits(mid, 1));
        lemma_step_sound(mid, prob);
        if prob.ge(t.threshold) {
            assert(opens(t, probs, mid.pos)) by {
                assert(probs[n - 1].ge(t.threshold) && mid.pos == t.pos + (n - 1) * t.frame);
            }
        }
        let cut = mid.max_speech > 0 && (mid.triggered || prob.ge(t.threshold)) && now.triggered
            && now.pos > t.max_speech + if mid.triggered {
            mid.start
        } else {
            mid.pos
        };
        if cut {
            assert(cuts(t, probs, n - 1, now.start));
        }
        let last: int = n - 2;
        let q = if mid.temp_end > 0 {
            choose|q: int| quiet(t, probs, q, last, mid.temp_end)
        } else {
            n - 1
        };
        let from = if mid.temp_end > 0 {
            mid.temp_end
        } else {
            mid.pos
        };
        if !prob.ge(t.threshold) && (mid.temp_end > 0 || prob.lt(t.neg)) {
            assert(quiet(t, probs, q, n - 1, from)) by {
                assert forall|j: int| q <= j <= n - 1 implies !(#[trigger] probs[j]).ge(
                    t.threshold,
                ) by {
                    if j < n - 1 {
                        assert(quiet(t, probs, q, last, mid.temp_end));
                    }
                }
            }
        }
        assert forall|i: int| 0 <= i < out.len() implies #[trigger] explained(t, probs, out, i) by {
            if i < had.len() {
                assert(explained(t, probs, had, i));
                assert(out[i] == had[i]);
                assert(end_before(out, i) == end_before(had, i));
                let (a, b) = choose|a: nat, b: nat|
                    #![trigger covers(t, end_before(had, i), a, b, had[i])]
                    starts(t, probs, a) && ends(t, probs, b) && covers(
                        t,
                        end_before(had, i),
                        a,
                        b,
                        had[i],
                    );
                assert(covers(t, end_before(out, i), a, b, out[i]));
            } else {
                assert(end_before(out, i) == mid.prev_end);
                let a = if mid.triggered {
                    mid.start
                } else {
                    mid.pos
                };
                assert(starts(t, probs, a));
                if now.triggered {
                    let b = now.start;
                    assert(covers(t, end_before(out, i), a, b, out[i]));
                    assert(ends(t, probs, b));
                } else {
                    assert(quiet(t, probs, q, n - 1, from));
                    assert((n - 1 - q) * t.frame == (n - 1) * t.frame - q * t.frame)
                        by (nonlinear_arith);
                    assert(ends(t, probs, from));
                    assert(covers(t, end_before(out, i), a, from, out[i]));
                }
            }
        }
        assert(now.prev_end == end_before(out, out.len() as int));
        assert(now.triggered ==> starts(t, probs, now.start));
        assert(now.temp_end > 0 ==> quiet_until(t, probs, n - 1, now.temp_end));
    }
}

/// Where segments start and end. Each is the segment of speech from `a` to `b`, no shorter than
/// the least speech: it starts by the padding before `a`, though not before the recording nor
/// before the end of the segment before it, and ends by the padding behind `b`. The speech
/// starts with a frame that reaches the threshold, or where speech that had grown too long was
/// cut. It ends where silence began that lasted long enough with no frame of speech in it, at
/// such a cut, or, for the last segment, at the end of the recording.
pub proof fn lemma_where_segments_lie(t: Track, probs: Seq<Level>, samples: nat, i: int)
    requires
        t.wf(),
        !t.triggered,
        t.prev_end == 0,
        holds(t, samples, probs.len()),
        0 <= i < batch(t, probs, samples).len(),
    ensures
        exists|a: nat, b: nat|
            #![trigger covers(t, end_before(batch(t, probs, samples), i), a, b, batch(t, probs, samples)[i])]
            starts(t, probs, a) && (ends(t, probs, b) || b == samples && i == batch(
                t,
                probs,
                samples,
            ).len() - 1) && covers(
                t,
                end_before(batch(t, probs, samples), i),
                a,
                b,
                batch(t, probs, samples)[i],
            ),
{
    assert((probs.len() + 1) * t.frame == probs.len() * t.frame + t.frame) by (nonlinear_arith);
    lemma_explained(t, probs, probs.len() as int);
    assert(probs.take(probs.len() as int) =~= probs);
    let (mid, had) = run(t, probs);
    let out = batch(t, probs, samples);
    if i < had.len() {
        assert(explained(t, probs, had, i));
        assert(out[i] == had[i]);
        assert(end_before(out, i) == end_before(had, i));
        let (a, b) = choose|a: nat, b: nat|
            #![trigger covers(t, end_before(had, i), a, b, had[i])]
            starts(t, probs, a) && ends(t, probs, b) && covers(
                t,
                end_before(had, i),
                a,
                b,
                had[i],
            );
        assert(covers(t, end_before(out, i), a, b, out[i]));
    } else {
        assert(end_before(out, i) == mid.prev_end);
        assert(covers(t, end_before(out, i), mid.start, samples, out[i]));
    }
}

/// Whether a sample lies in one of the segments.
pub open spec fn covered(out: Seq<Segment>, x: nat) -> bool {
    exists|i: int| 0 <= i < out.len() && (#[trigger] out[i]).start_sample <= x < out[i].end_sample
}

proof fn lemma_covered_grows(out: Seq<Segment>, segment: Option<Segment>, x: nat)
    ensures
        covered(out, x) ==> covered(grown(out, segment), x),
        segment is Some && segment->0.start_sample <= x < segment->0.end_sample ==> covered(
            grown(out, segment),
            x,
        ),
{
    let all = grown(out, segment);
    if covered(out, x) {
        let i = choose|i: int|
            0 <= i < out.len() && (#[trigger] out[i]).start_sample <= x < out[i].end_sample;
        assert(all[i] == out[i]);
    }
    if segment is Some {
        assert(all[out.len() as int] == segment->0);
    }
}

/// Whether every sample from the open speech on, or from the position on where none is open, up
/// to the end of the latest segment lies in a segment.
spec fn tail_covered(t: Track, out: Seq<Segment>) -> bool {
    forall|x: nat|
        (if t.triggered {
            t.start
        } else {
            t.pos
        }) <= x < t.prev_end ==> #[trigger] covered(out, x)
}

proof fn lemma_tail_covered(t: Track, out: Seq<Segment>, prob: Level)
    requires
        t.wf(),
        fits(t, 1),
        tail_covered(t, out),
    ensures
        tail_covered(t.step(prob).0, grown(out, t.step(prob).1)),
{
    let now = t.step(prob).0;
    let all = grown(out, t.step(prob).1);
    lemma_step_sound(t, prob);
    assert forall|x: nat|
        (if now.triggered {
            now.start
        } else {
            now.pos
        }) <= x < now.prev_end implies #[trigger] covered(all, x) by {
        lemma_covered_grows(out, t.step(prob).1, x);
        if x < t.prev_end {
            assert(covered(out, x));
        }
    }
}

/// Whether the samples `[from, to)` are certain to lie in segments: they do, or they are part of
/// open speech that is long enough.
spec fn secured(t: Track, out: Seq<Segment>, from: nat, to: nat) -> bool {
    ||| forall|x: nat| from <= x < to ==> #[trigger] covered(out, x)
    ||| {
        &&& t.triggered
        &&& t.start <= from
        &&& to <= t.pos
        &&& t.temp_end == 0 || t.temp_end >= to
    }
}

proof fn lemma_secured(t: Track, out: Seq<Segment>, prob: Level, from: nat, to: nat)
    requires
        t.wf(),
        fits(t, 1),
        tail_covered(t, out),
        secured(t, out, from, to),
        from + t.min_speech <= to,
        t.max_speech == 0,
        from < to,
    ensures
        secured(t.step(prob).0, grown(out, t.step(prob).1), from, to),
{
    let now = t.step(prob).0;
    let all = grown(out, t.step(prob).1);
    assert forall|x: nat| from <= x < to && covered(out, x) implies #[trigger] covered(all, x) by {
        lemma_covered_grows(out, t.step(prob).1, x);
    }
    if !(forall|x: nat| from <= x < to ==> #[trigger] covered(out, x)) && !now.triggered {
        assert forall|x: nat| from <= x < to implies #[trigger] covered(all, x) by {
            lemma_covered_grows(out, t.step(prob).1, x);
            if x < t.prev_end {
                assert(covered(out, x));
            }
        }
    }
}

proof fn lemma_secured_run(t: Track, probs: Seq<Level>, k: int, m: int, n: int)
    requires
        t.wf(),
        !t.triggered,
        t.prev_end == 0,
        t.max_speech == 0,
        fits(t, probs.len()),
        0 <= k < m <= probs.len(),
        0 <= n <= probs.len(),
        (m - k) * t.frame >= t.min_speech,
        forall|j: int| k <= j < m ==> (#[trigger] probs[j]).ge(t.threshold),
    ensures
        ({
            let (now, out) = run(t, probs.take(n));
            &&& now.wf()
            &&& same_settings(t, now)
            &&& now.pos == t.pos + n * t.frame
            &&& tail_covered(now, out)
            &&& k < n <= m ==> now.triggered && now.start <= t.pos + k * t.frame && now.temp_end
                == 0
            &&& m <= n ==> secured(
                now,
                out,
                (t.pos + k * t.frame) as nat,
                (t.pos + m * t.frame) as nat,
            )
        }),
    decreases n,
{
    if n == 0 {
        assert(probs.take(0).len() == 0);
        assert(n * t.frame == 0) by (nonlinear_arith)
            requires
                n == 0,
        ;
    } else {
        lemma_secured_run(t, probs, k, m, n - 1);
        let head = probs.take(n);
        assert(head.drop_last() =~= probs.take(n - 1));
        assert(head.last() == probs[n - 1]);
        let (mid, had) = run(t, probs.take(n - 1));
        let prob = probs[n - 1];
        assert(n * t.frame == (n - 1) * t.frame + t.frame) by (nonlinear_arith);
        assert(n * t.frame <= probs.len() * t.frame) by (nonlinear_arith)
            requires
                n <= probs.len(),
                t.frame > 0,
        ;
        assert(0 <= k * t.frame < m * t.frame && (m - k) * t.frame == m * t.frame - k * t.frame)
            by (nonlinear_arith)
            requires
                0 <= k < m,
                t.frame > 0,
        ;
        assert(fits(mid, 1));
        lemma_step_sound(mid, prob);
        lemma_tail_covered(mid, had, prob);
        if n == k + 1 {
            assert(mid.pos == t.pos + k * t.frame);
        }
        if n > m {
            lemma_secured(
                mid,
                had,
                prob,
                (t.pos + k * t.frame) as nat,
                (t.pos + m * t.frame) as nat,
            );
        }
        let (now, out) = run(t, head);
        assert(tail_covered(now, out));
        assert(k < n <= m ==> now.triggered && now.start <= t.pos + k * t.frame && now.temp_end == 0);
        assert(m <= n ==> secured(
            now,
            out,
            (t.pos + k * t.frame) as nat,
            (t.pos + m * t.frame) as nat,
        ));
    }
}

/// No speech is missed: where the longest speech is unlimited, every sample of consecutive frames
/// that reach the threshold lies in a segment, if together they are no shorter than the least
/// speech.
pub proof fn lemma_no_speech_is_missed(
    t: Track,
    probs: Seq<Level>,
    samples: nat,
    k: int,
    m: int,
    x: nat,
)
    requires
        t.wf(),
        !t.triggered,
        t.prev_end == 0,
        t.max_speech == 0,
        holds(t, samples, probs.len()),
        0 <= k < m <= probs.len(),
        (m - k) * t.frame >= t.min_speech,
        forall|j: int| k <= j < m ==> (#[trigger] probs[j]).ge(t.threshold),
        t.pos + k * t.frame <= x < t.pos + m * t.frame,
    ensures
        covered(batch(t, probs, samples), x),
{
    assert((probs.len() + 1) * t.frame == probs.len() * t.frame + t.frame) by (nonlinear_arith);
    assert((m - k) * t.frame == m * t.frame - k * t.frame) by (nonlinear_arith);
    lemma_secured_run(t, probs, k, m, probs.len() as int);
    assert(probs.take(probs.len() as int) =~= probs);
    let (mid, had) = run(t, probs);
    lemma_covered_grows(had, mid.finished_at(samples).1, x);
    if x < mid.prev_end && mid.triggered && mid.start <= x {
        assert(covered(had, x));
    }
}

/// More frames fit exactly where the end of the last one, with the padding behind it, is no more
/// than 64 bits hold.
pub proof fn lemma_how_many_frames_fit(t: Track, n: nat)
    ensures
        fits(t, n) <==> t.pos + n * t.frame + t.pad < 0x1_0000_0000_0000_0000,
{
}

} // verus!
