//! The streaming detector: frames out of samples of any length, probabilities into events.
//!
//! Inference is done by the caller. [`Vad::ready_frames`] says which frames are due, and
//! [`Vad::process`] takes the samples together with what inference gave for each of them.

use vstd::prelude::*;

use crate::level::{Level, ZERO_BITS};
use crate::vad::config::{ConfigFault, VadConfig};
use crate::vad::error::{events_of, position, to_events, VadError, VadEvent};
use crate::vad::framing::{append, copy_range, frame_at, frames, keep_leftover, leftover};
use crate::vad::pcm::{PcmConverter, PcmFormat};
use crate::vad::segmenter::{batch, fits, grown, holds, run, Segment, Segmenter, Track};

verus! {

/// What inference gave for one frame.
pub type Outcome = Result<Level, VadError>;

/// The probability that counts for a frame: 0.0 where inference failed.
pub open spec fn counted(outcome: Outcome) -> Level {
    match outcome {
        Ok(p) => p,
        Err(_) => Level { bits: ZERO_BITS },
    }
}

/// The probabilities that count for a list of frames.
pub open spec fn counted_all(outcomes: Seq<Outcome>) -> Seq<Level> {
    outcomes.map_values(|o: Outcome| counted(o))
}

/// What recorded audio needs before it can be processed.
#[derive(Clone, Copy, Debug, PartialEq, Eq, Structural)]
pub enum PcmRoute {
    /// It is mono at the rate of the detector already.
    Direct,
    /// The converter at hand fits.
    Convert,
    /// A converter has to be built first.
    Build,
}

/// Streaming detector.
#[derive(Debug)]
pub struct Vad {
    config: VadConfig,
    segmenter: Segmenter,
    pending: Vec<u32>,
    last_probs: Vec<Level>,
    converter: Option<PcmConverter>,
}

impl Vad {
    /// The settings.
    pub closed spec fn spec_config(&self) -> VadConfig {
        self.config
    }

    /// The state of the segmentation.
    pub closed spec fn track(&self) -> Track {
        self.segmenter@
    }

    /// Samples that do not fill a frame yet.
    pub closed spec fn spec_pending(&self) -> Seq<u32> {
        self.pending@
    }

    /// The probabilities of the latest call.
    pub closed spec fn probabilities(&self) -> Seq<Level> {
        self.last_probs@
    }

    /// The converter for recorded audio, if there is one.
    pub closed spec fn spec_converter(&self) -> Option<PcmConverter> {
        self.converter
    }

    /// What holds between calls.
    pub open spec fn wf(&self) -> bool {
        &&& self.track().wf()
        &&& self.track().frame == self.spec_config().frame()
        &&& self.track().cleared() == Track::fresh(self.spec_config())
        &&& self.spec_config().fault() is None
        &&& self.spec_pending().len() < self.spec_config().frame()
        &&& self.spec_converter() matches Some(c) ==> c.wf()
    }

    /// Nothing has been processed yet.
    pub open spec fn is_fresh(&self) -> bool {
        &&& self.track() == Track::fresh(self.spec_config())
        &&& self.spec_pending() == Seq::<u32>::empty()
        &&& self.probabilities() == Seq::<Level>::empty()
        &&& self.spec_converter() is None
    }

    /// A detector before its first sample, or the setting that cannot be used.
    pub fn new(config: VadConfig) -> (res: Result<Vad, ConfigFault>)
        ensures
            match (config.fault(), res) {
                (None, Ok(v)) => v.spec_config() == config && v.is_fresh() && v.wf(),
                (Some(f), Err(e)) => e == f,
                _ => false,
            },
    {
        match config.validate() {
            Err(f) => Err(f),
            Ok(_) => Ok(
                Vad {
                    config,
                    segmenter: Segmenter::new(&config),
                    pending: Vec::new(),
                    last_probs: Vec::new(),
                    converter: None,
                },
            ),
        }
    }

    /// The frames that `samples` complete, in order.
    pub fn ready_frames(&self, samples: &[u32]) -> (res: Vec<Vec<u32>>)
        requires
            self.wf(),
        ensures
            res@.len() == (self.spec_pending() + samples@).len() / self.spec_config().frame(),
            forall|i: int|
                0 <= i < res@.len() ==> (#[trigger] res@[i])@ == frame_at(
                    self.spec_pending() + samples@,
                    self.spec_config().frame(),
                    i,
                ),
    {
        let mut all: Vec<u32> = copy_range(self.pending.as_slice(), 0, self.pending.len());
        assert(all@ =~= self.pending@);
        append(&mut all, samples);
        frames(all.as_slice(), self.config.frame_size())
    }

    /// Whether the positions of `frames` more frames fit a machine word.
    pub fn has_room(&self, frames: usize) -> (res: bool)
        requires
            self.wf(),
        ensures
            res == fits(self.track(), frames as nat),
    {
        self.segmenter.has_room(frames)
    }

    /// Processes samples, given what inference gave for each frame that they complete, and
    /// returns the events that are settled.
    ///
    /// A frame that could not be inferred counts as silence. Samples that do not fill a frame
    /// are kept for the next call.
    pub fn process(&mut self, samples: &[u32], outcomes: &Vec<Outcome>) -> (res: Vec<VadEvent>)
        requires
            old(self).wf(),
            outcomes@.len() == (old(self).spec_pending() + samples@).len()
                / old(self).spec_config().frame(),
            fits(old(self).track(), outcomes@.len()),
        ensures
            res@ == events_of(run(old(self).track(), counted_all(outcomes@)).1),
            final(self).track() == run(old(self).track(), counted_all(outcomes@)).0,
            final(self).probabilities() == counted_all(outcomes@),
            final(self).spec_pending() == leftover(
                old(self).spec_pending() + samples@,
                old(self).spec_config().frame(),
            ),
            final(self).spec_config() == old(self).spec_config(),
            final(self).spec_converter() == old(self).spec_converter(),
            final(self).wf(),
    {
        append(&mut self.pending, samples);
        let frame: usize = self.config.frame_size();
        proof {
            crate::vad::framing::lemma_framed_len(self.pending@, frame as nat);
        }
        keep_leftover(&mut self.pending, frame);
        let mut probs: Vec<Level> = Vec::new();
        let mut segments: Vec<Segment> = Vec::new();
        let mut i: usize = 0;
        let ghost before = self.segmenter@;
        let ghost levels = counted_all(outcomes@);
        assert(levels.take(0) =~= Seq::<Level>::empty());
        while i < outcomes.len()
            invariant
                i <= outcomes@.len(),
                levels == counted_all(outcomes@),
                before.wf(),
                fits(before, outcomes@.len()),
                self.segmenter@ == run(before, levels.take(i as int)).0,
                segments@ == run(before, levels.take(i as int)).1,
                self.segmenter@.wf(),
                crate::vad::segmenter::same_settings(before, self.segmenter@),
                self.segmenter@.pos == before.pos + i * before.frame,
                probs@ == levels.take(i as int),
                self.pending@ == leftover(
                    old(self).spec_pending() + samples@,
                    old(self).spec_config().frame(),
                ),
                self.config == old(self).spec_config(),
                self.converter == old(self).spec_converter(),
            decreases outcomes@.len() - i,
        {
            let prob: Level = match &outcomes[i] {
                Ok(p) => *p,
                Err(_) => Level { bits: ZERO_BITS },
            };
            proof {
                assert(prob == levels[i as int]);
                let longer = levels.take(i + 1);
                assert(longer.drop_last() =~= levels.take(i as int));
                assert(longer.last() == prob);
                assert(levels.take(i as int).push(prob) =~= longer);
                assert((i + 1) * before.frame <= outcomes@.len() * before.frame
                    && i * before.frame + before.frame == (i + 1) * before.frame)
                    by (nonlinear_arith)
                    requires
                        i + 1 <= outcomes@.len(),
                ;
                crate::vad::segmenter::lemma_step_sound(self.segmenter@, prob);
            }
            probs.push(prob);
            self.segmenter.feed(prob, &mut segments);
            i = i + 1;
        }
        assert(levels.take(levels.len() as int) =~= levels);
        self.last_probs = probs;
        to_events(&segments)
    }

    /// Settles what recorded audio of a format needs. A converter for another format is
    /// dropped.
    pub fn route_pcm(&mut self, sample_rate: u32, channels: u16) -> (res: PcmRoute)
        requires
            old(self).wf(),
        ensures
            ({
                let format = PcmFormat { sample_rate, channels };
                let kept = old(self).spec_converter() matches Some(c) && c.spec_format()
                    == format;
                &&& final(self).spec_converter() == if kept {
                    old(self).spec_converter()
                } else {
                    None
                }
                &&& res == if sample_rate == old(self).spec_config().sample_rate && channels
                    <= 1 {
                    PcmRoute::Direct
                } else if kept {
                    PcmRoute::Convert
                } else {
                    PcmRoute::Build
                }
            }),
            final(self).spec_config() == old(self).spec_config(),
            final(self).track() == old(self).track(),
            final(self).spec_pending() == old(self).spec_pending(),
            final(self).probabilities() == old(self).probabilities(),
            final(self).wf(),
    {
        let format: PcmFormat = PcmFormat { sample_rate, channels };
        let stale: bool = match &self.converter {
            Some(c) => !c.matches(format),
            None => false,
        };
        if stale {
            self.converter = None;
        }
        if sample_rate == self.config.sample_rate && channels <= 1 {
            PcmRoute::Direct
        } else if self.converter.is_some() {
            PcmRoute::Convert
        } else {
            PcmRoute::Build
        }
    }

    /// Installs a new converter from a format to mono at the rate of the detector.
    pub fn install_converter(&mut self, sample_rate: u32, channels: u16)
        requires
            old(self).wf(),
        ensures
            final(self).spec_converter() matches Some(c) && c.spec_format() == (PcmFormat {
                sample_rate,
                channels,
            }) && c.rest() == Seq::<u32>::empty() && c.waiting() == Seq::<u32>::empty()
                && c.spec_chunk() == if sample_rate == old(self).spec_config().sample_rate {
                None
            } else {
                Some(crate::vad::pcm::default_chunk(sample_rate))
            },
            final(self).spec_config() == old(self).spec_config(),
            final(self).track() == old(self).track(),
            final(self).spec_pending() == old(self).spec_pending(),
            final(self).probabilities() == old(self).probabilities(),
            final(self).wf(),
    {
        self.converter = Some(
            PcmConverter::new(PcmFormat { sample_rate, channels }, self.config.sample_rate),
        );
    }

    /// Takes the converter out, for the steps between which samples are averaged and resampled.
    pub fn take_converter(&mut self) -> (res: Option<PcmConverter>)
        requires
            old(self).wf(),
        ensures
            res == old(self).spec_converter(),
            final(self).spec_converter() is None,
            final(self).spec_config() == old(self).spec_config(),
            final(self).track() == old(self).track(),
            final(self).spec_pending() == old(self).spec_pending(),
            final(self).probabilities() == old(self).probabilities(),
            final(self).wf(),
    {
        self.converter.take()
    }

    /// Puts a converter back.
    pub fn put_converter(&mut self, converter: PcmConverter)
        requires
            old(self).wf(),
            converter.wf(),
        ensures
            final(self).spec_converter() == Some(converter),
            final(self).spec_config() == old(self).spec_config(),
            final(self).track() == old(self).track(),
            final(self).spec_pending() == old(self).spec_pending(),
            final(self).probabilities() == old(self).probabilities(),
            final(self).wf(),
    {
        self.converter = Some(converter);
    }

    /// The probability of each frame of the latest [`Vad::process`].
    pub fn last_frame_probabilities(&self) -> (res: &[Level])
        ensures
            res@ == self.probabilities(),
    {
        self.last_probs.as_slice()
    }

    /// Closes open speech at the position as at the end of input, returns its events, and
    /// starts afresh.
    pub fn flush(&mut self) -> (res: Vec<VadEvent>)
        requires
            old(self).wf(),
        ensures
            res@ == events_of(grown(Seq::empty(), old(self).track().finished().1)),
            final(self).spec_config() == old(self).spec_config(),
            final(self).is_fresh(),
            final(self).wf(),
    {
        let mut segments: Vec<Segment> = Vec::new();
        self.segmenter.flush(&mut segments);
        let events: Vec<VadEvent> = to_events(&segments);
        self.reset();
        events
    }

    /// Returns to the state before the first sample.
    pub fn reset(&mut self)
        requires
            old(self).track().wf(),
            old(self).track().cleared() == Track::fresh(old(self).spec_config()),
            old(self).spec_config().fault() is None,
        ensures
            final(self).spec_config() == old(self).spec_config(),
            final(self).is_fresh(),
            final(self).wf(),
    {
        self.pending = Vec::new();
        self.last_probs = Vec::new();
        self.segmenter.reset();
        self.converter = None;
    }

    /// The settings.
    pub fn config(&self) -> (res: &VadConfig)
        ensures
            *res == self.spec_config(),
    {
        &self.config
    }
}

/// Why a whole recording could not be processed.
#[derive(Debug)]
pub enum BatchFault {
    /// A setting cannot be used.
    Config(ConfigFault),
    /// A frame could not be inferred.
    Frame(VadError),
}

/// Whether frame `i` is the first that could not be inferred.
pub open spec fn is_first_failure(outcomes: Seq<Outcome>, i: int) -> bool {
    &&& 0 <= i < outcomes.len()
    &&& outcomes[i] is Err
    &&& forall|k: int| 0 <= k < i ==> #[trigger] outcomes[k] is Ok
}

/// A whole recording of so many samples at once, given what inference gave for each of its
/// frames.
///
/// The first frame that could not be inferred ends it. Samples that do not fill a frame are not
/// inferred, and speech that is open at the end extends to the end of the samples.
pub fn get_speech_timestamps(
    samples: u64,
    outcomes: &Vec<Outcome>,
    config: &VadConfig,
) -> (res: Result<Vec<Segment>, BatchFault>)
    requires
        outcomes@.len() == samples as nat / config.frame(),
        samples + config.samples(config.speech_pad_ms) <= u64::MAX,
    ensures
        match res {
            Ok(s) => config.fault() is None && s@ == batch(
                Track::fresh(*config),
                counted_all(outcomes@),
                samples as nat,
            ) && forall|i: int| 0 <= i < outcomes@.len() ==> #[trigger] outcomes@[i] is Ok,
            Err(BatchFault::Config(f)) => config.fault() == Some(f),
            Err(BatchFault::Frame(e)) => config.fault() is None && exists|i: int|
                #[trigger] is_first_failure(outcomes@, i) && e@ == outcomes@[i]->Err_0@,
        },
{
    match config.validate() {
        Err(f) => {
            return Err(BatchFault::Config(f));
        },
        Ok(_) => {},
    }
    let mut segmenter: Segmenter = Segmenter::new(config);
    let mut out: Vec<Segment> = Vec::new();
    let ghost before = segmenter@;
    let ghost levels = counted_all(outcomes@);
    proof {
        lemma_frames_of(samples as nat, before.frame);
    }
    let mut i: usize = 0;
    assert(levels.take(0) =~= Seq::<Level>::empty());
    while i < outcomes.len()
        invariant
            i <= outcomes@.len(),
            levels == counted_all(outcomes@),
            before == Track::fresh(*config),
            config.fault() is None,
            before.wf(),
            fits(before, outcomes@.len()),
            segmenter@ == run(before, levels.take(i as int)).0,
            out@ == run(before, levels.take(i as int)).1,
            segmenter@.wf(),
            crate::vad::segmenter::same_settings(before, segmenter@),
            segmenter@.pos == before.pos + i * before.frame,
            forall|k: int| 0 <= k < i ==> #[trigger] outcomes@[k] is Ok,
        decreases outcomes@.len() - i,
    {
        let prob: Level = match &outcomes[i] {
            Ok(p) => *p,
            Err(e) => {
                assert(is_first_failure(outcomes@, i as int));
                return Err(BatchFault::Frame(e.copy()));
            },
        };
        proof {
            assert(prob == levels[i as int]);
            let longer = levels.take(i + 1);
            assert(longer.drop_last() =~= levels.take(i as int));
            assert(longer.last() == prob);
            assert((i + 1) * before.frame <= outcomes@.len() * before.frame && i * before.frame
                + before.frame == (i + 1) * before.frame) by (nonlinear_arith)
                requires
                    i + 1 <= outcomes@.len(),
            ;
            crate::vad::segmenter::lemma_step_sound(segmenter@, prob);
        }
        segmenter.feed(prob, &mut out);
        i = i + 1;
    }
    assert(levels.take(levels.len() as int) =~= levels);
    segmenter.flush_at(samples, &mut out);
    Ok(out)
}

proof fn lemma_frames_of(samples: nat, frame: nat)
    requires
        frame > 0,
    ensures
        (samples / frame) * frame <= samples < (samples / frame + 1) * frame,
{
    vstd::arithmetic::div_mod::lemma_fundamental_div_mod(samples as int, frame as int);
    let q = samples / frame;
    assert(q * frame == frame * q && (q + 1) * frame == frame * q + frame) by (nonlinear_arith);
}

/// Feeding a stream in two parts gives the events, the state and the leftover of feeding it
/// whole, inference giving the same for each frame.
pub proof fn lemma_process_splits(
    t: Track,
    pending: Seq<u32>,
    a: Seq<u32>,
    b: Seq<u32>,
    first: Seq<Outcome>,
    second: Seq<Outcome>,
)
    requires
        t.frame > 0,
        first.len() == (pending + a).len() / t.frame,
        second.len() == (leftover(pending + a, t.frame) + b).len() / t.frame,
    ensures
        ({
            let whole = run(t, counted_all(first + second));
            let one = run(t, counted_all(first));
            let two = run(one.0, counted_all(second));
            &&& (first + second).len() == (pending + (a + b)).len() / t.frame
            &&& whole.0 == two.0
            &&& events_of(whole.1) == events_of(one.1) + events_of(two.1)
            &&& leftover(pending + (a + b), t.frame) == leftover(
                leftover(pending + a, t.frame) + b,
                t.frame,
            )
        }),
{
    assert(pending + (a + b) =~= (pending + a) + b);
    crate::vad::framing::lemma_framing_splits(pending + a, b, t.frame);
    assert(counted_all(first + second) =~= counted_all(first) + counted_all(second));
    crate::vad::segmenter::lemma_run_splits(t, counted_all(first), counted_all(second));
    crate::vad::error::lemma_events_join(
        run(t, counted_all(first)).1,
        run(run(t, counted_all(first)).0, counted_all(second)).1,
    );
}

/// Streaming a recording and then flushing gives the events of the segments that the batch
/// finds, where the recording is made of whole frames. (Of one that is not, the batch closes
/// speech that is open at its end, and streaming at the last whole frame.)
pub proof fn lemma_stream_matches_batch(config: VadConfig, outcomes: Seq<Outcome>, samples: nat)
    requires
        samples == outcomes.len() * config.frame() || !run(
            Track::fresh(config),
            counted_all(outcomes),
        ).0.triggered,
        fits(Track::fresh(config), outcomes.len()),
    ensures
        ({
            let t = Track::fresh(config);
            let streamed = run(t, counted_all(outcomes));
            events_of(streamed.1) + events_of(grown(Seq::empty(), streamed.0.finished().1))
                == events_of(batch(t, counted_all(outcomes), samples))
        }),
{
    let t = Track::fresh(config);
    let streamed = run(t, counted_all(outcomes));
    let last = grown(Seq::empty(), streamed.0.finished().1);
    crate::vad::segmenter::lemma_run_sound(t, counted_all(outcomes));
    assert(batch(t, counted_all(outcomes), samples) =~= streamed.1 + last);
    crate::vad::error::lemma_events_join(streamed.1, last);
}

/// Over a whole recording boundaries come in the order of their positions, starts and ends in
/// turn.
pub proof fn lemma_boundaries_in_order(config: VadConfig, outcomes: Seq<Outcome>, samples: nat)
    requires
        holds(Track::fresh(config), samples, outcomes.len()),
    ensures
        ({
            let events = events_of(batch(Track::fresh(config), counted_all(outcomes), samples));
            &&& forall|i: int|
                0 <= i < events.len() ==> ((#[trigger] events[i]) is SpeechStart <==> i % 2 == 0)
            &&& forall|i: int, j: int|
                0 <= i <= j < events.len() ==> position(#[trigger] events[i]) <= position(
                    #[trigger] events[j],
                )
        }),
{
    let segments = batch(Track::fresh(config), counted_all(outcomes), samples);
    let events = events_of(segments);
    crate::vad::segmenter::lemma_batch_sound(config, counted_all(outcomes), samples);
    crate::vad::error::lemma_events_pair_up(segments);
    assert forall|i: int| 0 <= i < events.len() implies (#[trigger] events[i]) == if i % 2 == 0 {
        VadEvent::SpeechStart { at_sample: segments[i / 2].start_sample }
    } else {
        VadEvent::SpeechEnd { at_sample: segments[i / 2].end_sample }
    } by {
        let s = segments[i / 2];
        if i % 2 == 0 {
            assert(i == 2 * (i / 2));
        } else {
            assert(i == 2 * (i / 2) + 1);
        }
    }
    assert forall|i: int, j: int| 0 <= i <= j < events.len() implies position(
        #[trigger] events[i],
    ) <= position(#[trigger] events[j]) by {
        let a = segments[i / 2];
        let b = segments[j / 2];
        assert(crate::vad::segmenter::sound_segment(Track::fresh(config), 0, a));
        assert(crate::vad::segmenter::sound_segment(Track::fresh(config), 0, b));
        if i / 2 < j / 2 {
            assert(a.end_sample <= b.start_sample);
        }
    }
}

/// A frame counts with the probability that inference gave for it, and as 0 where it failed.
pub proof fn lemma_what_counts(outcomes: Seq<Outcome>, i: int)
    requires
        0 <= i < outcomes.len(),
    ensures
        counted_all(outcomes).len() == outcomes.len(),
        outcomes[i] matches Ok(p) ==> counted_all(outcomes)[i] == p,
        outcomes[i] is Err ==> counted_all(outcomes)[i].bits == 0,
{
}

/// A detector before its first sample holds none, has no probabilities to tell, no converter, and
/// no open speech, and counts from 0.
pub proof fn lemma_fresh_detector_is_empty(v: Vad)
    requires
        v.is_fresh(),
    ensures
        v.spec_pending().len() == 0,
        v.probabilities().len() == 0,
        v.spec_converter() is None,
        !v.track().triggered,
        v.track().pos == 0,
        v.track().prev_end == 0,
        v.track() == Track::fresh(v.spec_config()),
{
}

/// The first failure is one, and every frame before it was inferred.
pub proof fn lemma_first_failure(outcomes: Seq<Outcome>, i: int, k: int)
    requires
        is_first_failure(outcomes, i),
    ensures
        0 <= i < outcomes.len(),
        outcomes[i] is Err,
        0 <= k < i ==> outcomes[k] is Ok,
{
}

} // verus!
