//! Errors and events of the detector.

use vstd::prelude::*;

use crate::text::join;
use crate::vad::config::ConfigFault;
use crate::vad::segmenter::Segment;

verus! {

/// A boundary of speech, in absolute sample positions with padding included.
#[derive(Clone, Copy, Debug, PartialEq, Eq, Structural)]
pub enum VadEvent {
    /// Speech starts at this sample.
    SpeechStart {
        /// First sample of the speech.
        at_sample: u64,
    },
    /// Speech ends just before this sample.
    SpeechEnd {
        /// The sample just after the speech.
        at_sample: u64,
    },
}

/// The sample position of a boundary.
pub open spec fn position(ev: VadEvent) -> u64 {
    match ev {
        VadEvent::SpeechStart { at_sample } => at_sample,
        VadEvent::SpeechEnd { at_sample } => at_sample,
    }
}

/// The two events of a segment.
pub open spec fn event_pair(s: Segment) -> Seq<VadEvent> {
    seq![
        VadEvent::SpeechStart { at_sample: s.start_sample },
        VadEvent::SpeechEnd { at_sample: s.end_sample },
    ]
}

/// A start and an end event for each segment, in order.
pub open spec fn events_of(segments: Seq<Segment>) -> Seq<VadEvent>
    decreases segments.len(),
{
    if segments.len() == 0 {
        Seq::empty()
    } else {
        events_of(segments.drop_last()) + event_pair(segments.last())
    }
}

/// Events come in pairs: a start, then the end of the same segment.
pub proof fn lemma_events_pair_up(segments: Seq<Segment>)
    ensures
        events_of(segments).len() == 2 * segments.len(),
        forall|i: int|
            0 <= i < segments.len() ==> events_of(segments)[2 * i] == (VadEvent::SpeechStart {
                at_sample: (#[trigger] segments[i]).start_sample,
            }) && events_of(segments)[2 * i + 1] == (VadEvent::SpeechEnd {
                at_sample: segments[i].end_sample,
            }),
    decreases segments.len(),
{
    if segments.len() > 0 {
        let shorter = segments.drop_last();
        lemma_events_pair_up(shorter);
        assert forall|i: int| 0 <= i < segments.len() implies events_of(segments)[2 * i] == (
        VadEvent::SpeechStart { at_sample: (#[trigger] segments[i]).start_sample })
            && events_of(segments)[2 * i + 1] == (VadEvent::SpeechEnd {
            at_sample: segments[i].end_sample,
        }) by {
            if i < shorter.len() {
                assert(shorter[i] == segments[i]);
            }
        }
    }
}

/// The events of two lists of segments are those of the joined list.
pub proof fn lemma_events_join(a: Seq<Segment>, b: Seq<Segment>)
    ensures
        events_of(a + b) == events_of(a) + events_of(b),
    decreases b.len(),
{
    if b.len() == 0 {
        assert(a + b =~= a);
        assert(events_of(a) + Seq::<VadEvent>::empty() =~= events_of(a));
    } else {
        lemma_events_join(a, b.drop_last());
        assert((a + b).drop_last() =~= a + b.drop_last());
        assert(events_of(a) + (events_of(b.drop_last()) + event_pair(b.last())) =~= (events_of(a)
            + events_of(b.drop_last())) + event_pair(b.last()));
    }
}

/// Turns segments into events.
pub fn to_events(segments: &Vec<Segment>) -> (res: Vec<VadEvent>)
    ensures
        res@ == events_of(segments@),
{
    let mut out: Vec<VadEvent> = Vec::new();
    let mut i: usize = 0;
    while i < segments.len()
        invariant
            i <= segments@.len(),
            out@ == events_of(segments@.take(i as int)),
        decreases segments@.len() - i,
    {
        proof {
            let longer = segments@.take(i + 1);
            assert(longer.drop_last() =~= segments@.take(i as int));
            assert(longer.last() == segments@[i as int]);
            assert(out@ + event_pair(segments@[i as int]) =~= out@.push(
                VadEvent::SpeechStart { at_sample: segments@[i as int].start_sample },
            ).push(VadEvent::SpeechEnd { at_sample: segments@[i as int].end_sample }));
        }
        out.push(VadEvent::SpeechStart { at_sample: segments[i].start_sample });
        out.push(VadEvent::SpeechEnd { at_sample: segments[i].end_sample });
        i = i + 1;
    }
    assert(segments@.take(segments@.len() as int) =~= segments@);
    out
}

/// What went wrong in the detector.
#[derive(Clone, Debug, PartialEq, Eq)]
pub enum VadError {
    /// The model could not be loaded.
    ModelLoad(String),
    /// A frame could not be inferred.
    Inference(String),
    /// A setting cannot be used.
    InvalidConfig(String),
}

/// An error as its kind and its text.
pub enum Failure {
    /// The model could not be loaded.
    ModelLoad(Seq<char>),
    /// A frame could not be inferred.
    Inference(Seq<char>),
    /// A setting cannot be used.
    InvalidConfig(Seq<char>),
}

impl View for VadError {
    type V = Failure;

    open spec fn view(&self) -> Failure {
        match self {
            VadError::ModelLoad(m) => Failure::ModelLoad(m@),
            VadError::Inference(m) => Failure::Inference(m@),
            VadError::InvalidConfig(m) => Failure::InvalidConfig(m@),
        }
    }
}

impl Failure {
    /// The message shown for the error.
    pub open spec fn shown(self) -> Seq<char> {
        match self {
            Failure::ModelLoad(m) => "model load error: "@ + m,
            Failure::Inference(m) => "inference error: "@ + m,
            Failure::InvalidConfig(m) => "invalid config: "@ + m,
        }
    }
}

impl VadError {
    /// The message shown for the error.
    pub fn message(&self) -> (res: String)
        ensures
            res@ == self@.shown(),
    {
        match self {
            VadError::ModelLoad(m) => join("model load error: ", m.as_str()),
            VadError::Inference(m) => join("inference error: ", m.as_str()),
            VadError::InvalidConfig(m) => join("invalid config: ", m.as_str()),
        }
    }

    /// The same error once more.
    pub fn copy(&self) -> (res: VadError)
        ensures
            res@ == self@,
    {
        match self {
            VadError::ModelLoad(m) => VadError::ModelLoad(m.as_str().to_owned()),
            VadError::Inference(m) => VadError::Inference(m.as_str().to_owned()),
            VadError::InvalidConfig(m) => VadError::InvalidConfig(m.as_str().to_owned()),
        }
    }

    /// The error for a setting that cannot be used, `shown` being the decimal form of the level
    /// it names.
    pub fn of_fault(fault: &ConfigFault, shown: &str) -> (res: VadError)
        ensures
            res@ == Failure::InvalidConfig(fault.text(shown@)),
    {
        VadError::InvalidConfig(fault.message(shown))
    }
}

/// The message for an error names what went wrong in front of its text.
pub proof fn lemma_shown_failures(m: Seq<char>)
    ensures
        Failure::ModelLoad(m).shown() == "model load error: "@ + m,
        Failure::Inference(m).shown() == "inference error: "@ + m,
        Failure::InvalidConfig(m).shown() == "invalid config: "@ + m,
{
}

} // verus!
