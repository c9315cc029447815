//! The detector as the script holds it, outside any stream.

use vstd::prelude::*;

use crate::binding::convert::{event_views, shown_events, vad_events_to_js, JsVadEvent};
use crate::binding::options::{build_vad_config, vad_config, VadOptions};
use crate::vad::config::ConfigFault;
use crate::vad::detector::{counted_all, Outcome};
use crate::vad::error::{events_of, VadEvent};
use crate::vad::framing::leftover;
use crate::vad::segmenter::{fits, grown, run};

verus! {

/// A detector that the script feeds itself. Its boundaries have no times.
#[derive(Debug)]
pub struct Vad {
    /// The detector.
    pub inner: crate::vad::detector::Vad,
}

impl Vad {
    /// A detector before its first sample, or the setting that cannot be used.
    pub fn new(options: &VadOptions) -> (res: Result<Vad, ConfigFault>)
        ensures
            match (vad_config(*options).fault(), res) {
                (None, Ok(v)) => v.inner.spec_config() == vad_config(*options)
                    && v.inner.is_fresh() && v.inner.wf(),
                (Some(f), Err(e)) => e == f,
                _ => false,
            },
    {
        match crate::vad::detector::Vad::new(build_vad_config(options)) {
            Ok(inner) => Ok(Vad { inner }),
            Err(f) => Err(f),
        }
    }

    /// Processes samples, given what inference gave for each frame that they complete, and shows
    /// the boundaries that are settled.
    pub fn process(&mut self, samples: &[u32], outcomes: &Vec<Outcome>) -> (res: Vec<JsVadEvent>)
        requires
            old(self).inner.wf(),
            outcomes@.len() == (old(self).inner.spec_pending() + samples@).len()
                / old(self).inner.spec_config().frame(),
            fits(old(self).inner.track(), outcomes@.len()),
        ensures
            event_views(res@) == shown_events(
                events_of(run(old(self).inner.track(), counted_all(outcomes@)).1),
            ),
            final(self).inner.track() == run(
                old(self).inner.track(),
                counted_all(outcomes@),
            ).0,
            final(self).inner.spec_pending() == leftover(
                old(self).inner.spec_pending() + samples@,
                old(self).inner.spec_config().frame(),
            ),
            final(self).inner.spec_config() == old(self).inner.spec_config(),
            final(self).inner.wf(),
    {
        let events: Vec<VadEvent> = self.inner.process(samples, outcomes);
        vad_events_to_js(&events)
    }

    /// Closes open speech as at the end of input, shows its boundaries, and starts afresh.
    pub fn flush(&mut self) -> (res: Vec<JsVadEvent>)
        requires
            old(self).inner.wf(),
        ensures
            event_views(res@) == shown_events(
                events_of(grown(Seq::empty(), old(self).inner.track().finished().1)),
            ),
            final(self).inner.spec_config() == old(self).inner.spec_config(),
            final(self).inner.is_fresh(),
            final(self).inner.wf(),
    {
        let events: Vec<VadEvent> = self.inner.flush();
        vad_events_to_js(&events)
    }

    /// Returns to the state before the first sample.
    pub fn reset(&mut self)
        requires
            old(self).inner.wf(),
        ensures
            final(self).inner.spec_config() == old(self).inner.spec_config(),
            final(self).inner.is_fresh(),
            final(self).inner.wf(),
    {
        self.inner.reset();
    }
}

} // verus!
