//! The bridge between a stream and the script: boundaries of speech get times, chunks of the two
//! outputs are paired, and a terminator ends the recording.

use std::collections::VecDeque;

use vstd::prelude::*;

use crate::binding::chunk::{
    chunk_to_js, encoded, opt_events, secondary_to_js, AudioChunk, DataView, JsAudioChunk,
    JsSecondaryChunk, Meta, PrimaryView, SecEncoding, SecondaryChunk, SecondaryData, SecondaryView,
};
use crate::binding::convert::{
    event_views, shown_event, signed, to_signed, vad_event_to_js_abs, EventView, JsVadEvent,
};
use crate::binding::pairing::{
    later, latest, lemma_latest, lemma_partner_skips, paired, partner, CHUNK_SPAN_NS, PAIR_WINDOW_NS,
};
use crate::level::{Level, ZERO_BITS};
use crate::vad::error::{position, VadEvent};

verus! {

/// The output that the detector listens to.
#[derive(Clone, Copy, Debug, PartialEq, Eq, Structural)]
pub enum VadTap {
    /// The primary output.
    Primary,
    /// The secondary output.
    Secondary,
}

/// Format and encoding of the secondary output.
#[derive(Clone, Copy, Debug, PartialEq, Eq, Structural)]
pub struct SecondaryTapCfg {
    /// Sample rate (Hz).
    pub rate: u32,
    /// Number of channels.
    pub channels: u16,
    /// Encoding of the samples.
    pub encoding: SecEncoding,
}

// ---------------------------------------------------------------------------
// The model
// ---------------------------------------------------------------------------

/// The settings of a bridge, which never change.
pub struct Plan {
    /// Whether there is a detector.
    pub has_vad: bool,
    /// The output it listens to.
    pub tap: VadTap,
    /// Its sample rate.
    pub vad_rate: int,
    /// Sample rate of the primary output.
    pub output_rate: int,
    /// Channels of the primary output.
    pub output_channels: int,
    /// The secondary output.
    pub secondary: Option<SecondaryTapCfg>,
}

/// What the bridge knows about the detector.
pub struct Clock {
    /// Samples fed since the last restart.
    pub fed: int,
    /// Chunks dropped before the last chunk.
    pub dropped: int,
    /// Sample position at the start of the last chunk.
    pub anchor_sample: int,
    /// Time of the start of the last chunk (ns).
    pub anchor_pts: int,
}

/// A chunk as the detector gets it.
pub struct Fed {
    /// Number of samples, all channels together.
    pub len: int,
    /// Sample rate.
    pub rate: int,
    /// Number of channels.
    pub channels: int,
    /// Time (ns).
    pub pts: int,
    /// Whether audio is missing before it.
    pub discontinuity: bool,
    /// Chunks dropped before it.
    pub dropped: int,
}

/// A chunk as the detector gets it, out of its parts.
pub open spec fn fed_chunk(
    len: usize,
    rate: u32,
    channels: u16,
    pts_ns: i64,
    discontinuity: bool,
    dropped_before: u32,
) -> Fed {
    Fed {
        len: len as int,
        rate: rate as int,
        channels: channels as int,
        pts: pts_ns as int,
        discontinuity,
        dropped: dropped_before as int,
    }
}

/// The state of a bridge.
pub struct Flow {
    /// Its settings.
    pub plan: Plan,
    /// What it knows about the detector.
    pub clock: Clock,
    /// Boundaries that wait for a chunk to ride on.
    pub pending: Seq<EventView>,
    /// Primary chunks that wait for delivery.
    pub primaries: Seq<PrimaryView>,
    /// Secondary chunks that wait for a partner.
    pub secondaries: Seq<SecondaryView>,
    /// Latest time that was delivered (ns).
    pub delivered: int,
}

/// The larger of a number and 1.
pub open spec fn at_least_one(n: int) -> int {
    if n < 1 {
        1
    } else {
        n
    }
}

/// The part of a recording that a sample of the detector lasts (ns).
pub open spec fn sample_ns(vad_rate: int) -> int {
    1_000_000_000int / vad_rate
}

impl Clock {
    /// Whether the detector starts anew before a chunk: audio is missing, or more chunks were
    /// dropped than before the last one.
    pub open spec fn restarts(self, discontinuity: bool, dropped: int) -> bool {
        discontinuity || dropped > self.dropped
    }

    /// After a chunk was fed.
    pub open spec fn after(self, chunk: Fed, vad_rate: int) -> Clock {
        let base = if self.restarts(chunk.discontinuity, chunk.dropped) {
            0
        } else {
            self.fed
        };
        Clock {
            fed: base + (chunk.len / at_least_one(chunk.channels)) * vad_rate / at_least_one(
                chunk.rate,
            ),
            dropped: chunk.dropped,
            anchor_sample: base,
            anchor_pts: chunk.pts,
        }
    }

    /// The time of a sample position, counted from the start of the last chunk.
    pub open spec fn time_of(self, at_sample: int, vad_rate: int) -> int {
        self.anchor_pts + (at_sample - self.anchor_sample) * sample_ns(vad_rate)
    }

    /// Boundaries with their times.
    pub open spec fn timed(self, events: Seq<VadEvent>, vad_rate: int) -> Seq<EventView> {
        Seq::new(
            events.len(),
            |i: int|
                shown_event(
                    events[i],
                    Some(self.time_of(signed(position(events[i])), vad_rate)),
                ),
        )
    }

    /// Whether every boundary has a time that fits in 64 bits.
    pub open spec fn can_time(self, events: Seq<VadEvent>, vad_rate: int) -> bool {
        forall|i: int|
            0 <= i < events.len() ==> i64::MIN <= self.time_of(
                signed(position(#[trigger] events[i])),
                vad_rate,
            ) <= i64::MAX
    }
}

/// The boundaries of a chunk with those that waited in front of them.
pub open spec fn joined(pending: Seq<EventView>, own: Option<Seq<EventView>>) -> Option<
    Seq<EventView>,
> {
    if pending.len() == 0 {
        own
    } else {
        match own {
            Some(events) => Some(pending + events),
            None => Some(pending),
        }
    }
}

impl Flow {
    /// What the detector does with a chunk of its output.
    pub open spec fn listened(self, chunk: Fed) -> Clock {
        if self.plan.has_vad {
            self.clock.after(chunk, self.plan.vad_rate)
        } else {
            self.clock
        }
    }

    /// Whether a chunk of the detector's output can be taken in with these boundaries: the
    /// running position and the times fit in 64 bits.
    pub open spec fn can_hear(self, chunk: Fed, events: Seq<VadEvent>) -> bool {
        self.plan.has_vad ==> {
            &&& self.listened(chunk).fed <= i64::MAX
            &&& self.listened(chunk).can_time(events, self.plan.vad_rate)
        }
    }

    /// The boundaries that ride on a chunk of the detector's output.
    pub open spec fn riding(self, chunk: Fed, events: Seq<VadEvent>) -> Option<Seq<EventView>> {
        joined(
            self.pending,
            if self.plan.has_vad {
                Some(self.listened(chunk).timed(events, self.plan.vad_rate))
            } else {
                None
            },
        )
    }

    /// A primary chunk as the detector gets it.
    pub open spec fn fed_primary(self, chunk: AudioChunk) -> Fed {
        Fed {
            len: chunk.data@.len() as int,
            rate: self.plan.output_rate,
            channels: self.plan.output_channels,
            pts: chunk.pts_ns as int,
            discontinuity: chunk.discontinuity,
            dropped: chunk.dropped_before as int,
        }
    }

    /// A secondary chunk as the detector gets it.
    pub open spec fn fed_secondary(self, chunk: SecondaryChunk, cfg: SecondaryTapCfg) -> Fed {
        Fed {
            len: chunk.samples@.len() as int,
            rate: cfg.rate as int,
            channels: cfg.channels as int,
            pts: chunk.pts_ns as int,
            discontinuity: chunk.discontinuity,
            dropped: chunk.dropped_before as int,
        }
    }

    /// With a primary chunk, `events` being the boundaries that the detector found in it.
    pub open spec fn with_primary(self, chunk: AudioChunk, events: Seq<VadEvent>) -> Flow {
        if self.plan.tap == VadTap::Primary {
            let fed = self.fed_primary(chunk);
            Flow {
                clock: self.listened(fed),
                pending: Seq::empty(),
                primaries: self.primaries.push(chunk.shown(self.riding(fed, events))),
                ..self
            }
        } else {
            Flow { primaries: self.primaries.push(chunk.shown(None)), ..self }
        }
    }

    /// With a secondary chunk, `events` being the boundaries that the detector found in it and
    /// `quantized` its samples in 16 bits.
    pub open spec fn with_secondary(
        self,
        chunk: SecondaryChunk,
        events: Seq<VadEvent>,
        quantized: Seq<i16>,
    ) -> Flow {
        match self.plan.secondary {
            None => self,
            Some(cfg) => {
                let data = encoded(cfg.encoding, chunk.samples@, quantized);
                if self.plan.tap == VadTap::Secondary {
                    let fed = self.fed_secondary(chunk, cfg);
                    Flow {
                        clock: self.listened(fed),
                        pending: Seq::empty(),
                        secondaries: self.secondaries.push(
                            chunk.shown(data, self.riding(fed, events)),
                        ),
                        ..self
                    }
                } else {
                    Flow { secondaries: self.secondaries.push(chunk.shown(data, None)), ..self }
                }
            },
        }
    }

    /// The boundaries of a flush with their times; without a detector there are none.
    pub open spec fn flushed_events(self, events: Seq<VadEvent>) -> Seq<EventView> {
        if self.plan.has_vad {
            self.clock.timed(events, self.plan.vad_rate)
        } else {
            Seq::empty()
        }
    }

    /// After a flush: the boundaries wait, and the position counts from 0 again.
    pub open spec fn flushed(self, events: Seq<VadEvent>) -> Flow {
        Flow {
            clock: if self.plan.has_vad {
                Clock { fed: 0, ..self.clock }
            } else {
                self.clock
            },
            pending: self.pending + self.flushed_events(events),
            ..self
        }
    }

    /// The time of the terminator: not before anything that was delivered.
    pub open spec fn final_pts(self) -> int {
        later(self.clock.anchor_pts, self.delivered)
    }

    /// The terminator, which carries the last boundaries and no audio.
    pub open spec fn terminator(self, events: Seq<VadEvent>) -> PrimaryView {
        let meta = Meta {
            frames: 0,
            pts_ns: self.final_pts(),
            seq: 0,
            flags: 0,
            dropped_before: 0,
            peak: Level { bits: ZERO_BITS },
            rms: Level { bits: ZERO_BITS },
        };
        let last = self.flushed(events).pending;
        match self.plan.tap {
            VadTap::Primary => PrimaryView {
                meta,
                data: Seq::empty(),
                events: Some(last),
                secondary: None,
            },
            VadTap::Secondary => PrimaryView {
                meta,
                data: Seq::empty(),
                events: None,
                secondary: Some(
                    SecondaryView {
                        meta,
                        data: if self.plan.secondary matches Some(cfg) && cfg.encoding
                            == SecEncoding::S16 {
                            DataView::S16(Seq::empty())
                        } else {
                            DataView::F32(Seq::empty())
                        },
                        events: Some(last),
                    },
                ),
            },
        }
    }
}

impl Flow {
    /// After everything that waits was delivered.
    pub open spec fn drained(self) -> Flow {
        Flow {
            primaries: Seq::empty(),
            secondaries: paired(self.primaries, self.secondaries).1,
            delivered: latest(self.delivered, self.primaries),
            ..self
        }
    }
}

// ---------------------------------------------------------------------------
// The bridge
// ---------------------------------------------------------------------------

impl Flow {
    /// Whether it is a state that a bridge can be in.
    pub open spec fn wf(self) -> bool {
        &&& self.plan.vad_rate == 8000 || self.plan.vad_rate == 16000
        &&& self.clock.fed >= 0
        &&& self.clock.anchor_sample >= 0
        &&& self.plan.has_vad || self.pending.len() == 0
    }
}

/// The primary chunks of a queue by their parts.
pub open spec fn primary_views(chunks: Seq<JsAudioChunk>) -> Seq<PrimaryView> {
    Seq::new(chunks.len(), |i: int| chunks[i]@)
}

/// The secondary chunks of a queue by their parts.
pub open spec fn secondary_views(chunks: Seq<JsSecondaryChunk>) -> Seq<SecondaryView> {
    Seq::new(chunks.len(), |i: int| chunks[i]@)
}

/// Pairs the chunks of the two outputs and gives boundaries of speech their times.
#[derive(Debug)]
pub struct PairingBridge {
    has_vad: bool,
    vad_tap: VadTap,
    vad_rate: u32,
    vad_samples_fed: i64,
    vad_last_dropped: u32,
    vad_anchor_sample: i64,
    vad_anchor_pts: i64,
    pending_flush_events: Vec<JsVadEvent>,
    output_rate: u32,
    output_channels: u16,
    secondary: Option<SecondaryTapCfg>,
    primary_fifo: VecDeque<JsAudioChunk>,
    secondary_fifo: VecDeque<JsSecondaryChunk>,
    last_emitted_primary_pts: i64,
}

impl View for PairingBridge {
    type V = Flow;

    closed spec fn view(&self) -> Flow {
        Flow {
            plan: Plan {
                has_vad: self.has_vad,
                tap: self.vad_tap,
                vad_rate: self.vad_rate as int,
                output_rate: self.output_rate as int,
                output_channels: self.output_channels as int,
                secondary: self.secondary,
            },
            clock: Clock {
                fed: self.vad_samples_fed as int,
                dropped: self.vad_last_dropped as int,
                anchor_sample: self.vad_anchor_sample as int,
                anchor_pts: self.vad_anchor_pts as int,
            },
            pending: event_views(self.pending_flush_events@),
            primaries: primary_views(self.primary_fifo@),
            secondaries: secondary_views(self.secondary_fifo@),
            delivered: self.last_emitted_primary_pts as int,
        }
    }
}

impl PairingBridge {
    /// A bridge at the start of a recording. Where there is no detector, its rate does not
    /// matter.
    pub fn new(
        has_vad: bool,
        vad_tap: VadTap,
        vad_rate: u32,
        output_rate: u32,
        output_channels: u16,
        secondary: Option<SecondaryTapCfg>,
    ) -> (res: PairingBridge)
        requires
            vad_rate == 8000 || vad_rate == 16000,
        ensures
            res@.wf(),
            res@ == (Flow {
                plan: Plan {
                    has_vad,
                    tap: vad_tap,
                    vad_rate: vad_rate as int,
                    output_rate: output_rate as int,
                    output_channels: output_channels as int,
                    secondary,
                },
                clock: Clock { fed: 0, dropped: 0, anchor_sample: 0, anchor_pts: 0 },
                pending: Seq::empty(),
                primaries: Seq::empty(),
                secondaries: Seq::empty(),
                delivered: 0,
            }),
    {
        let res = PairingBridge {
            has_vad,
            vad_tap,
            vad_rate,
            vad_samples_fed: 0,
            vad_last_dropped: 0,
            vad_anchor_sample: 0,
            vad_anchor_pts: 0,
            pending_flush_events: Vec::new(),
            output_rate,
            output_channels,
            secondary,
            primary_fifo: VecDeque::new(),
            secondary_fifo: VecDeque::new(),
            last_emitted_primary_pts: 0,
        };
        assert(res@.pending =~= Seq::empty());
        assert(res@.primaries =~= Seq::empty());
        assert(res@.secondaries =~= Seq::empty());
        res
    }

    /// Whether the detector has to start anew before a chunk of its output.
    pub fn needs_vad_reset(&self, discontinuity: bool, dropped_before: u32) -> (res: bool)
        ensures
            res == (self@.plan.has_vad && self@.clock.restarts(
                discontinuity,
                dropped_before as int,
            )),
    {
        self.has_vad && (discontinuity || dropped_before > self.vad_last_dropped)
    }

    /// Whether every boundary has a time that fits in 64 bits, counted from an anchor.
    fn fits(&self, anchor_sample: i64, anchor_pts: i64, events: &Vec<VadEvent>) -> (res: bool)
        requires
            self@.wf(),
            anchor_sample >= 0,
        ensures
            res == (Clock {
                anchor_sample: anchor_sample as int,
                anchor_pts: anchor_pts as int,
                ..self@.clock
            }).can_time(events@, self@.plan.vad_rate),
    {
        let ghost clock = Clock {
            anchor_sample: anchor_sample as int,
            anchor_pts: anchor_pts as int,
            ..self@.clock
        };
        let ns: i128 = if self.vad_rate == 8000 {
            125_000
        } else {
            62_500
        };
        let mut i: usize = 0;
        while i < events.len()
            invariant
                self@.wf(),
                ns == sample_ns(self@.plan.vad_rate),
                0 < ns <= 125_000,
                clock.anchor_sample == anchor_sample,
                clock.anchor_pts == anchor_pts,
                anchor_sample >= 0,
                i <= events@.len(),
                forall|k: int|
                    0 <= k < i ==> i64::MIN <= clock.time_of(
                        signed(position(#[trigger] events@[k])),
                        self@.plan.vad_rate,
                    ) <= i64::MAX,
            decreases events@.len() - i,
        {
            let at: u64 = match events[i] {
                VadEvent::SpeechStart { at_sample } => at_sample,
                VadEvent::SpeechEnd { at_sample } => at_sample,
            };
            let ahead: i128 = to_signed(at) as i128 - anchor_sample as i128;
            assert(-0x1_0000_0000_0000_0000 * 125_000 <= ahead * ns <= 0x1_0000_0000_0000_0000
                * 125_000) by (nonlinear_arith)
                requires
                    -0x1_0000_0000_0000_0000 <= ahead <= 0x1_0000_0000_0000_0000,
                    0 < ns <= 125_000,
            ;
            let time: i128 = anchor_pts as i128 + ahead * ns;
            assert(time == clock.time_of(
                signed(position(events@[i as int])),
                self@.plan.vad_rate,
            ));
            if time < -0x8000_0000_0000_0000 || time > 0x7fff_ffff_ffff_ffff {
                return false;
            }
            i = i + 1;
        }
        true
    }

    /// The sample position at the start of a chunk that is fed to the detector, and behind it.
    fn fed_span(
        &self,
        len: usize,
        in_rate: u32,
        in_channels: u16,
        discontinuity: bool,
        dropped_before: u32,
    ) -> (res: (i64, u128))
        requires
            self@.wf(),
        ensures
            forall|pts_ns: i64|
                {
                    let next = self@.clock.after(
                        #[trigger] fed_chunk(
                            len,
                            in_rate,
                            in_channels,
                            pts_ns,
                            discontinuity,
                            dropped_before,
                        ),
                        self@.plan.vad_rate,
                    );
                    self@.plan.has_vad ==> next.anchor_sample == res.0 && next.fed == res.1
                },
            res.0 >= 0,
    {
        let base: i64 = if self.needs_vad_reset(discontinuity, dropped_before) {
            0
        } else {
            self.vad_samples_fed
        };
        let per_frame: usize = if in_channels < 1 {
            1
        } else {
            in_channels as usize
        };
        let per_second: u128 = if in_rate < 1 {
            1
        } else {
            in_rate as u128
        };
        let frames: usize = len / per_frame;
        assert(0 <= frames * self.vad_rate <= 0xffff_ffff_ffff_ffff * 16000) by (nonlinear_arith)
            requires
                0 <= frames <= 0xffff_ffff_ffff_ffff,
                self.vad_rate == 8000 || self.vad_rate == 16000,
        ;
        let more: u128 = (frames as u128 * self.vad_rate as u128) / per_second;
        assert(more <= 0xffff_ffff_ffff_ffff * 16000) by (nonlinear_arith)
            requires
                more == (frames * self.vad_rate) / (per_second as int),
                0 <= frames * self.vad_rate <= 0xffff_ffff_ffff_ffff * 16000,
                per_second >= 1,
        ;
        (base, base as u128 + more)
    }

    /// Whether a chunk that is fed to the detector can be taken in with these boundaries.
    fn can_hear(
        &self,
        len: usize,
        in_rate: u32,
        in_channels: u16,
        pts_ns: i64,
        discontinuity: bool,
        dropped_before: u32,
        events: &Vec<VadEvent>,
    ) -> (res: bool)
        requires
            self@.wf(),
        ensures
            res == self@.can_hear(
                fed_chunk(len, in_rate, in_channels, pts_ns, discontinuity, dropped_before),
                events@,
            ),
    {
        if !self.has_vad {
            return true;
        }
        let ghost fed = fed_chunk(
            len,
            in_rate,
            in_channels,
            pts_ns,
            discontinuity,
            dropped_before,
        );
        let span: (i64, u128) = self.fed_span(
            len,
            in_rate,
            in_channels,
            discontinuity,
            dropped_before,
        );
        let ghost next = self@.clock.after(fed, self@.plan.vad_rate);
        assert(next.anchor_sample == span.0 && next.fed == span.1);
        let fits: bool = self.fits(span.0, pts_ns, events);
        proof {
            let other = Clock {
                anchor_sample: span.0 as int,
                anchor_pts: pts_ns as int,
                ..self@.clock
            };
            assert forall|at: int| #[trigger] other.time_of(at, self@.plan.vad_rate)
                == next.time_of(at, self@.plan.vad_rate) by {}
            assert(other.can_time(events@, self@.plan.vad_rate) == next.can_time(
                events@,
                self@.plan.vad_rate,
            ));
        }
        span.1 <= 0x7fff_ffff_ffff_ffff && fits
    }

    /// Whether a primary chunk can be taken in with these boundaries: the running position and
    /// the times fit in 64 bits.
    pub fn accepts_primary(&self, chunk: &AudioChunk, events: &Vec<VadEvent>) -> (res: bool)
        requires
            self@.wf(),
        ensures
            res == (self@.plan.tap == VadTap::Primary ==> self@.can_hear(
                self@.fed_primary(*chunk),
                events@,
            )),
    {
        match self.vad_tap {
            VadTap::Primary => self.can_hear(
                chunk.data.len(),
                self.output_rate,
                self.output_channels,
                chunk.pts_ns,
                chunk.discontinuity,
                chunk.dropped_before,
                events,
            ),
            VadTap::Secondary => true,
        }
    }

    /// Whether a secondary chunk can be taken in with these boundaries: the running position and
    /// the times fit in 64 bits.
    pub fn accepts_secondary(&self, chunk: &SecondaryChunk, events: &Vec<VadEvent>) -> (res: bool)
        requires
            self@.wf(),
        ensures
            res == (self@.plan.tap == VadTap::Secondary ==> (self@.plan.secondary matches Some(
                cfg,
            ) ==> self@.can_hear(self@.fed_secondary(*chunk, cfg), events@))),
    {
        match (self.vad_tap, self.secondary) {
            (VadTap::Secondary, Some(cfg)) => self.can_hear(
                chunk.samples.len(),
                cfg.rate,
                cfg.channels,
                chunk.pts_ns,
                chunk.discontinuity,
                chunk.dropped_before,
                events,
            ),
            _ => true,
        }
    }

    /// Whether the boundaries of a flush can be taken in: their times fit in 64 bits.
    pub fn accepts_flush(&self, events: &Vec<VadEvent>) -> (res: bool)
        requires
            self@.wf(),
        ensures
            res == (self@.plan.has_vad ==> self@.clock.can_time(events@, self@.plan.vad_rate)),
    {
        !self.has_vad || self.fits(self.vad_anchor_sample, self.vad_anchor_pts, events)
    }

    /// Gives boundaries their times, counted from the start of the last chunk.
    fn stamp(&self, events: &Vec<VadEvent>) -> (res: Vec<JsVadEvent>)
        requires
            self@.wf(),
            self@.clock.can_time(events@, self@.plan.vad_rate),
        ensures
            event_views(res@) == self@.clock.timed(events@, self@.plan.vad_rate),
    {
        let ns: i128 = if self.vad_rate == 8000 {
            125_000
        } else {
            62_500
        };
        let mut out: Vec<JsVadEvent> = Vec::new();
        let mut i: usize = 0;
        while i < events.len()
            invariant
                self@.wf(),
                ns == sample_ns(self@.plan.vad_rate),
                0 < ns <= 125_000,
                self@.clock.can_time(events@, self@.plan.vad_rate),
                i <= events@.len(),
                out@.len() == i,
                forall|k: int|
                    0 <= k < i ==> (#[trigger] out@[k])@ == self@.clock.timed(
                        events@,
                        self@.plan.vad_rate,
                    )[k],
            decreases events@.len() - i,
        {
            let at: u64 = match events[i] {
                VadEvent::SpeechStart { at_sample } => at_sample,
                VadEvent::SpeechEnd { at_sample } => at_sample,
            };
            let ahead: i128 = to_signed(at) as i128 - self.vad_anchor_sample as i128;
            assert(-0x1_0000_0000_0000_0000 <= ahead <= 0x1_0000_0000_0000_0000);
            assert(-0x1_0000_0000_0000_0000 * 125_000 <= ahead * ns <= 0x1_0000_0000_0000_0000
                * 125_000) by (nonlinear_arith)
                requires
                    -0x1_0000_0000_0000_0000 <= ahead <= 0x1_0000_0000_0000_0000,
                    0 < ns <= 125_000,
            ;
            let time: i128 = self.vad_anchor_pts as i128 + ahead * ns;
            assert(time == self@.clock.time_of(
                signed(position(events@[i as int])),
                self@.plan.vad_rate,
            ));
            out.push(vad_event_to_js_abs(events[i], Some(time as i64)));
            i = i + 1;
        }
        assert(event_views(out@) =~= self@.clock.timed(events@, self@.plan.vad_rate));
        out
    }

    /// Follows a chunk that was fed to the detector and gives the boundaries that it found their
    /// times; `None` without a detector.
    fn run_vad(
        &mut self,
        len: usize,
        in_rate: u32,
        in_channels: u16,
        pts_ns: i64,
        discontinuity: bool,
        dropped_before: u32,
        events: &Vec<VadEvent>,
    ) -> (res: Option<Vec<JsVadEvent>>)
        requires
            old(self)@.wf(),
            old(self)@.can_hear(
                fed_chunk(len, in_rate, in_channels, pts_ns, discontinuity, dropped_before),
                events@,
            ),
        ensures
            final(self)@.wf(),
            final(self)@ == (Flow {
                clock: old(self)@.listened(
                    fed_chunk(len, in_rate, in_channels, pts_ns, discontinuity, dropped_before),
                ),
                ..old(self)@
            }),
            opt_events(res) == (if old(self)@.plan.has_vad {
                Some(final(self)@.clock.timed(events@, old(self)@.plan.vad_rate))
            } else {
                None
            }),
    {
        if !self.has_vad {
            return None;
        }
        let span: (i64, u128) = self.fed_span(
            len,
            in_rate,
            in_channels,
            discontinuity,
            dropped_before,
        );
        let ghost listened = self@.listened(
            fed_chunk(len, in_rate, in_channels, pts_ns, discontinuity, dropped_before),
        );
        assert(listened.anchor_sample == span.0 && listened.fed == span.1);
        self.vad_last_dropped = dropped_before;
        self.vad_anchor_sample = span.0;
        self.vad_anchor_pts = pts_ns;
        self.vad_samples_fed = span.1 as i64;
        assert(self@.clock == listened);
        Some(self.stamp(events))
    }

    /// Takes the boundaries that wait and puts those of a chunk behind them.
    fn take_pending_prepended(&mut self, own: Option<Vec<JsVadEvent>>) -> (res: Vec<JsVadEvent>)
        requires
            old(self)@.wf(),
        ensures
            final(self)@.wf(),
            final(self)@ == (Flow { pending: Seq::empty(), ..old(self)@ }),
            event_views(res@) == match own {
                Some(events) => old(self)@.pending + event_views(events@),
                None => old(self)@.pending,
            },
    {
        let mut merged: Vec<JsVadEvent> = Vec::new();
        core::mem::swap(&mut merged, &mut self.pending_flush_events);
        assert(self@.pending =~= Seq::empty());
        if let Some(events) = own {
            let mut events: Vec<JsVadEvent> = events;
            let ghost front = merged@;
            let ghost back = events@;
            merged.append(&mut events);
            assert(event_views(merged@) =~= event_views(front) + event_views(back));
        }
        merged
    }

    /// The boundaries that ride on a chunk of the detector's output.
    fn hear(
        &mut self,
        len: usize,
        in_rate: u32,
        in_channels: u16,
        pts_ns: i64,
        discontinuity: bool,
        dropped_before: u32,
        events: &Vec<VadEvent>,
    ) -> (res: Option<Vec<JsVadEvent>>)
        requires
            old(self)@.wf(),
            old(self)@.can_hear(
                fed_chunk(len, in_rate, in_channels, pts_ns, discontinuity, dropped_before),
                events@,
            ),
        ensures
            final(self)@.wf(),
            final(self)@ == (Flow {
                clock: old(self)@.listened(
                    fed_chunk(len, in_rate, in_channels, pts_ns, discontinuity, dropped_before),
                ),
                pending: Seq::empty(),
                ..old(self)@
            }),
            opt_events(res) == old(self)@.riding(
                fed_chunk(len, in_rate, in_channels, pts_ns, discontinuity, dropped_before),
                events@,
            ),
    {
        let own: Option<Vec<JsVadEvent>> = self.run_vad(
            len,
            in_rate,
            in_channels,
            pts_ns,
            discontinuity,
            dropped_before,
            events,
        );
        if self.pending_flush_events.len() > 0 {
            Some(self.take_pending_prepended(own))
        } else {
            assert(self@.pending =~= Seq::empty());
            own
        }
    }

    /// Takes in a primary chunk, `events` being the boundaries that the detector found in it if
    /// it listens there.
    pub fn on_primary(&mut self, chunk: AudioChunk, events: &Vec<VadEvent>)
        requires
            old(self)@.wf(),
            old(self)@.plan.tap == VadTap::Primary ==> old(self)@.can_hear(
                old(self)@.fed_primary(chunk),
                events@,
            ),
        ensures
            final(self)@.wf(),
            final(self)@ == old(self)@.with_primary(chunk, events@),
    {
        let ghost before = self@;
        let vad_events: Option<Vec<JsVadEvent>> = match self.vad_tap {
            VadTap::Primary => self.hear(
                chunk.data.len(),
                self.output_rate,
                self.output_channels,
                chunk.pts_ns,
                chunk.discontinuity,
                chunk.dropped_before,
                events,
            ),
            VadTap::Secondary => None,
        };
        let mut js: JsAudioChunk = chunk_to_js(chunk);
        js.vad_events = vad_events;
        let ghost shown = js@;
        self.primary_fifo.push_back(js);
        assert(self@.primaries =~= before.primaries.push(shown));
    }

    /// Takes in a secondary chunk, `events` being the boundaries that the detector found in it if
    /// it listens there, and `quantized` its samples in 16 bits. Without a secondary output it is
    /// ignored.
    pub fn on_secondary(
        &mut self,
        chunk: SecondaryChunk,
        events: &Vec<VadEvent>,
        quantized: Vec<i16>,
    )
        requires
            old(self)@.wf(),
            old(self)@.plan.tap == VadTap::Secondary ==> (old(self)@.plan.secondary matches Some(
                cfg,
            ) ==> old(self)@.can_hear(old(self)@.fed_secondary(chunk, cfg), events@)),
        ensures
            final(self)@.wf(),
            final(self)@ == old(self)@.with_secondary(chunk, events@, quantized@),
    {
        let ghost before = self@;
        let cfg: SecondaryTapCfg = match self.secondary {
            None => {
                return ;
            },
            Some(cfg) => cfg,
        };
        let vad_events: Option<Vec<JsVadEvent>> = match self.vad_tap {
            VadTap::Secondary => self.hear(
                chunk.samples.len(),
                cfg.rate,
                cfg.channels,
                chunk.pts_ns,
                chunk.discontinuity,
                chunk.dropped_before,
                events,
            ),
            VadTap::Primary => None,
        };
        let js: JsSecondaryChunk = secondary_to_js(chunk, cfg.encoding, quantized, vad_events);
        let ghost shown = js@;
        self.secondary_fifo.push_back(js);
        assert(self@.secondaries =~= before.secondaries.push(shown));
    }

    /// Follows a flush of the detector and gives the boundaries that it found their times.
    fn flush_vad_events(&mut self, events: &Vec<VadEvent>) -> (res: Vec<JsVadEvent>)
        requires
            old(self)@.wf(),
            old(self)@.plan.has_vad ==> old(self)@.clock.can_time(
                events@,
                old(self)@.plan.vad_rate,
            ),
        ensures
            final(self)@.wf(),
            final(self)@ == (Flow {
                clock: old(self)@.flushed(events@).clock,
                ..old(self)@
            }),
            event_views(res@) == old(self)@.flushed_events(events@),
    {
        if !self.has_vad {
            let none: Vec<JsVadEvent> = Vec::new();
            assert(event_views(none@) =~= Seq::empty());
            return none;
        }
        let stamped: Vec<JsVadEvent> = self.stamp(events);
        self.vad_samples_fed = 0;
        stamped
    }

    /// Follows a flush of the detector while the recording goes on: the boundaries that it found
    /// wait for the next chunk of its output.
    pub fn flush_vad(&mut self, events: &Vec<VadEvent>)
        requires
            old(self)@.wf(),
            old(self)@.plan.has_vad ==> old(self)@.clock.can_time(
                events@,
                old(self)@.plan.vad_rate,
            ),
        ensures
            final(self)@.wf(),
            final(self)@ == old(self)@.flushed(events@),
    {
        let ghost before = self@;
        let mut js: Vec<JsVadEvent> = self.flush_vad_events(events);
        let ghost front = self.pending_flush_events@;
        let ghost back = js@;
        self.pending_flush_events.append(&mut js);
        assert(event_views(self.pending_flush_events@) =~= event_views(front) + event_views(back));
    }

    /// Follows the flush of the detector at the end of a recording and gives the terminator,
    /// which comes whether or not there are boundaries.
    pub fn flush_vad_final(&mut self, events: &Vec<VadEvent>) -> (res: JsAudioChunk)
        requires
            old(self)@.wf(),
            old(self)@.plan.has_vad ==> old(self)@.clock.can_time(
                events@,
                old(self)@.plan.vad_rate,
            ),
        ensures
            final(self)@.wf(),
            final(self)@ == (Flow {
                pending: Seq::empty(),
                ..old(self)@.flushed(events@)
            }),
            res@ == old(self)@.terminator(events@),
    {
        self.flush_vad(events);
        let last: Vec<JsVadEvent> = self.take_pending_prepended(None);
        let pts: i64 = if self.vad_anchor_pts < self.last_emitted_primary_pts {
            self.last_emitted_primary_pts
        } else {
            self.vad_anchor_pts
        };
        let silent = Level { bits: ZERO_BITS };
        let mut carrier = JsAudioChunk {
            data: Vec::new(),
            frames: 0,
            pts_ns: pts,
            seq: 0,
            flags: 0,
            dropped_before: 0,
            peak: silent,
            rms: silent,
            vad_events: None,
            secondary: None,
        };
        match self.vad_tap {
            VadTap::Primary => {
                carrier.vad_events = Some(last);
            },
            VadTap::Secondary => {
                let in_16_bits: bool = match self.secondary {
                    Some(cfg) => cfg.encoding == SecEncoding::S16,
                    None => false,
                };
                let data: SecondaryData = if in_16_bits {
                    SecondaryData::S16(Vec::new())
                } else {
                    SecondaryData::F32(Vec::new())
                };
                carrier.secondary = Some(
                    JsSecondaryChunk {
                        data,
                        frames: 0,
                        pts_ns: pts,
                        seq: 0,
                        flags: 0,
                        dropped_before: 0,
                        peak: silent,
                        rms: silent,
                        vad_events: Some(last),
                    },
                );
            },
        }
        carrier
    }

    /// The partner of a primary chunk, taken from the secondary chunks that wait.
    fn take_partner(&mut self, p_pts: i64) -> (res: Option<JsSecondaryChunk>)
        requires
            old(self)@.wf(),
        ensures
            final(self)@.wf(),
            final(self)@ == (Flow {
                secondaries: partner(p_pts as int, old(self)@.secondaries).1,
                ..old(self)@
            }),
            final(self).primary_fifo@ == old(self).primary_fifo@,
            match (res, partner(p_pts as int, old(self)@.secondaries).0) {
                (Some(got), Some(want)) => got@ == want,
                (None, None) => true,
                _ => false,
            },
    {
        let ghost before = self@;
        let ghost wanted = partner(p_pts as int, self@.secondaries);
        let earliest: i128 = p_pts as i128 - PAIR_WINDOW_NS as i128 / 2;
        let end: i128 = p_pts as i128 + CHUNK_SPAN_NS as i128 + PAIR_WINDOW_NS as i128 / 2;
        assert(self.secondary_fifo@.len() == self@.secondaries.len());
        while self.secondary_fifo.len() > 0
            invariant
                before == old(self)@,
                before.wf(),
                wanted == partner(p_pts as int, before.secondaries),
                self@ == (Flow { secondaries: self@.secondaries, ..before }),
                self.primary_fifo@ == old(self).primary_fifo@,
                self.secondary_fifo@.len() == self@.secondaries.len(),
                earliest == p_pts - PAIR_WINDOW_NS / 2,
                end == p_pts + CHUNK_SPAN_NS + PAIR_WINDOW_NS / 2,
                partner(p_pts as int, self@.secondaries) == wanted,
            decreases self.secondary_fifo@.len(),
        {
            let s_pts: i128 = self.secondary_fifo[0].pts_ns as i128;
            let ghost waiting = self@.secondaries;
            assert(waiting[0].meta.pts_ns == s_pts);
            if s_pts < earliest {
                let _orphan: Option<JsSecondaryChunk> = self.secondary_fifo.pop_front();
                proof {
                    assert(self@.secondaries =~= waiting.skip(1));
                    lemma_partner_skips(p_pts as int, waiting);
                }
            } else {
                assert(waiting.skip(0) =~= waiting);
                if s_pts < end {
                    let found: Option<JsSecondaryChunk> = self.secondary_fifo.pop_front();
                    assert(self@.secondaries =~= waiting.skip(1));
                    return found;
                }
                return None;
            }
        }
        assert(self@.secondaries.skip(0) =~= self@.secondaries);
        None
    }

    /// Pairs the primary chunks that wait with secondary chunks of the same time and gives them
    /// out in order. A secondary chunk that is too old is dropped, one that is too new stays, and
    /// a primary chunk without a partner goes alone.
    pub fn drain_pairs(&mut self) -> (res: Vec<JsAudioChunk>)
        requires
            old(self)@.wf(),
        ensures
            final(self)@.wf(),
            final(self)@ == old(self)@.drained(),
            primary_views(res@) == paired(old(self)@.primaries, old(self)@.secondaries).0,
    {
        let ghost before = self@;
        let ghost all = paired(self@.primaries, self@.secondaries);
        let mut out: Vec<JsAudioChunk> = Vec::new();
        assert(primary_views(out@) + all.0 =~= all.0);
        while self.primary_fifo.len() > 0
            invariant
                self@.wf(),
                self.primary_fifo@.len() == self@.primaries.len(),
                self@.plan == before.plan,
                self@.clock == before.clock,
                self@.pending == before.pending,
                primary_views(out@) + paired(self@.primaries, self@.secondaries).0 == all.0,
                paired(self@.primaries, self@.secondaries).1 == all.1,
                latest(self@.delivered, self@.primaries) == latest(
                    before.delivered,
                    before.primaries,
                ),
            decreases self.primary_fifo@.len(),
        {
            let ghost waiting = self@.primaries;
            let ghost partners = self@.secondaries;
            let ghost emitted = out@;
            let p_pts: i64 = self.primary_fifo[0].pts_ns;
            assert(waiting[0].meta.pts_ns == p_pts);
            let matched: Option<JsSecondaryChunk> = self.take_partner(p_pts);
            let first: Option<JsAudioChunk> = self.primary_fifo.pop_front();
            assert(self@.primaries =~= waiting.skip(1));
            if let Some(p) = first {
                let mut p: JsAudioChunk = p;
                if self.last_emitted_primary_pts < p.pts_ns {
                    self.last_emitted_primary_pts = p.pts_ns;
                }
                p.secondary = matched;
                let ghost shown = p@;
                out.push(p);
                proof {
                    assert(primary_views(out@) =~= primary_views(emitted).push(shown));
                    let rest = paired(self@.primaries, self@.secondaries);
                    assert(paired(waiting, partners).0 == seq![shown] + rest.0);
                    assert(primary_views(out@) + rest.0 =~= primary_views(emitted) + (seq![shown]
                        + rest.0));
                }
            }
        }
        assert(self@.primaries =~= Seq::empty());
        assert(primary_views(out@) + Seq::<PrimaryView>::empty() =~= primary_views(out@));
        out
    }
}

// ---------------------------------------------------------------------------
// Laws
// ---------------------------------------------------------------------------

/// The terminator is never before anything that was delivered, so that times never go back.
pub proof fn lemma_terminator_comes_last(flow: Flow, events: Seq<VadEvent>)
    ensures
        flow.drained().terminator(events).meta.pts_ns >= flow.delivered,
        forall|i: int|
            0 <= i < flow.primaries.len() ==> flow.drained().terminator(events).meta.pts_ns >= (
            #[trigger] flow.primaries[i]).meta.pts_ns,
{
    lemma_latest(flow.delivered, flow.primaries);
}

/// Within a chunk, boundaries in the order of their positions are in the order of their times.
pub proof fn lemma_times_keep_order(clock: Clock, vad_rate: int, a: int, b: int)
    requires
        vad_rate == 8000 || vad_rate == 16000,
        a <= b,
    ensures
        clock.time_of(a, vad_rate) <= clock.time_of(b, vad_rate),
        clock.time_of(clock.anchor_sample, vad_rate) == clock.anchor_pts,
{
    let ns = sample_ns(vad_rate);
    assert(ns > 0);
    assert((a - clock.anchor_sample) * ns <= (b - clock.anchor_sample) * ns) by (nonlinear_arith)
        requires
            a <= b,
            ns > 0,
    ;
    assert(0 * ns == 0) by (nonlinear_arith);
}

/// What the detector of a recording is given or asked, with the boundaries that it finds.
pub enum Heard {
    /// A chunk of the output that it listens to.
    Chunk(Fed, Seq<VadEvent>),
    /// A flush.
    Flush(Seq<VadEvent>),
}

impl Heard {
    /// The boundaries that are found.
    pub open spec fn events(self) -> Seq<VadEvent> {
        match self {
            Heard::Chunk(_, events) => events,
            Heard::Flush(events) => events,
        }
    }
}

impl Clock {
    /// Whether the detector counts from 0 at a chunk: it starts anew there, or nothing was fed
    /// since it did.
    pub open spec fn counts_anew(self, chunk: Fed) -> bool {
        self.restarts(chunk.discontinuity, chunk.dropped) || self.fed == 0
    }

    /// After a chunk or a flush.
    pub open spec fn after_heard(self, heard: Heard, vad_rate: int) -> Clock {
        match heard {
            Heard::Chunk(chunk, _) => self.after(chunk, vad_rate),
            Heard::Flush(_) => Clock { fed: 0, ..self },
        }
    }

    /// The boundaries of a chunk or a flush with their times.
    pub open spec fn told(self, heard: Heard, vad_rate: int) -> Seq<EventView> {
        self.after_heard(heard, vad_rate).timed(heard.events(), vad_rate)
    }

    /// After a stretch of a recording.
    pub open spec fn after_all(self, stretch: Seq<Heard>, vad_rate: int) -> Clock
        decreases stretch.len(),
    {
        if stretch.len() == 0 {
            self
        } else {
            self.after_all(stretch.drop_last(), vad_rate).after_heard(stretch.last(), vad_rate)
        }
    }

    /// All boundaries of a stretch of a recording with their times, in the order in which they
    /// are told.
    pub open spec fn all_told(self, stretch: Seq<Heard>, vad_rate: int) -> Seq<EventView>
        decreases stretch.len(),
    {
        if stretch.len() == 0 {
            Seq::empty()
        } else {
            self.all_told(stretch.drop_last(), vad_rate) + self.after_all(
                stretch.drop_last(),
                vad_rate,
            ).told(stretch.last(), vad_rate)
        }
    }

    /// The position of the latest boundary since the detector counted from 0, which is 0 where
    /// there is none yet.
    pub open spec fn latest_position(self, stretch: Seq<Heard>, vad_rate: int) -> int
        decreases stretch.len(),
    {
        if stretch.len() == 0 {
            0
        } else {
            let before = stretch.drop_last();
            let events = stretch.last().events();
            if events.len() > 0 {
                signed(position(events.last()))
            } else if stretch.last() matches Heard::Chunk(chunk, _) && self.after_all(
                before,
                vad_rate,
            ).counts_anew(chunk) {
                0
            } else {
                self.latest_position(before, vad_rate)
            }
        }
    }

    /// Whether a stretch of a recording is in order.
    ///
    /// Boundaries come in the order of their positions as long as the detector counts on. A chunk
    /// is not before the end of the audio that was fed ahead of it, or, where the detector counts
    /// from 0 at it, not before any boundary that was told.
    pub open spec fn in_order(self, stretch: Seq<Heard>, vad_rate: int) -> bool
        decreases stretch.len(),
    {
        stretch.len() > 0 ==> {
            let before = stretch.drop_last();
            let clock = self.after_all(before, vad_rate);
            let latest = self.latest_position(before, vad_rate);
            &&& self.in_order(before, vad_rate)
            &&& match stretch.last() {
                Heard::Chunk(chunk, events) => if clock.counts_anew(chunk) {
                    &&& ascend_from(events, 0)
                    &&& forall|i: int|
                        0 <= i < self.all_told(before, vad_rate).len()
                            ==> (#[trigger] self.all_told(before, vad_rate)[i]).at_ns->0
                            <= chunk.pts
                } else {
                    &&& ascend_from(events, latest)
                    &&& clock.time_of(clock.fed, vad_rate) <= chunk.pts
                },
                Heard::Flush(events) => ascend_from(events, latest),
            }
        }
    }
}

/// Whether boundaries come in the order of their positions, none before `least`.
pub open spec fn ascend_from(events: Seq<VadEvent>, least: int) -> bool {
    &&& forall|i: int| 0 <= i < events.len() ==> least <= signed(position(#[trigger] events[i]))
    &&& forall|i: int, j: int|
        0 <= i <= j < events.len() ==> signed(position(#[trigger] events[i])) <= signed(
            position(#[trigger] events[j]),
        )
}

/// Over a recording in order, the times of boundaries never go back, from one chunk to the next
/// and across flushes and new starts of the detector.
pub proof fn lemma_times_never_go_back(clock: Clock, stretch: Seq<Heard>, vad_rate: int)
    requires
        vad_rate == 8000 || vad_rate == 16000,
        clock.in_order(stretch, vad_rate),
    ensures
        forall|i: int, j: int|
            0 <= i <= j < clock.all_told(stretch, vad_rate).len() ==> (#[trigger] clock.all_told(
                stretch,
                vad_rate,
            )[i]).at_ns->0 <= (#[trigger] clock.all_told(stretch, vad_rate)[j]).at_ns->0,
{
    lemma_told_so_far(clock, stretch, vad_rate);
}

proof fn lemma_told_so_far(clock: Clock, stretch: Seq<Heard>, vad_rate: int)
    requires
        vad_rate == 8000 || vad_rate == 16000,
        clock.in_order(stretch, vad_rate),
    ensures
        forall|i: int, j: int|
            0 <= i <= j < clock.all_told(stretch, vad_rate).len() ==> (#[trigger] clock.all_told(
                stretch,
                vad_rate,
            )[i]).at_ns->0 <= (#[trigger] clock.all_told(stretch, vad_rate)[j]).at_ns->0,
        forall|i: int|
            0 <= i < clock.all_told(stretch, vad_rate).len() ==> (#[trigger] clock.all_told(
                stretch,
                vad_rate,
            )[i]).at_ns->0 <= clock.after_all(stretch, vad_rate).time_of(
                clock.latest_position(stretch, vad_rate),
                vad_rate,
            ),
    decreases stretch.len(),
{
    if stretch.len() > 0 {
        let before = stretch.drop_last();
        let heard = stretch.last();
        lemma_told_so_far(clock, before, vad_rate);
        let old_clock = clock.after_all(before, vad_rate);
        let new_clock = old_clock.after_heard(heard, vad_rate);
        let earlier = clock.all_told(before, vad_rate);
        let own = old_clock.told(heard, vad_rate);
        let from = if heard matches Heard::Chunk(chunk, _) && old_clock.counts_anew(chunk) {
            0
        } else {
            clock.latest_position(before, vad_rate)
        };
        let latest = clock.latest_position(stretch, vad_rate);
        assert(clock.all_told(stretch, vad_rate) == earlier + own);
        assert(ascend_from(heard.events(), from));
        assert forall|i: int| 0 <= i < earlier.len() implies (#[trigger] earlier[i]).at_ns->0
            <= new_clock.time_of(from, vad_rate) by {
            match heard {
                Heard::Chunk(chunk, _) => {
                    if old_clock.counts_anew(chunk) {
                        lemma_times_keep_order(new_clock, vad_rate, 0, 0);
                    } else {
                        lemma_clock_moves_on(old_clock, chunk, vad_rate, from);
                    }
                },
                Heard::Flush(_) => {},
            }
        }
        assert forall|i: int| 0 <= i < own.len() implies new_clock.time_of(from, vad_rate) <= (
        #[trigger] own[i]).at_ns->0 by {
            lemma_times_keep_order(
                new_clock,
                vad_rate,
                from,
                signed(position(heard.events()[i])),
            );
        }
        assert forall|i: int, j: int| 0 <= i <= j < own.len() implies (#[trigger] own[i]).at_ns->0
            <= (#[trigger] own[j]).at_ns->0 by {
            lemma_times_keep_order(
                new_clock,
                vad_rate,
                signed(position(heard.events()[i])),
                signed(position(heard.events()[j])),
            );
        }
        if own.len() > 0 {
            assert(own[own.len() - 1].at_ns->0 == new_clock.time_of(latest, vad_rate));
        } else {
            assert(latest == from);
        }
    }
}

proof fn lemma_clock_moves_on(clock: Clock, chunk: Fed, vad_rate: int, at: int)
    requires
        vad_rate == 8000 || vad_rate == 16000,
        !clock.restarts(chunk.discontinuity, chunk.dropped),
        clock.time_of(clock.fed, vad_rate) <= chunk.pts,
    ensures
        clock.time_of(at, vad_rate) <= clock.after(chunk, vad_rate).time_of(at, vad_rate),
{
    let ns = sample_ns(vad_rate);
    assert((at - clock.anchor_sample) * ns == (clock.fed - clock.anchor_sample) * ns + (at
        - clock.fed) * ns) by (nonlinear_arith);
}

/// The boundaries that a bridge gives to chunks are those that its clock tells.
pub proof fn lemma_what_rides_is_told(flow: Flow, chunk: Fed, events: Seq<VadEvent>)
    requires
        flow.plan.has_vad,
    ensures
        flow.listened(chunk) == flow.clock.after_heard(
            Heard::Chunk(chunk, events),
            flow.plan.vad_rate,
        ),
        flow.riding(chunk, events) == Some(
            flow.pending + flow.clock.told(Heard::Chunk(chunk, events), flow.plan.vad_rate),
        ),
        flow.flushed(events).clock == flow.clock.after_heard(
            Heard::Flush(events),
            flow.plan.vad_rate,
        ),
        flow.flushed(events).pending == flow.pending + flow.clock.told(
            Heard::Flush(events),
            flow.plan.vad_rate,
        ),
{
    let told = flow.clock.told(Heard::Chunk(chunk, events), flow.plan.vad_rate);
    if flow.pending.len() == 0 {
        assert(flow.pending + told =~= told);
    }
    assert(flow.clock.told(Heard::Flush(events), flow.plan.vad_rate) =~= flow.flushed_events(
        events,
    ));
}

/// Boundaries of a flush ride once, in front of those of the next primary chunk, where the
/// detector listens there.
pub proof fn lemma_flush_rides_on_primary(
    flow: Flow,
    flushed: Seq<VadEvent>,
    chunk: AudioChunk,
    events: Seq<VadEvent>,
)
    requires
        flow.plan.has_vad,
        flow.plan.tap == VadTap::Primary,
    ensures
        flow.flushed(flushed).with_primary(chunk, events).pending.len() == 0,
        flow.flushed(flushed).with_primary(chunk, events).primaries.last().events == Some(
            flow.pending + flow.flushed_events(flushed) + flow.flushed(flushed).listened(
                flow.fed_primary(chunk),
            ).timed(events, flow.plan.vad_rate),
        ),
{
    let waiting = flow.flushed(flushed).pending;
    assert(waiting + Seq::<EventView>::empty() =~= waiting);
    let own = flow.flushed(flushed).listened(flow.fed_primary(chunk)).timed(
        events,
        flow.plan.vad_rate,
    );
    if waiting.len() == 0 {
        assert(waiting + own =~= own);
    }
}

/// Boundaries of a flush ride once, in front of those of the next secondary chunk, where the
/// detector listens there.
pub proof fn lemma_flush_rides_on_secondary(
    flow: Flow,
    cfg: SecondaryTapCfg,
    flushed: Seq<VadEvent>,
    chunk: SecondaryChunk,
    events: Seq<VadEvent>,
    quantized: Seq<i16>,
)
    requires
        flow.plan.has_vad,
        flow.plan.tap == VadTap::Secondary,
        flow.plan.secondary == Some(cfg),
    ensures
        flow.flushed(flushed).with_secondary(chunk, events, quantized).pending.len() == 0,
        flow.flushed(flushed).with_secondary(chunk, events, quantized).secondaries.last().events
            == Some(
            flow.pending + flow.flushed_events(flushed) + flow.flushed(flushed).listened(
                flow.fed_secondary(chunk, cfg),
            ).timed(events, flow.plan.vad_rate),
        ),
{
    let waiting = flow.flushed(flushed).pending;
    let own = flow.flushed(flushed).listened(flow.fed_secondary(chunk, cfg)).timed(
        events,
        flow.plan.vad_rate,
    );
    if waiting.len() == 0 {
        assert(waiting + own =~= own);
    }
}

/// A primary chunk carries boundaries, possibly none, exactly where there is a detector that
/// listens to it; its samples, times and numbers are those that came.
pub proof fn lemma_events_only_with_detector(flow: Flow, chunk: AudioChunk, events: Seq<VadEvent>)
    requires
        flow.wf(),
    ensures
        flow.with_primary(chunk, events).primaries.last().events is Some <==> flow.plan.has_vad
            && flow.plan.tap == VadTap::Primary,
        flow.with_primary(chunk, events).primaries.last().data == chunk.data@,
        flow.with_primary(chunk, events).primaries.last().meta == chunk.meta(),
{
}

/// A primary chunk that the detector listens to advances the running position by its frames, at
/// the rate and with the channels of the primary output, counted in samples of the detector. The
/// count starts from 0 where audio is missing before the chunk or more chunks were dropped than
/// before, and a rate or channels of 0 count as 1. A boundary at position `k` gets the time of the
/// chunk plus the time of the samples from its start to `k`, and rides behind the boundaries that
/// waited.
pub proof fn lemma_primary_advances_position(
    flow: Flow,
    chunk: AudioChunk,
    events: Seq<VadEvent>,
    base: int,
)
    requires
        flow.plan.has_vad,
        flow.plan.tap == VadTap::Primary,
        chunk.discontinuity || chunk.dropped_before > flow.clock.dropped ==> base == 0,
        !chunk.discontinuity && chunk.dropped_before <= flow.clock.dropped ==> base
            == flow.clock.fed,
    ensures
        ({
            let now = flow.with_primary(chunk, events);
            let channels = if flow.plan.output_channels < 1 {
                1
            } else {
                flow.plan.output_channels as int
            };
            let rate = if flow.plan.output_rate < 1 {
                1
            } else {
                flow.plan.output_rate as int
            };
            let frames = chunk.data@.len() as int / channels;
            &&& now.clock.fed == base + frames * flow.plan.vad_rate / rate
            &&& now.clock.anchor_sample == base
            &&& now.clock.anchor_pts == chunk.pts_ns
            &&& now.clock.dropped == chunk.dropped_before
            &&& now.pending.len() == 0
            &&& now.plan == flow.plan && now.delivered == flow.delivered
            &&& now.secondaries == flow.secondaries
            &&& now.primaries.len() == flow.primaries.len() + 1
            &&& now.primaries.drop_last() == flow.primaries
            &&& now.primaries.last().events matches Some(told) && {
                &&& told.len() == flow.pending.len() + events.len()
                &&& told.take(flow.pending.len() as int) == flow.pending
                &&& forall|i: int|
                    0 <= i < events.len() ==> (#[trigger] told[flow.pending.len() + i]).at_ns
                        == Some(
                        chunk.pts_ns + (signed(position(events[i])) - base) * (1_000_000_000int
                            / flow.plan.vad_rate),
                    ) && told[flow.pending.len() + i].at_sample == signed(position(events[i]))
                        && told[flow.pending.len() + i].kind == if events[i] is SpeechStart {
                        "speechStart"@
                    } else {
                        "speechEnd"@
                    }
            }
        }),
{
    let now = flow.with_primary(chunk, events);
    let fed = flow.fed_primary(chunk);
    let own = flow.listened(fed).timed(events, flow.plan.vad_rate);
    if flow.pending.len() == 0 {
        assert(flow.pending + own =~= own);
    }
    let told = now.primaries.last().events->0;
    assert(told =~= flow.pending + own);
    assert(told.take(flow.pending.len() as int) =~= flow.pending);
    assert(now.primaries.drop_last() =~= flow.primaries);
    assert forall|i: int| 0 <= i < events.len() implies (#[trigger] told[flow.pending.len()
        + i]).at_ns == Some(
        chunk.pts_ns + (signed(position(events[i])) - base) * (1_000_000_000int
            / flow.plan.vad_rate),
    ) && told[flow.pending.len() + i].at_sample == signed(position(events[i]))
        && told[flow.pending.len() + i].kind == if events[i] is SpeechStart {
        "speechStart"@
    } else {
        "speechEnd"@
    } by {
        assert(told[flow.pending.len() + i] == own[i]);
    }
}

/// A secondary chunk that the detector listens to advances the running position by its frames, at
/// the rate and with the channels of the secondary output, counted in samples of the detector.
/// The count starts from 0 where audio is missing before the chunk or more chunks were dropped
/// than before, and a rate or channels of 0 count as 1. A boundary at position `k` gets the time
/// of the chunk plus the time of the samples from its start to `k`, and rides behind the
/// boundaries that waited.
pub proof fn lemma_secondary_advances_position(
    flow: Flow,
    cfg: SecondaryTapCfg,
    chunk: SecondaryChunk,
    events: Seq<VadEvent>,
    quantized: Seq<i16>,
    base: int,
)
    requires
        flow.plan.has_vad,
        flow.plan.tap == VadTap::Secondary,
        flow.plan.secondary == Some(cfg),
        chunk.discontinuity || chunk.dropped_before > flow.clock.dropped ==> base == 0,
        !chunk.discontinuity && chunk.dropped_before <= flow.clock.dropped ==> base
            == flow.clock.fed,
    ensures
        ({
            let now = flow.with_secondary(chunk, events, quantized);
            let channels = if cfg.channels < 1 {
                1
            } else {
                cfg.channels as int
            };
            let rate = if cfg.rate < 1 {
                1
            } else {
                cfg.rate as int
            };
            let frames = chunk.samples@.len() as int / channels;
            &&& now.clock.fed == base + frames * flow.plan.vad_rate / rate
            &&& now.clock.anchor_sample == base
            &&& now.clock.anchor_pts == chunk.pts_ns
            &&& now.clock.dropped == chunk.dropped_before
            &&& now.pending.len() == 0
            &&& now.plan == flow.plan && now.delivered == flow.delivered
            &&& now.primaries == flow.primaries
            &&& now.secondaries.len() == flow.secondaries.len() + 1
            &&& now.secondaries.drop_last() == flow.secondaries
            &&& now.secondaries.last().events matches Some(told) && {
                &&& told.len() == flow.pending.len() + events.len()
                &&& told.take(flow.pending.len() as int) == flow.pending
                &&& forall|i: int|
                    0 <= i < events.len() ==> (#[trigger] told[flow.pending.len() + i]).at_ns
                        == Some(
                        chunk.pts_ns + (signed(position(events[i])) - base) * (1_000_000_000int
                            / flow.plan.vad_rate),
                    ) && told[flow.pending.len() + i].at_sample == signed(position(events[i]))
                        && told[flow.pending.len() + i].kind == if events[i] is SpeechStart {
                        "speechStart"@
                    } else {
                        "speechEnd"@
                    }
            }
        }),
{
    let now = flow.with_secondary(chunk, events, quantized);
    let fed = flow.fed_secondary(chunk, cfg);
    let own = flow.listened(fed).timed(events, flow.plan.vad_rate);
    if flow.pending.len() == 0 {
        assert(flow.pending + own =~= own);
    }
    let told = now.secondaries.last().events->0;
    assert(told =~= flow.pending + own);
    assert(told.take(flow.pending.len() as int) =~= flow.pending);
    assert(now.secondaries.drop_last() =~= flow.secondaries);
    assert forall|i: int| 0 <= i < events.len() implies (#[trigger] told[flow.pending.len()
        + i]).at_ns == Some(
        chunk.pts_ns + (signed(position(events[i])) - base) * (1_000_000_000int
            / flow.plan.vad_rate),
    ) && told[flow.pending.len() + i].at_sample == signed(position(events[i]))
        && told[flow.pending.len() + i].kind == if events[i] is SpeechStart {
        "speechStart"@
    } else {
        "speechEnd"@
    } by {
        assert(told[flow.pending.len() + i] == own[i]);
    }
}

impl Flow {
    /// After primary chunks, each with the boundaries that the detector found in it.
    pub open spec fn with_primaries(self, chunks: Seq<AudioChunk>, events: Seq<Seq<VadEvent>>) -> Flow
        decreases chunks.len(),
    {
        if chunks.len() == 0 {
            self
        } else {
            self.with_primaries(chunks.drop_last(), events).with_primary(
                chunks.last(),
                events[chunks.len() - 1],
            )
        }
    }

    /// After secondary chunks, each with the boundaries that the detector found in it and its
    /// samples in 16 bits.
    pub open spec fn with_secondaries(
        self,
        chunks: Seq<SecondaryChunk>,
        events: Seq<Seq<VadEvent>>,
        quantized: Seq<Seq<i16>>,
    ) -> Flow
        decreases chunks.len(),
    {
        if chunks.len() == 0 {
            self
        } else {
            self.with_secondaries(chunks.drop_last(), events, quantized).with_secondary(
                chunks.last(),
                events[chunks.len() - 1],
                quantized[chunks.len() - 1],
            )
        }
    }
}

proof fn lemma_gapless_primary_clock(
    flow: Flow,
    chunks: Seq<AudioChunk>,
    events: Seq<Seq<VadEvent>>,
)
    requires
        flow.plan.has_vad,
        flow.plan.tap == VadTap::Primary,
        flow.plan.vad_rate == 8000 || flow.plan.vad_rate == 16000,
        flow.plan.output_rate >= 1,
        flow.plan.output_channels >= 1,
        flow.clock.fed == 0,
        flow.pending.len() == 0,
        forall|i: int|
            0 <= i < chunks.len() ==> (#[trigger] chunks[i]).dropped_before
                == chunks[0].dropped_before,
        forall|i: int| 0 < i < chunks.len() ==> !(#[trigger] chunks[i]).discontinuity,
        forall|i: int|
            0 < i < chunks.len() ==> (#[trigger] chunks[i]).pts_ns == chunks[i - 1].pts_ns + ((
            chunks[i - 1].data@.len() as int / flow.plan.output_channels as int) * flow.plan.vad_rate / flow.plan.output_rate as int)
                * (1_000_000_000int / flow.plan.vad_rate),
    ensures
        ({
            let now = flow.with_primaries(chunks, events);
            let ns = 1_000_000_000int / flow.plan.vad_rate;
            &&& now.plan == flow.plan
            &&& now.pending.len() == 0
            &&& chunks.len() == 0 ==> now.clock == flow.clock
            &&& chunks.len() > 0 ==> {
                let last = chunks.last();
                &&& now.clock.dropped == chunks[0].dropped_before
                &&& now.clock.anchor_pts == last.pts_ns
                &&& now.clock.anchor_pts == chunks[0].pts_ns + now.clock.anchor_sample * ns
                &&& now.clock.fed == now.clock.anchor_sample + (last.data@.len() as int
                    / flow.plan.output_channels as int) * flow.plan.vad_rate / flow.plan.output_rate as int
            }
        }),
    decreases chunks.len(),
{
    if chunks.len() > 0 {
        let last: int = chunks.len() - 1;
        let less = chunks.drop_last();
        let chunk = chunks.last();
        assert forall|i: int| 0 <= i < less.len() implies (#[trigger] less[i]).dropped_before
            == less[0].dropped_before by {
            assert(chunks[i].dropped_before == chunks[0].dropped_before);
        }
        assert forall|i: int| 0 < i < less.len() implies !(#[trigger] less[i]).discontinuity by {
            assert(less[i] == chunks[i]);
        }
        assert forall|i: int| 0 < i < less.len() implies (#[trigger] less[i]).pts_ns == less[i
            - 1].pts_ns + ((less[i - 1].data@.len() as int / flow.plan.output_channels as int) * flow.plan.vad_rate
            / flow.plan.output_rate as int) * (1_000_000_000int / flow.plan.vad_rate) by {
            assert(less[i] == chunks[i]);
        }
        lemma_gapless_primary_clock(flow, less, events);
        let mid = flow.with_primaries(less, events);
        assert(chunks[last] == chunk);
        assert(chunks[last].dropped_before == chunks[0].dropped_before);
        let base = if chunk.discontinuity || chunk.dropped_before > mid.clock.dropped {
            0
        } else {
            mid.clock.fed
        };
        lemma_primary_advances_position(mid, chunk, events[last], base);
        let ns = 1_000_000_000int / flow.plan.vad_rate;
        if less.len() > 0 {
            let length = (chunks[last - 1].data@.len() as int / flow.plan.output_channels as int)
                * flow.plan.vad_rate / flow.plan.output_rate as int;
            assert(less.last() == chunks[last - 1]);
            assert(chunks[last].pts_ns == chunks[last - 1].pts_ns + length * ns);
            assert((mid.clock.anchor_sample + length) * ns == mid.clock.anchor_sample * ns + length
                * ns) by (nonlinear_arith);
        } else {
            assert(base == 0);
            assert(base * ns == 0) by (nonlinear_arith)
                requires
                    base == 0,
            ;
        }
    }
}

/// Over primary chunks without a gap, whose times advance by their length at the rate of the
/// primary output, a boundary at position `k` has the time of the first chunk plus `k` samples of
/// the detector.
pub proof fn lemma_gapless_primary_times(
    flow: Flow,
    chunks: Seq<AudioChunk>,
    events: Seq<Seq<VadEvent>>,
    i: int,
)
    requires
        chunks.len() > 0,
        0 <= i < events[chunks.len() - 1].len(),
        flow.plan.has_vad,
        flow.plan.tap == VadTap::Primary,
        flow.plan.vad_rate == 8000 || flow.plan.vad_rate == 16000,
        flow.plan.output_rate >= 1,
        flow.plan.output_channels >= 1,
        flow.clock.fed == 0,
        flow.pending.len() == 0,
        forall|i: int|
            0 <= i < chunks.len() ==> (#[trigger] chunks[i]).dropped_before
                == chunks[0].dropped_before,
        forall|i: int| 0 < i < chunks.len() ==> !(#[trigger] chunks[i]).discontinuity,
        forall|i: int|
            0 < i < chunks.len() ==> (#[trigger] chunks[i]).pts_ns == chunks[i - 1].pts_ns + ((
            chunks[i - 1].data@.len() as int / flow.plan.output_channels as int) * flow.plan.vad_rate / flow.plan.output_rate as int)
                * (1_000_000_000int / flow.plan.vad_rate),
    ensures
        flow.with_primaries(chunks, events).primaries.last().events matches Some(told) && told.len()
            == events[chunks.len() - 1].len() && told[i].at_ns == Some(
            chunks[0].pts_ns + signed(position(events[chunks.len() - 1][i])) * (1_000_000_000int
                / flow.plan.vad_rate),
        ),
{
    let last: int = chunks.len() - 1;
    let less = chunks.drop_last();
    let chunk = chunks.last();
    lemma_gapless_primary_clock(flow, chunks, events);
    assert forall|i: int| 0 <= i < less.len() implies (#[trigger] less[i]).dropped_before
        == less[0].dropped_before by {
        assert(chunks[i].dropped_before == chunks[0].dropped_before);
    }
    assert forall|i: int| 0 < i < less.len() implies !(#[trigger] less[i]).discontinuity by {
        assert(less[i] == chunks[i]);
    }
    assert forall|i: int| 0 < i < less.len() implies (#[trigger] less[i]).pts_ns == less[i
        - 1].pts_ns + ((less[i - 1].data@.len() as int / flow.plan.output_channels as int) * flow.plan.vad_rate
        / flow.plan.output_rate as int) * (1_000_000_000int / flow.plan.vad_rate) by {
        assert(less[i] == chunks[i]);
    }
    lemma_gapless_primary_clock(flow, less, events);
    let mid = flow.with_primaries(less, events);
    let now = flow.with_primaries(chunks, events);
    let base = if chunk.discontinuity || chunk.dropped_before > mid.clock.dropped {
        0
    } else {
        mid.clock.fed
    };
    lemma_primary_advances_position(mid, chunk, events[last], base);
    let ns = 1_000_000_000int / flow.plan.vad_rate;
    let told = now.primaries.last().events->0;
    let at = signed(position(events[last][i]));
    assert(told[mid.pending.len() + i].at_ns == Some(chunk.pts_ns + (at - base) * ns));
    assert((at - base) * ns == at * ns - base * ns) by (nonlinear_arith);
}

proof fn lemma_gapless_secondary_clock(
    flow: Flow,
    cfg: SecondaryTapCfg,
    chunks: Seq<SecondaryChunk>,
    events: Seq<Seq<VadEvent>>,
    quantized: Seq<Seq<i16>>,
)
    requires
        flow.plan.has_vad,
        flow.plan.tap == VadTap::Secondary,
        flow.plan.secondary == Some(cfg),
        flow.plan.vad_rate == 8000 || flow.plan.vad_rate == 16000,
        cfg.rate >= 1,
        cfg.channels >= 1,
        flow.clock.fed == 0,
        flow.pending.len() == 0,
        forall|i: int|
            0 <= i < chunks.len() ==> (#[trigger] chunks[i]).dropped_before
                == chunks[0].dropped_before,
        forall|i: int| 0 < i < chunks.len() ==> !(#[trigger] chunks[i]).discontinuity,
        forall|i: int|
            0 < i < chunks.len() ==> (#[trigger] chunks[i]).pts_ns == chunks[i - 1].pts_ns + ((
            chunks[i - 1].samples@.len() as int / cfg.channels as int) * flow.plan.vad_rate / cfg.rate as int)
                * (1_000_000_000int / flow.plan.vad_rate),
    ensures
        ({
            let now = flow.with_secondaries(chunks, events, quantized);
            let ns = 1_000_000_000int / flow.plan.vad_rate;
            &&& now.plan == flow.plan
            &&& now.pending.len() == 0
            &&& chunks.len() == 0 ==> now.clock == flow.clock
            &&& chunks.len() > 0 ==> {
                let last = chunks.last();
                &&& now.clock.dropped == chunks[0].dropped_before
                &&& now.clock.anchor_pts == last.pts_ns
                &&& now.clock.anchor_pts == chunks[0].pts_ns + now.clock.anchor_sample * ns
                &&& now.clock.fed == now.clock.anchor_sample + (last.samples@.len() as int
                    / cfg.channels as int) * flow.plan.vad_rate / cfg.rate as int
            }
        }),
    decreases chunks.len(),
{
    if chunks.len() > 0 {
        let last: int = chunks.len() - 1;
        let less = chunks.drop_last();
        let chunk = chunks.last();
        assert forall|i: int| 0 <= i < less.len() implies (#[trigger] less[i]).dropped_before
            == less[0].dropped_before by {
            assert(chunks[i].dropped_before == chunks[0].dropped_before);
        }
        assert forall|i: int| 0 < i < less.len() implies !(#[trigger] less[i]).discontinuity by {
            assert(less[i] == chunks[i]);
        }
        assert forall|i: int| 0 < i < less.len() implies (#[trigger] less[i]).pts_ns == less[i
            - 1].pts_ns + ((less[i - 1].samples@.len() as int / cfg.channels as int) * flow.plan.vad_rate
            / cfg.rate as int) * (1_000_000_000int / flow.plan.vad_rate) by {
            assert(less[i] == chunks[i]);
        }
        lemma_gapless_secondary_clock(flow, cfg, less, events, quantized);
        let mid = flow.with_secondaries(less, events, quantized);
        assert(chunks[last] == chunk);
        assert(chunks[last].dropped_before == chunks[0].dropped_before);
        let base = if chunk.discontinuity || chunk.dropped_before > mid.clock.dropped {
            0
        } else {
            mid.clock.fed
        };
        lemma_secondary_advances_position(
            mid,
            cfg,
            chunk,
            events[last],
            quantized[last],
            base,
        );
        let ns = 1_000_000_000int / flow.plan.vad_rate;
        if less.len() > 0 {
            let length = (chunks[last - 1].samples@.len() as int / cfg.channels as int)
                * flow.plan.vad_rate / cfg.rate as int;
            assert(less.last() == chunks[last - 1]);
            assert(chunks[last].pts_ns == chunks[last - 1].pts_ns + length * ns);
            assert((mid.clock.anchor_sample + length) * ns == mid.clock.anchor_sample * ns + length
                * ns) by (nonlinear_arith);
        } else {
            assert(base == 0);
            assert(base * ns == 0) by (nonlinear_arith)
                requires
                    base == 0,
            ;
        }
    }
}

/// Over secondary chunks without a gap, whose times advance by their length at the rate of the
/// secondary output, a boundary at position `k` has the time of the first chunk plus `k` samples of
/// the detector.
pub proof fn lemma_gapless_secondary_times(
    flow: Flow,
    cfg: SecondaryTapCfg,
    chunks: Seq<SecondaryChunk>,
    events: Seq<Seq<VadEvent>>,
    quantized: Seq<Seq<i16>>,
    i: int,
)
    requires
        chunks.len() > 0,
        0 <= i < events[chunks.len() - 1].len(),
        flow.plan.has_vad,
        flow.plan.tap == VadTap::Secondary,
        flow.plan.secondary == Some(cfg),
        flow.plan.vad_rate == 8000 || flow.plan.vad_rate == 16000,
        cfg.rate >= 1,
        cfg.channels >= 1,
        flow.clock.fed == 0,
        flow.pending.len() == 0,
        forall|i: int|
            0 <= i < chunks.len() ==> (#[trigger] chunks[i]).dropped_before
                == chunks[0].dropped_before,
        forall|i: int| 0 < i < chunks.len() ==> !(#[trigger] chunks[i]).discontinuity,
        forall|i: int|
            0 < i < chunks.len() ==> (#[trigger] chunks[i]).pts_ns == chunks[i - 1].pts_ns + ((
            chunks[i - 1].samples@.len() as int / cfg.channels as int) * flow.plan.vad_rate / cfg.rate as int)
                * (1_000_000_000int / flow.plan.vad_rate),
    ensures
        flow.with_secondaries(chunks, events, quantized).secondaries.last().events matches Some(told) && told.len()
            == events[chunks.len() - 1].len() && told[i].at_ns == Some(
            chunks[0].pts_ns + signed(position(events[chunks.len() - 1][i])) * (1_000_000_000int
                / flow.plan.vad_rate),
        ),
{
    let last: int = chunks.len() - 1;
    let less = chunks.drop_last();
    let chunk = chunks.last();
    lemma_gapless_secondary_clock(flow, cfg, chunks, events, quantized);
    assert forall|i: int| 0 <= i < less.len() implies (#[trigger] less[i]).dropped_before
        == less[0].dropped_before by {
        assert(chunks[i].dropped_before == chunks[0].dropped_before);
    }
    assert forall|i: int| 0 < i < less.len() implies !(#[trigger] less[i]).discontinuity by {
        assert(less[i] == chunks[i]);
    }
    assert forall|i: int| 0 < i < less.len() implies (#[trigger] less[i]).pts_ns == less[i
        - 1].pts_ns + ((less[i - 1].samples@.len() as int / cfg.channels as int) * flow.plan.vad_rate
        / cfg.rate as int) * (1_000_000_000int / flow.plan.vad_rate) by {
        assert(less[i] == chunks[i]);
    }
    lemma_gapless_secondary_clock(flow, cfg, less, events, quantized);
    let mid = flow.with_secondaries(less, events, quantized);
    let now = flow.with_secondaries(chunks, events, quantized);
    let base = if chunk.discontinuity || chunk.dropped_before > mid.clock.dropped {
        0
    } else {
        mid.clock.fed
    };
    lemma_secondary_advances_position(
        mid,
        cfg,
        chunk,
        events[last],
        quantized[last],
        base,
    );
    let ns = 1_000_000_000int / flow.plan.vad_rate;
    let told = now.secondaries.last().events->0;
    let at = signed(position(events[last][i]));
    assert(told[mid.pending.len() + i].at_ns == Some(chunk.pts_ns + (at - base) * ns));
    assert((at - base) * ns == at * ns - base * ns) by (nonlinear_arith);
}

/// A chunk of the output that the detector does not listen to waits without boundaries and leaves
/// everything else as it was, as does a secondary chunk where there is no secondary output.
pub proof fn lemma_other_output_is_not_heard(
    flow: Flow,
    cfg: SecondaryTapCfg,
    primary: AudioChunk,
    secondary: SecondaryChunk,
    events: Seq<VadEvent>,
    quantized: Seq<i16>,
)
    ensures
        flow.plan.tap == VadTap::Secondary ==> {
            let now = flow.with_primary(primary, events);
            &&& now == (Flow { primaries: now.primaries, ..flow })
            &&& now.primaries.drop_last() == flow.primaries
            &&& now.primaries.len() == flow.primaries.len() + 1
            &&& now.primaries.last().events is None
        },
        flow.plan.tap == VadTap::Primary && flow.plan.secondary == Some(cfg) ==> {
            let now = flow.with_secondary(secondary, events, quantized);
            &&& now == (Flow { secondaries: now.secondaries, ..flow })
            &&& now.secondaries.drop_last() == flow.secondaries
            &&& now.secondaries.len() == flow.secondaries.len() + 1
            &&& now.secondaries.last().events is None
        },
        flow.plan.secondary is None ==> flow.with_secondary(secondary, events, quantized) == flow,
{
    assert(flow.with_primary(primary, events).primaries.drop_last() =~= flow.primaries);
    if flow.plan.secondary is Some {
        assert(flow.with_secondary(secondary, events, quantized).secondaries.drop_last()
            =~= flow.secondaries);
    }
}

/// A flush tells boundaries on the clock of the last chunk, behind those that waited, and only
/// sets the count back to 0; without a detector it does nothing.
pub proof fn lemma_flush_keeps_the_clock(flow: Flow, events: Seq<VadEvent>)
    ensures
        ({
            let now = flow.flushed(events);
            &&& now.plan == flow.plan && now.delivered == flow.delivered
            &&& now.primaries == flow.primaries && now.secondaries == flow.secondaries
            &&& now.clock.anchor_pts == flow.clock.anchor_pts
            &&& now.clock.anchor_sample == flow.clock.anchor_sample
            &&& now.clock.dropped == flow.clock.dropped
            &&& flow.plan.has_vad ==> now.clock.fed == 0 && now.pending.len() == flow.pending.len()
                + events.len()
            &&& !flow.plan.has_vad ==> now.clock.fed == flow.clock.fed && now.pending
                == flow.pending
            &&& now.pending.take(flow.pending.len() as int) == flow.pending
            &&& flow.plan.has_vad ==> forall|i: int|
                0 <= i < events.len() ==> (#[trigger] now.pending[flow.pending.len() + i]).at_ns
                    == Some(
                    flow.clock.anchor_pts + (signed(position(events[i]))
                        - flow.clock.anchor_sample) * (1_000_000_000int / flow.plan.vad_rate),
                )
        }),
{
    let now = flow.flushed(events);
    assert(now.pending.take(flow.pending.len() as int) =~= flow.pending);
    if !flow.plan.has_vad {
        assert(now.pending =~= flow.pending);
    } else {
        assert forall|i: int| 0 <= i < events.len() implies (#[trigger] now.pending[
            flow.pending.len() + i
        ]).at_ns == Some(
            flow.clock.anchor_pts + (signed(position(events[i])) - flow.clock.anchor_sample) * (
            1_000_000_000int / flow.plan.vad_rate),
        ) by {
            assert(now.pending[flow.pending.len() + i] == flow.flushed_events(events)[i]);
        }
    }
}

/// The terminator has no audio. Its time is the later one of the last chunk that was heard and
/// the last that was delivered. All boundaries that wait and those of the last flush are on the
/// side that the detector listens to, and the other side has none.
pub proof fn lemma_terminator_carries_the_rest(flow: Flow, events: Seq<VadEvent>)
    ensures
        ({
            let t = flow.terminator(events);
            let rest = flow.flushed(events).pending;
            &&& t.data.len() == 0
            &&& t.meta.frames == 0 && t.meta.seq == 0 && t.meta.flags == 0
                && t.meta.dropped_before == 0
            &&& t.meta.peak.bits == 0 && t.meta.rms.bits == 0
            &&& t.meta.pts_ns >= flow.clock.anchor_pts && t.meta.pts_ns >= flow.delivered
            &&& t.meta.pts_ns == flow.clock.anchor_pts || t.meta.pts_ns == flow.delivered
            &&& flow.plan.tap == VadTap::Primary ==> t.events == Some(rest) && t.secondary is None
            &&& flow.plan.tap == VadTap::Secondary ==> t.events is None && {
                &&& t.secondary matches Some(s)
                &&& s.events == Some(rest)
                &&& s.meta == t.meta
                &&& match flow.plan.secondary {
                    Some(cfg) => if cfg.encoding == SecEncoding::S16 {
                        s.data == DataView::S16(Seq::empty())
                    } else {
                        s.data == DataView::F32(Seq::empty())
                    },
                    None => s.data == DataView::F32(Seq::empty()),
                }
            }
        }),
{
}

/// A rate or a number of channels of 0 counts as 1, and any other as itself.
pub proof fn lemma_zero_counts_as_one(n: int)
    ensures
        n <= 0 ==> at_least_one(n) == 1,
        n >= 1 ==> at_least_one(n) == n,
{
}

/// Delivering takes every primary chunk, keeps the clock and what waits for a chunk, and remembers
/// the latest time that was delivered, which is one of those that were.
pub proof fn lemma_draining_takes_primaries(flow: Flow)
    ensures
        ({
            let now = flow.drained();
            &&& now.primaries.len() == 0
            &&& now.clock == flow.clock && now.pending == flow.pending && now.plan == flow.plan
            &&& now.delivered >= flow.delivered
            &&& forall|i: int|
                0 <= i < flow.primaries.len() ==> now.delivered >= (
                #[trigger] flow.primaries[i]).meta.pts_ns
            &&& now.delivered == flow.delivered || exists|i: int|
                0 <= i < flow.primaries.len() && now.delivered == (
                #[trigger] flow.primaries[i]).meta.pts_ns
        }),
{
    lemma_latest(flow.delivered, flow.primaries);
    crate::binding::pairing::lemma_latest_was_delivered(flow.delivered, flow.primaries);
}

/// A secondary chunk waits in the encoding of the secondary output, with all that it came with,
/// whether the detector listens to it or not.
pub proof fn lemma_secondary_waits_encoded(
    flow: Flow,
    cfg: SecondaryTapCfg,
    chunk: SecondaryChunk,
    events: Seq<VadEvent>,
    quantized: Seq<i16>,
)
    requires
        flow.plan.secondary == Some(cfg),
    ensures
        ({
            let last = flow.with_secondary(chunk, events, quantized).secondaries.last();
            &&& cfg.encoding == SecEncoding::F32 ==> last.data == DataView::F32(chunk.samples@)
            &&& cfg.encoding == SecEncoding::S16 ==> last.data == DataView::S16(quantized)
            &&& last.meta.pts_ns == chunk.pts_ns
            &&& last.meta.seq == chunk.seq
            &&& last.meta.flags == chunk.flags
            &&& last.meta.dropped_before == chunk.dropped_before
            &&& last.meta.peak == chunk.peak
            &&& last.meta.rms == chunk.rms
            &&& chunk.frames <= u32::MAX ==> last.meta.frames == chunk.frames
        }),
{
}

/// A primary chunk waits with all that it came with and without a partner, whether the detector
/// listens to it or not.
pub proof fn lemma_primary_waits_as_it_came(flow: Flow, chunk: AudioChunk, events: Seq<VadEvent>)
    ensures
        ({
            let last = flow.with_primary(chunk, events).primaries.last();
            &&& last.data == chunk.data@
            &&& last.secondary is None
            &&& last.meta.pts_ns == chunk.pts_ns
            &&& last.meta.seq == chunk.seq
            &&& last.meta.flags == chunk.flags
            &&& last.meta.dropped_before == chunk.dropped_before
            &&& last.meta.peak == chunk.peak
            &&& last.meta.rms == chunk.rms
            &&& chunk.frames <= u32::MAX ==> last.meta.frames == chunk.frames
        }),
{
}

/// A chunk that the detector listens to can be taken in exactly where the position behind it and
/// the time of each of its boundaries fit in 64 bits, and always where there is no detector.
pub proof fn lemma_which_chunks_are_taken_in(flow: Flow, chunk: Fed, events: Seq<VadEvent>, base: int)
    requires
        chunk.rate >= 1,
        chunk.channels >= 1,
        chunk.discontinuity || chunk.dropped > flow.clock.dropped ==> base == 0,
        !chunk.discontinuity && chunk.dropped <= flow.clock.dropped ==> base == flow.clock.fed,
    ensures
        !flow.plan.has_vad ==> flow.can_hear(chunk, events),
        flow.plan.has_vad ==> (flow.can_hear(chunk, events) <==> base + (chunk.len
            / chunk.channels) * flow.plan.vad_rate / chunk.rate <= 0x7fff_ffff_ffff_ffff && forall|
            i: int,
        |
            0 <= i < events.len() ==> {
                let time = chunk.pts + (signed(position(#[trigger] events[i])) - base) * (
                1_000_000_000int / flow.plan.vad_rate);
                -0x8000_0000_0000_0000 <= time <= 0x7fff_ffff_ffff_ffff
            }),
{
    if flow.plan.has_vad {
        let next = flow.listened(chunk);
        assert forall|i: int| 0 <= i < events.len() implies next.time_of(
            signed(position(#[trigger] events[i])),
            flow.plan.vad_rate,
        ) == chunk.pts + (signed(position(events[i])) - base) * (1_000_000_000int
            / flow.plan.vad_rate) by {}
    }
}

} // verus!
