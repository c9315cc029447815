//! Chunks of audio, as they come and as the script sees them.

use vstd::prelude::*;

use crate::binding::convert::{event_views, EventView, JsVadEvent};
use crate::level::Level;

verus! {

/// A chunk of the primary output.
#[derive(Debug)]
pub struct AudioChunk {
    /// Interleaved samples as bit patterns.
    pub data: Vec<u32>,
    /// Number of frames.
    pub frames: usize,
    /// Time from the start of the recording (ns).
    pub pts_ns: i64,
    /// Running number.
    pub seq: u64,
    /// Flags.
    pub flags: u32,
    /// Whether the flags say that audio is missing before the chunk.
    pub discontinuity: bool,
    /// Chunks dropped so far.
    pub dropped_before: u32,
    /// Peak level.
    pub peak: Level,
    /// Mean level.
    pub rms: Level,
}

/// A chunk of the secondary output.
#[derive(Debug)]
pub struct SecondaryChunk {
    /// Interleaved samples as bit patterns.
    pub samples: Vec<u32>,
    /// Number of frames.
    pub frames: usize,
    /// Time from the start of the recording (ns).
    pub pts_ns: i64,
    /// Running number.
    pub seq: u64,
    /// Flags.
    pub flags: u32,
    /// Whether the flags say that audio is missing before the chunk.
    pub discontinuity: bool,
    /// Chunks dropped so far.
    pub dropped_before: u32,
    /// Peak level.
    pub peak: Level,
    /// Mean level.
    pub rms: Level,
}

/// The samples of a secondary chunk.
#[derive(Debug, PartialEq, Eq)]
pub enum SecondaryData {
    /// Bit patterns of floating point samples.
    F32(Vec<u32>),
    /// 16-bit samples.
    S16(Vec<i16>),
}

/// The samples of a secondary chunk as a sequence.
pub enum DataView {
    /// Bit patterns of floating point samples.
    F32(Seq<u32>),
    /// 16-bit samples.
    S16(Seq<i16>),
}

impl View for SecondaryData {
    type V = DataView;

    open spec fn view(&self) -> DataView {
        match self {
            SecondaryData::F32(v) => DataView::F32(v@),
            SecondaryData::S16(v) => DataView::S16(v@),
        }
    }
}

/// A chunk of the secondary output as the script sees it.
#[derive(Debug)]
pub struct JsSecondaryChunk {
    /// The samples.
    pub data: SecondaryData,
    /// Number of frames.
    pub frames: u32,
    /// Time from the start of the recording (ns).
    pub pts_ns: i64,
    /// Running number.
    pub seq: u64,
    /// Flags.
    pub flags: u32,
    /// Chunks dropped so far.
    pub dropped_before: u32,
    /// Peak level before quantisation.
    pub peak: Level,
    /// Mean level before quantisation.
    pub rms: Level,
    /// Boundaries of speech, where the detector listens here.
    pub vad_events: Option<Vec<JsVadEvent>>,
}

/// A chunk of the primary output as the script sees it.
#[derive(Debug)]
pub struct JsAudioChunk {
    /// Interleaved samples as bit patterns.
    pub data: Vec<u32>,
    /// Number of frames.
    pub frames: u32,
    /// Time from the start of the recording (ns).
    pub pts_ns: i64,
    /// Running number.
    pub seq: u64,
    /// Flags.
    pub flags: u32,
    /// Chunks dropped so far.
    pub dropped_before: u32,
    /// Peak level.
    pub peak: Level,
    /// Mean level.
    pub rms: Level,
    /// Boundaries of speech, where the detector listens here.
    pub vad_events: Option<Vec<JsVadEvent>>,
    /// The secondary chunk of the same time.
    pub secondary: Option<JsSecondaryChunk>,
}

/// What a chunk says besides its samples.
pub struct Meta {
    /// Number of frames.
    pub frames: int,
    /// Time from the start of the recording (ns).
    pub pts_ns: int,
    /// Running number.
    pub seq: int,
    /// Flags.
    pub flags: int,
    /// Chunks dropped so far.
    pub dropped_before: int,
    /// Peak level.
    pub peak: Level,
    /// Mean level.
    pub rms: Level,
}

/// A secondary chunk by its parts.
pub struct SecondaryView {
    /// What it says besides its samples.
    pub meta: Meta,
    /// The samples.
    pub data: DataView,
    /// Boundaries of speech.
    pub events: Option<Seq<EventView>>,
}

/// A primary chunk by its parts.
pub struct PrimaryView {
    /// What it says besides its samples.
    pub meta: Meta,
    /// The samples.
    pub data: Seq<u32>,
    /// Boundaries of speech.
    pub events: Option<Seq<EventView>>,
    /// The secondary chunk of the same time.
    pub secondary: Option<SecondaryView>,
}

/// A list of boundaries that may be missing.
pub open spec fn opt_events(events: Option<Vec<JsVadEvent>>) -> Option<Seq<EventView>> {
    match events {
        Some(v) => Some(event_views(v@)),
        None => None,
    }
}

impl View for JsSecondaryChunk {
    type V = SecondaryView;

    open spec fn view(&self) -> SecondaryView {
        SecondaryView {
            meta: Meta {
                frames: self.frames as int,
                pts_ns: self.pts_ns as int,
                seq: self.seq as int,
                flags: self.flags as int,
                dropped_before: self.dropped_before as int,
                peak: self.peak,
                rms: self.rms,
            },
            data: self.data@,
            events: opt_events(self.vad_events),
        }
    }
}

impl View for JsAudioChunk {
    type V = PrimaryView;

    open spec fn view(&self) -> PrimaryView {
        PrimaryView {
            meta: Meta {
                frames: self.frames as int,
                pts_ns: self.pts_ns as int,
                seq: self.seq as int,
                flags: self.flags as int,
                dropped_before: self.dropped_before as int,
                peak: self.peak,
                rms: self.rms,
            },
            data: self.data@,
            events: opt_events(self.vad_events),
            secondary: match self.secondary {
                Some(s) => Some(s@),
                None => None,
            },
        }
    }
}

impl AudioChunk {
    /// What it says besides its samples, the number of frames in 32 bits.
    pub open spec fn meta(self) -> Meta {
        Meta {
            frames: self.frames as int % 0x1_0000_0000,
            pts_ns: self.pts_ns as int,
            seq: self.seq as int,
            flags: self.flags as int,
            dropped_before: self.dropped_before as int,
            peak: self.peak,
            rms: self.rms,
        }
    }

    /// The chunk as it is shown with boundaries, without a partner.
    pub open spec fn shown(self, events: Option<Seq<EventView>>) -> PrimaryView {
        PrimaryView { meta: self.meta(), data: self.data@, events, secondary: None }
    }
}

impl SecondaryChunk {
    /// What it says besides its samples, the number of frames in 32 bits.
    pub open spec fn meta(self) -> Meta {
        Meta {
            frames: self.frames as int % 0x1_0000_0000,
            pts_ns: self.pts_ns as int,
            seq: self.seq as int,
            flags: self.flags as int,
            dropped_before: self.dropped_before as int,
            peak: self.peak,
            rms: self.rms,
        }
    }

    /// The chunk as it is shown with these samples and boundaries.
    pub open spec fn shown(self, data: DataView, events: Option<Seq<EventView>>) -> SecondaryView {
        SecondaryView { meta: self.meta(), data, events }
    }
}

/// The low 32 bits of a count.
pub fn low_bits(n: usize) -> (res: u32)
    ensures
        res == n as int % 0x1_0000_0000,
{
    (n as u64 % 0x1_0000_0000) as u32
}

/// Shows a primary chunk to the script: its samples and running number as they are, no boundaries
/// and no partner yet.
pub fn chunk_to_js(chunk: AudioChunk) -> (res: JsAudioChunk)
    ensures
        res@ == chunk.shown(None),
        res.data == chunk.data,
        res.vad_events is None,
        res.secondary is None,
{
    JsAudioChunk {
        data: chunk.data,
        frames: low_bits(chunk.frames),
        pts_ns: chunk.pts_ns,
        seq: chunk.seq,
        flags: chunk.flags,
        dropped_before: chunk.dropped_before,
        peak: chunk.peak,
        rms: chunk.rms,
        vad_events: None,
        secondary: None,
    }
}

/// How the samples of secondary chunks are encoded.
#[derive(Clone, Copy, Debug, PartialEq, Eq, Structural)]
pub enum SecEncoding {
    /// Floating point.
    F32,
    /// 16-bit integers.
    S16,
}

/// Samples in an encoding, `quantized` being their 16-bit form.
pub open spec fn encoded(encoding: SecEncoding, samples: Seq<u32>, quantized: Seq<i16>) -> DataView {
    match encoding {
        SecEncoding::F32 => DataView::F32(samples),
        SecEncoding::S16 => DataView::S16(quantized),
    }
}

/// Shows a secondary chunk to the script in an encoding, `quantized` being the 16-bit form of its
/// samples, with boundaries.
pub fn secondary_to_js(
    chunk: SecondaryChunk,
    encoding: SecEncoding,
    quantized: Vec<i16>,
    vad_events: Option<Vec<JsVadEvent>>,
) -> (res: JsSecondaryChunk)
    ensures
        res@ == chunk.shown(
            encoded(encoding, chunk.samples@, quantized@),
            opt_events(vad_events),
        ),
{
    let data: SecondaryData = match encoding {
        SecEncoding::F32 => SecondaryData::F32(chunk.samples),
        SecEncoding::S16 => SecondaryData::S16(quantized),
    };
    JsSecondaryChunk {
        data,
        frames: low_bits(chunk.frames),
        pts_ns: chunk.pts_ns,
        seq: chunk.seq,
        flags: chunk.flags,
        dropped_before: chunk.dropped_before,
        peak: chunk.peak,
        rms: chunk.rms,
        vad_events,
    }
}

impl JsSecondaryChunk {
    /// The name of the encoding of the samples.
    pub fn encoding(&self) -> (res: &'static str)
        ensures
            res@ == match self.data {
                SecondaryData::F32(_) => "f32"@,
                SecondaryData::S16(_) => "s16"@,
            },
    {
        match &self.data {
            SecondaryData::F32(_) => "f32",
            SecondaryData::S16(_) => "s16",
        }
    }
}

/// A primary chunk is shown with all that it came with, but the number of its frames by its low 32
/// bits alone, and with no partner yet.
pub proof fn lemma_primary_is_shown_as_it_came(chunk: AudioChunk, events: Option<Seq<EventView>>)
    ensures
        ({
            let s = chunk.shown(events);
            &&& s.data == chunk.data@
            &&& s.events == events
            &&& s.secondary is None
            &&& s.meta.pts_ns == chunk.pts_ns
            &&& s.meta.seq == chunk.seq
            &&& s.meta.flags == chunk.flags
            &&& s.meta.dropped_before == chunk.dropped_before
            &&& s.meta.peak == chunk.peak
            &&& s.meta.rms == chunk.rms
            &&& chunk.frames <= u32::MAX ==> s.meta.frames == chunk.frames
            &&& 0 <= s.meta.frames <= u32::MAX
            &&& (chunk.frames - s.meta.frames) % 0x1_0000_0000 == 0
        }),
{
}

/// A secondary chunk is shown with all that it came with, but the number of its frames by its low
/// 32 bits alone. Its samples are shown as they came, or, where 16 bits are asked for, in those.
pub proof fn lemma_secondary_is_shown_as_it_came(
    chunk: SecondaryChunk,
    quantized: Seq<i16>,
    events: Option<Seq<EventView>>,
)
    ensures
        encoded(SecEncoding::F32, chunk.samples@, quantized) == DataView::F32(chunk.samples@),
        encoded(SecEncoding::S16, chunk.samples@, quantized) == DataView::S16(quantized),
        forall|data: DataView|
            {
                let s = #[trigger] chunk.shown(data, events);
                &&& s.data == data
                &&& s.events == events
                &&& s.meta.pts_ns == chunk.pts_ns
                &&& s.meta.seq == chunk.seq
                &&& s.meta.flags == chunk.flags
                &&& s.meta.dropped_before == chunk.dropped_before
                &&& s.meta.peak == chunk.peak
                &&& s.meta.rms == chunk.rms
                &&& chunk.frames <= u32::MAX ==> s.meta.frames == chunk.frames
                &&& 0 <= s.meta.frames <= u32::MAX
                &&& (chunk.frames - s.meta.frames) % 0x1_0000_0000 == 0
            },
{
}

} // verus!
