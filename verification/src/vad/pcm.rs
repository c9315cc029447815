//! Front end for recorded chunks: whole interleaved frames out of arbitrary slices, and the
//! fixed input chunks of the resampler.
//!
//! Averaging the channels and resampling are sample arithmetic and are done by the caller
//! between the steps here.

use vstd::prelude::*;

use crate::vad::framing::{append, copy_range, framed, keep_leftover, leftover, lemma_framed_len};

verus! {

/// Format of recorded audio.
#[derive(Clone, Copy, Debug, PartialEq, Eq, Structural)]
pub struct PcmFormat {
    /// Sample rate (Hz).
    pub sample_rate: u32,
    /// Number of interleaved channels.
    pub channels: u16,
}

/// Input frames that the resampler takes at a time: 20 ms, at least 64.
pub open spec fn default_chunk(rate: u32) -> nat {
    if rate / 50 >= 64 {
        (rate / 50) as nat
    } else {
        64
    }
}

/// Cuts recorded audio into whole frames, and mono audio into resampler chunks.
///
/// Each of the two carries what does not fill a unit over to the next call.
#[derive(Debug)]
pub struct PcmConverter {
    format: PcmFormat,
    channels: usize,
    chunk: Option<usize>,
    remainder: Vec<u32>,
    accumulated: Vec<u32>,
}

impl PcmConverter {
    /// The format that the converter was made for.
    pub closed spec fn spec_format(&self) -> PcmFormat {
        self.format
    }

    /// Samples in one interleaved frame.
    pub closed spec fn spec_channels(&self) -> nat {
        self.channels as nat
    }

    /// Samples in one resampler chunk, none where the rates agree.
    pub closed spec fn spec_chunk(&self) -> Option<nat> {
        match self.chunk {
            Some(n) => Some(n as nat),
            None => None,
        }
    }

    /// Interleaved samples that do not fill a frame yet.
    pub closed spec fn rest(&self) -> Seq<u32> {
        self.remainder@
    }

    /// Mono samples that wait for the resampler.
    pub closed spec fn waiting(&self) -> Seq<u32> {
        self.accumulated@
    }

    /// Frames and chunks are never empty.
    pub open spec fn wf(&self) -> bool {
        &&& self.spec_channels() > 0
        &&& self.spec_channels() == if self.spec_format().channels == 0 {
            1
        } else {
            self.spec_format().channels as nat
        }
        &&& match self.spec_chunk() {
            Some(n) => n > 0,
            None => true,
        }
    }

    /// A converter from `format` to mono at `target_rate`, with nothing carried over.
    ///
    /// Where the rates agree nothing is resampled. Otherwise the resampler takes
    /// `chunk_in_frames` at a time, or 20 ms but at least 64.
    pub fn new_with_resampler_chunk(
        format: PcmFormat,
        target_rate: u32,
        chunk_in_frames: Option<usize>,
    ) -> (res: PcmConverter)
        requires
            chunk_in_frames matches Some(n) ==> n > 0,
        ensures
            res.wf(),
            res.spec_format() == format,
            res.rest() == Seq::<u32>::empty(),
            res.waiting() == Seq::<u32>::empty(),
            res.spec_chunk() == if format.sample_rate == target_rate {
                None
            } else {
                match chunk_in_frames {
                    Some(n) => Some(n as nat),
                    None => Some(default_chunk(format.sample_rate)),
                }
            },
    {
        let channels: usize = if format.channels == 0 {
            1
        } else {
            format.channels as usize
        };
        let chunk: Option<usize> = if format.sample_rate == target_rate {
            None
        } else {
            match chunk_in_frames {
                Some(n) => Some(n),
                None => {
                    let n: usize = format.sample_rate as usize / 50;
                    if n >= 64 {
                        Some(n)
                    } else {
                        Some(64)
                    }
                },
            }
        };
        PcmConverter { format, channels, chunk, remainder: Vec::new(), accumulated: Vec::new() }
    }

    /// A converter from `format` to mono at `target_rate`.
    pub fn new(format: PcmFormat, target_rate: u32) -> (res: PcmConverter)
        ensures
            res.wf(),
            res.spec_format() == format,
            res.rest() == Seq::<u32>::empty(),
            res.waiting() == Seq::<u32>::empty(),
            res.spec_chunk() == if format.sample_rate == target_rate {
                None
            } else {
                Some(default_chunk(format.sample_rate))
            },
    {
        Self::new_with_resampler_chunk(format, target_rate, None)
    }

    /// The converter that turns frames of 256 samples at 8 kHz into 512 at 16 kHz.
    pub fn new_8k_to_16k_frame_resampler() -> (res: PcmConverter)
        ensures
            res.wf(),
            res.spec_format() == (PcmFormat { sample_rate: 8000, channels: 1 }),
            res.rest() == Seq::<u32>::empty(),
            res.waiting() == Seq::<u32>::empty(),
            res.spec_chunk() == Some(256nat),
    {
        Self::new_with_resampler_chunk(
            PcmFormat { sample_rate: 8000, channels: 1 },
            16000,
            Some(256),
        )
    }

    /// Whether the converter was made for `format`.
    pub fn matches(&self, format: PcmFormat) -> (res: bool)
        ensures
            res == (self.spec_format() == format),
    {
        self.format == format
    }

    /// Samples in one interleaved frame.
    pub fn channels(&self) -> (res: usize)
        ensures
            res == self.spec_channels(),
    {
        self.channels
    }

    /// Samples in one resampler chunk, `None` where nothing is resampled.
    pub fn resampler_chunk(&self) -> (res: Option<usize>)
        ensures
            match res {
                Some(n) => self.spec_chunk() == Some(n as nat),
                None => self.spec_chunk() is None,
            },
    {
        self.chunk
    }

    /// Takes interleaved samples and gives back the whole frames, carrying the rest over.
    pub fn take_frames(&mut self, interleaved: &[u32]) -> (res: Vec<u32>)
        requires
            old(self).wf(),
        ensures
            res@ == framed(old(self).rest() + interleaved@, old(self).spec_channels()),
            final(self).rest() == leftover(
                old(self).rest() + interleaved@,
                old(self).spec_channels(),
            ),
            final(self).waiting() == old(self).waiting(),
            final(self).spec_format() == old(self).spec_format(),
            final(self).spec_channels() == old(self).spec_channels(),
            final(self).spec_chunk() == old(self).spec_chunk(),
            final(self).wf(),
    {
        append(&mut self.remainder, interleaved);
        let len: usize = self.remainder.len();
        proof {
            lemma_framed_len(self.remainder@, self.channels as nat);
            vstd::arithmetic::div_mod::lemma_fundamental_div_mod(len as int, self.channels as int);
            assert(self.channels * (len as int / self.channels as int) == (len as int
                / self.channels as int) * self.channels as int) by (nonlinear_arith);
        }
        let used: usize = len - len % self.channels;
        let whole: Vec<u32> = copy_range(self.remainder.as_slice(), 0, used);
        let frame: usize = self.channels;
        keep_leftover(&mut self.remainder, frame);
        whole
    }

    /// Adds mono samples for the resampler.
    pub fn accumulate(&mut self, mono: &[u32])
        requires
            old(self).wf(),
        ensures
            final(self).waiting() == old(self).waiting() + mono@,
            final(self).rest() == old(self).rest(),
            final(self).spec_format() == old(self).spec_format(),
            final(self).spec_channels() == old(self).spec_channels(),
            final(self).spec_chunk() == old(self).spec_chunk(),
            final(self).wf(),
    {
        append(&mut self.accumulated, mono);
    }

    /// The next chunk for the resampler, if a whole one waits. It stays until it is dropped.
    pub fn next_chunk(&self) -> (res: Option<Vec<u32>>)
        requires
            self.wf(),
        ensures
            match self.spec_chunk() {
                Some(n) => if self.waiting().len() >= n {
                    res matches Some(c) && c@ == self.waiting().take(n as int)
                } else {
                    res is None
                },
                None => res is None,
            },
    {
        match self.chunk {
            Some(n) => {
                if self.accumulated.len() >= n {
                    Some(copy_range(self.accumulated.as_slice(), 0, n))
                } else {
                    None
                }
            },
            None => None,
        }
    }

    /// Drops the chunk that the resampler has taken. Without a whole one, nothing changes.
    pub fn drop_chunk(&mut self)
        requires
            old(self).wf(),
        ensures
            final(self).waiting() == match old(self).spec_chunk() {
                Some(n) => if old(self).waiting().len() >= n {
                    old(self).waiting().skip(n as int)
                } else {
                    old(self).waiting()
                },
                None => old(self).waiting(),
            },
            final(self).rest() == old(self).rest(),
            final(self).spec_format() == old(self).spec_format(),
            final(self).spec_channels() == old(self).spec_channels(),
            final(self).spec_chunk() == old(self).spec_chunk(),
            final(self).wf(),
    {
        if let Some(n) = self.chunk {
            let len: usize = self.accumulated.len();
            if len >= n {
                let rest: Vec<u32> = copy_range(self.accumulated.as_slice(), n, len);
                assert(rest@ =~= self.accumulated@.skip(n as int));
                self.accumulated = rest;
            }
        }
    }
}

/// Slicing the input anywhere changes nothing: the frames of two slices, the second one behind
/// what the first left over, are the frames of the joined input.
pub proof fn lemma_take_frames_splits(rest: Seq<u32>, a: Seq<u32>, b: Seq<u32>, channels: nat)
    requires
        channels > 0,
    ensures
        framed(rest + (a + b), channels) == framed(rest + a, channels) + framed(
            leftover(rest + a, channels) + b,
            channels,
        ),
        leftover(rest + (a + b), channels) == leftover(
            leftover(rest + a, channels) + b,
            channels,
        ),
{
    assert(rest + (a + b) =~= (rest + a) + b);
    crate::vad::framing::lemma_framing_splits(rest + a, b, channels);
}

/// The chunks that the resampler takes from what waits, one after the other, and what is left.
pub open spec fn chunk_run(waiting: Seq<u32>, chunk: nat) -> (Seq<Seq<u32>>, Seq<u32>)
    decreases waiting.len(),
{
    if chunk == 0 || waiting.len() < chunk {
        (Seq::empty(), waiting)
    } else {
        let (others, left) = chunk_run(waiting.skip(chunk as int), chunk);
        (seq![waiting.take(chunk as int)] + others, left)
    }
}

/// The resampler takes the same chunks whether samples come at once or in pieces, so that there is
/// no seam between the pieces.
pub proof fn lemma_chunks_split(waiting: Seq<u32>, more: Seq<u32>, chunk: nat)
    requires
        chunk > 0,
    ensures
        chunk_run(waiting + more, chunk).0 == chunk_run(waiting, chunk).0 + chunk_run(
            chunk_run(waiting, chunk).1 + more,
            chunk,
        ).0,
        chunk_run(waiting + more, chunk).1 == chunk_run(
            chunk_run(waiting, chunk).1 + more,
            chunk,
        ).1,
    decreases waiting.len(),
{
    if waiting.len() < chunk {
        assert(chunk_run(waiting, chunk).0 + chunk_run(waiting + more, chunk).0 =~= chunk_run(
            waiting + more,
            chunk,
        ).0);
    } else {
        let rest = waiting.skip(chunk as int);
        assert((waiting + more).skip(chunk as int) =~= rest + more);
        assert((waiting + more).take(chunk as int) =~= waiting.take(chunk as int));
        lemma_chunks_split(rest, more, chunk);
        let first = seq![waiting.take(chunk as int)];
        let tail = chunk_run(chunk_run(rest, chunk).1 + more, chunk).0;
        assert(first + (chunk_run(rest, chunk).0 + tail) =~= (first + chunk_run(rest, chunk).0)
            + tail);
    }
}

/// The resampler takes 20 ms at a time, and never less than 64 frames.
pub proof fn lemma_default_chunk(rate: u32)
    ensures
        rate >= 3200 ==> default_chunk(rate) * 50 <= rate < (default_chunk(rate) + 1) * 50,
        rate < 3200 ==> default_chunk(rate) == 64,
{
}

/// The resampler takes whole chunks from the front, in order, as long as there are any: chunk `i`
/// holds the samples from `i` chunks on, and less than a chunk is left.
pub proof fn lemma_chunks_hold_samples(waiting: Seq<u32>, chunk: nat)
    requires
        chunk > 0,
    ensures
        ({
            let (taken, left) = chunk_run(waiting, chunk);
            &&& left.len() < chunk
            &&& taken.len() * chunk + left.len() == waiting.len()
            &&& left == waiting.skip((taken.len() * chunk) as int)
            &&& forall|i: int|
                0 <= i < taken.len() ==> (#[trigger] taken[i]).len() == chunk && forall|k: int|
                    0 <= k < chunk ==> #[trigger] taken[i][k] == waiting[i * chunk + k]
        }),
    decreases waiting.len(),
{
    let (taken, left) = chunk_run(waiting, chunk);
    if waiting.len() < chunk {
        assert(taken.len() * chunk == 0) by (nonlinear_arith)
            requires
                taken.len() == 0,
        ;
        assert(waiting.skip(0) =~= waiting);
    } else {
        let rest = waiting.skip(chunk as int);
        lemma_chunks_hold_samples(rest, chunk);
        let (others, _) = chunk_run(rest, chunk);
        assert(taken.len() * chunk == others.len() * chunk + chunk) by (nonlinear_arith)
            requires
                taken.len() == others.len() + 1,
        ;
        assert(left =~= waiting.skip((taken.len() * chunk) as int));
        assert forall|i: int| 0 <= i < taken.len() implies (#[trigger] taken[i]).len() == chunk
            && forall|k: int|
            0 <= k < chunk ==> #[trigger] taken[i][k] == waiting[i * chunk + k] by {
            if i == 0 {
                assert(i * chunk == 0) by (nonlinear_arith)
                    requires
                        i == 0,
                ;
            } else {
                assert(taken[i] == others[i - 1]);
                assert(i * chunk == (i - 1) * chunk + chunk) by (nonlinear_arith);
                assert((i - 1) * chunk + chunk <= others.len() * chunk) by (nonlinear_arith)
                    requires
                        i <= others.len(),
                ;
                assert(0 <= (i - 1) * chunk) by (nonlinear_arith)
                    requires
                        i >= 1,
                ;
                assert forall|k: int| 0 <= k < chunk implies #[trigger] taken[i][k] == waiting[i
                    * chunk + k] by {
                    assert(others[i - 1][k] == rest[(i - 1) * chunk + k]);
                }
            }
        }
    }
}

} // verus!
