//! Settings of the voice activity detector.

use vstd::prelude::*;

use crate::level::{lowered_bits, Level};
use crate::text::{decimal, join, to_decimal};

verus! {

/// Bits of 0.5.
pub const HALF_BITS: u32 = 0x3f00_0000;

/// Bits of 0.35.
pub const THIRTY_FIVE_HUNDREDTHS_BITS: u32 = 0x3eb3_3333;

/// Bits of 0.6.
pub const SIX_TENTHS_BITS: u32 = 0x3f19_999a;

/// Settings that control how speech is detected and cut.
#[derive(Clone, Copy, Debug, PartialEq, Eq, Structural)]
pub struct VadConfig {
    /// A frame at or above this probability is speech.
    pub threshold: Level,
    /// A frame below this probability is silence. `None` means
    /// `max(threshold - 0.15, 0.01)`.
    pub neg_threshold: Option<Level>,
    /// Shorter speech is discarded (ms).
    pub min_speech_ms: u32,
    /// Silence of this length ends speech (ms).
    pub min_silence_ms: u32,
    /// Padding on both sides of a segment (ms).
    pub speech_pad_ms: u32,
    /// Longest speech before a forced split (ms). 0 means unlimited.
    pub max_speech_ms: u32,
    /// Sample rate, 8000 or 16000.
    pub sample_rate: u32,
}

/// A setting that cannot be used.
#[derive(Clone, Copy, Debug, PartialEq, Eq, Structural)]
pub enum ConfigFault {
    /// The sample rate is neither 8000 nor 16000.
    SampleRate(u32),
    /// The threshold is outside `[0.0, 1.0]`.
    Threshold(Level),
    /// The negative threshold is outside `[0.0, 1.0]`.
    NegThreshold(Level),
}

impl ConfigFault {
    /// The message for a fault, `shown` being the decimal form of the level it names.
    pub open spec fn text(self, shown: Seq<char>) -> Seq<char> {
        match self {
            ConfigFault::SampleRate(rate) => "sample_rate must be 8000 or 16000, got "@ + decimal(
                rate as nat,
            ),
            ConfigFault::Threshold(_) => "threshold must be within [0.0, 1.0], got "@ + shown,
            ConfigFault::NegThreshold(_) => "neg_threshold must be within [0.0, 1.0], got "@
                + shown,
        }
    }

    /// Writes the message for a fault, `shown` being the decimal form of the level it names.
    pub fn message(&self, shown: &str) -> (res: String)
        ensures
            res@ == self.text(shown@),
    {
        match self {
            ConfigFault::SampleRate(rate) => join(
                "sample_rate must be 8000 or 16000, got ",
                to_decimal(*rate as u64).as_str(),
            ),
            ConfigFault::Threshold(_) => join("threshold must be within [0.0, 1.0], got ", shown),
            ConfigFault::NegThreshold(_) => join(
                "neg_threshold must be within [0.0, 1.0], got ",
                shown,
            ),
        }
    }
}

impl Default for VadConfig {
    /// The balanced preset.
    fn default() -> (res: VadConfig)
        ensures
            res == VadConfig::balanced_preset(),
    {
        VadConfig {
            threshold: Level { bits: HALF_BITS },
            neg_threshold: None,
            min_speech_ms: 250,
            min_silence_ms: 100,
            speech_pad_ms: 30,
            max_speech_ms: 0,
            sample_rate: 16000,
        }
    }
}

impl VadConfig {
    /// The values of the balanced preset.
    pub open spec fn balanced_preset() -> VadConfig {
        VadConfig {
            threshold: Level { bits: HALF_BITS },
            neg_threshold: None,
            min_speech_ms: 250,
            min_silence_ms: 100,
            speech_pad_ms: 30,
            max_speech_ms: 0,
            sample_rate: 16000,
        }
    }

    /// The effective negative threshold.
    pub open spec fn neg(self) -> Level {
        match self.neg_threshold {
            Some(v) => v,
            None => Level { bits: lowered_bits(self.threshold.bits) as u32 },
        }
    }

    /// Samples in one frame.
    pub open spec fn frame(self) -> nat {
        if self.sample_rate == 8000 {
            256
        } else {
            512
        }
    }

    /// Samples in `ms` milliseconds, rounded down.
    pub open spec fn samples(self, ms: u32) -> nat {
        ((ms * self.sample_rate) / 1000) as nat
    }

    /// The first setting that cannot be used, if there is one.
    pub open spec fn fault(self) -> Option<ConfigFault> {
        if self.sample_rate != 8000 && self.sample_rate != 16000 {
            Some(ConfigFault::SampleRate(self.sample_rate))
        } else if !self.threshold.unit() {
            Some(ConfigFault::Threshold(self.threshold))
        } else {
            match self.neg_threshold {
                Some(v) => if v.unit() {
                    None
                } else {
                    Some(ConfigFault::NegThreshold(v))
                },
                None => None,
            }
        }
    }

    /// Sensitive preset: a lower threshold, and speech that runs on through short silences.
    pub fn aggressive() -> (res: VadConfig)
        ensures
            res == (VadConfig {
                threshold: Level { bits: THIRTY_FIVE_HUNDREDTHS_BITS },
                neg_threshold: None,
                min_speech_ms: 200,
                min_silence_ms: 150,
                speech_pad_ms: 50,
                max_speech_ms: 0,
                sample_rate: 16000,
            }),
    {
        VadConfig {
            threshold: Level { bits: THIRTY_FIVE_HUNDREDTHS_BITS },
            neg_threshold: None,
            min_speech_ms: 200,
            min_silence_ms: 150,
            speech_pad_ms: 50,
            max_speech_ms: 0,
            sample_rate: 16000,
        }
    }

    /// Balanced preset, the same as the default.
    pub fn balanced() -> (res: VadConfig)
        ensures
            res == VadConfig::balanced_preset(),
    {
        VadConfig::default()
    }

    /// Conservative preset: a higher threshold, and speech that ends after longer silences.
    pub fn conservative() -> (res: VadConfig)
        ensures
            res == (VadConfig {
                threshold: Level { bits: SIX_TENTHS_BITS },
                neg_threshold: None,
                min_speech_ms: 300,
                min_silence_ms: 300,
                speech_pad_ms: 30,
                max_speech_ms: 0,
                sample_rate: 16000,
            }),
    {
        VadConfig {
            threshold: Level { bits: SIX_TENTHS_BITS },
            neg_threshold: None,
            min_speech_ms: 300,
            min_silence_ms: 300,
            speech_pad_ms: 30,
            max_speech_ms: 0,
            sample_rate: 16000,
        }
    }

    /// The effective negative threshold: the explicit one, else
    /// `max(threshold - 0.15, 0.01)`.
    pub fn resolved_neg_threshold(&self) -> (res: Level)
        ensures
            res == self.neg(),
    {
        match self.neg_threshold {
            Some(v) => v,
            None => self.threshold.lowered(),
        }
    }

    /// Samples in one frame: 256 at 8 kHz, 512 otherwise.
    pub fn frame_size(&self) -> (res: usize)
        ensures
            res == self.frame(),
    {
        if self.sample_rate == 8000 {
            256
        } else {
            512
        }
    }

    /// Samples of leading context: 32 at 8 kHz, 64 otherwise.
    pub fn context_size(&self) -> (res: usize)
        ensures
            res == if self.sample_rate == 8000 {
                32int
            } else {
                64int
            },
    {
        if self.sample_rate == 8000 {
            32
        } else {
            64
        }
    }

    /// Samples in `ms` milliseconds at the configured rate, rounded down.
    pub fn ms_to_samples(&self, ms: u32) -> (res: u64)
        ensures
            res == self.samples(ms),
            res <= 0xffff_ffff * 0xffff_ffff / 1000,
    {
        assert(ms * self.sample_rate <= 0xffff_ffff * 0xffff_ffff) by (nonlinear_arith)
            requires
                ms <= 0xffff_ffff,
                self.sample_rate <= 0xffff_ffff,
        ;
        (ms as u64 * self.sample_rate as u64) / 1000
    }

    /// Checks the settings, in the order rate, threshold, negative threshold.
    pub fn validate(&self) -> (res: Result<(), ConfigFault>)
        ensures
            match self.fault() {
                None => res is Ok,
                Some(f) => res == Err::<(), ConfigFault>(f),
            },
    {
        if self.sample_rate != 8000 && self.sample_rate != 16000 {
            return Err(ConfigFault::SampleRate(self.sample_rate));
        }
        if !self.threshold.in_unit() {
            return Err(ConfigFault::Threshold(self.threshold));
        }
        if let Some(v) = self.neg_threshold {
            if !v.in_unit() {
                return Err(ConfigFault::NegThreshold(v));
            }
        }
        Ok(())
    }
}

/// A frame lasts 32 ms at either rate.
pub proof fn lemma_frame_is_32_ms(config: VadConfig)
    requires
        config.fault() is None,
    ensures
        config.frame() * 1000 == 32 * config.sample_rate,
{
}

/// The threshold of silence is the one that is set, and else follows from that of speech; a frame
/// has 256 samples at 8000 Hz and 512 else; a time has a thousandth of its milliseconds times the
/// rate in samples, rounded down.
pub proof fn lemma_what_settings_mean(config: VadConfig, ms: u32)
    ensures
        config.neg_threshold is Some ==> config.neg() == config.neg_threshold->0,
        config.neg_threshold is None ==> config.neg().bits == lowered_bits(
            config.threshold.bits,
        ) as u32,
        config.sample_rate == 8000 ==> config.frame() == 256,
        config.sample_rate != 8000 ==> config.frame() == 512,
        config.samples(ms) * 1000 <= ms * config.sample_rate < (config.samples(ms) + 1) * 1000,
{
}

/// Settings can be used exactly where the rate is 8000 or 16000 and the thresholds that are set
/// are numbers from 0 to 1. The first that cannot be used is named, in this order.
pub proof fn lemma_which_settings_are_usable(config: VadConfig)
    ensures
        ({
            let rate = config.sample_rate == 8000 || config.sample_rate == 16_000;
            let speech = config.threshold.bits <= 0x3f80_0000 || config.threshold.bits
                == 0x8000_0000;
            let silence = match config.neg_threshold {
                Some(v) => v.bits <= 0x3f80_0000 || v.bits == 0x8000_0000,
                None => true,
            };
            &&& config.fault() is None <==> rate && speech && silence
            &&& !rate ==> config.fault() == Some(ConfigFault::SampleRate(config.sample_rate))
            &&& rate && !speech ==> config.fault() == Some(
                ConfigFault::Threshold(config.threshold),
            )
            &&& rate && speech && !silence ==> config.fault() == Some(
                ConfigFault::NegThreshold(config.neg_threshold->0),
            )
        }),
{
}

/// The message for a setting names what is allowed and what came.
pub proof fn lemma_fault_texts(rate: u32, level: Level, shown: Seq<char>)
    ensures
        ConfigFault::SampleRate(rate).text(shown) == "sample_rate must be 8000 or 16000, got "@
            + decimal(rate as nat),
        ConfigFault::Threshold(level).text(shown) == "threshold must be within [0.0, 1.0], got "@
            + shown,
        ConfigFault::NegThreshold(level).text(shown)
            == "neg_threshold must be within [0.0, 1.0], got "@ + shown,
{
}

/// The balanced preset.
pub proof fn lemma_balanced_preset()
    ensures
        ({
            let c = VadConfig::balanced_preset();
            &&& c.threshold.bits == 0x3f00_0000 && c.neg_threshold is None
            &&& c.min_speech_ms == 250 && c.min_silence_ms == 100 && c.speech_pad_ms == 30
            &&& c.max_speech_ms == 0 && c.sample_rate == 16_000
        }),
{
}

} // verus!
