//! What the script asks for, and what is opened for it.

use vstd::prelude::*;

use crate::binding::bridge::VadTap;
use crate::binding::chunk::SecEncoding;
use crate::binding::convert::{find_source_kind, kind_of};
use crate::binding::errors::{unknown_choice, NapiError, Status};
use crate::level::{Level, ONE_BITS};
use crate::text::{
    copy_opt, decimal, join, opt, opt_str, quote, quoted, same, to_decimal,
};
use crate::types::{ProcessMode, SourceKind};
use crate::vad::config::VadConfig;

verus! {

/// Longest speech of the detector of a stream before a forced split, where nothing is asked for
/// (ms).
pub const INTEGRATED_VAD_MAX_SPEECH_MS_DEFAULT: u32 = 30_000;

/// The only sample rate at which noise can be suppressed (Hz).
pub const DENOISE_RATE: u32 = 48_000;

/// Settings of the detector. What is left out has a default.
#[derive(Clone, Copy, Debug, PartialEq, Eq, Structural)]
pub struct VadOptions {
    /// Probability at which speech starts.
    pub threshold: Option<Level>,
    /// Probability below which silence starts.
    pub neg_threshold: Option<Level>,
    /// Shorter speech is discarded (ms).
    pub min_speech_ms: Option<u32>,
    /// Silence of this length ends speech (ms).
    pub min_silence_ms: Option<u32>,
    /// Padding on both sides of a segment (ms).
    pub speech_pad_ms: Option<u32>,
    /// Longest speech before a forced split (ms). 0 means unlimited.
    pub max_speech_ms: Option<u32>,
    /// Sample rate, 8000 or 16000.
    pub sample_rate: Option<u32>,
}

/// A second output beside the first.
#[derive(Debug, PartialEq, Eq)]
pub struct SecondaryOutputOptions {
    /// Sample rate (Hz).
    pub rate: u32,
    /// Number of channels.
    pub channels: u16,
    /// `f32` or `s16`.
    pub encoding: Option<String>,
}

/// What the script asks for when it opens a stream.
#[derive(Debug, PartialEq, Eq)]
pub struct OpenOptions {
    /// `mic`, `system`, `process` or `mix`.
    pub kind: String,
    /// Identifier of the device.
    pub device_id: Option<String>,
    /// Identifier of the process.
    pub process_id: Option<u32>,
    /// `include` or `exclude`.
    pub mode: Option<String>,
    /// Whether the audio of this process is left out.
    pub exclude_self: Option<bool>,
    /// Sample rate of the output (Hz).
    pub output_rate: Option<u32>,
    /// Channels of the output.
    pub output_channels: Option<u16>,
    /// Length of a chunk (ms).
    pub chunk_ms: Option<u32>,
    /// Gain.
    pub gain: Option<Level>,
    /// Identifier of the input device of a mix.
    pub mic_device_id: Option<String>,
    /// Identifier of the output device of a mix.
    pub system_device_id: Option<String>,
    /// Gain of the input of a mix.
    pub mic_gain: Option<Level>,
    /// Gain of the output of a mix.
    pub system_gain: Option<Level>,
    /// Settings of the detector.
    pub vad: Option<VadOptions>,
    /// `primary` or `secondary`.
    pub vad_tap: Option<String>,
    /// Whether noise is suppressed.
    pub denoise: Option<bool>,
    /// A second output.
    pub secondary_output: Option<SecondaryOutputOptions>,
}

/// Format of an output.
#[derive(Clone, Copy, Debug, PartialEq, Eq, Structural)]
pub struct OutputFormat {
    /// Sample rate (Hz).
    pub sample_rate: u32,
    /// Number of channels.
    pub channels: u16,
}

/// What is opened.
#[derive(Debug, PartialEq, Eq)]
pub struct StreamConfig {
    /// The kind of source.
    pub kind: SourceKind,
    /// The output.
    pub output: OutputFormat,
    /// The second output.
    pub secondary_output: Option<OutputFormat>,
    /// Identifier of the device.
    pub device_id: Option<String>,
    /// Identifier of the process.
    pub target_pid: Option<u32>,
    /// Whether the process is recorded or left out.
    pub mode: ProcessMode,
    /// Whether the audio of this process is left out.
    pub exclude_self: bool,
    /// Gain.
    pub gain: Level,
    /// Identifier of the input device of a mix.
    pub mix_mic_device_id: Option<String>,
    /// Identifier of the output device of a mix.
    pub mix_system_device_id: Option<String>,
    /// Gain of the input of a mix.
    pub mix_mic_gain: Level,
    /// Gain of the output of a mix.
    pub mix_system_gain: Level,
    /// Length of a chunk (ms).
    pub chunk_ms: u32,
}

// ---------------------------------------------------------------------------
// Choices
// ---------------------------------------------------------------------------

/// The value, or a default where there is none.
pub open spec fn or_else<T>(value: Option<T>, default: T) -> T {
    match value {
        Some(v) => v,
        None => default,
    }
}

/// The message for a choice that is not offered.
pub open spec fn not_offered(what: Seq<char>, choice: Seq<char>, offered: Seq<char>) -> Seq<char> {
    what + quoted(choice) + offered
}

/// Reads a kind of source.
pub fn parse_source_kind(s: &str) -> (res: Result<SourceKind, NapiError>)
    ensures
        match kind_of(s@) {
            Some(kind) => res == Ok::<SourceKind, NapiError>(kind),
            None => res matches Err(e) && e.is(
                Status::InvalidArg,
                not_offered("unknown kind: "@, s@, " (expected mic|system|process|mix)"@),
            ),
        },
{
    match find_source_kind(s) {
        Some(kind) => Ok(kind),
        None => Err(
            unknown_choice(
                "unknown kind: ",
                quote(s).as_str(),
                " (expected mic|system|process|mix)",
            ),
        ),
    }
}

/// How a name says that a process is treated: it is recorded unless it is to be left out.
pub open spec fn mode_of(name: Option<Seq<char>>) -> Option<ProcessMode> {
    match name {
        None => Some(ProcessMode::Include),
        Some(n) => if n == "include"@ {
            Some(ProcessMode::Include)
        } else if n == "exclude"@ {
            Some(ProcessMode::Exclude)
        } else {
            None
        },
    }
}

/// Reads how a process is treated.
pub fn parse_process_mode(s: Option<&str>) -> (res: Result<ProcessMode, NapiError>)
    ensures
        match mode_of(opt_str(s)) {
            Some(mode) => res == Ok::<ProcessMode, NapiError>(mode),
            None => res matches Err(e) && e.is(
                Status::InvalidArg,
                not_offered("unknown mode: "@, s->0@, " (expected include|exclude)"@),
            ),
        },
{
    match s {
        None => Ok(ProcessMode::Include),
        Some(name) => if same(name, "include") {
            Ok(ProcessMode::Include)
        } else if same(name, "exclude") {
            Ok(ProcessMode::Exclude)
        } else {
            Err(
                unknown_choice(
                    "unknown mode: ",
                    quote(name).as_str(),
                    " (expected include|exclude)",
                ),
            )
        },
    }
}

/// The output that a name says the detector listens to: the primary one unless it says
/// otherwise.
pub open spec fn tap_of(name: Option<Seq<char>>) -> Option<VadTap> {
    match name {
        None => Some(VadTap::Primary),
        Some(n) => if n == "primary"@ {
            Some(VadTap::Primary)
        } else if n == "secondary"@ {
            Some(VadTap::Secondary)
        } else {
            None
        },
    }
}

/// Reads which output the detector listens to.
pub fn parse_vad_tap(s: Option<&str>) -> (res: Result<VadTap, NapiError>)
    ensures
        match tap_of(opt_str(s)) {
            Some(tap) => res == Ok::<VadTap, NapiError>(tap),
            None => res matches Err(e) && e.is(
                Status::InvalidArg,
                not_offered("unknown vadTap: "@, s->0@, " (expected primary|secondary)"@),
            ),
        },
{
    match s {
        None => Ok(VadTap::Primary),
        Some(name) => if same(name, "primary") {
            Ok(VadTap::Primary)
        } else if same(name, "secondary") {
            Ok(VadTap::Secondary)
        } else {
            Err(
                unknown_choice(
                    "unknown vadTap: ",
                    quote(name).as_str(),
                    " (expected primary|secondary)",
                ),
            )
        },
    }
}

/// The encoding that a name stands for: floating point unless it says otherwise.
pub open spec fn encoding_of(name: Option<Seq<char>>) -> Option<SecEncoding> {
    match name {
        None => Some(SecEncoding::F32),
        Some(n) => if n == "f32"@ {
            Some(SecEncoding::F32)
        } else if n == "s16"@ {
            Some(SecEncoding::S16)
        } else {
            None
        },
    }
}

/// Reads how the samples of the second output are encoded.
pub fn parse_sec_encoding(s: Option<&str>) -> (res: Result<SecEncoding, NapiError>)
    ensures
        match encoding_of(opt_str(s)) {
            Some(encoding) => res == Ok::<SecEncoding, NapiError>(encoding),
            None => res matches Err(e) && e.is(
                Status::InvalidArg,
                not_offered(
                    "unknown secondaryOutput.encoding: "@,
                    s->0@,
                    " (expected f32|s16)"@,
                ),
            ),
        },
{
    match s {
        None => Ok(SecEncoding::F32),
        Some(name) => if same(name, "f32") {
            Ok(SecEncoding::F32)
        } else if same(name, "s16") {
            Ok(SecEncoding::S16)
        } else {
            Err(
                unknown_choice(
                    "unknown secondaryOutput.encoding: ",
                    quote(name).as_str(),
                    " (expected f32|s16)",
                ),
            )
        },
    }
}

// ---------------------------------------------------------------------------
// Detector
// ---------------------------------------------------------------------------

/// The settings of a detector out of its options.
pub open spec fn vad_config(o: VadOptions) -> VadConfig {
    let d = VadConfig::balanced_preset();
    VadConfig {
        threshold: or_else(o.threshold, d.threshold),
        neg_threshold: o.neg_threshold,
        min_speech_ms: or_else(o.min_speech_ms, d.min_speech_ms),
        min_silence_ms: or_else(o.min_silence_ms, d.min_silence_ms),
        speech_pad_ms: or_else(o.speech_pad_ms, d.speech_pad_ms),
        max_speech_ms: or_else(o.max_speech_ms, d.max_speech_ms),
        sample_rate: or_else(o.sample_rate, d.sample_rate),
    }
}

/// The settings of the detector of a stream: as those of any detector, but speech is bounded
/// where nothing is asked for.
pub open spec fn integrated_vad_config(o: VadOptions) -> VadConfig {
    VadConfig {
        max_speech_ms: or_else(o.max_speech_ms, INTEGRATED_VAD_MAX_SPEECH_MS_DEFAULT),
        ..vad_config(o)
    }
}

/// The settings of a detector.
pub fn build_vad_config(o: &VadOptions) -> (res: VadConfig)
    ensures
        res == vad_config(*o),
{
    let d: VadConfig = VadConfig::default();
    VadConfig {
        threshold: match o.threshold {
            Some(v) => v,
            None => d.threshold,
        },
        neg_threshold: o.neg_threshold,
        min_speech_ms: match o.min_speech_ms {
            Some(v) => v,
            None => d.min_speech_ms,
        },
        min_silence_ms: match o.min_silence_ms {
            Some(v) => v,
            None => d.min_silence_ms,
        },
        speech_pad_ms: match o.speech_pad_ms {
            Some(v) => v,
            None => d.speech_pad_ms,
        },
        max_speech_ms: match o.max_speech_ms {
            Some(v) => v,
            None => d.max_speech_ms,
        },
        sample_rate: match o.sample_rate {
            Some(v) => v,
            None => d.sample_rate,
        },
    }
}

/// The settings of the detector of a stream.
pub fn build_integrated_vad_config(o: &VadOptions) -> (res: VadConfig)
    ensures
        res == integrated_vad_config(*o),
{
    let mut cfg: VadConfig = build_vad_config(o);
    if o.max_speech_ms.is_none() {
        cfg.max_speech_ms = INTEGRATED_VAD_MAX_SPEECH_MS_DEFAULT;
    }
    cfg
}

/// The detector of a stream differs from any other only in the bound on speech, and only where
/// none is asked for: an explicit bound always wins, 0 included.
pub proof fn lemma_explicit_bound_wins(o: VadOptions)
    ensures
        o.max_speech_ms is Some ==> integrated_vad_config(o) == vad_config(o),
        o.max_speech_ms is None ==> integrated_vad_config(o).max_speech_ms == 30_000
            && vad_config(o).max_speech_ms == 0,
        (VadConfig { max_speech_ms: 0, ..integrated_vad_config(o) }) == (VadConfig {
            max_speech_ms: 0,
            ..vad_config(o)
        }),
{
}

// ---------------------------------------------------------------------------
// Stream
// ---------------------------------------------------------------------------

/// The message for a sample rate at which noise cannot be suppressed.
pub open spec fn denoise_refusal(output_rate: u32) -> Seq<char> {
    "denoise supports only 48000 Hz output (RNNoise is fixed at 48kHz); it cannot be used with outputRate="@
        + decimal(output_rate as nat)
}

/// Checks that noise can be suppressed if it is to be.
pub fn check_denoise_rate(enabled: bool, output_rate: u32) -> (res: Result<(), NapiError>)
    ensures
        if enabled && output_rate != DENOISE_RATE {
            res matches Err(e) && e.is(Status::InvalidArg, denoise_refusal(output_rate))
        } else {
            res is Ok
        },
{
    if enabled && output_rate != DENOISE_RATE {
        return Err(
            NapiError {
                status: Status::InvalidArg,
                reason: join(
                    "denoise supports only 48000 Hz output (RNNoise is fixed at 48kHz); it cannot be used with outputRate=",
                    to_decimal(output_rate as u64).as_str(),
                ),
            },
        );
    }
    Ok(())
}

/// Whether this is what is opened for the options, given the kind and the treatment that they
/// name.
pub open spec fn opens(
    c: StreamConfig,
    o: OpenOptions,
    kind: SourceKind,
    mode: ProcessMode,
) -> bool {
    &&& c.kind == kind
    &&& c.mode == mode
    &&& c.output == OutputFormat {
        sample_rate: or_else(o.output_rate, 48_000),
        channels: or_else(o.output_channels, 2),
    }
    &&& c.secondary_output == match o.secondary_output {
        Some(s) => Some(OutputFormat { sample_rate: s.rate, channels: s.channels }),
        None => None,
    }
    &&& opt(c.device_id) == opt(o.device_id)
    &&& c.target_pid == o.process_id
    &&& c.exclude_self == or_else(o.exclude_self, false)
    &&& c.gain == or_else(o.gain, Level { bits: ONE_BITS })
    &&& opt(c.mix_mic_device_id) == opt(o.mic_device_id)
    &&& opt(c.mix_system_device_id) == opt(o.system_device_id)
    &&& c.mix_mic_gain == or_else(o.mic_gain, Level { bits: ONE_BITS })
    &&& c.mix_system_gain == or_else(o.system_gain, Level { bits: ONE_BITS })
    &&& c.chunk_ms == or_else(o.chunk_ms, 20)
}

/// Why a stream cannot be opened with the options, before anything is opened: the kind comes
/// first, then the treatment of the process.
pub open spec fn config_refusal(o: OpenOptions) -> Option<Seq<char>> {
    if kind_of(o.kind@) is None {
        Some(not_offered("unknown kind: "@, o.kind@, " (expected mic|system|process|mix)"@))
    } else if mode_of(opt(o.mode)) is None {
        Some(not_offered("unknown mode: "@, o.mode->0@, " (expected include|exclude)"@))
    } else {
        None
    }
}

/// A text that may be missing, by reference.
pub fn as_text(s: &Option<String>) -> (res: Option<&str>)
    ensures
        opt_str(res) == opt(*s),
        *s matches Some(t) ==> (res matches Some(r) && r@ == t@),
{
    match s {
        Some(t) => Some(t.as_str()),
        None => None,
    }
}

fn gain_or_one(gain: Option<Level>) -> (res: Level)
    ensures
        res == or_else(gain, Level { bits: ONE_BITS }),
{
    match gain {
        Some(g) => g,
        None => Level { bits: ONE_BITS },
    }
}

/// What is opened for the options.
pub fn build_config(options: &OpenOptions) -> (res: Result<StreamConfig, NapiError>)
    ensures
        match config_refusal(*options) {
            Some(reason) => res matches Err(e) && e.is(Status::InvalidArg, reason),
            None => res matches Ok(c) && opens(
                c,
                *options,
                kind_of(options.kind@)->0,
                mode_of(opt(options.mode))->0,
            ),
        },
{
    let kind: SourceKind = match parse_source_kind(options.kind.as_str()) {
        Ok(kind) => kind,
        Err(e) => {
            return Err(e);
        },
    };
    let mode: ProcessMode = match parse_process_mode(as_text(&options.mode)) {
        Ok(mode) => mode,
        Err(e) => {
            return Err(e);
        },
    };
    let secondary_output: Option<OutputFormat> = match &options.secondary_output {
        Some(s) => Some(OutputFormat { sample_rate: s.rate, channels: s.channels }),
        None => None,
    };
    Ok(
        StreamConfig {
            kind,
            output: OutputFormat {
                sample_rate: match options.output_rate {
                    Some(rate) => rate,
                    None => 48_000,
                },
                channels: match options.output_channels {
                    Some(channels) => channels,
                    None => 2,
                },
            },
            secondary_output,
            device_id: copy_opt(&options.device_id),
            target_pid: options.process_id,
            mode,
            exclude_self: match options.exclude_self {
                Some(exclude) => exclude,
                None => false,
            },
            gain: gain_or_one(options.gain),
            mix_mic_device_id: copy_opt(&options.mic_device_id),
            mix_system_device_id: copy_opt(&options.system_device_id),
            mix_mic_gain: gain_or_one(options.mic_gain),
            mix_system_gain: gain_or_one(options.system_gain),
            chunk_ms: match options.chunk_ms {
                Some(ms) => ms,
                None => 20,
            },
        },
    )
}

/// Each choice has its names, a choice that is left out has its default, and no other name stands
/// for anything.
pub proof fn lemma_names_of_choices(n: Seq<char>)
    ensures
        mode_of(None) == Some(ProcessMode::Include),
        mode_of(Some(n)) == Some(ProcessMode::Include) <==> n == "include"@,
        mode_of(Some(n)) == Some(ProcessMode::Exclude) <==> n == "exclude"@,
        tap_of(None) == Some(VadTap::Primary),
        tap_of(Some(n)) == Some(VadTap::Primary) <==> n == "primary"@,
        tap_of(Some(n)) == Some(VadTap::Secondary) <==> n == "secondary"@,
        encoding_of(None) == Some(SecEncoding::F32),
        encoding_of(Some(n)) == Some(SecEncoding::F32) <==> n == "f32"@,
        encoding_of(Some(n)) == Some(SecEncoding::S16) <==> n == "s16"@,
        kind_of(n) == Some(SourceKind::Mic) <==> n == "mic"@,
        kind_of(n) == Some(SourceKind::SystemLoopback) <==> n == "system"@,
        kind_of(n) == Some(SourceKind::ProcessLoopback) <==> n == "process"@,
        kind_of(n) == Some(SourceKind::Mix) <==> n == "mix"@,
{
    reveal_strlit("include");
    reveal_strlit("exclude");
    reveal_strlit("primary");
    reveal_strlit("secondary");
    reveal_strlit("f32");
    reveal_strlit("s16");
    assert("include"@[0] != "exclude"@[0]);
    assert("primary"@[0] != "secondary"@[0]);
    assert("f32"@[0] != "s16"@[0]);
    crate::binding::convert::lemma_kinds_round_trip(SourceKind::Mic, n);
    crate::binding::convert::lemma_kinds_round_trip(SourceKind::SystemLoopback, n);
    crate::binding::convert::lemma_kinds_round_trip(SourceKind::ProcessLoopback, n);
    crate::binding::convert::lemma_kinds_round_trip(SourceKind::Mix, n);
    crate::binding::convert::lemma_kind_names(SourceKind::Mic);
    crate::binding::convert::lemma_kind_names(SourceKind::SystemLoopback);
    crate::binding::convert::lemma_kind_names(SourceKind::ProcessLoopback);
    crate::binding::convert::lemma_kind_names(SourceKind::Mix);
}

/// A setting of the detector that is given is taken as it is, and one that is left out has its
/// default. Silence has no default of its own: its threshold follows from that of speech.
pub proof fn lemma_given_settings_count(o: VadOptions)
    ensures
        ({
            let c = vad_config(o);
            &&& o.threshold is Some ==> c.threshold == o.threshold->0
            &&& o.threshold is None ==> c.threshold.bits == 0x3f00_0000
            &&& c.neg_threshold == o.neg_threshold
            &&& o.min_speech_ms is Some ==> c.min_speech_ms == o.min_speech_ms->0
            &&& o.min_speech_ms is None ==> c.min_speech_ms == 250
            &&& o.min_silence_ms is Some ==> c.min_silence_ms == o.min_silence_ms->0
            &&& o.min_silence_ms is None ==> c.min_silence_ms == 100
            &&& o.speech_pad_ms is Some ==> c.speech_pad_ms == o.speech_pad_ms->0
            &&& o.speech_pad_ms is None ==> c.speech_pad_ms == 30
            &&& o.max_speech_ms is Some ==> c.max_speech_ms == o.max_speech_ms->0
            &&& o.max_speech_ms is None ==> c.max_speech_ms == 0
            &&& o.sample_rate is Some ==> c.sample_rate == o.sample_rate->0
            &&& o.sample_rate is None ==> c.sample_rate == 16_000
        }),
{
}

/// What is opened is what the options ask for, and what they leave out has its default: 48000 Hz,
/// two channels, chunks of 20 ms and a gain of 1 everywhere.
pub proof fn lemma_given_options_count(
    c: StreamConfig,
    o: OpenOptions,
    kind: SourceKind,
    mode: ProcessMode,
)
    requires
        opens(c, o, kind, mode),
    ensures
        c.kind == kind && c.mode == mode,
        o.output_rate is Some ==> c.output.sample_rate == o.output_rate->0,
        o.output_rate is None ==> c.output.sample_rate == 48_000,
        o.output_channels is Some ==> c.output.channels == o.output_channels->0,
        o.output_channels is None ==> c.output.channels == 2,
        o.secondary_output is None <==> c.secondary_output is None,
        o.secondary_output is Some ==> c.secondary_output->0.sample_rate
            == o.secondary_output->0.rate && c.secondary_output->0.channels
            == o.secondary_output->0.channels,
        o.device_id is None <==> c.device_id is None,
        o.device_id is Some ==> c.device_id->0@ == o.device_id->0@,
        c.target_pid == o.process_id,
        c.exclude_self <==> o.exclude_self == Some(true),
        o.gain is Some ==> c.gain == o.gain->0,
        o.gain is None ==> c.gain.bits == 0x3f80_0000,
        o.mic_device_id is None <==> c.mix_mic_device_id is None,
        o.mic_device_id is Some ==> c.mix_mic_device_id->0@ == o.mic_device_id->0@,
        o.system_device_id is None <==> c.mix_system_device_id is None,
        o.system_device_id is Some ==> c.mix_system_device_id->0@ == o.system_device_id->0@,
        o.mic_gain is Some ==> c.mix_mic_gain == o.mic_gain->0,
        o.mic_gain is None ==> c.mix_mic_gain.bits == 0x3f80_0000,
        o.system_gain is Some ==> c.mix_system_gain == o.system_gain->0,
        o.system_gain is None ==> c.mix_system_gain.bits == 0x3f80_0000,
        o.chunk_ms is Some ==> c.chunk_ms == o.chunk_ms->0,
        o.chunk_ms is None ==> c.chunk_ms == 20,
{
}

/// Options are refused for their kind or their mode exactly where those are no names that are
/// offered, and the kind is named first.
pub proof fn lemma_refused_options(o: OpenOptions)
    ensures
        ({
            let kind_known = o.kind@ == "mic"@ || o.kind@ == "system"@ || o.kind@ == "process"@
                || o.kind@ == "mix"@;
            let mode_known = match o.mode {
                Some(m) => m@ == "include"@ || m@ == "exclude"@,
                None => true,
            };
            &&& config_refusal(o) is None <==> kind_known && mode_known
            &&& !kind_known ==> config_refusal(o) == Some(
                "unknown kind: "@ + quoted(o.kind@) + " (expected mic|system|process|mix)"@,
            )
            &&& kind_known && !mode_known ==> config_refusal(o) == Some(
                "unknown mode: "@ + quoted(o.mode->0@) + " (expected include|exclude)"@,
            )
        }),
{
    lemma_names_of_choices(o.kind@);
    if let Some(m) = o.mode {
        lemma_names_of_choices(m@);
    }
}

} // verus!
