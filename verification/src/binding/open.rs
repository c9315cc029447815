//! Opening of a stream: everything that is refused is refused before anything is opened.

use vstd::prelude::*;

use crate::binding::bridge::{Clock, Flow, PairingBridge, Plan, SecondaryTapCfg, VadTap};
use crate::binding::chunk::SecEncoding;
use crate::binding::convert::kind_of;
use crate::binding::errors::{vad_err, NapiError, Status};
use crate::binding::options::{
    as_text, build_config, build_integrated_vad_config, check_denoise_rate, config_refusal,
    denoise_refusal, encoding_of, integrated_vad_config, mode_of, not_offered, opens, or_else,
    parse_sec_encoding, parse_vad_tap, tap_of, OpenOptions, OutputFormat, StreamConfig,
    DENOISE_RATE,
};
use crate::level::{Level, ONE_BITS};
use crate::text::{opt, opt_str};
use crate::types::{ProcessMode, SourceKind};
use crate::vad::config::{ConfigFault, VadConfig};
use crate::vad::error::VadError;

verus! {

/// What is to be opened.
#[derive(Debug)]
pub struct OpenPlan {
    /// The stream.
    pub config: StreamConfig,
    /// Whether noise is suppressed.
    pub denoise: bool,
    /// The second output.
    pub secondary: Option<SecondaryTapCfg>,
    /// The output that the detector listens to.
    pub vad_tap: VadTap,
    /// The detector.
    pub vad: Option<VadConfig>,
}

/// Why nothing is opened.
#[derive(Debug)]
pub enum OpenFault {
    /// The options cannot be used.
    Rejected(NapiError),
    /// A setting of the detector cannot be used.
    VadSetting(ConfigFault),
}

impl OpenFault {
    /// The error for the fault, `shown` being the decimal form of the level that it names.
    pub fn into_error(self, shown: &str) -> (res: NapiError)
        ensures
            match self {
                OpenFault::Rejected(e) => res == e,
                OpenFault::VadSetting(fault) => res.is(
                    Status::InvalidArg,
                    "invalid config: "@ + fault.text(shown@),
                ),
            },
    {
        match self {
            OpenFault::Rejected(e) => e,
            OpenFault::VadSetting(fault) => vad_err(&VadError::of_fault(&fault, shown)),
        }
    }
}

impl OpenPlan {
    /// The sample rate of the detector, 16000 where there is none.
    pub open spec fn vad_rate(self) -> int {
        match self.vad {
            Some(cfg) => cfg.sample_rate as int,
            None => 16_000,
        }
    }

    /// Whether it can be carried out: the settings of the detector can be used, and it listens to
    /// an output that is there.
    pub open spec fn wf(self) -> bool {
        &&& self.vad matches Some(cfg) ==> cfg.fault() is None
        &&& self.vad_tap == VadTap::Secondary ==> self.secondary is Some
        &&& self.config.secondary_output == match self.secondary {
            Some(cfg) => Some(OutputFormat { sample_rate: cfg.rate, channels: cfg.channels }),
            None => None,
        }
    }

    /// The bridge for the stream.
    pub fn bridge(&self) -> (res: PairingBridge)
        requires
            self.wf(),
        ensures
            res@.wf(),
            res@ == (Flow {
                plan: Plan {
                    has_vad: self.vad is Some,
                    tap: self.vad_tap,
                    vad_rate: self.vad_rate(),
                    output_rate: self.config.output.sample_rate as int,
                    output_channels: self.config.output.channels as int,
                    secondary: self.secondary,
                },
                clock: Clock { fed: 0, dropped: 0, anchor_sample: 0, anchor_pts: 0 },
                pending: Seq::empty(),
                primaries: Seq::empty(),
                secondaries: Seq::empty(),
                delivered: 0,
            }),
    {
        let vad_rate: u32 = match &self.vad {
            Some(cfg) => cfg.sample_rate,
            None => 16_000,
        };
        PairingBridge::new(
            self.vad.is_some(),
            self.vad_tap,
            vad_rate,
            self.config.output.sample_rate,
            self.config.output.channels,
            self.secondary,
        )
    }
}

/// The name of the encoding of the second output, where there is one.
pub open spec fn encoding_name(o: OpenOptions) -> Option<Seq<char>> {
    match o.secondary_output {
        Some(s) => opt(s.encoding),
        None => None,
    }
}

/// The first reason why the options cannot be used, if there is one. The settings of the detector
/// come after all of these.
pub open spec fn refusal(o: OpenOptions) -> Option<Seq<char>> {
    let rate = or_else(o.output_rate, 48_000);
    if config_refusal(o) is Some {
        config_refusal(o)
    } else if or_else(o.denoise, false) && rate != DENOISE_RATE {
        Some(denoise_refusal(rate))
    } else if encoding_of(encoding_name(o)) is None {
        Some(
            not_offered(
                "unknown secondaryOutput.encoding: "@,
                encoding_name(o)->0,
                " (expected f32|s16)"@,
            ),
        )
    } else if tap_of(opt(o.vad_tap)) is None {
        Some(
            not_offered("unknown vadTap: "@, opt(o.vad_tap)->0, " (expected primary|secondary)"@),
        )
    } else if tap_of(opt(o.vad_tap)) == Some(VadTap::Secondary) && o.secondary_output is None {
        Some("vadTap 'secondary' requires secondaryOutput"@)
    } else {
        None
    }
}

/// The detector that the options ask for.
pub open spec fn asked_vad(o: OpenOptions) -> Option<VadConfig> {
    match o.vad {
        Some(v) => Some(integrated_vad_config(v)),
        None => None,
    }
}

/// Whether this is to be opened for options that can be used.
pub open spec fn carries_out(plan: OpenPlan, o: OpenOptions) -> bool {
    &&& opens(plan.config, o, kind_of(o.kind@)->0, mode_of(opt(o.mode))->0)
    &&& plan.denoise == or_else(o.denoise, false)
    &&& plan.secondary == match o.secondary_output {
        Some(s) => Some(
            SecondaryTapCfg {
                rate: s.rate,
                channels: s.channels,
                encoding: encoding_of(opt(s.encoding))->0,
            },
        ),
        None => None,
    }
    &&& plan.vad_tap == tap_of(opt(o.vad_tap))->0
    &&& plan.vad == asked_vad(o)
}

/// Decides what is to be opened for the options, or why nothing is. Nothing is refused after
/// this but by the system.
pub fn open_stream(options: &OpenOptions) -> (res: Result<OpenPlan, OpenFault>)
    ensures
        match refusal(*options) {
            Some(reason) => res matches Err(OpenFault::Rejected(e)) && e.is(
                Status::InvalidArg,
                reason,
            ),
            None => if asked_vad(*options) is Some && asked_vad(*options)->0.fault() is Some {
                res == Err::<OpenPlan, OpenFault>(
                    OpenFault::VadSetting(asked_vad(*options)->0.fault()->0),
                )
            } else {
                res matches Ok(plan) && plan.wf() && carries_out(plan, *options)
            },
        },
{
    let config: StreamConfig = match build_config(options) {
        Ok(config) => config,
        Err(e) => {
            return Err(OpenFault::Rejected(e));
        },
    };
    let denoise: bool = match options.denoise {
        Some(denoise) => denoise,
        None => false,
    };
    if let Err(e) = check_denoise_rate(denoise, config.output.sample_rate) {
        return Err(OpenFault::Rejected(e));
    }
    let secondary: Option<SecondaryTapCfg> = match &options.secondary_output {
        Some(s) => match parse_sec_encoding(as_text(&s.encoding)) {
            Ok(encoding) => Some(
                SecondaryTapCfg { rate: s.rate, channels: s.channels, encoding },
            ),
            Err(e) => {
                return Err(OpenFault::Rejected(e));
            },
        },
        None => None,
    };
    let vad_tap: VadTap = match parse_vad_tap(as_text(&options.vad_tap)) {
        Ok(tap) => tap,
        Err(e) => {
            return Err(OpenFault::Rejected(e));
        },
    };
    if vad_tap == VadTap::Secondary && secondary.is_none() {
        return Err(
            OpenFault::Rejected(
                NapiError::new(
                    Status::InvalidArg,
                    "vadTap 'secondary' requires secondaryOutput",
                ),
            ),
        );
    }
    let vad: Option<VadConfig> = match &options.vad {
        Some(o) => {
            let cfg: VadConfig = build_integrated_vad_config(o);
            if let Err(fault) = cfg.validate() {
                return Err(OpenFault::VadSetting(fault));
            }
            Some(cfg)
        },
        None => None,
    };
    Ok(OpenPlan { config, denoise, secondary, vad_tap, vad })
}

/// What a stream of the mock backend is opened with: a format, a second output, and a detector
/// that keeps even the shortest speech.
pub open spec fn mock_vad(threshold: Option<Level>) -> Option<VadConfig> {
    match threshold {
        Some(t) => Some(
            VadConfig {
                threshold: t,
                neg_threshold: Some(t),
                min_speech_ms: 0,
                min_silence_ms: 0,
                speech_pad_ms: 0,
                max_speech_ms: 0,
                sample_rate: 16_000,
            },
        ),
        None => None,
    }
}

/// The first reason why the mock backend cannot be opened, if there is one.
pub open spec fn mock_refusal(
    secondary_rate: Option<u32>,
    secondary_encoding: Option<Seq<char>>,
    vad_tap: Option<Seq<char>>,
) -> Option<Seq<char>> {
    if secondary_rate is Some && encoding_of(secondary_encoding) is None {
        Some(
            not_offered(
                "unknown secondaryOutput.encoding: "@,
                secondary_encoding->0,
                " (expected f32|s16)"@,
            ),
        )
    } else if tap_of(vad_tap) is None {
        Some(not_offered("unknown vadTap: "@, vad_tap->0, " (expected primary|secondary)"@))
    } else if tap_of(vad_tap) == Some(VadTap::Secondary) && secondary_rate is None {
        Some("vadTap 'secondary' requires a secondary tap"@)
    } else {
        None
    }
}

/// Decides what is to be opened with the mock backend, or why nothing is.
pub fn open_mock_stream(
    sample_rate: u32,
    channels: u16,
    secondary_rate: Option<u32>,
    secondary_channels: Option<u16>,
    secondary_encoding: Option<&str>,
    vad_threshold: Option<Level>,
    vad_tap: Option<&str>,
) -> (res: Result<OpenPlan, OpenFault>)
    ensures
        match mock_refusal(secondary_rate, opt_str(secondary_encoding), opt_str(vad_tap)) {
            Some(reason) => res matches Err(OpenFault::Rejected(e)) && e.is(
                Status::InvalidArg,
                reason,
            ),
            None => if mock_vad(vad_threshold) is Some && mock_vad(vad_threshold)->0.fault() is Some {
                res == Err::<OpenPlan, OpenFault>(
                    OpenFault::VadSetting(mock_vad(vad_threshold)->0.fault()->0),
                )
            } else {
                &&& res matches Ok(plan)
                &&& plan.wf()
                &&& plan.config.kind == SourceKind::Mic
                &&& plan.config.output == (OutputFormat { sample_rate, channels })
                &&& plan.config.device_id is None
                &&& plan.config.target_pid is None
                &&& plan.config.mode == ProcessMode::Include
                &&& !plan.config.exclude_self
                &&& plan.config.gain == (Level { bits: ONE_BITS })
                &&& plan.config.mix_mic_device_id is None
                &&& plan.config.mix_system_device_id is None
                &&& plan.config.mix_mic_gain == (Level { bits: ONE_BITS })
                &&& plan.config.mix_system_gain == (Level { bits: ONE_BITS })
                &&& plan.config.chunk_ms == 20
                &&& !plan.denoise
                &&& plan.secondary == match secondary_rate {
                    Some(rate) => Some(
                        SecondaryTapCfg {
                            rate,
                            channels: or_else(secondary_channels, 1),
                            encoding: encoding_of(opt_str(secondary_encoding))->0,
                        },
                    ),
                    None => None,
                }
                &&& plan.vad_tap == tap_of(opt_str(vad_tap))->0
                &&& plan.vad == mock_vad(vad_threshold)
            },
        },
{
    let secondary: Option<SecondaryTapCfg> = match secondary_rate {
        Some(rate) => {
            let ch: u16 = match secondary_channels {
                Some(ch) => ch,
                None => 1,
            };
            match parse_sec_encoding(secondary_encoding) {
                Ok(encoding) => Some(SecondaryTapCfg { rate, channels: ch, encoding }),
                Err(e) => {
                    return Err(OpenFault::Rejected(e));
                },
            }
        },
        None => None,
    };
    let secondary_output: Option<OutputFormat> = match &secondary {
        Some(cfg) => Some(OutputFormat { sample_rate: cfg.rate, channels: cfg.channels }),
        None => None,
    };
    let one = Level { bits: ONE_BITS };
    let config = StreamConfig {
        kind: SourceKind::Mic,
        output: OutputFormat { sample_rate, channels },
        secondary_output,
        device_id: None,
        target_pid: None,
        mode: ProcessMode::Include,
        exclude_self: false,
        gain: one,
        mix_mic_device_id: None,
        mix_system_device_id: None,
        mix_mic_gain: one,
        mix_system_gain: one,
        chunk_ms: 20,
    };
    let vad_tap: VadTap = match parse_vad_tap(vad_tap) {
        Ok(tap) => tap,
        Err(e) => {
            return Err(OpenFault::Rejected(e));
        },
    };
    if vad_tap == VadTap::Secondary && secondary.is_none() {
        return Err(
            OpenFault::Rejected(
                NapiError::new(
                    Status::InvalidArg,
                    "vadTap 'secondary' requires a secondary tap",
                ),
            ),
        );
    }
    let vad: Option<VadConfig> = match vad_threshold {
        Some(t) => {
            let cfg = VadConfig {
                threshold: t,
                neg_threshold: Some(t),
                min_speech_ms: 0,
                min_silence_ms: 0,
                speech_pad_ms: 0,
                max_speech_ms: 0,
                sample_rate: 16_000,
            };
            if let Err(fault) = cfg.validate() {
                return Err(OpenFault::VadSetting(fault));
            }
            Some(cfg)
        },
        None => None,
    };
    Ok(OpenPlan { config, denoise: false, secondary, vad_tap, vad })
}

/// When options are refused, and in which order the reasons are named: the kind and the mode
/// first, then noise suppression at another rate than 48000 Hz, the encoding of the second
/// output, the output that the detector listens to, and a detector that listens to a second
/// output that is not there.
pub proof fn lemma_what_is_refused(o: OpenOptions)
    ensures
        ({
            let noisy = o.denoise == Some(true) && o.output_rate is Some && o.output_rate
                != Some(48_000u32);
            let coded = match o.secondary_output {
                Some(s) => match s.encoding {
                    Some(n) => n@ == "f32"@ || n@ == "s16"@,
                    None => true,
                },
                None => true,
            };
            let tapped = match o.vad_tap {
                Some(n) => n@ == "primary"@ || n@ == "secondary"@ && o.secondary_output is Some,
                None => true,
            };
            let named = match o.vad_tap {
                Some(n) => n@ == "primary"@ || n@ == "secondary"@,
                None => true,
            };
            &&& refusal(o) is None <==> config_refusal(o) is None && !noisy && coded && tapped
            &&& config_refusal(o) is Some ==> refusal(o) == config_refusal(o)
            &&& config_refusal(o) is None && noisy ==> refusal(o) == Some(
                "denoise supports only 48000 Hz output (RNNoise is fixed at 48kHz); it cannot be used with outputRate="@
                    + crate::text::decimal(o.output_rate->0 as nat),
            )
            &&& config_refusal(o) is None && !noisy && !coded ==> refusal(o) == Some(
                "unknown secondaryOutput.encoding: "@ + crate::text::quoted(
                    o.secondary_output->0.encoding->0@,
                ) + " (expected f32|s16)"@,
            )
            &&& config_refusal(o) is None && !noisy && coded && !named ==> refusal(o) == Some(
                "unknown vadTap: "@ + crate::text::quoted(o.vad_tap->0@)
                    + " (expected primary|secondary)"@,
            )
            &&& config_refusal(o) is None && !noisy && coded && named && !tapped ==> refusal(o)
                == Some("vadTap 'secondary' requires secondaryOutput"@)
        }),
{
    if let Some(s) = o.secondary_output {
        if let Some(n) = s.encoding {
            crate::binding::options::lemma_names_of_choices(n@);
        }
    }
    if let Some(n) = o.vad_tap {
        crate::binding::options::lemma_names_of_choices(n@);
    }
    crate::binding::options::lemma_names_of_choices(Seq::empty());
}

/// A plan carries out the options: it suppresses noise where that is asked for, has the second
/// output and the detector that are asked for and no others, and the detector listens where it
/// is told to.
pub proof fn lemma_plan_is_what_was_asked(plan: OpenPlan, o: OpenOptions)
    requires
        carries_out(plan, o),
        refusal(o) is None,
    ensures
        plan.denoise <==> o.denoise == Some(true),
        plan.secondary is Some <==> o.secondary_output is Some,
        o.secondary_output is Some ==> {
            let s = o.secondary_output->0;
            &&& plan.secondary->0.rate == s.rate
            &&& plan.secondary->0.channels == s.channels
            &&& plan.secondary->0.encoding == SecEncoding::S16 <==> s.encoding is Some
                && s.encoding->0@ == "s16"@
        },
        plan.vad_tap == VadTap::Secondary <==> o.vad_tap is Some && o.vad_tap->0@ == "secondary"@,
        plan.vad is Some <==> o.vad is Some,
        o.vad is Some ==> plan.vad == Some(integrated_vad_config(o.vad->0)),
        plan.vad is Some ==> plan.vad_rate() == plan.vad->0.sample_rate,
        plan.vad is None ==> plan.vad_rate() == 16_000,
        plan.config.kind == SourceKind::Mic <==> o.kind@ == "mic"@,
        plan.config.kind == SourceKind::SystemLoopback <==> o.kind@ == "system"@,
        plan.config.kind == SourceKind::ProcessLoopback <==> o.kind@ == "process"@,
        plan.config.kind == SourceKind::Mix <==> o.kind@ == "mix"@,
        plan.config.mode == ProcessMode::Exclude <==> o.mode is Some && o.mode->0@ == "exclude"@,
{
    if let Some(s) = o.secondary_output {
        if let Some(n) = s.encoding {
            crate::binding::options::lemma_names_of_choices(n@);
        }
    }
    if let Some(n) = o.vad_tap {
        crate::binding::options::lemma_names_of_choices(n@);
    }
    if let Some(n) = o.mode {
        crate::binding::options::lemma_names_of_choices(n@);
    }
    crate::binding::options::lemma_names_of_choices(o.kind@);
}

/// The mock backend is refused for the encoding of its second output, for the output that the
/// detector listens to, and where that is not there. Its detector has one threshold for speech
/// and silence and keeps even the shortest speech.
pub proof fn lemma_what_the_mock_takes(
    secondary_rate: Option<u32>,
    encoding: Option<Seq<char>>,
    tap: Option<Seq<char>>,
    threshold: Option<Level>,
)
    ensures
        ({
            let coded = secondary_rate is None || encoding is None || encoding == Some("f32"@)
                || encoding == Some("s16"@);
            let named = tap is None || tap == Some("primary"@) || tap == Some("secondary"@);
            let there = tap != Some("secondary"@) || secondary_rate is Some;
            let reason = mock_refusal(secondary_rate, encoding, tap);
            &&& reason is None <==> coded && named && there
            &&& !coded ==> reason == Some(
                "unknown secondaryOutput.encoding: "@ + crate::text::quoted(encoding->0)
                    + " (expected f32|s16)"@,
            )
            &&& coded && !named ==> reason == Some(
                "unknown vadTap: "@ + crate::text::quoted(tap->0)
                    + " (expected primary|secondary)"@,
            )
            &&& coded && named && !there ==> reason == Some(
                "vadTap 'secondary' requires a secondary tap"@,
            )
        }),
        threshold is None ==> mock_vad(threshold) is None,
        threshold is Some ==> {
            &&& mock_vad(threshold) matches Some(c)
            &&& c.threshold == threshold->0
            &&& c.neg_threshold == threshold
            &&& c.min_speech_ms == 0 && c.min_silence_ms == 0 && c.speech_pad_ms == 0
                && c.max_speech_ms == 0
            &&& c.sample_rate == 16_000
        },
{
    if let Some(n) = encoding {
        crate::binding::options::lemma_names_of_choices(n);
    }
    if let Some(n) = tap {
        crate::binding::options::lemma_names_of_choices(n);
    }
    crate::binding::options::lemma_names_of_choices(Seq::empty());
}

/// A plan that can be carried out has a detector with usable settings, which listens to an output
/// that is there, and the stream has the format of the second output.
pub proof fn lemma_plan_can_be_carried_out(plan: OpenPlan)
    requires
        plan.wf(),
    ensures
        plan.vad matches Some(cfg) ==> cfg.fault() is None,
        plan.vad_tap == VadTap::Secondary ==> plan.secondary is Some,
        plan.secondary is None ==> plan.config.secondary_output is None,
        plan.secondary matches Some(cfg) ==> plan.config.secondary_output == Some(
            OutputFormat { sample_rate: cfg.rate, channels: cfg.channels },
        ),
        plan.vad_rate() == 8000 || plan.vad_rate() == 16_000,
{
}

} // verus!
