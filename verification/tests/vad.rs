//! The detector: settings, segmentation, framing, streaming and the model around inference.

use flexaudio::level::Level;
use flexaudio::vad::config::{ConfigFault, VadConfig};
use flexaudio::vad::detector::{get_speech_timestamps, BatchFault, Outcome, PcmRoute, Vad};
use flexaudio::vad::engine::{
    accept_debug_duplicate_names, check_slots, locate_silero_inputs, locate_silero_outputs,
    model_frame, read_outputs, uniquify_names, SileroEngine, MODEL_INPUT_LEN, STATE_LEN,
};
use flexaudio::vad::error::{VadError, VadEvent};
use flexaudio::vad::pcm::{PcmConverter, PcmFormat};
use flexaudio::vad::segmenter::{Segment, Segmenter};

fn level(x: f32) -> Level {
    Level::from_bits(x.to_bits())
}

fn value(l: Level) -> f32 {
    f32::from_bits(l.bits)
}

fn run_probs(config: &VadConfig, probs: &[f32]) -> Vec<Segment> {
    let mut seg = Segmenter::new(config);
    let mut out = Vec::new();
    for &p in probs {
        seg.feed(level(p), &mut out);
    }
    seg.flush(&mut out);
    out
}

fn base_config() -> VadConfig {
    VadConfig {
        threshold: level(0.5),
        neg_threshold: Some(level(0.35)),
        min_speech_ms: 0,
        min_silence_ms: 0,
        speech_pad_ms: 0,
        max_speech_ms: 0,
        sample_rate: 16000,
    }
}

// --- settings ---

#[test]
fn neg_threshold_default_formula() {
    let mut c = VadConfig::default();
    assert_eq!(value(c.resolved_neg_threshold()), (0.5 - 0.15_f32).max(0.01));
    c.threshold = level(0.1);
    assert_eq!(value(c.resolved_neg_threshold()), 0.01);
    c.neg_threshold = Some(level(0.2));
    assert_eq!(value(c.resolved_neg_threshold()), 0.2);
}

#[test]
fn the_formula_agrees_with_floating_point_everywhere() {
    let mut thresholds: Vec<f32> = vec![
        0.0,
        -0.0,
        1.0,
        0.15,
        0.16,
        0.159_999_99,
        0.160_000_01,
        f32::MAX,
        f32::MIN_POSITIVE,
        f32::INFINITY,
        f32::NEG_INFINITY,
        -1.0,
        16_777_216.0,
        33_554_432.0,
        8_388_607.5,
    ];
    for i in 0..=10_000u32 {
        thresholds.push(i as f32 / 10_000.0);
    }
    let mut bits = 0u32;
    while bits < 0x7f80_0000 {
        thresholds.push(f32::from_bits(bits));
        bits += 65_521;
    }
    for t in thresholds {
        let c = VadConfig {
            threshold: level(t),
            ..VadConfig::default()
        };
        let want = (t - 0.15_f32).max(0.01);
        assert_eq!(
            c.resolved_neg_threshold().bits,
            want.to_bits(),
            "threshold {t}"
        );
    }
}

#[test]
fn levels_are_ordered_like_floating_point() {
    let values = [
        0.0f32,
        -0.0,
        1.0,
        -1.0,
        0.5,
        f32::MIN_POSITIVE,
        f32::INFINITY,
        f32::NEG_INFINITY,
        f32::NAN,
        0.35,
    ];
    for a in values {
        assert_eq!(level(a).is_finite(), a.is_finite());
        assert_eq!(level(a).is_nan(), a.is_nan());
        assert_eq!(level(a).in_unit(), (0.0..=1.0).contains(&a));
        for b in values {
            assert_eq!(level(a).at_least(level(b)), a >= b, "{a} >= {b}");
            assert_eq!(level(a).below(level(b)), a < b, "{a} < {b}");
        }
    }
}

#[test]
fn presets_have_their_values() {
    let a = VadConfig::aggressive();
    let b = VadConfig::balanced();
    let c = VadConfig::conservative();
    assert_eq!(b, VadConfig::default());
    assert!(value(a.threshold) != value(c.threshold));
    for cfg in [a, b, c] {
        assert!(cfg.validate().is_ok());
        assert_eq!(cfg.frame_size(), 512);
        assert_eq!(cfg.context_size(), 64);
    }
    let eight = VadConfig {
        sample_rate: 8000,
        ..b
    };
    assert_eq!((eight.frame_size(), eight.context_size()), (256, 32));
    assert_eq!(eight.ms_to_samples(250), 2000);
}

#[test]
fn invalid_sample_rate_rejected() {
    let c = VadConfig {
        sample_rate: 44100,
        ..VadConfig::default()
    };
    let fault = Vad::new(c).unwrap_err();
    assert_eq!(fault, ConfigFault::SampleRate(44100));
    assert!(matches!(
        VadError::of_fault(&fault, ""),
        VadError::InvalidConfig(_)
    ));
    assert_eq!(
        VadError::of_fault(&fault, "").message(),
        "invalid config: sample_rate must be 8000 or 16000, got 44100"
    );
}

#[test]
fn invalid_thresholds_rejected() {
    for t in [1.5f32, -0.1, f32::NAN] {
        let c = VadConfig {
            threshold: level(t),
            ..VadConfig::default()
        };
        let fault = Vad::new(c).unwrap_err();
        assert_eq!(fault, ConfigFault::Threshold(level(t)));
        assert_eq!(
            fault.message(&format!("{t}")),
            format!("threshold must be within [0.0, 1.0], got {t}")
        );
        let c = VadConfig {
            neg_threshold: Some(level(t)),
            ..VadConfig::default()
        };
        let fault = Vad::new(c).unwrap_err();
        assert_eq!(fault, ConfigFault::NegThreshold(level(t)));
        assert_eq!(
            fault.message(&format!("{t}")),
            format!("neg_threshold must be within [0.0, 1.0], got {t}")
        );
    }
}

// --- segmentation ---

#[test]
fn simple_speech_then_silence() {
    let mut c = base_config();
    c.min_silence_ms = 32;
    let mut probs = vec![0.9f32; 20];
    probs.extend(vec![0.1f32; 30]);
    let segs = run_probs(&c, &probs);
    assert_eq!(segs.len(), 1, "exactly one segment");
    let s = segs[0];
    assert_eq!(s.start_sample, 0);
    assert_eq!(s.end_sample, 20 * 512);
    assert_eq!(s.start_ms(16000), 0);
    assert_eq!(s.end_ms(16000), 640);
}

#[test]
fn min_speech_discards_short_segment() {
    let mut c = base_config();
    c.min_silence_ms = 32;
    c.min_speech_ms = 250;
    let mut probs = vec![0.9f32; 5];
    probs.extend(vec![0.1f32; 10]);
    let segs = run_probs(&c, &probs);
    assert!(
        segs.is_empty(),
        "short segment must be discarded, got {segs:?}"
    );

    let mut probs2 = vec![0.9f32; 10];
    probs2.extend(vec![0.1f32; 10]);
    let segs2 = run_probs(&c, &probs2);
    assert_eq!(segs2.len(), 1);
    assert_eq!(segs2[0].len_samples(), 10 * 512);
}

#[test]
fn min_silence_boundary_keeps_segment_together() {
    let mut c = base_config();
    c.min_silence_ms = 192;
    let mut probs = vec![0.9f32; 10];
    probs.extend(vec![0.1f32; 3]);
    probs.extend(vec![0.9f32; 10]);
    probs.extend(vec![0.1f32; 10]);
    let segs = run_probs(&c, &probs);
    assert_eq!(segs.len(), 1, "short gap must NOT split, got {segs:?}");
    assert_eq!(segs[0].start_sample, 0);
    assert_eq!(segs[0].end_sample, 23 * 512);
}

#[test]
fn min_silence_just_over_splits() {
    let mut c = base_config();
    c.min_silence_ms = 64;
    let mut probs = vec![0.9f32; 5];
    probs.extend(vec![0.1f32; 3]);
    probs.extend(vec![0.9f32; 5]);
    probs.extend(vec![0.1f32; 5]);
    let segs = run_probs(&c, &probs);
    assert_eq!(segs.len(), 2, "long gap must split into two, got {segs:?}");
    assert_eq!(segs[0].start_sample, 0);
    assert_eq!(segs[0].end_sample, 5 * 512);
}

#[test]
fn speech_pad_extends_and_clamps() {
    let mut c = base_config();
    c.min_silence_ms = 32;
    c.speech_pad_ms = 32;
    let mut probs = vec![0.1f32; 2];
    probs.extend(vec![0.9f32; 4]);
    probs.extend(vec![0.1f32; 5]);
    let segs = run_probs(&c, &probs);
    assert_eq!(segs.len(), 1);
    assert_eq!(segs[0].start_sample, 1024 - 512);
    assert_eq!(segs[0].end_sample, 6 * 512 + 512);
}

#[test]
fn speech_pad_start_clamps_at_zero() {
    let mut c = base_config();
    c.min_silence_ms = 32;
    c.speech_pad_ms = 64;
    let mut probs = vec![0.9f32; 5];
    probs.extend(vec![0.1f32; 5]);
    let segs = run_probs(&c, &probs);
    assert_eq!(segs.len(), 1);
    assert_eq!(segs[0].start_sample, 0, "start pad must clamp to 0");
}

#[test]
fn pad_does_not_overlap_previous_segment() {
    let mut c = base_config();
    c.min_silence_ms = 64;
    c.speech_pad_ms = 192;
    let mut probs = vec![0.9f32; 5];
    probs.extend(vec![0.1f32; 3]);
    probs.extend(vec![0.9f32; 5]);
    probs.extend(vec![0.1f32; 5]);
    let segs = run_probs(&c, &probs);
    assert_eq!(segs.len(), 2);
    assert!(
        segs[1].start_sample >= segs[0].end_sample,
        "seg1.start ({}) must be >= seg0.end ({})",
        segs[1].start_sample,
        segs[0].end_sample
    );
}

#[test]
fn max_speech_forces_split_when_no_silence() {
    let mut c = base_config();
    c.max_speech_ms = 192;
    c.min_silence_ms = 32;
    let probs = vec![0.9f32; 20];
    let segs = run_probs(&c, &probs);
    assert!(
        segs.len() >= 2,
        "max_speech must force at least one split, got {segs:?}"
    );
    for s in &segs {
        assert!(
            s.len_samples() <= c.ms_to_samples(c.max_speech_ms) + 512,
            "segment {s:?} exceeds max_speech by more than one frame"
        );
    }
}

#[test]
fn speech_is_not_cut_at_a_silence_where_it_starts() {
    let c = VadConfig {
        min_silence_ms: 320,
        max_speech_ms: 64,
        ..base_config()
    };
    let mut probs = vec![0.9f32; 3];
    probs.extend(vec![0.1; 3]);
    probs.extend(vec![0.9; 1]);
    let segs = run_probs(&c, &probs);
    assert_eq!(
        segs,
        vec![
            Segment {
                start_sample: 0,
                end_sample: 1536
            },
            Segment {
                start_sample: 1536,
                end_sample: 3072
            },
            Segment {
                start_sample: 3072,
                end_sample: 3584
            },
        ]
    );
    assert!(segs.iter().all(|s| s.len_samples() <= 1024 + 512));
}

#[test]
fn speech_that_is_too_long_is_cut_at_a_silence_within_it() {
    let c = VadConfig {
        min_silence_ms: 320,
        max_speech_ms: 96,
        ..base_config()
    };
    let segs = run_probs(&c, &[0.9, 0.9, 0.1, 0.1]);
    assert_eq!(segs[0].end_sample, 1024);
    assert_eq!(segs[1].start_sample, 1024);
}

#[test]
fn gray_zone_keeps_triggered() {
    let mut c = base_config();
    c.min_silence_ms = 32;
    let mut probs = vec![0.9f32; 5];
    probs.extend(vec![0.4f32; 5]);
    probs.extend(vec![0.9f32; 5]);
    probs.extend(vec![0.1f32; 5]);
    let segs = run_probs(&c, &probs);
    assert_eq!(segs.len(), 1, "gray zone must not split, got {segs:?}");
    assert_eq!(segs[0].end_sample, 15 * 512);
}

#[test]
fn silence_alone_gives_no_segment() {
    let mut seg = Segmenter::new(&base_config());
    let mut out = Vec::new();
    for _ in 0..100 {
        seg.feed(level(0.1), &mut out);
    }
    seg.flush(&mut out);
    assert!(out.is_empty());
    seg.feed(level(0.9), &mut out);
    seg.reset();
    seg.flush(&mut out);
    assert!(out.is_empty());
}

#[test]
fn positions_have_room_for_a_machine_word_of_samples() {
    let seg = Segmenter::new(&base_config());
    let most = (u64::MAX / 512) as usize;
    assert!(seg.has_room(0));
    assert!(seg.has_room(most));
    assert!(!seg.has_room(most + 1));
    assert!(!seg.has_room(usize::MAX));
    let vad = Vad::new(base_config()).unwrap();
    assert!(vad.has_room(most));
    assert!(!vad.has_room(most + 1));
}

// --- streaming, with what inference would give ---

fn outcomes(probs: &[f32]) -> Vec<Outcome> {
    probs.iter().map(|&p| Ok(level(p))).collect()
}

fn feed(vad: &mut Vad, samples: &[u32], prob: f32) -> Vec<VadEvent> {
    let n = vad.ready_frames(samples).len();
    vad.process(samples, &outcomes(&vec![prob; n]))
}

#[test]
fn zeros_produce_low_prob_no_speech() {
    let mut vad = Vad::new(VadConfig::default()).unwrap();
    let zeros = vec![0u32; 16000];
    let events = feed(&mut vad, &zeros, 0.01);
    assert!(
        !events
            .iter()
            .any(|e| matches!(e, VadEvent::SpeechStart { .. })),
        "silence must not trigger SpeechStart, got {events:?}"
    );
    let probs = vad.last_frame_probabilities();
    assert_eq!(probs.len(), 16000 / 512, "expected one prob per frame");
    for &p in probs {
        assert!((0.0..=1.0).contains(&value(p)));
        assert!(value(p) < 0.5);
    }
}

#[test]
fn process_streams_across_calls() {
    let mut vad = Vad::new(VadConfig::default()).unwrap();
    let total = 2048usize;
    let chunk = vec![0u32; 300];
    let mut fed = 0usize;
    let mut total_probs = 0usize;
    while fed < total {
        let take = chunk.len().min(total - fed);
        feed(&mut vad, &chunk[..take], 0.0);
        total_probs += vad.last_frame_probabilities().len();
        fed += take;
    }
    assert_eq!(
        total_probs,
        total / 512,
        "all complete frames must be inferred"
    );
}

#[test]
fn frames_are_cut_from_what_was_left_and_what_comes() {
    let mut vad = Vad::new(VadConfig::default()).unwrap();
    let all: Vec<u32> = (0..1400).collect();
    assert!(vad.ready_frames(&all[..500]).is_empty());
    feed(&mut vad, &all[..500], 0.0);
    let frames = vad.ready_frames(&all[500..]);
    assert_eq!(frames.len(), 2);
    assert_eq!(frames[0], all[..512].to_vec());
    assert_eq!(frames[1], all[512..1024].to_vec());
}

#[test]
fn reset_clears_state() {
    let mut vad = Vad::new(VadConfig::default()).unwrap();
    feed(&mut vad, &vec![0u32; 1000], 0.0);
    vad.reset();
    assert_eq!(vad.last_frame_probabilities().len(), 0);
    assert_eq!(vad.config().sample_rate, 16000);
    assert!(vad.ready_frames(&vec![0u32; 511]).is_empty());
}

#[test]
fn failed_inference_counts_as_silence() {
    let mut vad = Vad::new(VadConfig::default()).unwrap();
    let bad: Vec<Outcome> = vec![Err(VadError::Inference("x".to_string()))];
    assert!(vad.process(&vec![0u32; 512], &bad).is_empty());
    assert_eq!(vad.last_frame_probabilities(), &[level(0.0)]);
}

#[test]
fn batch_get_speech_timestamps_on_silence() {
    let segs =
        get_speech_timestamps(16_000, &outcomes(&vec![0.01; 31]), &VadConfig::default()).unwrap();
    assert!(segs.is_empty(), "silence yields no segments, got {segs:?}");
}

#[test]
fn batch_stops_at_the_first_failure() {
    let mut list = outcomes(&[0.9, 0.9]);
    list.push(Err(VadError::Inference("first".to_string())));
    list.push(Err(VadError::Inference("second".to_string())));
    match get_speech_timestamps(4 * 512, &list, &VadConfig::default()) {
        Err(BatchFault::Frame(e)) => assert_eq!(e.message(), "inference error: first"),
        other => panic!("unexpected {other:?}"),
    }
    let wrong = VadConfig {
        sample_rate: 1,
        ..VadConfig::default()
    };
    match get_speech_timestamps(4 * 512, &list, &wrong) {
        Err(BatchFault::Config(f)) => assert_eq!(f, ConfigFault::SampleRate(1)),
        other => panic!("unexpected {other:?}"),
    }
}

#[test]
fn streaming_and_batch_agree() {
    let cfg = VadConfig::default();
    let mut probs = vec![0.9f32; 20];
    probs.extend(vec![0.1; 10]);
    probs.extend(vec![0.8; 15]);
    let segs = get_speech_timestamps(45 * 512, &outcomes(&probs), &cfg).unwrap();
    let mut vad = Vad::new(cfg).unwrap();
    let mut events = vad.process(&vec![0u32; 45 * 512], &outcomes(&probs));
    events.extend(vad.flush());
    let mut want = Vec::new();
    for s in &segs {
        want.push(VadEvent::SpeechStart {
            at_sample: s.start_sample,
        });
        want.push(VadEvent::SpeechEnd {
            at_sample: s.end_sample,
        });
    }
    assert_eq!(segs.len(), 2);
    assert_eq!(events, want);
}

#[test]
fn open_speech_extends_to_the_end_of_the_input() {
    let segs =
        get_speech_timestamps(16_000, &outcomes(&vec![0.1; 31]), &all_speech(0)).unwrap();
    assert_eq!(
        segs,
        vec![Segment {
            start_sample: 0,
            end_sample: 16_000
        }]
    );
    // Speech that was closed before is not extended.
    let mut probs = vec![0.9f32; 20];
    probs.extend(vec![0.1; 11]);
    let segs = get_speech_timestamps(16_000, &outcomes(&probs), &base_config()).unwrap();
    assert_eq!(segs.len(), 1);
    assert_eq!(segs[0].end_sample, 20 * 512);
}

fn all_speech(min_speech_ms: u32) -> VadConfig {
    VadConfig {
        threshold: level(0.0),
        neg_threshold: Some(level(0.0)),
        min_speech_ms,
        min_silence_ms: 0,
        speech_pad_ms: 0,
        max_speech_ms: 0,
        sample_rate: 16_000,
    }
}

#[test]
fn flush_closes_open_speech_segment() {
    let mut vad = Vad::new(all_speech(0)).unwrap();
    let sig = vec![0.1f32.to_bits(); 16_000];
    let during = feed(&mut vad, &sig, 0.02);
    assert!(
        during.is_empty(),
        "no silence arrives, so process does not finalize a segment: {during:?}"
    );
    let flushed = vad.flush();
    assert_eq!(
        flushed.len(),
        2,
        "flush finalizes the open speech: {flushed:?}"
    );
    assert!(matches!(flushed[0], VadEvent::SpeechStart { at_sample: 0 }));
    assert!(matches!(flushed[1], VadEvent::SpeechEnd { .. }));

    let after = feed(&mut vad, &sig, 0.02);
    assert!(
        after.is_empty(),
        "after reset the new segment is not finalized: {after:?}"
    );
    let flushed2 = vad.flush();
    assert_eq!(flushed2.len(), 2);
    assert_eq!(
        flushed[0], flushed2[0],
        "after reset the start returns to a 0 origin: same input, same start"
    );
}

#[test]
fn flush_on_idle_returns_empty() {
    let mut vad = Vad::new(VadConfig::default()).unwrap();
    feed(&mut vad, &vec![0u32; 16_000], 0.01);
    let flushed = vad.flush();
    assert!(
        flushed.is_empty(),
        "flush with no speech is empty: {flushed:?}"
    );
}

#[test]
fn flush_discards_segment_shorter_than_min_speech() {
    let mut vad = Vad::new(all_speech(1_000)).unwrap();
    let sig = vec![0.1f32.to_bits(); 16_000 * 300 / 1000];
    feed(&mut vad, &sig, 0.02);
    let flushed = vad.flush();
    assert!(
        flushed.is_empty(),
        "an open segment shorter than min_speech is discarded even by flush: {flushed:?}"
    );
}

fn harmonics(rate: usize, n: usize) -> Vec<u32> {
    (0..n)
        .map(|i| {
            let t = i as f32 / rate as f32;
            let mut v = 0.0f32;
            for (k, f) in [180.0f32, 540.0, 1200.0, 2600.0].iter().enumerate() {
                v += (0.4 / (k as f32 + 1.0)) * (2.0 * std::f32::consts::PI * f * t).sin();
            }
            (v * 0.5).to_bits()
        })
        .collect()
}

#[test]
fn process_pcm_passthrough_matches_process() {
    let mut vad = Vad::new(VadConfig::default()).unwrap();
    assert_eq!(vad.route_pcm(16_000, 1), PcmRoute::Direct);
    assert_eq!(vad.route_pcm(16_000, 0), PcmRoute::Direct);
    assert_eq!(vad.route_pcm(16_000, 2), PcmRoute::Build);
    assert_eq!(vad.route_pcm(48_000, 2), PcmRoute::Build);
    vad.install_converter(48_000, 2);
    assert_eq!(vad.route_pcm(48_000, 2), PcmRoute::Convert);
    let converter = vad.take_converter().unwrap();
    assert!(converter.matches(PcmFormat {
        sample_rate: 48_000,
        channels: 2
    }));
    vad.put_converter(converter);
    // Another format drops the converter, and so does a reset.
    assert_eq!(vad.route_pcm(44_100, 2), PcmRoute::Build);
    assert!(vad.take_converter().is_none());
    vad.install_converter(48_000, 2);
    vad.reset();
    assert!(vad.take_converter().is_none());

    // What is passed on directly gives what processing gives.
    let sig = harmonics(16_000, 16_000);
    let given: Vec<f32> = (0..31).map(|k| if k < 12 { 0.9 } else { 0.05 }).collect();
    assert_eq!(vad.route_pcm(16_000, 1), PcmRoute::Direct);
    assert_eq!(vad.ready_frames(&sig).len(), given.len());
    let e_pcm = vad.process(&sig, &outcomes(&given));
    let p_pcm = vad.last_frame_probabilities().to_vec();

    vad.reset();
    let mut other = Vad::new(VadConfig::default()).unwrap();
    for detector in [&mut vad, &mut other] {
        let e_proc = detector.process(&sig, &outcomes(&given));
        let p_proc = detector.last_frame_probabilities().to_vec();
        assert_eq!(
            e_pcm, e_proc,
            "passthrough event sequence does not match process"
        );
        assert_eq!(
            p_pcm, p_proc,
            "passthrough probability sequence is not bit-identical to process"
        );
    }
    assert_eq!(p_pcm.len(), 16_000 / 512, "unexpected frame count");
    assert!(!e_pcm.is_empty());
}

// --- model ---

fn names(list: &[&str]) -> Vec<String> {
    list.iter().map(|s| s.to_string()).collect()
}

fn labels(list: &[Option<&str>]) -> Vec<Option<String>> {
    list.iter().map(|s| s.map(str::to_string)).collect()
}

#[test]
fn inputs_and_outputs_are_found_by_name() {
    assert_eq!(locate_silero_inputs(&names(&["input", "state"])), Ok((0, 1)));
    assert_eq!(locate_silero_inputs(&names(&["state", "input"])), Ok((1, 0)));
    assert_eq!(
        locate_silero_inputs(&names(&["input"]))
            .unwrap_err()
            .message(),
        "model load error: expected 2 inputs (input, state), got 1"
    );
    assert_eq!(
        locate_silero_inputs(&names(&["input", "s\"r"]))
            .unwrap_err()
            .message(),
        "model load error: unexpected model input \"s\\\"r\""
    );
    assert_eq!(
        locate_silero_inputs(&names(&["input", "input"]))
            .unwrap_err()
            .message(),
        "model load error: model inputs must be named 'input' and 'state'"
    );
    assert_eq!(
        locate_silero_outputs(&labels(&[Some("stateN"), Some("output")])),
        Ok((1, 0))
    );
    assert_eq!(
        locate_silero_outputs(&labels(&[Some("output"), Some("output")]))
            .unwrap_err()
            .message(),
        "model load error: duplicate model output name \"output\""
    );
    assert_eq!(
        locate_silero_outputs(&labels(&[Some("output"), None]))
            .unwrap_err()
            .message(),
        "model load error: model output 1 has no ONNX output name"
    );
    assert_eq!(
        locate_silero_outputs(&labels(&[Some("other"), Some("stateN")]))
            .unwrap_err()
            .message(),
        "model load error: unexpected model output \"other\""
    );
    assert_eq!(
        locate_silero_outputs(&labels(&[])).unwrap_err().message(),
        "model load error: expected 2 outputs (output, stateN), got 0"
    );
}

#[test]
fn repeated_names_are_numbered() {
    assert_eq!(
        uniquify_names(&names(&["a", "b", "a", "a"])),
        names(&["a", "b", "a#2", "a#3"])
    );
    // A name that was made earlier counts as seen.
    assert_eq!(
        uniquify_names(&names(&["a", "a", "a#1"])),
        names(&["a", "a#1", "a#1#2"])
    );
    // A name that is taken is numbered once more.
    assert_eq!(
        uniquify_names(&names(&["a#2", "a", "a"])),
        names(&["a#2", "a", "a#2#2"])
    );
    assert_eq!(
        uniquify_names(&names(&["x#3", "x#3#3", "x", "x"])),
        names(&["x#3", "x#3#3", "x", "x#3#3#3"])
    );
}

#[test]
fn duplicate_names_are_accepted_after_optimisation() {
    assert!(accept_debug_duplicate_names(Ok(())).is_ok());
    assert!(accept_debug_duplicate_names(Err("found duplicate name x".to_string())).is_ok());
    assert_eq!(
        accept_debug_duplicate_names(Err("broken".to_string()))
            .unwrap_err()
            .message(),
        "model load error: broken"
    );
}

#[test]
fn outputs_are_checked() {
    let state = vec![7u32; STATE_LEN];
    let good = vec![Ok(vec![0.75f32.to_bits()]), Ok(state.clone())];
    assert_eq!(
        read_outputs(&good, 0, 1),
        Ok((level(0.75), state.clone()))
    );
    let long = vec![Ok(vec![0, 0]), Ok(state.clone())];
    assert_eq!(
        read_outputs(&long, 0, 1).unwrap_err().message(),
        "inference error: unexpected 'output' length 2 (expected 1)"
    );
    let short = vec![Ok(vec![0]), Ok(vec![0; 3])];
    assert_eq!(
        read_outputs(&short, 0, 1).unwrap_err().message(),
        "inference error: unexpected 'stateN' length 3 (expected 256)"
    );
    assert_eq!(
        read_outputs(&good, 2, 1).unwrap_err().message(),
        "inference error: output index 2 for 'output' is out of range 2"
    );
    assert!(check_slots(0, 1).is_ok());
    assert_eq!(
        check_slots(2, 1).unwrap_err().message(),
        "inference error: unexpected input index input_ix=2 state_ix=1"
    );
}

#[test]
fn state_and_context_are_carried_from_frame_to_frame() {
    let mut engine = SileroEngine::new();
    let frame: Vec<u32> = (1..=512).collect();
    let input = engine.input(&frame);
    assert_eq!(input.len(), MODEL_INPUT_LEN);
    assert_eq!(input[..64], vec![0u32; 64][..]);
    assert_eq!(input[64..], frame[..]);
    assert_eq!(engine.state(), vec![0u32; STATE_LEN]);

    // A failure leaves both as they are.
    let failed = vec![Err("x".to_string()), Ok(vec![0; STATE_LEN])];
    assert!(engine.accept(&frame, &failed, 0, 1).is_err());
    assert_eq!(engine.input(&frame)[..64], vec![0u32; 64][..]);

    let answer = vec![Ok(vec![0.25f32.to_bits()]), Ok(vec![3u32; STATE_LEN])];
    assert_eq!(engine.accept(&frame, &answer, 0, 1), Ok(level(0.25)));
    assert_eq!(engine.state(), vec![3u32; STATE_LEN]);
    assert_eq!(engine.input(&frame)[..64], frame[448..]);
    engine.reset();
    assert_eq!(engine.state(), vec![0u32; STATE_LEN]);
}

#[test]
fn frames_at_8_khz_are_resampled_first() {
    assert_eq!(
        model_frame(16_000, vec![1; 512], None),
        Ok(vec![1; 512])
    );
    assert_eq!(
        model_frame(8_000, vec![1; 256], Some(Ok(vec![2; 512]))),
        Ok(vec![2; 512])
    );
    assert!(model_frame(8_000, vec![1; 256], Some(Ok(vec![2; 508]))).is_err());
    assert!(model_frame(8_000, vec![1; 256], Some(Err("x".to_string()))).is_err());
}

// --- recorded audio ---

#[test]
fn converters_know_their_chunk() {
    let c = PcmConverter::new(
        PcmFormat {
            sample_rate: 48_000,
            channels: 2,
        },
        16_000,
    );
    assert_eq!(c.resampler_chunk(), Some(960));
    assert_eq!(c.channels(), 2);
    let c = PcmConverter::new(
        PcmFormat {
            sample_rate: 1_000,
            channels: 0,
        },
        16_000,
    );
    assert_eq!(c.resampler_chunk(), Some(64));
    assert_eq!(c.channels(), 1);
}
