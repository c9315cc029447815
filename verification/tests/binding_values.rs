//! Values, options and errors as the script sees them.

use flexaudio::binding::bridge::VadTap;
use flexaudio::binding::chunk::{chunk_to_js, AudioChunk, SecEncoding};
use flexaudio::binding::convert::{
    device_event_to_js, device_info_to_js, devices, event_to_js, process_info_to_js,
    source_kind_str, vad_event_to_js, vad_event_to_js_abs, vad_events_to_js, Event, ProcessesTask,
};
use flexaudio::binding::errors::{
    denoise_err, encode_err, to_napi_err, unknown_choice, vad_err, DenoiseError, EncodeError,
    Status,
};
use flexaudio::binding::flac::split_flac_path;
use flexaudio::binding::open::{open_mock_stream, open_stream, OpenFault};
use flexaudio::binding::options::{
    build_config, build_integrated_vad_config, build_vad_config, check_denoise_rate,
    parse_process_mode, parse_sec_encoding, parse_source_kind, parse_vad_tap, OpenOptions,
    SecondaryOutputOptions, VadOptions, INTEGRATED_VAD_MAX_SPEECH_MS_DEFAULT,
};
use flexaudio::level::Level;
use flexaudio::types::{DeviceEvent, DeviceInfo, ProcessInfo, ProcessMode, SourceKind};
use flexaudio::vad::config::{ConfigFault, VadConfig};
use flexaudio::vad::error::{VadError, VadEvent};

fn level(x: f32) -> Level {
    Level::from_bits(x.to_bits())
}

// --- source kind ---

#[test]
fn source_kind_roundtrips() {
    for (s, k) in [
        ("mic", SourceKind::Mic),
        ("system", SourceKind::SystemLoopback),
        ("process", SourceKind::ProcessLoopback),
        ("mix", SourceKind::Mix),
    ] {
        assert_eq!(parse_source_kind(s).unwrap(), k);
        assert_eq!(source_kind_str(k), s);
    }
}

#[test]
fn parse_source_kind_rejects_unknown() {
    let err = parse_source_kind("bogus").unwrap_err();
    assert_eq!(err.status, Status::InvalidArg);
}

#[test]
fn unknown_kind_is_quoted_in_the_message() {
    let err = parse_source_kind("bo\"gus\n").unwrap_err();
    assert_eq!(
        err.reason,
        "unknown kind: \"bo\\\"gus\\n\" (expected mic|system|process|mix)"
    );
    let err = parse_source_kind("Mic").unwrap_err();
    assert_eq!(
        err.reason,
        "unknown kind: \"Mic\" (expected mic|system|process|mix)"
    );
}

#[test]
fn unknown_choice_joins_its_parts() {
    let err = unknown_choice("what ", "\"x\"", " (offered)");
    assert_eq!(err.status, Status::InvalidArg);
    assert_eq!(err.reason, "what \"x\" (offered)");
}

// --- process mode ---

#[test]
fn parse_process_mode_defaults_and_explicit() {
    assert_eq!(parse_process_mode(None).unwrap(), ProcessMode::Include);
    assert_eq!(
        parse_process_mode(Some("include")).unwrap(),
        ProcessMode::Include
    );
    assert_eq!(
        parse_process_mode(Some("exclude")).unwrap(),
        ProcessMode::Exclude
    );
}

#[test]
fn parse_process_mode_rejects_unknown() {
    let err = parse_process_mode(Some("nope")).unwrap_err();
    assert_eq!(err.status, Status::InvalidArg);
    assert_eq!(
        err.reason,
        "unknown mode: \"nope\" (expected include|exclude)"
    );
}

#[test]
fn taps_and_encodings_are_read() {
    assert_eq!(parse_vad_tap(None).unwrap(), VadTap::Primary);
    assert_eq!(parse_vad_tap(Some("primary")).unwrap(), VadTap::Primary);
    assert_eq!(parse_vad_tap(Some("secondary")).unwrap(), VadTap::Secondary);
    let err = parse_vad_tap(Some("third")).unwrap_err();
    assert_eq!(
        err.reason,
        "unknown vadTap: \"third\" (expected primary|secondary)"
    );
    assert_eq!(parse_sec_encoding(None).unwrap(), SecEncoding::F32);
    assert_eq!(parse_sec_encoding(Some("f32")).unwrap(), SecEncoding::F32);
    assert_eq!(parse_sec_encoding(Some("s16")).unwrap(), SecEncoding::S16);
    let err = parse_sec_encoding(Some("u8")).unwrap_err();
    assert_eq!(
        err.reason,
        "unknown secondaryOutput.encoding: \"u8\" (expected f32|s16)"
    );
}

// --- build_config ---

fn options_with_kind(kind: &str) -> OpenOptions {
    OpenOptions {
        kind: kind.to_string(),
        device_id: None,
        process_id: None,
        mode: None,
        exclude_self: None,
        output_rate: None,
        output_channels: None,
        chunk_ms: None,
        gain: None,
        mic_device_id: None,
        system_device_id: None,
        mic_gain: None,
        system_gain: None,
        vad: None,
        vad_tap: None,
        denoise: None,
        secondary_output: None,
    }
}

#[test]
fn build_config_defaults() {
    let opts = options_with_kind("mic");
    let cfg = build_config(&opts).unwrap();
    assert_eq!(cfg.kind, SourceKind::Mic);
    assert_eq!(cfg.output.sample_rate, 48_000);
    assert_eq!(cfg.output.channels, 2);
    assert_eq!(cfg.mode, ProcessMode::Include);
    assert!(!cfg.exclude_self);
    assert_eq!(cfg.target_pid, None);
    assert_eq!(cfg.device_id, None);
    assert_eq!(cfg.chunk_ms, 20);
    assert_eq!(cfg.gain, level(1.0));
    assert_eq!(cfg.mix_mic_device_id, None);
    assert_eq!(cfg.mix_system_device_id, None);
    assert_eq!(cfg.mix_mic_gain, level(1.0));
    assert_eq!(cfg.mix_system_gain, level(1.0));
    assert_eq!(cfg.secondary_output, None);
}

#[test]
fn build_config_reflects_all_fields() {
    let opts = OpenOptions {
        kind: "process".to_string(),
        device_id: Some("dev-x".to_string()),
        process_id: Some(9999),
        mode: Some("exclude".to_string()),
        exclude_self: Some(true),
        output_rate: Some(16_000),
        output_channels: Some(1),
        chunk_ms: Some(20),
        gain: Some(level(2.5)),
        mic_device_id: None,
        system_device_id: None,
        mic_gain: None,
        system_gain: None,
        vad: None,
        vad_tap: None,
        denoise: None,
        secondary_output: None,
    };
    let cfg = build_config(&opts).unwrap();
    assert_eq!(cfg.kind, SourceKind::ProcessLoopback);
    assert_eq!(cfg.device_id.as_deref(), Some("dev-x"));
    assert_eq!(cfg.target_pid, Some(9999));
    assert_eq!(cfg.mode, ProcessMode::Exclude);
    assert!(cfg.exclude_self);
    assert_eq!(cfg.output.sample_rate, 16_000);
    assert_eq!(cfg.output.channels, 1);
    assert_eq!(cfg.chunk_ms, 20);
    assert_eq!(cfg.gain, level(2.5));
}

#[test]
fn build_config_reflects_mix_fields() {
    let mut opts = options_with_kind("mix");
    opts.mic_device_id = Some("mic-a".to_string());
    opts.system_device_id = Some("sink-b".to_string());
    opts.mic_gain = Some(level(0.5));
    opts.system_gain = Some(level(2.0));
    let cfg = build_config(&opts).unwrap();
    assert_eq!(cfg.kind, SourceKind::Mix);
    assert_eq!(cfg.mix_mic_device_id.as_deref(), Some("mic-a"));
    assert_eq!(cfg.mix_system_device_id.as_deref(), Some("sink-b"));
    assert_eq!(cfg.mix_mic_gain, level(0.5));
    assert_eq!(cfg.mix_system_gain, level(2.0));
}

#[test]
fn build_config_rejects_unknown_kind() {
    let opts = options_with_kind("speaker");
    let err = build_config(&opts).unwrap_err();
    assert_eq!(err.status, Status::InvalidArg);
}

#[test]
fn build_config_looks_at_the_kind_before_the_mode() {
    let mut opts = options_with_kind("speaker");
    opts.mode = Some("nope".to_string());
    assert!(build_config(&opts)
        .unwrap_err()
        .reason
        .starts_with("unknown kind: "));
    opts.kind = "process".to_string();
    assert!(build_config(&opts)
        .unwrap_err()
        .reason
        .starts_with("unknown mode: "));
}

#[test]
fn chunk_length_is_taken_over() {
    let mut opts = options_with_kind("system");
    opts.chunk_ms = Some(35);
    assert_eq!(build_config(&opts).unwrap().chunk_ms, 35);
}

// --- errors ---

#[test]
fn to_napi_err_carries_message_and_status() {
    let shown = "device not found";
    let err = to_napi_err(shown);
    assert_eq!(err.status, Status::GenericFailure);
    assert_eq!(err.reason, shown);
    assert!(err.reason.contains("device not found"));
}

#[test]
fn error_mappers_carry_status() {
    let e = denoise_err(&DenoiseError::InvalidChannels(3), "channels");
    assert_eq!(e.status, Status::InvalidArg);
    let e = encode_err(&EncodeError::Unsupported("bad".to_string()), "bad");
    assert_eq!(e.status, Status::InvalidArg);
    let e = encode_err(&EncodeError::Encoder("boom".to_string()), "boom");
    assert_eq!(e.status, Status::GenericFailure);
    let e = vad_err(&VadError::InvalidConfig("nope".to_string()));
    assert_eq!(e.status, Status::InvalidArg);
    assert_eq!(e.reason, "invalid config: nope");
    let e = vad_err(&VadError::ModelLoad("x".to_string()));
    assert_eq!(e.status, Status::GenericFailure);
    assert_eq!(e.reason, "model load error: x");
}

// --- events and devices ---

#[test]
fn event_to_js_maps_each_variant() {
    let dropped = event_to_js(Event::ChunkDropped { count: 7 });
    assert_eq!(dropped.kind, "chunkDropped");
    assert_eq!(dropped.count, Some(7));
    assert_eq!(dropped.message, None);

    assert_eq!(event_to_js(Event::StreamStalled).kind, "stalled");
    assert_eq!(event_to_js(Event::StreamRecovered).kind, "recovered");
    assert_eq!(
        event_to_js(Event::PermissionDenied).kind,
        "permissionDenied"
    );
    assert_eq!(event_to_js(Event::DeviceLost).kind, "deviceLost");

    let errev = event_to_js(Event::Error("boom".to_string()));
    assert_eq!(errev.kind, "error");
    assert_eq!(errev.message, Some("boom".to_string()));
}

#[test]
fn unknown_events_are_not_swallowed() {
    let ev = event_to_js(Event::Other("Strange".to_string()));
    assert_eq!(ev.kind, "error");
    assert_eq!(ev.count, None);
    assert_eq!(ev.message, Some("unknown event: Strange".to_string()));
}

#[test]
fn large_counts_keep_their_bits() {
    let ev = event_to_js(Event::ChunkDropped { count: u64::MAX });
    assert_eq!(ev.count, Some(-1));
    let ev = event_to_js(Event::ChunkDropped { count: 1 << 63 });
    assert_eq!(ev.count, Some(i64::MIN));
}

#[test]
fn device_event_to_js_maps_variants() {
    let info = DeviceInfo {
        id: "node-1".to_string(),
        name: "Mic A".to_string(),
        source_kind: SourceKind::Mic,
        sample_rate: 48_000,
        channels: 2,
        is_loopback: false,
        is_default: true,
    };
    let added = device_event_to_js(DeviceEvent::Added(info));
    assert_eq!(added.kind, "added");
    let dev = added.device.expect("device present");
    assert_eq!(dev.id, "node-1");
    assert_eq!(dev.source_kind, "mic");
    assert!(dev.is_default);

    let removed = device_event_to_js(DeviceEvent::Removed {
        id: "gone".to_string(),
    });
    assert_eq!(removed.kind, "removed");
    assert_eq!(removed.id.as_deref(), Some("gone"));

    let changed = device_event_to_js(DeviceEvent::DefaultChanged {
        kind: SourceKind::SystemLoopback,
        id: "sink-2".to_string(),
    });
    assert_eq!(changed.kind, "defaultChanged");
    assert_eq!(changed.id.as_deref(), Some("sink-2"));
    assert_eq!(changed.source_kind.as_deref(), Some("system"));
}

#[test]
fn an_unknown_device_event_is_shown_as_unknown() {
    let js = device_event_to_js(DeviceEvent::Other);
    assert_eq!(js.kind, "unknown");
    assert!(js.device.is_none() && js.id.is_none() && js.source_kind.is_none());
}

fn device_x() -> DeviceInfo {
    DeviceInfo {
        id: "id-x".to_string(),
        name: "Name X".to_string(),
        source_kind: SourceKind::SystemLoopback,
        sample_rate: 44_100,
        channels: 1,
        is_loopback: true,
        is_default: false,
    }
}

#[test]
fn device_info_to_js_maps_all_fields() {
    let js = device_info_to_js(device_x());
    assert_eq!(js.id, "id-x");
    assert_eq!(js.name, "Name X");
    assert_eq!(js.source_kind, "system");
    assert_eq!(js.sample_rate, 44_100);
    assert_eq!(js.channels, 1);
    assert!(js.is_loopback);
    assert!(!js.is_default);
}

#[test]
fn lists_keep_their_order() {
    let mut second = device_x();
    second.id = "id-y".to_string();
    let js = devices(vec![device_x(), second]);
    assert_eq!(js.len(), 2);
    assert_eq!(js[0].id, "id-x");
    assert_eq!(js[1].id, "id-y");

    let found = vec![
        ProcessInfo {
            pid: 7,
            name: "Player".to_string(),
            executable: Some("player".to_string()),
            bundle_id: None,
            is_output_active: Some(true),
        },
        ProcessInfo {
            pid: 3,
            name: "Other".to_string(),
            executable: None,
            bundle_id: Some("com.example.other".to_string()),
            is_output_active: None,
        },
    ];
    let js = ProcessesTask.resolve(found);
    assert_eq!(js.len(), 2);
    assert_eq!(js[0].pid, 7);
    assert_eq!(js[0].executable.as_deref(), Some("player"));
    assert_eq!(js[0].is_output_active, Some(true));
    assert_eq!(js[1].pid, 3);
    assert_eq!(js[1].bundle_id.as_deref(), Some("com.example.other"));
    assert_eq!(js[1].is_output_active, None);
}

#[test]
fn process_info_to_js_maps_all_fields() {
    let js = process_info_to_js(ProcessInfo {
        pid: 41,
        name: "N".to_string(),
        executable: Some("n".to_string()),
        bundle_id: Some("b".to_string()),
        is_output_active: Some(false),
    });
    assert_eq!(js.pid, 41);
    assert_eq!(js.name, "N");
    assert_eq!(js.executable.as_deref(), Some("n"));
    assert_eq!(js.bundle_id.as_deref(), Some("b"));
    assert_eq!(js.is_output_active, Some(false));
}

// --- chunks ---

fn chunk_with_seq(seq: u64) -> AudioChunk {
    AudioChunk {
        data: vec![0.5f32.to_bits(), (-0.5f32).to_bits()],
        frames: 1,
        pts_ns: 20_000_000,
        seq,
        flags: 5,
        discontinuity: false,
        dropped_before: 9,
        peak: level(0.5),
        rms: level(0.25),
    }
}

#[test]
fn seq_u64_to_bigint_is_lossless() {
    let seq: u64 = 9_007_199_254_740_993; // 2^53 + 1.
    let js = chunk_to_js(chunk_with_seq(seq));
    assert_eq!(
        js.seq, seq,
        "seq value is kept losslessly (digits that f64 would lose)"
    );
    assert_eq!(chunk_to_js(chunk_with_seq(u64::MAX)).seq, u64::MAX);
}

#[test]
fn chunk_to_js_takes_everything_over() {
    let js = chunk_to_js(chunk_with_seq(3));
    assert_eq!(js.data, vec![0.5f32.to_bits(), (-0.5f32).to_bits()]);
    assert_eq!(js.frames, 1);
    assert_eq!(js.pts_ns, 20_000_000);
    assert_eq!(js.flags, 5);
    assert_eq!(js.dropped_before, 9);
    assert_eq!(js.peak, level(0.5));
    assert_eq!(js.rms, level(0.25));
    assert!(js.vad_events.is_none());
    assert!(js.secondary.is_none());
}

// --- detector options ---

fn empty_vad_options() -> VadOptions {
    VadOptions {
        threshold: None,
        neg_threshold: None,
        min_speech_ms: None,
        min_silence_ms: None,
        speech_pad_ms: None,
        max_speech_ms: None,
        sample_rate: None,
    }
}

#[test]
fn open_options_carries_vad_and_denoise() {
    let mut opts = options_with_kind("mic");
    opts.denoise = Some(true);
    opts.vad = Some(VadOptions {
        threshold: Some(level(0.4)),
        neg_threshold: None,
        min_speech_ms: None,
        min_silence_ms: None,
        speech_pad_ms: None,
        max_speech_ms: None,
        sample_rate: None,
    });
    let cfg = build_config(&opts).unwrap();
    assert_eq!(cfg.kind, SourceKind::Mic);
    assert_eq!(cfg.output.sample_rate, 48_000);
}

#[test]
fn build_vad_config_defaults_match_silero() {
    let cfg = build_vad_config(&empty_vad_options());
    let d = VadConfig::default();
    assert_eq!(cfg.threshold, d.threshold);
    assert_eq!(cfg.neg_threshold, None);
    assert_eq!(cfg.min_speech_ms, d.min_speech_ms);
    assert_eq!(cfg.min_silence_ms, d.min_silence_ms);
    assert_eq!(cfg.speech_pad_ms, d.speech_pad_ms);
    assert_eq!(cfg.max_speech_ms, d.max_speech_ms);
    assert_eq!(cfg.sample_rate, d.sample_rate);
}

#[test]
fn build_vad_config_reflects_all_fields() {
    let opts = VadOptions {
        threshold: Some(level(0.7)),
        neg_threshold: Some(level(0.2)),
        min_speech_ms: Some(120),
        min_silence_ms: Some(200),
        speech_pad_ms: Some(40),
        max_speech_ms: Some(5000),
        sample_rate: Some(8000),
    };
    let cfg = build_vad_config(&opts);
    assert_eq!(cfg.threshold, level(0.7));
    assert_eq!(cfg.neg_threshold, Some(level(0.2)));
    assert_eq!(cfg.min_speech_ms, 120);
    assert_eq!(cfg.min_silence_ms, 200);
    assert_eq!(cfg.speech_pad_ms, 40);
    assert_eq!(cfg.max_speech_ms, 5000);
    assert_eq!(cfg.sample_rate, 8000);
}

#[test]
fn integrated_vad_config_defaults_max_speech_to_30s() {
    let cfg = build_integrated_vad_config(&empty_vad_options());
    assert_eq!(cfg.max_speech_ms, INTEGRATED_VAD_MAX_SPEECH_MS_DEFAULT);
    assert_eq!(cfg.max_speech_ms, 30_000);
    let d = VadConfig::default();
    assert_eq!(cfg.threshold, d.threshold);
    assert_eq!(cfg.neg_threshold, None);
    assert_eq!(cfg.min_speech_ms, d.min_speech_ms);
    assert_eq!(cfg.min_silence_ms, d.min_silence_ms);
    assert_eq!(cfg.speech_pad_ms, d.speech_pad_ms);
    assert_eq!(cfg.sample_rate, d.sample_rate);
}

#[test]
fn integrated_vad_config_respects_explicit_max_speech() {
    let mut o = empty_vad_options();
    o.max_speech_ms = Some(5_000);
    assert_eq!(build_integrated_vad_config(&o).max_speech_ms, 5_000);
    o.max_speech_ms = Some(0);
    assert_eq!(build_integrated_vad_config(&o).max_speech_ms, 0);
}

#[test]
fn standalone_vad_config_keeps_silero_max_speech() {
    assert_eq!(build_vad_config(&empty_vad_options()).max_speech_ms, 0);
}

#[test]
fn denoise_requires_48k() {
    assert!(check_denoise_rate(true, 48_000).is_ok());
    let err = check_denoise_rate(true, 16_000).unwrap_err();
    assert_eq!(err.status, Status::InvalidArg);
    assert_eq!(
        err.reason,
        "denoise supports only 48000 Hz output (RNNoise is fixed at 48kHz); \
         it cannot be used with outputRate=16000"
    );
    assert!(check_denoise_rate(false, 16_000).is_ok());
    assert!(check_denoise_rate(false, 48_000).is_ok());
}

// --- numbered paths ---

#[test]
fn split_flac_path_numbering() {
    assert_eq!(split_flac_path("rec.flac", 1), "rec-001.flac");
    assert_eq!(split_flac_path("rec.flac", 12), "rec-012.flac");
    assert_eq!(split_flac_path("rec.flac", 1000), "rec-1000.flac");
    assert_eq!(split_flac_path("rec", 3), "rec-003");
    assert_eq!(
        split_flac_path("/tmp/out/meeting.flac", 2),
        "/tmp/out/meeting-002.flac"
    );
}

#[test]
fn split_flac_path_agrees_with_the_path_functions_of_std() {
    let bases = [
        "rec.flac",
        "rec",
        "rec.",
        ".rec",
        ".rec.flac",
        "a.b.flac",
        "/rec.flac",
        "/",
        "//",
        "//rec.flac",
        "",
        ".",
        "..",
        "...",
        "./rec.flac",
        "./",
        "./.",
        "../rec.flac",
        "a/..",
        "a/.",
        "a/./b.flac",
        "a/b/",
        "a//b.flac",
        "a//b.flac//",
        "a/b.flac/.",
        "a/b.flac/./",
        "/.",
        "/a/.",
        "./a/",
        "a.d/b",
        "\u{e4}/\u{f6}.flac",
        "a b/c d.flac",
    ];
    for base in bases {
        for index in [1u64, 9, 10, 99, 100, 999, 1000, u64::MAX] {
            let path = std::path::Path::new(base);
            let stem = match path.file_stem() {
                Some(s) => s.to_string_lossy().into_owned(),
                None => String::new(),
            };
            let name = match path.extension() {
                Some(ext) => format!("{stem}-{index:03}.{}", ext.to_string_lossy()),
                None => format!("{stem}-{index:03}"),
            };
            let want = path.with_file_name(name).to_string_lossy().into_owned();
            assert_eq!(split_flac_path(base, index), want, "base {base:?}");
        }
    }
}

// --- boundaries ---

#[test]
fn vad_event_to_js_maps_variants() {
    let start = vad_event_to_js(VadEvent::SpeechStart { at_sample: 512 });
    assert_eq!(start.kind, "speechStart");
    assert_eq!(start.at_sample, 512);
    assert_eq!(start.at_ns, None);
    let end = vad_event_to_js(VadEvent::SpeechEnd { at_sample: 4096 });
    assert_eq!(end.kind, "speechEnd");
    assert_eq!(end.at_sample, 4096);
    assert_eq!(end.at_ns, None);
}

#[test]
fn vad_event_to_js_abs_carries_recording_time() {
    let ev = vad_event_to_js_abs(VadEvent::SpeechEnd { at_sample: 8000 }, Some(1_500_000_000));
    assert_eq!(ev.kind, "speechEnd");
    assert_eq!(ev.at_sample, 8000);
    assert_eq!(ev.at_ns, Some(1_500_000_000));
}

#[test]
fn boundaries_keep_their_order() {
    let js = vad_events_to_js(&vec![
        VadEvent::SpeechStart { at_sample: 1 },
        VadEvent::SpeechEnd { at_sample: 2 },
    ]);
    assert_eq!(js.len(), 2);
    assert_eq!((js[0].kind.as_str(), js[0].at_sample), ("speechStart", 1));
    assert_eq!((js[1].kind.as_str(), js[1].at_sample), ("speechEnd", 2));
}

// --- opening ---

fn rejection(fault: OpenFault) -> String {
    match fault {
        OpenFault::Rejected(e) => {
            assert_eq!(e.status, Status::InvalidArg);
            e.reason
        }
        OpenFault::VadSetting(f) => panic!("unexpected {f:?}"),
    }
}

#[test]
fn open_stream_refuses_in_order() {
    let mut opts = options_with_kind("nope");
    opts.denoise = Some(true);
    opts.output_rate = Some(16_000);
    opts.vad_tap = Some("third".to_string());
    opts.secondary_output = Some(SecondaryOutputOptions {
        rate: 16_000,
        channels: 1,
        encoding: Some("u8".to_string()),
    });
    let mut vad = empty_vad_options();
    vad.sample_rate = Some(44_100);
    opts.vad = Some(vad);

    let reason = rejection(open_stream(&opts).unwrap_err());
    assert!(reason.starts_with("unknown kind: "));
    opts.kind = "mic".to_string();
    let reason = rejection(open_stream(&opts).unwrap_err());
    assert!(reason.starts_with("denoise supports only 48000 Hz output"));
    opts.output_rate = None;
    let reason = rejection(open_stream(&opts).unwrap_err());
    assert!(reason.starts_with("unknown secondaryOutput.encoding: \"u8\""));
    opts.secondary_output = None;
    let reason = rejection(open_stream(&opts).unwrap_err());
    assert!(reason.starts_with("unknown vadTap: \"third\""));
    opts.vad_tap = Some("secondary".to_string());
    let reason = rejection(open_stream(&opts).unwrap_err());
    assert_eq!(reason, "vadTap 'secondary' requires secondaryOutput");
    opts.vad_tap = None;
    match open_stream(&opts).unwrap_err() {
        OpenFault::VadSetting(f) => {
            assert_eq!(f, ConfigFault::SampleRate(44_100));
            let e = OpenFault::VadSetting(f).into_error("");
            assert_eq!(e.status, Status::InvalidArg);
            assert_eq!(
                e.reason,
                "invalid config: sample_rate must be 8000 or 16000, got 44100"
            );
        }
        OpenFault::Rejected(e) => panic!("unexpected {e:?}"),
    }
}

#[test]
fn open_stream_plans_everything_that_was_asked_for() {
    let mut opts = options_with_kind("system");
    opts.denoise = Some(true);
    opts.vad = Some(empty_vad_options());
    opts.vad_tap = Some("secondary".to_string());
    opts.secondary_output = Some(SecondaryOutputOptions {
        rate: 16_000,
        channels: 1,
        encoding: Some("s16".to_string()),
    });
    let plan = open_stream(&opts).unwrap();
    assert!(plan.denoise);
    assert_eq!(plan.vad_tap, VadTap::Secondary);
    assert_eq!(plan.vad.unwrap().max_speech_ms, 30_000);
    let secondary = plan.secondary.unwrap();
    assert_eq!(secondary.rate, 16_000);
    assert_eq!(secondary.channels, 1);
    assert_eq!(secondary.encoding, SecEncoding::S16);
    let second = plan.config.secondary_output.unwrap();
    assert_eq!((second.sample_rate, second.channels), (16_000, 1));

    let plain = open_stream(&options_with_kind("mic")).unwrap();
    assert!(!plain.denoise);
    assert_eq!(plain.vad_tap, VadTap::Primary);
    assert!(plain.vad.is_none());
    assert!(plain.secondary.is_none());
}

#[test]
fn open_mock_stream_plans_and_refuses() {
    let plan = open_mock_stream(
        48_000,
        2,
        Some(16_000),
        None,
        Some("s16"),
        Some(level(0.0)),
        Some("secondary"),
    )
    .unwrap();
    assert_eq!(plan.config.kind, SourceKind::Mic);
    assert_eq!(plan.config.output.sample_rate, 48_000);
    assert_eq!(plan.secondary.unwrap().channels, 1);
    let vad = plan.vad.unwrap();
    assert_eq!(vad.threshold, level(0.0));
    assert_eq!(vad.neg_threshold, Some(level(0.0)));
    assert_eq!((vad.min_speech_ms, vad.max_speech_ms), (0, 0));

    let fault = open_mock_stream(48_000, 2, None, None, None, None, Some("secondary"));
    assert_eq!(
        rejection(fault.unwrap_err()),
        "vadTap 'secondary' requires a secondary tap"
    );
    // The encoding is not looked at without a second output.
    assert!(open_mock_stream(48_000, 2, None, None, Some("u8"), None, None).is_ok());
    let fault = open_mock_stream(48_000, 2, None, None, None, Some(level(1.5)), None);
    match fault.unwrap_err() {
        OpenFault::VadSetting(f) => {
            assert_eq!(f, ConfigFault::Threshold(level(1.5)));
            assert_eq!(
                OpenFault::VadSetting(f).into_error("1.5").reason,
                "invalid config: threshold must be within [0.0, 1.0], got 1.5"
            );
        }
        OpenFault::Rejected(e) => panic!("unexpected {e:?}"),
    }
}
