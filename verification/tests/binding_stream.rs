//! The bridge, the stop of a stream, its commands, and FLAC rotation.

use flexaudio::binding::bridge::{PairingBridge, SecondaryTapCfg, VadTap};
use flexaudio::binding::chunk::{
    AudioChunk, JsAudioChunk, SecEncoding, SecondaryChunk, SecondaryData,
};
use flexaudio::binding::errors::Status;
use flexaudio::binding::flac::FlacEncoder;
use flexaudio::binding::options::OpenOptions;
use flexaudio::binding::stop::{
    post_stop_flushed, CallStatus, FlexStream, PostNext, PostStep, StopOutcome, StopPhase,
};
use flexaudio::binding::stream::{
    sent, switched, BridgeCmd, BridgeStep, DeviceWatcherHandle, StreamSnapshot,
};
use flexaudio::binding::vad::Vad;
use flexaudio::level::Level;
use flexaudio::vad::config::ConfigFault;
use flexaudio::vad::error::VadEvent;

const MS: i64 = 1_000_000;

fn level(x: f32) -> Level {
    Level::from_bits(x.to_bits())
}

fn primary(seq: u64, pts_ms: i64) -> AudioChunk {
    AudioChunk {
        data: vec![0; 320],
        frames: 320,
        pts_ns: pts_ms * MS,
        seq,
        flags: 0,
        discontinuity: false,
        dropped_before: 0,
        peak: level(0.0),
        rms: level(0.0),
    }
}

fn secondary(seq: u64, pts_ms: i64) -> SecondaryChunk {
    SecondaryChunk {
        samples: vec![0.5f32.to_bits(); 320],
        frames: 320,
        pts_ns: pts_ms * MS,
        seq,
        flags: 2,
        discontinuity: false,
        dropped_before: 1,
        peak: level(0.5),
        rms: level(0.25),
    }
}

fn second_output(encoding: SecEncoding) -> Option<SecondaryTapCfg> {
    Some(SecondaryTapCfg {
        rate: 16_000,
        channels: 1,
        encoding,
    })
}

fn pairs(chunks: &[JsAudioChunk]) -> Vec<(u64, Option<u64>)> {
    chunks
        .iter()
        .map(|c| (c.seq, c.secondary.as_ref().map(|s| s.seq)))
        .collect()
}

// --- pairing ---

fn pairing_bridge() -> PairingBridge {
    PairingBridge::new(
        false,
        VadTap::Primary,
        16_000,
        48_000,
        2,
        second_output(SecEncoding::F32),
    )
}

#[test]
fn chunks_of_one_time_are_paired_in_order() {
    let mut bridge = pairing_bridge();
    for i in 0..3u64 {
        bridge.on_primary(primary(i, 20 * i as i64), &Vec::new());
        bridge.on_secondary(secondary(100 + i, 20 * i as i64), &Vec::new(), Vec::new());
    }
    let out = bridge.drain_pairs();
    assert_eq!(
        pairs(&out),
        vec![(0, Some(100)), (1, Some(101)), (2, Some(102))]
    );
    assert!(bridge.drain_pairs().is_empty());
}

#[test]
fn the_window_has_exact_ends() {
    // 30 ms before is in the window, one nanosecond more is not.
    let mut bridge = pairing_bridge();
    let mut old = secondary(1, 70);
    old.pts_ns -= 1;
    bridge.on_secondary(old, &Vec::new(), Vec::new());
    bridge.on_secondary(secondary(2, 70), &Vec::new(), Vec::new());
    bridge.on_primary(primary(0, 100), &Vec::new());
    assert_eq!(pairs(&bridge.drain_pairs()), vec![(0, Some(2))]);

    // 50 ms behind is too new, one nanosecond less is not.
    let mut bridge = pairing_bridge();
    bridge.on_secondary(secondary(1, 150), &Vec::new(), Vec::new());
    bridge.on_primary(primary(0, 100), &Vec::new());
    assert_eq!(pairs(&bridge.drain_pairs()), vec![(0, None)]);
    // It waits for the next primary chunk.
    bridge.on_primary(primary(1, 120), &Vec::new());
    assert_eq!(pairs(&bridge.drain_pairs()), vec![(1, Some(1))]);

    let mut bridge = pairing_bridge();
    let mut new = secondary(1, 150);
    new.pts_ns -= 1;
    bridge.on_secondary(new, &Vec::new(), Vec::new());
    bridge.on_primary(primary(0, 100), &Vec::new());
    assert_eq!(pairs(&bridge.drain_pairs()), vec![(0, Some(1))]);
}

#[test]
fn a_gap_does_not_shift_later_pairs() {
    let mut bridge = pairing_bridge();
    for i in 0..10u64 {
        bridge.on_secondary(secondary(i, 20 * i as i64), &Vec::new(), Vec::new());
    }
    // Primary chunks 1 to 6 were lost.
    bridge.on_primary(primary(0, 0), &Vec::new());
    bridge.on_primary(primary(7, 140), &Vec::new());
    bridge.on_primary(primary(8, 160), &Vec::new());
    let out = bridge.drain_pairs();
    assert_eq!(pairs(&out), vec![(0, Some(0)), (7, Some(6)), (8, Some(7))]);
    for chunk in &out {
        let s = chunk.secondary.as_ref().unwrap();
        assert!(s.pts_ns >= chunk.pts_ns - 30 * MS && s.pts_ns < chunk.pts_ns + 50 * MS);
    }
}

#[test]
fn extreme_times_are_paired_too() {
    let mut bridge = pairing_bridge();
    let mut first = primary(0, 0);
    first.pts_ns = i64::MIN;
    let mut last = primary(1, 0);
    last.pts_ns = i64::MAX;
    let mut s = secondary(5, 0);
    s.pts_ns = i64::MAX;
    bridge.on_primary(first, &Vec::new());
    bridge.on_primary(last, &Vec::new());
    bridge.on_secondary(s, &Vec::new(), Vec::new());
    assert_eq!(
        pairs(&bridge.drain_pairs()),
        vec![(0, None), (1, Some(5))]
    );
}

#[test]
fn secondary_chunks_are_encoded() {
    let mut bridge = PairingBridge::new(
        false,
        VadTap::Primary,
        16_000,
        48_000,
        2,
        second_output(SecEncoding::S16),
    );
    bridge.on_secondary(secondary(1, 0), &Vec::new(), vec![7, -7]);
    bridge.on_primary(primary(0, 0), &Vec::new());
    let out = bridge.drain_pairs();
    let s = out[0].secondary.as_ref().unwrap();
    assert_eq!(s.encoding(), "s16");
    assert_eq!(s.data, SecondaryData::S16(vec![7, -7]));
    assert_eq!((s.frames, s.flags, s.dropped_before), (320, 2, 1));
    assert_eq!((s.peak, s.rms), (level(0.5), level(0.25)));
    assert!(s.vad_events.is_none());

    let mut bridge = pairing_bridge();
    bridge.on_secondary(secondary(1, 0), &Vec::new(), vec![7, -7]);
    bridge.on_primary(primary(0, 0), &Vec::new());
    let out = bridge.drain_pairs();
    let s = out[0].secondary.as_ref().unwrap();
    assert_eq!(s.encoding(), "f32");
    assert_eq!(
        s.data,
        SecondaryData::F32(vec![0.5f32.to_bits(); 320])
    );
}

#[test]
fn secondary_chunks_without_a_second_output_are_ignored() {
    let mut bridge = PairingBridge::new(false, VadTap::Primary, 16_000, 48_000, 2, None);
    bridge.on_secondary(secondary(1, 0), &Vec::new(), Vec::new());
    bridge.on_primary(primary(0, 0), &Vec::new());
    assert_eq!(pairs(&bridge.drain_pairs()), vec![(0, None)]);
}

// --- boundaries of speech ---

fn listening_bridge() -> PairingBridge {
    PairingBridge::new(true, VadTap::Primary, 16_000, 16_000, 1, None)
}

fn times(chunk: &JsAudioChunk) -> Vec<(i64, Option<i64>)> {
    chunk
        .vad_events
        .as_ref()
        .unwrap()
        .iter()
        .map(|e| (e.at_sample, e.at_ns))
        .collect()
}

#[test]
fn boundaries_get_times_from_the_start_of_their_chunk() {
    let mut bridge = listening_bridge();
    bridge.on_primary(primary(0, 1000), &Vec::new());
    // The second chunk starts at position 320.
    let events = vec![
        VadEvent::SpeechStart { at_sample: 160 },
        VadEvent::SpeechEnd { at_sample: 480 },
    ];
    bridge.on_primary(primary(1, 1020), &events);
    let out = bridge.drain_pairs();
    assert_eq!(times(&out[0]), Vec::new());
    // One sample lasts 62500 ns.
    assert_eq!(
        times(&out[1]),
        vec![
            (160, Some(1020 * MS - 160 * 62_500)),
            (480, Some(1020 * MS + 160 * 62_500)),
        ]
    );
    assert_eq!(out[1].vad_events.as_ref().unwrap()[0].kind, "speechStart");
    assert_eq!(out[1].vad_events.as_ref().unwrap()[1].kind, "speechEnd");
}

#[test]
fn times_at_8_khz_count_longer_samples() {
    let mut bridge = PairingBridge::new(true, VadTap::Primary, 8_000, 48_000, 2, None);
    // 320 samples in two channels at 48 kHz are 160 frames, or 26 samples at 8 kHz.
    bridge.on_primary(primary(0, 0), &Vec::new());
    bridge.on_primary(primary(1, 20), &vec![VadEvent::SpeechStart { at_sample: 30 }]);
    let out = bridge.drain_pairs();
    assert_eq!(times(&out[1]), vec![(30, Some(20 * MS + 4 * 125_000))]);
}

#[test]
fn the_detector_starts_anew_after_a_gap() {
    let mut bridge = listening_bridge();
    bridge.on_primary(primary(0, 0), &Vec::new());
    assert!(!bridge.needs_vad_reset(false, 0));
    assert!(bridge.needs_vad_reset(true, 0));
    assert!(bridge.needs_vad_reset(false, 1));
    let mut after = primary(1, 500);
    after.dropped_before = 1;
    bridge.on_primary(after, &vec![VadEvent::SpeechStart { at_sample: 16 }]);
    assert!(!bridge.needs_vad_reset(false, 1));
    let out = bridge.drain_pairs();
    assert_eq!(times(&out[1]), vec![(16, Some(501 * MS))]);
}

#[test]
fn without_a_detector_nothing_is_attached_and_nothing_starts_anew() {
    let mut bridge = PairingBridge::new(false, VadTap::Primary, 16_000, 16_000, 1, None);
    assert!(!bridge.needs_vad_reset(true, 9));
    bridge.on_primary(primary(0, 0), &vec![VadEvent::SpeechStart { at_sample: 16 }]);
    bridge.flush_vad(&vec![VadEvent::SpeechStart { at_sample: 16 }]);
    bridge.on_primary(primary(1, 20), &Vec::new());
    let out = bridge.drain_pairs();
    assert!(out[0].vad_events.is_none());
    assert!(out[1].vad_events.is_none());
}

#[test]
fn flushed_boundaries_ride_in_front_of_the_next_chunk_once() {
    let mut bridge = listening_bridge();
    bridge.on_primary(primary(0, 100), &Vec::new());
    bridge.flush_vad(&vec![
        VadEvent::SpeechStart { at_sample: 0 },
        VadEvent::SpeechEnd { at_sample: 320 },
    ]);
    // The position counts from 0 again.
    bridge.on_primary(primary(1, 120), &vec![VadEvent::SpeechStart { at_sample: 32 }]);
    bridge.on_primary(primary(2, 140), &Vec::new());
    let out = bridge.drain_pairs();
    assert_eq!(
        times(&out[1]),
        vec![
            (0, Some(100 * MS)),
            (320, Some(120 * MS)),
            (32, Some(122 * MS)),
        ]
    );
    assert_eq!(times(&out[2]), Vec::new());
}

#[test]
fn times_of_boundaries_never_go_back() {
    let start = |at_sample| VadEvent::SpeechStart { at_sample };
    let end = |at_sample| VadEvent::SpeechEnd { at_sample };
    let mut bridge = listening_bridge();
    bridge.on_primary(primary(0, 0), &vec![start(16)]);
    // The second chunk reports a boundary that lies in the first.
    bridge.on_primary(primary(1, 20), &vec![end(160), start(400)]);
    bridge.flush_vad(&vec![end(640)]);
    // The detector counts from 0 again.
    bridge.on_primary(primary(2, 40), &vec![start(0), end(32)]);
    let mut gap = primary(3, 100);
    gap.discontinuity = true;
    bridge.on_primary(gap, &vec![start(0)]);
    let told: Vec<i64> = bridge
        .drain_pairs()
        .iter()
        .flat_map(times)
        .map(|(_, at_ns)| at_ns.unwrap())
        .collect();
    assert_eq!(
        told,
        vec![
            MS,
            10 * MS,
            25 * MS,
            40 * MS,
            40 * MS,
            42 * MS,
            100 * MS
        ]
    );
}

#[test]
fn boundaries_ride_on_secondary_chunks_where_the_detector_listens_there() {
    let mut bridge = PairingBridge::new(
        true,
        VadTap::Secondary,
        16_000,
        48_000,
        2,
        second_output(SecEncoding::S16),
    );
    bridge.flush_vad(&vec![VadEvent::SpeechEnd { at_sample: 16 }]);
    bridge.on_primary(primary(0, 0), &Vec::new());
    bridge.on_secondary(
        secondary(1, 0),
        &vec![VadEvent::SpeechStart { at_sample: 160 }],
        vec![1],
    );
    let out = bridge.drain_pairs();
    assert!(out[0].vad_events.is_none());
    let events = out[0]
        .secondary
        .as_ref()
        .unwrap()
        .vad_events
        .as_ref()
        .unwrap();
    assert_eq!(events.len(), 2);
    assert_eq!((events[0].at_sample, events[0].at_ns), (16, Some(MS)));
    assert_eq!((events[1].at_sample, events[1].at_ns), (160, Some(10 * MS)));

    let last = bridge.flush_vad_final(&vec![VadEvent::SpeechEnd { at_sample: 320 }]);
    assert!(last.vad_events.is_none());
    let carrier = last.secondary.unwrap();
    assert_eq!(carrier.encoding(), "s16");
    assert_eq!(carrier.data, SecondaryData::S16(Vec::new()));
    assert_eq!(carrier.frames, 0);
    assert_eq!(carrier.vad_events.unwrap()[0].at_ns, Some(20 * MS));
}

#[test]
fn the_terminator_always_comes_and_never_goes_back() {
    let mut bridge = PairingBridge::new(false, VadTap::Primary, 16_000, 48_000, 2, None);
    bridge.on_primary(primary(0, 40), &Vec::new());
    bridge.on_primary(primary(1, 60), &Vec::new());
    assert_eq!(bridge.drain_pairs().len(), 2);
    let last = bridge.flush_vad_final(&Vec::new());
    assert_eq!(last.frames, 0);
    assert!(last.data.is_empty());
    assert_eq!(last.pts_ns, 60 * MS);
    assert_eq!(last.vad_events.unwrap().len(), 0);
    assert!(last.secondary.is_none());

    let mut bridge = listening_bridge();
    bridge.on_primary(primary(0, 80), &Vec::new());
    bridge.flush_vad(&vec![VadEvent::SpeechStart { at_sample: 0 }]);
    assert_eq!(bridge.drain_pairs().len(), 1);
    let last = bridge.flush_vad_final(&vec![VadEvent::SpeechEnd { at_sample: 16 }]);
    assert_eq!(last.pts_ns, 80 * MS);
    assert_eq!(
        times(&last),
        vec![(0, Some(80 * MS)), (16, Some(81 * MS))]
    );
}

#[test]
fn times_that_do_not_fit_are_told_beforehand() {
    let bridge = listening_bridge();
    let fine = vec![VadEvent::SpeechStart { at_sample: 16 }];
    let far = vec![VadEvent::SpeechStart { at_sample: 1 << 60 }];
    assert!(bridge.accepts_primary(&primary(0, 0), &fine));
    assert!(!bridge.accepts_primary(&primary(0, 0), &far));
    assert!(bridge.accepts_flush(&fine));
    assert!(!bridge.accepts_flush(&far));
    assert!(bridge.accepts_secondary(&secondary(0, 0), &far));
}

// --- stop ---

#[test]
fn everyone_who_waits_for_the_stop_is_told_once() {
    let mut stream: FlexStream<u32> = FlexStream::spawn();
    assert!(!stream.needs_flush());
    assert!(matches!(stream.stop(1, false), StopOutcome::Work));
    assert!(stream.stop_requested());
    assert!(!stream.is_open());
    assert!(stream.needs_flush());
    assert!(matches!(stream.stop(2, false), StopOutcome::Wait));
    assert_eq!(stream.stop_flushed(), vec![1, 2]);
    assert!(!stream.needs_flush());
    assert!(stream.stop_flushed().is_empty());
    match stream.stop(3, false) {
        StopOutcome::Resolve(now) => assert_eq!(now, vec![3]),
        other => panic!("unexpected {other:?}"),
    }
}

#[test]
fn a_closed_queue_is_not_waited_for() {
    let mut stream: FlexStream<u32> = FlexStream::spawn();
    match stream.stop(1, true) {
        StopOutcome::Reap(now) => assert_eq!(now, vec![1]),
        other => panic!("unexpected {other:?}"),
    }
    assert!(!stream.needs_flush());

    let mut stream: FlexStream<u32> = FlexStream::spawn();
    assert!(stream.release());
    assert!(!stream.release());
    match stream.stop(4, false) {
        StopOutcome::Resolve(now) => assert_eq!(now, vec![4]),
        other => panic!("unexpected {other:?}"),
    }
}

#[test]
fn taking_the_waiters_ends_the_stop() {
    let mut phase: StopPhase<u8> = StopPhase::Running;
    assert!(phase.take_stop_waiters().is_empty());
    assert!(matches!(phase, StopPhase::Stopped));
    let mut phase = StopPhase::Stopping {
        waiters: vec![9u8, 8],
    };
    assert!(phase.needs_flush());
    assert_eq!(phase.take_stop_waiters(), vec![9, 8]);
    assert!(!phase.needs_flush());
}

#[test]
fn the_end_signal_falls_back() {
    let next = post_stop_flushed;
    let (accepted, closing, refused) =
        (CallStatus::Accepted, CallStatus::Closing, CallStatus::Refused);
    assert_eq!(next(PostStep::Chunk, accepted), PostNext::Done);
    assert_eq!(
        next(PostStep::Chunk, closing),
        PostNext::Try(PostStep::Settle)
    );
    assert_eq!(
        next(PostStep::Chunk, refused),
        PostNext::Try(PostStep::ChunkBlocking)
    );
    assert_eq!(next(PostStep::ChunkBlocking, accepted), PostNext::Done);
    assert_eq!(
        next(PostStep::ChunkBlocking, refused),
        PostNext::Try(PostStep::Settle)
    );
    assert_eq!(
        next(PostStep::ChunkBlocking, closing),
        PostNext::Try(PostStep::Settle)
    );
    assert_eq!(next(PostStep::Settle, accepted), PostNext::Done);
    assert_eq!(next(PostStep::Settle, closing), PostNext::Discard);
    assert_eq!(
        next(PostStep::Settle, refused),
        PostNext::Try(PostStep::SettleBlocking)
    );
    assert_eq!(next(PostStep::SettleBlocking, accepted), PostNext::Done);
    assert_eq!(next(PostStep::SettleBlocking, refused), PostNext::Discard);
}

// --- commands ---

fn options(kind: &str) -> OpenOptions {
    OpenOptions {
        kind: kind.to_string(),
        device_id: None,
        process_id: None,
        mode: None,
        exclude_self: None,
        output_rate: None,
        output_channels: None,
        chunk_ms: None,
        gain: None,
        mic_device_id: None,
        system_device_id: None,
        mic_gain: None,
        system_gain: None,
        vad: None,
        vad_tap: None,
        denoise: None,
        secondary_output: None,
    }
}

#[test]
fn commands_go_to_a_running_stream_only() {
    let mut stream: FlexStream<u32> = FlexStream::spawn();
    assert!(matches!(stream.pause(), Ok(BridgeCmd::Pause)));
    assert!(matches!(stream.resume(), Ok(BridgeCmd::Resume)));
    assert!(matches!(stream.flush_vad(), Ok(BridgeCmd::FlushVad)));
    assert!(matches!(stream.query_snapshot(), Ok(BridgeCmd::Query)));
    match stream.switch_source(&options("system")) {
        Ok(BridgeCmd::Switch(c)) => assert_eq!(c.output.sample_rate, 48_000),
        other => panic!("unexpected {other:?}"),
    }
    let _ = stream.stop(1, false);
    for err in [
        stream.pause().unwrap_err(),
        stream.resume().unwrap_err(),
        stream.flush_vad().unwrap_err(),
        stream.query_snapshot().unwrap_err(),
        stream.switch_source(&options("mic")).unwrap_err(),
        stream.set_gain(level(1.0), "1").unwrap_err(),
    ] {
        assert_eq!(err.status, Status::GenericFailure);
        assert_eq!(err.reason, "stream already stopped");
    }
    // What is wrong with the options comes first.
    let err = stream.switch_source(&options("nope")).unwrap_err();
    assert_eq!(err.status, Status::InvalidArg);
}

#[test]
fn gains_are_finite_and_not_negative() {
    let stream: FlexStream<u32> = FlexStream::spawn();
    for gain in [0.0f32, -0.0, 1.0, 2.5, f32::MAX] {
        match stream.set_gain(level(gain), "") {
            Ok(BridgeCmd::SetGain(g)) => assert_eq!(g, level(gain)),
            other => panic!("unexpected {other:?}"),
        }
    }
    for gain in [-1.0f32, f32::INFINITY, f32::NEG_INFINITY, f32::NAN, -1e-30] {
        let err = stream
            .set_gain(level(gain), &format!("{gain}"))
            .unwrap_err();
        assert_eq!(err.status, Status::InvalidArg);
        assert_eq!(
            err.reason,
            format!("gain must be finite and >= 0.0, got {gain}")
        );
    }
}

#[test]
fn answers_of_the_thread_are_read() {
    assert!(sent(true).is_ok());
    let err = sent(false).unwrap_err();
    assert_eq!(err.reason, "bridge thread is not running");
    assert!(switched(Some(Ok(()))).is_ok());
    let err = switched(Some(Err("no such device".to_string()))).unwrap_err();
    assert_eq!(err.reason, "no such device");
    let err = switched(None).unwrap_err();
    assert_eq!(err.status, Status::GenericFailure);
    assert_eq!(err.reason, "bridge thread dropped before responding");

    let snap = StreamSnapshot {
        is_paused: true,
        gain: level(2.0),
        native_sample_rate: 44_100,
        native_channels: 6,
        dropped_chunks: 12,
    };
    assert!(FlexStream::<u32>::is_paused(Some(snap)).unwrap());
    assert_eq!(FlexStream::<u32>::gain(Some(snap)).unwrap(), level(2.0));
    let format = FlexStream::<u32>::native_format(Some(snap)).unwrap();
    assert_eq!((format.sample_rate, format.channels), (44_100, 6));
    assert_eq!(FlexStream::<u32>::dropped_chunks(Some(snap)).unwrap(), 12);
    for err in [
        FlexStream::<u32>::is_paused(None).unwrap_err(),
        FlexStream::<u32>::gain(None).unwrap_err(),
        FlexStream::<u32>::native_format(None).unwrap_err(),
        FlexStream::<u32>::dropped_chunks(None).unwrap_err(),
    ] {
        assert_eq!(err.reason, "bridge thread dropped before responding");
    }
}

#[test]
fn the_thread_ends_in_order() {
    let mut step = BridgeStep::Check;
    for want in [
        BridgeStep::Commands,
        BridgeStep::Primaries,
        BridgeStep::Secondaries,
        BridgeStep::Deliver,
        BridgeStep::Events,
        BridgeStep::Sleep,
        BridgeStep::Check,
    ] {
        step = step.next(false);
        assert_eq!(step, want);
    }
    for want in [
        BridgeStep::LeftPrimaries,
        BridgeStep::LeftSecondaries,
        BridgeStep::DeliverLeft,
        BridgeStep::StopStream,
        BridgeStep::TailPrimaries,
        BridgeStep::TailSecondaries,
        BridgeStep::DeliverTail,
        BridgeStep::Terminate,
        BridgeStep::Post,
        BridgeStep::Done,
        BridgeStep::Done,
    ] {
        step = step.next(true);
        assert_eq!(step, want);
    }
}

#[test]
fn the_watch_is_joined_once() {
    let mut watch = DeviceWatcherHandle::spawn();
    assert!(watch.stop());
    assert!(!watch.stop());
}

// --- FLAC ---

#[test]
fn files_rotate_at_chunk_boundaries() {
    let mut enc = FlacEncoder::create("rec.flac", 100, 2, Some(1));
    assert_eq!(enc.format(), (100, 2));
    assert_eq!(enc.next_path().as_deref(), Some("rec-001.flac"));
    assert!(!enc.accepts(120));
    enc.opened();
    assert!(enc.accepts(120));
    assert_eq!(enc.next_path(), None);
    assert!(!enc.write_chunk(120)); // 60 frames
    assert!(enc.write_chunk(120)); // 120 frames, 20 more than asked for
    enc.rotated();
    assert_eq!(enc.next_path().as_deref(), Some("rec-002.flac"));
    enc.opened();
    assert!(enc.write_chunk(200)); // exactly full
    enc.rotated();
    assert_eq!(enc.next_path().as_deref(), Some("rec-003.flac"));
    assert!(!enc.finalize());
    enc.opened();
    assert!(enc.finalize());
    assert!(!enc.finalize());
}

#[test]
fn a_run_of_chunks_loses_nothing() {
    let mut enc = FlacEncoder::create("rec.flac", 100, 2, Some(1));
    let chunks = [120usize, 120, 60, 200, 20, 400, 10];
    let mut files = Vec::new();
    let mut current = 0;
    for len in chunks {
        if enc.next_path().is_some() {
            enc.opened();
        }
        current += len / 2;
        if enc.write_chunk(len) {
            enc.rotated();
            files.push(current);
            current = 0;
        }
    }
    assert_eq!(files, vec![120, 130, 210]);
    assert_eq!(current, 5);
    assert_eq!(enc.next_path(), None);
}

#[test]
fn a_file_that_could_not_be_closed_is_opened_again() {
    let mut enc = FlacEncoder::create("rec.flac", 10, 1, Some(1));
    enc.opened();
    assert!(enc.write_chunk(10));
    assert_eq!(enc.next_path().as_deref(), Some("rec-001.flac"));
}

#[test]
fn a_single_file_never_rotates() {
    for split in [None, Some(0)] {
        let mut enc = FlacEncoder::create("rec.flac", 10, 1, split);
        assert_eq!(enc.next_path().as_deref(), Some("rec.flac"));
        enc.opened();
        for _ in 0..100 {
            assert!(!enc.write_chunk(1000));
        }
        assert!(enc.finalize());
    }
}

// --- the detector of the script ---

#[test]
fn the_detector_of_the_script_shows_boundaries_without_times() {
    let options = flexaudio::binding::options::VadOptions {
        threshold: None,
        neg_threshold: None,
        min_speech_ms: Some(0),
        min_silence_ms: None,
        speech_pad_ms: Some(0),
        max_speech_ms: None,
        sample_rate: None,
    };
    let mut vad = Vad::new(&options).unwrap();
    let events = vad.process(
        &vec![0; 1024],
        &vec![Ok(level(0.9)), Ok(level(0.9))],
    );
    assert!(events.is_empty());
    let events = vad.flush();
    assert_eq!(events.len(), 2);
    assert_eq!((events[0].kind.as_str(), events[0].at_sample), ("speechStart", 0));
    assert_eq!((events[1].kind.as_str(), events[1].at_sample), ("speechEnd", 1024));
    assert_eq!(events[0].at_ns, None);
    vad.reset();
    assert!(vad.flush().is_empty());

    let mut wrong = options;
    wrong.sample_rate = Some(44_100);
    assert_eq!(
        Vad::new(&wrong).unwrap_err(),
        ConfigFault::SampleRate(44_100)
    );
}
