//! Core Audio and WASAPI: versions, errors, devices, processes, setup and backends.

use flexaudio::backend::Ready;
use flexaudio::macos::backend::{
    system_tap, translate_answer, MacProcessBackend, MacSystemBackend, TapAnswer, TapQuestion,
};
use flexaudio::macos::devices::{
    all_device_ids, default_output_device, device_channels, is_output_device,
    list_output_devices as mac_output_devices, object_count, settle_attempt, uid_for_device_name,
    written_objects, Attempt, DeviceFacts,
};
use flexaudio::macos::processes::{
    list_processes as mac_processes, path_len, read_scalar, ProcessFacts,
};
use flexaudio::macos::status::{map_os_status, BAD_PROPERTY_SIZE, FALLBACK_FORMAT};
use flexaudio::macos::tap::{
    format_is_float, interleave, scratch_len, tap_native_format, Answer, TapChain, TapKind, Undo,
};
use flexaudio::macos::version::{ensure_process_tap_supported, meets_min_version};
use flexaudio::types::{Error, ProcessMode, SourceKind};
use flexaudio::windows::common::{
    after_packet_size, classify_hr, decide_packet, map_hr, map_process_activation_err,
    parse_mix_format, uninit_on_drop, LoopStep, MixFormat, Packet, AUDCLNT_E_DEVICE_INVALIDATED,
    AUDCLNT_E_DEVICE_IN_USE, AUDCLNT_E_EXCLUSIVE_MODE_NOT_ALLOWED, E_ACCESSDENIED, E_NOINTERFACE,
    E_NOTFOUND, E_NOTIMPL, EXTENSION_SIZE, KSDATAFORMAT_SUBTYPE_IEEE_FLOAT,
    WAVE_FORMAT_EXTENSIBLE, WAVE_FORMAT_IEEE_FLOAT,
};
use flexaudio::windows::process::{
    fixed_process_format, init_failure, loopback_mode, HrFailure, InitStep, Setup, SetupEvent,
    WasapiProcessBackend,
};
use flexaudio::windows::processes::{
    collect_sessions, display_stem, list_processes as windows_processes, make_process,
    read_session, Endpoint, SessionFacts, SessionRecord, SessionState,
};
use flexaudio::windows::system::{
    friendly_name, list_output_devices as windows_output_devices, resolve_render_endpoint,
    EndpointFacts, SystemEvent, SystemSetup, WasapiSystemBackend,
};
use flexaudio::windows::version::{
    ensure_process_loopback_supported, process_loopback_supported,
};

fn backend_text(e: Error) -> String {
    match e {
        Error::Backend(m) => m,
        other => panic!("unexpected {other:?}"),
    }
}

// --- Core Audio: status and version ---

#[test]
fn map_os_status_maps_known_codes() {
    assert!(matches!(
        map_os_status("x", 0x6e6f7065),
        Error::PermissionDenied
    ));
    assert!(matches!(
        map_os_status("x", 0x21646576),
        Error::DeviceNotFound
    ));
    assert!(matches!(map_os_status("x", 0x73746f70), Error::Backend(_)));
    let e = map_os_status("ctx", i32::from_be_bytes(*b"abcd"));
    assert!(format!("{e:?}").contains("abcd"));
}

#[test]
fn fallback_format_is_48k_stereo() {
    assert_eq!(FALLBACK_FORMAT, (48_000, 2));
}

#[test]
fn version_14_3_is_unsupported() {
    assert!(!meets_min_version(14, 3));
    assert!(!meets_min_version(14, 0));
    assert!(!meets_min_version(13, 9));
}

#[test]
fn version_14_4_is_supported() {
    assert!(meets_min_version(14, 4));
}

#[test]
fn newer_versions_are_supported() {
    assert!(meets_min_version(14, 5));
    assert!(meets_min_version(15, 0));
    assert!(meets_min_version(26, 6));
}

#[test]
fn higher_major_with_low_minor_is_supported() {
    assert!(meets_min_version(15, 0));
    assert!(meets_min_version(99, 0));
}

#[test]
fn an_old_system_is_an_error_of_its_own() {
    assert!(ensure_process_tap_supported(14, 4).is_ok());
    assert!(matches!(
        ensure_process_tap_supported(14, 3),
        Err(Error::UnsupportedOsVersion)
    ));
}

// --- Core Audio: devices ---

fn facts(id: u32, name: Option<&str>) -> DeviceFacts {
    DeviceFacts {
        id,
        is_output: true,
        name: name.map(str::to_string),
        uid: Some(format!("uid-{id}")),
        sample_rate: Some(44_100),
        channels: Some(2),
    }
}

#[test]
fn list_output_devices_is_well_formed() {
    let mut input = facts(3, Some("Mic"));
    input.is_output = false;
    let mut bare = facts(4, Some("Bare"));
    bare.sample_rate = None;
    bare.channels = None;
    let all = vec![facts(1, Some("Speakers")), facts(2, None), input, bare];
    let devices = mac_output_devices(&all, 4);
    assert!(devices.len() >= 2);
    for d in &devices {
        assert_eq!(d.source_kind, SourceKind::SystemLoopback);
        assert!(d.is_loopback);
        assert!(!d.id.is_empty());
        assert_eq!(d.id, d.name);
        assert!(d.sample_rate > 0);
        assert!(d.channels > 0);
    }
    assert_eq!(devices[0].name, "Speakers");
    assert_eq!(devices[0].sample_rate, 44_100);
    assert!(!devices[0].is_default);
    let last = devices.last().unwrap();
    assert_eq!(last.name, "Bare");
    assert_eq!((last.sample_rate, last.channels), FALLBACK_FORMAT);
    assert!(last.is_default);
    assert!(devices.iter().all(|d| d.name != "Mic"));
}

#[test]
fn all_device_ids_distinguishes_failure_from_empty_list() {
    fn empty_reader(_: u32) -> Result<Vec<u32>, i32> {
        Ok(Vec::new())
    }

    fn failing_reader(_: u32) -> Result<Vec<u32>, i32> {
        Err(-1)
    }

    fn permission_denied_reader(_: u32) -> Result<Vec<u32>, i32> {
        Err(0x6e6f7065)
    }

    let empty = all_device_ids(empty_reader);
    assert!(matches!(empty, Ok(ids) if ids.is_empty()));

    match all_device_ids(failing_reader) {
        Err(Error::Backend(message)) => {
            assert_eq!(message, "AudioObjectGetPropertyData(Devices): OSStatus -1")
        }
        other => panic!("expected OSStatus-bearing error, got {other:?}"),
    }

    assert!(matches!(
        all_device_ids(permission_denied_reader),
        Err(Error::PermissionDenied)
    ));
}

#[test]
fn uid_for_unknown_device_is_none() {
    let all = vec![facts(1, Some("Speakers"))];
    assert_eq!(
        uid_for_device_name(&all, "flexaudio-no-such-output-device-xyzzy"),
        None
    );
    assert_eq!(
        uid_for_device_name(&all, "Speakers").as_deref(),
        Some("uid-1")
    );
}

#[test]
fn lists_that_change_are_read_again_four_times_at_most() {
    assert!(matches!(
        settle_attempt(1, Err(BAD_PROPERTY_SIZE)),
        Attempt::Again
    ));
    assert!(matches!(
        settle_attempt(3, Err(BAD_PROPERTY_SIZE)),
        Attempt::Again
    ));
    match settle_attempt(4, Err(BAD_PROPERTY_SIZE)) {
        Attempt::Done(r) => assert_eq!(r, Err(BAD_PROPERTY_SIZE)),
        other => panic!("unexpected {other:?}"),
    }
    match settle_attempt(1, Err(-50)) {
        Attempt::Done(r) => assert_eq!(r, Err(-50)),
        other => panic!("unexpected {other:?}"),
    }
    match settle_attempt(1, Ok(vec![7])) {
        Attempt::Done(r) => assert_eq!(r, Ok(vec![7])),
        other => panic!("unexpected {other:?}"),
    }
    assert_eq!(object_count(11), 2);
    assert_eq!(written_objects(vec![1, 2, 3], 8), vec![1, 2]);
    assert_eq!(written_objects(vec![1, 2], 400), vec![1, 2]);
}

#[test]
fn answers_about_devices_are_read() {
    assert!(is_output_device(0, 4));
    assert!(!is_output_device(0, 0));
    assert!(!is_output_device(-1, 4));
    assert_eq!(default_output_device(0, 9), 9);
    assert_eq!(default_output_device(-1, 9), 0);
    assert_eq!(device_channels(&vec![2, 6]), Some(8));
    assert_eq!(device_channels(&vec![]), None);
    assert_eq!(device_channels(&vec![0, 0]), None);
}

// --- Core Audio: processes ---

fn process(pid: Option<i32>, path: Option<&str>) -> ProcessFacts {
    ProcessFacts {
        pid,
        bundle_id: Some("com.example.player".to_string()),
        running_output: Some(1),
        path: path.map(str::to_string),
    }
}

#[test]
fn list_processes_is_gated_and_well_formed() {
    let found = Ok(vec![
        process(Some(12), Some("/Applications/Player.app/Contents/MacOS/Player")),
        process(Some(0), None),
        process(Some(-1), None),
        process(None, None),
        process(Some(13), None),
    ]);
    let list = mac_processes((14, 4), &found).unwrap();
    for p in &list {
        assert_ne!(p.pid, 0);
    }
    assert_eq!(list.len(), 2);
    assert_eq!(list[0].executable.as_deref(), Some("Player"));
    assert_eq!(list[0].bundle_id.as_deref(), Some("com.example.player"));
    assert_eq!(list[0].is_output_active, Some(true));
    assert!(matches!(
        mac_processes((14, 3), &found),
        Err(Error::UnsupportedOsVersion)
    ));
    assert!(matches!(
        mac_processes((15, 0), &Err(0x6e6f7065)),
        Err(Error::PermissionDenied)
    ));
}

#[test]
fn scalars_and_paths_are_read() {
    assert_eq!(read_scalar(0, 4, 4, 9), Some(9));
    assert_eq!(read_scalar(-1, 4, 4, 9), None);
    assert_eq!(read_scalar(0, 2, 4, 9), None);
    assert_eq!(path_len(0), None);
    assert_eq!(path_len(-1), None);
    assert_eq!(path_len(17), Some(17));
}

// --- Core Audio: taps and backends ---

#[test]
fn a_tap_is_built_and_torn_down_in_order() {
    let chain = TapChain::Empty.advance(Answer::Tap(0, 5)).unwrap();
    let chain = chain.advance(Answer::Float(Some(true))).unwrap();
    let chain = chain.advance(Answer::Aggregate(0, 6)).unwrap();
    let chain = chain.advance(Answer::IoProc(0, true)).unwrap();
    let chain = chain.advance(Answer::Start(0)).unwrap();
    assert_eq!(
        chain.teardown(),
        vec![
            Undo::Stop(6),
            Undo::DestroyIoProc(6),
            Undo::DestroyAggregate(6),
            Undo::DestroyTap(5),
        ]
    );
}

#[test]
fn a_tap_that_fails_halfway_is_undone() {
    let failure = TapChain::Empty.advance(Answer::Tap(-1, 0)).unwrap_err();
    assert!(failure.undo.is_empty());
    assert_eq!(
        backend_text(failure.error),
        "AudioHardwareCreateProcessTap: OSStatus -1"
    );
    let failure = TapChain::Empty.advance(Answer::Tap(0, 0)).unwrap_err();
    assert_eq!(
        backend_text(failure.error),
        "AudioHardwareCreateProcessTap returned null tap id"
    );

    let chain = TapChain::Empty.advance(Answer::Tap(0, 5)).unwrap();
    let failure = chain.advance(Answer::Float(Some(false))).unwrap_err();
    assert_eq!(failure.undo, vec![Undo::DestroyTap(5)]);
    assert!(matches!(failure.error, Error::Backend(_)));

    let chain = TapChain::Empty.advance(Answer::Tap(0, 5)).unwrap();
    let chain = chain.advance(Answer::Float(Some(true))).unwrap();
    let chain = chain.advance(Answer::Aggregate(0, 6)).unwrap();
    let failure = chain.advance(Answer::IoProc(0, false)).unwrap_err();
    assert_eq!(
        failure.undo,
        vec![Undo::DestroyAggregate(6), Undo::DestroyTap(5)]
    );
}

#[test]
fn planes_are_interleaved() {
    let mut out = vec![99; 50];
    assert!(interleave(
        &vec![Some(vec![1, 2, 3]), Some(vec![10, 20, 30])],
        &mut out
    ));
    assert_eq!(out, vec![1, 10, 2, 20, 3, 30]);
    // The shortest channel sets the number of frames.
    assert!(interleave(&vec![Some(vec![1, 2, 3]), Some(vec![10])], &mut out));
    assert_eq!(out, vec![1, 10]);
    assert!(interleave(&vec![Some(vec![4, 5])], &mut out));
    assert_eq!(out, vec![4, 5]);
    assert!(!interleave(&vec![], &mut out));
    assert!(out.is_empty());
    assert!(!interleave(&vec![Some(vec![4]), None], &mut out));
    assert!(!interleave(&vec![Some(vec![4]), Some(vec![])], &mut out));
    assert_eq!(tap_native_format(44_100, 6), Some((44_100, 6)));
    assert_eq!(tap_native_format(0, 2), None);
    assert_eq!(tap_native_format(48_000, 0), None);
    assert!(format_is_float(1));
    assert!(!format_is_float(4));
    assert_eq!(scratch_len(Some((48_000, 2))), 9_600);
}

#[test]
fn what_is_tapped_is_decided_by_the_answer() {
    match system_tap(TapAnswer::OwnObject(Ok(77))) {
        Ok(TapKind::ExcludeProcesses(ids)) => assert_eq!(ids, vec![77]),
        other => panic!("unexpected {other:?}"),
    }
    match system_tap(TapAnswer::OwnObject(Ok(0))) {
        Ok(TapKind::ExcludeProcesses(ids)) => assert!(ids.is_empty()),
        other => panic!("unexpected {other:?}"),
    }
    match system_tap(TapAnswer::DeviceUid(Ok(Some("uid".to_string())))) {
        Ok(TapKind::ExcludeProcessesOnDevice { ids, device_uid }) => {
            assert!(ids.is_empty());
            assert_eq!(device_uid, "uid");
        }
        other => panic!("unexpected {other:?}"),
    }
    assert_eq!(translate_answer(0, 8), Ok(8));
    assert!(translate_answer(-1, 8).is_err());
}

#[test]
fn process_new_and_native_format_do_not_panic() {
    let backend = MacProcessBackend::new(1234, ProcessMode::Include);
    let (rate, channels) = backend.native_format();
    assert!(rate > 0);
    assert!(channels > 0);
    assert_eq!(backend.target_pid(), 1234);
    assert_eq!(backend.mode(), ProcessMode::Include);
}

#[test]
fn process_start_then_stop_tolerates_missing_target() {
    let mut backend = MacProcessBackend::new(0xFFFF_FFFE, ProcessMode::Include);
    assert_eq!(backend.decide_start((14, 4)), Ok(true));
    assert!(matches!(
        backend.process_tap(Err(Error::DeviceNotFound)),
        Err(Error::DeviceNotFound)
    ));
    assert!(backend.settle_start(Ready::Running).is_ok());
    assert!(backend.stop());
    assert!(!backend.stop());
    assert!(matches!(
        backend.decide_start((14, 3)),
        Err(Error::UnsupportedOsVersion)
    ));

    let mut backend = WasapiProcessBackend::new(0xFFFF_FFFE, ProcessMode::Include);
    assert!(backend.decide_start());
    assert!(matches!(
        backend.settle_start(Ready::Failed(Error::UnsupportedOsVersion)),
        Err(Error::UnsupportedOsVersion)
    ));
    assert!(backend.settle_start(Ready::Running).is_ok());
    assert!(!backend.decide_start());
    assert!(backend.stop());
    assert!(!backend.stop());
}

#[test]
fn system_new_and_native_format_do_not_panic() {
    let backend = MacSystemBackend::new(false, None);
    let (rate, channels) = backend.native_format();
    assert!(rate > 0);
    assert!(channels > 0);

    let backend = WasapiSystemBackend::new(false, None, None);
    let (rate, channels) = backend.native_format();
    assert!(rate > 0);
    assert!(channels > 0);
    let backend = WasapiSystemBackend::new(false, None, Some((44_100, 6)));
    assert_eq!(backend.native_format(), (44_100, 6));
}

#[test]
fn start_then_stop_tolerates_failure() {
    let mut backend = MacSystemBackend::new(false, None);
    assert!(matches!(
        backend.decide_start((14, 4)),
        Ok(Some(TapQuestion::Nothing))
    ));
    assert!(matches!(
        backend.settle_start(Ready::Failed(Error::PermissionDenied)),
        Err(Error::PermissionDenied)
    ));
    assert!(backend.settle_start(Ready::Running).is_ok());
    assert!(matches!(backend.decide_start((14, 4)), Ok(None)));
    assert!(backend.stop());
    assert!(!backend.stop());
}

#[test]
fn new_exclude_self_start_then_stop_tolerates_failure() {
    let mut backend = MacSystemBackend::new(true, None);
    let (rate, channels) = backend.native_format();
    assert!(rate > 0);
    assert!(channels > 0);
    assert!(matches!(
        backend.decide_start((15, 0)),
        Ok(Some(TapQuestion::OwnObject))
    ));
    assert!(matches!(
        system_tap(TapAnswer::OwnObject(Err(Error::PermissionDenied))),
        Err(Error::PermissionDenied)
    ));
    assert!(backend.settle_start(Ready::Running).is_ok());
    assert!(backend.stop());
    assert!(!backend.stop());
}

#[test]
fn new_with_unknown_device_id_returns_device_not_found() {
    let backend =
        MacSystemBackend::new(false, Some("flexaudio-no-such-output-device-xyzzy".into()));
    match backend.decide_start((14, 4)) {
        Ok(Some(TapQuestion::DeviceUid(name))) => {
            assert_eq!(name, "flexaudio-no-such-output-device-xyzzy")
        }
        other => panic!("unexpected {other:?}"),
    }
    assert!(matches!(
        system_tap(TapAnswer::DeviceUid(Ok(None))),
        Err(Error::DeviceNotFound)
    ));
    assert!(matches!(
        backend.decide_start((13, 0)),
        Err(Error::UnsupportedOsVersion)
    ));
}

// --- WASAPI: result codes ---

#[test]
fn result_codes_have_their_published_bits() {
    assert_eq!(E_ACCESSDENIED as u32, 0x8007_0005);
    assert_eq!(AUDCLNT_E_DEVICE_IN_USE as u32, 0x8889_000A);
    assert_eq!(AUDCLNT_E_EXCLUSIVE_MODE_NOT_ALLOWED as u32, 0x8889_000E);
    assert_eq!(AUDCLNT_E_DEVICE_INVALIDATED as u32, 0x8889_0004);
    assert_eq!(E_NOTFOUND as u32, 0x8007_0490);
    assert_eq!(E_NOTIMPL as u32, 0x8000_4001);
    assert_eq!(E_NOINTERFACE as u32, 0x8000_4002);
}

#[test]
fn constants_are_those_of_the_windows_crate() {
    let foundation = [
        (windows::Win32::Foundation::E_ACCESSDENIED.0, E_ACCESSDENIED),
        (windows::Win32::Foundation::E_NOTIMPL.0, E_NOTIMPL),
        (windows::Win32::Foundation::E_NOINTERFACE.0, E_NOINTERFACE),
        (
            windows::Win32::Media::Audio::AUDCLNT_E_DEVICE_IN_USE.0,
            AUDCLNT_E_DEVICE_IN_USE,
        ),
        (
            windows::Win32::Media::Audio::AUDCLNT_E_EXCLUSIVE_MODE_NOT_ALLOWED.0,
            AUDCLNT_E_EXCLUSIVE_MODE_NOT_ALLOWED,
        ),
        (
            windows::Win32::Media::Audio::AUDCLNT_E_DEVICE_INVALIDATED.0,
            AUDCLNT_E_DEVICE_INVALIDATED,
        ),
    ];
    for (theirs, ours) in foundation {
        assert_eq!(theirs, ours);
    }
    assert_eq!(
        windows::Win32::Media::Multimedia::KSDATAFORMAT_SUBTYPE_IEEE_FLOAT.to_u128(),
        KSDATAFORMAT_SUBTYPE_IEEE_FLOAT
    );
    assert_eq!(
        windows::Win32::Media::Multimedia::WAVE_FORMAT_IEEE_FLOAT,
        WAVE_FORMAT_IEEE_FLOAT as u32
    );
    assert_eq!(
        windows::Win32::Media::KernelStreaming::WAVE_FORMAT_EXTENSIBLE,
        WAVE_FORMAT_EXTENSIBLE as u32
    );
    assert_eq!(EXTENSION_SIZE, 22);
}

#[test]
fn classify_hr_maps_access_denied_to_permission_denied() {
    assert!(matches!(
        classify_hr(0x80070005u32 as i32),
        Some(Error::PermissionDenied)
    ));
    assert!(matches!(
        classify_hr(0x8889000Au32 as i32),
        Some(Error::PermissionDenied)
    ));
    assert!(matches!(
        classify_hr(0x8889000Eu32 as i32),
        Some(Error::PermissionDenied)
    ));
}

#[test]
fn classify_hr_maps_device_codes_to_device_not_found() {
    assert!(matches!(
        classify_hr(0x88890004u32 as i32),
        Some(Error::DeviceNotFound)
    ));
    assert!(matches!(
        classify_hr(0x80070490u32 as i32),
        Some(Error::DeviceNotFound)
    ));
}

#[test]
fn classify_hr_unknown_is_none() {
    assert!(classify_hr(0x80004005u32 as i32).is_none());
    assert!(classify_hr(0).is_none());
    assert!(classify_hr(0x88890008u32 as i32).is_none());
}

#[test]
fn result_codes_become_errors() {
    assert_eq!(
        backend_text(map_hr("Activate", 0x80004005u32 as i32, "Unspecified error")),
        "Activate: Unspecified error"
    );
    assert!(matches!(
        map_hr("Activate", E_ACCESSDENIED, "denied"),
        Error::PermissionDenied
    ));
    assert!(matches!(
        map_process_activation_err("x", E_NOTIMPL, ""),
        Error::UnsupportedOsVersion
    ));
    assert!(matches!(
        map_process_activation_err("x", E_NOINTERFACE, ""),
        Error::UnsupportedOsVersion
    ));
    assert!(matches!(
        map_process_activation_err("x", E_NOTFOUND, ""),
        Error::DeviceNotFound
    ));
}

#[test]
fn mix_formats_are_floating_point() {
    let float = MixFormat {
        tag: 3,
        rate: 44_100,
        channels: 2,
        bits: 32,
        extension: 0,
        subformat: 0,
    };
    assert_eq!(parse_mix_format(Some(float)), Ok((44_100, 2)));
    let extended = MixFormat {
        tag: 0xfffe,
        extension: 22,
        subformat: KSDATAFORMAT_SUBTYPE_IEEE_FLOAT,
        ..float
    };
    assert_eq!(parse_mix_format(Some(extended)), Ok((44_100, 2)));
    let short = MixFormat {
        extension: 21,
        ..extended
    };
    assert_eq!(
        backend_text(parse_mix_format(Some(short)).unwrap_err()),
        "unsupported mix format (not IEEE float): tag=65534 bits=32"
    );
    let integers = MixFormat {
        subformat: 0x00000001_0000_0010_8000_00aa00389b71,
        ..extended
    };
    assert!(parse_mix_format(Some(integers)).is_err());
    let pcm = MixFormat {
        tag: 1,
        bits: 16,
        ..float
    };
    assert_eq!(
        backend_text(parse_mix_format(Some(pcm)).unwrap_err()),
        "unsupported mix format (not IEEE float): tag=1 bits=16"
    );
    assert_eq!(
        backend_text(parse_mix_format(None).unwrap_err()),
        "GetMixFormat returned null format"
    );
}

#[test]
fn packets_are_passed_on_or_skipped() {
    assert_eq!(decide_packet(480, 2, false, true), Packet::Samples(960));
    assert_eq!(decide_packet(480, 2, true, false), Packet::Silence(960));
    assert_eq!(decide_packet(480, 2, false, false), Packet::Skip);
    assert_eq!(decide_packet(0, 2, true, true), Packet::Skip);
    assert_eq!(decide_packet(480, 0, false, true), Packet::Samples(480));
    assert_eq!(after_packet_size(Some(1)), LoopStep::Take);
    assert_eq!(after_packet_size(Some(0)), LoopStep::Wait);
    assert_eq!(after_packet_size(None), LoopStep::Stop);
    assert!(uninit_on_drop(0));
    assert!(uninit_on_drop(1));
    assert!(!uninit_on_drop(0x80010106u32 as i32));
}

// --- WASAPI: processes ---

#[test]
fn display_stem_strips_exe_case_insensitively() {
    assert_eq!(display_stem("chrome.exe"), "chrome");
    assert_eq!(display_stem("Spotify.EXE"), "Spotify");
    assert_eq!(display_stem("noext"), "noext");
    assert_eq!(display_stem(".exe"), ".exe");
}

fn session(pid: u32, state: SessionState) -> SessionFacts {
    SessionFacts {
        readable: true,
        system_sounds: false,
        pid: Some(pid),
        state: Some(state),
    }
}

#[test]
fn list_processes_does_not_panic() {
    let mut sounds = session(5, SessionState::Active);
    sounds.system_sounds = true;
    let endpoints = vec![
        Endpoint::Failed(Error::PermissionDenied),
        Endpoint::Sessions(vec![
            session(0, SessionState::Active),
            session(9, SessionState::Expired),
            sounds,
            session(7, SessionState::Active),
            session(8, SessionState::Inactive),
        ]),
    ];
    let list = windows_processes(Ok(22_000), endpoints, |pid| {
        if pid == 7 {
            Some("C:\\Apps\\Player.exe".to_string())
        } else {
            None
        }
    })
    .unwrap();
    for p in &list {
        assert_ne!(p.pid, 0);
        assert_eq!(p.bundle_id, None);
    }
    assert_eq!(list.len(), 2);
    assert_eq!(list[0].pid, 7);
    assert_eq!(list[0].executable.as_deref(), Some("Player.exe"));
    assert_eq!(list[0].name, "Player");
    assert_eq!(list[0].is_output_active, Some(true));
    assert_eq!(list[1].is_output_active, Some(false));
    assert!(matches!(
        windows_processes(Ok(19_045), Vec::new(), |_| None),
        Err(Error::UnsupportedOsVersion)
    ));
}

#[test]
fn sessions_are_lost_only_where_all_endpoints_fail() {
    assert!(collect_sessions(Vec::new()).unwrap().is_empty());
    assert!(matches!(
        collect_sessions(vec![Endpoint::Failed(Error::PermissionDenied)]),
        Err(Error::PermissionDenied)
    ));
    assert_eq!(
        read_session(&session(3, SessionState::Active)),
        Some(SessionRecord {
            pid: 3,
            active: Some(true)
        })
    );
    let mut unreadable = session(3, SessionState::Active);
    unreadable.readable = false;
    assert_eq!(read_session(&unreadable), None);
    let record = SessionRecord {
        pid: 3,
        active: None,
    };
    let p = make_process(&record, None);
    assert_eq!((p.pid, p.name.as_str()), (3, ""));
}

// --- WASAPI: devices ---

fn endpoint(name: Option<&str>) -> Option<EndpointFacts> {
    Some(EndpointFacts {
        name: name.map(str::to_string),
        format: Some((44_100, 2)),
    })
}

#[test]
fn list_output_devices_does_not_panic() {
    let endpoints = vec![
        endpoint(Some("Speakers")),
        None,
        endpoint(None),
        endpoint(Some("Headset")),
    ];
    let devices = windows_output_devices(&endpoints, &Some("Headset".to_string()));
    for d in &devices {
        assert!(d.is_loopback);
        assert_eq!(d.source_kind, SourceKind::SystemLoopback);
    }
    assert_eq!(devices[0].name, "Speakers");
    assert!(!devices[0].is_default);
    assert!(devices.last().unwrap().is_default);
    assert_eq!(friendly_name(Some(String::new())), None);
}

#[test]
fn start_with_unknown_device_id_is_device_not_found() {
    let backend = WasapiSystemBackend::new(false, Some("no-such-endpoint".into()), None);
    let name = backend.endpoint_name().unwrap();
    assert!(matches!(
        resolve_render_endpoint(&vec![endpoint(Some("Speakers"))], name),
        Err(Error::DeviceNotFound)
    ));
    assert_eq!(
        resolve_render_endpoint(
            &vec![None, endpoint(Some("Speakers")), endpoint(Some("Speakers"))],
            "Speakers"
        ),
        Ok(1)
    );
}

#[test]
fn new_with_device_id_does_not_panic() {
    let backend = WasapiSystemBackend::new(false, Some("no-such-endpoint".into()), None);
    let (rate, channels) = backend.native_format();
    assert!(rate > 0);
    assert!(channels > 0);
}

#[test]
fn new_exclude_self_native_is_fixed() {
    let backend = WasapiSystemBackend::new(true, Some("ignored".into()), Some((44_100, 6)));
    assert_eq!(backend.native_format(), (48_000, 2));
}

#[test]
fn start_then_stop_tolerates_missing_endpoint() {
    let mut backend = WasapiSystemBackend::new(false, None, None);
    assert!(backend.decide_start());
    assert!(matches!(
        backend.settle_start(Ready::Failed(Error::DeviceNotFound)),
        Err(Error::DeviceNotFound)
    ));
    assert!(backend.settle_start(Ready::Running).is_ok());
    assert!(backend.stop());
    assert!(!backend.stop());
}

#[test]
fn start_then_stop_exclude_self_tolerates_failure() {
    let mut backend = WasapiSystemBackend::new(true, None, None);
    assert!(backend.decide_start());
    assert!(matches!(
        backend.settle_start(Ready::Vanished),
        Err(Error::Backend(_))
    ));
    assert!(backend.settle_start(Ready::Running).is_ok());
    assert!(backend.stop());
    assert!(!backend.stop());
}

// --- WASAPI: process loopback ---

#[test]
fn new_and_native_format_are_fixed() {
    let backend = WasapiProcessBackend::new(1234, ProcessMode::Include);
    assert_eq!(backend.native_format(), (48_000, 2));
    assert_eq!(backend.target_pid(), 1234);
    assert_eq!(backend.mode(), ProcessMode::Include);
}

#[test]
fn build_below_20348_is_unsupported() {
    assert!(!process_loopback_supported(0));
    assert!(!process_loopback_supported(19_045));
    assert!(!process_loopback_supported(20_347));
}

#[test]
fn build_20348_is_the_boundary() {
    assert!(process_loopback_supported(20_348));
}

#[test]
fn newer_builds_are_supported() {
    assert!(process_loopback_supported(22_000));
    assert!(process_loopback_supported(26_000));
    assert!(process_loopback_supported(u32::MAX));
}

#[test]
fn builds_that_cannot_be_had_are_an_error() {
    assert!(ensure_process_loopback_supported(Ok(20_348)).is_ok());
    assert!(matches!(
        ensure_process_loopback_supported(Ok(20_347)),
        Err(Error::UnsupportedOsVersion)
    ));
    assert!(matches!(
        ensure_process_loopback_supported(Err(-1073741823)),
        Err(Error::Backend(_))
    ));
}

fn failure(code: i32) -> HrFailure {
    HrFailure {
        code,
        shown: "text".to_string(),
    }
}

#[test]
fn process_loopback_is_set_up_step_by_step() {
    let s = Setup::Version
        .advance(SetupEvent::Build(Ok(22_000)))
        .unwrap();
    let s = s.advance(SetupEvent::Call(Ok(()))).unwrap();
    assert_eq!(s, Setup::Activate);
    assert!(s.holds_event());
    let s = s.advance(SetupEvent::Call(Ok(()))).unwrap();
    assert_eq!(s, Setup::Wait);
    let s = s.advance(SetupEvent::Signalled(true)).unwrap();
    assert!(!s.holds_event());
    let s = s.advance(SetupEvent::Call(Ok(()))).unwrap();
    let s = s.advance(SetupEvent::Result(Ok(()), true)).unwrap();
    assert_eq!(s, Setup::Cast);
    let s = s.advance(SetupEvent::Call(Ok(()))).unwrap();
    assert_eq!(s, Setup::Ready);

    assert_eq!(
        backend_text(Setup::Wait.advance(SetupEvent::Signalled(false)).unwrap_err()),
        "process loopback activation timed out"
    );
    assert_eq!(
        backend_text(
            Setup::Take
                .advance(SetupEvent::Result(Ok(()), false))
                .unwrap_err()
        ),
        "activation returned null interface"
    );
    assert!(matches!(
        Setup::Activate.advance(SetupEvent::Call(Err(failure(E_NOTIMPL)))),
        Err(Error::UnsupportedOsVersion)
    ));
    assert_eq!(
        backend_text(
            Setup::Event
                .advance(SetupEvent::Call(Err(failure(-1))))
                .unwrap_err()
        ),
        "CreateEventW(activation done): text"
    );
}

#[test]
fn the_format_of_process_loopback_is_fixed() {
    let f = fixed_process_format();
    assert_eq!((f.tag, f.channels, f.rate), (3, 2, 48_000));
    assert_eq!((f.block_align, f.bits), (8, 32));
    assert_eq!(f.bytes_per_second, 384_000);
    assert_eq!(f.extension, 0);
    assert_eq!(loopback_mode(ProcessMode::Include), 0);
    assert_eq!(loopback_mode(ProcessMode::Exclude), 1);
    let (e, _) = init_failure(InitStep::Initialize, &failure(-1));
    assert!(matches!(e, Error::Backend(_)));
}

#[test]
fn an_endpoint_is_set_up_step_by_step() {
    let mix = MixFormat {
        tag: WAVE_FORMAT_IEEE_FLOAT,
        rate: 44_100,
        channels: 6,
        bits: 32,
        extension: 0,
        subformat: 0,
    };
    let s = SystemSetup::Enumerate
        .advance(SystemEvent::Call(Ok(())))
        .unwrap();
    assert_eq!(s, SystemSetup::Resolve);
    let s = s.advance(SystemEvent::Settled(Ok(()))).unwrap();
    assert_eq!(s, SystemSetup::Activate);
    let s = s.advance(SystemEvent::Call(Ok(()))).unwrap();
    assert_eq!(s, SystemSetup::Format);
    assert!(!s.holds_format());
    let s = s.advance(SystemEvent::Call(Ok(()))).unwrap();
    assert_eq!(s, SystemSetup::Check);
    assert!(s.holds_format());
    let s = s.advance(SystemEvent::Mix(Some(mix))).unwrap();
    assert_eq!(s, SystemSetup::Initialize { channels: 6 });
    assert!(s.holds_format());
    let s = s.advance(SystemEvent::Settled(Ok(()))).unwrap();
    assert_eq!(s, SystemSetup::Ready { channels: 6 });
    assert!(!s.holds_format());
}

#[test]
fn every_step_of_an_endpoint_has_its_error() {
    let text = |s: SystemSetup, e: SystemEvent| backend_text(s.advance(e).unwrap_err());
    let call = || SystemEvent::Call(Err(failure(-1)));
    assert_eq!(
        text(SystemSetup::Enumerate, call()),
        "CoCreateInstance(MMDeviceEnumerator): text"
    );
    assert_eq!(
        text(SystemSetup::Activate, call()),
        "IMMDevice::Activate(IAudioClient): text"
    );
    assert_eq!(
        text(SystemSetup::Format, call()),
        "IAudioClient::GetMixFormat: text"
    );
    assert_eq!(
        text(SystemSetup::Check, SystemEvent::Mix(None)),
        "GetMixFormat returned null format"
    );
    assert!(matches!(
        SystemSetup::Resolve.advance(SystemEvent::Settled(Err(Error::DeviceNotFound))),
        Err(Error::DeviceNotFound)
    ));
    assert!(matches!(
        SystemSetup::Initialize { channels: 2 }
            .advance(SystemEvent::Settled(Err(Error::PermissionDenied))),
        Err(Error::PermissionDenied)
    ));
    assert!(matches!(
        SystemSetup::Activate.advance(SystemEvent::Call(Err(failure(E_ACCESSDENIED)))),
        Err(Error::PermissionDenied)
    ));
}

#[test]
fn every_step_of_a_client_has_its_error() {
    let shown = |step: InitStep| {
        let (e, close) = init_failure(step, &failure(-1));
        (backend_text(e), close)
    };
    assert_eq!(
        shown(InitStep::Initialize),
        ("IAudioClient::Initialize: text".to_string(), false)
    );
    assert_eq!(
        shown(InitStep::CreateEvent),
        ("CreateEventW: text".to_string(), false)
    );
    assert_eq!(
        shown(InitStep::SetEvent),
        ("IAudioClient::SetEventHandle: text".to_string(), true)
    );
    assert_eq!(
        shown(InitStep::GetService),
        (
            "IAudioClient::GetService(IAudioCaptureClient): text".to_string(),
            true
        )
    );
}

#[test]
fn taps_are_named_after_what_they_record() {
    assert_eq!(
        TapKind::IncludeProcesses(vec![7]).label(),
        "flexaudio-process-tap"
    );
    assert_eq!(
        TapKind::ExcludeProcesses(Vec::new()).label(),
        "flexaudio-system-tap"
    );
    let on_device = TapKind::ExcludeProcessesOnDevice {
        ids: Vec::new(),
        device_uid: "uid".to_string(),
    };
    assert_eq!(on_device.label(), "flexaudio-system-device-tap");
}
