//! PipeWire: ports, wiring, devices, hotplug, processes and backends.

use std::cell::RefCell;
use std::collections::{HashSet, VecDeque};

use flexaudio::backend::Ready;
use flexaudio::linux::backend::{
    link_props, process_stream_props, system_stream_props, PwDeviceWatcher, PwProcessBackend,
    PwSystemBackend, StartDecision, SystemPath,
};
use flexaudio::linux::capture::read_samples;
use flexaudio::linux::devices::{
    extract_json_name, keep_waiting, list_devices, EnumState, GlobalAction, NATIVE_CHANNELS,
    NATIVE_RATE,
};
use flexaudio::linux::ports::{pair_ports, plan_link_changes};
use flexaudio::linux::processes::{
    build_process_list, choose_executable, clean_exe_path, connect_too_late, finish_snapshot,
    time_left, OutputNode, RegistrySnapshot, SnapshotAction,
};
use flexaudio::linux::registry::{
    capture_node_name, resolve_node_pid, Barrier, BarrierAction, NodeEntry, ObjectKind, PidSelect,
    Props, PW_ID_CORE,
};
use flexaudio::linux::router::Router;
use flexaudio::linux::watch::{enqueue_event, WatchState, MAX_WATCH_EVENTS};
use flexaudio::table::Table;
use flexaudio::text::non_empty;
use flexaudio::types::{DeviceEvent, DeviceInfo, Error, ProcessMode, SourceKind};

fn props(items: &[(&str, &str)]) -> Option<Props> {
    Some(Props {
        items: items
            .iter()
            .map(|(k, v)| (k.to_string(), v.to_string()))
            .collect(),
    })
}

// --- backends ---

#[test]
fn backend_is_send() {
    fn assert_send<T: Send>() {}
    assert_send::<PwSystemBackend>();
}

#[test]
fn native_format_is_48k_stereo() {
    let be = PwSystemBackend::new(false, None);
    assert_eq!(be.native_format(), (NATIVE_RATE, NATIVE_CHANNELS));
    assert_eq!(be.native_format(), (48_000, 2));
    assert!(!be.exclude_self());
}

#[test]
fn stop_without_start_is_safe() {
    let mut be = PwSystemBackend::new(false, None);
    let steps = be.stop();
    assert!(!steps.notify && !steps.join);
    let steps = be.stop();
    assert!(!steps.notify && !steps.join);
}

#[test]
fn system_exclude_self_is_graceful() {
    let mut be = PwSystemBackend::new(true, None);
    assert!(be.exclude_self());
    assert_eq!(be.thread_name(), "flexaudio-pw-system-excl");
    assert!(!be.needs_device_check());
    assert!(matches!(
        be.decide_start(&None),
        StartDecision::Spawn(SystemPath::AllButSelf)
    ));
    match be.settle_start(Ready::Failed("connect failed".to_string())) {
        Err(Error::Backend(m)) => assert_eq!(m, "connect failed"),
        other => panic!("unexpected {other:?}"),
    }
    assert!(be.settle_start(Ready::Running).is_ok());
    let steps = be.stop();
    assert!(steps.notify && steps.join);
}

#[test]
fn extract_json_name_parses_default_metadata_value() {
    assert_eq!(
        extract_json_name(r#"{"name":"alsa_output.pci-0000_00_1f.3.analog-stereo"}"#).as_deref(),
        Some("alsa_output.pci-0000_00_1f.3.analog-stereo")
    );
    assert_eq!(
        extract_json_name(r#"{ "name" : "foo.bar" }"#).as_deref(),
        Some("foo.bar")
    );
    assert_eq!(extract_json_name(r#"{"other":"x"}"#), None);
    assert_eq!(extract_json_name(r#"{"name":""}"#), None);
    assert_eq!(extract_json_name("not json"), None);
}

#[test]
fn names_with_colons_and_the_key_itself_read_back() {
    assert_eq!(
        extract_json_name(r#"{"name":"bluez_output:1"}"#).as_deref(),
        Some("bluez_output:1")
    );
    assert_eq!(extract_json_name(r#"{"name":"name"}"#).as_deref(), Some("name"));
    assert_eq!(
        extract_json_name(r#"{"x":1,"name":"a:b","name":"c"}"#).as_deref(),
        Some("a:b")
    );
}

fn sink_props(name: &str) -> Option<Props> {
    props(&[
        ("media.class", "Audio/Sink"),
        ("node.name", name),
        ("node.description", "Speakers"),
        ("audio.rate", "44100"),
        ("audio.channels", "6"),
    ])
}

fn source_props(name: &str) -> Option<Props> {
    props(&[("media.class", "Audio/Source"), ("node.name", name)])
}

#[test]
fn list_devices_is_graceful_without_pipewire() {
    assert!(list_devices(Err("no daemon".to_string())).is_empty());

    let mut state = EnumState::new();
    state.on_global(ObjectKind::Node, &sink_props("sink.a"));
    state.on_global(ObjectKind::Node, &sink_props("sink.b"));
    state.on_global(ObjectKind::Node, &source_props("mic.a"));
    state.on_global(ObjectKind::Node, &source_props(""));
    state.on_property(Some("default.audio.sink"), Some(r#"{"name":"sink.b"}"#));
    state.on_property(Some("default.audio.source"), Some(r#"{"name":"mic.a"}"#));
    let devices = list_devices(Ok(state.devices()));
    assert_eq!(devices.len(), 3);
    for d in &devices {
        assert!(!d.id.is_empty(), "id (=node.name) is non-empty");
        match d.source_kind {
            SourceKind::SystemLoopback => assert!(d.is_loopback, "a Sink is loopback"),
            SourceKind::Mic => assert!(!d.is_loopback, "a Source is not loopback"),
            other => panic!("unexpected source_kind: {other:?}"),
        }
        assert!(d.sample_rate > 0);
        assert!(d.channels > 0);
    }
    let default_loopback = devices
        .iter()
        .filter(|d| d.is_default && d.is_loopback)
        .count();
    let default_mic = devices
        .iter()
        .filter(|d| d.is_default && !d.is_loopback)
        .count();
    assert_eq!(default_loopback, 1);
    assert_eq!(default_mic, 1);
    assert_eq!(devices[0].sample_rate, 44_100);
    assert_eq!(devices[0].channels, 6);
    assert_eq!(devices[0].name, "Speakers");
    assert_eq!(devices[2].sample_rate, NATIVE_RATE);
    assert_eq!(devices[2].channels, NATIVE_CHANNELS);
    assert_eq!(devices[2].name, "mic.a");
}

#[test]
fn metadata_with_the_defaults_is_bound() {
    let mut state = EnumState::new();
    let defaults = props(&[("metadata.name", "default")]);
    assert_eq!(
        state.on_global(ObjectKind::Metadata, &defaults),
        GlobalAction::BindDefaults
    );
    let other = props(&[("metadata.name", "settings")]);
    assert_eq!(
        state.on_global(ObjectKind::Metadata, &other),
        GlobalAction::Nothing
    );
    assert_eq!(
        state.on_global(ObjectKind::Metadata, &None),
        GlobalAction::Nothing
    );
}

#[test]
fn start_is_graceful_without_pipewire() {
    let mut be = PwSystemBackend::new(false, None);
    assert!(matches!(
        be.decide_start(&None),
        StartDecision::Spawn(SystemPath::Monitor(None))
    ));
    assert!(matches!(
        be.settle_start(Ready::Vanished),
        Err(Error::Backend(_))
    ));
    assert!(be.settle_start(Ready::Running).is_ok());
    assert!(matches!(
        be.decide_start(&None),
        StartDecision::AlreadyRunning
    ));
    be.stop();
}

fn output(id: &str) -> DeviceInfo {
    DeviceInfo {
        id: id.to_string(),
        name: id.to_string(),
        source_kind: SourceKind::SystemLoopback,
        sample_rate: 48_000,
        channels: 2,
        is_loopback: true,
        is_default: false,
    }
}

#[test]
fn start_with_unknown_device_id_is_not_found_or_backend() {
    let be = PwSystemBackend::new(false, Some("flexaudio-no-such-sink-zzz".to_string()));
    assert!(be.needs_device_check());
    assert!(matches!(
        be.decide_start(&Some(vec![output("other")])),
        StartDecision::Refuse(Error::DeviceNotFound)
    ));
    // Without a list the start itself reports what is wrong.
    match be.decide_start(&None) {
        StartDecision::Spawn(SystemPath::Monitor(Some(id))) => {
            assert_eq!(id, "flexaudio-no-such-sink-zzz")
        }
        other => panic!("unexpected {other:?}"),
    }
    let known = PwSystemBackend::new(false, Some("other".to_string()));
    assert!(matches!(
        known.decide_start(&Some(vec![output("other")])),
        StartDecision::Spawn(SystemPath::Monitor(Some(_)))
    ));
}

#[test]
fn process_backend_is_send() {
    fn assert_send<T: Send>() {}
    assert_send::<PwProcessBackend>();
}

#[test]
fn process_native_format_is_48k_stereo() {
    let be = PwProcessBackend::new(4242, ProcessMode::Exclude);
    assert_eq!(be.native_format(), (NATIVE_RATE, NATIVE_CHANNELS));
    assert_eq!(be.native_format(), (48_000, 2));
    assert_eq!(be.target_pid(), 4242);
    assert_eq!(be.mode(), ProcessMode::Exclude);
    let be2 = PwProcessBackend::new(1, ProcessMode::Include);
    assert_eq!(be2.mode(), ProcessMode::Include);
}

#[test]
fn process_stop_without_start_is_safe() {
    let mut be = PwProcessBackend::new(1234, ProcessMode::Include);
    be.stop();
    let steps = be.stop();
    assert!(!steps.notify && !steps.join);
}

#[test]
fn process_exclude_mode_is_graceful() {
    let mut be = PwProcessBackend::new(u32::MAX, ProcessMode::Exclude);
    assert_eq!(be.decide_start(), Some(PidSelect::Exclude(u32::MAX)));
    assert!(matches!(
        be.settle_start(Ready::Failed("registry".to_string())),
        Err(Error::Backend(_))
    ));
    assert!(be.settle_start(Ready::Running).is_ok());
    // A second start does nothing.
    assert_eq!(be.decide_start(), None);
    let steps = be.stop();
    assert!(steps.notify && steps.join);
    let steps = be.stop();
    assert!(!steps.notify && !steps.join);
}

#[test]
fn process_start_is_graceful_without_pipewire() {
    let mut be = PwProcessBackend::new(u32::MAX, ProcessMode::Include);
    assert_eq!(be.decide_start(), Some(PidSelect::Include(u32::MAX)));
    assert!(be.settle_start(Ready::Running).is_ok());
    assert_eq!(be.decide_start(), None);
    be.stop();
    be.stop();
    assert!(matches!(
        be.settle_start(Ready::Vanished),
        Err(Error::Backend(_))
    ));
}

// --- processes of nodes ---

#[test]
fn resolve_node_pid_via_client_table() {
    let node = NodeEntry {
        owning_client_id: Some(60),
        app_pid: None,
    };
    let mut client_pid: Table<u32> = Table::new();
    assert_eq!(
        resolve_node_pid(&node, &client_pid),
        None,
        "PID is unresolved while no Client matching client.id exists yet"
    );
    client_pid.insert(60, 13394);
    assert_eq!(
        resolve_node_pid(&node, &client_pid),
        Some(13394),
        "client.id=60 → Client pid=13394, resolved in two stages"
    );
    let orphan = NodeEntry {
        owning_client_id: None,
        app_pid: None,
    };
    assert_eq!(resolve_node_pid(&orphan, &client_pid), None);
    let node_with_pid = NodeEntry {
        owning_client_id: Some(99),
        app_pid: Some(424242),
    };
    let empty: Table<u32> = Table::new();
    assert_eq!(
        resolve_node_pid(&node_with_pid, &empty),
        Some(424242),
        "the node's own PID takes precedence and resolves directly"
    );
    let other_node = NodeEntry {
        owning_client_id: Some(61),
        app_pid: None,
    };
    assert_eq!(resolve_node_pid(&other_node, &client_pid), None);
    client_pid.insert(61, 555);
    assert_eq!(resolve_node_pid(&other_node, &client_pid), Some(555));
    assert_eq!(resolve_node_pid(&node, &client_pid), Some(13394));
}

#[test]
fn nodes_are_selected_by_process() {
    assert!(PidSelect::Include(7).selects(Some(7)));
    assert!(!PidSelect::Include(7).selects(Some(8)));
    assert!(!PidSelect::Include(7).selects(None));
    assert!(!PidSelect::Exclude(7).selects(Some(7)));
    assert!(PidSelect::Exclude(7).selects(Some(8)));
    assert_eq!(PidSelect::Exclude(7).pid(), 7);
}

// --- ports ---

fn ports(list: &[(u32, &str)]) -> Vec<(u32, String)> {
    list.iter().map(|(id, ch)| (*id, ch.to_string())).collect()
}

#[test]
fn pair_ports_maps_channels() {
    let out = ports(&[(10, "FL"), (11, "FR")]);
    let inp = ports(&[(20, "FL"), (21, "FR")]);
    let mut pairs = pair_ports(&out, &inp);
    pairs.sort();
    assert_eq!(pairs, vec![(10, 20), (11, 21)], "FL→FL / FR→FR");

    let inp_rev = ports(&[(21, "FR"), (20, "FL")]);
    let mut pairs = pair_ports(&out, &inp_rev);
    pairs.sort();
    assert_eq!(
        pairs,
        vec![(10, 20), (11, 21)],
        "FL→FL / FR→FR even in reverse order"
    );

    let mono_out = ports(&[(30, "MONO")]);
    let stereo_in = ports(&[(40, "FL"), (41, "FR")]);
    let mut pairs = pair_ports(&mono_out, &stereo_in);
    pairs.sort();
    assert_eq!(
        pairs,
        vec![(30, 40), (30, 41)],
        "mono is duplicated to FL/FR"
    );

    let out_noch = ports(&[(50, ""), (51, "")]);
    let in_noch = ports(&[(60, ""), (61, "")]);
    let pairs = pair_ports(&out_noch, &in_noch);
    assert_eq!(pairs.len(), 2);
    let ins: HashSet<u32> = pairs.iter().map(|(_, i)| *i).collect();
    assert_eq!(ins.len(), 2, "each input port at most once");

    assert!(pair_ports(&vec![], &inp).is_empty());
    assert!(pair_ports(&out, &vec![]).is_empty());

    let out_fl = ports(&[(70, "FL")]);
    let in_fr = ports(&[(80, "FR")]);
    let pairs = pair_ports(&out_fl, &in_fr);
    assert_eq!(
        pairs,
        vec![(70, 80)],
        "a single output port is duplicated to the remaining inputs"
    );
}

type Ports = Vec<(u32, String)>;

fn replay_arrivals(steps: &[(Ports, Ports)]) -> Vec<(u32, u32)> {
    let mut linked: Vec<(u32, u32)> = Vec::new();
    for (out, inp) in steps {
        let changes = plan_link_changes(&linked, &pair_ports(out, inp));
        linked.retain(|pair| !changes.remove.contains(pair));
        linked.extend(changes.add);
    }
    linked.sort_unstable();
    linked
}

#[test]
fn plan_link_changes_reports_only_the_difference() {
    let changes = plan_link_changes(&vec![(10, 20), (11, 21)], &vec![(11, 21), (10, 20)]);
    assert!(changes.remove.is_empty() && changes.add.is_empty());

    let changes = plan_link_changes(&vec![], &vec![(10, 20), (11, 21)]);
    assert_eq!(changes.add, vec![(10, 20), (11, 21)]);
    assert!(changes.remove.is_empty());

    let changes = plan_link_changes(&vec![(10, 20), (10, 21)], &vec![(10, 20), (11, 21)]);
    assert_eq!(changes.remove, vec![(10, 21)]);
    assert_eq!(changes.add, vec![(11, 21)]);
}

#[test]
fn links_are_cut_in_ascending_order() {
    let changes = plan_link_changes(&vec![(11, 21), (10, 22), (10, 20)], &vec![]);
    assert_eq!(changes.remove, vec![(10, 20), (10, 22), (11, 21)]);
}

#[test]
fn late_own_input_port_is_linked_instead_of_leaving_fr_silent() {
    let out = ports(&[(10, "FL"), (11, "FR")]);
    let settled = replay_arrivals(&[
        (out.clone(), ports(&[(20, "FL")])),
        (out, ports(&[(20, "FL"), (21, "FR")])),
    ]);
    assert_eq!(settled, vec![(10, 20), (11, 21)], "FL→FL / FR→FR");
}

#[test]
fn late_target_output_port_replaces_the_mono_duplication() {
    let inp = ports(&[(20, "FL"), (21, "FR")]);
    let settled = replay_arrivals(&[
        (ports(&[(10, "FL")]), inp.clone()),
        (ports(&[(10, "FL"), (11, "FR")]), inp),
    ]);
    assert_eq!(settled, vec![(10, 20), (11, 21)], "FL→FL / FR→FR");
}

#[test]
fn a_real_mono_target_stays_duplicated() {
    let settled = replay_arrivals(&[(
        ports(&[(30, "MONO")]),
        ports(&[(40, "FL"), (41, "FR")]),
    )]);
    assert_eq!(settled, vec![(30, 40), (30, 41)]);
}

// --- wiring ---

fn add_port(r: &mut Router, id: u32, node: &str, direction: &str, channel: &str) {
    let p = props(&[
        ("node.id", node),
        ("port.direction", direction),
        ("audio.channel", channel),
    ]);
    assert!(r.on_global(id, ObjectKind::Port, &p));
}

fn add_playback(r: &mut Router, node: u32, client: u32, pid: &str) {
    let c = props(&[("pipewire.sec.pid", pid)]);
    assert!(r.on_global(client, ObjectKind::Client, &c));
    let n = props(&[
        ("media.class", "Stream/Output/Audio"),
        ("client.id", &client.to_string()),
    ]);
    assert!(r.on_global(node, ObjectKind::Node, &n));
    add_port(r, node * 10, &node.to_string(), "out", "FL");
    add_port(r, node * 10 + 1, &node.to_string(), "out", "FR");
}

const SELF_NODE: u32 = 900;

fn router_with_two_players(select: PidSelect) -> Router {
    let mut r = Router::new(select);
    add_port(&mut r, 9000, "900", "in", "FL");
    add_port(&mut r, 9001, "900", "in", "FR");
    add_playback(&mut r, 50, 40, "1000");
    add_playback(&mut r, 51, 41, "2000");
    r
}

#[test]
fn only_the_included_process_is_linked() {
    let mut r = router_with_two_players(PidSelect::Include(1000));
    let plans = r.plan_links(SELF_NODE);
    assert_eq!(plans.len(), 1);
    assert_eq!(plans[0].node_id, 50);
    assert_eq!(plans[0].self_node, SELF_NODE);
    assert_eq!(plans[0].changes.add, vec![(500, 9000), (501, 9001)]);
    assert!(plans[0].changes.remove.is_empty());
}

#[test]
fn everything_but_the_excluded_process_is_linked() {
    let mut r = router_with_two_players(PidSelect::Exclude(1000));
    let plans = r.plan_links(SELF_NODE);
    assert_eq!(plans.len(), 1);
    assert_eq!(plans[0].node_id, 51);
}

#[test]
fn settled_links_are_not_planned_again_until_something_goes() {
    let mut r = router_with_two_players(PidSelect::Include(1000));
    for plan in r.plan_links(SELF_NODE) {
        r.settle(plan, true);
    }
    assert!(r
        .plan_links(SELF_NODE)
        .iter()
        .all(|p| p.changes.add.is_empty() && p.changes.remove.is_empty()));
    assert!(r.is_linked(50));
    assert!(!r.is_linked(51));
    // An output port goes and comes back: the links are made anew.
    assert!(r.on_remove(501));
    assert!(!r.is_linked(50));
    add_port(&mut r, 502, "50", "out", "FR");
    let plans = r.plan_links(SELF_NODE);
    assert_eq!(plans[0].changes.add, vec![(500, 9000), (502, 9001)]);
    // Something that has nothing to do with the links goes.
    assert!(!r.on_remove(510));
}

#[test]
fn reports_that_say_nothing_are_not_looked_at() {
    let mut r = Router::new(PidSelect::Include(1));
    assert!(!r.on_global(1, ObjectKind::Client, &None));
    assert!(!r.on_global(1, ObjectKind::Client, &props(&[("pipewire.sec.pid", "x")])));
    assert!(!r.on_global(
        2,
        ObjectKind::Node,
        &props(&[("media.class", "Audio/Sink")])
    ));
    assert!(!r.on_global(3, ObjectKind::Port, &props(&[("node.id", "2")])));
    assert!(!r.on_global(4, ObjectKind::Other, &props(&[("node.id", "2")])));
    assert!(r.plan_links(SELF_NODE).is_empty());
}

// --- round trips ---

#[test]
fn two_round_trips_end_the_wait() {
    let mut b = Barrier::First(5);
    assert_eq!(b.on_done(PW_ID_CORE, 4), BarrierAction::Wait);
    assert_eq!(b.on_done(3, 5), BarrierAction::Wait);
    assert_eq!(b.on_done(PW_ID_CORE, 5), BarrierAction::SyncAgain);
    assert_eq!(b.on_second(Some(6)), BarrierAction::Wait);
    assert!(!b.is_finished());
    assert_eq!(b.on_done(PW_ID_CORE, 6), BarrierAction::Quit);
    assert!(b.is_finished());
}

#[test]
fn waiting_ends_with_the_deadline() {
    assert!(keep_waiting(false, 1_999));
    assert!(!keep_waiting(false, 2_000));
    assert!(!keep_waiting(true, 0));
}

// --- hotplug ---

#[test]
fn watcher_is_send() {
    fn assert_send<T: Send>() {}
    assert_send::<PwDeviceWatcher>();
    assert_send::<WatchState>();
}

#[test]
fn watcher_graceful_without_pipewire() {
    let mut state = WatchState::new();
    let mut w = PwDeviceWatcher::start(Ready::Running).unwrap();
    assert!(w.poll_event(&mut state).is_none());
    let steps = w.stop();
    assert!(steps.notify && steps.join);
    match PwDeviceWatcher::start(Ready::Failed("no daemon".to_string())) {
        Err(Error::Backend(m)) => assert_eq!(m, "no daemon"),
        other => panic!("unexpected {other:?}"),
    }
    match PwDeviceWatcher::start(Ready::NotSpawned("limit".to_string())) {
        Err(Error::Backend(m)) => assert_eq!(m, "spawn pipewire watch thread: limit"),
        other => panic!("unexpected {other:?}"),
    }
    match PwDeviceWatcher::start(Ready::Vanished) {
        Err(Error::Backend(m)) => assert_eq!(
            m,
            "pipewire watch thread terminated before signaling readiness"
        ),
        other => panic!("unexpected {other:?}"),
    }
}

#[test]
fn watcher_double_stop_is_safe() {
    let mut w = PwDeviceWatcher::start(Ready::Running).unwrap();
    w.stop();
    let steps = w.stop();
    assert!(!steps.notify && !steps.join);
}

fn mic_a() -> DeviceInfo {
    DeviceInfo {
        id: "mic.a".into(),
        name: "Mic A".into(),
        source_kind: SourceKind::Mic,
        sample_rate: NATIVE_RATE,
        channels: NATIVE_CHANNELS,
        is_loopback: false,
        is_default: false,
    }
}

#[test]
fn enqueue_and_drain_is_fifo() {
    let mut events: VecDeque<DeviceEvent> = VecDeque::new();
    enqueue_event(&mut events, DeviceEvent::Added(mic_a()));
    enqueue_event(&mut events, DeviceEvent::Removed { id: "mic.a".into() });
    enqueue_event(
        &mut events,
        DeviceEvent::DefaultChanged {
            kind: SourceKind::SystemLoopback,
            id: "sink.x".into(),
        },
    );
    let mut drained = Vec::new();
    while let Some(ev) = events.pop_front() {
        drained.push(ev);
    }
    assert_eq!(
        drained,
        vec![
            DeviceEvent::Added(mic_a()),
            DeviceEvent::Removed { id: "mic.a".into() },
            DeviceEvent::DefaultChanged {
                kind: SourceKind::SystemLoopback,
                id: "sink.x".into(),
            },
        ]
    );
}

#[test]
fn enqueue_event_caps_queue_and_drops_oldest() {
    let mut events: VecDeque<DeviceEvent> = VecDeque::new();
    let total = MAX_WATCH_EVENTS + 10;
    for i in 0..total {
        enqueue_event(
            &mut events,
            DeviceEvent::Removed {
                id: format!("n{i}"),
            },
        );
    }
    assert_eq!(
        events.len(),
        MAX_WATCH_EVENTS,
        "queue length plateaus at the cap"
    );
    match events.front().unwrap() {
        DeviceEvent::Removed { id } => assert_eq!(id, "n10", "dropped from the oldest"),
        other => panic!("unexpected event: {other:?}"),
    }
    match events.back().unwrap() {
        DeviceEvent::Removed { id } => assert_eq!(id, &format!("n{}", total - 1)),
        other => panic!("unexpected event: {other:?}"),
    }
}

#[test]
fn hotplug_is_reported_after_the_first_scan() {
    let mut w = WatchState::new();
    w.on_global(1, ObjectKind::Node, &source_props("mic.a"));
    w.on_property(Some("default.audio.sink"), Some(r#"{"name":"sink.a"}"#));
    assert!(w.poll_event().is_none());
    w.finish_scan();

    w.on_global(2, ObjectKind::Node, &sink_props("sink.b"));
    match w.poll_event() {
        Some(DeviceEvent::Added(d)) => {
            assert_eq!(d.id, "sink.b");
            assert_eq!(d.source_kind, SourceKind::SystemLoopback);
            assert!(!d.is_default);
        }
        other => panic!("unexpected {other:?}"),
    }
    // The same default again says nothing; another one is reported.
    w.on_property(Some("default.audio.sink"), Some(r#"{"name":"sink.a"}"#));
    assert!(w.poll_event().is_none());
    w.on_property(Some("default.audio.sink"), Some(r#"{"name":"sink.b"}"#));
    match w.poll_event() {
        Some(DeviceEvent::DefaultChanged { kind, id }) => {
            assert_eq!(kind, SourceKind::SystemLoopback);
            assert_eq!(id, "sink.b");
        }
        other => panic!("unexpected {other:?}"),
    }
    // What goes is named by its stable name; what is not known says nothing.
    w.on_remove(1);
    match w.poll_event() {
        Some(DeviceEvent::Removed { id }) => assert_eq!(id, "mic.a"),
        other => panic!("unexpected {other:?}"),
    }
    w.on_remove(77);
    assert!(w.poll_event().is_none());
}

// --- processes ---

fn node(client: Option<u32>, app_pid: Option<u32>, name: Option<&str>) -> OutputNode {
    OutputNode {
        entry: NodeEntry {
            owning_client_id: client,
            app_pid,
        },
        app_name: name.map(str::to_string),
        running: None,
    }
}

#[test]
fn build_resolves_pid_through_client_like_the_capture_backend() {
    let mut snap = RegistrySnapshot::new();
    snap.client_pid.insert(40, 1234);
    snap.client_name.insert(40, "Firefox".into());
    snap.client_pid.insert(41, 5678);
    snap.nodes.insert(
        100,
        OutputNode {
            running: Some(true),
            ..node(Some(40), None, Some("Firefox Audio"))
        },
    );
    snap.nodes.insert(101, node(Some(41), None, None));
    snap.nodes
        .insert(102, node(None, Some(999), Some("direct")));
    snap.nodes.insert(103, node(Some(77), None, Some("orphan")));

    let list = build_process_list(&snap, |pid| Some(format!("exe-{pid}")));
    let pids: Vec<u32> = list.iter().map(|p| p.pid).collect();
    assert_eq!(
        pids,
        vec![1234, 5678, 999],
        "sorted by node id, orphan dropped"
    );

    let firefox = &list[0];
    assert_eq!(firefox.name, "Firefox Audio", "node application.name wins");
    assert_eq!(firefox.executable.as_deref(), Some("exe-1234"));
    assert_eq!(firefox.is_output_active, Some(true));
    assert_eq!(firefox.bundle_id, None);

    assert_eq!(list[1].name, "", "facade fills the display name later");
    assert_eq!(list[1].is_output_active, None);
    assert_eq!(list[2].name, "direct");
}

#[test]
fn build_falls_back_to_client_name() {
    let mut snap = RegistrySnapshot::new();
    snap.client_pid.insert(40, 10);
    snap.client_name.insert(40, "mpv".into());
    snap.nodes.insert(1, node(Some(40), None, None));
    let list = build_process_list(&snap, |_| None);
    assert_eq!(list[0].name, "mpv");
    assert_eq!(list[0].executable, None);
}

#[test]
fn only_listed_processes_are_looked_up() {
    let mut snap = RegistrySnapshot::new();
    snap.client_pid.insert(40, 1234);
    snap.client_pid.insert(41, 0);
    snap.nodes.insert(100, node(Some(40), None, None));
    snap.nodes.insert(101, node(Some(41), None, None));
    snap.nodes.insert(102, node(None, Some(999), None));
    snap.nodes.insert(103, node(Some(77), None, None));
    let asked: RefCell<Vec<u32>> = RefCell::new(Vec::new());
    build_process_list(&snap, |pid| {
        asked.borrow_mut().push(pid);
        None
    });
    assert_eq!(*asked.borrow(), vec![1234, 999]);
}

#[test]
fn process_0_is_not_listed() {
    let mut snap = RegistrySnapshot::new();
    snap.client_pid.insert(40, 0);
    snap.client_pid.insert(41, 7);
    snap.nodes.insert(1, node(Some(40), None, Some("a")));
    snap.nodes.insert(2, node(None, Some(0), Some("b")));
    snap.nodes.insert(3, node(Some(41), None, Some("c")));
    let list = build_process_list(&snap, |_| None);
    let pids: Vec<u32> = list.iter().map(|p| p.pid).collect();
    assert_eq!(pids, vec![7]);
}

#[test]
fn a_backend_whose_thread_could_not_be_spawned_counts_as_running_until_stopped() {
    let mut be = PwProcessBackend::new(7, ProcessMode::Include);
    match be.settle_start(Ready::NotSpawned("limit".to_string())) {
        Err(Error::Backend(m)) => assert_eq!(m, "spawn pipewire process thread: limit"),
        other => panic!("unexpected {other:?}"),
    }
    assert!(be.decide_start().is_none());
    let steps = be.stop();
    assert!(!steps.notify && !steps.join);
    assert!(be.decide_start().is_some());
    // A thread that came to nothing leaves the backend ready for another start.
    assert!(be.settle_start(Ready::Vanished).is_err());
    assert!(be.decide_start().is_some());
    assert!(be.settle_start(Ready::Failed("no daemon".to_string())).is_err());
    assert!(be.decide_start().is_some());
    assert!(be.settle_start(Ready::Running).is_ok());
    assert!(be.decide_start().is_none());
}

#[test]
fn clean_exe_path_strips_deleted_marker() {
    assert_eq!(clean_exe_path("/usr/bin/pw-cat").as_deref(), Some("pw-cat"));
    assert_eq!(
        clean_exe_path("/opt/app/bin/player (deleted)").as_deref(),
        Some("player")
    );
}

#[test]
fn executables_come_from_the_link_or_the_command() {
    assert_eq!(
        choose_executable(Some("/usr/bin/mpv"), Some("other\n")).as_deref(),
        Some("mpv")
    );
    assert_eq!(
        choose_executable(None, Some("mpv\n")).as_deref(),
        Some("mpv")
    );
    assert_eq!(choose_executable(None, Some(" \n")), None);
    assert_eq!(choose_executable(None, None), None);
}

#[test]
fn non_empty_trims_and_drops_blank() {
    assert_eq!(non_empty(Some("  mpv ")).as_deref(), Some("mpv"));
    assert_eq!(non_empty(Some("   ")), None);
    assert_eq!(non_empty(None), None);
}

#[test]
fn timeout_with_no_output_nodes_is_err_even_if_clients_arrived() {
    let mut snap = RegistrySnapshot::new();
    snap.client_pid.insert(40, 1234);
    snap.client_name.insert(40, "silent-client".into());
    let err = finish_snapshot(false, snap).expect_err("timeout + 0 nodes must be Err");
    assert!(
        err.contains("did not answer"),
        "timeout error should mention the deadline, got {err}"
    );
}

#[test]
fn timeout_with_output_nodes_keeps_the_partial_list() {
    let mut snap = RegistrySnapshot::new();
    snap.nodes.insert(1, node(Some(40), None, Some("app")));
    let got = finish_snapshot(false, snap).expect("timeout + some nodes is Ok");
    assert_eq!(got.nodes.len(), 1);
}

#[test]
fn complete_with_zero_nodes_is_empty_ok() {
    let snap = RegistrySnapshot::new();
    let got = finish_snapshot(true, snap).expect("in-time empty is Ok");
    assert!(got.nodes.is_empty());
}

#[test]
fn snapshots_are_filled_from_reports() {
    let mut snap = RegistrySnapshot::new();
    let client = props(&[("pipewire.sec.pid", "77"), ("application.name", "mpv")]);
    assert_eq!(
        snap.on_global(5, ObjectKind::Client, &client),
        SnapshotAction::Nothing
    );
    let n = props(&[
        ("media.class", "Stream/Output/Audio"),
        ("client.id", "5"),
    ]);
    assert_eq!(
        snap.on_global(6, ObjectKind::Node, &n),
        SnapshotAction::BindNode
    );
    snap.on_info(6, true);
    let list = build_process_list(&snap, |_| None);
    assert_eq!(list.len(), 1);
    assert_eq!(list[0].pid, 77);
    assert_eq!(list[0].name, "mpv");
    assert_eq!(list[0].is_output_active, Some(true));
}

#[test]
fn connecting_has_a_deadline() {
    assert!(connect_too_late(1_999).is_ok());
    assert!(connect_too_late(2_000).is_err());
    assert_eq!(time_left(500), 1_500);
    assert_eq!(time_left(5_000), 0);
}

// --- samples and properties ---

#[test]
fn samples_are_read_in_whole_words() {
    let bytes = [9u8, 0, 0, 0x80, 0x3f, 1, 2, 3, 4, 5];
    let mut out = vec![7; 20];
    assert!(read_samples(&bytes, 1, 9, &mut out));
    assert_eq!(out, vec![1.0f32.to_bits(), 0x0403_0201]);
    assert!(read_samples(&bytes, 1, 4, &mut out));
    assert_eq!(out, vec![1.0f32.to_bits()]);
    assert!(!read_samples(&bytes, 8, 5, &mut out));
    assert!(out.is_empty());
    assert!(!read_samples(&bytes, 0, 3, &mut out));
}

fn value<'a>(list: &'a [(&'static str, String)], key: &str) -> Option<&'a str> {
    list.iter().find(|(k, _)| *k == key).map(|(_, v)| v.as_str())
}

#[test]
fn streams_are_described() {
    let list = system_stream_props(&None);
    assert_eq!(value(&list, "media.class"), Some("Stream/Input/Audio"));
    assert_eq!(value(&list, "stream.capture.sink"), Some("true"));
    assert_eq!(value(&list, "target.object"), None);
    let list = system_stream_props(&Some("sink.a".to_string()));
    assert_eq!(value(&list, "target.object"), Some("sink.a"));
    let list = process_stream_props(PidSelect::Include(12));
    assert_eq!(
        value(&list, "node.name"),
        Some(capture_node_name(12).as_str())
    );
    let list = link_props(1, 2, (3, 4));
    assert_eq!(value(&list, "link.output.node"), Some("1"));
    assert_eq!(value(&list, "link.output.port"), Some("3"));
    assert_eq!(value(&list, "link.input.node"), Some("2"));
    assert_eq!(value(&list, "link.input.port"), Some("4"));
}
