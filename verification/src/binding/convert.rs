//! Values as the script sees them.

use vstd::prelude::*;

use crate::text::{opt, same};
use crate::types::{DeviceEvent, DeviceInfo, ProcessInfo, SourceKind};
use crate::vad::error::{position, VadEvent};

verus! {

/// A device as the script sees it.
#[derive(Debug, PartialEq, Eq)]
pub struct JsDeviceInfo {
    /// Stable identifier.
    pub id: String,
    /// Display name.
    pub name: String,
    /// `mic`, `system`, `process` or `mix`.
    pub source_kind: String,
    /// Sample rate (Hz).
    pub sample_rate: u32,
    /// Number of channels.
    pub channels: u16,
    /// Whether an output is recorded.
    pub is_loopback: bool,
    /// Whether it is the default of its kind.
    pub is_default: bool,
}

/// A process as the script sees it.
#[derive(Debug, PartialEq, Eq)]
pub struct JsProcessInfo {
    /// Its identifier.
    pub pid: u32,
    /// Display name.
    pub name: String,
    /// Name of its executable.
    pub executable: Option<String>,
    /// Bundle identifier.
    pub bundle_id: Option<String>,
    /// Whether it plays now, where that is known.
    pub is_output_active: Option<bool>,
}

/// A boundary of speech as the script sees it.
#[derive(Debug, PartialEq, Eq)]
pub struct JsVadEvent {
    /// `speechStart` or `speechEnd`.
    pub kind: String,
    /// Sample position at the rate of the detector.
    pub at_sample: i64,
    /// Time from the start of the recording (ns), where there is one.
    pub at_ns: Option<i64>,
}

/// The format of a backend as the script sees it.
#[derive(Clone, Copy, Debug, PartialEq, Eq, Structural)]
pub struct JsNativeFormat {
    /// Sample rate (Hz).
    pub sample_rate: u32,
    /// Number of channels.
    pub channels: u16,
}

/// A boundary of speech as its kind, its sample position and its time.
pub struct EventView {
    /// `speechStart` or `speechEnd`.
    pub kind: Seq<char>,
    /// Sample position.
    pub at_sample: int,
    /// Time from the start of the recording (ns), where there is one.
    pub at_ns: Option<int>,
}

impl View for JsVadEvent {
    type V = EventView;

    open spec fn view(&self) -> EventView {
        EventView {
            kind: self.kind@,
            at_sample: self.at_sample as int,
            at_ns: match self.at_ns {
                Some(t) => Some(t as int),
                None => None,
            },
        }
    }
}

/// A list of boundaries, each by its view.
pub open spec fn event_views(events: Seq<JsVadEvent>) -> Seq<EventView> {
    Seq::new(events.len(), |i: int| events[i]@)
}

/// An event of a stream as the script sees it.
#[derive(Debug, PartialEq, Eq)]
pub struct JsStreamEvent {
    /// What happened.
    pub kind: String,
    /// How many, where it is counted.
    pub count: Option<i64>,
    /// A message, where there is one.
    pub message: Option<String>,
}

/// A change among the devices as the script sees it.
#[derive(Debug, PartialEq, Eq)]
pub struct JsDeviceEvent {
    /// What happened.
    pub kind: String,
    /// The device that came.
    pub device: Option<JsDeviceInfo>,
    /// The identifier of the device that went or became the default.
    pub id: Option<String>,
    /// The kind whose default changed.
    pub source_kind: Option<String>,
}

/// An event of a stream.
#[derive(Debug, PartialEq, Eq)]
pub enum Event {
    /// Chunks were dropped.
    ChunkDropped {
        /// How many.
        count: u64,
    },
    /// No audio comes.
    StreamStalled,
    /// Audio comes again.
    StreamRecovered,
    /// Access was denied.
    PermissionDenied,
    /// The device has gone.
    DeviceLost,
    /// Something failed.
    Error(String),
    /// Anything else, as it is shown.
    Other(String),
}

// ---------------------------------------------------------------------------
// Kinds of source
// ---------------------------------------------------------------------------

/// The name of a kind of source.
pub open spec fn kind_name(k: SourceKind) -> Seq<char> {
    match k {
        SourceKind::Mic => "mic"@,
        SourceKind::SystemLoopback => "system"@,
        SourceKind::ProcessLoopback => "process"@,
        SourceKind::Mix => "mix"@,
    }
}

/// The kind of source of a name.
pub open spec fn kind_of(name: Seq<char>) -> Option<SourceKind> {
    if name == "mic"@ {
        Some(SourceKind::Mic)
    } else if name == "system"@ {
        Some(SourceKind::SystemLoopback)
    } else if name == "process"@ {
        Some(SourceKind::ProcessLoopback)
    } else if name == "mix"@ {
        Some(SourceKind::Mix)
    } else {
        None
    }
}

/// Every kind of source has a name of its own, and only these names stand for one.
pub proof fn lemma_kinds_round_trip(k: SourceKind, name: Seq<char>)
    ensures
        kind_of(kind_name(k)) == Some(k),
        kind_of(name) == Some(k) ==> name == kind_name(k),
{
    reveal_strlit("mic");
    reveal_strlit("system");
    reveal_strlit("process");
    reveal_strlit("mix");
    assert("mic"@[1] != "mix"@[1] || "mic"@[2] != "mix"@[2]);
    assert("mic"@.len() == 3);
    assert("system"@.len() == 6);
    assert("process"@.len() == 7);
    assert("mix"@.len() == 3);
}

/// The name of a kind of source.
pub fn source_kind_str(k: SourceKind) -> (res: String)
    ensures
        res@ == kind_name(k),
{
    match k {
        SourceKind::Mic => "mic".to_owned(),
        SourceKind::SystemLoopback => "system".to_owned(),
        SourceKind::ProcessLoopback => "process".to_owned(),
        SourceKind::Mix => "mix".to_owned(),
    }
}

/// The kind of source of a name, `None` where it stands for none.
pub fn find_source_kind(name: &str) -> (res: Option<SourceKind>)
    ensures
        res == kind_of(name@),
{
    if same(name, "mic") {
        Some(SourceKind::Mic)
    } else if same(name, "system") {
        Some(SourceKind::SystemLoopback)
    } else if same(name, "process") {
        Some(SourceKind::ProcessLoopback)
    } else if same(name, "mix") {
        Some(SourceKind::Mix)
    } else {
        None
    }
}

// ---------------------------------------------------------------------------
// Devices and processes
// ---------------------------------------------------------------------------

/// Whether a device of the script stands for a device.
pub open spec fn shows_device(js: JsDeviceInfo, info: DeviceInfo) -> bool {
    &&& js.id == info.id
    &&& js.name == info.name
    &&& js.source_kind@ == kind_name(info.source_kind)
    &&& js.sample_rate == info.sample_rate
    &&& js.channels == info.channels
    &&& js.is_loopback == info.is_loopback
    &&& js.is_default == info.is_default
}

/// Shows a device to the script.
pub fn device_info_to_js(info: DeviceInfo) -> (res: JsDeviceInfo)
    ensures
        shows_device(res, info),
{
    JsDeviceInfo {
        id: info.id,
        name: info.name,
        source_kind: source_kind_str(info.source_kind),
        sample_rate: info.sample_rate,
        channels: info.channels,
        is_loopback: info.is_loopback,
        is_default: info.is_default,
    }
}

/// Shows a list of devices to the script, in order.
pub fn devices(list: Vec<DeviceInfo>) -> (res: Vec<JsDeviceInfo>)
    ensures
        res@.len() == list@.len(),
        forall|i: int| 0 <= i < list@.len() ==> shows_device(#[trigger] res@[i], list@[i]),
{
    let ghost all = list@;
    let mut rest: Vec<DeviceInfo> = list;
    let mut out: Vec<JsDeviceInfo> = Vec::new();
    while rest.len() > 0
        invariant
            all.len() == rest@.len() + out@.len(),
            rest@ == all.skip(out@.len() as int),
            forall|i: int| 0 <= i < out@.len() ==> shows_device(#[trigger] out@[i], all[i]),
        decreases rest@.len(),
    {
        let info: DeviceInfo = rest.remove(0);
        assert(rest@ =~= all.skip(out@.len() as int + 1));
        out.push(device_info_to_js(info));
    }
    out
}

/// Whether a process of the script stands for a process.
pub open spec fn shows_process(js: JsProcessInfo, info: ProcessInfo) -> bool {
    &&& js.pid == info.pid
    &&& js.name == info.name
    &&& js.executable == info.executable
    &&& js.bundle_id == info.bundle_id
    &&& js.is_output_active == info.is_output_active
}

/// Shows a process to the script.
pub fn process_info_to_js(info: ProcessInfo) -> (res: JsProcessInfo)
    ensures
        shows_process(res, info),
{
    JsProcessInfo {
        pid: info.pid,
        name: info.name,
        executable: info.executable,
        bundle_id: info.bundle_id,
        is_output_active: info.is_output_active,
    }
}

/// The listing of processes, which runs beside the script.
#[derive(Clone, Copy, Debug)]
pub struct ProcessesTask;

impl ProcessesTask {
    /// Shows the processes that were found to the script, in order.
    pub fn resolve(&self, found: Vec<ProcessInfo>) -> (res: Vec<JsProcessInfo>)
        ensures
            res@.len() == found@.len(),
            forall|i: int| 0 <= i < found@.len() ==> shows_process(#[trigger] res@[i], found@[i]),
    {
        let ghost all = found@;
        let mut rest: Vec<ProcessInfo> = found;
        let mut out: Vec<JsProcessInfo> = Vec::new();
        while rest.len() > 0
            invariant
                all.len() == rest@.len() + out@.len(),
                rest@ == all.skip(out@.len() as int),
                forall|i: int| 0 <= i < out@.len() ==> shows_process(#[trigger] out@[i], all[i]),
            decreases rest@.len(),
        {
            let info: ProcessInfo = rest.remove(0);
            assert(rest@ =~= all.skip(out@.len() as int + 1));
            out.push(process_info_to_js(info));
        }
        out
    }
}

// ---------------------------------------------------------------------------
// Events
// ---------------------------------------------------------------------------

/// An unsigned number as the signed number with the same bits.
pub open spec fn signed(n: u64) -> int {
    if n <= i64::MAX {
        n as int
    } else {
        n - 0x1_0000_0000_0000_0000
    }
}

/// An unsigned number as the signed number with the same bits.
pub fn to_signed(n: u64) -> (res: i64)
    ensures
        res == signed(n),
{
    if n <= 0x7fff_ffff_ffff_ffff {
        n as i64
    } else {
        -((0xffff_ffff_ffff_ffff - n) as i64) - 1
    }
}

/// A boundary as it is shown, at a time.
pub open spec fn shown_event(ev: VadEvent, at_ns: Option<int>) -> EventView {
    EventView {
        kind: if ev is SpeechStart {
            "speechStart"@
        } else {
            "speechEnd"@
        },
        at_sample: signed(position(ev)),
        at_ns,
    }
}

/// Boundaries as they are shown, without times.
pub open spec fn shown_events(events: Seq<VadEvent>) -> Seq<EventView> {
    Seq::new(events.len(), |i: int| shown_event(events[i], None))
}

/// Shows a boundary to the script, with its time from the start of the recording where there is
/// one.
pub fn vad_event_to_js_abs(ev: VadEvent, at_ns: Option<i64>) -> (res: JsVadEvent)
    ensures
        res@ == shown_event(
            ev,
            match at_ns {
                Some(t) => Some(t as int),
                None => None,
            },
        ),
{
    match ev {
        VadEvent::SpeechStart { at_sample } => JsVadEvent {
            kind: "speechStart".to_owned(),
            at_sample: to_signed(at_sample),
            at_ns,
        },
        VadEvent::SpeechEnd { at_sample } => JsVadEvent {
            kind: "speechEnd".to_owned(),
            at_sample: to_signed(at_sample),
            at_ns,
        },
    }
}

/// Shows a boundary to the script, without a time.
pub fn vad_event_to_js(ev: VadEvent) -> (res: JsVadEvent)
    ensures
        res@ == shown_event(ev, None),
{
    vad_event_to_js_abs(ev, None)
}

/// Shows boundaries to the script, without times, in order.
pub fn vad_events_to_js(events: &Vec<VadEvent>) -> (res: Vec<JsVadEvent>)
    ensures
        event_views(res@) == shown_events(events@),
{
    let mut out: Vec<JsVadEvent> = Vec::new();
    let mut i: usize = 0;
    while i < events.len()
        invariant
            i <= events@.len(),
            out@.len() == i,
            forall|k: int| 0 <= k < i ==> (#[trigger] out@[k])@ == shown_event(events@[k], None),
        decreases events@.len() - i,
    {
        out.push(vad_event_to_js(events[i]));
        i = i + 1;
    }
    assert(event_views(out@) =~= shown_events(events@));
    out
}

/// The name, count and message of an event of a stream.
pub open spec fn event_parts(ev: Event) -> (Seq<char>, Option<int>, Option<Seq<char>>) {
    match ev {
        Event::ChunkDropped { count } => ("chunkDropped"@, Some(signed(count)), None),
        Event::StreamStalled => ("stalled"@, None, None),
        Event::StreamRecovered => ("recovered"@, None, None),
        Event::PermissionDenied => ("permissionDenied"@, None, None),
        Event::DeviceLost => ("deviceLost"@, None, None),
        Event::Error(m) => ("error"@, None, Some(m@)),
        Event::Other(m) => ("error"@, None, Some("unknown event: "@ + m@)),
    }
}

/// Whether an event of the script has these parts.
pub open spec fn has_parts(
    js: JsStreamEvent,
    parts: (Seq<char>, Option<int>, Option<Seq<char>>),
) -> bool {
    &&& js.kind@ == parts.0
    &&& match (js.count, parts.1) {
        (Some(g), Some(w)) => g == w,
        (None, None) => true,
        _ => false,
    }
    &&& opt(js.message) == parts.2
}

fn plain_event(kind: &str) -> (res: JsStreamEvent)
    ensures
        has_parts(res, (kind@, None, None)),
{
    JsStreamEvent { kind: kind.to_owned(), count: None, message: None }
}

/// Shows an event of a stream to the script. What is not known is shown as an error, and not
/// swallowed.
pub fn event_to_js(ev: Event) -> (res: JsStreamEvent)
    ensures
        has_parts(res, event_parts(ev)),
{
    match ev {
        Event::ChunkDropped { count } => JsStreamEvent {
            kind: "chunkDropped".to_owned(),
            count: Some(to_signed(count)),
            message: None,
        },
        Event::StreamStalled => plain_event("stalled"),
        Event::StreamRecovered => plain_event("recovered"),
        Event::PermissionDenied => plain_event("permissionDenied"),
        Event::DeviceLost => plain_event("deviceLost"),
        Event::Error(m) => JsStreamEvent { kind: "error".to_owned(), count: None, message: Some(m) },
        Event::Other(m) => JsStreamEvent {
            kind: "error".to_owned(),
            count: None,
            message: Some(crate::text::join("unknown event: ", m.as_str())),
        },
    }
}

/// Shows a change among the devices to the script. What is not known is shown as such, and not
/// swallowed.
pub fn device_event_to_js(ev: DeviceEvent) -> (res: JsDeviceEvent)
    ensures
        match ev {
            DeviceEvent::Added(info) => {
                &&& res.kind@ == "added"@
                &&& res.device matches Some(d) && shows_device(d, info)
                &&& res.id is None
                &&& res.source_kind is None
            },
            DeviceEvent::Removed { id } => {
                &&& res.kind@ == "removed"@
                &&& res.device is None
                &&& res.id == Some(id)
                &&& res.source_kind is None
            },
            DeviceEvent::DefaultChanged { kind, id } => {
                &&& res.kind@ == "defaultChanged"@
                &&& res.device is None
                &&& res.id == Some(id)
                &&& opt(res.source_kind) == Some(kind_name(kind))
            },
            DeviceEvent::Other => {
                &&& res.kind@ == "unknown"@
                &&& res.device is None
                &&& res.id is None
                &&& res.source_kind is None
            },
        },
{
    match ev {
        DeviceEvent::Added(info) => JsDeviceEvent {
            kind: "added".to_owned(),
            device: Some(device_info_to_js(info)),
            id: None,
            source_kind: None,
        },
        DeviceEvent::Removed { id } => JsDeviceEvent {
            kind: "removed".to_owned(),
            device: None,
            id: Some(id),
            source_kind: None,
        },
        DeviceEvent::DefaultChanged { kind, id } => JsDeviceEvent {
            kind: "defaultChanged".to_owned(),
            device: None,
            id: Some(id),
            source_kind: Some(source_kind_str(kind)),
        },
        DeviceEvent::Other => JsDeviceEvent {
            kind: "unknown".to_owned(),
            device: None,
            id: None,
            source_kind: None,
        },
    }
}

/// The names of the kinds of source.
pub proof fn lemma_kind_names(k: SourceKind)
    ensures
        kind_name(k) == "mic"@ <==> k == SourceKind::Mic,
        kind_name(k) == "system"@ <==> k == SourceKind::SystemLoopback,
        kind_name(k) == "process"@ <==> k == SourceKind::ProcessLoopback,
        kind_name(k) == "mix"@ <==> k == SourceKind::Mix,
{
    lemma_kinds_round_trip(SourceKind::Mic, kind_name(k));
    lemma_kinds_round_trip(SourceKind::SystemLoopback, kind_name(k));
    lemma_kinds_round_trip(SourceKind::ProcessLoopback, kind_name(k));
    lemma_kinds_round_trip(SourceKind::Mix, kind_name(k));
    lemma_kinds_round_trip(k, kind_name(k));
}

/// A number that has the sign bit is shown as negative, and any other as itself.
pub proof fn lemma_signed(n: u64)
    ensures
        n < 0x8000_0000_0000_0000 ==> signed(n) == n,
        n >= 0x8000_0000_0000_0000 ==> signed(n) == n - 0x1_0000_0000_0000_0000,
        i64::MIN <= signed(n) <= i64::MAX,
{
}

/// A boundary is shown by its kind, its position and the time that it is given.
pub proof fn lemma_shown_boundary(at: u64, at_ns: Option<int>)
    ensures
        shown_event(VadEvent::SpeechStart { at_sample: at }, at_ns).kind == "speechStart"@,
        shown_event(VadEvent::SpeechEnd { at_sample: at }, at_ns).kind == "speechEnd"@,
        shown_event(VadEvent::SpeechStart { at_sample: at }, at_ns).at_ns == at_ns,
        shown_event(VadEvent::SpeechEnd { at_sample: at }, at_ns).at_ns == at_ns,
        at <= i64::MAX ==> shown_event(VadEvent::SpeechStart { at_sample: at }, at_ns).at_sample
            == at,
        at <= i64::MAX ==> shown_event(VadEvent::SpeechEnd { at_sample: at }, at_ns).at_sample
            == at,
        position(VadEvent::SpeechStart { at_sample: at }) == at,
        position(VadEvent::SpeechEnd { at_sample: at }) == at,
{
}

/// Each event of a stream has a name of its own but for what is not known, which is an error. Only
/// dropped chunks have a count, and only errors a message.
pub proof fn lemma_event_parts(ev: Event)
    ensures
        event_parts(ev).0 == match ev {
            Event::ChunkDropped { .. } => "chunkDropped"@,
            Event::StreamStalled => "stalled"@,
            Event::StreamRecovered => "recovered"@,
            Event::PermissionDenied => "permissionDenied"@,
            Event::DeviceLost => "deviceLost"@,
            _ => "error"@,
        },
        event_parts(ev).1 is Some <==> ev is ChunkDropped,
        ev matches Event::ChunkDropped { count } ==> (count <= i64::MAX ==> event_parts(ev).1
            == Some(count as int)),
        event_parts(ev).2 is Some <==> ev is Error || ev is Other,
        ev matches Event::Error(m) ==> event_parts(ev).2 == Some(m@),
        ev matches Event::Other(m) ==> event_parts(ev).2 == Some("unknown event: "@ + m@),
{
}

/// A device is shown with all that is known of it.
pub proof fn lemma_shown_device(js: JsDeviceInfo, info: DeviceInfo)
    requires
        shows_device(js, info),
    ensures
        js.id@ == info.id@,
        js.name@ == info.name@,
        js.source_kind@ == kind_name(info.source_kind),
        js.sample_rate == info.sample_rate,
        js.channels == info.channels,
        js.is_loopback == info.is_loopback,
        js.is_default == info.is_default,
{
}

/// A process is shown with all that is known of it.
pub proof fn lemma_shown_process(js: JsProcessInfo, info: ProcessInfo)
    requires
        shows_process(js, info),
    ensures
        js.pid == info.pid,
        js.name@ == info.name@,
        js.executable == info.executable,
        js.bundle_id == info.bundle_id,
        js.is_output_active == info.is_output_active,
{
}

/// An event of a stream is shown with its name, its count and its message.
pub proof fn lemma_shown_parts(
    js: JsStreamEvent,
    parts: (Seq<char>, Option<int>, Option<Seq<char>>),
)
    requires
        has_parts(js, parts),
    ensures
        js.kind@ == parts.0,
        js.count is None <==> parts.1 is None,
        parts.1 matches Some(n) ==> js.count->0 == n,
        js.message is None <==> parts.2 is None,
        parts.2 matches Some(m) ==> js.message->0@ == m,
{
}

/// Boundaries are shown one for one, in order.
pub proof fn lemma_shown_boundaries(events: Seq<VadEvent>, i: int)
    ensures
        shown_events(events).len() == events.len(),
        0 <= i < events.len() ==> shown_events(events)[i].at_ns is None && shown_events(
            events,
        )[i].at_sample == signed(position(events[i])) && (shown_events(events)[i].kind
            == "speechStart"@ <==> events[i] is SpeechStart),
{
    reveal_strlit("speechStart");
    reveal_strlit("speechEnd");
    assert("speechStart"@.len() != "speechEnd"@.len());
}

} // verus!
