//! Hotplug: device events out of registry reports.

use std::collections::VecDeque;

use vstd::prelude::*;

use crate::linux::devices::{
    default_key, device_of, extract_json_name, json_name, make_device, names_defaults,
    read_default_key, read_record, record_of, GlobalAction,
};
use crate::linux::registry::{ObjectKind, Props};
use crate::table::Table;
use crate::text::{copy_opt, is_text, opt, opt_str};
use crate::types::{DeviceEvent, DeviceEventView, DeviceInfo, DeviceView, SourceKind};

verus! {

/// How many events wait for delivery at most.
pub const MAX_WATCH_EVENTS: usize = 1024;

/// A queue with one more event: at the limit the oldest goes first.
pub open spec fn enqueued<T>(q: Seq<T>, e: T) -> Seq<T> {
    if q.len() >= MAX_WATCH_EVENTS {
        q.skip(q.len() - MAX_WATCH_EVENTS + 1).push(e)
    } else {
        q.push(e)
    }
}

/// Queues an event for delivery.
pub fn enqueue_event(queue: &mut VecDeque<DeviceEvent>, ev: DeviceEvent)
    ensures
        final(queue)@ == enqueued(old(queue)@, ev),
{
    let ghost before = queue@;
    let ghost mut gone: int = 0;
    assert(before.skip(0) =~= before);
    while queue.len() >= MAX_WATCH_EVENTS
        invariant
            queue@ == before.skip(gone),
            0 <= gone <= before.len(),
            gone > 0 ==> before.len() - gone >= MAX_WATCH_EVENTS - 1,
            gone == 0 || before.len() >= MAX_WATCH_EVENTS,
        decreases queue@.len(),
    {
        let _oldest: Option<DeviceEvent> = queue.pop_front();
        proof {
            gone = gone + 1;
            assert(queue@ =~= before.skip(gone));
        }
    }
    queue.push_back(ev);
}

/// The queue never holds more than the limit, and what it holds is the newest events in the
/// order in which they came.
pub proof fn lemma_queue_keeps_newest<T>(q: Seq<T>, e: T)
    requires
        q.len() <= MAX_WATCH_EVENTS,
    ensures
        enqueued(q, e).len() <= MAX_WATCH_EVENTS,
        enqueued(q, e).last() == e,
        enqueued(q, e) == q.push(e).skip(q.len() + 1 - enqueued(q, e).len()),
        q.len() < MAX_WATCH_EVENTS ==> enqueued(q, e) == q.push(e),
{
    if q.len() >= MAX_WATCH_EVENTS {
        assert(enqueued(q, e) =~= q.push(e).skip(1));
    } else {
        assert(q.push(e).skip(0) =~= q.push(e));
    }
}

/// The devices that are there, and the events that wait.
pub struct Watch {
    /// The devices by their registry identifiers.
    pub devices: Map<u32, DeviceView>,
    /// Whether the first scan is over.
    pub scanned: bool,
    /// The name of the default output.
    pub default_sink: Option<Seq<char>>,
    /// The name of the default input.
    pub default_source: Option<Seq<char>>,
    /// The events that wait.
    pub queue: Seq<DeviceEventView>,
}

impl Watch {
    /// Nothing seen yet.
    pub open spec fn fresh() -> Watch {
        Watch {
            devices: Map::empty(),
            scanned: false,
            default_sink: None,
            default_source: None,
            queue: Seq::empty(),
        }
    }

    /// The queue with one more event.
    pub open spec fn with_event(self, e: DeviceEventView) -> Watch {
        Watch { queue: enqueued(self.queue, e), ..self }
    }

    /// The state once an object was reported: a device is remembered, and told of where the
    /// first scan is over.
    pub open spec fn arrived(self, id: u32, kind: ObjectKind, props: Option<Props>) -> (
        Watch,
        GlobalAction,
    ) {
        match props {
            None => (self, GlobalAction::Nothing),
            Some(p) => if kind == ObjectKind::Node {
                match record_of(p) {
                    Some(r) => {
                        let d = device_of(r, self.default_sink, self.default_source);
                        let known = Watch { devices: self.devices.insert(id, d), ..self };
                        if self.scanned {
                            (
                                known.with_event(DeviceEventView::Added(d)),
                                GlobalAction::Nothing,
                            )
                        } else {
                            (known, GlobalAction::Nothing)
                        }
                    },
                    None => (self, GlobalAction::Nothing),
                }
            } else if names_defaults(kind, p) {
                (self, GlobalAction::BindDefaults)
            } else {
                (self, GlobalAction::Nothing)
            },
        }
    }

    /// The state once an object has gone: told of where it was a device.
    pub open spec fn gone(self, id: u32) -> Watch {
        if self.devices.dom().contains(id) {
            Watch { devices: self.devices.remove(id), ..self }.with_event(
                DeviceEventView::Removed { id: self.devices[id].id },
            )
        } else {
            self
        }
    }

    /// The state once a default was named: a change after the first scan is told of, where it
    /// names a device.
    pub open spec fn named(self, key: Option<Seq<char>>, value: Option<Seq<char>>) -> Watch {
        match (default_key(key), value) {
            (Some(sink), Some(v)) => {
                let name = json_name(v);
                let before = if sink {
                    self.default_sink
                } else {
                    self.default_source
                };
                if before == name {
                    self
                } else {
                    let now = if sink {
                        Watch { default_sink: name, ..self }
                    } else {
                        Watch { default_source: name, ..self }
                    };
                    match name {
                        Some(n) => if self.scanned {
                            now.with_event(
                                DeviceEventView::DefaultChanged {
                                    kind: if sink {
                                        SourceKind::SystemLoopback
                                    } else {
                                        SourceKind::Mic
                                    },
                                    id: n,
                                },
                            )
                        } else {
                            now
                        },
                        None => now,
                    }
                }
            },
            _ => self,
        }
    }
}

/// The events with their texts as characters.
pub open spec fn events_view(q: Seq<DeviceEvent>) -> Seq<DeviceEventView> {
    q.map_values(|e: DeviceEvent| e@)
}

proof fn lemma_enqueued_view(q: Seq<DeviceEvent>, e: DeviceEvent)
    ensures
        events_view(enqueued(q, e)) == enqueued(events_view(q), e@),
{
    assert(events_view(enqueued(q, e)) =~= enqueued(events_view(q), e@));
}

/// Watches the registry for devices.
#[derive(Debug)]
pub struct WatchState {
    by_global_id: Table<DeviceInfo>,
    initial_scan_done: bool,
    default_sink: Option<String>,
    default_source: Option<String>,
    events: VecDeque<DeviceEvent>,
}

impl View for WatchState {
    type V = Watch;

    closed spec fn view(&self) -> Watch {
        Watch {
            devices: self.by_global_id@.map_values(|d: DeviceInfo| d@),
            scanned: self.initial_scan_done,
            default_sink: opt(self.default_sink),
            default_source: opt(self.default_source),
            queue: events_view(self.events@),
        }
    }
}

fn same_name(a: &Option<String>, b: &Option<String>) -> (res: bool)
    ensures
        res == (opt(*a) == opt(*b)),
{
    match b {
        Some(t) => is_text(a, t.as_str()),
        None => a.is_none(),
    }
}

impl WatchState {
    /// Nothing seen yet.
    pub fn new() -> (res: WatchState)
        ensures
            res@ == Watch::fresh(),
    {
        let w: WatchState = WatchState {
            by_global_id: Table::new(),
            initial_scan_done: false,
            default_sink: None,
            default_source: None,
            events: VecDeque::new(),
        };
        assert(w@.devices =~= Map::<u32, DeviceView>::empty());
        assert(w@.queue =~= Seq::<DeviceEventView>::empty());
        w
    }

    fn push(&mut self, ev: DeviceEvent)
        ensures
            final(self)@ == old(self)@.with_event(ev@),
    {
        proof {
            lemma_enqueued_view(self.events@, ev);
        }
        enqueue_event(&mut self.events, ev);
    }

    /// Takes the report of an object.
    pub fn on_global(&mut self, id: u32, kind: ObjectKind, props: &Option<Props>) -> (res:
        GlobalAction)
        ensures
            (final(self)@, res) == old(self)@.arrived(id, kind, *props),
    {
        let p: &Props = match props {
            Some(p) => p,
            None => {
                return GlobalAction::Nothing;
            },
        };
        match kind {
            ObjectKind::Node => {
                if let Some(r) = read_record(p) {
                    let info: DeviceInfo = make_device(
                        &r,
                        &self.default_sink,
                        &self.default_source,
                    );
                    let kept: DeviceInfo = info.copy();
                    let ghost before = self.by_global_id@;
                    self.by_global_id.insert(id, kept);
                    assert(before.insert(id, kept).map_values(|d: DeviceInfo| d@)
                        =~= before.map_values(|d: DeviceInfo| d@).insert(id, info@));
                    if self.initial_scan_done {
                        self.push(DeviceEvent::Added(info));
                    }
                }
                GlobalAction::Nothing
            },
            ObjectKind::Metadata => {
                if p.is("metadata.name", "default") {
                    GlobalAction::BindDefaults
                } else {
                    GlobalAction::Nothing
                }
            },
            _ => GlobalAction::Nothing,
        }
    }

    /// Takes the report that an object has gone.
    pub fn on_remove(&mut self, id: u32)
        ensures
            final(self)@ == old(self)@.gone(id),
    {
        let ghost before = self.by_global_id@;
        let gone: Option<DeviceInfo> = self.by_global_id.remove(id);
        assert(before.remove(id).map_values(|d: DeviceInfo| d@) =~= before.map_values(
            |d: DeviceInfo| d@,
        ).remove(id));
        if let Some(info) = gone {
            self.push(DeviceEvent::Removed { id: info.id });
        } else {
            assert(before.map_values(|d: DeviceInfo| d@).remove(id) =~= before.map_values(
                |d: DeviceInfo| d@,
            ));
        }
    }

    /// Takes a property of the metadata that names the defaults.
    pub fn on_property(&mut self, key: Option<&str>, value: Option<&str>)
        ensures
            final(self)@ == old(self)@.named(opt_str(key), opt_str(value)),
    {
        match (key, value) {
            (Some(k), Some(v)) => match read_default_key(k) {
                Some(sink) => {
                    let name: Option<String> = extract_json_name(v);
                    if sink {
                        if same_name(&self.default_sink, &name) {
                            return;
                        }
                        self.default_sink = copy_opt(&name);
                    } else {
                        if same_name(&self.default_source, &name) {
                            return;
                        }
                        self.default_source = copy_opt(&name);
                    }
                    if self.initial_scan_done {
                        if let Some(id) = name {
                            let kind: SourceKind = if sink {
                                SourceKind::SystemLoopback
                            } else {
                                SourceKind::Mic
                            };
                            self.push(DeviceEvent::DefaultChanged { kind, id });
                        }
                    }
                },
                None => {},
            },
            _ => {},
        }
    }

    /// The first scan is over.
    pub fn finish_scan(&mut self)
        ensures
            final(self)@ == (Watch { scanned: true, ..old(self)@ }),
    {
        self.initial_scan_done = true;
    }

    /// Takes the oldest event that waits.
    pub fn poll_event(&mut self) -> (res: Option<DeviceEvent>)
        ensures
            match res {
                Some(e) => old(self)@.queue.len() > 0 && e@ == old(self)@.queue[0]
                    && final(self)@ == (Watch { queue: old(self)@.queue.skip(1), ..old(self)@ }),
                None => old(self)@.queue.len() == 0 && final(self)@ == old(self)@,
            },
    {
        let ghost before = self.events@;
        let e: Option<DeviceEvent> = self.events.pop_front();
        proof {
            if before.len() > 0 {
                assert(events_view(self.events@) =~= events_view(before).skip(1));
            } else {
                assert(self.events@ =~= before);
            }
        }
        e
    }
}

/// Whatever is reported, no more events wait than the limit.
pub proof fn lemma_queue_is_bounded(
    w: Watch,
    id: u32,
    kind: ObjectKind,
    props: Option<Props>,
    key: Option<Seq<char>>,
    value: Option<Seq<char>>,
)
    requires
        w.queue.len() <= MAX_WATCH_EVENTS,
    ensures
        Watch::fresh().queue.len() <= MAX_WATCH_EVENTS,
        w.arrived(id, kind, props).0.queue.len() <= MAX_WATCH_EVENTS,
        w.gone(id).queue.len() <= MAX_WATCH_EVENTS,
        w.named(key, value).queue.len() <= MAX_WATCH_EVENTS,
{
}

/// During the first scan devices come and defaults are named without any event.
pub proof fn lemma_scan_is_silent(
    w: Watch,
    id: u32,
    kind: ObjectKind,
    props: Option<Props>,
    key: Option<Seq<char>>,
    value: Option<Seq<char>>,
)
    requires
        !w.scanned,
    ensures
        w.arrived(id, kind, props).0.queue == w.queue,
        w.named(key, value).queue == w.queue,
{
}

/// A device that goes is told of under the identifier under which it was told of when it came.
pub proof fn lemma_removed_names_added(w: Watch, id: u32, props: Props)
    requires
        w.scanned,
        w.queue.len() <= MAX_WATCH_EVENTS,
        record_of(props) is Some,
    ensures
        ({
            let there = w.arrived(id, ObjectKind::Node, Some(props)).0;
            let after = there.gone(id);
            &&& there.queue.last() matches DeviceEventView::Added(d) && after.queue.last() == (
            DeviceEventView::Removed { id: d.id })
            &&& !after.devices.dom().contains(id)
        }),
{
    let there = w.arrived(id, ObjectKind::Node, Some(props)).0;
    lemma_queue_keeps_newest(
        w.queue,
        DeviceEventView::Added(
            device_of(record_of(props)->0, w.default_sink, w.default_source),
        ),
    );
    lemma_queue_keeps_newest(
        there.queue,
        DeviceEventView::Removed { id: there.devices[id].id },
    );
}

/// Naming the default that is known already changes nothing.
pub proof fn lemma_same_default_is_silent(
    w: Watch,
    key: Option<Seq<char>>,
    value: Option<Seq<char>>,
)
    ensures
        w.named(key, value).named(key, value) == w.named(key, value),
{
}

/// A device that comes is remembered as it is listed: under its name, with its description, its
/// direction, its format and whether it is the default. Behind the first scan it is told of just
/// so, and it is told of last.
pub proof fn lemma_device_that_comes(
    w: Watch,
    id: u32,
    p: Props,
    name: Seq<char>,
    rate: Option<u32>,
    channels: Option<u16>,
)
    requires
        p.at("node.name"@) == Some(name),
        p.at("audio.rate"@) == match rate {
            Some(n) => Some(crate::text::decimal(n as nat)),
            None => None,
        },
        p.at("audio.channels"@) == match channels {
            Some(n) => Some(crate::text::decimal(n as nat)),
            None => None,
        },
        name.len() > 0,
        p.at("media.class"@) == Some("Audio/Sink"@) || p.at("media.class"@) == Some(
            "Audio/Source"@,
        ),
        w.queue.len() <= 1024,
    ensures
        ({
            let (now, action) = w.arrived(id, ObjectKind::Node, Some(p));
            let sink = p.at("media.class"@) == Some("Audio/Sink"@);
            let d = now.devices[id];
            &&& action == GlobalAction::Nothing
            &&& now.devices == w.devices.insert(id, d)
            &&& now.scanned == w.scanned && now.default_sink == w.default_sink
                && now.default_source == w.default_source
            &&& d.id == name
            &&& p.at("node.description"@) is None ==> d.name == name
            &&& p.at("node.description"@) is Some && p.at("node.description"@)->0.len() == 0
                ==> d.name == name
            &&& p.at("node.description"@) is Some && p.at("node.description"@)->0.len() > 0
                ==> d.name == p.at("node.description"@)->0
            &&& sink ==> d.source_kind == SourceKind::SystemLoopback
            &&& !sink ==> d.source_kind == SourceKind::Mic
            &&& d.is_loopback == sink
            &&& rate is Some ==> d.sample_rate == rate->0
            &&& rate is None ==> d.sample_rate == 48_000
            &&& channels is Some ==> d.channels == channels->0
            &&& channels is None ==> d.channels == 2
            &&& sink ==> (d.is_default <==> w.default_sink == Some(name))
            &&& !sink ==> (d.is_default <==> w.default_source == Some(name))
            &&& !w.scanned ==> now.queue == w.queue
            &&& w.scanned ==> now.queue.last() == DeviceEventView::Added(d)
            &&& w.scanned && w.queue.len() < 1024 ==> now.queue == w.queue.push(
                DeviceEventView::Added(d),
            )
        }),
{
    let l = crate::linux::devices::Listing {
        nodes: Seq::empty(),
        default_sink: w.default_sink,
        default_source: w.default_source,
    };
    crate::linux::devices::lemma_listed_device(l, p, name, rate, channels);
    let now = w.arrived(id, ObjectKind::Node, Some(p)).0;
    assert(now.devices[id] == device_of(record_of(p)->0, w.default_sink, w.default_source));
    lemma_queue_keeps_newest(w.queue, DeviceEventView::Added(now.devices[id]));
}

/// A node of another class, one without a name and any other object is not remembered.
pub proof fn lemma_nothing_else_comes(w: Watch, id: u32, kind: ObjectKind, p: Props)
    requires
        kind != ObjectKind::Node || (p.at("media.class"@) != Some("Audio/Sink"@) && p.at(
            "media.class"@,
        ) != Some("Audio/Source"@)) || p.at("node.name"@) is None || p.at("node.name"@)->0.len()
            == 0,
    ensures
        w.arrived(id, kind, Some(p)).0 == w,
        w.arrived(id, kind, None) == (w, GlobalAction::Nothing),
        w.arrived(id, kind, Some(p)).1 == GlobalAction::BindDefaults <==> kind
            == ObjectKind::Metadata && p.at("metadata.name"@) == Some("default"@),
{
}

/// A device that goes is forgotten and told of by its name, during the first scan too; anything
/// else that goes is not told of.
pub proof fn lemma_device_that_goes(w: Watch, id: u32)
    requires
        w.queue.len() < 1024,
    ensures
        w.devices.dom().contains(id) ==> {
            &&& w.gone(id).devices == w.devices.remove(id)
            &&& w.gone(id).queue == w.queue.push(
                DeviceEventView::Removed { id: w.devices[id].id },
            )
            &&& w.gone(id).scanned == w.scanned && w.gone(id).default_sink == w.default_sink
                && w.gone(id).default_source == w.default_source
        },
        !w.devices.dom().contains(id) ==> w.gone(id) == w,
{
}

/// Another default of a direction is remembered, and told of where the first scan is over and it
/// is there. The same default once more, another key and a key without a value change nothing.
pub proof fn lemma_default_that_changes(w: Watch, sink: bool, value: Seq<char>, other: Seq<char>)
    requires
        w.queue.len() < 1024,
        other != "default.audio.sink"@,
        other != "default.audio.source"@,
    ensures
        ({
            let key = if sink {
                "default.audio.sink"@
            } else {
                "default.audio.source"@
            };
            let now = w.named(Some(key), Some(value));
            let name = json_name(value);
            let before = if sink {
                w.default_sink
            } else {
                w.default_source
            };
            &&& sink ==> now.default_sink == name && now.default_source == w.default_source
            &&& !sink ==> now.default_source == name && now.default_sink == w.default_sink
            &&& now.devices == w.devices && now.scanned == w.scanned
            &&& now.queue != w.queue ==> w.scanned && name is Some && name != before
            &&& w.scanned && name is Some && name != before && sink ==> now.queue == w.queue.push(
                DeviceEventView::DefaultChanged { kind: SourceKind::SystemLoopback, id: name->0 },
            )
            &&& w.scanned && name is Some && name != before && !sink ==> now.queue == w.queue.push(
                DeviceEventView::DefaultChanged { kind: SourceKind::Mic, id: name->0 },
            )
            &&& w.named(Some(key), None) == w
        }),
        w.named(Some(other), Some(value)) == w,
        w.named(None, Some(value)) == w,
{
    reveal_strlit("default.audio.sink");
    reveal_strlit("default.audio.source");
    assert("default.audio.sink"@.len() != "default.audio.source"@.len());
}

/// A full queue drops its oldest event for a new one, and only that.
pub proof fn lemma_full_queue_drops_oldest<T>(q: Seq<T>, e: T)
    requires
        q.len() == 1024,
    ensures
        enqueued(q, e).len() == 1024,
        enqueued(q, e).last() == e,
        forall|i: int| 0 <= i < 1023 ==> #[trigger] enqueued(q, e)[i] == q[i + 1],
{
}

/// Before the first report nothing is known, nothing waits, and the first scan is not over.
pub proof fn lemma_nothing_seen_yet(id: u32)
    ensures
        !Watch::fresh().devices.dom().contains(id),
        !Watch::fresh().scanned,
        Watch::fresh().queue.len() == 0,
        Watch::fresh().default_sink is None && Watch::fresh().default_source is None,
{
}

} // verus!
