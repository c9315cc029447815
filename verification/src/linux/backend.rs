//! The capture backends and the device watcher: what starting and stopping them decides.

use vstd::prelude::*;

use crate::backend::{Lifecycle, Ready, StopSteps};
use crate::linux::devices::{NATIVE_CHANNELS, NATIVE_RATE};
use crate::linux::registry::{capture_node_name, PidSelect};
use crate::linux::watch::{Watch, WatchState};
use crate::text::{decimal, opt, same, to_decimal};
use crate::types::{DeviceEvent, DeviceInfo, Error, ErrorView, ProcessMode};

verus! {

/// How system audio is recorded.
#[derive(Debug)]
pub enum SystemPath {
    /// From the monitor of an output, the default one where none is named.
    Monitor(Option<String>),
    /// From all playback nodes but those of this process.
    AllButSelf,
}

/// What a start does.
#[derive(Debug)]
pub enum StartDecision {
    /// Nothing: it runs already.
    AlreadyRunning,
    /// It fails.
    Refuse(Error),
    /// It starts a thread.
    Spawn(SystemPath),
}

/// Whether an output of a name is among the devices.
pub open spec fn has_output(devices: Seq<DeviceInfo>, id: Seq<char>) -> bool {
    exists|i: int|
        0 <= i < devices.len() && (#[trigger] devices[i]).is_loopback && devices[i].id@ == id
}

fn find_output(devices: &Vec<DeviceInfo>, id: &str) -> (res: bool)
    ensures
        res == has_output(devices@, id@),
{
    let mut i: usize = 0;
    while i < devices.len()
        invariant
            i <= devices@.len(),
            forall|k: int|
                0 <= k < i ==> !((#[trigger] devices@[k]).is_loopback && devices@[k].id@ == id@),
        decreases devices@.len() - i,
    {
        if devices[i].is_loopback && same(devices[i].id.as_str(), id) {
            return true;
        }
        i = i + 1;
    }
    false
}

/// Records system audio.
#[derive(Debug)]
pub struct PwSystemBackend {
    exclude_self: bool,
    device_id: Option<String>,
    life: Lifecycle,
}

impl PwSystemBackend {
    /// Whether the own playback is left out.
    pub closed spec fn spec_exclude_self(&self) -> bool {
        self.exclude_self
    }

    /// The output that is recorded.
    pub closed spec fn spec_device_id(&self) -> Option<Seq<char>> {
        opt(self.device_id)
    }

    /// Whether it runs.
    pub closed spec fn life(&self) -> Lifecycle {
        self.life
    }

    /// A backend that was not started.
    pub fn new(exclude_self: bool, device_id: Option<String>) -> (res: PwSystemBackend)
        ensures
            res.spec_exclude_self() == exclude_self,
            res.spec_device_id() == opt(device_id),
            res.life() == Lifecycle::idle(),
    {
        PwSystemBackend { exclude_self, device_id, life: Lifecycle::new() }
    }

    /// Whether the own playback is left out.
    pub fn exclude_self(&self) -> (res: bool)
        ensures
            res == self.spec_exclude_self(),
    {
        self.exclude_self
    }

    /// The format that is recorded: rate and channels.
    pub fn native_format(&self) -> (res: (u32, u16))
        ensures
            res == (48_000u32, 2u16),
    {
        (NATIVE_RATE, NATIVE_CHANNELS)
    }

    /// Whether the devices have to be listed before a start, to check that the output is there.
    pub fn needs_device_check(&self) -> (res: bool)
        ensures
            res == (!self.life().running && !self.spec_exclude_self()
                && self.spec_device_id() is Some),
    {
        !self.life.running && !self.exclude_self && self.device_id.is_some()
    }

    /// Decides a start. `listed` is the device list where it was needed and could be had.
    ///
    /// An output that is not in the list is not found. Without a list the start goes on, so that
    /// what keeps the list away is reported by the start itself.
    pub fn decide_start(&self, listed: &Option<Vec<DeviceInfo>>) -> (res: StartDecision)
        ensures
            match res {
                StartDecision::AlreadyRunning => self.life().running,
                StartDecision::Refuse(e) => {
                    &&& !self.life().running
                    &&& !self.spec_exclude_self()
                    &&& e@ == ErrorView::DeviceNotFound
                    &&& self.spec_device_id() matches Some(id) && listed matches Some(d)
                        && !has_output(d@, id)
                },
                StartDecision::Spawn(path) => {
                    &&& !self.life().running
                    &&& path is AllButSelf <==> self.spec_exclude_self()
                    &&& path matches SystemPath::Monitor(id) ==> opt(id) == self.spec_device_id()
                    &&& self.spec_exclude_self() || self.spec_device_id() is None || listed is None
                        || has_output(listed->0@, self.spec_device_id()->0)
                },
            },
    {
        if self.life.running {
            return StartDecision::AlreadyRunning;
        }
        if self.exclude_self {
            return StartDecision::Spawn(SystemPath::AllButSelf);
        }
        match &self.device_id {
            Some(id) => {
                if let Some(devices) = listed {
                    if !find_output(devices, id.as_str()) {
                        return StartDecision::Refuse(Error::DeviceNotFound);
                    }
                }
                StartDecision::Spawn(SystemPath::Monitor(Some(id.as_str().to_owned())))
            },
            None => StartDecision::Spawn(SystemPath::Monitor(None)),
        }
    }

    /// The name of the capture thread.
    pub fn thread_name(&self) -> (res: &'static str)
        ensures
            res@ == if self.spec_exclude_self() {
                "flexaudio-pw-system-excl"@
            } else {
                "flexaudio-pw-system"@
            },
    {
        if self.exclude_self {
            "flexaudio-pw-system-excl"
        } else {
            "flexaudio-pw-system"
        }
    }

    /// Settles a start.
    pub fn settle_start(&mut self, ready: Ready<String>) -> (res: Result<(), Error>)
        ensures
            final(self).life() == old(self).life().settled(ready),
            final(self).spec_exclude_self() == old(self).spec_exclude_self(),
            final(self).spec_device_id() == old(self).spec_device_id(),
            match ready {
                Ready::Running => res is Ok,
                Ready::Failed(m) => res matches Err(e) && e@ == ErrorView::Backend(m@),
                Ready::Vanished => res matches Err(e) && e@ == ErrorView::Backend(
                    "pipewire setup thread terminated before signaling readiness"@,
                ),
                Ready::NotSpawned(m) => res matches Err(e) && e@ == ErrorView::Backend(
                    "spawn pipewire thread: "@ + m@,
                ),
            },
    {
        self.life.settle(
            ready,
            "spawn pipewire thread: ",
            "pipewire setup thread terminated before signaling readiness",
        )
    }

    /// Stops, however often it is called and whether or not it was started.
    pub fn stop(&mut self) -> (res: StopSteps)
        ensures
            final(self).life() == Lifecycle::idle(),
            final(self).spec_exclude_self() == old(self).spec_exclude_self(),
            final(self).spec_device_id() == old(self).spec_device_id(),
            res.notify == (old(self).life().running && old(self).life().notifier),
            res.join == old(self).life().thread,
    {
        self.life.stop()
    }
}

/// Records the audio of a process, or all but that.
#[derive(Debug)]
pub struct PwProcessBackend {
    target_pid: u32,
    mode: ProcessMode,
    life: Lifecycle,
}

impl PwProcessBackend {
    /// The target process.
    pub closed spec fn spec_target_pid(&self) -> u32 {
        self.target_pid
    }

    /// How it is treated.
    pub closed spec fn spec_mode(&self) -> ProcessMode {
        self.mode
    }

    /// Whether it runs.
    pub closed spec fn life(&self) -> Lifecycle {
        self.life
    }

    /// A backend that was not started.
    pub fn new(target_pid: u32, mode: ProcessMode) -> (res: PwProcessBackend)
        ensures
            res.spec_target_pid() == target_pid,
            res.spec_mode() == mode,
            res.life() == Lifecycle::idle(),
    {
        PwProcessBackend { target_pid, mode, life: Lifecycle::new() }
    }

    /// The target process.
    pub fn target_pid(&self) -> (res: u32)
        ensures
            res == self.spec_target_pid(),
    {
        self.target_pid
    }

    /// How the target is treated.
    pub fn mode(&self) -> (res: ProcessMode)
        ensures
            res == self.spec_mode(),
    {
        self.mode
    }

    /// The format that is recorded: rate and channels.
    pub fn native_format(&self) -> (res: (u32, u16))
        ensures
            res == (48_000u32, 2u16),
    {
        (NATIVE_RATE, NATIVE_CHANNELS)
    }

    /// Decides a start: which nodes are recorded, `None` where it runs already.
    pub fn decide_start(&self) -> (res: Option<PidSelect>)
        ensures
            res == if self.life().running {
                None
            } else {
                match self.spec_mode() {
                    ProcessMode::Include => Some(PidSelect::Include(self.spec_target_pid())),
                    ProcessMode::Exclude => Some(PidSelect::Exclude(self.spec_target_pid())),
                }
            },
    {
        if self.life.running {
            return None;
        }
        match self.mode {
            ProcessMode::Include => Some(PidSelect::Include(self.target_pid)),
            ProcessMode::Exclude => Some(PidSelect::Exclude(self.target_pid)),
        }
    }

    /// Settles a start.
    pub fn settle_start(&mut self, ready: Ready<String>) -> (res: Result<(), Error>)
        ensures
            final(self).life() == old(self).life().settled(ready),
            final(self).spec_target_pid() == old(self).spec_target_pid(),
            final(self).spec_mode() == old(self).spec_mode(),
            match ready {
                Ready::Running => res is Ok,
                Ready::Failed(m) => res matches Err(e) && e@ == ErrorView::Backend(m@),
                Ready::Vanished => res matches Err(e) && e@ == ErrorView::Backend(
                    "pipewire process setup thread terminated before signaling readiness"@,
                ),
                Ready::NotSpawned(m) => res matches Err(e) && e@ == ErrorView::Backend(
                    "spawn pipewire process thread: "@ + m@,
                ),
            },
    {
        self.life.settle(
            ready,
            "spawn pipewire process thread: ",
            "pipewire process setup thread terminated before signaling readiness",
        )
    }

    /// Stops, however often it is called and whether or not it was started.
    pub fn stop(&mut self) -> (res: StopSteps)
        ensures
            final(self).life() == Lifecycle::idle(),
            final(self).spec_target_pid() == old(self).spec_target_pid(),
            final(self).spec_mode() == old(self).spec_mode(),
            res.notify == (old(self).life().running && old(self).life().notifier),
            res.join == old(self).life().thread,
    {
        self.life.stop()
    }
}

/// The watcher of devices, whose thread reports into a [`WatchState`].
#[derive(Clone, Copy, Debug, PartialEq, Eq, Structural)]
pub struct PwDeviceWatcher {
    /// The life cycle of its thread.
    pub life: Lifecycle,
}

impl PwDeviceWatcher {
    /// A watcher whose thread runs, or why there is none.
    pub fn start(ready: Ready<String>) -> (res: Result<PwDeviceWatcher, Error>)
        ensures
            match ready {
                Ready::Running => res == Ok::<PwDeviceWatcher, Error>(
                    PwDeviceWatcher {
                        life: Lifecycle { running: true, thread: true, notifier: true },
                    },
                ),
                Ready::Failed(m) => res matches Err(e) && e@ == ErrorView::Backend(m@),
                Ready::Vanished => res matches Err(e) && e@ == ErrorView::Backend(
                    "pipewire watch thread terminated before signaling readiness"@,
                ),
                Ready::NotSpawned(m) => res matches Err(e) && e@ == ErrorView::Backend(
                    "spawn pipewire watch thread: "@ + m@,
                ),
            },
    {
        let mut life: Lifecycle = Lifecycle::new();
        match life.settle(
            ready,
            "spawn pipewire watch thread: ",
            "pipewire watch thread terminated before signaling readiness",
        ) {
            Ok(_) => Ok(PwDeviceWatcher { life }),
            Err(e) => Err(e),
        }
    }

    /// Takes the oldest event that waits, if there is one.
    pub fn poll_event(&mut self, state: &mut WatchState) -> (res: Option<DeviceEvent>)
        ensures
            *final(self) == *old(self),
            match res {
                Some(e) => old(state)@.queue.len() > 0 && e@ == old(state)@.queue[0]
                    && final(state)@ == (Watch {
                    queue: old(state)@.queue.skip(1),
                    ..old(state)@
                }),
                None => old(state)@.queue.len() == 0 && final(state)@ == old(state)@,
            },
    {
        state.poll_event()
    }

    /// Stops the thread. A second stop does nothing.
    pub fn stop(&mut self) -> (res: StopSteps)
        ensures
            final(self).life == Lifecycle::idle(),
            res.notify == (old(self).life.running && old(self).life.notifier),
            res.join == old(self).life.thread,
    {
        self.life.stop()
    }
}

// ---------------------------------------------------------------------------
// Properties of the capture streams
// ---------------------------------------------------------------------------

/// Keys and values as characters.
pub open spec fn entries_view(v: Seq<(&'static str, String)>) -> Seq<(Seq<char>, Seq<char>)> {
    v.map_values(|e: (&'static str, String)| (e.0@, e.1@))
}

/// The properties that every capture stream has.
pub open spec fn common_props() -> Seq<(Seq<char>, Seq<char>)> {
    seq![
        ("media.type"@, "Audio"@),
        ("media.category"@, "Capture"@),
        ("media.class"@, "Stream/Input/Audio"@),
        ("media.role"@, "Music"@),
    ]
}

fn common() -> (res: Vec<(&'static str, String)>)
    ensures
        entries_view(res@) == common_props(),
{
    let mut v: Vec<(&'static str, String)> = Vec::new();
    v.push(("media.type", "Audio".to_owned()));
    v.push(("media.category", "Capture".to_owned()));
    v.push(("media.class", "Stream/Input/Audio".to_owned()));
    v.push(("media.role", "Music".to_owned()));
    assert(entries_view(v@) =~= common_props());
    v
}

/// The properties of the stream that records the monitor of an output. Only a named output is
/// targeted; otherwise the stream goes to the default one.
pub fn system_stream_props(device_id: &Option<String>) -> (res: Vec<(&'static str, String)>)
    ensures
        entries_view(res@) == match opt(*device_id) {
            Some(id) => common_props().push(("stream.capture.sink"@, "true"@)).push(
                ("target.object"@, id),
            ),
            None => common_props().push(("stream.capture.sink"@, "true"@)),
        },
{
    let mut v: Vec<(&'static str, String)> = common();
    let ghost first = v@;
    v.push(("stream.capture.sink", "true".to_owned()));
    assert(entries_view(v@) =~= entries_view(first).push(("stream.capture.sink"@, "true"@)));
    if let Some(id) = device_id {
        let ghost second = v@;
        v.push(("target.object", id.as_str().to_owned()));
        assert(entries_view(v@) =~= entries_view(second).push(("target.object"@, id@)));
    }
    v
}

/// The properties of the stream that records playback nodes: it is named, so that its inputs
/// can be found, and it is linked by hand alone.
pub fn process_stream_props(select: PidSelect) -> (res: Vec<(&'static str, String)>)
    ensures
        entries_view(res@) == common_props().push(
            ("node.name"@, "flexaudio-capture-"@ + decimal(select.of() as nat)),
        ),
{
    let mut v: Vec<(&'static str, String)> = common();
    let ghost first = v@;
    let name: String = capture_node_name(select.pid());
    let ghost shown = name@;
    v.push(("node.name", name));
    assert(entries_view(v@) =~= entries_view(first).push(("node.name"@, shown)));
    v
}

/// The properties of one link: from an output of a playback node to an input of the recording
/// node.
pub fn link_props(node: u32, self_node: u32, pair: (u32, u32)) -> (res: Vec<
    (&'static str, String),
>)
    ensures
        entries_view(res@) == seq![
            ("link.output.node"@, decimal(node as nat)),
            ("link.output.port"@, decimal(pair.0 as nat)),
            ("link.input.node"@, decimal(self_node as nat)),
            ("link.input.port"@, decimal(pair.1 as nat)),
        ],
{
    let mut v: Vec<(&'static str, String)> = Vec::new();
    v.push(("link.output.node", to_decimal(node as u64)));
    v.push(("link.output.port", to_decimal(pair.0 as u64)));
    v.push(("link.input.node", to_decimal(self_node as u64)));
    v.push(("link.input.port", to_decimal(pair.1 as u64)));
    assert(entries_view(v@) =~= seq![
        ("link.output.node"@, decimal(node as nat)),
        ("link.output.port"@, decimal(pair.0 as nat)),
        ("link.input.node"@, decimal(self_node as nat)),
        ("link.input.port"@, decimal(pair.1 as nat)),
    ]);
    v
}

/// An output counts as there exactly where a device of that identifier is one that is recorded by
/// its monitor.
pub proof fn lemma_outputs_that_are_there(devices: Seq<DeviceInfo>, id: Seq<char>)
    ensures
        has_output(devices, id) ==> exists|i: int|
            0 <= i < devices.len() && (#[trigger] devices[i]).is_loopback && devices[i].id@ == id,
        forall|i: int|
            0 <= i < devices.len() && (#[trigger] devices[i]).is_loopback && devices[i].id@ == id
                ==> has_output(devices, id),
{
}

/// Every capture stream is a stream of audio input.
pub proof fn lemma_common_properties()
    ensures
        common_props().len() == 4,
        common_props()[0] == ("media.type"@, "Audio"@),
        common_props()[1] == ("media.category"@, "Capture"@),
        common_props()[2] == ("media.class"@, "Stream/Input/Audio"@),
        common_props()[3] == ("media.role"@, "Music"@),
{
}

} // verus!
