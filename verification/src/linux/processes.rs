//! Listing of processes that play audio, from the registry.

use vstd::prelude::*;

use crate::linux::registry::{
    as_number, node_entry, pid_of, read_node_entry, resolve_node_pid, NodeEntry, ObjectKind, Props,
};
use crate::table::{ordered, Table};
use crate::text::{
    content, executable_basename, last_component, non_empty, opt, opt_str, strip_suffix,
    without_suffix,
};
use crate::types::{ProcessInfo, ProcessView};

verus! {

/// How long a listing takes at most (ms).
pub const LIST_DEADLINE_MS: u64 = 2_000;

/// A playback node.
#[derive(Debug)]
pub struct OutputNode {
    /// Its client and process.
    pub entry: NodeEntry,
    /// The name that its application gave it.
    pub app_name: Option<String>,
    /// Whether it plays, once that is known.
    pub running: Option<bool>,
}

/// A playback node, its texts as characters.
pub struct OutputView {
    /// Its client and process.
    pub entry: NodeEntry,
    /// The name that its application gave it.
    pub app_name: Option<Seq<char>>,
    /// Whether it plays, once that is known.
    pub running: Option<bool>,
}

impl View for OutputNode {
    type V = OutputView;

    open spec fn view(&self) -> OutputView {
        OutputView { entry: self.entry, app_name: opt(self.app_name), running: self.running }
    }
}

/// What one look at the registry found.
#[derive(Debug)]
pub struct RegistrySnapshot {
    /// The processes of the clients.
    pub client_pid: Table<u32>,
    /// The names of the clients.
    pub client_name: Table<String>,
    /// The playback nodes.
    pub nodes: Table<OutputNode>,
}

/// What one look at the registry found, its texts as characters.
pub struct Snapshot {
    /// The processes of the clients.
    pub client_pid: Map<u32, u32>,
    /// The names of the clients.
    pub client_name: Map<u32, Seq<char>>,
    /// The playback nodes.
    pub nodes: Map<u32, OutputView>,
}

impl View for RegistrySnapshot {
    type V = Snapshot;

    open spec fn view(&self) -> Snapshot {
        Snapshot {
            client_pid: self.client_pid@,
            client_name: self.client_name@.map_values(|s: String| s@),
            nodes: self.nodes@.map_values(|n: OutputNode| n@),
        }
    }
}

/// What a report calls for.
#[derive(Clone, Copy, Debug, PartialEq, Eq, Structural)]
pub enum SnapshotAction {
    /// Nothing.
    Nothing,
    /// Bind the node, to learn whether it plays.
    BindNode,
}

impl Snapshot {
    /// Nothing found yet.
    pub open spec fn fresh() -> Snapshot {
        Snapshot { client_pid: Map::empty(), client_name: Map::empty(), nodes: Map::empty() }
    }

    /// The state once an object was reported, and what that calls for.
    pub open spec fn arrived(self, id: u32, kind: ObjectKind, props: Option<Props>) -> (
        Snapshot,
        SnapshotAction,
    ) {
        match props {
            None => (self, SnapshotAction::Nothing),
            Some(p) => match kind {
                ObjectKind::Client => match as_number(p.at("pipewire.sec.pid"@)) {
                    Some(pid) => (
                        Snapshot {
                            client_pid: self.client_pid.insert(id, pid),
                            client_name: match content(p.at("application.name"@)) {
                                Some(name) => self.client_name.insert(id, name),
                                None => self.client_name,
                            },
                            ..self
                        },
                        SnapshotAction::Nothing,
                    ),
                    None => (self, SnapshotAction::Nothing),
                },
                ObjectKind::Node => if p.at("media.class"@) == Some("Stream/Output/Audio"@) {
                    (
                        Snapshot {
                            nodes: self.nodes.insert(
                                id,
                                OutputView {
                                    entry: node_entry(p),
                                    app_name: content(p.at("application.name"@)),
                                    running: None,
                                },
                            ),
                            ..self
                        },
                        SnapshotAction::BindNode,
                    )
                } else {
                    (self, SnapshotAction::Nothing)
                },
                _ => (self, SnapshotAction::Nothing),
            },
        }
    }

    /// The state once a node said whether it plays.
    pub open spec fn informed(self, id: u32, running: bool) -> Snapshot {
        if self.nodes.dom().contains(id) {
            Snapshot {
                nodes: self.nodes.insert(
                    id,
                    OutputView { running: Some(running), ..self.nodes[id] },
                ),
                ..self
            }
        } else {
            self
        }
    }

    /// The display name of a node: its own, else that of its client, else none.
    pub open spec fn name_of(self, node: OutputView) -> Seq<char> {
        match node.app_name {
            Some(n) => n,
            None => match node.entry.owning_client_id {
                Some(c) => if self.client_name.dom().contains(c) {
                    self.client_name[c]
                } else {
                    Seq::empty()
                },
                None => Seq::empty(),
            },
        }
    }

    /// The processes of those of the nodes whose process is known and not 0, in order, their
    /// executables left open.
    pub open spec fn processes(self, keys: Seq<u32>) -> Seq<ProcessView>
        decreases keys.len(),
    {
        if keys.len() == 0 {
            Seq::empty()
        } else {
            let rest = self.processes(keys.drop_last());
            let node = self.nodes[keys.last()];
            match pid_of(node.entry, self.client_pid) {
                Some(pid) => if pid == 0 {
                    rest
                } else {
                    rest.push(
                        ProcessView {
                            pid,
                            name: self.name_of(node),
                            executable: None,
                            bundle_id: None,
                            is_output_active: node.running,
                        },
                    )
                },
                None => rest,
            }
        }
    }

    /// The processes in order of the identifiers of their nodes.
    pub open spec fn listed(self) -> Seq<ProcessView> {
        self.processes(ordered(self.nodes.dom()))
    }
}

impl RegistrySnapshot {
    /// Nothing found yet.
    pub fn new() -> (res: RegistrySnapshot)
        ensures
            res@ == Snapshot::fresh(),
    {
        let s: RegistrySnapshot = RegistrySnapshot {
            client_pid: Table::new(),
            client_name: Table::new(),
            nodes: Table::new(),
        };
        assert(s@.client_name =~= Map::<u32, Seq<char>>::empty());
        assert(s@.nodes =~= Map::<u32, OutputView>::empty());
        s
    }

    /// Takes the report of an object.
    pub fn on_global(&mut self, id: u32, kind: ObjectKind, props: &Option<Props>) -> (res:
        SnapshotAction)
        ensures
            (final(self)@, res) == old(self)@.arrived(id, kind, *props),
    {
        let p: &Props = match props {
            Some(p) => p,
            None => {
                return SnapshotAction::Nothing;
            },
        };
        match kind {
            ObjectKind::Client => {
                if let Some(pid) = p.number("pipewire.sec.pid") {
                    self.client_pid.insert(id, pid);
                    if let Some(name) = non_empty(p.get("application.name")) {
                        let ghost before = self.client_name@;
                        self.client_name.insert(id, name);
                        assert(before.insert(id, name).map_values(|s: String| s@)
                            =~= before.map_values(|s: String| s@).insert(id, name@));
                    }
                }
                SnapshotAction::Nothing
            },
            ObjectKind::Node => {
                if !p.is("media.class", "Stream/Output/Audio") {
                    return SnapshotAction::Nothing;
                }
                let node: OutputNode = OutputNode {
                    entry: read_node_entry(p),
                    app_name: non_empty(p.get("application.name")),
                    running: None,
                };
                let ghost before = self.nodes@;
                self.nodes.insert(id, node);
                assert(before.insert(id, node).map_values(|n: OutputNode| n@)
                    =~= before.map_values(|n: OutputNode| n@).insert(id, node@));
                SnapshotAction::BindNode
            },
            _ => SnapshotAction::Nothing,
        }
    }

    /// Takes from a node whether it plays.
    pub fn on_info(&mut self, id: u32, running: bool)
        ensures
            final(self)@ == old(self)@.informed(id, running),
    {
        let ghost before = self.nodes@;
        match self.nodes.remove(id) {
            Some(node) => {
                let informed: OutputNode = OutputNode {
                    entry: node.entry,
                    app_name: node.app_name,
                    running: Some(running),
                };
                self.nodes.insert(id, informed);
                assert(self.nodes@.map_values(|n: OutputNode| n@) =~= before.map_values(
                    |n: OutputNode| n@,
                ).insert(id, informed@));
            },
            None => {
                assert(before.remove(id) =~= before);
            },
        }
    }
}

proof fn lemma_processes_grow(s: Snapshot, keys: Seq<u32>, n: int)
    requires
        0 <= n <= keys.len(),
    ensures
        s.processes(keys.take(n)).len() <= s.processes(keys).len(),
        forall|i: int|
            0 <= i < s.processes(keys.take(n)).len() ==> #[trigger] s.processes(keys.take(n))[i]
                == s.processes(keys)[i],
    decreases keys.len() - n,
{
    if n == keys.len() {
        assert(keys.take(n) =~= keys);
    } else {
        lemma_processes_grow(s, keys, n + 1);
        assert(keys.take(n + 1).drop_last() =~= keys.take(n));
        assert forall|i: int| 0 <= i < s.processes(keys.take(n)).len() implies #[trigger] s.processes(
            keys.take(n),
        )[i] == s.processes(keys)[i] by {
            assert(s.processes(keys.take(n + 1))[i] == s.processes(keys.take(n))[i]);
        }
    }
}

/// The processes of a snapshot, their executables looked up by `executable_of`.
///
/// A node whose process is not known, or is 0, is left out. The order is that of the node
/// identifiers. Only processes that are listed are looked up.
pub fn build_process_list<F: Fn(u32) -> Option<String>>(
    snapshot: &RegistrySnapshot,
    executable_of: F,
) -> (res: Vec<ProcessInfo>)
    requires
        forall|i: int|
            0 <= i < snapshot@.listed().len() ==> call_requires(
                executable_of,
                ((#[trigger] snapshot@.listed()[i]).pid,),
            ),
    ensures
        res@.len() == snapshot@.listed().len(),
        forall|i: int|
            0 <= i < res@.len() ==> (#[trigger] res@[i])@ == (ProcessView {
                executable: opt(res@[i].executable),
                ..snapshot@.listed()[i]
            }) && call_ensures(executable_of, (res@[i].pid,), res@[i].executable),
        forall|i: int| 0 <= i < res@.len() ==> (#[trigger] res@[i]).pid != 0,
{
    let n: usize = snapshot.nodes.len();
    let mut out: Vec<ProcessInfo> = Vec::new();
    let mut i: usize = 0;
    let ghost keys = snapshot.nodes.keys();
    assert(snapshot@.nodes.dom() =~= snapshot.nodes@.dom());
    while i < n
        invariant
            n == keys.len(),
            keys == snapshot.nodes.keys(),
            i <= n,
            snapshot@.listed() == snapshot@.processes(keys),
            forall|k: int|
                0 <= k < snapshot@.listed().len() ==> call_requires(
                    executable_of,
                    ((#[trigger] snapshot@.listed()[k]).pid,),
                ),
            out@.len() == snapshot@.processes(keys.take(i as int)).len(),
            forall|k: int|
                0 <= k < out@.len() ==> (#[trigger] out@[k])@ == (ProcessView {
                    executable: opt(out@[k].executable),
                    ..snapshot@.processes(keys.take(i as int))[k]
                }) && call_ensures(executable_of, (out@[k].pid,), out@[k].executable),
            forall|k: int| 0 <= k < out@.len() ==> (#[trigger] out@[k]).pid != 0,
        decreases n - i,
    {
        let node: &OutputNode = snapshot.nodes.value_at(i);
        proof {
            assert(keys.take(i + 1).drop_last() =~= keys.take(i as int));
            assert(keys.take(i + 1).last() == keys[i as int]);
            assert(snapshot@.nodes[keys[i as int]] == node@);
        }
        let pid: u32 = match resolve_node_pid(&node.entry, &snapshot.client_pid) {
            Some(pid) => pid,
            None => 0,
        };
        if pid != 0 {
            let name: String = match &node.app_name {
                Some(t) => t.as_str().to_owned(),
                None => match node.entry.owning_client_id {
                    Some(c) => match snapshot.client_name.get(c) {
                        Some(t) => t.as_str().to_owned(),
                        None => String::new(),
                    },
                    None => String::new(),
                },
            };
            assert(name@ =~= snapshot@.name_of(node@));
            proof {
                lemma_processes_grow(snapshot@, keys, i + 1);
                assert(snapshot@.processes(keys.take(i + 1))[out@.len() as int].pid == pid);
                assert(snapshot@.listed()[out@.len() as int].pid == pid);
            }
            let executable: Option<String> = executable_of(pid);
            let p: ProcessInfo = ProcessInfo {
                pid,
                name,
                executable,
                bundle_id: None,
                is_output_active: node.running,
            };
            out.push(p);
        }
        i = i + 1;
    }
    assert(keys.take(n as int) =~= keys);
    out
}

/// The name of an executable behind a link: a mark that the file was deleted is dropped.
pub open spec fn exe_name(path: Seq<char>) -> Option<Seq<char>> {
    let name = last_component(without_suffix(path, " (deleted)"@));
    if name.len() > 0 {
        Some(name)
    } else {
        None
    }
}

/// The name of an executable behind a link.
pub fn clean_exe_path(path: &str) -> (res: Option<String>)
    ensures
        opt(res) == exe_name(path@),
{
    executable_basename(strip_suffix(path, " (deleted)"))
}

/// The executable of a process: the name behind the link to it, else the name that the kernel
/// keeps, without white space at its ends. Either is `None` where it could not be read.
pub fn choose_executable(exe_link: Option<&str>, comm: Option<&str>) -> (res: Option<String>)
    ensures
        opt(res) == match exe_link {
            Some(path) => match exe_name(path@) {
                Some(name) => Some(name),
                None => content(opt_str(comm)),
            },
            None => content(opt_str(comm)),
        },
{
    let from_exe: Option<String> = match exe_link {
        Some(path) => clean_exe_path(path),
        None => None,
    };
    match from_exe {
        Some(name) => Some(name),
        None => non_empty(comm),
    }
}

/// Settles a listing: without a single playback node it must have been completed in time.
pub fn finish_snapshot(complete: bool, collected: RegistrySnapshot) -> (res: Result<
    RegistrySnapshot,
    String,
>)
    ensures
        if !complete && collected@.nodes == Map::<u32, OutputView>::empty() {
            res matches Err(m) && m@ == "pipewire registry did not answer within 2000 ms"@
        } else {
            res matches Ok(s) && s@ == collected@
        },
{
    let none: bool = collected.nodes.is_empty();
    proof {
        if collected.nodes@ == Map::<u32, OutputNode>::empty() {
            assert(collected@.nodes =~= Map::<u32, OutputView>::empty());
        } else if collected@.nodes == Map::<u32, OutputView>::empty() {
            assert(collected.nodes@.dom() =~= collected@.nodes.dom());
            assert(collected.nodes@ =~= Map::<u32, OutputNode>::empty());
        }
    }
    if !complete && none {
        return Err("pipewire registry did not answer within 2000 ms".to_owned());
    }
    Ok(collected)
}

/// Whether the connection took so long that the registry is not asked any more.
pub fn connect_too_late(elapsed_ms: u64) -> (res: Result<(), String>)
    ensures
        if elapsed_ms >= LIST_DEADLINE_MS {
            res matches Err(m) && m@ == "pipewire connect did not finish within 2000 ms"@
        } else {
            res is Ok
        },
{
    if elapsed_ms >= LIST_DEADLINE_MS {
        Err("pipewire connect did not finish within 2000 ms".to_owned())
    } else {
        Ok(())
    }
}

/// The time that is left for the registry after the connection (ms), none where it is up.
pub fn time_left(elapsed_ms: u64) -> (res: u64)
    ensures
        res == if elapsed_ms >= LIST_DEADLINE_MS {
            0
        } else {
            LIST_DEADLINE_MS - elapsed_ms
        },
{
    if elapsed_ms >= LIST_DEADLINE_MS {
        0
    } else {
        LIST_DEADLINE_MS - elapsed_ms
    }
}

/// No process is listed without a number.
pub proof fn lemma_listed_have_numbers(s: Snapshot, keys: Seq<u32>, i: int)
    requires
        0 <= i < s.processes(keys).len(),
    ensures
        s.processes(keys)[i].pid != 0,
    decreases keys.len(),
{
    if i < s.processes(keys.drop_last()).len() {
        lemma_listed_have_numbers(s, keys.drop_last(), i);
    }
}

/// Every process that is listed can be recorded: it is the process of a playback node, resolved
/// as capture resolves it.
pub proof fn lemma_listed_can_be_recorded(s: Snapshot, keys: Seq<u32>, i: int)
    requires
        0 <= i < s.processes(keys).len(),
    ensures
        exists|k: int|
            0 <= k < keys.len() && pid_of(
                s.nodes[#[trigger] keys[k]].entry,
                s.client_pid,
            ) == Some(s.processes(keys)[i].pid),
    decreases keys.len(),
{
    let shorter = keys.drop_last();
    let node = s.nodes[keys.last()];
    if i < s.processes(shorter).len() {
        lemma_listed_can_be_recorded(s, shorter, i);
        let k = choose|k: int|
            0 <= k < shorter.len() && pid_of(
                s.nodes[#[trigger] shorter[k]].entry,
                s.client_pid,
            ) == Some(s.processes(shorter)[i].pid);
        assert(keys[k] == shorter[k]);
    } else {
        assert(keys[keys.len() - 1] == keys.last());
    }
}

proof fn lemma_listed_ids(s: Snapshot, keys: Seq<u32>) -> (ids: Seq<u32>)
    requires
        crate::table::ascending(keys),
    ensures
        crate::table::ascending(ids),
        forall|id: u32| #[trigger]
            ids.contains(id) <==> keys.contains(id) && match pid_of(
                s.nodes[id].entry,
                s.client_pid,
            ) {
                Some(pid) => pid != 0,
                None => false,
            },
        s.processes(keys).len() == ids.len(),
        forall|i: int|
            0 <= i < ids.len() ==> {
                let p = #[trigger] s.processes(keys)[i];
                let node = s.nodes[ids[i]];
                &&& pid_of(node.entry, s.client_pid) == Some(p.pid)
                &&& p.is_output_active == node.running
                &&& p.bundle_id is None
                &&& p.name == s.name_of(node)
            },
    decreases keys.len(),
{
    if keys.len() == 0 {
        Seq::empty()
    } else {
        let less = keys.drop_last();
        let rest = lemma_listed_ids(s, less);
        let last = keys.last();
        let there = match pid_of(s.nodes[last].entry, s.client_pid) {
            Some(pid) => pid != 0,
            None => false,
        };
        let ids = if there {
            rest.push(last)
        } else {
            rest
        };
        assert forall|id: u32| #[trigger] ids.contains(id) <==> keys.contains(id) && match pid_of(
            s.nodes[id].entry,
            s.client_pid,
        ) {
            Some(pid) => pid != 0,
            None => false,
        } by {
            assert(rest.contains(id) ==> less.contains(id));
            if less.contains(id) {
                let x = choose|x: int| 0 <= x < less.len() && less[x] == id;
                assert(keys[x] == id);
            }
            if keys.contains(id) && id != last {
                let x = choose|x: int| 0 <= x < keys.len() && keys[x] == id;
                assert(less[x] == id);
            }
            assert(keys[keys.len() - 1] == last);
            if rest.contains(id) {
                let x = choose|x: int| 0 <= x < rest.len() && rest[x] == id;
                assert(ids[x] == id);
            }
            if ids.contains(id) {
                let x = choose|x: int| 0 <= x < ids.len() && ids[x] == id;
                if x < rest.len() {
                    assert(rest[x] == id);
                }
            }
            if there {
                assert(ids[rest.len() as int] == last);
            }
        }
        assert forall|i: int, j: int| 0 <= i < j < ids.len() implies ids[i] < ids[j] by {
            assert(ids[i] == rest[i]);
            if j < rest.len() {
                assert(ids[j] == rest[j]);
            } else {
                assert(rest.contains(rest[i]));
                let x = choose|x: int| 0 <= x < less.len() && less[x] == rest[i];
                assert(keys[x] < keys[keys.len() - 1]);
            }
        }
        assert forall|i: int| 0 <= i < ids.len() implies {
            let p = #[trigger] s.processes(keys)[i];
            let node = s.nodes[ids[i]];
            &&& pid_of(node.entry, s.client_pid) == Some(p.pid)
            &&& p.is_output_active == node.running
            &&& p.bundle_id is None
            &&& p.name == s.name_of(node)
        } by {
            if i < rest.len() {
                assert(s.processes(keys)[i] == s.processes(less)[i]);
                assert(ids[i] == rest[i]);
            }
        }
        ids
    }
}

/// The list is complete: every playback node whose process is known and not 0 has exactly one
/// entry, whether it plays, is idle or has not said, in the order of the node identifiers. The
/// entry has the process of the node, and says of playing what the node said of it. Its name is
/// the node's own, else that of the client of the node, else empty.
pub proof fn lemma_list_is_complete(s: Snapshot) -> (ids: Seq<u32>)
    ensures
        forall|i: int, j: int| 0 <= i < j < ids.len() ==> (#[trigger] ids[i]) < (#[trigger] ids[j]),
        forall|id: u32| #[trigger]
            ids.contains(id) <==> s.nodes.dom().contains(id) && match pid_of(
                s.nodes[id].entry,
                s.client_pid,
            ) {
                Some(pid) => pid != 0,
                None => false,
            },
        s.listed().len() == ids.len(),
        forall|i: int|
            0 <= i < ids.len() ==> {
                let p = #[trigger] s.listed()[i];
                let node = s.nodes[ids[i]];
                &&& pid_of(node.entry, s.client_pid) == Some(p.pid)
                &&& p.is_output_active == node.running
                &&& p.bundle_id is None
                &&& node.app_name is Some ==> p.name == node.app_name->0
                &&& node.app_name is None ==> match node.entry.owning_client_id {
                    Some(c) => if s.client_name.dom().contains(c) {
                        p.name == s.client_name[c]
                    } else {
                        p.name.len() == 0
                    },
                    None => p.name.len() == 0,
                }
            },
{
    let keys = ordered(s.nodes.dom());
    crate::table::lemma_always_listed(s.nodes.dom());
    let ids = lemma_listed_ids(s, keys);
    assert forall|id: u32| #[trigger] ids.contains(id) <==> s.nodes.dom().contains(id)
        && match pid_of(s.nodes[id].entry, s.client_pid) {
        Some(pid) => pid != 0,
        None => false,
    } by {
        assert(keys.contains(id) <==> s.nodes.dom().contains(id));
    }
    assert forall|i: int| 0 <= i < ids.len() implies pid_of(
        s.nodes[ids[i]].entry,
        s.client_pid,
    ) == Some((#[trigger] s.listed()[i]).pid) && s.listed()[i].is_output_active
        == s.nodes[ids[i]].running && s.listed()[i].bundle_id is None && s.listed()[i].name
        == s.name_of(s.nodes[ids[i]]) by {
        assert(s.processes(keys)[i] == s.listed()[i]);
    }
    ids
}

/// A playback node that is reported is bound, to learn whether it plays, and is remembered with
/// the client and the process that it names and with its name, where that holds more than white
/// space; a node of any other class is not looked at.
pub proof fn lemma_playback_node_is_collected(
    s: Snapshot,
    id: u32,
    p: Props,
    client: Option<u32>,
    pid: Option<u32>,
)
    requires
        p.at("client.id"@) == match client {
            Some(c) => Some(crate::text::decimal(c as nat)),
            None => None,
        },
        p.at("pipewire.sec.pid"@) == match pid {
            Some(n) => Some(crate::text::decimal(n as nat)),
            None => None,
        },
    ensures
        p.at("media.class"@) != Some("Stream/Output/Audio"@) ==> s.arrived(
            id,
            ObjectKind::Node,
            Some(p),
        ) == (s, SnapshotAction::Nothing),
        p.at("media.class"@) == Some("Stream/Output/Audio"@) ==> {
            let (now, action) = s.arrived(id, ObjectKind::Node, Some(p));
            &&& action == SnapshotAction::BindNode
            &&& now.client_pid == s.client_pid && now.client_name == s.client_name
            &&& now.nodes == s.nodes.insert(
                id,
                OutputView {
                    entry: NodeEntry { owning_client_id: client, app_pid: pid },
                    app_name: content(p.at("application.name"@)),
                    running: None,
                },
            )
        },
{
    crate::linux::registry::lemma_node_reads_back(p, client, pid);
}

/// A client that is reported with a process is remembered with it, and with its name where that
/// holds more than white space. Any other report is not looked at.
pub proof fn lemma_client_is_collected(s: Snapshot, id: u32, p: Props, pid: u32)
    requires
        p.at("pipewire.sec.pid"@) == Some(crate::text::decimal(pid as nat)),
    ensures
        ({
            let (now, action) = s.arrived(id, ObjectKind::Client, Some(p));
            &&& action == SnapshotAction::Nothing
            &&& now.client_pid == s.client_pid.insert(id, pid)
            &&& now.nodes == s.nodes
            &&& content(p.at("application.name"@)) is None ==> now.client_name == s.client_name
            &&& content(p.at("application.name"@)) is Some ==> now.client_name
                == s.client_name.insert(id, content(p.at("application.name"@))->0)
        }),
        forall|kind: ObjectKind|
            #![trigger s.arrived(id, kind, Some(p))]
            kind != ObjectKind::Client && kind != ObjectKind::Node ==> s.arrived(id, kind, Some(p))
                == (s, SnapshotAction::Nothing),
        forall|kind: ObjectKind|
            #![trigger s.arrived(id, kind, None)]
            s.arrived(id, kind, None) == (s, SnapshotAction::Nothing),
{
    crate::linux::registry::lemma_number_reads_back(pid);
}

/// What a node says of playing is remembered of that node alone, and only if it is known; the
/// latest word counts.
pub proof fn lemma_node_says_whether_it_plays(s: Snapshot, id: u32, running: bool, other: u32)
    ensures
        s.informed(id, running).nodes.dom() == s.nodes.dom(),
        s.nodes.dom().contains(id) ==> {
            let node = s.informed(id, running).nodes[id];
            &&& node.running == Some(running)
            &&& node.entry == s.nodes[id].entry
            &&& node.app_name == s.nodes[id].app_name
        },
        other != id ==> s.informed(id, running).nodes[other] == s.nodes[other],
        s.informed(id, running).client_pid == s.client_pid,
        s.informed(id, running).client_name == s.client_name,
{
    assert(s.informed(id, running).nodes.dom() =~= s.nodes.dom());
}

/// The executable behind a link is the last component of its path, a mark of deletion dropped.
pub proof fn lemma_executable_of_a_link(dir: Seq<char>, name: Seq<char>)
    requires
        dir.len() == 0 || dir.last() == '/',
        forall|i: int| 0 <= i < name.len() ==> #[trigger] name[i] != '/' && name[i] != '\\',
        !crate::text::ends_with(dir + name, " (deleted)"@),
    ensures
        name.len() > 0 ==> exe_name(dir + name) == Some(name),
        name.len() > 0 ==> exe_name(dir + name + " (deleted)"@) == Some(name),
        name.len() == 0 ==> exe_name(dir + name) is None,
        name.len() == 0 ==> exe_name(dir + name + " (deleted)"@) is None,
{
    crate::text::lemma_last_component(dir, name);
    crate::text::lemma_without_suffix(dir + name, " (deleted)"@);
}

/// Before the first report nothing is known.
pub proof fn lemma_nothing_found_yet(id: u32)
    ensures
        !Snapshot::fresh().nodes.dom().contains(id),
        !Snapshot::fresh().client_pid.dom().contains(id),
        !Snapshot::fresh().client_name.dom().contains(id),
{
}

} // verus!
