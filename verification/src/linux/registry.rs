//! What the registry reports, and how it is read.

use vstd::prelude::*;

use crate::text::{decimal, join, parse_u32, parsed, same, to_decimal};
use crate::table::Table;

verus! {

/// The kinds of registry objects that are looked at.
#[derive(Clone, Copy, Debug, PartialEq, Eq, Structural)]
pub enum ObjectKind {
    /// A client.
    Client,
    /// A node.
    Node,
    /// A port.
    Port,
    /// Metadata.
    Metadata,
    /// Any other object.
    Other,
}

/// Properties of a registry object, keys and values.
#[derive(Debug)]
pub struct Props {
    /// The properties in the order in which they were reported.
    pub items: Vec<(String, String)>,
}

/// The value of the first property with a key.
pub open spec fn lookup(items: Seq<(String, String)>, key: Seq<char>, from: int) -> Option<Seq<char>>
    decreases items.len() - from,
{
    if from >= items.len() {
        None
    } else if items[from].0@ == key {
        Some(items[from].1@)
    } else {
        lookup(items, key, from + 1)
    }
}

/// A property value read as a 32-bit number.
pub open spec fn as_number(value: Option<Seq<char>>) -> Option<u32> {
    match value {
        Some(t) => match parsed(t, u32::MAX as nat) {
            Some(n) => Some(n as u32),
            None => None,
        },
        None => None,
    }
}

impl Props {
    /// The value of a key.
    pub open spec fn at(self, key: Seq<char>) -> Option<Seq<char>> {
        lookup(self.items@, key, 0)
    }

    /// The value of a key, if it is there.
    pub fn get(&self, key: &str) -> (res: Option<&str>)
        ensures
            match (self.at(key@), res) {
                (Some(w), Some(g)) => g@ == w,
                (None, None) => true,
                _ => false,
            },
    {
        let mut i: usize = 0;
        while i < self.items.len()
            invariant
                i <= self.items@.len(),
                lookup(self.items@, key@, 0) == lookup(self.items@, key@, i as int),
            decreases self.items@.len() - i,
        {
            if same(self.items[i].0.as_str(), key) {
                return Some(self.items[i].1.as_str());
            }
            i = i + 1;
        }
        None
    }

    /// The value of a key as a 32-bit number.
    pub fn number(&self, key: &str) -> (res: Option<u32>)
        ensures
            res == as_number(self.at(key@)),
    {
        match self.get(key) {
            Some(t) => parse_u32(t),
            None => None,
        }
    }

    /// Whether a key has a value.
    pub fn is(&self, key: &str, value: &str) -> (res: bool)
        ensures
            res == (self.at(key@) == Some(value@)),
    {
        match self.get(key) {
            Some(t) => same(t, value),
            None => false,
        }
    }
}

/// A playback node: the client that owns it and its own process, where it names them.
#[derive(Clone, Copy, Debug, PartialEq, Eq, Structural)]
pub struct NodeEntry {
    /// The owning client.
    pub owning_client_id: Option<u32>,
    /// The process that the node itself names.
    pub app_pid: Option<u32>,
}

/// The process of a node: the one it names, else that of its client.
pub open spec fn pid_of(entry: NodeEntry, client_pid: Map<u32, u32>) -> Option<u32> {
    match entry.app_pid {
        Some(pid) => Some(pid),
        None => match entry.owning_client_id {
            Some(client) => if client_pid.dom().contains(client) {
                Some(client_pid[client])
            } else {
                None
            },
            None => None,
        },
    }
}

/// Resolves the process of a node.
pub fn resolve_node_pid(entry: &NodeEntry, client_pid: &Table<u32>) -> (res: Option<u32>)
    ensures
        res == pid_of(*entry, client_pid@),
{
    if let Some(pid) = entry.app_pid {
        return Some(pid);
    }
    match entry.owning_client_id {
        Some(client) => match client_pid.get(client) {
            Some(pid) => Some(*pid),
            None => None,
        },
        None => None,
    }
}

/// A client resolves its nodes whether it came before or after them: once it is known the nodes
/// that name no process of their own have its process, and no other node changes.
pub proof fn lemma_client_resolves_its_nodes(
    entry: NodeEntry,
    client_pid: Map<u32, u32>,
    client: u32,
    pid: u32,
)
    ensures
        entry.app_pid is None && entry.owning_client_id == Some(client) ==> pid_of(
            entry,
            client_pid.insert(client, pid),
        ) == Some(pid),
        entry.app_pid is Some || entry.owning_client_id != Some(client) ==> pid_of(
            entry,
            client_pid.insert(client, pid),
        ) == pid_of(entry, client_pid),
{
}

/// Reads a playback node from its properties.
pub open spec fn node_entry(props: Props) -> NodeEntry {
    NodeEntry {
        owning_client_id: as_number(props.at("client.id"@)),
        app_pid: as_number(props.at("pipewire.sec.pid"@)),
    }
}

/// Reads a playback node from its properties.
pub fn read_node_entry(props: &Props) -> (res: NodeEntry)
    ensures
        res == node_entry(*props),
{
    NodeEntry {
        owning_client_id: props.number("client.id"),
        app_pid: props.number("pipewire.sec.pid"),
    }
}

/// Which playback nodes are recorded.
#[derive(Clone, Copy, Debug, PartialEq, Eq, Structural)]
pub enum PidSelect {
    /// A node of this process.
    Include(u32),
    /// Every node but those of this process.
    Exclude(u32),
}

impl PidSelect {
    /// The process that is compared with.
    pub open spec fn of(self) -> u32 {
        match self {
            PidSelect::Include(p) => p,
            PidSelect::Exclude(p) => p,
        }
    }

    /// Whether a node of a process is recorded. While the process is not known it is not.
    pub open spec fn admits(self, pid: Option<u32>) -> bool {
        match self {
            PidSelect::Include(p) => pid == Some(p),
            PidSelect::Exclude(p) => pid is Some && pid != Some(p),
        }
    }

    /// The process that is compared with.
    pub fn pid(self) -> (res: u32)
        ensures
            res == self.of(),
    {
        match self {
            PidSelect::Include(p) => p,
            PidSelect::Exclude(p) => p,
        }
    }

    /// Whether a node of a process is recorded.
    pub fn selects(self, pid: Option<u32>) -> (res: bool)
        ensures
            res == self.admits(pid),
    {
        match (self, pid) {
            (PidSelect::Include(p), Some(other)) => other == p,
            (PidSelect::Exclude(p), Some(other)) => other != p,
            (_, None) => false,
        }
    }
}

/// The name of the node that records a process.
pub fn capture_node_name(target_pid: u32) -> (res: String)
    ensures
        res@ == "flexaudio-capture-"@ + decimal(target_pid as nat),
{
    join("flexaudio-capture-", to_decimal(target_pid as u64).as_str())
}

// ---------------------------------------------------------------------------
// Waiting for two round trips
// ---------------------------------------------------------------------------

/// Identifier under which the core reports.
pub const PW_ID_CORE: u32 = 0;

/// How far the wait has come.
///
/// The first round trip brings all objects; the second brings what the objects that were bound
/// during the first have to say.
#[derive(Clone, Copy, Debug, PartialEq, Eq, Structural)]
pub enum Barrier {
    /// Waiting for the first round trip, which has this number.
    First(i32),
    /// The first is over; the second is not under way yet.
    Between,
    /// Waiting for the second round trip, which has this number.
    Second(i32),
    /// Both are over, or the second could not be started.
    Finished,
}

/// What a report calls for.
#[derive(Clone, Copy, Debug, PartialEq, Eq, Structural)]
pub enum BarrierAction {
    /// Nothing.
    Wait,
    /// Start the second round trip.
    SyncAgain,
    /// Leave the loop.
    Quit,
}

impl Barrier {
    /// The state after a round trip was reported, and what it calls for.
    pub open spec fn reported(self, id: u32, seq: i32) -> (Barrier, BarrierAction) {
        if id != PW_ID_CORE {
            (self, BarrierAction::Wait)
        } else {
            match self {
                Barrier::First(n) => if n == seq {
                    (Barrier::Between, BarrierAction::SyncAgain)
                } else {
                    (self, BarrierAction::Wait)
                },
                Barrier::Second(n) => if n == seq {
                    (Barrier::Finished, BarrierAction::Quit)
                } else {
                    (self, BarrierAction::Wait)
                },
                _ => (self, BarrierAction::Wait),
            }
        }
    }

    /// Takes the report of a round trip.
    pub fn on_done(&mut self, id: u32, seq: i32) -> (res: BarrierAction)
        ensures
            (*final(self), res) == old(self).reported(id, seq),
    {
        if id != PW_ID_CORE {
            return BarrierAction::Wait;
        }
        match *self {
            Barrier::First(n) => {
                if n == seq {
                    *self = Barrier::Between;
                    BarrierAction::SyncAgain
                } else {
                    BarrierAction::Wait
                }
            },
            Barrier::Second(n) => {
                if n == seq {
                    *self = Barrier::Finished;
                    BarrierAction::Quit
                } else {
                    BarrierAction::Wait
                }
            },
            _ => BarrierAction::Wait,
        }
    }

    /// Takes the number of the second round trip, or that it could not be started, which ends
    /// the wait. Unless the first round trip alone is over, nothing changes.
    pub fn on_second(&mut self, seq: Option<i32>) -> (res: BarrierAction)
        ensures
            (*final(self), res) == match (*old(self), seq) {
                (Barrier::Between, Some(n)) => (Barrier::Second(n), BarrierAction::Wait),
                (Barrier::Between, None) => (Barrier::Finished, BarrierAction::Quit),
                _ => (*old(self), BarrierAction::Wait),
            },
    {
        match (*self, seq) {
            (Barrier::Between, Some(n)) => {
                *self = Barrier::Second(n);
                BarrierAction::Wait
            },
            (Barrier::Between, None) => {
                *self = Barrier::Finished;
                BarrierAction::Quit
            },
            _ => BarrierAction::Wait,
        }
    }

    /// Whether the wait is over.
    pub fn is_finished(&self) -> (res: bool)
        ensures
            res == (*self == Barrier::Finished),
    {
        match self {
            Barrier::Finished => true,
            _ => false,
        }
    }
}

/// Once the wait is over no report changes it or calls for anything: the loop that goes on
/// afterwards is not left again.
pub proof fn lemma_finished_stays(id: u32, seq: i32)
    ensures
        Barrier::Finished.reported(id, seq) == (Barrier::Finished, BarrierAction::Wait),
{
}

/// The loop is left only on the second round trip: never on the first, never on the report of
/// another object or of another round trip.
pub proof fn lemma_quit_means_second(b: Barrier, id: u32, seq: i32)
    requires
        b.reported(id, seq).1 == BarrierAction::Quit,
    ensures
        b == Barrier::Second(seq),
        id == PW_ID_CORE,
        b.reported(id, seq).0 == Barrier::Finished,
{
}

/// The first property with a key counts, and a key that no property has is not found.
pub proof fn lemma_first_property_counts(p: Props, key: Seq<char>)
    ensures
        match p.at(key) {
            Some(v) => exists|i: int|
                0 <= i < p.items@.len() && (#[trigger] p.items@[i]).0@ == key && p.items@[i].1@ == v
                    && forall|j: int| 0 <= j < i ==> (#[trigger] p.items@[j]).0@ != key,
            None => forall|i: int| 0 <= i < p.items@.len() ==> (#[trigger] p.items@[i]).0@ != key,
        },
{
    lemma_lookup(p.items@, key, 0);
}

proof fn lemma_lookup(items: Seq<(String, String)>, key: Seq<char>, from: int)
    requires
        0 <= from,
    ensures
        match lookup(items, key, from) {
            Some(v) => exists|i: int|
                from <= i < items.len() && (#[trigger] items[i]).0@ == key && items[i].1@ == v
                    && forall|j: int| from <= j < i ==> (#[trigger] items[j]).0@ != key,
            None => forall|i: int| from <= i < items.len() ==> (#[trigger] items[i]).0@ != key,
        },
    decreases items.len() - from,
{
    if from < items.len() && items[from].0@ != key {
        lemma_lookup(items, key, from + 1);
        if let Some(v) = lookup(items, key, from) {
            let i = choose|i: int|
                from + 1 <= i < items.len() && (#[trigger] items[i]).0@ == key && items[i].1@ == v
                    && forall|j: int| from + 1 <= j < i ==> (#[trigger] items[j]).0@ != key;
            assert(from <= i && items[i].0@ == key);
        }
    }
}

/// A property that holds a number in decimal is read as that number; one that is missing is not.
pub proof fn lemma_number_reads_back(n: u32)
    ensures
        as_number(Some(decimal(n as nat))) == Some(n),
        as_number(None) is None,
{
    crate::text::lemma_parse_reads_decimal(n as nat, u32::MAX as nat);
}

/// The process of a node is exactly the one that it names itself, or, where it names none, the
/// one that its client has.
pub proof fn lemma_process_of_a_node(entry: NodeEntry, client_pid: Map<u32, u32>, pid: u32)
    ensures
        pid_of(entry, client_pid) == Some(pid) <==> entry.app_pid == Some(pid) || (
        entry.app_pid is None && exists|c: u32|
            entry.owning_client_id == Some(c) && #[trigger] client_pid.dom().contains(c)
                && client_pid[c] == pid),
{
}

/// Including a process admits its nodes alone; excluding one admits the nodes of every other
/// process that is known. A node without a known process is never admitted.
pub proof fn lemma_admitted_processes(p: u32, pid: Option<u32>)
    ensures
        PidSelect::Include(p).admits(pid) <==> pid == Some(p),
        PidSelect::Exclude(p).admits(pid) <==> match pid {
            Some(q) => q != p,
            None => false,
        },
        PidSelect::Include(p).of() == p,
        PidSelect::Exclude(p).of() == p,
{
}

/// A playback node is read with the client and the process that its properties name in decimal,
/// and without those that are missing.
pub proof fn lemma_node_reads_back(p: Props, client: Option<u32>, pid: Option<u32>)
    requires
        p.at("client.id"@) == match client {
            Some(c) => Some(decimal(c as nat)),
            None => None,
        },
        p.at("pipewire.sec.pid"@) == match pid {
            Some(n) => Some(decimal(n as nat)),
            None => None,
        },
    ensures
        node_entry(p) == (NodeEntry { owning_client_id: client, app_pid: pid }),
{
    if let Some(c) = client {
        lemma_number_reads_back(c);
    }
    if let Some(n) = pid {
        lemma_number_reads_back(n);
    }
}

/// The wait ends after exactly two round trips of the core, each reported under its own number,
/// whatever else is reported in between.
pub proof fn lemma_two_round_trips(first: i32, second: i32, id: u32, seq: i32)
    ensures
        Barrier::First(first).reported(0, first) == (Barrier::Between, BarrierAction::SyncAgain),
        Barrier::Second(second).reported(0, second) == (Barrier::Finished, BarrierAction::Quit),
        id != 0 || seq != first ==> Barrier::First(first).reported(id, seq) == (
            Barrier::First(first),
            BarrierAction::Wait,
        ),
        id != 0 || seq != second ==> Barrier::Second(second).reported(id, seq) == (
            Barrier::Second(second),
            BarrierAction::Wait,
        ),
        Barrier::Between.reported(id, seq) == (Barrier::Between, BarrierAction::Wait),
{
}

} // verus!
