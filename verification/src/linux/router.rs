//! Wiring of process capture: which playback nodes are linked to the recording node.
//!
//! The registry reports clients, nodes and ports one at a time and in any order. After each
//! report that changes something, the links are planned anew from what is there, and only the
//! difference is applied. Creating and cutting links is done by the caller, which then says
//! whether every link of a plan could be created.

use vstd::prelude::*;

use crate::linux::ports::{
    matching, pair_ports, pairs_ascend, plan_link_changes, without, LinkChanges, Port, PortView,
};
use crate::linux::registry::{
    as_number, node_entry, pid_of, read_node_entry, resolve_node_pid, NodeEntry, ObjectKind,
    PidSelect, Props,
};
use crate::table::{ordered, Table};

verus! {

/// Direction of a port.
#[derive(Clone, Copy, Debug, PartialEq, Eq, Structural)]
pub enum Direction {
    /// Audio leaves the node here.
    Out,
    /// Audio enters the node here.
    In,
}

/// A port: its node, its direction and its channel name.
#[derive(Debug)]
pub struct PortEntry {
    /// The owning node.
    pub node_id: u32,
    /// The direction.
    pub direction: Direction,
    /// The channel name, empty where there is none.
    pub channel: String,
}

/// A port with its channel name as characters.
pub struct PortFact {
    /// The owning node.
    pub node_id: u32,
    /// The direction.
    pub direction: Direction,
    /// The channel name, empty where there is none.
    pub channel: Seq<char>,
}

impl View for PortEntry {
    type V = PortFact;

    open spec fn view(&self) -> PortFact {
        PortFact { node_id: self.node_id, direction: self.direction, channel: self.channel@ }
    }
}

/// What is known, and which links are there.
pub struct Wiring {
    /// Which playback nodes are recorded.
    pub select: PidSelect,
    /// The recording node, once it is known.
    pub self_node: Option<u32>,
    /// The playback nodes.
    pub nodes: Map<u32, NodeEntry>,
    /// The processes of the clients.
    pub clients: Map<u32, u32>,
    /// The client of the process that is compared with.
    pub target_client: Option<u32>,
    /// The ports.
    pub ports: Map<u32, PortFact>,
    /// The links of each linked node.
    pub linked: Map<u32, Seq<(u32, u32)>>,
}

/// The values of a map of ports.
pub open spec fn port_facts(m: Map<u32, PortEntry>) -> Map<u32, PortFact> {
    m.map_values(|p: PortEntry| p@)
}

/// The values of a map of links.
pub open spec fn link_pairs(m: Map<u32, Vec<(u32, u32)>>) -> Map<u32, Seq<(u32, u32)>> {
    m.map_values(|v: Vec<(u32, u32)>| v@)
}

/// Those of the keys whose node is recorded, in order.
pub open spec fn admitted(w: Wiring, keys: Seq<u32>) -> Seq<u32>
    decreases keys.len(),
{
    if keys.len() == 0 {
        Seq::empty()
    } else {
        let rest = admitted(w, keys.drop_last());
        if w.select.admits(pid_of(w.nodes[keys.last()], w.clients)) {
            rest.push(keys.last())
        } else {
            rest
        }
    }
}

/// The ports of a node in a direction, in order of their identifiers.
pub open spec fn side(
    ports: Map<u32, PortFact>,
    keys: Seq<u32>,
    node: u32,
    direction: Direction,
) -> Seq<PortView>
    decreases keys.len(),
{
    if keys.len() == 0 {
        Seq::empty()
    } else {
        let rest = side(ports, keys.drop_last(), node, direction);
        let p = ports[keys.last()];
        if p.node_id == node && p.direction == direction {
            rest.push((keys.last(), p.channel))
        } else {
            rest
        }
    }
}

impl Wiring {
    /// Nothing is known yet.
    pub open spec fn fresh(select: PidSelect) -> Wiring {
        Wiring {
            select,
            self_node: None,
            nodes: Map::empty(),
            clients: Map::empty(),
            target_client: None,
            ports: Map::empty(),
            linked: Map::empty(),
        }
    }

    /// The playback nodes to plan: of an included process the one that is linked, else the
    /// first one; of an excluded one all others.
    pub open spec fn targets(self) -> Seq<u32> {
        let all = admitted(self, ordered(self.nodes.dom()));
        match self.select {
            PidSelect::Include(_) => if self.linked.dom() != Set::<u32>::empty() {
                ordered(self.linked.dom())
            } else if all.len() > 0 {
                seq![all[0]]
            } else {
                all
            },
            PidSelect::Exclude(_) => all,
        }
    }

    /// The ports of a node in a direction.
    pub open spec fn side_of(self, node: u32, direction: Direction) -> Seq<PortView> {
        side(self.ports, ordered(self.ports.dom()), node, direction)
    }

    /// The links that are wanted for a playback node.
    pub open spec fn wanted(self, node: u32) -> Seq<(u32, u32)> {
        match self.self_node {
            Some(own) => {
                let ins = self.side_of(own, Direction::In);
                let outs = self.side_of(node, Direction::Out);
                if ins.len() == 0 || outs.len() == 0 {
                    Seq::empty()
                } else {
                    matching(outs, ins).pairs
                }
            },
            None => Seq::empty(),
        }
    }

    /// Those of the nodes for which links are wanted, each with its links.
    pub open spec fn plans(self, nodes: Seq<u32>) -> Seq<(u32, Seq<(u32, u32)>)>
        decreases nodes.len(),
    {
        if nodes.len() == 0 {
            Seq::empty()
        } else {
            let rest = self.plans(nodes.drop_last());
            let pairs = self.wanted(nodes.last());
            if pairs.len() == 0 {
                rest
            } else {
                rest.push((nodes.last(), pairs))
            }
        }
    }

    /// The links of a node, none where it is not linked.
    pub open spec fn links_of(self, node: u32) -> Seq<(u32, u32)> {
        if self.linked.dom().contains(node) {
            self.linked[node]
        } else {
            Seq::empty()
        }
    }

    /// The recording node once its stream names it. 0 and the greatest number stand for none.
    pub open spec fn seen_from(self, stream_node: u32) -> Wiring {
        if stream_node != 0 && stream_node != u32::MAX {
            Wiring { self_node: Some(stream_node), ..self }
        } else {
            self
        }
    }

    /// The state once an object was reported, `None` where the report is not looked at.
    pub open spec fn arrived(self, id: u32, kind: ObjectKind, props: Option<Props>) -> Option<
        Wiring,
    > {
        match props {
            None => None,
            Some(p) => match kind {
                ObjectKind::Client => match as_number(p.at("pipewire.sec.pid"@)) {
                    Some(pid) => Some(
                        Wiring {
                            clients: self.clients.insert(id, pid),
                            target_client: if pid == self.select.of() {
                                Some(id)
                            } else {
                                self.target_client
                            },
                            ..self
                        },
                    ),
                    None => None,
                },
                ObjectKind::Node => if p.at("media.class"@) == Some("Stream/Output/Audio"@) {
                    Some(Wiring { nodes: self.nodes.insert(id, node_entry(p)), ..self })
                } else {
                    None
                },
                ObjectKind::Port => match port_fact(p) {
                    Some(port) => Some(Wiring { ports: self.ports.insert(id, port), ..self }),
                    None => None,
                },
                _ => None,
            },
        }
    }

    /// Whether an identifier is an input of the recording node.
    pub open spec fn is_own_input(self, id: u32) -> bool {
        &&& self.ports.dom().contains(id)
        &&& self.self_node == Some(self.ports[id].node_id)
        &&& self.ports[id].direction == Direction::In
    }

    /// The linked node of which an identifier is an output.
    pub open spec fn linked_owner(self, id: u32) -> Option<u32> {
        if self.ports.dom().contains(id) && self.ports[id].direction == Direction::Out
            && self.linked.dom().contains(self.ports[id].node_id) {
            Some(self.ports[id].node_id)
        } else {
            None
        }
    }

    /// Whether all links go with an identifier: the recording node, one of its inputs, or the
    /// client of the process that is compared with.
    pub open spec fn takes_all(self, id: u32) -> bool {
        self.self_node == Some(id) || self.is_own_input(id) || self.target_client == Some(id)
    }

    /// The state once an object has gone.
    pub open spec fn gone(self, id: u32) -> Wiring {
        Wiring {
            select: self.select,
            self_node: if self.self_node == Some(id) {
                None
            } else {
                self.self_node
            },
            nodes: self.nodes.remove(id),
            clients: self.clients.remove(id),
            target_client: if self.target_client == Some(id) {
                None
            } else {
                self.target_client
            },
            ports: self.ports.remove(id),
            linked: if self.takes_all(id) {
                Map::empty()
            } else {
                match self.linked_owner(id) {
                    Some(owner) => self.linked.remove(id).remove(owner),
                    None => self.linked.remove(id),
                }
            },
        }
    }

    /// Whether links went with an identifier, so that the rest is to be planned anew.
    pub open spec fn unlinked_by(self, id: u32) -> bool {
        self.takes_all(id) || self.linked.dom().contains(id) || self.linked_owner(id) is Some
    }

    /// Of an included process at most one node is linked.
    pub open spec fn wf(self) -> bool {
        self.select is Include ==> forall|a: u32, b: u32|
            #![trigger self.linked.dom().contains(a), self.linked.dom().contains(b)]
            self.linked.dom().contains(a) && self.linked.dom().contains(b) ==> a == b
    }

    /// Whether a plan may be settled: of an included process no other node is linked.
    pub open spec fn may_settle(self, node: u32) -> bool {
        self.select is Include ==> forall|a: u32| #[trigger]
            self.linked.dom().contains(a) ==> a == node
    }
}

/// Reads a port from its properties.
pub open spec fn port_fact(p: Props) -> Option<PortFact> {
    match as_number(p.at("node.id"@)) {
        Some(node_id) => {
            let channel = match p.at("audio.channel"@) {
                Some(c) => c,
                None => Seq::empty(),
            };
            if p.at("port.direction"@) == Some("out"@) {
                Some(PortFact { node_id, direction: Direction::Out, channel })
            } else if p.at("port.direction"@) == Some("in"@) {
                Some(PortFact { node_id, direction: Direction::In, channel })
            } else {
                None
            }
        },
        None => None,
    }
}

fn read_port(p: &Props) -> (res: Option<PortEntry>)
    ensures
        match (port_fact(*p), res) {
            (Some(w), Some(g)) => g@ == w,
            (None, None) => true,
            _ => false,
        },
{
    let node_id: u32 = match p.number("node.id") {
        Some(n) => n,
        None => {
            return None;
        },
    };
    let direction: Direction = if p.is("port.direction", "out") {
        Direction::Out
    } else if p.is("port.direction", "in") {
        Direction::In
    } else {
        return None;
    };
    let channel: String = match p.get("audio.channel") {
        Some(c) => c.to_owned(),
        None => String::new(),
    };
    proof {
        reveal_strlit("out");
        reveal_strlit("in");
        assert("out"@.len() != "in"@.len());
    }
    Some(PortEntry { node_id, direction, channel })
}

/// What to do for one playback node.
#[derive(Debug)]
pub struct NodePlan {
    /// The playback node.
    pub node_id: u32,
    /// The recording node.
    pub self_node: u32,
    /// The links that are wanted.
    pub wanted: Vec<(u32, u32)>,
    /// The links to cut and to create.
    pub changes: LinkChanges,
}

/// The nodes and wanted links of plans.
pub open spec fn planned(v: Seq<NodePlan>) -> Seq<(u32, Seq<(u32, u32)>)> {
    v.map_values(|p: NodePlan| (p.node_id, p.wanted@))
}

/// Whether the changes of a plan lead from the links that are there to the wanted ones.
pub open spec fn leads_to_wanted(w: Wiring, p: NodePlan) -> bool {
    &&& w.self_node == Some(p.self_node)
    &&& pairs_ascend(p.changes.remove@)
    &&& p.changes.remove@.to_multiset() == without(
        w.links_of(p.node_id),
        p.wanted@,
    ).to_multiset()
    &&& p.changes.add@ == without(p.wanted@, w.links_of(p.node_id))
}

/// The state of the wiring.
#[derive(Debug)]
pub struct Router {
    select: PidSelect,
    self_node: Option<u32>,
    nodes: Table<NodeEntry>,
    clients: Table<u32>,
    target_client: Option<u32>,
    ports: Table<PortEntry>,
    linked: Table<Vec<(u32, u32)>>,
}

impl View for Router {
    type V = Wiring;

    closed spec fn view(&self) -> Wiring {
        Wiring {
            select: self.select,
            self_node: self.self_node,
            nodes: self.nodes@,
            clients: self.clients@,
            target_client: self.target_client,
            ports: port_facts(self.ports@),
            linked: link_pairs(self.linked@),
        }
    }
}

impl Router {
    /// A router that knows of nothing yet.
    pub fn new(select: PidSelect) -> (res: Router)
        ensures
            res@ == Wiring::fresh(select),
            res@.wf(),
    {
        let r: Router = Router {
            select,
            self_node: None,
            nodes: Table::new(),
            clients: Table::new(),
            target_client: None,
            ports: Table::new(),
            linked: Table::new(),
        };
        assert(r@.ports =~= Map::<u32, PortFact>::empty());
        assert(r@.linked =~= Map::<u32, Seq<(u32, u32)>>::empty());
        r
    }

    /// Takes the report of an object. Says whether the links are to be planned anew.
    pub fn on_global(&mut self, id: u32, kind: ObjectKind, props: &Option<Props>) -> (res: bool)
        requires
            old(self)@.wf(),
        ensures
            match old(self)@.arrived(id, kind, *props) {
                Some(w) => res && final(self)@ == w,
                None => !res && final(self)@ == old(self)@,
            },
            final(self)@.wf(),
    {
        let p: &Props = match props {
            Some(p) => p,
            None => {
                return false;
            },
        };
        match kind {
            ObjectKind::Client => match p.number("pipewire.sec.pid") {
                Some(pid) => {
                    self.clients.insert(id, pid);
                    if pid == self.select.pid() {
                        self.target_client = Some(id);
                    }
                    true
                },
                None => false,
            },
            ObjectKind::Node => {
                if p.is("media.class", "Stream/Output/Audio") {
                    self.nodes.insert(id, read_node_entry(p));
                    true
                } else {
                    false
                }
            },
            ObjectKind::Port => match read_port(p) {
                Some(port) => {
                    let ghost before = self.ports@;
                    let ghost fact = port@;
                    self.ports.insert(id, port);
                    assert(port_facts(self.ports@) =~= port_facts(before).insert(id, fact));
                    true
                },
                None => false,
            },
            _ => false,
        }
    }

    /// Takes the report that an object has gone. Says whether the links are to be planned anew.
    pub fn on_remove(&mut self, id: u32) -> (res: bool)
        requires
            old(self)@.wf(),
        ensures
            final(self)@ == old(self)@.gone(id),
            res == old(self)@.unlinked_by(id),
            final(self)@.wf(),
    {
        let was_linked: bool = self.linked.contains_key(id);
        let was_target: bool = match self.target_client {
            Some(c) => c == id,
            None => false,
        };
        let was_self: bool = match self.self_node {
            Some(n) => n == id,
            None => false,
        };
        let mut owner: Option<u32> = None;
        let mut was_input: bool = false;
        match self.ports.get(id) {
            Some(p) => match p.direction {
                Direction::Out => {
                    if self.linked.contains_key(p.node_id) {
                        owner = Some(p.node_id);
                    }
                },
                Direction::In => {
                    was_input = match self.self_node {
                        Some(n) => n == p.node_id,
                        None => false,
                    };
                },
            },
            None => {},
        }
        let ghost links = self.linked@;
        let mut relink: bool = false;
        if was_self || was_input || was_target {
            self.linked.clear();
            relink = true;
        } else {
            if was_linked {
                relink = true;
            }
            self.linked.remove(id);
            if let Some(node) = owner {
                self.linked.remove(node);
                relink = true;
            }
        }
        proof {
            assert(link_pairs(Map::<u32, Vec<(u32, u32)>>::empty()) =~= Map::<
                u32,
                Seq<(u32, u32)>,
            >::empty());
            assert(link_pairs(links.remove(id)) =~= link_pairs(links).remove(id));
            if owner is Some {
                assert(link_pairs(links.remove(id).remove(owner->0)) =~= link_pairs(
                    links,
                ).remove(id).remove(owner->0));
            }
        }
        if was_target {
            self.target_client = None;
        }
        if was_self {
            self.self_node = None;
        }
        self.nodes.remove(id);
        self.clients.remove(id);
        let ghost before = self.ports@;
        self.ports.remove(id);
        assert(port_facts(before.remove(id)) =~= port_facts(before).remove(id));
        relink
    }

    /// The recorded nodes in order of their identifiers.
    fn admitted_nodes(&self) -> (res: Vec<u32>)
        ensures
            res@ == admitted(self@, ordered(self@.nodes.dom())),
    {
        let n: usize = self.nodes.len();
        let mut out: Vec<u32> = Vec::new();
        let mut i: usize = 0;
        let ghost keys = self.nodes.keys();
        while i < n
            invariant
                n == keys.len(),
                keys == self.nodes.keys(),
                i <= n,
                out@ == admitted(self@, keys.take(i as int)),
            decreases n - i,
        {
            let key: u32 = self.nodes.key_at(i);
            let entry: NodeEntry = *self.nodes.value_at(i);
            proof {
                assert(keys.take(i + 1).drop_last() =~= keys.take(i as int));
                assert(keys.take(i + 1).last() == key);
            }
            if self.select.selects(resolve_node_pid(&entry, &self.clients)) {
                out.push(key);
            }
            i = i + 1;
        }
        assert(keys.take(n as int) =~= keys);
        out
    }

    /// The playback nodes to plan.
    fn target_nodes(&self) -> (res: Vec<u32>)
        ensures
            res@ == self@.targets(),
    {
        let all: Vec<u32> = self.admitted_nodes();
        match self.select {
            PidSelect::Exclude(_) => all,
            PidSelect::Include(_) => {
                let n: usize = self.linked.len();
                assert(link_pairs(self.linked@).dom() =~= self.linked@.dom());
                if n > 0 {
                    let mut out: Vec<u32> = Vec::new();
                    let mut i: usize = 0;
                    let ghost keys = self.linked.keys();
                    while i < n
                        invariant
                            n == keys.len(),
                            keys == self.linked.keys(),
                            i <= n,
                            out@ == keys.take(i as int),
                        decreases n - i,
                    {
                        assert(keys.take(i + 1) =~= keys.take(i as int).push(keys[i as int]));
                        out.push(self.linked.key_at(i));
                        i = i + 1;
                    }
                    assert(keys.take(n as int) =~= keys);
                    assert(keys.contains(keys[0]));
                    assert(self.linked@.dom().contains(keys[0]));
                    out
                } else {
                    assert(self.linked@.dom() =~= Set::<u32>::empty()) by {
                        assert forall|k: u32| !self.linked@.dom().contains(k) by {
                            assert(self.linked.keys().contains(k) <==> self.linked@.dom().contains(
                                k,
                            ));
                        }
                    }
                    if all.len() > 0 {
                        let mut out: Vec<u32> = Vec::new();
                        out.push(all[0]);
                        assert(out@ =~= seq![all@[0]]);
                        out
                    } else {
                        all
                    }
                }
            },
        }
    }

    /// The ports of a node in a direction, in order of their identifiers.
    fn side_ports(&self, node: u32, direction: Direction) -> (res: Vec<Port>)
        ensures
            crate::linux::ports::ports_view(res@) == self@.side_of(node, direction),
    {
        let n: usize = self.ports.len();
        let mut out: Vec<Port> = Vec::new();
        let mut i: usize = 0;
        let ghost keys = self.ports.keys();
        let ghost facts = port_facts(self.ports@);
        assert(facts.dom() =~= self.ports@.dom());
        assert(crate::linux::ports::ports_view(out@) =~= Seq::<PortView>::empty());
        while i < n
            invariant
                n == keys.len(),
                keys == self.ports.keys(),
                facts == port_facts(self.ports@),
                i <= n,
                crate::linux::ports::ports_view(out@) == side(
                    facts,
                    keys.take(i as int),
                    node,
                    direction,
                ),
            decreases n - i,
        {
            let key: u32 = self.ports.key_at(i);
            let p: &PortEntry = self.ports.value_at(i);
            proof {
                assert(keys.take(i + 1).drop_last() =~= keys.take(i as int));
                assert(keys.take(i + 1).last() == key);
                assert(facts[key] == p@);
            }
            if p.node_id == node && p.direction == direction {
                let channel: String = p.channel.as_str().to_owned();
                proof {
                    let grown = out@.push((key, channel));
                    assert(crate::linux::ports::ports_view(grown)
                        =~= crate::linux::ports::ports_view(out@).push((key, channel@)));
                }
                out.push((key, channel));
            }
            i = i + 1;
        }
        assert(keys.take(n as int) =~= keys);
        out
    }

    /// The links of a node.
    fn current_links(&self, node: u32) -> (res: Vec<(u32, u32)>)
        ensures
            res@ == self@.links_of(node),
    {
        match self.linked.get(node) {
            Some(v) => {
                let mut out: Vec<(u32, u32)> = Vec::new();
                let mut i: usize = 0;
                while i < v.len()
                    invariant
                        i <= v@.len(),
                        out@ == v@.take(i as int),
                    decreases v@.len() - i,
                {
                    assert(v@.take(i + 1) =~= v@.take(i as int).push(v@[i as int]));
                    out.push(v[i]);
                    i = i + 1;
                }
                assert(v@.take(v@.len() as int) =~= v@);
                out
            },
            None => Vec::new(),
        }
    }

    /// Plans the links anew. `stream_node` is the recording node as its stream names it now.
    ///
    /// Gives one plan for each playback node for which links are wanted. A node without ports
    /// yet has none.
    pub fn plan_links(&mut self, stream_node: u32) -> (res: Vec<NodePlan>)
        requires
            old(self)@.wf(),
        ensures
            final(self)@ == old(self)@.seen_from(stream_node),
            planned(res@) == final(self)@.plans(final(self)@.targets()),
            forall|i: int|
                0 <= i < res@.len() ==> leads_to_wanted(final(self)@, #[trigger] res@[i])
                    && final(self)@.may_settle(res@[i].node_id),
            final(self)@.select is Include ==> res@.len() <= 1,
            final(self)@.wf(),
    {
        if stream_node != 0 && stream_node != u32::MAX {
            self.self_node = Some(stream_node);
        }
        let mut out: Vec<NodePlan> = Vec::new();
        assert(planned(out@) =~= Seq::<(u32, Seq<(u32, u32)>)>::empty());
        let targets: Vec<u32> = self.target_nodes();
        proof {
            lemma_targets(self@);
        }
        let own: u32 = match self.self_node {
            Some(n) => n,
            None => {
                proof {
                    lemma_no_plans(self@, targets@);
                }
                return out;
            },
        };
        let ins: Vec<Port> = self.side_ports(own, Direction::In);
        if ins.len() == 0 {
            proof {
                assert(self@.side_of(own, Direction::In).len() == 0);
                lemma_no_plans(self@, targets@);
            }
            return out;
        }
        let mut i: usize = 0;
        while i < targets.len()
            invariant
                i <= targets@.len(),
                self@ == old(self)@.seen_from(stream_node),
                self@.self_node == Some(own),
                self@.wf(),
                targets@ == self@.targets(),
                crate::linux::ports::ports_view(ins@) == self@.side_of(own, Direction::In),
                ins@.len() > 0,
                self@.select is Include ==> targets@.len() <= 1,
                forall|k: int|
                    0 <= k < targets@.len() ==> self@.may_settle(#[trigger] targets@[k]),
                planned(out@) == self@.plans(targets@.take(i as int)),
                out@.len() <= i,
                forall|k: int|
                    0 <= k < out@.len() ==> leads_to_wanted(self@, #[trigger] out@[k])
                        && self@.may_settle(out@[k].node_id),
            decreases targets@.len() - i,
        {
            let node: u32 = targets[i];
            proof {
                assert(targets@.take(i + 1).drop_last() =~= targets@.take(i as int));
                assert(targets@.take(i + 1).last() == node);
                assert(self@.may_settle(targets@[i as int]));
            }
            let outs: Vec<Port> = self.side_ports(node, Direction::Out);
            assert(crate::linux::ports::ports_view(outs@).len() == outs@.len());
            assert(crate::linux::ports::ports_view(ins@).len() == ins@.len());
            if outs.len() > 0 {
                let wanted: Vec<(u32, u32)> = pair_ports(&outs, &ins);
                assert(wanted@ == self@.wanted(node));
                if wanted.len() > 0 {
                    let current: Vec<(u32, u32)> = self.current_links(node);
                    let changes: LinkChanges = plan_link_changes(&current, &wanted);
                    let plan: NodePlan = NodePlan { node_id: node, self_node: own, wanted, changes };
                    proof {
                        assert(planned(out@.push(plan)) =~= planned(out@).push(
                            (node, plan.wanted@),
                        ));
                    }
                    out.push(plan);
                }
            }
            i = i + 1;
        }
        assert(targets@.take(targets@.len() as int) =~= targets@);
        out
    }

    /// Whether a node counts as linked. The links of a node that does not are to be cut.
    pub fn is_linked(&self, node: u32) -> (res: bool)
        ensures
            res == self@.linked.contains_key(node),
    {
        assert(link_pairs(self.linked@).dom() =~= self.linked@.dom());
        self.linked.contains_key(node)
    }

    /// Settles a plan once its changes were tried: the node counts as linked only where every
    /// link could be created. Otherwise it holds no link, so that no single channel stays
    /// behind, and the next report tries again.
    pub fn settle(&mut self, plan: NodePlan, all_created: bool)
        requires
            old(self)@.wf(),
            old(self)@.may_settle(plan.node_id),
        ensures
            final(self)@ == (Wiring {
                linked: if all_created {
                    old(self)@.linked.insert(plan.node_id, plan.wanted@)
                } else {
                    old(self)@.linked.remove(plan.node_id)
                },
                ..old(self)@
            }),
            final(self)@.wf(),
    {
        let ghost before = self.linked@;
        if all_created {
            self.linked.insert(plan.node_id, plan.wanted);
            assert(link_pairs(before.insert(plan.node_id, plan.wanted)) =~= link_pairs(
                before,
            ).insert(plan.node_id, plan.wanted@));
        } else {
            self.linked.remove(plan.node_id);
            assert(link_pairs(before.remove(plan.node_id)) =~= link_pairs(before).remove(
                plan.node_id,
            ));
        }
    }
}

// ---------------------------------------------------------------------------
// Laws
// ---------------------------------------------------------------------------

proof fn lemma_no_plans(w: Wiring, nodes: Seq<u32>)
    requires
        forall|n: u32| (#[trigger] w.wanted(n)).len() == 0,
    ensures
        w.plans(nodes) == Seq::<(u32, Seq<(u32, u32)>)>::empty(),
    decreases nodes.len(),
{
    if nodes.len() > 0 {
        lemma_no_plans(w, nodes.drop_last());
        assert(w.wanted(nodes.last()).len() == 0);
    }
}

proof fn lemma_targets(w: Wiring)
    requires
        w.wf(),
    ensures
        w.select is Include ==> w.targets().len() <= 1,
        forall|i: int| 0 <= i < w.targets().len() ==> w.may_settle(#[trigger] w.targets()[i]),
{
    crate::table::lemma_always_listed(w.linked.dom());
    if w.select is Include && w.linked.dom() != Set::<u32>::empty() {
        let t = ordered(w.linked.dom());
        assert forall|i: int, j: int| 0 <= i < t.len() && 0 <= j < t.len() implies t[i] == t[j] by {
            assert(t.contains(t[i]) && t.contains(t[j]));
            assert(w.linked.dom().contains(t[i]) && w.linked.dom().contains(t[j]));
        }
        if t.len() > 1 {
            assert(t[0] < t[1]);
            assert(t[0] == t[1]);
        }
        assert forall|i: int| 0 <= i < t.len() implies w.may_settle(#[trigger] t[i]) by {
            assert(t.contains(t[i]));
            assert(w.linked.dom().contains(t[i]));
        }
    }
}

proof fn lemma_admitted(w: Wiring, keys: Seq<u32>)
    ensures
        forall|n: u32|
            #![trigger admitted(w, keys).contains(n)]
            admitted(w, keys).contains(n) <==> keys.contains(n) && w.select.admits(
                pid_of(w.nodes[n], w.clients),
            ),
    decreases keys.len(),
{
    if keys.len() > 0 {
        let k = keys.drop_last();
        lemma_admitted(w, k);
        let rest = admitted(w, k);
        let all = admitted(w, keys);
        assert forall|n: u32|
            #![trigger all.contains(n)]
            all.contains(n) <==> keys.contains(n) && w.select.admits(
                pid_of(w.nodes[n], w.clients),
            ) by {
            assert(rest.contains(n) <==> k.contains(n) && w.select.admits(
                pid_of(w.nodes[n], w.clients),
            ));
            if keys.contains(n) {
                let x = choose|x: int| 0 <= x < keys.len() && keys[x] == n;
                if x < k.len() {
                    assert(k[x] == n);
                }
            }
            if k.contains(n) {
                let x = choose|x: int| 0 <= x < k.len() && k[x] == n;
                assert(keys[x] == n);
            }
            if rest.contains(n) {
                let x = choose|x: int| 0 <= x < rest.len() && rest[x] == n;
                assert(all[x] == n);
            }
            if n == keys.last() && w.select.admits(pid_of(w.nodes[n], w.clients)) {
                assert(all[rest.len() as int] == n);
                assert(keys[keys.len() - 1] == n);
            }
            if all.contains(n) {
                let x = choose|x: int| 0 <= x < all.len() && all[x] == n;
                if x < rest.len() {
                    assert(rest[x] == n);
                } else {
                    assert(n == keys.last());
                    assert(keys[keys.len() - 1] == n);
                }
            }
        }
    }
}

/// With an excluded process, the nodes that are planned are exactly those whose process is known
/// and another one: the excluded process is never recorded, a node whose process is not known
/// yet is put off, and no other node is left out.
pub proof fn lemma_excluded_is_never_planned(w: Wiring, excluded: u32, node: u32)
    requires
        w.select == PidSelect::Exclude(excluded),
    ensures
        w.targets().contains(node) <==> w.nodes.dom().contains(node) && pid_of(
            w.nodes[node],
            w.clients,
        ) is Some && pid_of(w.nodes[node], w.clients) != Some(excluded),
{
    crate::table::lemma_always_listed(w.nodes.dom());
    lemma_admitted(w, ordered(w.nodes.dom()));
    assert(ordered(w.nodes.dom()).contains(node) <==> w.nodes.dom().contains(node));
}

/// With an included process, a node is planned only where it is linked already or belongs to
/// that process.
pub proof fn lemma_included_alone_is_planned(w: Wiring, included: u32, node: u32)
    requires
        w.select == PidSelect::Include(included),
        w.targets().contains(node),
    ensures
        w.linked.dom().contains(node) || (w.nodes.dom().contains(node) && pid_of(
            w.nodes[node],
            w.clients,
        ) == Some(included)),
{
    let all = admitted(w, ordered(w.nodes.dom()));
    crate::table::lemma_always_listed(w.nodes.dom());
    crate::table::lemma_always_listed(w.linked.dom());
    lemma_admitted(w, ordered(w.nodes.dom()));
    if w.linked.dom() != Set::<u32>::empty() {
        assert(ordered(w.linked.dom()).contains(node));
    } else {
        assert(all.len() > 0);
        assert(seq![all[0]].contains(node));
        assert(node == all[0]);
        assert(all.contains(node));
        assert(ordered(w.nodes.dom()).contains(node) <==> w.nodes.dom().contains(node));
    }
}

/// A node that is linked stays the one that is recorded: with an included process, nothing else
/// is planned while it is linked.
pub proof fn lemma_linked_node_is_kept(w: Wiring, node: u32)
    requires
        w.select is Include,
        w.linked.dom() == set![node],
    ensures
        w.targets() == seq![node],
{
    let q = seq![node];
    assert forall|k: u32| #[trigger] q.contains(k) <==> w.linked.dom().contains(k) by {
        if w.linked.dom().contains(k) {
            assert(q[0] == k);
        }
    }
    crate::table::lemma_ordered(q, w.linked.dom());
    assert(w.linked.dom().contains(node));
}

/// Nothing is remembered of an object that has gone.
pub proof fn lemma_gone_is_forgotten(w: Wiring, id: u32)
    ensures
        !w.gone(id).nodes.dom().contains(id),
        !w.gone(id).clients.dom().contains(id),
        !w.gone(id).ports.dom().contains(id),
        !w.gone(id).linked.dom().contains(id),
        w.gone(id).self_node != Some(id),
        w.gone(id).target_client != Some(id),
{
}

/// Losing the recording node, one of its inputs or the client of the compared process cuts
/// every link, and the rest is planned anew.
pub proof fn lemma_own_side_takes_all(w: Wiring, id: u32)
    requires
        w.takes_all(id),
    ensures
        w.gone(id).linked == Map::<u32, Seq<(u32, u32)>>::empty(),
        w.unlinked_by(id),
{
}

/// Any other loss leaves the links of the other nodes as they are.
pub proof fn lemma_others_keep_their_links(w: Wiring, id: u32, node: u32)
    requires
        !w.takes_all(id),
        node != id,
        w.linked_owner(id) != Some(node),
    ensures
        w.gone(id).linked.dom().contains(node) == w.linked.dom().contains(node),
        w.gone(id).links_of(node) == w.links_of(node),
{
}

/// Once a plan is settled with every link created, planning the same node anew changes nothing.
pub proof fn lemma_settled_is_stable(w: Wiring, node: u32)
    ensures
        ({
            let after = Wiring { linked: w.linked.insert(node, w.wanted(node)), ..w };
            &&& after.wanted(node) == w.wanted(node)
            &&& without(after.links_of(node), after.wanted(node)) == Seq::<(u32, u32)>::empty()
            &&& without(after.wanted(node), after.links_of(node)) == Seq::<(u32, u32)>::empty()
        }),
{
    let after = Wiring { linked: w.linked.insert(node, w.wanted(node)), ..w };
    assert(after.wanted(node) == w.wanted(node));
    crate::linux::ports::lemma_converged_is_stable(after.links_of(node), after.wanted(node));
}

proof fn lemma_side(ports: Map<u32, PortFact>, keys: Seq<u32>, node: u32, direction: Direction)
    requires
        crate::table::ascending(keys),
    ensures
        forall|id: u32, ch: Seq<char>|
            #![trigger side(ports, keys, node, direction).contains((id, ch))]
            side(ports, keys, node, direction).contains((id, ch)) <==> keys.contains(id)
                && ports[id].node_id == node && ports[id].direction == direction && ports[id].channel
                == ch,
        forall|i: int, j: int|
            0 <= i < j < side(ports, keys, node, direction).len() ==> (#[trigger] side(
                ports,
                keys,
                node,
                direction,
            )[i]).0 < (#[trigger] side(ports, keys, node, direction)[j]).0,
    decreases keys.len(),
{
    let all = side(ports, keys, node, direction);
    if keys.len() > 0 {
        let less = keys.drop_last();
        lemma_side(ports, less, node, direction);
        let rest = side(ports, less, node, direction);
        let last = keys.last();
        assert forall|id: u32, ch: Seq<char>|
            #![trigger all.contains((id, ch))]
            all.contains((id, ch)) <==> keys.contains(id) && ports[id].node_id == node
                && ports[id].direction == direction && ports[id].channel == ch by {
            assert(rest.contains((id, ch)) <==> less.contains(id) && ports[id].node_id == node
                && ports[id].direction == direction && ports[id].channel == ch);
            if less.contains(id) {
                let x = choose|x: int| 0 <= x < less.len() && less[x] == id;
                assert(keys[x] == id);
            }
            if keys.contains(id) && id != last {
                let x = choose|x: int| 0 <= x < keys.len() && keys[x] == id;
                assert(less[x] == id);
            }
            assert(keys[keys.len() - 1] == last);
            if rest.contains((id, ch)) {
                let x = choose|x: int| 0 <= x < rest.len() && rest[x] == (id, ch);
                assert(all[x] == (id, ch));
            }
            if all.contains((id, ch)) {
                let x = choose|x: int| 0 <= x < all.len() && all[x] == (id, ch);
                if x < rest.len() {
                    assert(rest[x] == (id, ch));
                }
            }
            if all != rest {
                assert(all[rest.len() as int] == (last, ports[last].channel));
            }
        }
        assert forall|a: int, b: int| 0 <= a < b < all.len() implies (#[trigger] all[a]).0 < (
        #[trigger] all[b]).0 by {
            assert(all[a] == rest[a]);
            if b < rest.len() {
                assert(all[b] == rest[b]);
            } else {
                assert(rest.contains((rest[a].0, rest[a].1)));
                let x = choose|x: int| 0 <= x < less.len() && less[x] == rest[a].0;
                assert(keys[x] < keys[keys.len() - 1]);
            }
        }
    } else {
        assert(all =~= Seq::<PortView>::empty());
    }
}

/// The ports of a node in a direction are all those that were reported for it, each with its
/// channel, in ascending order.
pub proof fn lemma_ports_of_a_node(w: Wiring, node: u32, direction: Direction)
    ensures
        forall|id: u32, ch: Seq<char>|
            #![trigger w.side_of(node, direction).contains((id, ch))]
            w.side_of(node, direction).contains((id, ch)) <==> w.ports.dom().contains(id)
                && w.ports[id].node_id == node && w.ports[id].direction == direction
                && w.ports[id].channel == ch,
        forall|i: int, j: int|
            0 <= i < j < w.side_of(node, direction).len() ==> (#[trigger] w.side_of(
                node,
                direction,
            )[i]).0 < (#[trigger] w.side_of(node, direction)[j]).0,
{
    let keys = ordered(w.ports.dom());
    crate::table::lemma_always_listed(w.ports.dom());
    lemma_side(w.ports, keys, node, direction);
    assert forall|id: u32, ch: Seq<char>|
        #![trigger w.side_of(node, direction).contains((id, ch))]
        w.side_of(node, direction).contains((id, ch)) <==> w.ports.dom().contains(id)
            && w.ports[id].node_id == node && w.ports[id].direction == direction
            && w.ports[id].channel == ch by {
        assert(keys.contains(id) <==> w.ports.dom().contains(id));
    }
}

proof fn lemma_plans(w: Wiring, nodes: Seq<u32>)
    ensures
        forall|n: u32, pairs: Seq<(u32, u32)>|
            #![trigger w.plans(nodes).contains((n, pairs))]
            w.plans(nodes).contains((n, pairs)) <==> nodes.contains(n) && pairs == w.wanted(n)
                && pairs.len() > 0,
    decreases nodes.len(),
{
    let all = w.plans(nodes);
    if nodes.len() > 0 {
        let less = nodes.drop_last();
        lemma_plans(w, less);
        let rest = w.plans(less);
        assert forall|n: u32, pairs: Seq<(u32, u32)>|
            #![trigger all.contains((n, pairs))]
            all.contains((n, pairs)) <==> nodes.contains(n) && pairs == w.wanted(n) && pairs.len()
                > 0 by {
            assert(rest.contains((n, pairs)) <==> less.contains(n) && pairs == w.wanted(n)
                && pairs.len() > 0);
            if less.contains(n) {
                let x = choose|x: int| 0 <= x < less.len() && less[x] == n;
                assert(nodes[x] == n);
            }
            if nodes.contains(n) && n != nodes.last() {
                let x = choose|x: int| 0 <= x < nodes.len() && nodes[x] == n;
                assert(less[x] == n);
            }
            assert(nodes[nodes.len() - 1] == nodes.last());
            if rest.contains((n, pairs)) {
                let x = choose|x: int| 0 <= x < rest.len() && rest[x] == (n, pairs);
                assert(all[x] == (n, pairs));
            }
            if all.contains((n, pairs)) {
                let x = choose|x: int| 0 <= x < all.len() && all[x] == (n, pairs);
                if x < rest.len() {
                    assert(rest[x] == (n, pairs));
                }
            }
            if w.wanted(nodes.last()).len() > 0 {
                assert(all[rest.len() as int] == (nodes.last(), w.wanted(nodes.last())));
            }
        }
    } else {
        assert(all =~= Seq::<(u32, Seq<(u32, u32)>)>::empty());
    }
}

/// Whether an identifier is a port of a node in a direction.
pub open spec fn is_port(w: Wiring, id: u32, node: u32, direction: Direction) -> bool {
    w.ports.dom().contains(id) && w.ports[id].node_id == node && w.ports[id].direction == direction
}

/// Every target is planned: a target with at least one output gets a plan as soon as the
/// recording node has an input, and one without outputs gets none. The links that are planned
/// join outputs of the target to inputs of the recording node, no input twice. A target with a
/// single output feeds every input. Of several outputs none is linked twice, and either all of
/// them are linked or all inputs are.
pub proof fn lemma_every_target_is_planned(w: Wiring, own: u32, node: u32)
    requires
        w.self_node == Some(own),
        w.targets().contains(node),
    ensures
        (exists|pairs: Seq<(u32, u32)>| #[trigger]
            w.plans(w.targets()).contains((node, pairs))) <==> (exists|o: u32| #[trigger]
            is_port(w, o, node, Direction::Out)) && (exists|i: u32| #[trigger]
            is_port(w, i, own, Direction::In)),
        forall|pairs: Seq<(u32, u32)>| #[trigger]
            w.plans(w.targets()).contains((node, pairs)) ==> {
                &&& forall|k: int|
                    0 <= k < pairs.len() ==> is_port(
                        w,
                        (#[trigger] pairs[k]).0,
                        node,
                        Direction::Out,
                    ) && is_port(w, pairs[k].1, own, Direction::In)
                &&& forall|j: int, k: int|
                    0 <= j < k < pairs.len() ==> (#[trigger] pairs[j]).1 != (#[trigger] pairs[k]).1
                &&& (forall|o: u32, p: u32|
                    #![trigger is_port(w, o, node, Direction::Out), is_port(w, p, node, Direction::Out)]
                    is_port(w, o, node, Direction::Out) && is_port(w, p, node, Direction::Out) ==> o
                        == p) ==> forall|o: u32, i: u32|
                    #![trigger is_port(w, o, node, Direction::Out), is_port(w, i, own, Direction::In)]
                    is_port(w, o, node, Direction::Out) && is_port(w, i, own, Direction::In)
                        ==> pairs.contains((o, i))
                &&& !(forall|o: u32, p: u32|
                    #![trigger is_port(w, o, node, Direction::Out), is_port(w, p, node, Direction::Out)]
                    is_port(w, o, node, Direction::Out) && is_port(w, p, node, Direction::Out) ==> o
                        == p) ==> {
                    &&& forall|j: int, k: int|
                        0 <= j < k < pairs.len() ==> (#[trigger] pairs[j]).0 != (
                        #[trigger] pairs[k]).0
                    &&& (forall|o: u32| #[trigger]
                        is_port(w, o, node, Direction::Out) ==> exists|k: int|
                            0 <= k < pairs.len() && (#[trigger] pairs[k]).0 == o) || (forall|
                        i: u32,
                    | #[trigger]
                        is_port(w, i, own, Direction::In) ==> exists|k: int|
                            0 <= k < pairs.len() && (#[trigger] pairs[k]).1 == i)
                }
            },
{
    let outs = w.side_of(node, Direction::Out);
    let ins = w.side_of(own, Direction::In);
    let pairs = w.wanted(node);
    lemma_ports_of_a_node(w, node, Direction::Out);
    lemma_ports_of_a_node(w, own, Direction::In);
    lemma_plans(w, w.targets());
    assert(w.plans(w.targets()).contains((node, pairs)) <==> pairs.len() > 0);
    assert forall|k: int| 0 <= k < outs.len() implies is_port(
        w,
        (#[trigger] outs[k]).0,
        node,
        Direction::Out,
    ) by {
        assert(outs.contains((outs[k].0, outs[k].1)));
    }
    assert forall|k: int| 0 <= k < ins.len() implies is_port(
        w,
        (#[trigger] ins[k]).0,
        own,
        Direction::In,
    ) by {
        assert(ins.contains((ins[k].0, ins[k].1)));
    }
    assert forall|o: u32| #[trigger] is_port(w, o, node, Direction::Out) implies exists|k: int|
        0 <= k < outs.len() && (#[trigger] outs[k]).0 == o by {
        assert(outs.contains((o, w.ports[o].channel)));
        let k = choose|k: int| 0 <= k < outs.len() && outs[k] == (o, w.ports[o].channel);
        assert(outs[k].0 == o);
    }
    assert forall|i: u32| #[trigger] is_port(w, i, own, Direction::In) implies exists|k: int|
        0 <= k < ins.len() && (#[trigger] ins[k]).0 == i by {
        assert(ins.contains((i, w.ports[i].channel)));
        let k = choose|k: int| 0 <= k < ins.len() && ins[k] == (i, w.ports[i].channel);
        assert(ins[k].0 == i);
    }
    if outs.len() > 0 {
        assert(is_port(w, outs[0].0, node, Direction::Out));
    }
    if ins.len() > 0 {
        assert(is_port(w, ins[0].0, own, Direction::In));
    }
    if outs.len() > 0 && ins.len() > 0 {
        crate::linux::ports::lemma_as_many_links_as_possible(outs, ins);
        crate::linux::ports::lemma_no_input_twice(outs, ins);
        assert(pairs == matching(outs, ins).pairs);
        assert(pairs.len() > 0);
        assert forall|k: int| 0 <= k < pairs.len() implies is_port(
            w,
            (#[trigger] pairs[k]).0,
            node,
            Direction::Out,
        ) && is_port(w, pairs[k].1, own, Direction::In) by {
            assert(crate::linux::ports::has_id(outs, pairs[k].0));
            assert(crate::linux::ports::has_id(ins, pairs[k].1));
        }
        if outs.len() == 1 {
            crate::linux::ports::lemma_single_output_feeds_all(outs, ins);
            assert forall|o: u32, i: u32|
                #![trigger is_port(w, o, node, Direction::Out), is_port(w, i, own, Direction::In)]
                is_port(w, o, node, Direction::Out) && is_port(w, i, own, Direction::In) implies pairs.contains(
                (o, i),
            ) by {
                let k = choose|k: int| 0 <= k < ins.len() && (#[trigger] ins[k]).0 == i;
                assert(pairs.contains((outs[0].0, ins[k].0)));
                let z = choose|z: int| 0 <= z < outs.len() && (#[trigger] outs[z]).0 == o;
                assert(z == 0);
            }
            assert forall|o: u32, p: u32|
                #![trigger is_port(w, o, node, Direction::Out), is_port(w, p, node, Direction::Out)]
                is_port(w, o, node, Direction::Out) && is_port(w, p, node, Direction::Out) implies o
                == p by {
                let y = choose|y: int| 0 <= y < outs.len() && (#[trigger] outs[y]).0 == o;
                let z = choose|z: int| 0 <= z < outs.len() && (#[trigger] outs[z]).0 == p;
                assert(y == z);
            }
        } else {
            assert(is_port(w, outs[1].0, node, Direction::Out));
            assert(outs[0].0 < outs[1].0);
            crate::linux::ports::lemma_nothing_left_over(outs, ins);
            if forall|k: int|
                0 <= k < outs.len() ==> crate::linux::ports::paired(pairs, (#[trigger] outs[k]).0) {
                assert forall|o: u32| #[trigger]
                    is_port(w, o, node, Direction::Out) implies exists|k: int|
                    0 <= k < pairs.len() && (#[trigger] pairs[k]).0 == o by {
                    let z = choose|z: int| 0 <= z < outs.len() && (#[trigger] outs[z]).0 == o;
                    assert(crate::linux::ports::paired(pairs, outs[z].0));
                }
            } else {
                assert forall|i: u32| #[trigger]
                    is_port(w, i, own, Direction::In) implies exists|k: int|
                    0 <= k < pairs.len() && (#[trigger] pairs[k]).1 == i by {
                    let z = choose|z: int| 0 <= z < ins.len() && (#[trigger] ins[z]).0 == i;
                    assert(crate::linux::ports::fed(pairs, ins[z].0));
                }
            }
        }
    }
}

/// Ports of the same channel are linked to each other: where a target and the recording node each
/// have one port of a channel, that link is planned.
pub proof fn lemma_channels_are_kept_apart(w: Wiring, own: u32, node: u32, o: u32, i: u32)
    requires
        w.self_node == Some(own),
        w.targets().contains(node),
        is_port(w, o, node, Direction::Out),
        is_port(w, i, own, Direction::In),
        w.ports[o].channel == w.ports[i].channel,
        w.ports[o].channel.len() > 0,
        forall|p: u32| #[trigger]
            is_port(w, p, node, Direction::Out) && w.ports[p].channel == w.ports[o].channel ==> p
                == o,
        forall|p: u32| #[trigger]
            is_port(w, p, own, Direction::In) && w.ports[p].channel == w.ports[i].channel ==> p
                == i,
    ensures
        exists|pairs: Seq<(u32, u32)>| #[trigger]
            w.plans(w.targets()).contains((node, pairs)) && pairs.contains((o, i)),
{
    let outs = w.side_of(node, Direction::Out);
    let ins = w.side_of(own, Direction::In);
    lemma_ports_of_a_node(w, node, Direction::Out);
    lemma_ports_of_a_node(w, own, Direction::In);
    lemma_plans(w, w.targets());
    assert(outs.contains((o, w.ports[o].channel)));
    assert(ins.contains((i, w.ports[i].channel)));
    let a = choose|a: int| 0 <= a < outs.len() && outs[a] == (o, w.ports[o].channel);
    let n = choose|n: int| 0 <= n < ins.len() && ins[n] == (i, w.ports[i].channel);
    assert forall|k: int| 0 <= k < outs.len() && k != a implies (#[trigger] outs[k]).1
        != outs[a].1 by {
        assert(outs.contains((outs[k].0, outs[k].1)));
        assert(is_port(w, outs[k].0, node, Direction::Out));
    }
    assert forall|k: int| 0 <= k < ins.len() && k != n implies (#[trigger] ins[k]).1 != ins[n].1 by {
        assert(ins.contains((ins[k].0, ins[k].1)));
        assert(is_port(w, ins[k].0, own, Direction::In));
    }
    crate::linux::ports::lemma_same_channel_is_paired(outs, ins, a, n);
    assert(w.plans(w.targets()).contains((node, w.wanted(node))));
}

/// Until the recording node is known nothing is planned.
pub proof fn lemma_nothing_is_planned_without_recorder(w: Wiring)
    requires
        w.self_node is None,
    ensures
        w.plans(w.targets()).len() == 0,
{
    lemma_no_plans(w, w.targets());
}

/// Each target has at most one plan: plans come in the order of the targets, which ascend.
pub proof fn lemma_one_plan_for_a_target(w: Wiring)
    requires
        w.wf(),
    ensures
        forall|i: int, j: int|
            0 <= i < j < w.plans(w.targets()).len() ==> (#[trigger] w.plans(w.targets())[i]).0 < (
            #[trigger] w.plans(w.targets())[j]).0,
{
    crate::table::lemma_always_listed(w.nodes.dom());
    crate::table::lemma_always_listed(w.linked.dom());
    lemma_admitted_ascend(w, ordered(w.nodes.dom()));
    lemma_plans_ascend(w, w.targets());
}

proof fn lemma_admitted_ascend(w: Wiring, keys: Seq<u32>)
    requires
        crate::table::ascending(keys),
    ensures
        crate::table::ascending(admitted(w, keys)),
    decreases keys.len(),
{
    if keys.len() > 0 {
        let less = keys.drop_last();
        lemma_admitted_ascend(w, less);
        lemma_admitted(w, less);
        let rest = admitted(w, less);
        let all = admitted(w, keys);
        assert forall|i: int, j: int| 0 <= i < j < all.len() implies all[i] < all[j] by {
            assert(all[i] == rest[i]);
            if j < rest.len() {
                assert(all[j] == rest[j]);
            } else {
                assert(rest.contains(rest[i]));
                let x = choose|x: int| 0 <= x < less.len() && less[x] == rest[i];
                assert(keys[x] < keys[keys.len() - 1]);
            }
        }
    }
}

proof fn lemma_plans_ascend(w: Wiring, nodes: Seq<u32>)
    requires
        crate::table::ascending(nodes),
    ensures
        forall|i: int, j: int|
            0 <= i < j < w.plans(nodes).len() ==> (#[trigger] w.plans(nodes)[i]).0 < (
            #[trigger] w.plans(nodes)[j]).0,
    decreases nodes.len(),
{
    if nodes.len() > 0 {
        let less = nodes.drop_last();
        lemma_plans_ascend(w, less);
        lemma_plans(w, less);
        let rest = w.plans(less);
        let all = w.plans(nodes);
        assert forall|i: int, j: int| 0 <= i < j < all.len() implies (#[trigger] all[i]).0 < (
        #[trigger] all[j]).0 by {
            assert(all[i] == rest[i]);
            if j < rest.len() {
                assert(all[j] == rest[j]);
            } else {
                assert(rest.contains((rest[i].0, rest[i].1)));
                let x = choose|x: int| 0 <= x < less.len() && less[x] == rest[i].0;
                assert(nodes[x] < nodes[nodes.len() - 1]);
            }
        }
    }
}

/// With an included process and nothing linked, one node of that process is planned as soon as
/// there is any: the one with the lowest identifier.
pub proof fn lemma_included_process_is_planned(w: Wiring, included: u32, node: u32)
    requires
        w.select == PidSelect::Include(included),
        w.linked.dom() == Set::<u32>::empty(),
        w.nodes.dom().contains(node),
        pid_of(w.nodes[node], w.clients) == Some(included),
    ensures
        w.targets().len() == 1,
        w.targets()[0] <= node,
        w.nodes.dom().contains(w.targets()[0]),
        pid_of(w.nodes[w.targets()[0]], w.clients) == Some(included),
{
    let keys = ordered(w.nodes.dom());
    let all = admitted(w, keys);
    crate::table::lemma_always_listed(w.nodes.dom());
    lemma_admitted(w, keys);
    lemma_admitted_ascend(w, keys);
    assert(keys.contains(node));
    assert(all.contains(node));
    let x = choose|x: int| 0 <= x < all.len() && all[x] == node;
    assert(x == 0 || all[0] < all[x]);
    assert(all.contains(all[0]));
    assert(keys.contains(all[0]));
    assert(w.nodes.dom().contains(all[0]));
}

/// A client is remembered with its process, and as the client of the compared process where it is
/// that; nothing else changes.
pub proof fn lemma_client_is_remembered(w: Wiring, id: u32, p: Props, pid: u32)
    requires
        p.at("pipewire.sec.pid"@) == Some(crate::text::decimal(pid as nat)),
    ensures
        ({
            let a = w.arrived(id, ObjectKind::Client, Some(p));
            &&& a is Some
            &&& a->0.clients == w.clients.insert(id, pid)
            &&& a->0.target_client == if w.select == PidSelect::Include(pid) || w.select
                == PidSelect::Exclude(pid) {
                Some(id)
            } else {
                w.target_client
            }
            &&& a->0.nodes == w.nodes && a->0.ports == w.ports && a->0.linked == w.linked
            &&& a->0.self_node == w.self_node && a->0.select == w.select
        }),
{
    crate::linux::registry::lemma_number_reads_back(pid);
}

/// A playback node is remembered with the client and the process that it names; a node of any
/// other class is not looked at.
pub proof fn lemma_playback_node_is_remembered(
    w: Wiring,
    id: u32,
    p: Props,
    client: Option<u32>,
    pid: Option<u32>,
)
    requires
        p.at("client.id"@) == match client {
            Some(c) => Some(crate::text::decimal(c as nat)),
            None => None,
        },
        p.at("pipewire.sec.pid"@) == match pid {
            Some(n) => Some(crate::text::decimal(n as nat)),
            None => None,
        },
    ensures
        ({
            let a = w.arrived(id, ObjectKind::Node, Some(p));
            &&& a is Some <==> p.at("media.class"@) == Some("Stream/Output/Audio"@)
            &&& a is Some ==> a->0.nodes == w.nodes.insert(
                id,
                NodeEntry { owning_client_id: client, app_pid: pid },
            )
            &&& a is Some ==> a->0.clients == w.clients && a->0.ports == w.ports && a->0.linked
                == w.linked && a->0.self_node == w.self_node && a->0.target_client
                == w.target_client && a->0.select == w.select
        }),
{
    crate::linux::registry::lemma_node_reads_back(p, client, pid);
}

/// A port is remembered with its node, its direction and its channel, which is empty where it
/// has none; a port without a node or a direction is not looked at.
pub proof fn lemma_port_is_remembered(w: Wiring, id: u32, p: Props, node: u32)
    requires
        p.at("node.id"@) == Some(crate::text::decimal(node as nat)),
    ensures
        ({
            let a = w.arrived(id, ObjectKind::Port, Some(p));
            let channel = match p.at("audio.channel"@) {
                Some(c) => c,
                None => Seq::empty(),
            };
            &&& a is Some <==> p.at("port.direction"@) == Some("out"@) || p.at("port.direction"@)
                == Some("in"@)
            &&& p.at("port.direction"@) == Some("out"@) ==> a->0.ports == w.ports.insert(
                id,
                PortFact { node_id: node, direction: Direction::Out, channel },
            )
            &&& p.at("port.direction"@) == Some("in"@) ==> a->0.ports == w.ports.insert(
                id,
                PortFact { node_id: node, direction: Direction::In, channel },
            )
            &&& a is Some ==> a->0.clients == w.clients && a->0.nodes == w.nodes && a->0.linked
                == w.linked && a->0.self_node == w.self_node && a->0.target_client
                == w.target_client && a->0.select == w.select
        }),
{
    crate::linux::registry::lemma_number_reads_back(node);
    reveal_strlit("out");
    reveal_strlit("in");
    assert("out"@.len() != "in"@.len());
}

/// A report without properties, of another kind of object, of a client without a process or of a
/// port without a node is not looked at.
pub proof fn lemma_other_reports_are_not_looked_at(w: Wiring, id: u32, kind: ObjectKind, p: Props)
    requires
        kind == ObjectKind::Metadata || kind == ObjectKind::Other || (kind == ObjectKind::Client
            && p.at("pipewire.sec.pid"@) is None) || (kind == ObjectKind::Port && p.at("node.id"@)
            is None),
    ensures
        w.arrived(id, kind, Some(p)) is None,
        w.arrived(id, ObjectKind::Client, None) is None,
        w.arrived(id, ObjectKind::Node, None) is None,
        w.arrived(id, ObjectKind::Port, None) is None,
{
}

/// Which links survive the loss of an object. All go with the recording node, with any of its
/// inputs and with the client of the compared process. Otherwise only those of the node that has
/// gone go, and those of the node whose output has gone. Whenever a link went the rest is
/// planned anew.
pub proof fn lemma_which_links_survive(w: Wiring, id: u32, node: u32)
    ensures
        w.gone(id).linked.dom().contains(node) <==> {
            &&& w.linked.dom().contains(node)
            &&& w.self_node != Some(id)
            &&& w.target_client != Some(id)
            &&& node != id
            &&& !(w.ports.dom().contains(id) && w.ports[id].direction == Direction::In
                && w.self_node == Some(w.ports[id].node_id))
            &&& !(w.ports.dom().contains(id) && w.ports[id].direction == Direction::Out
                && w.ports[id].node_id == node)
        },
        w.gone(id).linked.dom().contains(node) ==> w.gone(id).linked[node] == w.linked[node],
        w.linked.dom().contains(node) && !w.gone(id).linked.dom().contains(node)
            ==> w.unlinked_by(id),
        w.self_node == Some(id) || w.target_client == Some(id) ==> w.unlinked_by(id),
        w.gone(id).nodes == w.nodes.remove(id),
        w.gone(id).clients == w.clients.remove(id),
        w.gone(id).ports == w.ports.remove(id),
        w.gone(id).select == w.select,
        w.self_node != Some(id) ==> w.gone(id).self_node == w.self_node,
        w.target_client != Some(id) ==> w.gone(id).target_client == w.target_client,
{
}

/// The recording node is the one that its stream names, but 0 and the greatest number name none;
/// nothing else changes.
pub proof fn lemma_recorder_is_named_by_its_stream(w: Wiring, stream_node: u32)
    ensures
        0 < stream_node < u32::MAX ==> w.seen_from(stream_node).self_node == Some(stream_node),
        stream_node == 0 || stream_node == u32::MAX ==> w.seen_from(stream_node).self_node
            == w.self_node,
        w.seen_from(stream_node).nodes == w.nodes,
        w.seen_from(stream_node).clients == w.clients,
        w.seen_from(stream_node).ports == w.ports,
        w.seen_from(stream_node).linked == w.linked,
        w.seen_from(stream_node).select == w.select,
        w.seen_from(stream_node).target_client == w.target_client,
{
}

/// Carrying out a plan leads from the links that are there to exactly the planned ones, and
/// touches no link that is there and planned.
pub proof fn lemma_plan_leads_to_its_links(w: Wiring, p: NodePlan)
    requires
        leads_to_wanted(w, p),
    ensures
        w.self_node == Some(p.self_node),
        forall|l: (u32, u32)|
            #![trigger p.changes.remove@.contains(l)]
            p.changes.remove@.contains(l) <==> (w.linked.dom().contains(p.node_id)
                && w.linked[p.node_id].contains(l)) && !p.wanted@.contains(l),
        forall|l: (u32, u32)|
            #![trigger p.changes.add@.contains(l)]
            p.changes.add@.contains(l) <==> p.wanted@.contains(l) && !(w.linked.dom().contains(
                p.node_id,
            ) && w.linked[p.node_id].contains(l)),
{
    let current = w.links_of(p.node_id);
    let remove = p.changes.remove@;
    assert forall|l: (u32, u32)|
        #![trigger remove.contains(l)]
        remove.contains(l) <==> current.contains(l) && !p.wanted@.contains(l) by {
        crate::linux::ports::lemma_without(current, p.wanted@, l);
        remove.to_multiset_ensures();
        without(current, p.wanted@).to_multiset_ensures();
        assert(remove.contains(l) <==> remove.to_multiset().count(l) > 0);
        assert(without(current, p.wanted@).contains(l) <==> without(
            current,
            p.wanted@,
        ).to_multiset().count(l) > 0);
    }
    assert forall|l: (u32, u32)|
        #![trigger p.changes.add@.contains(l)]
        p.changes.add@.contains(l) <==> p.wanted@.contains(l) && !current.contains(l) by {
        crate::linux::ports::lemma_without(p.wanted@, current, l);
    }
}

/// Which nodes are targets, in ascending order. Of an excluded process it is every node of any other
/// process that is known. Of an included process it is what is linked, and where nothing is it is
/// nothing unless the process has a node.
pub proof fn lemma_which_nodes_are_targets(w: Wiring, p: u32, node: u32)
    ensures
        w.select == PidSelect::Exclude(p) ==> {
            &&& w.targets().contains(node) <==> w.nodes.dom().contains(node) && match pid_of(
                w.nodes[node],
                w.clients,
            ) {
                Some(q) => q != p,
                None => false,
            }
            &&& forall|i: int, j: int|
                0 <= i < j < w.targets().len() ==> (#[trigger] w.targets()[i]) < (
                #[trigger] w.targets()[j])
        },
        w.select == PidSelect::Include(p) && w.linked.dom() != Set::<u32>::empty() ==> (
        w.targets().contains(node) <==> w.linked.dom().contains(node)),
        w.select == PidSelect::Include(p) && w.linked.dom() == Set::<u32>::empty()
            && w.targets().contains(node) ==> w.nodes.dom().contains(node) && pid_of(
            w.nodes[node],
            w.clients,
        ) == Some(p),
{
    let keys = ordered(w.nodes.dom());
    let all = admitted(w, keys);
    crate::table::lemma_always_listed(w.nodes.dom());
    crate::table::lemma_always_listed(w.linked.dom());
    lemma_admitted(w, keys);
    lemma_admitted_ascend(w, keys);
    assert(keys.contains(node) <==> w.nodes.dom().contains(node));
    assert(all.contains(node) <==> keys.contains(node) && w.select.admits(
        pid_of(w.nodes[node], w.clients),
    ));
    if w.select == PidSelect::Include(p) && w.linked.dom() == Set::<u32>::empty()
        && w.targets().contains(node) {
        if all.len() > 0 {
            assert(w.targets()[0] == all[0]);
            assert(all.contains(all[0]));
        }
    }
}

/// The links of a target are those that the ports of both sides, in ascending order, are matched
/// to; what is planned anew are all links of the objects that went.
pub proof fn lemma_links_are_matched(w: Wiring, own: u32, node: u32, id: u32)
    requires
        w.self_node == Some(own),
        w.side_of(own, Direction::In).len() > 0,
        w.side_of(node, Direction::Out).len() > 0,
    ensures
        w.wanted(node) == matching(
            w.side_of(node, Direction::Out),
            w.side_of(own, Direction::In),
        ).pairs,
        w.unlinked_by(id) <==> id == own || w.target_client == Some(id) || w.linked.dom().contains(
            id,
        ) || (w.ports.dom().contains(id) && w.ports[id].direction == Direction::In
            && w.ports[id].node_id == own) || (w.ports.dom().contains(id) && w.ports[id].direction
            == Direction::Out && w.linked.dom().contains(w.ports[id].node_id)),
        w.gone(own).self_node is None,
        w.target_client == Some(id) ==> w.gone(id).target_client is None,
{
}

/// Before the first report nothing is known and nothing is linked.
pub proof fn lemma_nothing_known_yet(select: PidSelect, id: u32)
    ensures
        ({
            let w = Wiring::fresh(select);
            &&& w.select == select
            &&& w.self_node is None && w.target_client is None
            &&& !w.nodes.dom().contains(id) && !w.clients.dom().contains(id)
                && !w.ports.dom().contains(id) && !w.linked.dom().contains(id)
        }),
{
}

/// How many links are planned for a target: as many as the recording node has inputs where the
/// target has a single output, and else as many as the side with fewer ports has.
pub proof fn lemma_how_many_links(w: Wiring, own: u32, node: u32)
    requires
        w.self_node == Some(own),
    ensures
        ({
            let outs = w.side_of(node, Direction::Out).len();
            let ins = w.side_of(own, Direction::In).len();
            &&& outs == 0 ==> w.wanted(node).len() == 0
            &&& outs == 1 ==> w.wanted(node).len() == ins
            &&& outs > 1 && outs <= ins ==> w.wanted(node).len() == outs
            &&& outs > 1 && outs > ins ==> w.wanted(node).len() == ins
        }),
{
    let outs = w.side_of(node, Direction::Out);
    let ins = w.side_of(own, Direction::In);
    lemma_ports_of_a_node(w, node, Direction::Out);
    lemma_ports_of_a_node(w, own, Direction::In);
    if outs.len() > 0 && ins.len() > 0 {
        crate::linux::ports::lemma_as_many_links_as_possible(outs, ins);
    }
}

} // verus!
