//! Listing of audio devices from the registry.

use vstd::prelude::*;

use crate::linux::registry::{as_number, ObjectKind, Props};
use crate::text::{
    after_first, find, first_index, is_text, opt, opt_str, parse_u16, parsed, same, behind_first,
};
use crate::types::{devices_view, DeviceInfo, DeviceView, SourceKind};

verus! {

/// Sample rate that is recorded, and that is taken where a device names none.
pub const NATIVE_RATE: u32 = 48_000;

/// Channels that are recorded, and that are taken where a device names none.
pub const NATIVE_CHANNELS: u16 = 2;

/// How long a listing waits for the registry (ms).
pub const ENUMERATE_DEADLINE_MS: u64 = 2_000;

/// The name in a value of the form `{"name":"..."}`: what stands between the first two quotes
/// behind the first colon behind the first key, `None` where there is none or it is empty.
pub open spec fn json_name(value: Seq<char>) -> Option<Seq<char>> {
    match behind_first(value, "\"name\""@) {
        None => None,
        Some(after_key) => match behind_first(after_key, ":"@) {
            None => None,
            Some(after_colon) => match first_index(after_colon, "\""@, 0) {
                None => None,
                Some(open) => {
                    let rest = after_colon.skip(open + 1);
                    match first_index(rest, "\""@, 0) {
                        None => None,
                        Some(close) => if close == 0 {
                            None
                        } else {
                            Some(rest.take(close))
                        },
                    }
                },
            },
        },
    }
}

/// Extracts the name from a value of the form `{"name":"..."}`.
pub fn extract_json_name(value: &str) -> (res: Option<String>)
    ensures
        opt(res) == json_name(value@),
{
    proof {
        reveal_strlit("\"");
    }
    let after_key: &str = match after_first(value, "\"name\"") {
        Some(t) => t,
        None => {
            return None;
        },
    };
    let after_colon: &str = match after_first(after_key, ":") {
        Some(t) => t,
        None => {
            return None;
        },
    };
    let open: usize = match find(after_colon, "\"") {
        Some(i) => i,
        None => {
            return None;
        },
    };
    let len: usize = after_colon.unicode_len();
    let rest: &str = after_colon.substring_char(open + 1, len);
    assert(rest@ =~= after_colon@.skip(open + 1));
    let close: usize = match find(rest, "\"") {
        Some(i) => i,
        None => {
            return None;
        },
    };
    if close == 0 {
        return None;
    }
    let name: &str = rest.substring_char(0, close);
    assert(name@ =~= rest@.take(close as int));
    Some(name.to_owned())
}

/// A node that can be listed.
#[derive(Debug)]
pub struct NodeRecord {
    /// Its stable name.
    pub node_name: String,
    /// Its display name.
    pub description: String,
    /// Whether it is an output, else it is an input.
    pub is_sink: bool,
    /// Its sample rate, where it names one.
    pub rate: Option<u32>,
    /// Its channels, where it names them.
    pub channels: Option<u16>,
}

/// A node that can be listed, its texts as characters.
pub struct RecordView {
    /// Its stable name.
    pub node_name: Seq<char>,
    /// Its display name.
    pub description: Seq<char>,
    /// Whether it is an output, else it is an input.
    pub is_sink: bool,
    /// Its sample rate, where it names one.
    pub rate: Option<u32>,
    /// Its channels, where it names them.
    pub channels: Option<u16>,
}

impl View for NodeRecord {
    type V = RecordView;

    open spec fn view(&self) -> RecordView {
        RecordView {
            node_name: self.node_name@,
            description: self.description@,
            is_sink: self.is_sink,
            rate: self.rate,
            channels: self.channels,
        }
    }
}

/// A property value read as a 16-bit number.
pub open spec fn as_small_number(value: Option<Seq<char>>) -> Option<u16> {
    match value {
        Some(t) => match parsed(t, u16::MAX as nat) {
            Some(n) => Some(n as u16),
            None => None,
        },
        None => None,
    }
}

/// Reads a node from its properties: an output or an input with a name. Its display name is the
/// description, or the name where that is missing or empty.
pub open spec fn record_of(p: Props) -> Option<RecordView> {
    let class = p.at("media.class"@);
    if class != Some("Audio/Sink"@) && class != Some("Audio/Source"@) {
        None
    } else {
        match p.at("node.name"@) {
            None => None,
            Some(name) => if name.len() == 0 {
                None
            } else {
                Some(
                    RecordView {
                        node_name: name,
                        description: match p.at("node.description"@) {
                            Some(d) => if d.len() > 0 {
                                d
                            } else {
                                name
                            },
                            None => name,
                        },
                        is_sink: class == Some("Audio/Sink"@),
                        rate: as_number(p.at("audio.rate"@)),
                        channels: as_small_number(p.at("audio.channels"@)),
                    },
                )
            },
        }
    }
}

/// Reads a node from its properties.
pub fn read_record(p: &Props) -> (res: Option<NodeRecord>)
    ensures
        match (record_of(*p), res) {
            (Some(w), Some(g)) => g@ == w,
            (None, None) => true,
            _ => false,
        },
{
    let is_sink: bool = p.is("media.class", "Audio/Sink");
    if !is_sink && !p.is("media.class", "Audio/Source") {
        return None;
    }
    let name: &str = match p.get("node.name") {
        Some(n) => n,
        None => {
            return None;
        },
    };
    if name.is_empty() {
        return None;
    }
    let description: &str = match p.get("node.description") {
        Some(d) => if d.is_empty() {
            name
        } else {
            d
        },
        None => name,
    };
    let channels: Option<u16> = match p.get("audio.channels") {
        Some(t) => parse_u16(t),
        None => None,
    };
    Some(
        NodeRecord {
            node_name: name.to_owned(),
            description: description.to_owned(),
            is_sink,
            rate: p.number("audio.rate"),
            channels,
        },
    )
}

/// The device for a node, given the names of the default output and input.
pub open spec fn device_of(
    r: RecordView,
    default_sink: Option<Seq<char>>,
    default_source: Option<Seq<char>>,
) -> DeviceView {
    DeviceView {
        id: r.node_name,
        name: r.description,
        source_kind: if r.is_sink {
            SourceKind::SystemLoopback
        } else {
            SourceKind::Mic
        },
        sample_rate: match r.rate {
            Some(n) => n,
            None => NATIVE_RATE,
        },
        channels: match r.channels {
            Some(n) => n,
            None => NATIVE_CHANNELS,
        },
        is_loopback: r.is_sink,
        is_default: if r.is_sink {
            default_sink == Some(r.node_name)
        } else {
            default_source == Some(r.node_name)
        },
    }
}

/// Makes the device for a node.
pub fn make_device(
    r: &NodeRecord,
    default_sink: &Option<String>,
    default_source: &Option<String>,
) -> (res: DeviceInfo)
    ensures
        res@ == device_of(r@, opt(*default_sink), opt(*default_source)),
{
    let is_default: bool = if r.is_sink {
        is_text(default_sink, r.node_name.as_str())
    } else {
        is_text(default_source, r.node_name.as_str())
    };
    DeviceInfo {
        id: r.node_name.as_str().to_owned(),
        name: r.description.as_str().to_owned(),
        source_kind: if r.is_sink {
            SourceKind::SystemLoopback
        } else {
            SourceKind::Mic
        },
        sample_rate: match r.rate {
            Some(n) => n,
            None => NATIVE_RATE,
        },
        channels: match r.channels {
            Some(n) => n,
            None => NATIVE_CHANNELS,
        },
        is_loopback: r.is_sink,
        is_default,
    }
}

/// What a report calls for.
#[derive(Clone, Copy, Debug, PartialEq, Eq, Structural)]
pub enum GlobalAction {
    /// Nothing.
    Nothing,
    /// Bind the metadata that names the default devices.
    BindDefaults,
}

/// Whether an object is the metadata that names the default devices.
pub open spec fn names_defaults(kind: ObjectKind, p: Props) -> bool {
    kind == ObjectKind::Metadata && p.at("metadata.name"@) == Some("default"@)
}

/// The devices seen so far.
pub struct Listing {
    /// The nodes, in the order in which they were reported.
    pub nodes: Seq<RecordView>,
    /// The name of the default output.
    pub default_sink: Option<Seq<char>>,
    /// The name of the default input.
    pub default_source: Option<Seq<char>>,
}

impl Listing {
    /// Nothing seen yet.
    pub open spec fn fresh() -> Listing {
        Listing { nodes: Seq::empty(), default_sink: None, default_source: None }
    }

    /// The state once an object was reported, and what that calls for.
    pub open spec fn arrived(self, kind: ObjectKind, props: Option<Props>) -> (
        Listing,
        GlobalAction,
    ) {
        match props {
            None => (self, GlobalAction::Nothing),
            Some(p) => if kind == ObjectKind::Node {
                match record_of(p) {
                    Some(r) => (
                        Listing { nodes: self.nodes.push(r), ..self },
                        GlobalAction::Nothing,
                    ),
                    None => (self, GlobalAction::Nothing),
                }
            } else if names_defaults(kind, p) {
                (self, GlobalAction::BindDefaults)
            } else {
                (self, GlobalAction::Nothing)
            },
        }
    }

    /// The state once a default was named.
    pub open spec fn named(self, key: Option<Seq<char>>, value: Option<Seq<char>>) -> Listing {
        match (key, value) {
            (Some(k), Some(v)) => if k == "default.audio.sink"@ {
                Listing { default_sink: json_name(v), ..self }
            } else if k == "default.audio.source"@ {
                Listing { default_source: json_name(v), ..self }
            } else {
                self
            },
            _ => self,
        }
    }

    /// The devices, in the order in which their nodes were reported.
    pub open spec fn devices(self) -> Seq<DeviceView> {
        self.nodes.map_values(
            |r: RecordView| device_of(r, self.default_sink, self.default_source),
        )
    }
}

/// Collects devices during a listing.
#[derive(Debug)]
pub struct EnumState {
    nodes: Vec<NodeRecord>,
    default_sink: Option<String>,
    default_source: Option<String>,
}

impl View for EnumState {
    type V = Listing;

    closed spec fn view(&self) -> Listing {
        Listing {
            nodes: self.nodes@.map_values(|r: NodeRecord| r@),
            default_sink: opt(self.default_sink),
            default_source: opt(self.default_source),
        }
    }
}

/// Which default a property names.
pub open spec fn default_key(key: Option<Seq<char>>) -> Option<bool> {
    match key {
        Some(k) => if k == "default.audio.sink"@ {
            Some(true)
        } else if k == "default.audio.source"@ {
            Some(false)
        } else {
            None
        },
        None => None,
    }
}

/// Whether a key names the default output (`true`) or the default input (`false`).
pub fn read_default_key(key: &str) -> (res: Option<bool>)
    ensures
        res == default_key(Some(key@)),
{
    if same(key, "default.audio.sink") {
        Some(true)
    } else if same(key, "default.audio.source") {
        Some(false)
    } else {
        None
    }
}

impl EnumState {
    /// Nothing collected yet.
    pub fn new() -> (res: EnumState)
        ensures
            res@ == Listing::fresh(),
    {
        let s: EnumState = EnumState { nodes: Vec::new(), default_sink: None, default_source: None };
        assert(s@.nodes =~= Seq::<RecordView>::empty());
        s
    }

    /// Takes the report of an object.
    pub fn on_global(&mut self, kind: ObjectKind, props: &Option<Props>) -> (res: GlobalAction)
        ensures
            (final(self)@, res) == old(self)@.arrived(kind, *props),
    {
        let p: &Props = match props {
            Some(p) => p,
            None => {
                return GlobalAction::Nothing;
            },
        };
        match kind {
            ObjectKind::Node => {
                if let Some(r) = read_record(p) {
                    proof {
                        assert(self.nodes@.push(r).map_values(|r: NodeRecord| r@)
                            =~= self.nodes@.map_values(|r: NodeRecord| r@).push(r@));
                    }
                    self.nodes.push(r);
                }
                GlobalAction::Nothing
            },
            ObjectKind::Metadata => {
                if p.is("metadata.name", "default") {
                    GlobalAction::BindDefaults
                } else {
                    GlobalAction::Nothing
                }
            },
            _ => GlobalAction::Nothing,
        }
    }

    /// Takes a property of the metadata that names the defaults.
    pub fn on_property(&mut self, key: Option<&str>, value: Option<&str>)
        ensures
            final(self)@ == old(self)@.named(opt_str(key), opt_str(value)),
    {
        match (key, value) {
            (Some(k), Some(v)) => match read_default_key(k) {
                Some(true) => {
                    self.default_sink = extract_json_name(v);
                },
                Some(false) => {
                    self.default_source = extract_json_name(v);
                },
                None => {},
            },
            _ => {},
        }
    }

    /// The devices collected.
    pub fn devices(&self) -> (res: Vec<DeviceInfo>)
        ensures
            devices_view(res@) == self@.devices(),
    {
        let mut out: Vec<DeviceInfo> = Vec::new();
        let mut i: usize = 0;
        assert(devices_view(out@) =~= self@.devices().take(0));
        while i < self.nodes.len()
            invariant
                i <= self.nodes@.len(),
                devices_view(out@) == self@.devices().take(i as int),
            decreases self.nodes@.len() - i,
        {
            let d: DeviceInfo = make_device(
                &self.nodes[i],
                &self.default_sink,
                &self.default_source,
            );
            proof {
                assert(self@.devices()[i as int] == d@);
                assert(self@.devices().take(i + 1) =~= self@.devices().take(i as int).push(d@));
                assert(devices_view(out@.push(d)) =~= devices_view(out@).push(d@));
            }
            out.push(d);
            i = i + 1;
        }
        assert(self@.devices().take(self.nodes@.len() as int) =~= self@.devices());
        out
    }
}

/// Whether a listing goes on waiting: neither are both round trips over nor is the time up.
pub fn keep_waiting(finished: bool, elapsed_ms: u64) -> (res: bool)
    ensures
        res == (!finished && elapsed_ms < ENUMERATE_DEADLINE_MS),
{
    !finished && elapsed_ms < ENUMERATE_DEADLINE_MS
}

/// The devices of a listing: none where it failed, as without a server there are none.
pub fn list_devices(listed: Result<Vec<DeviceInfo>, String>) -> (res: Vec<DeviceInfo>)
    ensures
        match listed {
            Ok(v) => res@ == v@,
            Err(_) => res@ == Seq::<DeviceInfo>::empty(),
        },
{
    match listed {
        Ok(v) => v,
        Err(_) => Vec::new(),
    }
}

// ---------------------------------------------------------------------------
// Laws
// ---------------------------------------------------------------------------

/// The value that names a default device.
pub open spec fn default_value(name: Seq<char>) -> Seq<char> {
    "{\"name\":\""@ + name + "\"}"@
}

proof fn lemma_one_char(s: Seq<char>, c: char, i: int)
    ensures
        crate::text::occurs_at(s, seq![c], i) <==> 0 <= i < s.len() && s[i] == c,
{
    if 0 <= i < s.len() {
        assert(s.subrange(i, i + 1) =~= seq![s[i]]);
        if s[i] == c {
            assert(s.subrange(i, i + 1) =~= seq![c]);
        }
        if crate::text::occurs_at(s, seq![c], i) {
            assert(s.subrange(i, i + 1)[0] == seq![c][0]);
        }
    }
}

/// A name without quotes reads back from the value that names it. (A quote would end it early.)
pub proof fn lemma_json_name_reads_back(name: Seq<char>)
    requires
        name.len() > 0,
        forall|i: int| 0 <= i < name.len() ==> #[trigger] name[i] != '"',
    ensures
        json_name(default_value(name)) == Some(name),
{
    reveal_strlit("{\"name\":\"");
    reveal_strlit("\"}");
    reveal_strlit("\"name\"");
    reveal_strlit(":");
    reveal_strlit("\"");
    let value = default_value(name);
    let key = "\"name\""@;
    assert(":"@ =~= seq![':']);
    assert("\""@ =~= seq!['"']);
    // The key stands behind the opening brace.
    assert(value.subrange(1, 7) =~= key);
    assert(!crate::text::occurs_at(value, key, 0)) by {
        if crate::text::occurs_at(value, key, 0) {
            assert(value.subrange(0, 6)[0] == key[0]);
        }
    }
    crate::text::lemma_is_first_index(value, key, 0, 1);
    let a = value.skip(7);
    assert(a =~= seq![':', '"'] + name + seq!['"', '}']);
    lemma_one_char(a, ':', 0);
    crate::text::lemma_is_first_index(a, ":"@, 0, 0);
    let b = a.skip(1);
    assert(b =~= seq!['"'] + name + seq!['"', '}']);
    lemma_one_char(b, '"', 0);
    crate::text::lemma_is_first_index(b, "\""@, 0, 0);
    let rest = b.skip(1);
    assert(rest =~= name + seq!['"', '}']);
    assert forall|k: int| 0 <= k < name.len() implies !#[trigger] crate::text::occurs_at(
        rest,
        "\""@,
        k,
    ) by {
        lemma_one_char(rest, '"', k);
        assert(rest[k] == name[k]);
    }
    lemma_one_char(rest, '"', name.len() as int);
    crate::text::lemma_is_first_index(rest, "\""@, 0, name.len() as int);
    assert(rest.take(name.len() as int) =~= name);
}

/// An output is listed as system audio, an input as a microphone, and a device has a non-empty
/// identifier.
pub proof fn lemma_devices_are_consistent(l: Listing, kind: ObjectKind, props: Props)
    requires
        kind == ObjectKind::Node,
        record_of(props) is Some,
    ensures
        ({
            let d = l.arrived(kind, Some(props)).0.devices().last();
            &&& d.id.len() > 0
            &&& d.is_loopback <==> d.source_kind == SourceKind::SystemLoopback
            &&& !d.is_loopback <==> d.source_kind == SourceKind::Mic
            &&& d.name.len() > 0
        }),
{
}

/// No two devices of one direction are the default, unless they share an identifier.
pub proof fn lemma_one_default_of_a_direction(l: Listing, i: int, j: int)
    requires
        0 <= i < l.devices().len(),
        0 <= j < l.devices().len(),
        l.devices()[i].is_default,
        l.devices()[j].is_default,
        l.devices()[i].is_loopback == l.devices()[j].is_loopback,
    ensures
        l.devices()[i].id == l.devices()[j].id,
{
}

/// What a property holds of a small number in decimal is that number.
pub proof fn lemma_small_number_reads_back(n: u16)
    ensures
        as_small_number(Some(crate::text::decimal(n as nat))) == Some(n),
        as_small_number(None) is None,
{
    crate::text::lemma_parse_reads_decimal(n as nat, u16::MAX as nat);
}

/// Outputs and inputs with a name are listed, and nothing else is. A device is listed behind
/// those that were there, under its name. Of either direction it shows its description, where it
/// has one that is not empty, and else its name. Its rate and its channels are those that it
/// names, else 48000 and 2, and it is the default where the default of its direction has its
/// name.
pub proof fn lemma_listed_device(
    l: Listing,
    p: Props,
    name: Seq<char>,
    rate: Option<u32>,
    channels: Option<u16>,
)
    requires
        p.at("node.name"@) == Some(name),
        p.at("audio.rate"@) == match rate {
            Some(n) => Some(crate::text::decimal(n as nat)),
            None => None,
        },
        p.at("audio.channels"@) == match channels {
            Some(n) => Some(crate::text::decimal(n as nat)),
            None => None,
        },
        name.len() > 0,
        p.at("media.class"@) == Some("Audio/Sink"@) || p.at("media.class"@) == Some(
            "Audio/Source"@,
        ),
    ensures
        ({
            let (now, action) = l.arrived(ObjectKind::Node, Some(p));
            let d = now.devices().last();
            let sink = p.at("media.class"@) == Some("Audio/Sink"@);
            &&& action == GlobalAction::Nothing
            &&& now.devices().len() == l.devices().len() + 1
            &&& now.devices().drop_last() == l.devices()
            &&& d.id == name
            &&& p.at("node.description"@) is None ==> d.name == name
            &&& p.at("node.description"@) is Some && p.at("node.description"@)->0.len() == 0
                ==> d.name == name
            &&& p.at("node.description"@) is Some && p.at("node.description"@)->0.len() > 0
                ==> d.name == p.at("node.description"@)->0
            &&& sink ==> d.source_kind == SourceKind::SystemLoopback
            &&& !sink ==> d.source_kind == SourceKind::Mic
            &&& d.is_loopback == sink
            &&& rate is Some ==> d.sample_rate == rate->0
            &&& rate is None ==> d.sample_rate == 48_000
            &&& channels is Some ==> d.channels == channels->0
            &&& channels is None ==> d.channels == 2
            &&& sink ==> (d.is_default <==> l.default_sink == Some(name))
            &&& !sink ==> (d.is_default <==> l.default_source == Some(name))
            &&& now.default_sink == l.default_sink && now.default_source == l.default_source
        }),
        record_of(p) matches Some(r) && r.node_name == name && r.is_sink == (p.at("media.class"@)
            == Some("Audio/Sink"@)) && r.rate == rate && r.channels == channels && (match p.at(
            "node.description"@,
        ) {
            Some(d) => if d.len() > 0 {
                r.description == d
            } else {
                r.description == name
            },
            None => r.description == name,
        }),
{
    if let Some(n) = rate {
        crate::linux::registry::lemma_number_reads_back(n);
    }
    if let Some(n) = channels {
        lemma_small_number_reads_back(n);
    }
    lemma_small_number_reads_back(0);
    crate::linux::registry::lemma_number_reads_back(0);
    let now = l.arrived(ObjectKind::Node, Some(p)).0;
    assert(now.devices().drop_last() =~= l.devices());
}

/// A node of another class, one without a name and any other object is not listed; the metadata
/// that names the defaults is bound, and no other.
pub proof fn lemma_nothing_else_is_listed(l: Listing, kind: ObjectKind, p: Props)
    requires
        kind != ObjectKind::Node || (p.at("media.class"@) != Some("Audio/Sink"@) && p.at(
            "media.class"@,
        ) != Some("Audio/Source"@)) || p.at("node.name"@) is None || p.at("node.name"@)->0.len()
            == 0,
    ensures
        l.arrived(kind, Some(p)).0 == l,
        l.arrived(kind, None) == (l, GlobalAction::Nothing),
        l.arrived(kind, Some(p)).1 == GlobalAction::BindDefaults <==> kind == ObjectKind::Metadata
            && p.at("metadata.name"@) == Some("default"@),
        kind == ObjectKind::Node ==> record_of(p) is None,
{
}

/// The two keys name the default output and the default input, each on its own; other keys and a
/// key without a value name nothing.
pub proof fn lemma_defaults_are_named(l: Listing, key: Seq<char>, value: Seq<char>)
    ensures
        ({
            let now = l.named(Some(key), Some(value));
            &&& now.nodes == l.nodes
            &&& key == "default.audio.sink"@ ==> now.default_sink == json_name(value)
                && now.default_source == l.default_source && default_key(Some(key)) == Some(true)
            &&& key == "default.audio.source"@ ==> now.default_source == json_name(value)
                && now.default_sink == l.default_sink && default_key(Some(key)) == Some(false)
            &&& key != "default.audio.sink"@ && key != "default.audio.source"@ ==> now == l
                && default_key(Some(key)) is None
        }),
        l.named(None, Some(value)) == l,
        l.named(Some(key), None) == l,
        default_key(None) is None,
{
    reveal_strlit("default.audio.sink");
    reveal_strlit("default.audio.source");
    assert("default.audio.sink"@.len() != "default.audio.source"@.len());
}

/// The name is read whatever stands around it, as long as no quote stands before its key, no colon
/// between the key and its own, and no quote between that and the name: it is all up to the next
/// quote, and none where that follows at once.
pub proof fn lemma_json_name_in_its_place(
    front: Seq<char>,
    a: Seq<char>,
    b: Seq<char>,
    name: Seq<char>,
    back: Seq<char>,
)
    requires
        forall|i: int| 0 <= i < front.len() ==> #[trigger] front[i] != '"',
        forall|i: int| 0 <= i < a.len() ==> #[trigger] a[i] != ':',
        forall|i: int| 0 <= i < b.len() ==> #[trigger] b[i] != '"',
        forall|i: int| 0 <= i < name.len() ==> #[trigger] name[i] != '"',
    ensures
        json_name(front + "\"name\""@ + a + ":"@ + b + "\""@ + name + "\""@ + back) == if name.len()
            == 0 {
            None
        } else {
            Some(name)
        },
{
    reveal_strlit("\"name\"");
    reveal_strlit(":");
    reveal_strlit("\"");
    let key = "\"name\""@;
    assert(":"@ =~= seq![':']);
    assert("\""@ =~= seq!['"']);
    let value = front + key + a + ":"@ + b + "\""@ + name + "\""@ + back;
    let n = front.len() as int;
    assert(value.subrange(n, n + 6) =~= key);
    assert forall|k: int| 0 <= k < n implies !#[trigger] crate::text::occurs_at(value, key, k) by {
        if crate::text::occurs_at(value, key, k) {
            assert(value.subrange(k, k + 6)[0] == key[0]);
            assert(value[k] == front[k]);
        }
    }
    crate::text::lemma_is_first_index(value, key, 0, n);
    let t = value.skip(n + 6);
    assert(t =~= a + ":"@ + b + "\""@ + name + "\""@ + back);
    assert forall|k: int| 0 <= k < a.len() implies !#[trigger] crate::text::occurs_at(
        t,
        ":"@,
        k,
    ) by {
        lemma_one_char(t, ':', k);
        assert(t[k] == a[k]);
    }
    lemma_one_char(t, ':', a.len() as int);
    crate::text::lemma_is_first_index(t, ":"@, 0, a.len() as int);
    let u = t.skip(a.len() as int + 1);
    assert(u =~= b + "\""@ + name + "\""@ + back);
    assert forall|k: int| 0 <= k < b.len() implies !#[trigger] crate::text::occurs_at(
        u,
        "\""@,
        k,
    ) by {
        lemma_one_char(u, '"', k);
        assert(u[k] == b[k]);
    }
    lemma_one_char(u, '"', b.len() as int);
    crate::text::lemma_is_first_index(u, "\""@, 0, b.len() as int);
    let rest = u.skip(b.len() as int + 1);
    assert(rest =~= name + "\""@ + back);
    assert forall|k: int| 0 <= k < name.len() implies !#[trigger] crate::text::occurs_at(
        rest,
        "\""@,
        k,
    ) by {
        lemma_one_char(rest, '"', k);
        assert(rest[k] == name[k]);
    }
    lemma_one_char(rest, '"', name.len() as int);
    crate::text::lemma_is_first_index(rest, "\""@, 0, name.len() as int);
    assert(rest.take(name.len() as int) =~= name);
}

/// Before the first report nothing is listed and no default is known.
pub proof fn lemma_nothing_listed_yet()
    ensures
        Listing::fresh().devices().len() == 0,
        Listing::fresh().default_sink is None && Listing::fresh().default_source is None,
{
}

/// Only what stands in its place is read as the name: between two quotes, behind a colon, behind
/// the key. `at` tells what stands around these.
pub proof fn lemma_json_name_is_in_its_place(value: Seq<char>) -> (at: (
    Seq<char>,
    Seq<char>,
    Seq<char>,
    Seq<char>,
))
    requires
        json_name(value) is Some,
    ensures
        value == at.0 + "\"name\""@ + at.1 + ":"@ + at.2 + "\""@ + json_name(value)->0 + "\""@
            + at.3,
        json_name(value)->0.len() > 0,
        forall|i: int|
            0 <= i < json_name(value)->0.len() ==> #[trigger] json_name(value)->0[i] != '"',
{
    reveal_strlit("\"name\"");
    reveal_strlit(":");
    reveal_strlit("\"");
    let key = "\"name\""@;
    assert(":"@ =~= seq![':']);
    assert("\""@ =~= seq!['"']);
    crate::text::lemma_first_index(value, key, 0);
    let i = first_index(value, key, 0)->0;
    let t = value.skip(i + 6);
    assert(value.subrange(i, i + 6) == key);
    assert(value =~= value.take(i) + key + t);
    crate::text::lemma_first_index(t, ":"@, 0);
    let j = first_index(t, ":"@, 0)->0;
    let u = t.skip(j + 1);
    assert(t.subrange(j, j + 1) == ":"@);
    assert(t =~= t.take(j) + ":"@ + u);
    crate::text::lemma_first_index(u, "\""@, 0);
    let k = first_index(u, "\""@, 0)->0;
    let rest = u.skip(k + 1);
    assert(u.subrange(k, k + 1) == "\""@);
    assert(u =~= u.take(k) + "\""@ + rest);
    crate::text::lemma_first_index(rest, "\""@, 0);
    let n = first_index(rest, "\""@, 0)->0;
    let name = rest.take(n);
    let back = rest.skip(n + 1);
    assert(rest.subrange(n, n + 1) == "\""@);
    assert(rest =~= name + "\""@ + back);
    assert forall|x: int| 0 <= x < name.len() implies #[trigger] name[x] != '"' by {
        lemma_one_char(rest, '"', x);
        assert(!crate::text::occurs_at(rest, "\""@, x));
    }
    assert(value =~= value.take(i) + key + t.take(j) + ":"@ + u.take(k) + "\""@ + name + "\""@
        + back);
    (value.take(i), t.take(j), u.take(k), back)
}

} // verus!
