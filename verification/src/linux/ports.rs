//! Which output port goes to which input port, and what changes in the links that are there.

use vstd::prelude::*;

use crate::text::same;

verus! {

/// A port: its identifier and its channel name, empty where it has none.
pub type Port = (u32, String);

/// A port with its channel name as characters.
pub type PortView = (u32, Seq<char>);

/// The ports with their channel names as characters.
pub open spec fn ports_view(ports: Seq<Port>) -> Seq<PortView> {
    ports.map_values(|p: Port| (p.0, p.1@))
}

/// Pairs made so far, and which inputs they use up.
pub struct Matching {
    /// The pairs, an output and an input each.
    pub pairs: Seq<(u32, u32)>,
    /// For each input whether it is used.
    pub used: Seq<bool>,
}

impl Matching {
    /// No pairs yet.
    pub open spec fn none(inputs: nat) -> Matching {
        Matching { pairs: Seq::empty(), used: Seq::new(inputs, |i: int| false) }
    }

    /// One more pair: output `o` to the input at place `i`.
    pub open spec fn with(self, o: u32, ins: Seq<PortView>, i: int) -> Matching {
        Matching { pairs: self.pairs.push((o, ins[i].0)), used: self.used.update(i, true) }
    }
}

/// The first input from `from` on that is free and has channel `ch`.
pub open spec fn free_with_channel(
    ins: Seq<PortView>,
    used: Seq<bool>,
    ch: Seq<char>,
    from: int,
) -> Option<int>
    decreases ins.len() - from,
{
    if from >= ins.len() {
        None
    } else if !used[from] && ins[from].1 == ch {
        Some(from)
    } else {
        free_with_channel(ins, used, ch, from + 1)
    }
}

/// The first input from `from` on that is free.
pub open spec fn free_input(used: Seq<bool>, from: int) -> Option<int>
    decreases used.len() - from,
{
    if from >= used.len() {
        None
    } else if !used[from] {
        Some(from)
    } else {
        free_input(used, from + 1)
    }
}

/// The first `k` outputs matched by channel name: each with a name takes the first free input
/// of the same name.
pub open spec fn by_channel(outs: Seq<PortView>, ins: Seq<PortView>, k: nat) -> Matching
    decreases k,
{
    if k == 0 {
        Matching::none(ins.len())
    } else {
        let m = by_channel(outs, ins, (k - 1) as nat);
        let (o, ch) = outs[k - 1];
        if ch.len() == 0 {
            m
        } else {
            match free_with_channel(ins, m.used, ch, 0) {
                Some(i) => m.with(o, ins, i),
                None => m,
            }
        }
    }
}

/// Output `o` duplicated to those of the first `k` inputs that are free.
pub open spec fn duplicated(m: Matching, o: u32, ins: Seq<PortView>, k: nat) -> Matching
    decreases k,
{
    if k == 0 {
        m
    } else {
        let d = duplicated(m, o, ins, (k - 1) as nat);
        if d.used[k - 1] {
            d
        } else {
            d.with(o, ins, k - 1)
        }
    }
}

/// Whether output `o` has a pair.
pub open spec fn paired(pairs: Seq<(u32, u32)>, o: u32) -> bool {
    exists|i: int| 0 <= i < pairs.len() && (#[trigger] pairs[i]).0 == o
}

/// Those of the first `k` outputs that have no pair yet matched to the free inputs in order.
pub open spec fn in_order(m: Matching, outs: Seq<PortView>, ins: Seq<PortView>, k: nat) -> Matching
    decreases k,
{
    if k == 0 {
        m
    } else {
        let d = in_order(m, outs, ins, (k - 1) as nat);
        let o = outs[k - 1].0;
        if paired(d.pairs, o) {
            d
        } else {
            match free_input(d.used, 0) {
                Some(i) => d.with(o, ins, i),
                None => d,
            }
        }
    }
}

/// The pairs to link: by channel name first; a single output then goes to every input that is
/// left, and of several outputs those without a pair take the inputs that are left in order.
pub open spec fn matching(outs: Seq<PortView>, ins: Seq<PortView>) -> Matching {
    let named = by_channel(outs, ins, outs.len());
    if outs.len() == 1 {
        duplicated(named, outs[0].0, ins, ins.len())
    } else {
        in_order(named, outs, ins, outs.len())
    }
}

fn find_channel(ins: &Vec<Port>, used: &Vec<bool>, ch: &str) -> (res: Option<usize>)
    requires
        used@.len() == ins@.len(),
    ensures
        match (free_with_channel(ports_view(ins@), used@, ch@, 0), res) {
            (Some(w), Some(g)) => g == w && g < ins@.len(),
            (None, None) => true,
            _ => false,
        },
{
    let mut i: usize = 0;
    while i < ins.len()
        invariant
            i <= ins@.len(),
            used@.len() == ins@.len(),
            free_with_channel(ports_view(ins@), used@, ch@, 0) == free_with_channel(
                ports_view(ins@),
                used@,
                ch@,
                i as int,
            ),
        decreases ins@.len() - i,
    {
        assert(ports_view(ins@)[i as int] == (ins@[i as int].0, ins@[i as int].1@));
        if !used[i] && same(ins[i].1.as_str(), ch) {
            return Some(i);
        }
        i = i + 1;
    }
    None
}

fn find_free(used: &Vec<bool>) -> (res: Option<usize>)
    ensures
        match (free_input(used@, 0), res) {
            (Some(w), Some(g)) => g == w && g < used@.len(),
            (None, None) => true,
            _ => false,
        },
{
    let mut i: usize = 0;
    while i < used.len()
        invariant
            i <= used@.len(),
            free_input(used@, 0) == free_input(used@, i as int),
        decreases used@.len() - i,
    {
        if !used[i] {
            return Some(i);
        }
        i = i + 1;
    }
    None
}

fn has_pair(pairs: &Vec<(u32, u32)>, o: u32) -> (res: bool)
    ensures
        res == paired(pairs@, o),
{
    let mut i: usize = 0;
    while i < pairs.len()
        invariant
            i <= pairs@.len(),
            forall|k: int| 0 <= k < i ==> (#[trigger] pairs@[k]).0 != o,
        decreases pairs@.len() - i,
    {
        if pairs[i].0 == o {
            return true;
        }
        i = i + 1;
    }
    false
}

/// Matches output ports to input ports and returns the pairs to link.
pub fn pair_ports(out_ports: &Vec<Port>, in_ports: &Vec<Port>) -> (res: Vec<(u32, u32)>)
    ensures
        res@ == matching(ports_view(out_ports@), ports_view(in_ports@)).pairs,
{
    let ghost outs = ports_view(out_ports@);
    let ghost ins = ports_view(in_ports@);
    let mut pairs: Vec<(u32, u32)> = Vec::new();
    let mut used: Vec<bool> = Vec::new();
    let mut i: usize = 0;
    while i < in_ports.len()
        invariant
            i <= in_ports@.len(),
            used@ == Seq::new(i as nat, |k: int| false),
        decreases in_ports@.len() - i,
    {
        used.push(false);
        i = i + 1;
        assert(used@ =~= Seq::new(i as nat, |k: int| false));
    }
    let mut k: usize = 0;
    while k < out_ports.len()
        invariant
            k <= out_ports@.len(),
            outs == ports_view(out_ports@),
            ins == ports_view(in_ports@),
            used@.len() == in_ports@.len(),
            pairs@ == by_channel(outs, ins, k as nat).pairs,
            used@ == by_channel(outs, ins, k as nat).used,
        decreases out_ports@.len() - k,
    {
        assert(outs[k as int] == (out_ports@[k as int].0, out_ports@[k as int].1@));
        let o: u32 = out_ports[k].0;
        let ch: &str = out_ports[k].1.as_str();
        if !ch.is_empty() {
            if let Some(at) = find_channel(in_ports, &used, ch) {
                assert(ins[at as int] == (in_ports@[at as int].0, in_ports@[at as int].1@));
                used.set(at, true);
                pairs.push((o, in_ports[at].0));
            }
        }
        k = k + 1;
    }
    if out_ports.len() == 1 {
        assert(outs[0] == (out_ports@[0].0, out_ports@[0].1@));
        let o: u32 = out_ports[0].0;
        let ghost named = by_channel(outs, ins, outs.len());
        let mut n: usize = 0;
        while n < in_ports.len()
            invariant
                n <= in_ports@.len(),
                ins == ports_view(in_ports@),
                used@.len() == in_ports@.len(),
                pairs@ == duplicated(named, o, ins, n as nat).pairs,
                used@ == duplicated(named, o, ins, n as nat).used,
            decreases in_ports@.len() - n,
        {
            assert(ins[n as int] == (in_ports@[n as int].0, in_ports@[n as int].1@));
            if !used[n] {
                used.set(n, true);
                pairs.push((o, in_ports[n].0));
            }
            n = n + 1;
        }
        return pairs;
    }
    let ghost named = by_channel(outs, ins, outs.len());
    let mut n: usize = 0;
    while n < out_ports.len()
        invariant
            n <= out_ports@.len(),
            outs == ports_view(out_ports@),
            ins == ports_view(in_ports@),
            used@.len() == in_ports@.len(),
            pairs@ == in_order(named, outs, ins, n as nat).pairs,
            used@ == in_order(named, outs, ins, n as nat).used,
        decreases out_ports@.len() - n,
    {
        assert(outs[n as int] == (out_ports@[n as int].0, out_ports@[n as int].1@));
        let o: u32 = out_ports[n].0;
        if !has_pair(&pairs, o) {
            if let Some(at) = find_free(&used) {
                assert(ins[at as int] == (in_ports@[at as int].0, in_ports@[at as int].1@));
                used.set(at, true);
                pairs.push((o, in_ports[at].0));
            }
        }
        n = n + 1;
    }
    pairs
}

// ---------------------------------------------------------------------------
// Laws of matching
// ---------------------------------------------------------------------------

/// Whether the identifiers of the ports differ.
pub open spec fn distinct_ids(ports: Seq<PortView>) -> bool {
    forall|i: int, j: int| 0 <= i < j < ports.len() ==> (#[trigger] ports[i]).0 != (
    #[trigger] ports[j]).0
}

/// Whether some port has this identifier.
pub open spec fn has_id(ports: Seq<PortView>, id: u32) -> bool {
    exists|i: int| 0 <= i < ports.len() && (#[trigger] ports[i]).0 == id
}

/// Whether an input is linked by some pair.
pub open spec fn fed(pairs: Seq<(u32, u32)>, input: u32) -> bool {
    exists|i: int| 0 <= i < pairs.len() && (#[trigger] pairs[i]).1 == input
}

/// Whether pairs join given outputs to given inputs, no input twice, the inputs in use being
/// those that are fed.
pub open spec fn sound(m: Matching, outs: Seq<PortView>, ins: Seq<PortView>) -> bool {
    &&& m.used.len() == ins.len()
    &&& forall|i: int|
        0 <= i < m.pairs.len() ==> has_id(outs, (#[trigger] m.pairs[i]).0) && has_id(
            ins,
            m.pairs[i].1,
        )
    &&& forall|i: int, j: int|
        0 <= i < j < m.pairs.len() ==> (#[trigger] m.pairs[i]).1 != (#[trigger] m.pairs[j]).1
    &&& forall|n: int|
        0 <= n < ins.len() ==> (#[trigger] m.used[n] <==> fed(m.pairs, ins[n].0))
}

proof fn lemma_with_sound(m: Matching, o: u32, outs: Seq<PortView>, ins: Seq<PortView>, i: int)
    requires
        sound(m, outs, ins),
        distinct_ids(ins),
        has_id(outs, o),
        0 <= i < ins.len(),
        !m.used[i],
    ensures
        sound(m.with(o, ins, i), outs, ins),
        paired(m.with(o, ins, i).pairs, o),
        forall|x: u32| paired(m.pairs, x) ==> #[trigger] paired(m.with(o, ins, i).pairs, x),
        m.with(o, ins, i).used[i],
{
    let w = m.with(o, ins, i);
    assert(w.pairs[m.pairs.len() as int] == (o, ins[i].0));
    assert(!fed(m.pairs, ins[i].0));
    assert forall|k: int| 0 <= k < w.pairs.len() implies has_id(outs, (#[trigger] w.pairs[k]).0)
        && has_id(ins, w.pairs[k].1) by {
        if k < m.pairs.len() {
            assert(w.pairs[k] == m.pairs[k]);
        }
    }
    assert forall|a: int, b: int| 0 <= a < b < w.pairs.len() implies (#[trigger] w.pairs[a]).1 != (
    #[trigger] w.pairs[b]).1 by {
        assert(w.pairs[a] == m.pairs[a]);
        if b < m.pairs.len() {
            assert(w.pairs[b] == m.pairs[b]);
        } else {
            assert(m.pairs[a].1 != ins[i].0);
        }
    }
    assert forall|n: int| 0 <= n < ins.len() implies (#[trigger] w.used[n] <==> fed(
        w.pairs,
        ins[n].0,
    )) by {
        if n == i {
            assert(w.pairs[m.pairs.len() as int].1 == ins[n].0);
        } else {
            assert(ins[n].0 != ins[i].0);
            if m.used[n] {
                let q = choose|q: int|
                    0 <= q < m.pairs.len() && (#[trigger] m.pairs[q]).1 == ins[n].0;
                assert(w.pairs[q].1 == ins[n].0);
            }
            if fed(w.pairs, ins[n].0) {
                let q = choose|q: int|
                    0 <= q < w.pairs.len() && (#[trigger] w.pairs[q]).1 == ins[n].0;
                assert(m.pairs[q].1 == ins[n].0);
            }
        }
    }
    assert forall|x: u32| paired(m.pairs, x) implies #[trigger] paired(w.pairs, x) by {
        let q = choose|q: int| 0 <= q < m.pairs.len() && (#[trigger] m.pairs[q]).0 == x;
        assert(w.pairs[q].0 == x);
    }
}

/// The first input is found that is free and has the channel, and none where there is none.
pub proof fn lemma_free_with_channel(
    ins: Seq<PortView>,
    used: Seq<bool>,
    ch: Seq<char>,
    from: int,
)
    requires
        0 <= from,
        used.len() == ins.len(),
    ensures
        match free_with_channel(ins, used, ch, from) {
            Some(i) => from <= i < ins.len() && !used[i] && ins[i].1 == ch && forall|k: int|
                from <= k < i ==> #[trigger] used[k] || ins[k].1 != ch,
            None => forall|k: int|
                from <= k < ins.len() ==> #[trigger] used[k] || ins[k].1 != ch,
        },
    decreases ins.len() - from,
{
    if from < ins.len() && !(!used[from] && ins[from].1 == ch) {
        lemma_free_with_channel(ins, used, ch, from + 1);
    }
}

/// The first input is found that is free, and none where there is none.
pub proof fn lemma_free_input(used: Seq<bool>, from: int)
    requires
        0 <= from,
    ensures
        match free_input(used, from) {
            Some(i) => from <= i < used.len() && !used[i] && forall|k: int|
                from <= k < i ==> #[trigger] used[k],
            None => forall|k: int| from <= k < used.len() ==> #[trigger] used[k],
        },
    decreases used.len() - from,
{
    if from < used.len() && used[from] {
        lemma_free_input(used, from + 1);
    }
}

proof fn lemma_by_channel_sound(outs: Seq<PortView>, ins: Seq<PortView>, k: nat)
    requires
        distinct_ids(ins),
        k <= outs.len(),
    ensures
        sound(by_channel(outs, ins, k), outs, ins),
    decreases k,
{
    if k > 0 {
        lemma_by_channel_sound(outs, ins, (k - 1) as nat);
        let m = by_channel(outs, ins, (k - 1) as nat);
        let (o, ch) = outs[k - 1];
        assert(has_id(outs, o));
        lemma_free_with_channel(ins, m.used, ch, 0);
        if ch.len() > 0 {
            if let Some(i) = free_with_channel(ins, m.used, ch, 0) {
                lemma_with_sound(m, o, outs, ins, i);
            }
        }
    } else {
        assert forall|n: int| 0 <= n < ins.len() implies (#[trigger] Matching::none(
            ins.len(),
        ).used[n] <==> fed(Matching::none(ins.len()).pairs, ins[n].0)) by {}
    }
}

proof fn lemma_duplicated_sound(
    m: Matching,
    outs: Seq<PortView>,
    ins: Seq<PortView>,
    o: u32,
    k: nat,
)
    requires
        distinct_ids(ins),
        sound(m, outs, ins),
        has_id(outs, o),
        k <= ins.len(),
    ensures
        sound(duplicated(m, o, ins, k), outs, ins),
        forall|n: int| 0 <= n < k ==> #[trigger] duplicated(m, o, ins, k).used[n],
        forall|n: int|
            0 <= n < ins.len() && m.used[n] ==> #[trigger] duplicated(m, o, ins, k).used[n],
    decreases k,
{
    if k > 0 {
        lemma_duplicated_sound(m, outs, ins, o, (k - 1) as nat);
        let d = duplicated(m, o, ins, (k - 1) as nat);
        if !d.used[k - 1] {
            lemma_with_sound(d, o, outs, ins, k - 1);
        }
    }
}

proof fn lemma_in_order_sound(m: Matching, outs: Seq<PortView>, ins: Seq<PortView>, k: nat)
    requires
        distinct_ids(ins),
        sound(m, outs, ins),
        k <= outs.len(),
    ensures
        sound(in_order(m, outs, ins, k), outs, ins),
        forall|x: u32| paired(m.pairs, x) ==> #[trigger] paired(in_order(m, outs, ins, k).pairs, x),
        (forall|n: int| 0 <= n < ins.len() ==> #[trigger] in_order(m, outs, ins, k).used[n]) || (
        forall|n: int|
            0 <= n < k ==> paired(in_order(m, outs, ins, k).pairs, (#[trigger] outs[n]).0)),
    decreases k,
{
    if k > 0 {
        lemma_in_order_sound(m, outs, ins, (k - 1) as nat);
        let d = in_order(m, outs, ins, (k - 1) as nat);
        let o = outs[k - 1].0;
        assert(has_id(outs, o));
        lemma_free_input(d.used, 0);
        if !paired(d.pairs, o) {
            if let Some(i) = free_input(d.used, 0) {
                lemma_with_sound(d, o, outs, ins, i);
            }
        }
    }
}

/// The pairs join given outputs to given inputs, and no input is linked twice.
pub proof fn lemma_no_input_twice(outs: Seq<PortView>, ins: Seq<PortView>)
    requires
        distinct_ids(ins),
    ensures
        ({
            let pairs = matching(outs, ins).pairs;
            &&& forall|i: int|
                0 <= i < pairs.len() ==> has_id(outs, (#[trigger] pairs[i]).0) && has_id(
                    ins,
                    pairs[i].1,
                )
            &&& forall|i: int, j: int|
                0 <= i < j < pairs.len() ==> (#[trigger] pairs[i]).1 != (#[trigger] pairs[j]).1
        }),
{
    lemma_by_channel_sound(outs, ins, outs.len());
    let named = by_channel(outs, ins, outs.len());
    if outs.len() == 1 {
        assert(has_id(outs, outs[0].0));
        lemma_duplicated_sound(named, outs, ins, outs[0].0, ins.len());
    } else {
        lemma_in_order_sound(named, outs, ins, outs.len());
    }
}

/// A single output goes to every input.
pub proof fn lemma_single_output_feeds_all(outs: Seq<PortView>, ins: Seq<PortView>)
    requires
        distinct_ids(ins),
        outs.len() == 1,
    ensures
        forall|n: int|
            0 <= n < ins.len() ==> matching(outs, ins).pairs.contains(
                (outs[0].0, (#[trigger] ins[n]).0),
            ),
{
    let o = outs[0].0;
    lemma_by_channel_sound(outs, ins, 1);
    assert(has_id(outs, o));
    lemma_duplicated_sound(by_channel(outs, ins, 1), outs, ins, o, ins.len());
    let m = matching(outs, ins);
    assert forall|n: int| 0 <= n < ins.len() implies m.pairs.contains(
        (o, (#[trigger] ins[n]).0),
    ) by {
        assert(m.used[n]);
        let q = choose|q: int| 0 <= q < m.pairs.len() && (#[trigger] m.pairs[q]).1 == ins[n].0;
        assert(has_id(outs, m.pairs[q].0));
        let z = choose|z: int| 0 <= z < outs.len() && (#[trigger] outs[z]).0 == m.pairs[q].0;
        assert(z == 0);
        assert(m.pairs[q] == (o, ins[n].0));
    }
}

/// Of several outputs and any inputs, either every output has a pair or every input is fed.
pub proof fn lemma_nothing_left_over(outs: Seq<PortView>, ins: Seq<PortView>)
    requires
        distinct_ids(ins),
        outs.len() != 1,
    ensures
        (forall|k: int|
            0 <= k < outs.len() ==> paired(matching(outs, ins).pairs, (#[trigger] outs[k]).0)) || (
        forall|n: int| 0 <= n < ins.len() ==> fed(matching(outs, ins).pairs, (#[trigger] ins[n]).0)),
{
    lemma_by_channel_sound(outs, ins, outs.len());
    let named = by_channel(outs, ins, outs.len());
    lemma_in_order_sound(named, outs, ins, outs.len());
    let m = matching(outs, ins);
    if forall|n: int| 0 <= n < ins.len() ==> #[trigger] m.used[n] {
        assert forall|n: int| 0 <= n < ins.len() implies fed(m.pairs, (#[trigger] ins[n]).0) by {
            assert(m.used[n]);
        }
    }
}

proof fn lemma_later_pairs_stay(
    m: Matching,
    outs: Seq<PortView>,
    ins: Seq<PortView>,
    o: u32,
    k: nat,
    pair: (u32, u32),
)
    requires
        m.pairs.contains(pair),
    ensures
        in_order(m, outs, ins, k).pairs.contains(pair),
        duplicated(m, o, ins, k).pairs.contains(pair),
    decreases k,
{
    if k > 0 {
        lemma_later_pairs_stay(m, outs, ins, o, (k - 1) as nat, pair);
        let a = in_order(m, outs, ins, (k - 1) as nat);
        let qa = choose|q: int| 0 <= q < a.pairs.len() && a.pairs[q] == pair;
        if in_order(m, outs, ins, k).pairs != a.pairs {
            assert(in_order(m, outs, ins, k).pairs[qa] == pair);
        }
        let b = duplicated(m, o, ins, (k - 1) as nat);
        let qb = choose|q: int| 0 <= q < b.pairs.len() && b.pairs[q] == pair;
        if duplicated(m, o, ins, k).pairs != b.pairs {
            assert(duplicated(m, o, ins, k).pairs[qb] == pair);
        }
    }
}

proof fn lemma_named_pair(outs: Seq<PortView>, ins: Seq<PortView>, a: int, n: int, k: nat)
    requires
        0 <= a < outs.len(),
        0 <= n < ins.len(),
        outs[a].1 == ins[n].1,
        outs[a].1.len() > 0,
        forall|i: int| 0 <= i < outs.len() && i != a ==> (#[trigger] outs[i]).1 != outs[a].1,
        forall|i: int| 0 <= i < ins.len() && i != n ==> (#[trigger] ins[i]).1 != ins[n].1,
        k <= outs.len(),
    ensures
        by_channel(outs, ins, k).used.len() == ins.len(),
        k <= a ==> !by_channel(outs, ins, k).used[n],
        k > a ==> by_channel(outs, ins, k).pairs.contains((outs[a].0, ins[n].0)),
    decreases k,
{
    if k > 0 {
        lemma_named_pair(outs, ins, a, n, (k - 1) as nat);
        let m = by_channel(outs, ins, (k - 1) as nat);
        let (o, ch) = outs[k - 1];
        lemma_free_with_channel(ins, m.used, ch, 0);
        if k - 1 == a {
            let i = free_with_channel(ins, m.used, ch, 0);
            assert(m.used[n] || ins[n].1 == ch);
            assert(i == Some(n));
            let w = m.with(o, ins, n);
            assert(w.pairs[m.pairs.len() as int] == (outs[a].0, ins[n].0));
        } else {
            assert(outs[k - 1].1 != outs[a].1);
            if k - 1 > a {
                let q = choose|q: int|
                    0 <= q < m.pairs.len() && m.pairs[q] == (outs[a].0, ins[n].0);
                let now = by_channel(outs, ins, k);
                assert(now.pairs[q] == (outs[a].0, ins[n].0));
            }
        }
    }
}

/// An output and an input that alone have a channel name are paired, whatever else is there and
/// in whatever order the ports came.
pub proof fn lemma_same_channel_is_paired(
    outs: Seq<PortView>,
    ins: Seq<PortView>,
    a: int,
    n: int,
)
    requires
        0 <= a < outs.len(),
        0 <= n < ins.len(),
        outs[a].1 == ins[n].1,
        outs[a].1.len() > 0,
        forall|i: int| 0 <= i < outs.len() && i != a ==> (#[trigger] outs[i]).1 != outs[a].1,
        forall|i: int| 0 <= i < ins.len() && i != n ==> (#[trigger] ins[i]).1 != ins[n].1,
    ensures
        matching(outs, ins).pairs.contains((outs[a].0, ins[n].0)),
{
    lemma_named_pair(outs, ins, a, n, outs.len());
    let named = by_channel(outs, ins, outs.len());
    lemma_later_pairs_stay(
        named,
        outs,
        ins,
        outs[0].0,
        outs.len(),
        (outs[a].0, ins[n].0),
    );
    lemma_later_pairs_stay(
        named,
        outs,
        ins,
        outs[0].0,
        ins.len(),
        (outs[a].0, ins[n].0),
    );
}

/// Whether no output has two pairs.
spec fn outputs_once(pairs: Seq<(u32, u32)>) -> bool {
    forall|i: int, j: int|
        0 <= i < j < pairs.len() ==> (#[trigger] pairs[i]).0 != (#[trigger] pairs[j]).0
}

proof fn lemma_by_channel_outputs(outs: Seq<PortView>, ins: Seq<PortView>, k: nat)
    requires
        distinct_ids(outs),
        k <= outs.len(),
    ensures
        outputs_once(by_channel(outs, ins, k).pairs),
        forall|i: int|
            0 <= i < by_channel(outs, ins, k).pairs.len() ==> exists|a: int|
                0 <= a < k && (#[trigger] by_channel(outs, ins, k).pairs[i]).0 == (
                #[trigger] outs[a]).0,
    decreases k,
{
    if k > 0 {
        lemma_by_channel_outputs(outs, ins, (k - 1) as nat);
        let m = by_channel(outs, ins, (k - 1) as nat);
        let now = by_channel(outs, ins, k);
        assert forall|i: int| 0 <= i < now.pairs.len() implies exists|a: int|
            0 <= a < k && (#[trigger] now.pairs[i]).0 == (#[trigger] outs[a]).0 by {
            if i < m.pairs.len() {
                assert(now.pairs[i] == m.pairs[i]);
                let a = choose|a: int|
                    0 <= a < k - 1 && m.pairs[i].0 == (#[trigger] outs[a]).0;
                assert(0 <= a < k && now.pairs[i].0 == outs[a].0);
            } else {
                assert(now.pairs[i].0 == outs[k - 1].0);
            }
        }
        assert forall|i: int, j: int| 0 <= i < j < now.pairs.len() implies (
        #[trigger] now.pairs[i]).0 != (#[trigger] now.pairs[j]).0 by {
            assert(now.pairs[i] == m.pairs[i]);
            if j < m.pairs.len() {
                assert(now.pairs[j] == m.pairs[j]);
            } else {
                let a = choose|a: int|
                    0 <= a < k - 1 && m.pairs[i].0 == (#[trigger] outs[a]).0;
                assert(outs[a].0 != outs[k - 1].0);
            }
        }
    }
}

proof fn lemma_in_order_outputs(m: Matching, outs: Seq<PortView>, ins: Seq<PortView>, k: nat)
    requires
        outputs_once(m.pairs),
        k <= outs.len(),
    ensures
        outputs_once(in_order(m, outs, ins, k).pairs),
    decreases k,
{
    if k > 0 {
        lemma_in_order_outputs(m, outs, ins, (k - 1) as nat);
        let d = in_order(m, outs, ins, (k - 1) as nat);
        let now = in_order(m, outs, ins, k);
        assert forall|i: int, j: int| 0 <= i < j < now.pairs.len() implies (
        #[trigger] now.pairs[i]).0 != (#[trigger] now.pairs[j]).0 by {
            assert(now.pairs[i] == d.pairs[i]);
            if j < d.pairs.len() {
                assert(now.pairs[j] == d.pairs[j]);
            } else {
                assert(!paired(d.pairs, outs[k - 1].0));
            }
        }
    }
}

/// How many values there are that do not repeat, where another list holds each of them.
proof fn lemma_no_longer(a: Seq<u32>, b: Seq<u32>)
    requires
        a.no_duplicates(),
        forall|i: int| 0 <= i < a.len() ==> b.contains(#[trigger] a[i]),
    ensures
        a.len() <= b.len(),
{
    a.unique_seq_to_set();
    assert(a.to_set().subset_of(b.to_set()));
    b.lemma_cardinality_of_set();
    vstd::set_lib::lemma_len_subset(a.to_set(), b.to_set());
}

/// As many links as possible: no output and no input has two of them where there are several
/// outputs, and then there are as many as the smaller side has ports. A single output is linked
/// to every input, once each.
pub proof fn lemma_as_many_links_as_possible(outs: Seq<PortView>, ins: Seq<PortView>)
    requires
        forall|i: int, j: int|
            0 <= i < j < outs.len() ==> (#[trigger] outs[i]).0 != (#[trigger] outs[j]).0,
        forall|i: int, j: int|
            0 <= i < j < ins.len() ==> (#[trigger] ins[i]).0 != (#[trigger] ins[j]).0,
    ensures
        ({
            let pairs = matching(outs, ins).pairs;
            &&& forall|i: int, j: int|
                0 <= i < j < pairs.len() ==> (#[trigger] pairs[i]).1 != (#[trigger] pairs[j]).1
            &&& outs.len() == 1 ==> pairs.len() == ins.len() && forall|i: int|
                0 <= i < pairs.len() ==> (#[trigger] pairs[i]).0 == outs[0].0
            &&& outs.len() != 1 ==> forall|i: int, j: int|
                0 <= i < j < pairs.len() ==> (#[trigger] pairs[i]).0 != (#[trigger] pairs[j]).0
            &&& outs.len() != 1 ==> pairs.len() == if outs.len() < ins.len() {
                outs.len()
            } else {
                ins.len()
            }
        }),
{
    let m = matching(outs, ins);
    let pairs = m.pairs;
    lemma_no_input_twice(outs, ins);
    let outputs = Seq::new(pairs.len(), |i: int| pairs[i].0);
    let inputs = Seq::new(pairs.len(), |i: int| pairs[i].1);
    let all_outs = Seq::new(outs.len(), |i: int| outs[i].0);
    let all_ins = Seq::new(ins.len(), |i: int| ins[i].0);
    assert(inputs.no_duplicates()) by {
        assert forall|i: int, j: int|
            0 <= i < inputs.len() && 0 <= j < inputs.len() && i != j implies inputs[i] != inputs[j] by {
            assert(inputs[i] == pairs[i].1 && inputs[j] == pairs[j].1);
        }
    }
    assert(all_ins.no_duplicates()) by {
        assert forall|i: int, j: int|
            0 <= i < ins.len() && 0 <= j < ins.len() && i != j implies all_ins[i] != all_ins[j] by {
            assert(all_ins[i] == ins[i].0 && all_ins[j] == ins[j].0);
        }
    }
    assert(all_outs.no_duplicates()) by {
        assert forall|i: int, j: int|
            0 <= i < outs.len() && 0 <= j < outs.len() && i != j implies all_outs[i]
            != all_outs[j] by {
            assert(all_outs[i] == outs[i].0 && all_outs[j] == outs[j].0);
        }
    }
    assert forall|i: int| 0 <= i < inputs.len() implies all_ins.contains(#[trigger] inputs[i]) by {
        assert(has_id(ins, pairs[i].1));
        let n = choose|n: int| 0 <= n < ins.len() && (#[trigger] ins[n]).0 == pairs[i].1;
        assert(all_ins[n] == inputs[i]);
    }
    lemma_no_longer(inputs, all_ins);
    assert forall|i: int| 0 <= i < outputs.len() implies all_outs.contains(
        #[trigger] outputs[i],
    ) by {
        assert(has_id(outs, pairs[i].0));
        let n = choose|n: int| 0 <= n < outs.len() && (#[trigger] outs[n]).0 == pairs[i].0;
        assert(all_outs[n] == outputs[i]);
    }
    if outs.len() == 1 {
        lemma_single_output_feeds_all(outs, ins);
        assert forall|n: int| 0 <= n < all_ins.len() implies inputs.contains(
            #[trigger] all_ins[n],
        ) by {
            assert(all_ins[n] == ins[n].0);
            let q = choose|q: int| 0 <= q < pairs.len() && pairs[q] == (outs[0].0, ins[n].0);
            assert(inputs[q] == all_ins[n]);
        }
        lemma_no_longer(all_ins, inputs);
        assert forall|i: int| 0 <= i < pairs.len() implies (#[trigger] pairs[i]).0 == outs[0].0 by {
            assert(has_id(outs, pairs[i].0));
        }
    } else {
        lemma_by_channel_outputs(outs, ins, outs.len());
        lemma_in_order_outputs(by_channel(outs, ins, outs.len()), outs, ins, outs.len());
        assert(outputs.no_duplicates()) by {
            assert forall|i: int, j: int|
                0 <= i < outputs.len() && 0 <= j < outputs.len() && i != j implies outputs[i]
                != outputs[j] by {
                assert(outputs[i] == pairs[i].0 && outputs[j] == pairs[j].0);
            }
        }
        lemma_no_longer(outputs, all_outs);
        lemma_nothing_left_over(outs, ins);
        if forall|k: int| 0 <= k < outs.len() ==> paired(pairs, (#[trigger] outs[k]).0) {
            assert forall|k: int| 0 <= k < all_outs.len() implies outputs.contains(
                #[trigger] all_outs[k],
            ) by {
                assert(all_outs[k] == outs[k].0);
                assert(paired(pairs, outs[k].0));
                let q = choose|q: int| 0 <= q < pairs.len() && (#[trigger] pairs[q]).0 == outs[k].0;
                assert(outputs[q] == all_outs[k]);
            }
            lemma_no_longer(all_outs, outputs);
        } else {
            assert forall|n: int| 0 <= n < all_ins.len() implies inputs.contains(
                #[trigger] all_ins[n],
            ) by {
                assert(all_ins[n] == ins[n].0);
                assert(fed(pairs, ins[n].0));
                let q = choose|q: int| 0 <= q < pairs.len() && (#[trigger] pairs[q]).1 == ins[n].0;
                assert(inputs[q] == all_ins[n]);
            }
            lemma_no_longer(all_ins, inputs);
        }
    }
}

/// Whether an output is paired with an input of its channel, or an input is fed by an output of
/// its channel.
spec fn served(
    pairs: Seq<(u32, u32)>,
    outs: Seq<PortView>,
    ins: Seq<PortView>,
    a: int,
    n: int,
) -> bool {
    ||| exists|i: int|
        0 <= i < ins.len() && (#[trigger] ins[i]).1 == outs[a].1 && pairs.contains(
            (outs[a].0, ins[i].0),
        )
    ||| exists|b: int|
        0 <= b < outs.len() && (#[trigger] outs[b]).1 == ins[n].1 && pairs.contains(
            (outs[b].0, ins[n].0),
        )
}

proof fn lemma_named_served(outs: Seq<PortView>, ins: Seq<PortView>, k: nat)
    requires
        k <= outs.len(),
    ensures
        by_channel(outs, ins, k).used.len() == ins.len(),
        forall|n: int|
            0 <= n < ins.len() && (#[trigger] by_channel(outs, ins, k).used[n]) ==> exists|b: int|
                0 <= b < outs.len() && (#[trigger] outs[b]).1 == ins[n].1 && by_channel(
                    outs,
                    ins,
                    k,
                ).pairs.contains((outs[b].0, ins[n].0)),
        forall|a: int, n: int|
            0 <= a < k && 0 <= n < ins.len() && (#[trigger] outs[a]).1 == (#[trigger] ins[n]).1
                && outs[a].1.len() > 0 ==> served(by_channel(outs, ins, k).pairs, outs, ins, a, n),
    decreases k,
{
    if k > 0 {
        lemma_named_served(outs, ins, (k - 1) as nat);
        let m = by_channel(outs, ins, (k - 1) as nat);
        let now = by_channel(outs, ins, k);
        let (o, ch) = outs[k - 1];
        lemma_free_with_channel(ins, m.used, ch, 0);
        assert forall|p: (u32, u32)| m.pairs.contains(p) implies #[trigger] now.pairs.contains(p) by {
            let q = choose|q: int| 0 <= q < m.pairs.len() && m.pairs[q] == p;
            assert(now.pairs[q] == p);
        }
        let found = if ch.len() == 0 {
            None
        } else {
            free_with_channel(ins, m.used, ch, 0)
        };
        if found is Some {
            assert(now.pairs[m.pairs.len() as int] == (o, ins[found->0].0));
            assert(now.pairs.contains((outs[k - 1].0, ins[found->0].0)));
        }
        assert forall|n: int| 0 <= n < ins.len() && (#[trigger] now.used[n]) implies exists|b: int|
            0 <= b < outs.len() && (#[trigger] outs[b]).1 == ins[n].1 && now.pairs.contains(
                (outs[b].0, ins[n].0),
            ) by {
            if m.used[n] {
                let b = choose|b: int|
                    0 <= b < outs.len() && (#[trigger] outs[b]).1 == ins[n].1 && m.pairs.contains(
                        (outs[b].0, ins[n].0),
                    );
                assert(outs[b].1 == ins[n].1 && now.pairs.contains((outs[b].0, ins[n].0)));
            } else {
                assert(outs[k - 1].1 == ins[n].1);
            }
        }
        assert forall|a: int, n: int|
            0 <= a < k && 0 <= n < ins.len() && (#[trigger] outs[a]).1 == (#[trigger] ins[n]).1
                && outs[a].1.len() > 0 implies served(now.pairs, outs, ins, a, n) by {
            if a < k - 1 {
                assert(served(m.pairs, outs, ins, a, n));
            } else if found is Some {
                assert(ins[found->0].1 == outs[a].1);
            } else {
                assert(m.used[n]);
                let b = choose|b: int|
                    0 <= b < outs.len() && (#[trigger] outs[b]).1 == ins[n].1 && m.pairs.contains(
                        (outs[b].0, ins[n].0),
                    );
                assert(outs[b].1 == ins[n].1 && now.pairs.contains((outs[b].0, ins[n].0)));
            }
        }
    }
}

/// Channels come first: where an output and an input have the same channel name, the output is
/// paired with some input of that name, or the input is fed by some output of that name.
pub proof fn lemma_channels_come_first(outs: Seq<PortView>, ins: Seq<PortView>, a: int, n: int)
    requires
        0 <= a < outs.len(),
        0 <= n < ins.len(),
        outs[a].1 == ins[n].1,
        outs[a].1.len() > 0,
    ensures
        (exists|i: int|
            0 <= i < ins.len() && (#[trigger] ins[i]).1 == outs[a].1 && matching(
                outs,
                ins,
            ).pairs.contains((outs[a].0, ins[i].0))) || (exists|b: int|
            0 <= b < outs.len() && (#[trigger] outs[b]).1 == ins[n].1 && matching(
                outs,
                ins,
            ).pairs.contains((outs[b].0, ins[n].0))),
{
    lemma_named_served(outs, ins, outs.len());
    let named = by_channel(outs, ins, outs.len());
    let last = if outs.len() == 1 {
        ins.len()
    } else {
        outs.len()
    };
    assert forall|p: (u32, u32)| named.pairs.contains(p) implies #[trigger] matching(
        outs,
        ins,
    ).pairs.contains(p) by {
        lemma_later_pairs_stay(named, outs, ins, outs[0].0, last, p);
    }
    assert(served(named.pairs, outs, ins, a, n));
    if exists|i: int|
        0 <= i < ins.len() && (#[trigger] ins[i]).1 == outs[a].1 && named.pairs.contains(
            (outs[a].0, ins[i].0),
        ) {
        let i = choose|i: int|
            0 <= i < ins.len() && (#[trigger] ins[i]).1 == outs[a].1 && named.pairs.contains(
                (outs[a].0, ins[i].0),
            );
        assert(ins[i].1 == outs[a].1 && matching(outs, ins).pairs.contains(
            (outs[a].0, ins[i].0),
        ));
    } else {
        let b = choose|b: int|
            0 <= b < outs.len() && (#[trigger] outs[b]).1 == ins[n].1 && named.pairs.contains(
                (outs[b].0, ins[n].0),
            );
        assert(outs[b].1 == ins[n].1 && matching(outs, ins).pairs.contains(
            (outs[b].0, ins[n].0),
        ));
    }
}

proof fn lemma_strangers_by_channel(outs: Seq<PortView>, ins: Seq<PortView>, k: nat)
    requires
        k <= outs.len(),
        forall|a: int, n: int|
            0 <= a < outs.len() && 0 <= n < ins.len() ==> (#[trigger] outs[a]).1.len() == 0
                || outs[a].1 != (#[trigger] ins[n]).1,
    ensures
        by_channel(outs, ins, k) == Matching::none(ins.len()),
    decreases k,
{
    if k > 0 {
        lemma_strangers_by_channel(outs, ins, (k - 1) as nat);
        let used = Matching::none(ins.len()).used;
        lemma_free_with_channel(ins, used, outs[k - 1].1, 0);
        if let Some(i) = free_with_channel(ins, used, outs[k - 1].1, 0) {
            assert(ins[i].1 == outs[k - 1].1);
        }
    }
}

proof fn lemma_strangers_in_order(outs: Seq<PortView>, ins: Seq<PortView>, k: nat)
    requires
        k <= outs.len(),
        distinct_ids(outs),
    ensures
        ({
            let m = in_order(Matching::none(ins.len()), outs, ins, k);
            let n = if k < ins.len() {
                k
            } else {
                ins.len()
            };
            &&& m.pairs == Seq::new(n, |i: int| (outs[i].0, ins[i].0))
            &&& m.used == Seq::new(ins.len(), |i: int| i < n)
        }),
    decreases k,
{
    let none = Matching::none(ins.len());
    if k == 0 {
        assert(none.pairs =~= Seq::new(0, |i: int| (outs[i].0, ins[i].0)));
        assert(none.used =~= Seq::new(ins.len(), |i: int| i < 0));
    } else {
        lemma_strangers_in_order(outs, ins, (k - 1) as nat);
        let d = in_order(none, outs, ins, (k - 1) as nat);
        let o = outs[k - 1].0;
        if paired(d.pairs, o) {
            let q = choose|q: int| 0 <= q < d.pairs.len() && (#[trigger] d.pairs[q]).0 == o;
            assert(outs[q].0 == o);
        }
        lemma_free_input(d.used, 0);
        let now = in_order(none, outs, ins, k);
        if k - 1 < ins.len() {
            assert(!d.used[k - 1]);
            assert(free_input(d.used, 0) == Some(k - 1));
            assert(now.pairs =~= Seq::new(k, |i: int| (outs[i].0, ins[i].0)));
            assert(now.used =~= Seq::new(ins.len(), |i: int| i < k));
        } else {
            assert(now.pairs =~= Seq::new(ins.len(), |i: int| (outs[i].0, ins[i].0)));
            assert(now.used =~= Seq::new(ins.len(), |i: int| i < ins.len()));
        }
    }
}

/// Where no channel name is on both sides, several outputs go to the inputs in order, the first
/// to the first.
pub proof fn lemma_strangers_are_linked_in_order(outs: Seq<PortView>, ins: Seq<PortView>, i: int)
    requires
        outs.len() != 1,
        forall|a: int, b: int|
            0 <= a < b < outs.len() ==> (#[trigger] outs[a]).0 != (#[trigger] outs[b]).0,
        forall|a: int, n: int|
            0 <= a < outs.len() && 0 <= n < ins.len() ==> (#[trigger] outs[a]).1.len() == 0
                || outs[a].1 != (#[trigger] ins[n]).1,
        0 <= i < outs.len(),
        i < ins.len(),
    ensures
        i < matching(outs, ins).pairs.len(),
        matching(outs, ins).pairs[i] == (outs[i].0, ins[i].0),
{
    lemma_strangers_by_channel(outs, ins, outs.len());
    lemma_strangers_in_order(outs, ins, outs.len());
}

proof fn lemma_by_channel_len(outs: Seq<PortView>, ins: Seq<PortView>, k: nat)
    ensures
        by_channel(outs, ins, k).used.len() == ins.len(),
    decreases k,
{
    if k > 0 {
        lemma_by_channel_len(outs, ins, (k - 1) as nat);
        let m = by_channel(outs, ins, (k - 1) as nat);
        lemma_free_with_channel(ins, m.used, outs[k - 1].1, 0);
    }
}

/// Matching by channel, output by output: an output with a channel takes the first input `i` of
/// that channel that no output before it took. One without a channel takes none, nor does one for
/// whose channel no input is left.
pub proof fn lemma_channels_in_turn(outs: Seq<PortView>, ins: Seq<PortView>, k: nat, i: int)
    requires
        k < outs.len(),
    ensures
        by_channel(outs, ins, 0).pairs.len() == 0,
        forall|j: int|
            0 <= j < ins.len() ==> !#[trigger] by_channel(outs, ins, 0).used[j],
        ({
            let m = by_channel(outs, ins, k);
            let n = by_channel(outs, ins, k + 1);
            &&& outs[k as int].1.len() == 0 ==> n == m
            &&& (forall|j: int|
                0 <= j < ins.len() ==> #[trigger] m.used[j] || ins[j].1 != outs[k as int].1) ==> n
                == m
            &&& outs[k as int].1.len() > 0 && 0 <= i < ins.len() && !m.used[i] && ins[i].1
                == outs[k as int].1 && (forall|j: int|
                0 <= j < i ==> #[trigger] m.used[j] || ins[j].1 != outs[k as int].1) ==> {
                &&& n.pairs == m.pairs.push((outs[k as int].0, ins[i].0))
                &&& n.used == m.used.update(i, true)
            }
        }),
{
    let m = by_channel(outs, ins, k);
    lemma_by_channel_len(outs, ins, k);
    lemma_free_with_channel(ins, m.used, outs[k as int].1, 0);
    if let Some(f) = free_with_channel(ins, m.used, outs[k as int].1, 0) {
        assert(!m.used[f] && ins[f].1 == outs[k as int].1);
        if 0 <= i < ins.len() {
            assert(f <= i || m.used[i] || ins[i].1 != outs[k as int].1);
        }
    }
}

/// Of several outputs, one that channels left without an input takes the first input `i` that is
/// left, in the order of the outputs, and none where none is left. A single output takes each
/// input that is left, in order.
pub proof fn lemma_the_rest_in_turn(
    m: Matching,
    outs: Seq<PortView>,
    ins: Seq<PortView>,
    k: nat,
    i: int,
)
    requires
        k < outs.len(),
    ensures
        in_order(m, outs, ins, 0) == m,
        ({
            let before = in_order(m, outs, ins, k);
            let after = in_order(m, outs, ins, k + 1);
            let o = outs[k as int].0;
            &&& (exists|j: int|
                0 <= j < before.pairs.len() && (#[trigger] before.pairs[j]).0 == o) ==> after
                == before
            &&& (forall|j: int| 0 <= j < before.used.len() ==> #[trigger] before.used[j]) ==> after
                == before
            &&& (forall|j: int| 0 <= j < before.pairs.len() ==> (#[trigger] before.pairs[j]).0 != o)
                && 0 <= i < before.used.len() && !before.used[i] && (forall|j: int|
                0 <= j < i ==> #[trigger] before.used[j]) ==> {
                &&& after.pairs == before.pairs.push((o, ins[i].0))
                &&& after.used == before.used.update(i, true)
            }
        }),
        ({
            let o = outs[0].0;
            let before = duplicated(m, o, ins, k);
            let after = duplicated(m, o, ins, k + 1);
            &&& duplicated(m, o, ins, 0) == m
            &&& before.used[k as int] ==> after == before
            &&& !before.used[k as int] ==> after.pairs == before.pairs.push((o, ins[k as int].0))
                && after.used == before.used.update(k as int, true)
        }),
        outs.len() == 1 ==> matching(outs, ins) == duplicated(
            by_channel(outs, ins, 1),
            outs[0].0,
            ins,
            ins.len(),
        ),
        outs.len() > 1 ==> matching(outs, ins) == in_order(
            by_channel(outs, ins, outs.len()),
            outs,
            ins,
            outs.len(),
        ),
{
    let before = in_order(m, outs, ins, k);
    lemma_free_input(before.used, 0);
    if let Some(f) = free_input(before.used, 0) {
        assert(!before.used[f]);
        if 0 <= i < before.used.len() {
            assert(f <= i || before.used[i]);
        }
    }
}

// ---------------------------------------------------------------------------
// Changes
// ---------------------------------------------------------------------------

/// The difference between the links that are there and the links that are wanted.
#[derive(Debug, PartialEq, Eq)]
pub struct LinkChanges {
    /// Links to cut, in ascending order.
    pub remove: Vec<(u32, u32)>,
    /// Links to create, in the order in which they are wanted.
    pub add: Vec<(u32, u32)>,
}

/// Lexicographic order of pairs.
pub open spec fn pair_le(a: (u32, u32), b: (u32, u32)) -> bool {
    a.0 < b.0 || (a.0 == b.0 && a.1 <= b.1)
}

/// Whether pairs ascend.
pub open spec fn pairs_ascend(s: Seq<(u32, u32)>) -> bool {
    forall|i: int, j: int| 0 <= i < j < s.len() ==> pair_le(#[trigger] s[i], #[trigger] s[j])
}

/// The pairs of `a` that are not in `b`, in the order of `a`.
pub open spec fn without(a: Seq<(u32, u32)>, b: Seq<(u32, u32)>) -> Seq<(u32, u32)>
    decreases a.len(),
{
    if a.len() == 0 {
        Seq::empty()
    } else if b.contains(a.last()) {
        without(a.drop_last(), b)
    } else {
        without(a.drop_last(), b).push(a.last())
    }
}

fn listed(s: &Vec<(u32, u32)>, p: (u32, u32)) -> (res: bool)
    ensures
        res == s@.contains(p),
{
    let mut i: usize = 0;
    while i < s.len()
        invariant
            i <= s@.len(),
            forall|k: int| 0 <= k < i ==> s@[k] != p,
        decreases s@.len() - i,
    {
        if s[i].0 == p.0 && s[i].1 == p.1 {
            assert(s@[i as int] == p);
            return true;
        }
        i = i + 1;
    }
    false
}

fn remaining(a: &Vec<(u32, u32)>, b: &Vec<(u32, u32)>) -> (res: Vec<(u32, u32)>)
    ensures
        res@ == without(a@, b@),
{
    let mut out: Vec<(u32, u32)> = Vec::new();
    let mut i: usize = 0;
    while i < a.len()
        invariant
            i <= a@.len(),
            out@ == without(a@.take(i as int), b@),
        decreases a@.len() - i,
    {
        proof {
            assert(a@.take(i + 1).drop_last() =~= a@.take(i as int));
            assert(a@.take(i + 1).last() == a@[i as int]);
        }
        if !listed(b, a[i]) {
            out.push(a[i]);
        }
        i = i + 1;
    }
    assert(a@.take(a@.len() as int) =~= a@);
    out
}

fn sorted(s: &Vec<(u32, u32)>) -> (res: Vec<(u32, u32)>)
    ensures
        pairs_ascend(res@),
        res@.to_multiset() == s@.to_multiset(),
{
    let mut out: Vec<(u32, u32)> = Vec::new();
    let mut i: usize = 0;
    assert(s@.take(0) =~= out@);
    while i < s.len()
        invariant
            i <= s@.len(),
            pairs_ascend(out@),
            out@.to_multiset() == s@.take(i as int).to_multiset(),
        decreases s@.len() - i,
    {
        let p: (u32, u32) = s[i];
        let mut at: usize = 0;
        while at < out.len() && (out[at].0 < p.0 || (out[at].0 == p.0 && out[at].1 <= p.1))
            invariant
                at <= out@.len(),
                forall|k: int| 0 <= k < at ==> pair_le(#[trigger] out@[k], p),
            decreases out@.len() - at,
        {
            at = at + 1;
        }
        proof {
            broadcast use vstd::seq_lib::group_to_multiset_ensures;
            assert(s@.take(i + 1) =~= s@.take(i as int).push(s@[i as int]));
        }
        let ghost before = out@;
        out.insert(at, p);
        proof {
            assert(pairs_ascend(out@)) by {
                assert forall|a: int, b: int| 0 <= a < b < out@.len() implies pair_le(
                    #[trigger] out@[a],
                    #[trigger] out@[b],
                ) by {
                    let x = if a < at {
                        a
                    } else {
                        a - 1
                    };
                    let y = if b < at {
                        b
                    } else {
                        b - 1
                    };
                    if a != at {
                        assert(out@[a] == before[x]);
                    }
                    if b != at {
                        assert(out@[b] == before[y]);
                    }
                    if a == at && at < before.len() {
                        assert(pair_le(p, before[at as int]));
                        if y > at {
                            assert(pair_le(before[at as int], before[y]));
                        }
                    }
                }
            }
        }
        i = i + 1;
    }
    assert(s@.take(s@.len() as int) =~= s@);
    out
}

/// Reconciles the links that are there with the links that are wanted.
pub fn plan_link_changes(current: &Vec<(u32, u32)>, wanted: &Vec<(u32, u32)>) -> (res: LinkChanges)
    ensures
        pairs_ascend(res.remove@),
        res.remove@.to_multiset() == without(current@, wanted@).to_multiset(),
        res.add@ == without(wanted@, current@),
{
    let remove: Vec<(u32, u32)> = sorted(&remaining(current, wanted));
    let add: Vec<(u32, u32)> = remaining(wanted, current);
    LinkChanges { remove, add }
}

// ---------------------------------------------------------------------------
// Laws of changes
// ---------------------------------------------------------------------------

/// The pairs of `a` that are not in `b` are exactly those.
pub proof fn lemma_without(a: Seq<(u32, u32)>, b: Seq<(u32, u32)>, p: (u32, u32))
    ensures
        without(a, b).contains(p) <==> a.contains(p) && !b.contains(p),
    decreases a.len(),
{
    if a.len() > 0 {
        lemma_without(a.drop_last(), b, p);
        let rest = without(a.drop_last(), b);
        if a.contains(p) {
            let k = choose|k: int| 0 <= k < a.len() && a[k] == p;
            if k < a.len() - 1 {
                assert(a.drop_last()[k] == p);
            }
        }
        if a.drop_last().contains(p) {
            let k = choose|k: int| 0 <= k < a.drop_last().len() && a.drop_last()[k] == p;
            assert(a[k] == p);
        }
        if !b.contains(a.last()) {
            if rest.contains(p) {
                let k = choose|k: int| 0 <= k < rest.len() && rest[k] == p;
                assert(rest.push(a.last())[k] == p);
            }
            if p == a.last() {
                assert(rest.push(a.last())[rest.len() as int] == p);
            }
            if rest.push(a.last()).contains(p) {
                let k = choose|k: int|
                    0 <= k < rest.push(a.last()).len() && rest.push(a.last())[k] == p;
                if k < rest.len() {
                    assert(rest[k] == p);
                }
            }
        }
        assert(a[a.len() - 1] == a.last());
    }
}

/// The links after cutting `remove` and creating `add`.
pub open spec fn after_changes(
    current: Seq<(u32, u32)>,
    remove: Seq<(u32, u32)>,
    add: Seq<(u32, u32)>,
) -> Set<(u32, u32)> {
    current.to_set().difference(remove.to_set()).union(add.to_set())
}

/// Applying the changes gives exactly the wanted links, and a link that is wanted and there is
/// neither cut nor created.
pub proof fn lemma_changes_converge(
    current: Seq<(u32, u32)>,
    wanted: Seq<(u32, u32)>,
    remove: Seq<(u32, u32)>,
    add: Seq<(u32, u32)>,
)
    requires
        remove.to_multiset() == without(current, wanted).to_multiset(),
        add == without(wanted, current),
    ensures
        after_changes(current, remove, add) == wanted.to_set(),
        forall|p: (u32, u32)|
            current.contains(p) && wanted.contains(p) ==> !#[trigger] remove.contains(p)
                && !add.contains(p),
{
    assert forall|p: (u32, u32)|
        #![trigger remove.contains(p)]
        remove.contains(p) <==> current.contains(p) && !wanted.contains(p) by {
        lemma_without(current, wanted, p);
        remove.to_multiset_ensures();
        without(current, wanted).to_multiset_ensures();
        assert(remove.contains(p) <==> remove.to_multiset().count(p) > 0);
        assert(without(current, wanted).contains(p) <==> without(
            current,
            wanted,
        ).to_multiset().count(p) > 0);
    }
    assert forall|p: (u32, u32)|
        #![trigger add.contains(p)]
        add.contains(p) <==> wanted.contains(p) && !current.contains(p) by {
        lemma_without(wanted, current, p);
    }
    let after = after_changes(current, remove, add);
    assert forall|p: (u32, u32)| after.contains(p) <==> wanted.to_set().contains(p) by {
        assert(remove.to_set().contains(p) <==> remove.contains(p));
        assert(add.to_set().contains(p) <==> add.contains(p));
        assert(current.to_set().contains(p) <==> current.contains(p));
        assert(wanted.to_set().contains(p) <==> wanted.contains(p));
    }
    assert(after =~= wanted.to_set());
}

/// Once the links are the wanted ones, nothing changes any more.
pub proof fn lemma_converged_is_stable(current: Seq<(u32, u32)>, wanted: Seq<(u32, u32)>)
    requires
        current.to_set() == wanted.to_set(),
    ensures
        without(current, wanted) == Seq::<(u32, u32)>::empty(),
        without(wanted, current) == Seq::<(u32, u32)>::empty(),
{
    lemma_without_all(current, wanted);
    lemma_without_all(wanted, current);
}

proof fn lemma_without_all(a: Seq<(u32, u32)>, b: Seq<(u32, u32)>)
    requires
        a.to_set() == b.to_set(),
    ensures
        without(a, b) == Seq::<(u32, u32)>::empty(),
{
    let w = without(a, b);
    if w.len() > 0 {
        let p = w[0];
        assert(w.contains(p));
        lemma_without(a, b, p);
        assert(a.to_set().contains(p));
        assert(b.to_set().contains(p));
    }
    assert(w =~= Seq::<(u32, u32)>::empty());
}

} // verus!
