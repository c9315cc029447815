//! A map from 32-bit identifiers to values, walked in ascending order of the identifiers.

use vstd::prelude::*;

verus! {

/// A map whose entries are kept in ascending order of their keys.
#[derive(Debug)]
pub struct Table<V> {
    entries: Vec<(u32, V)>,
}

/// Whether keys ascend strictly.
pub open spec fn ascending(keys: Seq<u32>) -> bool {
    forall|i: int, j: int| 0 <= i < j < keys.len() ==> keys[i] < keys[j]
}

/// Whether `q` lists the elements of a set in ascending order.
pub open spec fn lists(q: Seq<u32>, s: Set<u32>) -> bool {
    ascending(q) && (forall|k: u32| #[trigger] q.contains(k) <==> s.contains(k))
}

/// The elements of a finite set in ascending order.
pub open spec fn ordered(s: Set<u32>) -> Seq<u32> {
    choose|q: Seq<u32>| lists(q, s)
}

/// Keys that ascend and are the elements of a set are those elements in ascending order.
pub proof fn lemma_ordered(q: Seq<u32>, s: Set<u32>)
    requires
        lists(q, s),
    ensures
        ordered(s) == q,
{
    let r = ordered(s);
    assert(lists(r, s));
    assert forall|k: u32| q.contains(k) implies r.contains(k) by {}
    assert forall|k: u32| r.contains(k) implies q.contains(k) by {}
    lemma_ascending_unique(q, r);
}

proof fn lemma_listed_below(s: Set<u32>, k: nat) -> (q: Seq<u32>)
    requires
        k <= 0x1_0000_0000,
    ensures
        ascending(q),
        forall|x: u32| #[trigger] q.contains(x) <==> s.contains(x) && x < k,
    decreases k,
{
    if k == 0 {
        Seq::empty()
    } else {
        let q = lemma_listed_below(s, (k - 1) as nat);
        let top = (k - 1) as u32;
        if s.contains(top) {
            let r = q.push(top);
            assert forall|i: int, j: int| 0 <= i < j < r.len() implies r[i] < r[j] by {
                assert(q.contains(r[i]));
                if j < q.len() {
                    assert(q[i] < q[j]);
                }
            }
            assert forall|x: u32| #[trigger] r.contains(x) <==> s.contains(x) && x < k by {
                if r.contains(x) {
                    let i = choose|i: int| 0 <= i < r.len() && r[i] == x;
                    if i < q.len() {
                        assert(q[i] == x);
                        assert(q.contains(x));
                    }
                }
                if s.contains(x) && x < k {
                    if x < k - 1 {
                        assert(q.contains(x));
                        let i = choose|i: int| 0 <= i < q.len() && q[i] == x;
                        assert(r[i] == x);
                    } else {
                        assert(r[q.len() as int] == x);
                    }
                }
            }
            r
        } else {
            q
        }
    }
}

/// The elements of every set of identifiers can be listed in ascending order.
pub proof fn lemma_always_listed(s: Set<u32>)
    ensures
        lists(ordered(s), s),
{
    let q = lemma_listed_below(s, 0x1_0000_0000);
    assert(lists(q, s));
}

proof fn lemma_ascending_unique(a: Seq<u32>, b: Seq<u32>)
    requires
        ascending(a),
        ascending(b),
        forall|k: u32| a.contains(k) <==> b.contains(k),
    ensures
        a == b,
    decreases a.len(),
{
    if a.len() == 0 {
        if b.len() > 0 {
            assert(b.contains(b[0]));
            assert(a.contains(b[0]));
        }
        assert(a =~= b);
    } else {
        assert(a.contains(a.last()));
        assert(b.contains(a.last()));
        assert(b.contains(b.last()));
        assert(a.contains(b.last()));
        let x = choose|x: int| 0 <= x < b.len() && b[x] == a.last();
        let y = choose|y: int| 0 <= y < a.len() && a[y] == b.last();
        assert(a.last() == b.last()) by {
            if x < b.len() - 1 {
                assert(b[x] < b[b.len() - 1]);
            }
            if y < a.len() - 1 {
                assert(a[y] < a[a.len() - 1]);
            }
        }
        let ap = a.drop_last();
        let bp = b.drop_last();
        assert forall|k: u32| ap.contains(k) <==> bp.contains(k) by {
            if ap.contains(k) {
                let i = choose|i: int| 0 <= i < ap.len() && ap[i] == k;
                assert(a[i] == k);
                assert(a.contains(k));
                assert(b.contains(k));
                let j = choose|j: int| 0 <= j < b.len() && b[j] == k;
                assert(a[i] < a[a.len() - 1]);
                assert(j < b.len() - 1);
                assert(bp[j] == k);
            }
            if bp.contains(k) {
                let i = choose|i: int| 0 <= i < bp.len() && bp[i] == k;
                assert(b[i] == k);
                assert(b.contains(k));
                assert(a.contains(k));
                let j = choose|j: int| 0 <= j < a.len() && a[j] == k;
                assert(b[i] < b[b.len() - 1]);
                assert(j < a.len() - 1);
                assert(ap[j] == k);
            }
        }
        lemma_ascending_unique(ap, bp);
        assert(a =~= ap.push(a.last()));
        assert(b =~= bp.push(b.last()));
    }
}

impl<V> Table<V> {
    #[verifier::type_invariant]
    closed spec fn sorted(self) -> bool {
        forall|i: int, j: int|
            0 <= i < j < self.entries@.len() ==> self.entries@[i].0 < self.entries@[j].0
    }

    /// The keys in the order in which they are walked.
    pub closed spec fn keys(&self) -> Seq<u32> {
        Seq::new(self.entries@.len(), |i: int| self.entries@[i].0)
    }

    /// The entries in the order in which they are walked.
    pub closed spec fn pairs(&self) -> Seq<(u32, V)> {
        self.entries@
    }

    spec fn position(self, k: u32) -> int {
        choose|i: int| 0 <= i < self.entries@.len() && (#[trigger] self.entries@[i]).0 == k
    }

    spec fn held(self, k: u32) -> bool {
        exists|i: int| 0 <= i < self.entries@.len() && (#[trigger] self.entries@[i]).0 == k
    }
}

impl<V> View for Table<V> {
    type V = Map<u32, V>;

    closed spec fn view(&self) -> Map<u32, V> {
        Map::new(|k: u32| self.held(k), |k: u32| self.entries@[self.position(k)].1)
    }
}

impl<V> Table<V> {
    /// The keys ascend, and are exactly those of the map.
    pub open spec fn keys_match(&self) -> bool {
        &&& lists(self.keys(), self@.dom())
        &&& self.keys() == ordered(self@.dom())
    }

    proof fn lemma_at(self, i: int)
        requires
            self.sorted(),
            0 <= i < self.entries@.len(),
        ensures
            self@.dom().contains(self.entries@[i].0),
            self@[self.entries@[i].0] == self.entries@[i].1,
    {
        let k = self.entries@[i].0;
        let p = self.position(k);
        assert(self.held(k));
        assert(0 <= p < self.entries@.len() && self.entries@[p].0 == k);
        assert(p == i);
    }

    proof fn lemma_keys(self)
        requires
            self.sorted(),
        ensures
            self.keys_match(),
            self.keys().len() == self.entries@.len(),
            self.pairs().len() == self.entries@.len(),
    {
        assert forall|k: u32| #[trigger] self.keys().contains(k) implies self@.dom().contains(
            k,
        ) by {
            let i = choose|i: int| 0 <= i < self.keys().len() && self.keys()[i] == k;
            assert(self.entries@[i].0 == k);
        }
        assert forall|k: u32| self@.dom().contains(k) implies #[trigger] self.keys().contains(
            k,
        ) by {
            let i = choose|i: int|
                0 <= i < self.entries@.len() && (#[trigger] self.entries@[i]).0 == k;
            assert(self.keys()[i] == k);
        }
        lemma_ordered(self.keys(), self@.dom());
    }

    /// An empty table.
    pub fn new() -> (res: Table<V>)
        ensures
            res@ == Map::<u32, V>::empty(),
            res.keys() == Seq::<u32>::empty(),
    {
        let t: Table<V> = Table { entries: Vec::new() };
        assert(t@ =~= Map::<u32, V>::empty());
        assert(t.keys() =~= Seq::<u32>::empty());
        t
    }

    /// The number of entries.
    pub fn len(&self) -> (res: usize)
        ensures
            res == self.keys().len(),
            res == self.pairs().len(),
            self.keys_match(),
    {
        proof {
            use_type_invariant(self);
            self.lemma_keys();
        }
        self.entries.len()
    }

    /// Whether there is no entry.
    pub fn is_empty(&self) -> (res: bool)
        ensures
            res == (self.keys().len() == 0),
            res == (self@ == Map::<u32, V>::empty()),
            self.keys_match(),
    {
        proof {
            use_type_invariant(self);
            self.lemma_keys();
            if self.entries@.len() > 0 {
                self.lemma_at(0);
            } else {
                assert(self@ =~= Map::<u32, V>::empty());
            }
        }
        self.entries.is_empty()
    }

    /// The key at a place in the order.
    pub fn key_at(&self, i: usize) -> (res: u32)
        requires
            i < self.keys().len(),
        ensures
            res == self.keys()[i as int],
            self@.dom().contains(res),
    {
        proof {
            use_type_invariant(self);
            self.lemma_at(i as int);
        }
        self.entries[i].0
    }

    /// The value at a place in the order.
    pub fn value_at(&self, i: usize) -> (res: &V)
        requires
            i < self.keys().len(),
        ensures
            *res == self@[self.keys()[i as int]],
            *res == self.pairs()[i as int].1,
            self.keys()[i as int] == self.pairs()[i as int].0,
            self@.dom().contains(self.keys()[i as int]),
    {
        proof {
            use_type_invariant(self);
            self.lemma_at(i as int);
        }
        &self.entries[i].1
    }

    /// The place of a key, or where it would go.
    fn place(&self, k: u32) -> (res: (usize, bool))
        ensures
            res.0 <= self.entries@.len(),
            res.1 ==> res.0 < self.entries@.len() && self.entries@[res.0 as int].0 == k,
            !res.1 ==> !self@.dom().contains(k),
            forall|i: int| 0 <= i < res.0 ==> (#[trigger] self.entries@[i]).0 < k,
            forall|i: int|
                res.0 <= i < self.entries@.len() ==> (#[trigger] self.entries@[i]).0 >= k,
            !res.1 ==> forall|i: int|
                res.0 <= i < self.entries@.len() ==> (#[trigger] self.entries@[i]).0 > k,
    {
        proof {
            use_type_invariant(self);
        }
        let mut i: usize = 0;
        while i < self.entries.len() && self.entries[i].0 < k
            invariant
                i <= self.entries@.len(),
                forall|j: int| 0 <= j < i ==> (#[trigger] self.entries@[j]).0 < k,
            decreases self.entries@.len() - i,
        {
            i = i + 1;
        }
        let found: bool = i < self.entries.len() && self.entries[i].0 == k;
        proof {
            if !found && self@.dom().contains(k) {
                let j = choose|j: int|
                    0 <= j < self.entries@.len() && (#[trigger] self.entries@[j]).0 == k;
                assert(self.entries@[j].0 == k);
            }
        }
        (i, found)
    }

    /// The entries, leaving the table empty.
    fn take_entries(&mut self) -> (res: Vec<(u32, V)>)
        ensures
            res@ == old(self).entries@,
    {
        let mut taken: Table<V> = Table::new();
        core::mem::swap(self, &mut taken);
        taken.entries
    }

    /// The value of a key.
    pub fn get(&self, k: u32) -> (res: Option<&V>)
        ensures
            match res {
                Some(v) => self@.dom().contains(k) && *v == self@[k],
                None => !self@.dom().contains(k),
            },
    {
        let (i, found): (usize, bool) = self.place(k);
        if found {
            proof {
                use_type_invariant(self);
                self.lemma_at(i as int);
            }
            Some(&self.entries[i].1)
        } else {
            None
        }
    }

    /// Whether a key is there.
    pub fn contains_key(&self, k: u32) -> (res: bool)
        ensures
            res == self@.dom().contains(k),
    {
        self.get(k).is_some()
    }

    /// Takes a key out and returns its value.
    pub fn remove(&mut self, k: u32) -> (res: Option<V>)
        ensures
            final(self)@ == old(self)@.remove(k),
            match res {
                Some(v) => old(self)@.dom().contains(k) && v == old(self)@[k],
                None => !old(self)@.dom().contains(k),
            },
    {
        let (i, found): (usize, bool) = self.place(k);
        proof {
            use_type_invariant(&*self);
        }
        let ghost before = *self;
        if found {
            proof {
                before.lemma_at(i as int);
            }
            let mut entries: Vec<(u32, V)> = self.take_entries();
            let gone: (u32, V) = entries.remove(i);
            *self = Table { entries };
            proof {
                assert(self.entries@ == before.entries@.remove(i as int));
                lemma_removed(before, *self, i as int);
            }
            Some(gone.1)
        } else {
            proof {
                assert(self@ =~= before@.remove(k));
            }
            None
        }
    }

    /// Sets the value of a key, in place of an earlier one.
    pub fn insert(&mut self, k: u32, v: V)
        ensures
            final(self)@ == old(self)@.insert(k, v),
    {
        self.remove(k);
        let ghost mid = *self;
        let (i, found): (usize, bool) = self.place(k);
        proof {
            use_type_invariant(&*self);
            assert(!found) by {
                if found {
                    mid.lemma_at(i as int);
                }
            }
        }
        let mut entries: Vec<(u32, V)> = self.take_entries();
        entries.insert(i, (k, v));
        *self = Table { entries };
        proof {
            lemma_inserted(mid, *self, i as int, k, v);
            assert(old(self)@.remove(k).insert(k, v) =~= old(self)@.insert(k, v));
        }
    }

    /// Takes all entries out.
    pub fn clear(&mut self)
        ensures
            final(self)@ == Map::<u32, V>::empty(),
    {
        *self = Table::new();
    }
}

proof fn lemma_removed<V>(before: Table<V>, after: Table<V>, i: int)
    requires
        before.sorted(),
        after.sorted(),
        0 <= i < before.entries@.len(),
        after.entries@ == before.entries@.remove(i),
    ensures
        after@ == before@.remove(before.entries@[i].0),
{
    let k = before.entries@[i].0;
    assert forall|x: u32| after@.dom().contains(x) <==> before@.remove(k).dom().contains(x) by {
        if after@.dom().contains(x) {
            let j = choose|j: int|
                0 <= j < after.entries@.len() && (#[trigger] after.entries@[j]).0 == x;
            if j < i {
                before.lemma_at(j);
            } else {
                before.lemma_at(j + 1);
            }
        }
        if before@.remove(k).dom().contains(x) {
            let j = choose|j: int|
                0 <= j < before.entries@.len() && (#[trigger] before.entries@[j]).0 == x;
            if j < i {
                after.lemma_at(j);
            } else {
                after.lemma_at(j - 1);
            }
        }
    }
    assert forall|x: u32| after@.dom().contains(x) implies after@[x] == before@.remove(k)[x] by {
        let j = choose|j: int|
            0 <= j < after.entries@.len() && (#[trigger] after.entries@[j]).0 == x;
        after.lemma_at(j);
        if j < i {
            before.lemma_at(j);
        } else {
            before.lemma_at(j + 1);
        }
    }
    assert(after@ =~= before@.remove(k));
}

proof fn lemma_inserted<V>(before: Table<V>, after: Table<V>, i: int, k: u32, v: V)
    requires
        before.sorted(),
        after.sorted(),
        0 <= i <= before.entries@.len(),
        after.entries@ == before.entries@.insert(i, (k, v)),
    ensures
        after@ == before@.insert(k, v),
{
    after.lemma_at(i);
    assert forall|x: u32| after@.dom().contains(x) <==> before@.insert(k, v).dom().contains(x) by {
        if after@.dom().contains(x) {
            let j = choose|j: int|
                0 <= j < after.entries@.len() && (#[trigger] after.entries@[j]).0 == x;
            if j < i {
                before.lemma_at(j);
            } else if j > i {
                before.lemma_at(j - 1);
            }
        }
        if before@.insert(k, v).dom().contains(x) && x != k {
            let j = choose|j: int|
                0 <= j < before.entries@.len() && (#[trigger] before.entries@[j]).0 == x;
            if j < i {
                after.lemma_at(j);
            } else {
                after.lemma_at(j + 1);
            }
        }
    }
    assert forall|x: u32| after@.dom().contains(x) implies after@[x] == before@.insert(k, v)[x] by {
        let j = choose|j: int|
            0 <= j < after.entries@.len() && (#[trigger] after.entries@[j]).0 == x;
        after.lemma_at(j);
        if j < i {
            before.lemma_at(j);
        } else if j > i {
            before.lemma_at(j - 1);
        }
    }
    assert(after@ =~= before@.insert(k, v));
}

} // verus!
