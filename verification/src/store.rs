//! The allow-list store: a mapping from client address to the timestamp of
//! the most recent valid trust signal, viewed in specifications as a
//! `Map<Addr, u64>`. It alone decides who is currently exempt; the
//! admission controller keeps it aligned with the packet filter's
//! membership set.
use vstd::prelude::*;

use crate::Addr;

verus! {

/// One allow-list entry: an admitted address and when it was last seen.
#[derive(Clone, Copy, PartialEq, Eq, Structural, Debug)]
pub struct Entry {
    pub addr: Addr,
    pub last_seen: u64,
}

/// The allow-list, keyed by address.
pub struct Allowlist {
    entries: Vec<Entry>,
}

/// The mapping an entry sequence denotes: later entries win, though the
/// store keeps addresses unique so there is never a conflict.
pub open spec fn seq_map(s: Seq<Entry>) -> Map<Addr, u64>
    decreases s.len(),
{
    if s.len() == 0 {
        Map::empty()
    } else {
        seq_map(s.drop_last()).insert(s.last().addr, s.last().last_seen)
    }
}

/// No address occurs twice in the sequence.
pub open spec fn distinct_entries(s: Seq<Entry>) -> bool {
    forall|i: int, j: int| 0 <= i < j < s.len() ==> (#[trigger] s[i]).addr != (#[trigger] s[j]).addr
}

/// Some entry of the sequence carries address `a`.
pub open spec fn has_addr(s: Seq<Entry>, a: Addr) -> bool {
    exists|i: int| 0 <= i < s.len() && (#[trigger] s[i]).addr == a
}

/// `has_addr` unrolled by one entry from the back.
pub proof fn lemma_has_addr_unfold(s: Seq<Entry>, a: Addr)
    requires
        s.len() > 0,
    ensures
        has_addr(s, a) <==> (has_addr(s.drop_last(), a) || s.last().addr == a),
{
    if has_addr(s, a) {
        let i = choose|i: int| 0 <= i < s.len() && (#[trigger] s[i]).addr == a;
        if i < s.len() - 1 {
            assert(s.drop_last()[i].addr == a);
        }
    }
    if has_addr(s.drop_last(), a) {
        let i = choose|i: int| 0 <= i < s.drop_last().len() && (#[trigger] s.drop_last()[i]).addr == a;
        assert(s[i].addr == a);
    }
    if s.last().addr == a {
        assert(s[s.len() - 1].addr == a);
    }
}

/// An address is in the denoted map exactly when some entry carries it.
pub proof fn lemma_seq_map_dom(s: Seq<Entry>)
    ensures
        forall|a: Addr| seq_map(s).dom().contains(a) <==> has_addr(s, a),
    decreases s.len(),
{
    if s.len() > 0 {
        lemma_seq_map_dom(s.drop_last());
        assert forall|a: Addr| seq_map(s).dom().contains(a) <==> has_addr(s, a) by {
            lemma_has_addr_unfold(s, a);
        }
    }
}

/// With unique addresses, each entry's address maps to that entry's time.
pub proof fn lemma_seq_map_value(s: Seq<Entry>, i: int)
    requires
        distinct_entries(s),
        0 <= i < s.len(),
    ensures
        seq_map(s).dom().contains(s[i].addr),
        seq_map(s)[s[i].addr] == s[i].last_seen,
    decreases s.len(),
{
    if i == s.len() - 1 {
    } else {
        assert(distinct_entries(s.drop_last())) by {
            assert forall|p: int, q: int| 0 <= p < q < s.drop_last().len()
                implies (#[trigger] s.drop_last()[p]).addr != (#[trigger] s.drop_last()[q]).addr by {
                assert(s[p].addr != s[q].addr);
            }
        }
        assert(s.drop_last()[i] == s[i]);
        lemma_seq_map_value(s.drop_last(), i);
        assert(s[i].addr != s.last().addr);
    }
}

impl Allowlist {
    /// The mapping this store holds.
    pub closed spec fn view(&self) -> Map<Addr, u64> {
        seq_map(self.entries@)
    }

    /// The raw entry sequence, for reasoning about snapshots.
    pub closed spec fn entries_seq(&self) -> Seq<Entry> {
        self.entries@
    }

    /// Addresses are unique, so the store really is a mapping.
    pub closed spec fn wf(&self) -> bool {
        distinct_entries(self.entries@)
    }

    /// An empty store.
    pub fn new() -> (s: Self)
        ensures
            s.wf(),
            s@ == Map::<Addr, u64>::empty(),
            s.entries_seq() == Seq::<Entry>::empty(),
    {
        Allowlist { entries: Vec::new() }
    }

    /// Index of the entry for `a`, if any.
    fn find(&self, a: Addr) -> (r: Option<usize>)
        ensures
            match r {
                Some(i) => i < self.entries@.len() && self.entries@[i as int].addr == a,
                None => !has_addr(self.entries@, a),
            },
    {
        let mut i: usize = 0;
        while i < self.entries.len()
            invariant
                i <= self.entries@.len(),
                forall|j: int| 0 <= j < i ==> (#[trigger] self.entries@[j]).addr != a,
            decreases self.entries@.len() - i,
        {
            if self.entries[i].addr == a {
                return Some(i);
            }
            i = i + 1;
        }
        proof {
            assert(!has_addr(self.entries@, a)) by {
                if has_addr(self.entries@, a) {
                    let j = choose|j: int|
                        0 <= j < self.entries@.len() && (#[trigger] self.entries@[j]).addr == a;
                }
            }
        }
        None
    }

    /// The timestamp of the most recent valid signal for `a`, if `a` is
    /// currently admitted.
    pub fn lookup(&self, a: Addr) -> (r: Option<u64>)
        requires
            self.wf(),
        ensures
            match r {
                Some(t) => self@.dom().contains(a) && self@[a] == t,
                None => !self@.dom().contains(a),
            },
    {
        proof {
            lemma_seq_map_dom(self.entries@);
        }
        match self.find(a) {
            Some(i) => {
                proof {
                    lemma_seq_map_value(self.entries@, i as int);
                    assert(self@.dom().contains(a));
                    assert(self@[a] == self.entries@[i as int].last_seen);
                }
                Some(self.entries[i].last_seen)
            },
            None => {
                proof {
                    assert(!has_addr(self.entries@, a));
                }
                None
            },
        }
    }

    /// Whether `a` is currently admitted.
    pub fn contains(&self, a: Addr) -> (r: bool)
        requires
            self.wf(),
        ensures
            r == self@.dom().contains(a),
    {
        self.lookup(a).is_some()
    }

    /// Record a valid signal for `a` at time `t`: admit it, or refresh its
    /// timestamp if it is already present.
    pub fn upsert(&mut self, a: Addr, t: u64)
        requires
            old(self).wf(),
        ensures
            final(self).wf(),
            final(self)@ == old(self)@.insert(a, t),
    {
        proof {
            lemma_seq_map_dom(self.entries@);
        }
        let ghost s0 = self.entries@;
        match self.find(a) {
            Some(i) => {
                self.entries.set(i, Entry { addr: a, last_seen: t });
                proof {
                    let s1 = self.entries@;
                    assert forall|p: int, q: int| 0 <= p < q < s1.len()
                        implies (#[trigger] s1[p]).addr != (#[trigger] s1[q]).addr by {
                        assert(s0[p].addr != s0[q].addr);
                        if p == i {
                            assert(s1[p].addr == s0[p].addr);
                        }
                        if q == i {
                            assert(s1[q].addr == s0[q].addr);
                        }
                    }
                    lemma_seq_map_dom(s1);
                    assert forall|b: Addr| #[trigger] seq_map(s1).dom().contains(b)
                        implies seq_map(s0).insert(a, t).dom().contains(b) by {
                        assert(has_addr(s1, b));
                        let j = choose|j: int| 0 <= j < s1.len() && (#[trigger] s1[j]).addr == b;
                        if j != i {
                            assert(s0[j].addr == b);
                            assert(has_addr(s0, b));
                        }
                    }
                    assert forall|b: Addr| #[trigger] seq_map(s0).insert(a, t).dom().contains(b)
                        implies seq_map(s1).dom().contains(b) by {
                        if b == a {
                            assert(s1[i as int].addr == b);
                            assert(has_addr(s1, b));
                        } else {
                            assert(has_addr(s0, b));
                            let j = choose|j: int| 0 <= j < s0.len() && (#[trigger] s0[j]).addr == b;
                            assert(s1[j].addr == b);
                            assert(has_addr(s1, b));
                        }
                    }
                    assert forall|b: Addr| seq_map(s1).dom().contains(b)
                        implies #[trigger] seq_map(s1)[b] == seq_map(s0).insert(a, t)[b] by {
                        assert(has_addr(s1, b));
                        let j = choose|j: int| 0 <= j < s1.len() && (#[trigger] s1[j]).addr == b;
                        lemma_seq_map_value(s1, j);
                        if b == a {
                            assert(j == i) by {
                                if j != i {
                                    assert(s0[j].addr == a);
                                    assert(s0[i as int].addr == a);
                                }
                            }
                        } else {
                            assert(j != i);
                            assert(s0[j].addr == b);
                            lemma_seq_map_value(s0, j);
                        }
                    }
                    assert(seq_map(s1) =~= seq_map(s0).insert(a, t));
                }
            },
            None => {
                self.entries.push(Entry { addr: a, last_seen: t });
                proof {
                    let s1 = self.entries@;
                    assert(s1.drop_last() =~= s0);
                    assert forall|p: int, q: int| 0 <= p < q < s1.len()
                        implies (#[trigger] s1[p]).addr != (#[trigger] s1[q]).addr by {
                        if q < s1.len() - 1 {
                            assert(s0[p].addr != s0[q].addr);
                        } else {
                            assert(s1[p].addr == s0[p].addr);
                        }
                    }
                }
            },
        }
    }

    /// Drop `a` from the store, if present.
    pub fn remove(&mut self, a: Addr)
        requires
            old(self).wf(),
        ensures
            final(self).wf(),
            final(self)@ == old(self)@.remove(a),
    {
        proof {
            lemma_seq_map_dom(self.entries@);
        }
        let ghost s0 = self.entries@;
        match self.find(a) {
            Some(i) => {
                self.entries.remove(i);
                proof {
                    let s1 = self.entries@;
                    s0.remove_ensures(i as int);
                    assert forall|p: int, q: int| 0 <= p < q < s1.len()
                        implies (#[trigger] s1[p]).addr != (#[trigger] s1[q]).addr by {
                        let p0: int = if p < i { p } else { p + 1 };
                        let q0: int = if q < i { q } else { q + 1 };
                        assert(s1[p] == s0[p0]);
                        assert(s1[q] == s0[q0]);
                        assert(s0[p0].addr != s0[q0].addr);
                    }
                    lemma_seq_map_dom(s1);
                    assert forall|b: Addr| #[trigger] seq_map(s1).dom().contains(b)
                        implies seq_map(s0).remove(a).dom().contains(b) by {
                        assert(has_addr(s1, b));
                        let j = choose|j: int| 0 <= j < s1.len() && (#[trigger] s1[j]).addr == b;
                        let j0: int = if j < i { j } else { j + 1 };
                        assert(s0[j0].addr == b);
                        assert(has_addr(s0, b));
                        assert(b != a) by {
                            if b == a {
                                assert(s0[i as int].addr == a);
                            }
                        }
                    }
                    assert forall|b: Addr| #[trigger] seq_map(s0).remove(a).dom().contains(b)
                        implies seq_map(s1).dom().contains(b) by {
                        assert(has_addr(s0, b));
                        let j0 = choose|j0: int| 0 <= j0 < s0.len() && (#[trigger] s0[j0]).addr == b;
                        assert(j0 != i);
                        let j: int = if j0 < i { j0 } else { j0 - 1 };
                        assert(s1[j].addr == b);
                        assert(has_addr(s1, b));
                    }
                    assert forall|b: Addr| seq_map(s1).dom().contains(b)
                        implies #[trigger] seq_map(s1)[b] == seq_map(s0).remove(a)[b] by {
                        assert(has_addr(s1, b));
                        let j = choose|j: int| 0 <= j < s1.len() && (#[trigger] s1[j]).addr == b;
                        lemma_seq_map_value(s1, j);
                        let j0: int = if j < i { j } else { j + 1 };
                        assert(s0[j0].addr == b);
                        lemma_seq_map_value(s0, j0);
                        assert(b != a) by {
                            if b == a {
                                assert(s0[i as int].addr == a);
                            }
                        }
                    }
                    assert(seq_map(s1) =~= seq_map(s0).remove(a));
                }
            },
            None => {
                proof {
                    lemma_seq_map_dom(s0);
                    assert(!has_addr(s0, a));
                    assert(!seq_map(s0).dom().contains(a));
                    assert(seq_map(s0) =~= seq_map(s0).remove(a));
                }
            },
        }
    }

    /// A copy of the current entries, for the expiry sweep to scan.
    pub fn snapshot(&self) -> (v: Vec<Entry>)
        requires
            self.wf(),
        ensures
            v@ == self.entries_seq(),
            distinct_entries(v@),
            forall|i: int|
                0 <= i < v@.len() ==> self@.contains_pair((#[trigger] v@[i]).addr, v@[i].last_seen),
            forall|a: Addr| #[trigger] self@.dom().contains(a) ==> has_addr(v@, a),
    {
        proof {
            lemma_seq_map_dom(self.entries@);
            assert forall|i: int| 0 <= i < self.entries@.len()
                implies seq_map(self.entries@).contains_pair(
                    (#[trigger] self.entries@[i]).addr,
                    self.entries@[i].last_seen,
                ) by {
                lemma_seq_map_value(self.entries@, i);
            }
        }
        let mut v: Vec<Entry> = Vec::new();
        let mut i: usize = 0;
        while i < self.entries.len()
            invariant
                i <= self.entries@.len(),
                v@ == self.entries@.subrange(0, i as int),
            decreases self.entries@.len() - i,
        {
            v.push(self.entries[i]);
            i = i + 1;
        }
        proof {
            assert(v@ =~= self.entries@);
            assert forall|a: Addr| #[trigger] self@.dom().contains(a) implies has_addr(v@, a) by {
                assert(has_addr(self.entries@, a));
                let j = choose|j: int|
                    0 <= j < self.entries@.len() && (#[trigger] self.entries@[j]).addr == a;
                assert(v@[j].addr == a);
            }
        }
        v
    }

    /// How many addresses are currently admitted.
    pub fn len(&self) -> (n: usize)
        requires
            self.wf(),
        ensures
            n == self.entries_seq().len(),
    {
        self.entries.len()
    }
}

} // verus!
