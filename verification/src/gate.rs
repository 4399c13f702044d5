//! The admission gate and the mirrored membership model.
//!
//! A `Controller` bundles the allow-list store with a model of the packet
//! filter's membership set, so that the central invariant — an address is in
//! the store exactly when it is a member of the external set — is enforced
//! structurally: every mutation updates both sides under one exclusive
//! section, and every public operation preserves `wf`.
//!
//! The external calls themselves (adding or removing a member in the packet
//! filter) are host I/O and happen outside this crate. The protocol is
//! external-first: the caller asks `decide` what a trust signal requires,
//! performs the external membership call, and only on its success commits
//! the matching store mutation with `commit_admit`, `commit_refresh` or
//! `commit_evict`. A failed external call commits nothing, leaving the store
//! as the smaller, safer truth.
use vstd::prelude::*;

use crate::store::Allowlist;
use crate::store::Entry;
use crate::Addr;
use crate::TTL_SECS;

verus! {

broadcast use vstd::seq_lib::group_seq_properties;

/// What one trust signal requires, decided atomically under the shared lock.
#[derive(Clone, Copy, PartialEq, Eq, Structural, Debug)]
pub enum Decision {
    /// The signal is not trusted: no state change, the caller answers with a
    /// non-admission response.
    Reject,
    /// The address is absent: the caller must add it to the external set and,
    /// on success, commit a fresh admission.
    Admit,
    /// The address is present and within its time-to-live: refresh the
    /// timestamp; the external set already has the member, so no membership
    /// call is made.
    Refresh,
    /// The address is present but stale: the caller must remove the external
    /// member and, on success, commit the eviction — after which the same
    /// signal is treated as a fresh admission.
    Evict,
}

/// An entry last refreshed at `last_seen` has outlived its time-to-live at
/// `now`.
pub open spec fn stale_at(last_seen: u64, now: u64) -> bool {
    now - last_seen > TTL_SECS
}

/// The decision for a trust signal `(a, trusted)` at time `now`, over a
/// store holding `m`.
pub open spec fn decision_of(m: Map<Addr, u64>, a: Addr, now: u64, trusted: bool) -> Decision {
    if !trusted {
        Decision::Reject
    } else if !m.dom().contains(a) {
        Decision::Admit
    } else if stale_at(m[a], now) {
        Decision::Evict
    } else {
        Decision::Refresh
    }
}

/// The allow-list store together with the model of the external membership
/// set, mutated only as one unit.
pub struct Controller {
    store: Allowlist,
    members: Vec<Addr>,
}

impl Controller {
    /// The store: address to last-seen timestamp.
    pub closed spec fn store_map(&self) -> Map<Addr, u64> {
        self.store@
    }

    /// The membership the external set holds, as this controller has
    /// confirmed it: every committed admission added one member, every
    /// committed eviction removed one.
    pub closed spec fn mirror(&self) -> Set<Addr> {
        Set::new(|a: Addr| self.members@.contains(a))
    }

    /// Well-formed: the store is a mapping, the member list has no
    /// duplicates, and an address is in the store exactly when it is a
    /// member of the external set.
    pub closed spec fn wf(&self) -> bool {
        &&& self.store.wf()
        &&& self.members@.no_duplicates()
        &&& forall|a: Addr|
            self.store@.dom().contains(a) <==> #[trigger] self.members@.contains(a)
    }

    /// The central invariant, stated over the public views: membership in
    /// the store and in the external set agree in every reachable state.
    pub proof fn lemma_store_mirrors_members(&self)
        requires
            self.wf(),
        ensures
            forall|a: Addr|
                self.store_map().dom().contains(a) <==> #[trigger] self.mirror().contains(a),
    {
    }

    /// A controller over an empty store and an empty external set.
    pub fn new() -> (c: Self)
        ensures
            c.wf(),
            c.store_map() == Map::<Addr, u64>::empty(),
            c.mirror() == Set::<Addr>::empty(),
    {
        let c = Controller { store: Allowlist::new(), members: Vec::new() };
        proof {
            assert(c.mirror() =~= Set::<Addr>::empty());
        }
        c
    }

    /// What the trust signal `(a, trusted)` requires at time `now`. Read
    /// only: the matching commit happens after the external call, if any,
    /// has succeeded.
    pub fn decide(&self, a: Addr, now: u64, trusted: bool) -> (d: Decision)
        requires
            self.wf(),
        ensures
            d == decision_of(self.store_map(), a, now, trusted),
    {
        if !trusted {
            Decision::Reject
        } else {
            match self.store.lookup(a) {
                None => Decision::Admit,
                Some(t) => {
                    if now > t && now - t > TTL_SECS {
                        Decision::Evict
                    } else {
                        Decision::Refresh
                    }
                },
            }
        }
    }

    /// Whether `a` is currently admitted.
    pub fn contains(&self, a: Addr) -> (r: bool)
        requires
            self.wf(),
        ensures
            r == self.store_map().dom().contains(a),
    {
        self.store.contains(a)
    }

    /// The last-seen timestamp of `a`, if admitted.
    pub fn last_seen(&self, a: Addr) -> (r: Option<u64>)
        requires
            self.wf(),
        ensures
            match r {
                Some(t) => self.store_map().dom().contains(a) && self.store_map()[a] == t,
                None => !self.store_map().dom().contains(a),
            },
    {
        self.store.lookup(a)
    }

    /// How many addresses are currently admitted.
    pub fn admitted_count(&self) -> (n: usize)
        requires
            self.wf(),
        ensures
            n == self.snapshot_seq().len(),
    {
        self.store.len()
    }

    /// The store's entries, for reasoning about snapshots.
    pub closed spec fn snapshot_seq(&self) -> Seq<Entry> {
        self.store.entries_seq()
    }

    /// A copy of the current entries, for the expiry sweep to scan.
    pub fn snapshot(&self) -> (v: Vec<Entry>)
        requires
            self.wf(),
        ensures
            v@ == self.snapshot_seq(),
            crate::store::distinct_entries(v@),
            forall|i: int|
                0 <= i < v@.len() ==> self.store_map().contains_pair(
                    (#[trigger] v@[i]).addr,
                    v@[i].last_seen,
                ),
            forall|a: Addr| #[trigger]
                self.store_map().dom().contains(a) ==> crate::store::has_addr(v@, a),
    {
        self.store.snapshot()
    }

    /// Commit a fresh admission of `a` at time `now`, after the external
    /// membership add for `a` succeeded: the entry appears in the store and
    /// `a` becomes a member, as one step.
    pub fn commit_admit(&mut self, a: Addr, now: u64)
        requires
            old(self).wf(),
            !old(self).store_map().dom().contains(a),
        ensures
            final(self).wf(),
            final(self).store_map() == old(self).store_map().insert(a, now),
            final(self).mirror() == old(self).mirror().insert(a),
    {
        let ghost m0 = self.store@;
        let ghost mem0 = self.members@;
        proof {
            assert(!mem0.contains(a));
        }
        self.store.upsert(a, now);
        self.members.push(a);
        proof {
            let mem1 = self.members@;
            assert(mem1.no_duplicates()) by {
                assert forall|p: int, q: int|
                    0 <= p < mem1.len() && 0 <= q < mem1.len() && p != q implies mem1[p]
                    != mem1[q] by {
                    if p < mem1.len() - 1 && q < mem1.len() - 1 {
                        assert(mem0[p] != mem0[q]);
                    } else if p == mem1.len() - 1 {
                        if mem1[p] == mem1[q] {
                            assert(mem0[q] == a);
                            assert(mem0.contains(a));
                        }
                    } else {
                        if mem1[p] == mem1[q] {
                            assert(mem0[p] == a);
                            assert(mem0.contains(a));
                        }
                    }
                }
            }
            assert forall|b: Addr|
                m0.insert(a, now).dom().contains(b) <==> #[trigger] mem1.contains(b) by {
                if b == a {
                    assert(mem1[mem1.len() - 1] == a);
                    assert(mem1.contains(a));
                }
            }
            assert(self.mirror() =~= old(self).mirror().insert(a));
        }
    }

    /// Commit a refresh of `a` at time `now`: the timestamp is renewed and
    /// no membership call is made — the external set is untouched, so the
    /// mirror is unchanged.
    pub fn commit_refresh(&mut self, a: Addr, now: u64)
        requires
            old(self).wf(),
            old(self).store_map().dom().contains(a),
        ensures
            final(self).wf(),
            final(self).store_map() == old(self).store_map().insert(a, now),
            final(self).mirror() == old(self).mirror(),
    {
        let ghost m0 = self.store@;
        self.store.upsert(a, now);
        proof {
            assert(m0.insert(a, now).dom() =~= m0.dom());
            assert(self.mirror() =~= old(self).mirror());
        }
    }

    /// Commit an eviction of `a`, after the external membership remove for
    /// `a` succeeded: the entry leaves the store and `a` stops being a
    /// member, as one step.
    pub fn commit_evict(&mut self, a: Addr)
        requires
            old(self).wf(),
            old(self).store_map().dom().contains(a),
        ensures
            final(self).wf(),
            final(self).store_map() == old(self).store_map().remove(a),
            final(self).mirror() == old(self).mirror().remove(a),
    {
        let ghost m0 = self.store@;
        let ghost mem0 = self.members@;
        proof {
            assert(mem0.contains(a));
        }
        self.store.remove(a);
        match self.member_index(a) {
            Some(i) => {
                self.members.remove(i);
                proof {
                    let mem1 = self.members@;
                    mem0.remove_ensures(i as int);
                    assert forall|b: Addr| #[trigger] mem1.contains(b) implies mem0.contains(b)
                        && b != a by {
                        let j = choose|j: int| 0 <= j < mem1.len() && mem1[j] == b;
                        let j0: int = if j < i { j } else { j + 1 };
                        assert(mem0[j0] == b);
                        assert(mem0.contains(b));
                        if b == a {
                            assert(mem0[i as int] == a);
                            assert(j0 != i);
                        }
                    }
                    assert forall|b: Addr| mem0.contains(b) && b != a implies #[trigger] mem1.contains(
                        b,
                    ) by {
                        let j0 = choose|j0: int| 0 <= j0 < mem0.len() && mem0[j0] == b;
                        assert(j0 != i);
                        let j: int = if j0 < i { j0 } else { j0 - 1 };
                        assert(mem1[j] == b);
                    }
                    assert(mem1.no_duplicates()) by {
                        assert forall|p: int, q: int|
                            0 <= p < mem1.len() && 0 <= q < mem1.len() && p != q implies mem1[p]
                            != mem1[q] by {
                            let p0: int = if p < i { p } else { p + 1 };
                            let q0: int = if q < i { q } else { q + 1 };
                            assert(mem1[p] == mem0[p0]);
                            assert(mem1[q] == mem0[q0]);
                        }
                    }
                    assert(self.mirror() =~= old(self).mirror().remove(a));
                }
            },
            None => {
                proof {
                    assert(false);
                }
            },
        }
    }

    /// Whether `a` is a member of the external set, per the mirror.
    pub fn is_member(&self, a: Addr) -> (r: bool)
        ensures
            r == self.mirror().contains(a),
    {
        match self.member_index(a) {
            Some(_) => {
                proof {
                    assert(self.members@.contains(a)) by {
                        let i = choose|i: int|
                            0 <= i < self.members@.len() && self.members@[i] == a;
                    }
                }
                true
            },
            None => false,
        }
    }

    /// Index of `a` in the member list, if it is a member.
    fn member_index(&self, a: Addr) -> (r: Option<usize>)
        ensures
            match r {
                Some(i) => i < self.members@.len() && self.members@[i as int] == a,
                None => !self.members@.contains(a),
            },
    {
        let mut i: usize = 0;
        while i < self.members.len()
            invariant
                i <= self.members@.len(),
                forall|j: int| 0 <= j < i ==> self.members@[j] != a,
            decreases self.members@.len() - i,
        {
            if self.members[i] == a {
                return Some(i);
            }
            i = i + 1;
        }
        proof {
            assert(!self.members@.contains(a)) by {
                if self.members@.contains(a) {
                    let j = choose|j: int| 0 <= j < self.members@.len() && self.members@[j] == a;
                }
            }
        }
        None
    }
}

/// An untrusted signal is rejected: no store change, no external call.
pub proof fn lemma_untrusted_rejected(m: Map<Addr, u64>, a: Addr, now: u64)
    ensures
        decision_of(m, a, now, false) == Decision::Reject,
{
}

/// Refresh idempotence: a trusted signal for an address still within its
/// time-to-live decides `Refresh`, the one decision that requires no
/// external membership call — and `commit_refresh` leaves the mirror
/// unchanged. However many such signals arrive, the external add count for
/// the address stays at the one from its admission.
pub proof fn lemma_refresh_within_ttl(m: Map<Addr, u64>, a: Addr, now: u64)
    requires
        m.dom().contains(a),
        now - m[a] <= TTL_SECS,
    ensures
        decision_of(m, a, now, true) == Decision::Refresh,
{
}

/// Concurrent admission collapses to one add: trusted signals for one new
/// address are serialized by the shared lock; the first finds it absent and
/// admits, and each later one, arriving within the time-to-live of the
/// committed admission, finds it present and merely refreshes. Exactly one
/// external add and one store entry result.
pub proof fn lemma_single_admission(m: Map<Addr, u64>, a: Addr, t0: u64, now: u64)
    requires
        !m.dom().contains(a),
        now >= t0,
        now - t0 <= TTL_SECS,
    ensures
        decision_of(m, a, t0, true) == Decision::Admit,
        decision_of(m.insert(a, t0), a, now, true) == Decision::Refresh,
{
}

/// Re-admission after expiry: a trusted signal for an address whose entry
/// has outlived the time-to-live decides `Evict` — exactly one external
/// remove — and once the eviction is committed the same signal decides
/// `Admit` — exactly one external add — leaving the address with a fresh
/// timestamp.
pub proof fn lemma_readmission(m: Map<Addr, u64>, a: Addr, now: u64)
    requires
        m.dom().contains(a),
        now - m[a] > TTL_SECS,
    ensures
        decision_of(m, a, now, true) == Decision::Evict,
        decision_of(m.remove(a), a, now, true) == Decision::Admit,
        m.remove(a).insert(a, now)[a] == now,
{
}

} // verus!
