//! The expiry sweep: on a fixed interval, find every entry that has
//! outlived the time-to-live and evict it, mirroring each eviction into the
//! external membership set.
//!
//! The scan is decided here; the caller performs, per stale address, the
//! external membership remove and — only on its success — the matching
//! `commit_evict`, all under the shared lock. A failure for one address
//! must not stop the eviction of the rest, and never stops the sweep loop.
use vstd::prelude::*;

use crate::gate::stale_at;
use crate::gate::Controller;
use crate::store::distinct_entries;
use crate::store::has_addr;
use crate::Addr;
use crate::SWEEP_INTERVAL_SECS;
use crate::TTL_SECS;

verus! {

broadcast use vstd::seq_lib::group_seq_properties;

/// The subset of `m` that has outlived the time-to-live at `now`.
pub open spec fn stale_set(m: Map<Addr, u64>, now: u64) -> Set<Addr> {
    Set::new(|a: Addr| m.dom().contains(a) && stale_at(m[a], now))
}

/// Some entry among the first `k` carries `a` and is stale at `now`.
pub open spec fn stale_in_prefix(
    s: Seq<crate::store::Entry>,
    now: u64,
    k: int,
    a: Addr,
) -> bool {
    exists|j: int|
        0 <= j < k && (#[trigger] s[j]).addr == a && stale_at(s[j].last_seen, now)
}

proof fn lemma_stale_prefix_mono(s: Seq<crate::store::Entry>, now: u64, k1: int, k2: int, a: Addr)
    requires
        0 <= k1 <= k2 <= s.len(),
        stale_in_prefix(s, now, k1, a),
    ensures
        stale_in_prefix(s, now, k2, a),
{
    let j = choose|j: int|
        0 <= j < k1 && (#[trigger] s[j]).addr == a && stale_at(s[j].last_seen, now);
    assert(0 <= j < k2 && s[j].addr == a && stale_at(s[j].last_seen, now));
}

/// The addresses a sweep tick at time `now` must evict: exactly those whose
/// entry has outlived the time-to-live, each once.
pub fn stale_addresses(c: &Controller, now: u64) -> (v: Vec<Addr>)
    requires
        c.wf(),
    ensures
        v@.no_duplicates(),
        forall|a: Addr| #[trigger] v@.contains(a) <==> stale_set(c.store_map(), now).contains(a),
{
    let snap = c.snapshot();
    let mut v: Vec<Addr> = Vec::new();
    let mut i: usize = 0;
    while i < snap.len()
        invariant
            i <= snap@.len(),
            distinct_entries(snap@),
            v@.no_duplicates(),
            forall|a: Addr| #[trigger] v@.contains(a) ==> stale_in_prefix(snap@, now, i as int, a),
            forall|j: int|
                0 <= j < i && stale_at((#[trigger] snap@[j]).last_seen, now) ==> v@.contains(
                    snap@[j].addr,
                ),
        decreases snap@.len() - i,
    {
        let e = snap[i];
        if now > e.last_seen && now - e.last_seen > TTL_SECS {
            proof {
                assert(!v@.contains(e.addr)) by {
                    if v@.contains(e.addr) {
                        let j = choose|j: int|
                            0 <= j < i && (#[trigger] snap@[j]).addr == e.addr && stale_at(
                                snap@[j].last_seen,
                                now,
                            );
                        assert(snap@[j].addr == snap@[i as int].addr);
                    }
                }
            }
            let ghost v0 = v@;
            v.push(e.addr);
            proof {
                assert(v@.no_duplicates()) by {
                    assert forall|p: int, q: int|
                        0 <= p < v@.len() && 0 <= q < v@.len() && p != q implies v@[p]
                        != v@[q] by {
                        if p < v@.len() - 1 && q < v@.len() - 1 {
                            assert(v0[p] != v0[q]);
                        } else if p == v@.len() - 1 {
                            if v@[p] == v@[q] {
                                assert(v0[q] == e.addr);
                                assert(v0.contains(e.addr));
                            }
                        } else {
                            if v@[p] == v@[q] {
                                assert(v0[p] == e.addr);
                                assert(v0.contains(e.addr));
                            }
                        }
                    }
                }
                assert forall|a: Addr| #[trigger] v@.contains(a) implies stale_in_prefix(
                    snap@,
                    now,
                    i + 1,
                    a,
                ) by {
                    if a == e.addr {
                        assert(snap@[i as int].addr == a && stale_at(
                            snap@[i as int].last_seen,
                            now,
                        ));
                    } else {
                        assert(v0.contains(a));
                        lemma_stale_prefix_mono(snap@, now, i as int, i + 1, a);
                    }
                }
                assert forall|j: int|
                    0 <= j < i + 1 && stale_at((#[trigger] snap@[j]).last_seen, now) implies v@
                    .contains(snap@[j].addr) by {
                    if j < i {
                        assert(v0.contains(snap@[j].addr));
                    } else {
                        assert(v@[v@.len() - 1] == e.addr);
                    }
                }
            }
        } else {
            proof {
                assert forall|a: Addr| #[trigger] v@.contains(a) implies stale_in_prefix(
                    snap@,
                    now,
                    i + 1,
                    a,
                ) by {
                    lemma_stale_prefix_mono(snap@, now, i as int, i + 1, a);
                }
            }
        }
        i = i + 1;
    }
    proof {
        let m = c.store_map();
        assert forall|a: Addr| #[trigger] v@.contains(a) implies stale_set(m, now).contains(
            a,
        ) by {
            let j = choose|j: int|
                0 <= j < snap@.len() && (#[trigger] snap@[j]).addr == a && stale_at(
                    snap@[j].last_seen,
                    now,
                );
            assert(m.contains_pair(snap@[j].addr, snap@[j].last_seen));
        }
        assert forall|a: Addr| stale_set(m, now).contains(a) implies #[trigger] v@.contains(
            a,
        ) by {
            assert(has_addr(snap@, a));
            let j = choose|j: int| 0 <= j < snap@.len() && (#[trigger] snap@[j]).addr == a;
            assert(m.contains_pair(snap@[j].addr, snap@[j].last_seen));
            assert(stale_at(snap@[j].last_seen, now));
        }
    }
    v
}

/// The time-to-live window, as the sweep sees it: an address last seen at
/// `t` is kept by every sweep at or before `t + TTL_SECS` and named for
/// eviction by every sweep after that. Since a sweep runs every
/// `SWEEP_INTERVAL_SECS`, an address admitted at `t` with no further
/// signals is gone by `t + TTL_SECS + SWEEP_INTERVAL_SECS` at the latest,
/// and untouched before `t + TTL_SECS`.
pub proof fn lemma_ttl_window(m: Map<Addr, u64>, a: Addr, t: u64, now: u64)
    requires
        m.dom().contains(a),
        m[a] == t,
    ensures
        now <= t + TTL_SECS ==> !stale_set(m, now).contains(a),
        now > t + TTL_SECS ==> stale_set(m, now).contains(a),
{
}

/// The sweep runs at every multiple of the sweep interval, so for any
/// expiry moment `e` some tick falls in `(e, e + SWEEP_INTERVAL_SECS]`:
/// an entry that expires is named for eviction within one interval, and
/// worst-case staleness is bounded by `TTL_SECS + SWEEP_INTERVAL_SECS`.
pub proof fn lemma_sweep_tick_within_interval(e: nat)
    ensures
        exists|k: nat| e < #[trigger] (k * SWEEP_INTERVAL_SECS) <= e + SWEEP_INTERVAL_SECS,
{
    let iv = SWEEP_INTERVAL_SECS as nat;
    let k = e / iv + 1;
    vstd::arithmetic::div_mod::lemma_fundamental_div_mod(e as int, iv as int);
    assert(e < k * SWEEP_INTERVAL_SECS <= e + SWEEP_INTERVAL_SECS);
}

} // verus!
