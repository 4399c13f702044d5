//! Admission and synchronization controller for a UDP flood shield.
//!
//! Clients that present a recognized signature are admitted into a
//! time-bounded allow-list; the allow-list is mirrored, under one critical
//! section, into the host packet filter's membership set, which exempts
//! members from the strict rate limit. This crate holds the decision logic:
//! the allow-list store, the admission gate, the expiry sweep, the ordered
//! firewall rule plans, and the process lifecycle machine. The surrounding
//! binary performs the actual packet-filter calls and the HTTP serving,
//! driven by the decisions made here.
use vstd::prelude::*;

pub mod agent;
pub mod gate;
pub mod lifecycle;
pub mod rules;
pub mod store;
pub mod sweep;

verus! {

/// Maximum idle time, in seconds, before an allow-list entry is stale.
pub const TTL_SECS: u64 = 300;

/// Interval, in seconds, between two runs of the expiry sweep.
/// Kept strictly below `TTL_SECS` so worst-case staleness is bounded
/// by `TTL_SECS + SWEEP_INTERVAL_SECS`.
pub const SWEEP_INTERVAL_SECS: u64 = 60;

/// An IPv4 client address, as its 32 raw bits. The packet-filter set is
/// created for IPv4 members only, so this is the one address form the
/// controller tracks; the binary converts from the socket address.
#[derive(Clone, Copy, PartialEq, Eq, Structural, Debug)]
pub struct Addr {
    pub bits: u32,
}

/// The sweep must fire strictly more often than entries expire.
pub proof fn lemma_sweep_beats_ttl()
    ensures
        SWEEP_INTERVAL_SECS < TTL_SECS,
{
}

} // verus!
