//! The rule orchestrator: the packet-filter policy as ordered plans.
//!
//! The policy lives in a dedicated chain so it can be installed and removed
//! as a unit; a single jump rule in the shared ingress chain redirects the
//! protected UDP traffic into it. Order matters both ways: setup exposes
//! the jump only after every chain rule is in place, and teardown removes
//! the jump before the chain and the chain before the membership set, so no
//! dangling reference is ever left behind. The caller executes a setup plan
//! fail-loud (the first failure aborts startup) and a teardown plan
//! best-effort (a failed step is reported and the remaining steps still
//! run, in plan order).
use vstd::prelude::*;

verus! {

/// Steady rate, per second, allowed to members of the allow-list set.
pub const MEMBER_RATE_PER_SEC: u64 = 150;

/// Burst allowance for members.
pub const MEMBER_RATE_BURST: u64 = 10;

/// Steady rate, per second, allowed to everyone else.
pub const STRICT_RATE_PER_SEC: u64 = 5;

/// Burst allowance for everyone else.
pub const STRICT_RATE_BURST: u64 = 10;

/// Position of the jump rule in the shared ingress chain: first.
pub const JUMP_RULE_POSITION: u64 = 1;

/// One step of packet-filter configuration. Each variant stands for one
/// call into the external subsystem; the caller renders it into that
/// subsystem's syntax and performs it.
#[derive(Clone, Copy, PartialEq, Eq, Structural, Debug)]
pub enum FirewallOp {
    /// Create the empty membership set (IPv4 hash).
    CreateSet,
    /// Create the dedicated chain.
    CreateChain,
    /// Append: drop UDP arriving from well-known reflection source ports.
    AppendDropReflection,
    /// Append: drop member traffic above the permissive hash rate limit,
    /// keyed by source address and destination port.
    AppendMemberLimit,
    /// Append: member traffic below the limit returns to the caller chain.
    AppendMemberReturn,
    /// Append: drop non-member traffic above the strict hash rate limit,
    /// keyed by source address and destination port.
    AppendStrictLimit,
    /// Append: whatever remains returns to the caller chain.
    AppendChainReturn,
    /// Insert the jump rule into the shared ingress chain, redirecting the
    /// protected UDP ports into the dedicated chain.
    InsertJump,
    /// Delete the jump rule from the shared ingress chain.
    DeleteJump,
    /// Flush the dedicated chain.
    FlushChain,
    /// Delete the dedicated chain.
    DeleteChain,
    /// Flush the membership set.
    FlushSet,
    /// Destroy the membership set.
    DestroySet,
}

/// The setup steps, in the one order that is safe: the set before the rules
/// that match on it, the chain before its rules, and the jump — the only
/// rule touching shared, pre-existing state — last of all, so traffic is
/// redirected only into a fully built chain.
pub open spec fn setup_order() -> Seq<FirewallOp> {
    seq![
        FirewallOp::CreateSet,
        FirewallOp::CreateChain,
        FirewallOp::AppendDropReflection,
        FirewallOp::AppendMemberLimit,
        FirewallOp::AppendMemberReturn,
        FirewallOp::AppendStrictLimit,
        FirewallOp::AppendChainReturn,
        FirewallOp::InsertJump,
    ]
}

/// The teardown steps, in the one order that is safe: the jump rule first
/// (no dangling jump into a vanishing chain), then flushing and deleting
/// the chain (which still references the set), and only then flushing and
/// destroying the set.
pub open spec fn teardown_order() -> Seq<FirewallOp> {
    seq![
        FirewallOp::DeleteJump,
        FirewallOp::FlushChain,
        FirewallOp::DeleteChain,
        FirewallOp::FlushSet,
        FirewallOp::DestroySet,
    ]
}

/// The setup plan, to be executed in order and abandoned loudly on the
/// first failure: partial setup is a fatal startup error.
pub fn setup_plan() -> (v: Vec<FirewallOp>)
    ensures
        v@ == setup_order(),
{
    let mut v: Vec<FirewallOp> = Vec::new();
    v.push(FirewallOp::CreateSet);
    v.push(FirewallOp::CreateChain);
    v.push(FirewallOp::AppendDropReflection);
    v.push(FirewallOp::AppendMemberLimit);
    v.push(FirewallOp::AppendMemberReturn);
    v.push(FirewallOp::AppendStrictLimit);
    v.push(FirewallOp::AppendChainReturn);
    v.push(FirewallOp::InsertJump);
    proof {
        assert(v@ =~= setup_order());
    }
    v
}

/// The teardown plan, to be executed in order, best-effort: a failed step
/// is surfaced and the remaining steps still run, in this order.
pub fn teardown_plan() -> (v: Vec<FirewallOp>)
    ensures
        v@ == teardown_order(),
{
    let mut v: Vec<FirewallOp> = Vec::new();
    v.push(FirewallOp::DeleteJump);
    v.push(FirewallOp::FlushChain);
    v.push(FirewallOp::DeleteChain);
    v.push(FirewallOp::FlushSet);
    v.push(FirewallOp::DestroySet);
    proof {
        assert(v@ =~= teardown_order());
    }
    v
}

/// The well-known UDP source ports whose traffic is dropped outright:
/// network time, name service, management, discovery and character
/// generation — the classic reflection and amplification sources.
pub fn reflection_source_ports() -> (v: Vec<u16>)
    ensures
        v@ == seq![123u16, 53u16, 161u16, 3702u16, 19u16],
{
    let mut v: Vec<u16> = Vec::new();
    v.push(123);
    v.push(53);
    v.push(161);
    v.push(3702);
    v.push(19);
    proof {
        assert(v@ =~= seq![123u16, 53u16, 161u16, 3702u16, 19u16]);
    }
    v
}

/// The dedicated chain's name.
pub fn chain_name() -> (r: &'static str)
    ensures
        r@ == "mortis"@,
{
    "mortis"
}

/// The membership set's name.
pub fn set_name() -> (r: &'static str)
    ensures
        r@ == "mortis-whitelist"@,
{
    "mortis-whitelist"
}

/// Teardown ordering: wherever the three destructive steps stand in the
/// teardown plan, the jump rule is removed before the chain is deleted,
/// and the chain is deleted before the set is destroyed. The plan is the
/// attempt order, so this holds regardless of individual step failures.
pub proof fn lemma_teardown_ordering()
    ensures
        forall|i: int, j: int|
            0 <= i < teardown_order().len() && 0 <= j < teardown_order().len()
                && #[trigger] teardown_order()[i] == FirewallOp::DeleteJump
                && #[trigger] teardown_order()[j] == FirewallOp::DeleteChain ==> i < j,
        forall|i: int, j: int|
            0 <= i < teardown_order().len() && 0 <= j < teardown_order().len()
                && #[trigger] teardown_order()[i] == FirewallOp::DeleteChain
                && #[trigger] teardown_order()[j] == FirewallOp::DestroySet ==> i < j,
{
}

/// Setup ordering: the jump into shared chain state is the last setup
/// step, after the set exists and after every rule of the dedicated chain.
pub proof fn lemma_setup_exposes_last()
    ensures
        setup_order().last() == FirewallOp::InsertJump,
        forall|i: int|
            0 <= i < setup_order().len() - 1 ==> #[trigger] setup_order()[i]
                != FirewallOp::InsertJump,
{
}

/// Members are limited materially more permissively than non-members.
pub proof fn lemma_member_rate_permissive()
    ensures
        MEMBER_RATE_PER_SEC > STRICT_RATE_PER_SEC,
{
}

} // verus!
