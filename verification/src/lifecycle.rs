//! The process lifecycle: a linear state machine bracketing the whole
//! controller. Setup (set creation, rule installation, sweeper start) moves
//! it from `Uninitialized` to `Running`; a termination signal moves it to
//! `Draining`, after which no new trust signal is accepted; teardown moves
//! it to `Terminated`. The transition contracts make the order of the
//! phases the only possible one: teardown is reachable only through a
//! drain, and a drain only from a running process.
use vstd::prelude::*;

verus! {

/// The phases of a process run, in their one order.
#[derive(Clone, Copy, PartialEq, Eq, Structural, Debug)]
pub enum Phase {
    /// Before setup: nothing installed, nothing served.
    Uninitialized,
    /// Set and rules installed, sweeper running, signals accepted.
    Running,
    /// Termination requested: in-flight operations finish, no new signal
    /// is accepted, teardown has not begun.
    Draining,
    /// Teardown done (best-effort): the process may exit.
    Terminated,
}

/// The lifecycle state machine.
pub struct Lifecycle {
    phase: Phase,
}

impl Lifecycle {
    /// The current phase.
    pub closed spec fn current(&self) -> Phase {
        self.phase
    }

    /// A fresh process: nothing installed yet.
    pub fn new() -> (lc: Self)
        ensures
            lc.current() == Phase::Uninitialized,
    {
        Lifecycle { phase: Phase::Uninitialized }
    }

    /// Setup succeeded: the set exists, the rules and the jump are
    /// installed, the sweeper is started. Any setup failure instead aborts
    /// the process before it serves, so this is never reached partially.
    pub fn start(&mut self)
        requires
            old(self).current() == Phase::Uninitialized,
        ensures
            final(self).current() == Phase::Running,
    {
        self.phase = Phase::Running;
    }

    /// A termination request arrived: stop accepting trust signals; begin
    /// teardown only once in-flight mutations have completed.
    pub fn begin_drain(&mut self)
        requires
            old(self).current() == Phase::Running,
        ensures
            final(self).current() == Phase::Draining,
    {
        self.phase = Phase::Draining;
    }

    /// Teardown ran (each failed step reported, the rest still attempted):
    /// the process may exit.
    pub fn finish(&mut self)
        requires
            old(self).current() == Phase::Draining,
        ensures
            final(self).current() == Phase::Terminated,
    {
        self.phase = Phase::Terminated;
    }

    /// Whether a trust signal may be accepted now: only while running.
    pub fn accepts_signals(&self) -> (r: bool)
        ensures
            r == (self.current() == Phase::Running),
    {
        match self.phase {
            Phase::Running => true,
            _ => false,
        }
    }
}

} // verus!
