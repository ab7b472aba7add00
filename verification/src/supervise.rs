//! The supervisor: it watches the worker tasks, and whenever one ends — for
//! whatever reason — it orders a replacement under the same identity, forever,
//! until the shutdown signal; after that it orders nothing more.

use vstd::prelude::*;

verus! {

/// What the supervisor reacts to.
#[derive(Clone, Copy, Debug, PartialEq, Eq, Structural)]
pub enum SupervisorEvent {
    /// A worker task finished, successfully or not; the slot is idle.
    WorkerExited(usize),
    /// The external interrupt: stop replacing, let everything wind down.
    ShutdownSignal,
}

/// What the surrounding loop is to do next.
#[derive(Clone, Copy, Debug, PartialEq, Eq, Structural)]
pub enum SupervisorAction {
    /// Launch a fresh worker task and channel under this identity, and
    /// re-register it with the dispatcher.
    Respawn(usize),
    /// Launch nothing; the loop ends.
    Stop,
}

/// The supervisor's whole state: the configured pool size and whether the
/// shutdown signal has been seen.
pub struct Supervisor {
    pub num: usize,
    pub shutdown: bool,
}

impl Supervisor {
    /// A supervisor for a pool of `num` identities, not yet shut down.
    pub fn new(num: usize) -> (r: Supervisor)
        ensures
            r.num == num,
            !r.shutdown,
    {
        Supervisor { num, shutdown: false }
    }

    /// Reacts to one event. Until shutdown, every exited worker — and only
    /// that worker — is respawned, under its own identity; from the shutdown
    /// signal on, nothing is ever respawned again.
    pub fn handle_event(&mut self, e: SupervisorEvent) -> (a: SupervisorAction)
        ensures
            final(self).num == old(self).num,
            match e {
                SupervisorEvent::ShutdownSignal => final(self).shutdown && a
                    == SupervisorAction::Stop,
                SupervisorEvent::WorkerExited(id) => {
                    &&& final(self).shutdown == old(self).shutdown
                    &&& if old(self).shutdown {
                        a == SupervisorAction::Stop
                    } else {
                        a == SupervisorAction::Respawn(id)
                    }
                },
            },
    {
        match e {
            SupervisorEvent::ShutdownSignal => {
                self.shutdown = true;
                SupervisorAction::Stop
            },
            SupervisorEvent::WorkerExited(id) => {
                if self.shutdown {
                    SupervisorAction::Stop
                } else {
                    SupervisorAction::Respawn(id)
                }
            },
        }
    }
}

} // verus!
