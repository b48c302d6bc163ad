//! A tracked task and the completion of its sub-tasks.
use crate::internal_state::InternalState;
use crate::Status;
use vstd::prelude::*;

verus! {

/// A task as the registry stores it: its (weak) id, an optional display
/// name, when it entered its current status (milliseconds on the board's
/// clock), and the registry of its sub-tasks.
#[derive(Debug)]
pub struct Task {
    pub key: i32,
    pub display_name: Option<String>,
    pub time: u64,
    pub substate: InternalState,
}

/// How many of a task's sub-tasks are finished, out of how many units of
/// work (Started, Queued and Finished ones); none when there are no such
/// sub-tasks.
pub open spec fn completion_of(t: Task) -> Option<(nat, nat)> {
    if t.substate.active_total() == 0 {
        None
    } else {
        Some((t.substate.bucket(Status::Finished).len(), saturated(t.substate.active_total())))
    }
}

/// `n`, or `usize::MAX` when it does not fit.
pub open spec fn saturated(n: nat) -> nat {
    if n <= usize::MAX {
        n
    } else {
        usize::MAX as nat
    }
}

impl Task {
    /// The number of sub-tasks that count as units of work (saturating at
    /// `usize::MAX`).
    pub fn num_substate_total(&self) -> (r: usize)
        ensures
            r == saturated(self.substate.active_total()),
    {
        self.substate.get_total()
    }

    /// The number of finished sub-tasks.
    pub fn num_substate_finished(&self) -> (r: usize)
        ensures
            r == self.substate.bucket(Status::Finished).len(),
    {
        self.substate.count(Status::Finished)
    }

    /// Finished sub-tasks out of all units of work, or none when the task
    /// has no such sub-tasks.
    pub fn completion(&self) -> (r: Option<(usize, usize)>)
        ensures
            match r {
                None => completion_of(*self) is None,
                Some((f, n)) => completion_of(*self) == Some((f as nat, n as nat)),
            },
    {
        let total = self.num_substate_total();
        if total == 0 {
            None
        } else {
            Some((self.num_substate_finished(), total))
        }
    }
}

} // verus!
