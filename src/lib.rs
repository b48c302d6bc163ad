//! A live terminal status board: tasks and sub-tasks are registered with a
//! status, moved between statuses by any number of producers, and rendered
//! as grouped, column-aligned text.
use vstd::prelude::*;

pub mod board;
pub mod column;
pub mod ids;
pub mod internal_state;
pub mod paint;
pub mod render;
pub mod state;
pub mod task;
pub mod task_id;
pub mod text;

pub use board::Board;
pub use state::{BoardClosed, SBState, TaskEvent};
pub use task_id::TaskId;

verus! {

/// The status a task is in.
#[derive(Debug, Copy, Clone, PartialEq, Eq, Hash, Structural)]
pub enum Status {
    Queued,
    Started,
    Finished,
    Error,
    Info,
}

/// Terminal statuses: Finished, Error and Info.
pub open spec fn status_is_terminal(s: Status) -> bool {
    s is Finished || s is Error || s is Info
}

/// The key under which a status's bucket is stored.
pub open spec fn status_key(s: Status) -> u8 {
    match s {
        Status::Queued => 0,
        Status::Started => 1,
        Status::Finished => 2,
        Status::Error => 3,
        Status::Info => 4,
    }
}

impl Status {
    /// Whether this status is terminal (Finished, Error or Info).
    pub fn is_finished(&self) -> (r: bool)
        ensures
            r == status_is_terminal(*self),
    {
        match self {
            Status::Queued => false,
            Status::Started => false,
            Status::Finished => true,
            Status::Info => true,
            Status::Error => true,
        }
    }

    /// The key under which this status's bucket is stored.
    pub fn key(&self) -> (r: u8)
        ensures
            r == status_key(*self),
    {
        match self {
            Status::Queued => 0,
            Status::Started => 1,
            Status::Finished => 2,
            Status::Error => 3,
            Status::Info => 4,
        }
    }
}

} // verus!
