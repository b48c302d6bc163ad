//! Task identifiers. A strong identifier is a handle: when its last copy is
//! released it reports its task as finished. A weak identifier only names
//! the task.
use crate::state::{update_event, TaskEvent};
use crate::text::{i32_decimal, signed_decimal};
use crate::Status;
use std::sync::atomic::{AtomicI32, Ordering};
use std::sync::mpsc::Sender;
use std::sync::Arc;
use vstd::prelude::*;

verus! {

#[verifier::external_type_specification]
#[verifier::external_body]
#[verifier::reject_recursive_types(T)]
pub struct ExSender<T>(Sender<T>);

pub assume_specification<T>[ <Sender<T> as Clone>::clone ](s: &Sender<T>) -> Sender<T>;

/// Relies on `Sender::send`: the event is queued for the receiving end,
/// unless that end is gone, which is reported as `false`.
#[verifier::external_body]
pub(crate) fn send_event(sender: &Sender<TaskEvent>, event: TaskEvent) -> (r: bool)
    opens_invariants none
    no_unwind
{
    sender.send(event).is_ok()
}

/// Draws the next identifier from a shared counter. The counter wraps
/// around after `i32::MAX` identifiers, a limit that is not guarded.
pub fn next_id(counter: &AtomicI32) -> i32 {
    counter.fetch_add(1, Ordering::SeqCst).wrapping_add(1)
}

/// The capability to report a task as finished; it does so once, when it
/// is released.
#[derive(Debug)]
pub struct Finisher {
    id: i32,
    sender: Sender<TaskEvent>,
}

impl Drop for Finisher {
    fn drop(&mut self)
        opens_invariants none
        no_unwind
    {
        // The receiving end may already be gone at process shutdown; the
        // event is then lost, as any still queued ones are.
        let _ = send_event(&self.sender, update_event(self.id, Status::Finished));
    }
}

/// An identifier of a task; strong copies share one `Finisher`.
#[derive(Debug, Clone)]
pub struct TaskId {
    id: i32,
    maybe_sender: Option<Arc<Finisher>>,
}

impl View for TaskId {
    type V = i32;

    closed spec fn view(&self) -> i32 {
        self.id
    }
}

impl TaskId {
    /// Whether this copy carries the capability to finish its task.
    pub closed spec fn is_strong(&self) -> bool {
        self.maybe_sender is Some
    }

    /// A weak identifier with a fresh id.
    pub fn new(counter: &AtomicI32) -> (r: TaskId)
        ensures
            !r.is_strong(),
    {
        let id = next_id(counter);
        TaskId { id, maybe_sender: None }
    }

    /// A strong identifier with a fresh id: when its last copy is released,
    /// `UpdateTask(id, Finished)` is sent through `sender`.
    pub fn new_with_sender(counter: &AtomicI32, sender: Sender<TaskEvent>) -> (r: TaskId)
        ensures
            r.is_strong(),
    {
        let id = next_id(counter);
        TaskId { id, maybe_sender: Some(Arc::new(Finisher { id, sender })) }
    }

    /// The id itself.
    pub fn id(&self) -> (r: i32)
        ensures
            r == self@,
    {
        self.id
    }

    /// A weak copy: the same id, without the capability.
    pub fn make_weak(&self) -> (r: TaskId)
        ensures
            r@ == self@,
            !r.is_strong(),
    {
        TaskId { id: self.id, maybe_sender: None }
    }

    /// The id in decimal.
    pub fn to_string(&self) -> (r: String)
        ensures
            r@ == signed_decimal(self@ as int),
    {
        i32_decimal(self.id)
    }
}

impl PartialEq for TaskId {
    fn eq(&self, other: &TaskId) -> (r: bool)
        ensures
            r == (self@ == other@),
    {
        self.id == other.id
    }
}

impl vstd::std_specs::cmp::PartialEqSpecImpl for TaskId {
    open spec fn obeys_eq_spec() -> bool {
        true
    }

    open spec fn eq_spec(&self, other: &TaskId) -> bool {
        self@ == other@
    }
}

impl Eq for TaskId {

}

} // verus!
