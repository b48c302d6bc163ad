//! The event protocol between producers and the board's single writer, and
//! the facade that producers hold.
use crate::ids::{
    keys_within, lemma_add_counts, lemma_add_keeps_keys_within, lemma_count_by_ids,
    lemma_count_uniform, lemma_filter_all, lemma_ids_stay_unique_in_place,
    lemma_ids_stay_unique_on_add, lemma_ids_stay_unique_on_update,
    lemma_ids_stay_unique_when_filtered, lemma_update_counts, lemma_update_keeps_keys_within,
};
use crate::internal_state::{
    first_index, has_key, holder, is_addition_of, is_attaching_of, is_renaming_of,
    is_sub_update_of, is_update_of, lacks_key, InternalState,
};
use crate::task::Task;
use crate::task_id::{next_id, send_event, TaskId};
use crate::{status_is_terminal, Status};
use std::sync::atomic::AtomicI32;
use std::sync::mpsc::Sender;
use std::sync::Arc;
use vstd::prelude::*;

verus! {

/// A mutation of the registry. Events name tasks by their weak ids only.
#[derive(Debug)]
pub enum TaskEvent {
    AddTask(i32, Option<String>, Status),
    SetTaskDisplayName(i32, String),
    UpdateTask(i32, Status),
    DeleteTask(i32),
    AddSubTask(i32, i32, Option<String>, Status),
    UpdateSubTask(i32, i32, Status),
}

/// `after` is `before` with `event` applied at time `now`.
pub open spec fn is_application_of(
    after: InternalState,
    before: InternalState,
    event: TaskEvent,
    now: u64,
) -> bool {
    match event {
        TaskEvent::AddTask(key, name, status) => is_addition_of(after, before, key, name, status, now),
        TaskEvent::SetTaskDisplayName(key, name) => {
            &&& forall|s: Status| #[trigger] after.bucket(s).len() == before.bucket(s).len()
            &&& forall|s: Status, i: int|
                0 <= i < before.bucket(s).len() ==> is_renaming_of(
                    #[trigger] after.bucket(s)[i],
                    before.bucket(s)[i],
                    key,
                    name@,
                )
        },
        TaskEvent::UpdateTask(key, status) => is_update_of(after, before, key, status, now),
        TaskEvent::DeleteTask(key) => forall|s: Status| #[trigger]
            after.bucket(s) == if status_is_terminal(s) {
                before.bucket(s)
            } else {
                before.bucket(s).filter(lacks_key(key))
            },
        TaskEvent::AddSubTask(key, subkey, name, status) => match holder(before, key) {
            None => forall|o: Status| #[trigger] after.bucket(o) == before.bucket(o),
            Some(h) => {
                let i = first_index(before.bucket(h), key);
                &&& after.bucket(h).len() == before.bucket(h).len()
                &&& forall|j: int|
                    0 <= j < before.bucket(h).len() && j != i ==> #[trigger] after.bucket(h)[j]
                        == before.bucket(h)[j]
                &&& is_attaching_of(after.bucket(h)[i], before.bucket(h)[i], subkey, name, status, now)
                &&& forall|o: Status| o != h ==> #[trigger] after.bucket(o) == before.bucket(o)
            },
        },
        TaskEvent::UpdateSubTask(key, subkey, status) => {
            &&& forall|s: Status| #[trigger] after.bucket(s).len() == before.bucket(s).len()
            &&& forall|s: Status, i: int|
                0 <= i < before.bucket(s).len() ==> is_sub_update_of(
                    #[trigger] after.bucket(s)[i],
                    before.bucket(s)[i],
                    key,
                    subkey,
                    status,
                    now,
                )
        },
    }
}

/// Whether `event` adds no task under an id that is already on `st`.
pub open spec fn is_fresh_for(event: TaskEvent, st: InternalState) -> bool {
    match event {
        TaskEvent::AddTask(key, _, _) => st.occurrences(key) == 0,
        _ => true,
    }
}

/// Status partition: while every added task gets an id not yet on the
/// board, each id on the board stays in exactly one status, at one
/// position, whatever events are applied.
pub proof fn lemma_partition_invariant(
    before: InternalState,
    after: InternalState,
    event: TaskEvent,
    now: u64,
)
    requires
        before.ids_unique(),
        is_fresh_for(event, before),
        is_application_of(after, before, event, now),
    ensures
        after.ids_unique(),
{
    match event {
        TaskEvent::AddTask(key, name, status) => {
            lemma_ids_stay_unique_on_add(before, after, key, name, status, now);
        },
        TaskEvent::SetTaskDisplayName(key, name) => {
            lemma_ids_stay_unique_in_place(before, after);
        },
        TaskEvent::UpdateTask(key, status) => {
            lemma_ids_stay_unique_on_update(before, after, key, status, now);
        },
        TaskEvent::DeleteTask(key) => {
            let keep = |t: Task| true;
            let pick = |s: Status|
                if status_is_terminal(s) {
                    keep
                } else {
                    lacks_key(key)
                };
            assert forall|s: Status| #[trigger]
                after.bucket(s) == before.bucket(s).filter(pick(s)) by {
                if status_is_terminal(s) {
                    lemma_filter_all(before.bucket(s), keep);
                }
            }
            lemma_ids_stay_unique_when_filtered(before, after, pick);
        },
        TaskEvent::AddSubTask(key, subkey, name, status) => {
            assert forall|s: Status, i: int|
                0 <= i < before.bucket(s).len() implies #[trigger] after.bucket(s)[i].key
                == before.bucket(s)[i].key by {}
            lemma_ids_stay_unique_in_place(before, after);
        },
        TaskEvent::UpdateSubTask(key, subkey, status) => {
            lemma_ids_stay_unique_in_place(before, after);
        },
    }
}

/// Whether `e` adds a task under id `k`.
pub open spec fn adds(e: TaskEvent, k: i32) -> bool {
    match e {
        TaskEvent::AddTask(k2, _, _) => k2 == k,
        _ => false,
    }
}

/// Whether `e` moves the task `k` to Finished.
pub open spec fn finishes(e: TaskEvent, k: i32) -> bool {
    match e {
        TaskEvent::UpdateTask(k2, s) => k2 == k && s == Status::Finished,
        _ => false,
    }
}

/// An event of a producer that creates one of `ids` or finishes it.
pub open spec fn is_producer_event(e: TaskEvent, ids: Seq<i32>) -> bool {
    match e {
        TaskEvent::AddTask(k, _, _) => ids.contains(k),
        TaskEvent::UpdateTask(k, s) => ids.contains(k) && s == Status::Finished,
        _ => false,
    }
}

/// `states[i + 1]` is `states[i]` with `events[i]` applied at `times[i]`.
pub open spec fn is_run(states: Seq<InternalState>, events: Seq<TaskEvent>, times: Seq<u64>) -> bool {
    &&& states.len() == events.len() + 1
    &&& times.len() == events.len()
    &&& forall|i: int|
        0 <= i < events.len() ==> is_application_of(
            states[i + 1],
            states[i],
            #[trigger] events[i],
            times[i],
        )
}

/// Whether the task `k`, added at position `a`, was finished by an event
/// between `a` and `n`.
pub open spec fn finished_by(events: Seq<TaskEvent>, k: i32, a: int, n: int) -> bool {
    exists|f: int| a < f < n && #[trigger] finishes(events[f], k)
}

/// Where the task `k`, added at position `a`, stands after the first `n`
/// events: absent before its addition, then once on the board, and once in
/// Finished after it was finished.
pub open spec fn producer_stage(st: InternalState, events: Seq<TaskEvent>, k: i32, a: int, n: int) -> bool {
    if n <= a {
        st.occurrences(k) == 0
    } else if !finished_by(events, k, a, n) {
        st.occurrences(k) == 1
    } else {
        st.occurrences(k) == 1 && st.bucket(Status::Finished).filter(has_key(k)).len() == 1
    }
}

proof fn lemma_finished_by_step(events: Seq<TaskEvent>, k: i32, a: int, n: int)
    requires
        0 <= n < events.len(),
        a < n,
    ensures
        finished_by(events, k, a, n + 1) == (finished_by(events, k, a, n) || finishes(events[n], k)),
{
    if finished_by(events, k, a, n + 1) && !finishes(events[n], k) {
        let f = choose|f: int| a < f < n + 1 && #[trigger] finishes(events[f], k);
        assert(f != n);
        assert(finished_by(events, k, a, n));
    }
    if finished_by(events, k, a, n) {
        let f = choose|f: int| a < f < n && #[trigger] finishes(events[f], k);
        assert(finished_by(events, k, a, n + 1));
    }
    if finishes(events[n], k) {
        assert(finished_by(events, k, a, n + 1));
    }
}

proof fn lemma_producer_step(
    before: InternalState,
    after: InternalState,
    events: Seq<TaskEvent>,
    ids: Seq<i32>,
    add_at: spec_fn(i32) -> int,
    n: int,
    now: u64,
)
    requires
        0 <= n < events.len(),
        is_application_of(after, before, events[n], now),
        is_producer_event(events[n], ids),
        forall|k: i32, j: int|
            ids.contains(k) && 0 <= j < events.len() && #[trigger] adds(events[j], k) ==> j
                == add_at(k),
        forall|k: i32|
            ids.contains(k) ==> 0 <= #[trigger] add_at(k) < events.len() && adds(
                events[add_at(k)],
                k,
            ),
        keys_within(before, ids),
        forall|k: i32| ids.contains(k) ==> #[trigger] producer_stage(before, events, k, add_at(k), n),
    ensures
        keys_within(after, ids),
        forall|k: i32|
            ids.contains(k) ==> #[trigger] producer_stage(after, events, k, add_at(k), n + 1),
{
    match events[n] {
        TaskEvent::AddTask(key, name, status) => {
            lemma_add_keeps_keys_within(before, after, key, name, status, now, ids);
            assert forall|k: i32| ids.contains(k) implies #[trigger] producer_stage(
                after,
                events,
                k,
                add_at(k),
                n + 1,
            ) by {
                lemma_add_counts(before, after, key, name, status, now, k);
                assert(producer_stage(before, events, k, add_at(k), n));
                if k == key {
                    assert(adds(events[n], k));
                    assert(n == add_at(k));
                    assert(!finished_by(events, k, add_at(k), n + 1));
                } else {
                    assert(!adds(events[n], k));
                    assert(!finishes(events[n], k));
                    assert(n != add_at(k));
                    if add_at(k) < n {
                        lemma_finished_by_step(events, k, add_at(k), n);
                    }
                }
            }
        },
        TaskEvent::UpdateTask(key, target) => {
            lemma_update_keeps_keys_within(before, after, key, target, now, ids);
            assert forall|k: i32| ids.contains(k) implies #[trigger] producer_stage(
                after,
                events,
                k,
                add_at(k),
                n + 1,
            ) by {
                lemma_update_counts(before, after, key, target, now, k);
                assert(producer_stage(before, events, k, add_at(k), n));
                assert(!adds(events[n], k));
                assert(n != add_at(k));
                if k == key {
                    assert(finishes(events[n], k));
                    if n > add_at(k) {
                        lemma_finished_by_step(events, k, add_at(k), n);
                    }
                } else {
                    assert(!finishes(events[n], k));
                    if add_at(k) < n {
                        lemma_finished_by_step(events, k, add_at(k), n);
                    }
                }
            }
        },
        _ => {},
    }
}

proof fn lemma_producers_upto(
    states: Seq<InternalState>,
    events: Seq<TaskEvent>,
    times: Seq<u64>,
    ids: Seq<i32>,
    add_at: spec_fn(i32) -> int,
    n: int,
)
    requires
        is_run(states, events, times),
        0 <= n <= events.len(),
        states[0].is_empty_spec(),
        forall|i: int| 0 <= i < events.len() ==> is_producer_event(#[trigger] events[i], ids),
        forall|k: i32, j: int|
            ids.contains(k) && 0 <= j < events.len() && #[trigger] adds(events[j], k) ==> j
                == add_at(k),
        forall|k: i32|
            ids.contains(k) ==> 0 <= #[trigger] add_at(k) < events.len() && adds(
                events[add_at(k)],
                k,
            ),
    ensures
        keys_within(states[n], ids),
        forall|k: i32|
            ids.contains(k) ==> #[trigger] producer_stage(states[n], events, k, add_at(k), n),
    decreases n,
{
    reveal(Seq::filter);
    if n == 0 {
        let st = states[0];
        assert(st.bucket(Status::Queued).len() == 0);
        assert(st.bucket(Status::Started).len() == 0);
        assert(st.bucket(Status::Finished).len() == 0);
        assert(st.bucket(Status::Error).len() == 0);
        assert(st.bucket(Status::Info).len() == 0);
        assert forall|k: i32| ids.contains(k) implies #[trigger] producer_stage(
            states[0],
            events,
            k,
            add_at(k),
            0,
        ) by {}
    } else {
        lemma_producers_upto(states, events, times, ids, add_at, n - 1);
        assert(is_application_of(states[n], states[n - 1], events[n - 1], times[n - 1]));
        lemma_producer_step(states[n - 1], states[n], events, ids, add_at, n - 1, times[n - 1]);
    }
}

/// Concurrent producers: whatever the interleaving of their events, when
/// each of `ids` (all distinct) is added once, as a task in any status, and
/// moved to Finished after that, the board ends with each id exactly once,
/// in Finished, and with exactly as many Finished tasks as ids.
pub proof fn lemma_concurrent_producers(
    states: Seq<InternalState>,
    events: Seq<TaskEvent>,
    times: Seq<u64>,
    ids: Seq<i32>,
    add_at: spec_fn(i32) -> int,
    finish_at: spec_fn(i32) -> int,
)
    requires
        is_run(states, events, times),
        states[0].is_empty_spec(),
        ids.no_duplicates(),
        forall|i: int| 0 <= i < events.len() ==> is_producer_event(#[trigger] events[i], ids),
        forall|k: i32|
            ids.contains(k) ==> 0 <= #[trigger] add_at(k) < finish_at(k) < events.len() && adds(
                events[add_at(k)],
                k,
            ) && finishes(events[finish_at(k)], k),
        forall|k: i32, j: int|
            ids.contains(k) && 0 <= j < events.len() && #[trigger] adds(events[j], k) ==> j
                == add_at(k),
    ensures
        forall|k: i32|
            ids.contains(k) ==> #[trigger] states.last().occurrences(k) == 1 && states.last().bucket(
                Status::Finished,
            ).filter(has_key(k)).len() == 1,
        states.last().bucket(Status::Finished).len() == ids.len(),
        states.last().bucket(Status::Queued).len() == 0,
        states.last().bucket(Status::Started).len() == 0,
        states.last().bucket(Status::Error).len() == 0,
        states.last().bucket(Status::Info).len() == 0,
{
    let n = events.len() as int;
    lemma_producers_upto(states, events, times, ids, add_at, n);
    let last = states[n];
    assert(states.last() == last);
    assert forall|k: i32| ids.contains(k) implies #[trigger] last.occurrences(k) == 1
        && last.bucket(Status::Finished).filter(has_key(k)).len() == 1 by {
        assert(producer_stage(last, events, k, add_at(k), n));
        assert(finishes(events[finish_at(k)], k));
        assert(finished_by(events, k, add_at(k), n));
    }
    assert forall|k: i32| #![trigger ids.contains(k)]
        ids.contains(k) implies last.bucket(Status::Finished).filter(has_key(k)).len() == 1
        && last.bucket(Status::Queued).filter(has_key(k)).len() == 0 && last.bucket(
        Status::Started,
    ).filter(has_key(k)).len() == 0 && last.bucket(Status::Error).filter(has_key(k)).len() == 0
        && last.bucket(Status::Info).filter(has_key(k)).len() == 0 by {
        assert(last.occurrences(k) == 1);
    }
    lemma_count_by_ids(last.bucket(Status::Finished), ids);
    lemma_count_uniform(last.bucket(Status::Finished), ids, 1);
    lemma_count_by_ids(last.bucket(Status::Queued), ids);
    lemma_count_uniform(last.bucket(Status::Queued), ids, 0);
    lemma_count_by_ids(last.bucket(Status::Started), ids);
    lemma_count_uniform(last.bucket(Status::Started), ids, 0);
    lemma_count_by_ids(last.bucket(Status::Error), ids);
    lemma_count_uniform(last.bucket(Status::Error), ids, 0);
    lemma_count_by_ids(last.bucket(Status::Info), ids);
    lemma_count_uniform(last.bucket(Status::Info), ids, 0);
}

impl InternalState {
    /// Applies one event at time `now`.
    pub fn apply_event(&mut self, event: TaskEvent, now: u64)
        ensures
            is_application_of(*final(self), *old(self), event, now),
    {
        match event {
            TaskEvent::AddTask(key, name, status) => self.add_task(key, name, status, now),
            TaskEvent::SetTaskDisplayName(key, name) => self.set_display_name(key, name),
            TaskEvent::UpdateTask(key, status) => self.update_task(key, status, now),
            TaskEvent::DeleteTask(key) => self.delete_task(key),
            TaskEvent::AddSubTask(key, subkey, name, status) => self.add_subtask(
                key,
                subkey,
                name,
                status,
                now,
            ),
            TaskEvent::UpdateSubTask(key, subkey, status) => self.update_subtask(
                key,
                subkey,
                status,
                now,
            ),
        }
    }
}

/// The board's writer has stopped, so events can no longer be delivered.
#[derive(Debug, Copy, Clone, PartialEq, Eq, Structural)]
pub struct BoardClosed;

/// The outcome of handing an event to the board's writer: `sent` tells
/// whether the writer was still there to take it.
pub fn delivery(sent: bool) -> (r: Result<(), BoardClosed>)
    ensures
        sent ==> r is Ok,
        !sent ==> r == Err::<(), BoardClosed>(BoardClosed),
{
    if sent {
        Ok(())
    } else {
        Err(BoardClosed)
    }
}

/// The event that adds task `id` named `display_name` in `status`.
pub fn add_task_event(id: i32, display_name: &str, status: Status) -> (e: TaskEvent)
    ensures
        e matches TaskEvent::AddTask(k, Some(n), s) && k == id && n@ == display_name@ && s
            == status,
{
    TaskEvent::AddTask(id, Some(display_name.to_string()), status)
}

/// The event that renames task `id`.
pub fn rename_event(id: i32, display_name: String) -> (e: TaskEvent)
    ensures
        e == TaskEvent::SetTaskDisplayName(id, display_name),
{
    TaskEvent::SetTaskDisplayName(id, display_name)
}

/// The event that moves task `id` to `status`.
pub fn update_event(id: i32, status: Status) -> (e: TaskEvent)
    ensures
        e == TaskEvent::UpdateTask(id, status),
    opens_invariants none
    no_unwind
{
    TaskEvent::UpdateTask(id, status)
}

/// The event that removes task `id`.
pub fn delete_event(id: i32) -> (e: TaskEvent)
    ensures
        e == TaskEvent::DeleteTask(id),
{
    TaskEvent::DeleteTask(id)
}

/// The event that adds sub-task `sub`, unnamed, to task `parent`.
pub fn add_subtask_event(parent: i32, sub: i32, status: Status) -> (e: TaskEvent)
    ensures
        e == TaskEvent::AddSubTask(parent, sub, None, status),
{
    TaskEvent::AddSubTask(parent, sub, None, status)
}

/// The event that moves sub-task `sub` of task `parent` to `status`.
pub fn update_subtask_event(parent: i32, sub: i32, status: Status) -> (e: TaskEvent)
    ensures
        e == TaskEvent::UpdateSubTask(parent, sub, status),
{
    TaskEvent::UpdateSubTask(parent, sub, status)
}

/// What producers hold: it hands out task ids and sends events to the
/// board's single writer. Copies share the sender and the id counter.
#[derive(Debug, Clone)]
pub struct SBState {
    sender: Sender<TaskEvent>,
    ids: Arc<AtomicI32>,
}

impl SBState {
    /// A facade sending to `sender`, with ids drawn from a new counter.
    pub fn new(sender: Sender<TaskEvent>) -> (r: SBState) {
        SBState { sender, ids: Arc::new(AtomicI32::new(0)) }
    }

    fn submit(&self, event: TaskEvent) -> (r: Result<(), BoardClosed>) {
        delivery(send_event(&self.sender, event))
    }

    /// Sends the event that adds the task of `handle`, named `display_name`,
    /// in `status`; hands `handle` back once it is sent.
    pub fn register_task(&self, handle: TaskId, display_name: &str, status: Status) -> (r: Result<
        TaskId,
        BoardClosed,
    >)
        ensures
            r matches Ok(h) ==> h@ == handle@ && h.is_strong() == handle.is_strong(),
    {
        let event = add_task_event(handle.id(), display_name, status);
        match self.submit(event) {
            Ok(()) => Ok(handle),
            Err(e) => Err(e),
        }
    }

    /// Shows an error message until it ages out. Its id is weak: the
    /// message is not finished when the id is released.
    pub fn error(&self, display_name: &str) -> (r: Result<TaskId, BoardClosed>)
        ensures
            r matches Ok(h) ==> !h.is_strong(),
    {
        self.register_task(TaskId::new(&self.ids), display_name, Status::Error)
    }

    /// Shows an informational message until it ages out. Its id is weak:
    /// the message is not finished when the id is released.
    pub fn info(&self, display_name: &str) -> (r: Result<TaskId, BoardClosed>)
        ensures
            r matches Ok(h) ==> !h.is_strong(),
    {
        self.register_task(TaskId::new(&self.ids), display_name, Status::Info)
    }

    /// Registers a task and returns its handle; the task is reported as
    /// finished when the handle's last copy is released.
    pub fn add_task(&self, display_name: &str, status: Status) -> (r: Result<TaskId, BoardClosed>)
        ensures
            r matches Ok(h) ==> h.is_strong(),
    {
        let handle = TaskId::new_with_sender(&self.ids, self.sender.clone());
        self.register_task(handle, display_name, status)
    }

    /// Renames the task of `task_id`.
    pub fn set_task_display_name(&self, task_id: &TaskId, display_name: String) -> (r: Result<
        (),
        BoardClosed,
    >) {
        self.submit(rename_event(task_id.id(), display_name))
    }

    /// Removes the task of `task_id`, unless it is already terminal.
    pub fn delete_task(&self, task_id: &TaskId) -> (r: Result<(), BoardClosed>) {
        self.submit(delete_event(task_id.id()))
    }

    /// Moves the task of `task_id` to `new_status`.
    pub fn update_task(&self, task_id: &TaskId, new_status: Status) -> (r: Result<(), BoardClosed>) {
        self.submit(update_event(task_id.id(), new_status))
    }

    /// Sends the event that adds sub-task `sub` to the task of `task_id`;
    /// hands `sub` back once it is sent.
    pub fn register_subtask(&self, task_id: &TaskId, sub: TaskId, status: Status) -> (r: Result<
        TaskId,
        BoardClosed,
    >)
        ensures
            r matches Ok(h) ==> h@ == sub@ && h.is_strong() == sub.is_strong(),
    {
        let event = add_subtask_event(task_id.id(), sub.id(), status);
        match self.submit(event) {
            Ok(()) => Ok(sub),
            Err(e) => Err(e),
        }
    }

    /// Registers a sub-task of `task_id`. Its id is weak: the sub-task is
    /// finished only by an explicit update.
    pub fn add_subtask(&self, task_id: &TaskId, status: Status) -> (r: Result<TaskId, BoardClosed>)
        ensures
            r matches Ok(h) ==> !h.is_strong(),
    {
        self.register_subtask(task_id, TaskId::new(&self.ids), status)
    }

    /// Moves sub-task `sub_task_id` of the task of `task_id` to `status`.
    pub fn update_subtask(&self, task_id: &TaskId, sub_task_id: &TaskId, status: Status) -> (r:
        Result<(), BoardClosed>) {
        self.submit(update_subtask_event(task_id.id(), sub_task_id.id(), status))
    }
}

} // verus!
