//! The task registry: for each status, the tasks currently in it, in the
//! order they arrived there. Each task owns a registry of its sub-tasks.
use crate::task::{saturated, Task};
use crate::{status_is_terminal, status_key, Status};
use rustc_hash::{FxBuildHasher, FxHashMap};
use vstd::prelude::*;

verus! {

#[verifier::external_type_specification]
#[verifier::external_body]
pub struct ExFxBuildHasher(FxBuildHasher);

/// Relies on `HashMap::remove` over rustc-hash's `FxBuildHasher`, whose
/// hashing of a `u8` is deterministic: the entry of `k`, if any, is taken out.
#[verifier::external_body]
fn take_entry(m: &mut FxHashMap<u8, Vec<Task>>, k: u8) -> (r: Option<Vec<Task>>)
    ensures
        final(m)@ == old(m)@.remove(k),
        old(m)@.contains_key(k) ==> r == Some(old(m)@[k]),
        !old(m)@.contains_key(k) ==> r is None,
{
    m.remove(&k)
}

/// Relies on `HashMap::insert` over rustc-hash's `FxBuildHasher`: `k` maps
/// to `v` afterwards, every other key as before.
#[verifier::external_body]
fn put_entry(m: &mut FxHashMap<u8, Vec<Task>>, k: u8, v: Vec<Task>)
    ensures
        final(m)@ == old(m)@.insert(k, v),
{
    m.insert(k, v);
}

/// Relies on `HashMap::get` over rustc-hash's `FxBuildHasher`: the entry of
/// `k`, if any.
#[verifier::external_body]
fn peek_entry(m: &FxHashMap<u8, Vec<Task>>, k: u8) -> (r: Option<&Vec<Task>>)
    ensures
        m@.contains_key(k) ==> r == Some(&m@[k]),
        !m@.contains_key(k) ==> r is None,
{
    m.get(&k)
}

/// Whether a task has the given id.
pub open spec fn has_key(key: i32) -> spec_fn(Task) -> bool {
    |t: Task| t.key == key
}

/// Whether a task has another id than the given one.
pub open spec fn lacks_key(key: i32) -> spec_fn(Task) -> bool {
    |t: Task| t.key != key
}

/// A task with its status-entry time replaced by `now`.
pub open spec fn restamp(t: Task, now: u64) -> Task {
    Task { key: t.key, display_name: t.display_name, time: now, substate: t.substate }
}

/// How long a task has been in its status at time `now` (zero for a time
/// in the future).
pub open spec fn age(t: Task, now: u64) -> nat {
    if now >= t.time {
        (now - t.time) as nat
    } else {
        0
    }
}

/// Whether a task has been in its status for at most `max_age` at `now`.
pub open spec fn within_age(max_age: u64, now: u64) -> spec_fn(Task) -> bool {
    |t: Task| age(t, now) <= max_age
}

/// `i` is the first position in `s` of a task with id `key`.
pub open spec fn is_first_index(s: Seq<Task>, key: i32, i: int) -> bool {
    &&& 0 <= i < s.len()
    &&& s[i].key == key
    &&& forall|j: int| 0 <= j < i ==> s[j].key != key
}

/// The first position in `s` of a task with id `key`, or -1.
pub open spec fn first_index(s: Seq<Task>, key: i32) -> int {
    if exists|i: int| is_first_index(s, key, i) {
        choose|i: int| is_first_index(s, key, i)
    } else {
        -1
    }
}


/// A display name as text.
pub open spec fn name_view(o: Option<String>) -> Option<Seq<char>> {
    match o {
        Some(s) => Some(s@),
        None => None,
    }
}

/// `after` is `before` with one task appended to status `status`: id `key`,
/// name `name`, entered at `now`, with no sub-tasks.
pub open spec fn is_addition_of(
    after: InternalState,
    before: InternalState,
    key: i32,
    name: Option<String>,
    status: Status,
    now: u64,
) -> bool {
    &&& after.bucket(status).len() == before.bucket(status).len() + 1
    &&& after.bucket(status).drop_last() == before.bucket(status)
    &&& after.bucket(status).last().key == key
    &&& after.bucket(status).last().display_name == name
    &&& after.bucket(status).last().time == now
    &&& after.bucket(status).last().substate.is_empty_spec()
    &&& forall|o: Status| o != status ==> #[trigger] after.bucket(o) == before.bucket(o)
}

/// The tasks that moving `key` to `target` at `now` takes out of status `s`,
/// restamped.
pub open spec fn moved_from(
    st: InternalState,
    key: i32,
    target: Status,
    now: u64,
    s: Status,
) -> Seq<Task> {
    if s == target {
        Seq::empty()
    } else {
        st.bucket(s).filter(has_key(key)).map_values(|t: Task| restamp(t, now))
    }
}

/// All tasks that moving `key` to `target` takes out of the other statuses,
/// in search order.
pub open spec fn moved_tasks(st: InternalState, key: i32, target: Status, now: u64) -> Seq<Task> {
    moved_from(st, key, target, now, Status::Queued) + moved_from(st, key, target, now, Status::Started)
        + moved_from(st, key, target, now, Status::Finished) + moved_from(
        st,
        key,
        target,
        now,
        Status::Error,
    ) + moved_from(st, key, target, now, Status::Info)
}

/// Status `s` after moving `key` to `target` at `now`: the target keeps its
/// tasks and receives the moved ones after them; every other status loses
/// the tasks with that id.
pub open spec fn updated_bucket(
    st: InternalState,
    key: i32,
    target: Status,
    now: u64,
    s: Status,
) -> Seq<Task> {
    if s == target {
        st.bucket(target) + moved_tasks(st, key, target, now)
    } else {
        st.bucket(s).filter(lacks_key(key))
    }
}

/// `after` is `before` with the task `key` moved to `target` at `now`.
pub open spec fn is_update_of(
    after: InternalState,
    before: InternalState,
    key: i32,
    target: Status,
    now: u64,
) -> bool {
    forall|s: Status| #[trigger] after.bucket(s) == updated_bucket(before, key, target, now, s)
}

/// Task `after` is task `before`, renamed to `name` when it has id `key`.
pub open spec fn is_renaming_of(after: Task, before: Task, key: i32, name: Seq<char>) -> bool {
    if before.key == key {
        &&& after.key == before.key
        &&& after.time == before.time
        &&& after.substate == before.substate
        &&& name_view(after.display_name) == Some(name)
    } else {
        after == before
    }
}

/// Task `after` is task `before` with sub-task `subkey` added to its
/// sub-tasks.
pub open spec fn is_attaching_of(
    after: Task,
    before: Task,
    subkey: i32,
    name: Option<String>,
    status: Status,
    now: u64,
) -> bool {
    &&& after.key == before.key
    &&& after.display_name == before.display_name
    &&& after.time == before.time
    &&& is_addition_of(after.substate, before.substate, subkey, name, status, now)
}

/// Task `after` is task `before`, with sub-task `subkey` moved to `target`
/// when it has id `key`.
pub open spec fn is_sub_update_of(
    after: Task,
    before: Task,
    key: i32,
    subkey: i32,
    target: Status,
    now: u64,
) -> bool {
    if before.key == key {
        &&& after.key == before.key
        &&& after.display_name == before.display_name
        &&& after.time == before.time
        &&& is_update_of(after.substate, before.substate, subkey, target, now)
    } else {
        after == before
    }
}

/// The first status, in search order, that holds a task with id `key`.
pub open spec fn holder(st: InternalState, key: i32) -> Option<Status> {
    if first_index(st.bucket(Status::Queued), key) >= 0 {
        Some(Status::Queued)
    } else if first_index(st.bucket(Status::Started), key) >= 0 {
        Some(Status::Started)
    } else if first_index(st.bucket(Status::Finished), key) >= 0 {
        Some(Status::Finished)
    } else if first_index(st.bucket(Status::Error), key) >= 0 {
        Some(Status::Error)
    } else if first_index(st.bucket(Status::Info), key) >= 0 {
        Some(Status::Info)
    } else {
        None
    }
}

proof fn lemma_filter_step(s: Seq<Task>, i: int, p: spec_fn(Task) -> bool)
    requires
        0 <= i < s.len(),
    ensures
        s.take(i + 1).filter(p) == if p(s[i]) {
            s.take(i).filter(p).push(s[i])
        } else {
            s.take(i).filter(p)
        },
{
    reveal(Seq::filter);
    assert(s.take(i + 1).drop_last() =~= s.take(i));
}

/// Filtering twice by the same test is filtering once.
proof fn lemma_filter_twice(s: Seq<Task>, p: spec_fn(Task) -> bool)
    ensures
        s.filter(p).filter(p) == s.filter(p),
    decreases s.len(),
{
    reveal(Seq::filter);
    if s.len() > 0 {
        lemma_filter_twice(s.drop_last(), p);
        if p(s.last()) {
            let f = s.drop_last().filter(p);
            assert(f.push(s.last()).drop_last() =~= f);
        }
    }
}

/// No task that lacks id `key` has it.
pub(crate) proof fn lemma_lacking_has_none(s: Seq<Task>, key: i32)
    ensures
        s.filter(lacks_key(key)).filter(has_key(key)).len() == 0,
{
    broadcast use vstd::seq_lib::group_filter_ensures;

    let f = s.filter(lacks_key(key));
    assert forall|i: int| 0 <= i < f.len() implies !has_key(key)(f[i]) by {
        assert(lacks_key(key)(f[i]));
    }
    f.lemma_all_neg_filter_empty(has_key(key));
}

/// Moving a task to a status twice in a row leaves the registry as moving
/// it once does, whatever the two times.
pub proof fn lemma_update_idempotent(
    before: InternalState,
    once: InternalState,
    twice: InternalState,
    key: i32,
    target: Status,
    now1: u64,
    now2: u64,
)
    requires
        is_update_of(once, before, key, target, now1),
        is_update_of(twice, once, key, target, now2),
    ensures
        forall|s: Status| #[trigger] twice.bucket(s) == once.bucket(s),
{
    assert forall|s: Status| #[trigger] moved_from(once, key, target, now2, s).len() == 0 by {
        if s != target {
            assert(once.bucket(s) == updated_bucket(before, key, target, now1, s));
            lemma_lacking_has_none(before.bucket(s), key);
        }
    }
    assert forall|s: Status| #[trigger] twice.bucket(s) == once.bucket(s) by {
        assert(twice.bucket(s) == updated_bucket(once, key, target, now2, s));
        assert(once.bucket(s) == updated_bucket(before, key, target, now1, s));
        if s == target {
            assert(moved_tasks(once, key, target, now2) =~= Seq::empty());
            assert(twice.bucket(s) =~= once.bucket(s));
        } else {
            lemma_filter_twice(before.bucket(s), lacks_key(key));
        }
    }
}

/// Splits `tasks` into those without id `key` and those with it, each in
/// the order they came.
fn split_by_key(tasks: Vec<Task>, key: i32) -> (r: (Vec<Task>, Vec<Task>))
    ensures
        r.0@ == tasks@.filter(lacks_key(key)),
        r.1@ == tasks@.filter(has_key(key)),
{
    let ghost all = tasks@;
    let mut kept: Vec<Task> = Vec::new();
    let mut matched: Vec<Task> = Vec::new();
    for t in it: tasks
        invariant
            it.seq() == all,
            kept@ == all.take(it.index() as int).filter(lacks_key(key)),
            matched@ == all.take(it.index() as int).filter(has_key(key)),
    {
        proof {
            lemma_filter_step(all, it.index() as int, lacks_key(key));
            lemma_filter_step(all, it.index() as int, has_key(key));
        }
        if t.key == key {
            matched.push(t);
        } else {
            kept.push(t);
        }
    }
    proof {
        assert(all.take(all.len() as int) =~= all);
    }
    (kept, matched)
}

/// Whether `s` is one of `statuses`.
fn listed(statuses: &[Status], s: Status) -> (r: bool)
    ensures
        r == statuses@.contains(s),
{
    let mut i: usize = 0;
    while i < statuses.len()
        invariant
            i <= statuses@.len(),
            forall|j: int| 0 <= j < i ==> statuses@[j] != s,
        decreases statuses.len() - i,
    {
        if statuses[i] == s {
            return true;
        }
        i = i + 1;
    }
    false
}

#[derive(Debug)]
pub struct InternalState {
    task_map: FxHashMap<u8, Vec<Task>>,
}

impl InternalState {
    /// The tasks in status `s`, in arrival order.
    pub closed spec fn bucket(&self, s: Status) -> Seq<Task> {
        if self.task_map@.contains_key(status_key(s)) {
            self.task_map@[status_key(s)]@
        } else {
            Seq::empty()
        }
    }

    /// No task in any status.
    pub open spec fn is_empty_spec(&self) -> bool {
        forall|s: Status| #[trigger] self.bucket(s).len() == 0
    }

    /// How many tasks at the top level carry id `key`.
    pub open spec fn occurrences(&self, key: i32) -> nat {
        self.bucket(Status::Queued).filter(has_key(key)).len() + self.bucket(Status::Started).filter(
            has_key(key),
        ).len() + self.bucket(Status::Finished).filter(has_key(key)).len() + self.bucket(
            Status::Error,
        ).filter(has_key(key)).len() + self.bucket(Status::Info).filter(has_key(key)).len()
    }

    /// Every id is carried by at most one task at the top level.
    pub open spec fn ids_unique(&self) -> bool {
        forall|k: i32| #[trigger] self.occurrences(k) <= 1
    }

    /// Started + Queued + Finished: the units of work.
    pub open spec fn active_total(&self) -> nat {
        self.bucket(Status::Started).len() + self.bucket(Status::Queued).len() + self.bucket(
            Status::Finished,
        ).len()
    }

    pub fn new() -> (r: InternalState)
        ensures
            r.is_empty_spec(),
    {
        InternalState { task_map: FxHashMap::default() }
    }

    /// Takes the tasks of status `s` out, leaving that status empty.
    fn take(&mut self, s: Status) -> (v: Vec<Task>)
        ensures
            v@ == old(self).bucket(s),
            final(self).bucket(s).len() == 0,
            forall|o: Status| o != s ==> #[trigger] final(self).bucket(o) == old(self).bucket(o),
    {
        match take_entry(&mut self.task_map, s.key()) {
            Some(v) => v,
            None => Vec::new(),
        }
    }

    /// Makes `v` the tasks of status `s`.
    fn put(&mut self, s: Status, v: Vec<Task>)
        ensures
            final(self).bucket(s) == v@,
            forall|o: Status| o != s ==> #[trigger] final(self).bucket(o) == old(self).bucket(o),
    {
        put_entry(&mut self.task_map, s.key(), v);
    }

    /// The number of tasks in status `s`.
    pub fn count(&self, s: Status) -> (r: usize)
        ensures
            r == self.bucket(s).len(),
    {
        match peek_entry(&self.task_map, s.key()) {
            Some(v) => v.len(),
            None => 0,
        }
    }

    /// The tasks in status `s`; none when there are none.
    pub fn tasks_in(&self, s: Status) -> (r: Option<&Vec<Task>>)
        ensures
            match r {
                Some(v) => v@ == self.bucket(s),
                None => self.bucket(s).len() == 0,
            },
    {
        peek_entry(&self.task_map, s.key())
    }

    /// Started + Queued + Finished (saturating at `usize::MAX`).
    pub fn get_total(&self) -> (r: usize)
        ensures
            r == saturated(self.active_total()),
    {
        let num_started = self.count(Status::Started);
        let num_queued = self.count(Status::Queued);
        let num_finished = self.count(Status::Finished);
        num_finished.saturating_add(num_queued).saturating_add(num_started)
    }

    /// Appends a new task with no sub-tasks to status `status`.
    pub fn add_task(&mut self, key: i32, display_name: Option<String>, status: Status, now: u64)
        ensures
            is_addition_of(*final(self), *old(self), key, display_name, status, now),
    {
        let mut v = self.take(status);
        v.push(Task { key, display_name, time: now, substate: InternalState::new() });
        self.put(status, v);
        assert(self.bucket(status).drop_last() =~= old(self).bucket(status));
    }

    /// Takes the tasks with id `key` out of status `s` (unless `s` is the
    /// target) and appends them, restamped, to `moved`.
    fn move_out(&mut self, s: Status, key: i32, target: Status, now: u64, moved: &mut Vec<Task>)
        ensures
            final(moved)@ == old(moved)@ + moved_from(*old(self), key, target, now, s),
            s != target ==> final(self).bucket(s) == old(self).bucket(s).filter(lacks_key(key)),
            forall|o: Status|
                (o != s || s == target) ==> #[trigger] final(self).bucket(o) == old(self).bucket(o),
    {
        if s == target {
            assert(moved@ =~= old(moved)@ + moved_from(*old(self), key, target, now, s));
            return ;
        }
        let v = self.take(s);
        let (kept, matched) = split_by_key(v, key);
        self.put(s, kept);
        let ghost m0 = moved@;
        let ghost ms = matched@;
        for t in it: matched
            invariant
                it.seq() == ms,
                moved@ == m0 + ms.take(it.index() as int).map_values(|t: Task| restamp(t, now)),
        {
            let mut t = t;
            t.time = now;
            moved.push(t);
            proof {
                let i = it.index() as int;
                assert(ms.take(i + 1).map_values(|t: Task| restamp(t, now)) =~= ms.take(i).map_values(
                    |t: Task| restamp(t, now),
                ).push(restamp(ms[i], now)));
            }
        }
        assert(ms.take(ms.len() as int) =~= ms);
    }

    /// Moves the task with id `key` from whatever status it is in to
    /// `new_status`, stamping it with `now`. A task already in `new_status`
    /// is left as it is.
    pub fn update_task(&mut self, key: i32, new_status: Status, now: u64)
        ensures
            is_update_of(*final(self), *old(self), key, new_status, now),
    {
        let ghost before = *self;
        let mut moved: Vec<Task> = Vec::new();
        self.move_out(Status::Queued, key, new_status, now, &mut moved);
        self.move_out(Status::Started, key, new_status, now, &mut moved);
        self.move_out(Status::Finished, key, new_status, now, &mut moved);
        self.move_out(Status::Error, key, new_status, now, &mut moved);
        self.move_out(Status::Info, key, new_status, now, &mut moved);
        assert(moved@ =~= moved_tasks(before, key, new_status, now));
        let mut target = self.take(new_status);
        target.append(&mut moved);
        self.put(new_status, target);
        assert forall|s: Status| #[trigger]
            self.bucket(s) == updated_bucket(before, key, new_status, now, s) by {
            if s == new_status {
                assert(self.bucket(s) =~= updated_bucket(before, key, new_status, now, s));
            }
        }
    }

    /// Drops the tasks with id `key` from status `s`, unless `s` is terminal.
    fn delete_in(&mut self, s: Status, key: i32)
        ensures
            !status_is_terminal(s) ==> final(self).bucket(s) == old(self).bucket(s).filter(
                lacks_key(key),
            ),
            forall|o: Status|
                (o != s || status_is_terminal(s)) ==> #[trigger] final(self).bucket(o) == old(
                    self,
                ).bucket(o),
    {
        if !s.is_finished() {
            let v = self.take(s);
            let (kept, _matched) = split_by_key(v, key);
            self.put(s, kept);
        }
    }

    /// Removes the task with id `key` from the non-terminal statuses; a
    /// terminal task stays until it is evicted.
    pub fn delete_task(&mut self, key: i32)
        ensures
            forall|s: Status| #[trigger]
                final(self).bucket(s) == if status_is_terminal(s) {
                    old(self).bucket(s)
                } else {
                    old(self).bucket(s).filter(lacks_key(key))
                },
    {
        self.delete_in(Status::Queued, key);
        self.delete_in(Status::Started, key);
        self.delete_in(Status::Finished, key);
        self.delete_in(Status::Error, key);
        self.delete_in(Status::Info, key);
    }

    /// Adds sub-task `subkey` to the first task, in status `s`, with id `key`.
    /// Hands `display_name` back when there is no such task.
    fn attach_in(
        &mut self,
        s: Status,
        key: i32,
        subkey: i32,
        display_name: Option<String>,
        status: Status,
        now: u64,
    ) -> (r: Option<Option<String>>)
        ensures
            first_index(old(self).bucket(s), key) < 0 ==> r == Some(display_name) && forall|
                o: Status,
            | #[trigger] final(self).bucket(o) == old(self).bucket(o),
            first_index(old(self).bucket(s), key) >= 0 ==> {
                let i = first_index(old(self).bucket(s), key);
                &&& r is None
                &&& final(self).bucket(s).len() == old(self).bucket(s).len()
                &&& forall|j: int|
                    0 <= j < old(self).bucket(s).len() && j != i ==> #[trigger] final(self).bucket(
                        s,
                    )[j] == old(self).bucket(s)[j]
                &&& is_attaching_of(
                    final(self).bucket(s)[i],
                    old(self).bucket(s)[i],
                    subkey,
                    display_name,
                    status,
                    now,
                )
                &&& forall|o: Status| o != s ==> #[trigger] final(self).bucket(o) == old(self).bucket(
                    o,
                )
            },
    {
        let mut v = self.take(s);
        let ghost all = v@;
        let mut i: usize = 0;
        while i < v.len() && v[i].key != key
            invariant
                v@ == all,
                i <= v.len(),
                forall|j: int| 0 <= j < i ==> all[j].key != key,
            decreases v.len() - i,
        {
            i = i + 1;
        }
        if i < v.len() {
            assert(is_first_index(all, key, i as int));
            assert(first_index(all, key) == i as int);
            let mut t = v.remove(i);
            t.substate.add_task(subkey, display_name, status, now);
            v.insert(i, t);
            self.put(s, v);
            None
        } else {
            assert(!exists|k: int| is_first_index(all, key, k));
            self.put(s, v);
            Some(display_name)
        }
    }

    /// Adds sub-task `subkey` to the first task with id `key`, searching the
    /// statuses in order; nothing happens when there is no such task.
    pub fn add_subtask(
        &mut self,
        key: i32,
        subkey: i32,
        display_name: Option<String>,
        status: Status,
        now: u64,
    )
        ensures
            holder(*old(self), key) is None ==> forall|o: Status| #[trigger]
                final(self).bucket(o) == old(self).bucket(o),
            holder(*old(self), key) matches Some(h) ==> {
                let i = first_index(old(self).bucket(h), key);
                &&& final(self).bucket(h).len() == old(self).bucket(h).len()
                &&& forall|j: int|
                    0 <= j < old(self).bucket(h).len() && j != i ==> #[trigger] final(self).bucket(
                        h,
                    )[j] == old(self).bucket(h)[j]
                &&& is_attaching_of(
                    final(self).bucket(h)[i],
                    old(self).bucket(h)[i],
                    subkey,
                    display_name,
                    status,
                    now,
                )
                &&& forall|o: Status| o != h ==> #[trigger] final(self).bucket(o) == old(self).bucket(
                    o,
                )
            },
    {
        let name = match self.attach_in(Status::Queued, key, subkey, display_name, status, now) {
            None => return ,
            Some(n) => n,
        };
        let name = match self.attach_in(Status::Started, key, subkey, name, status, now) {
            None => return ,
            Some(n) => n,
        };
        let name = match self.attach_in(Status::Finished, key, subkey, name, status, now) {
            None => return ,
            Some(n) => n,
        };
        let name = match self.attach_in(Status::Error, key, subkey, name, status, now) {
            None => return ,
            Some(n) => n,
        };
        let _ = self.attach_in(Status::Info, key, subkey, name, status, now);
    }

    /// Moves sub-task `subkey` of every task with id `key` in status `s`.
    fn update_sub_in(&mut self, s: Status, key: i32, subkey: i32, new_status: Status, now: u64)
        ensures
            final(self).bucket(s).len() == old(self).bucket(s).len(),
            forall|i: int|
                0 <= i < old(self).bucket(s).len() ==> is_sub_update_of(
                    #[trigger] final(self).bucket(s)[i],
                    old(self).bucket(s)[i],
                    key,
                    subkey,
                    new_status,
                    now,
                ),
            forall|o: Status| o != s ==> #[trigger] final(self).bucket(o) == old(self).bucket(o),
    {
        let v = self.take(s);
        let ghost all = v@;
        let mut out: Vec<Task> = Vec::new();
        for t in it: v
            invariant
                it.seq() == all,
                out@.len() == it.index(),
                forall|j: int|
                    0 <= j < it.index() ==> is_sub_update_of(
                        #[trigger] out@[j],
                        all[j],
                        key,
                        subkey,
                        new_status,
                        now,
                    ),
        {
            let mut t = t;
            if t.key == key {
                t.substate.update_task(subkey, new_status, now);
            }
            out.push(t);
        }
        self.put(s, out);
    }

    /// Moves sub-task `subkey` of every task with id `key` to `new_status`.
    pub fn update_subtask(&mut self, key: i32, subkey: i32, new_status: Status, now: u64)
        ensures
            forall|s: Status| #[trigger] final(self).bucket(s).len() == old(self).bucket(s).len(),
            forall|s: Status, i: int|
                0 <= i < old(self).bucket(s).len() ==> is_sub_update_of(
                    #[trigger] final(self).bucket(s)[i],
                    old(self).bucket(s)[i],
                    key,
                    subkey,
                    new_status,
                    now,
                ),
    {
        let ghost before = *self;
        self.update_sub_in(Status::Queued, key, subkey, new_status, now);
        self.update_sub_in(Status::Started, key, subkey, new_status, now);
        self.update_sub_in(Status::Finished, key, subkey, new_status, now);
        self.update_sub_in(Status::Error, key, subkey, new_status, now);
        self.update_sub_in(Status::Info, key, subkey, new_status, now);
        assert forall|s: Status, i: int|
            0 <= i < before.bucket(s).len() implies is_sub_update_of(
            #[trigger] self.bucket(s)[i],
            before.bucket(s)[i],
            key,
            subkey,
            new_status,
            now,
        ) by {
            match s {
                Status::Queued => {},
                Status::Started => {},
                Status::Finished => {},
                Status::Error => {},
                Status::Info => {},
            }
        }
    }

    /// Drops from status `s` the tasks that have been in it for longer than
    /// `max_age` at `now`.
    fn evict_in(&mut self, s: Status, max_age: u64, now: u64)
        ensures
            final(self).bucket(s) == old(self).bucket(s).filter(within_age(max_age, now)),
            forall|o: Status| o != s ==> #[trigger] final(self).bucket(o) == old(self).bucket(o),
    {
        let v = self.take(s);
        let ghost all = v@;
        let mut kept: Vec<Task> = Vec::new();
        for t in it: v
            invariant
                it.seq() == all,
                kept@ == all.take(it.index() as int).filter(within_age(max_age, now)),
        {
            proof {
                lemma_filter_step(all, it.index() as int, within_age(max_age, now));
            }
            if now.saturating_sub(t.time) <= max_age {
                kept.push(t);
            }
        }
        assert(all.take(all.len() as int) =~= all);
        self.put(s, kept);
    }

    /// For each status listed in `statuses`, drops the tasks that have been
    /// in it for longer than `max_age` at `now`.
    pub fn clear_old_entries(&mut self, max_age: u64, statuses: &[Status], now: u64)
        ensures
            forall|s: Status| #[trigger]
                final(self).bucket(s) == if statuses@.contains(s) {
                    old(self).bucket(s).filter(within_age(max_age, now))
                } else {
                    old(self).bucket(s)
                },
    {
        if listed(statuses, Status::Queued) {
            self.evict_in(Status::Queued, max_age, now);
        }
        if listed(statuses, Status::Started) {
            self.evict_in(Status::Started, max_age, now);
        }
        if listed(statuses, Status::Finished) {
            self.evict_in(Status::Finished, max_age, now);
        }
        if listed(statuses, Status::Error) {
            self.evict_in(Status::Error, max_age, now);
        }
        if listed(statuses, Status::Info) {
            self.evict_in(Status::Info, max_age, now);
        }
    }

    /// Renames every task with id `key` in status `s`.
    fn rename_in(&mut self, s: Status, key: i32, name: &String)
        ensures
            final(self).bucket(s).len() == old(self).bucket(s).len(),
            forall|i: int|
                0 <= i < old(self).bucket(s).len() ==> is_renaming_of(
                    #[trigger] final(self).bucket(s)[i],
                    old(self).bucket(s)[i],
                    key,
                    name@,
                ),
            forall|o: Status| o != s ==> #[trigger] final(self).bucket(o) == old(self).bucket(o),
    {
        let v = self.take(s);
        let ghost all = v@;
        let mut out: Vec<Task> = Vec::new();
        for t in it: v
            invariant
                it.seq() == all,
                out@.len() == it.index(),
                forall|j: int|
                    0 <= j < it.index() ==> is_renaming_of(#[trigger] out@[j], all[j], key, name@),
        {
            let mut t = t;
            if t.key == key {
                t.display_name = Some(name.clone());
            }
            out.push(t);
        }
        self.put(s, out);
    }

    /// Sets the display name of every task with id `key`.
    pub fn set_display_name(&mut self, key: i32, display_name: String)
        ensures
            forall|s: Status| #[trigger] final(self).bucket(s).len() == old(self).bucket(s).len(),
            forall|s: Status, i: int|
                0 <= i < old(self).bucket(s).len() ==> is_renaming_of(
                    #[trigger] final(self).bucket(s)[i],
                    old(self).bucket(s)[i],
                    key,
                    display_name@,
                ),
    {
        let ghost before = *self;
        self.rename_in(Status::Queued, key, &display_name);
        self.rename_in(Status::Started, key, &display_name);
        self.rename_in(Status::Finished, key, &display_name);
        self.rename_in(Status::Error, key, &display_name);
        self.rename_in(Status::Info, key, &display_name);
        assert forall|s: Status, i: int|
            0 <= i < before.bucket(s).len() implies is_renaming_of(
            #[trigger] self.bucket(s)[i],
            before.bucket(s)[i],
            key,
            display_name@,
        ) by {
            match s {
                Status::Queued => {},
                Status::Started => {},
                Status::Finished => {},
                Status::Error => {},
                Status::Info => {},
            }
        }
    }
}

} // verus!
