use cli_status_board::internal_state::InternalState;
use cli_status_board::{Status, TaskEvent};

const ALL: [Status; 5] = [Status::Queued, Status::Started, Status::Finished, Status::Error, Status::Info];

fn keys(st: &InternalState, s: Status) -> Vec<i32> {
    match st.tasks_in(s) {
        Some(v) => v.iter().map(|t| t.key).collect(),
        None => Vec::new(),
    }
}

fn times(st: &InternalState, s: Status) -> Vec<u64> {
    match st.tasks_in(s) {
        Some(v) => v.iter().map(|t| t.time).collect(),
        None => Vec::new(),
    }
}

fn name(st: &InternalState, s: Status, i: usize) -> Option<String> {
    st.tasks_in(s).unwrap()[i].display_name.clone()
}

fn snapshot(st: &InternalState) -> Vec<(Vec<i32>, Vec<u64>)> {
    ALL.iter().map(|s| (keys(st, *s), times(st, *s))).collect()
}

fn buckets_holding(st: &InternalState, key: i32) -> usize {
    ALL.iter().map(|s| keys(st, *s).iter().filter(|k| **k == key).count()).sum()
}

#[test]
fn add_appends_in_arrival_order() {
    let mut st = InternalState::new();
    st.add_task(1, Some("a".to_string()), Status::Started, 5);
    st.add_task(2, None, Status::Started, 6);
    assert_eq!(keys(&st, Status::Started), vec![1, 2]);
    assert_eq!(times(&st, Status::Started), vec![5, 6]);
    assert_eq!(st.count(Status::Started), 2);
    assert_eq!(st.count(Status::Queued), 0);
    assert!(st.tasks_in(Status::Queued).is_none() || keys(&st, Status::Queued).is_empty());
}

#[test]
fn update_moves_and_restamps() {
    let mut st = InternalState::new();
    st.add_task(1, Some("a".to_string()), Status::Queued, 0);
    st.add_task(2, Some("b".to_string()), Status::Finished, 0);
    st.update_task(1, Status::Finished, 7);
    assert_eq!(keys(&st, Status::Queued), Vec::<i32>::new());
    assert_eq!(keys(&st, Status::Finished), vec![2, 1]);
    assert_eq!(times(&st, Status::Finished), vec![0, 7]);
    assert_eq!(name(&st, Status::Finished, 1), Some("a".to_string()));
}

#[test]
fn update_of_missing_task_is_a_no_op() {
    let mut st = InternalState::new();
    st.add_task(1, None, Status::Queued, 0);
    st.update_task(99, Status::Finished, 3);
    assert_eq!(keys(&st, Status::Queued), vec![1]);
    assert_eq!(keys(&st, Status::Finished), Vec::<i32>::new());
}

#[test]
fn update_twice_equals_update_once() {
    let mut st = InternalState::new();
    st.add_task(1, None, Status::Queued, 0);
    st.add_task(2, None, Status::Started, 0);
    st.update_task(1, Status::Started, 10);
    let once = snapshot(&st);
    st.update_task(1, Status::Started, 20);
    assert_eq!(snapshot(&st), once);
    assert_eq!(keys(&st, Status::Started), vec![2, 1]);
    assert_eq!(times(&st, Status::Started), vec![0, 10]);
}

#[test]
fn update_keeps_sub_tasks() {
    let mut st = InternalState::new();
    st.add_task(1, None, Status::Started, 0);
    st.add_subtask(1, 10, None, Status::Finished, 0);
    st.update_task(1, Status::Finished, 4);
    let moved = &st.tasks_in(Status::Finished).unwrap()[0];
    assert_eq!(moved.num_substate_finished(), 1);
    assert_eq!(moved.completion(), Some((1, 1)));
}

#[test]
fn delete_spares_terminal_tasks() {
    let mut st = InternalState::new();
    st.add_task(1, None, Status::Started, 0);
    st.add_task(2, None, Status::Error, 0);
    st.add_task(3, None, Status::Queued, 0);
    st.delete_task(1);
    st.delete_task(2);
    assert_eq!(keys(&st, Status::Started), Vec::<i32>::new());
    assert_eq!(keys(&st, Status::Error), vec![2]);
    assert_eq!(keys(&st, Status::Queued), vec![3]);
}

#[test]
fn rename_sets_the_display_name() {
    let mut st = InternalState::new();
    st.add_task(1, None, Status::Started, 0);
    st.add_task(2, Some("keep".to_string()), Status::Started, 0);
    st.set_display_name(1, "renamed".to_string());
    assert_eq!(name(&st, Status::Started, 0), Some("renamed".to_string()));
    assert_eq!(name(&st, Status::Started, 1), Some("keep".to_string()));
}

#[test]
fn completion_counts_finished_out_of_units_of_work() {
    let mut st = InternalState::new();
    st.add_task(1, None, Status::Started, 0);
    for sub in 10..14 {
        st.add_subtask(1, sub, None, Status::Started, 0);
    }
    st.add_subtask(1, 20, None, Status::Error, 0);
    st.update_subtask(1, 10, Status::Finished, 1);
    let task = &st.tasks_in(Status::Started).unwrap()[0];
    assert_eq!(task.num_substate_total(), 4);
    assert_eq!(task.num_substate_finished(), 1);
    assert_eq!(task.completion(), Some((1, 4)));
}

#[test]
fn task_without_sub_tasks_has_no_completion() {
    let mut st = InternalState::new();
    st.add_task(1, None, Status::Started, 0);
    assert_eq!(st.tasks_in(Status::Started).unwrap()[0].completion(), None);
}

#[test]
fn sub_task_of_missing_parent_is_dropped() {
    let mut st = InternalState::new();
    st.add_task(1, None, Status::Started, 0);
    st.add_subtask(2, 10, None, Status::Started, 0);
    assert_eq!(st.tasks_in(Status::Started).unwrap()[0].completion(), None);
}

#[test]
fn eviction_drops_aged_errors_but_never_finished() {
    let mut st = InternalState::new();
    st.add_task(1, None, Status::Error, 0);
    st.add_task(2, None, Status::Finished, 0);
    st.add_task(3, None, Status::Info, 5_000);
    st.add_task(4, None, Status::Info, 0);
    st.clear_old_entries(10_000, &[Status::Error, Status::Info], 10_001);
    assert_eq!(keys(&st, Status::Error), Vec::<i32>::new());
    assert_eq!(keys(&st, Status::Info), vec![3]);
    assert_eq!(keys(&st, Status::Finished), vec![2]);
}

#[test]
fn total_counts_started_queued_and_finished() {
    let mut st = InternalState::new();
    st.add_task(1, None, Status::Started, 0);
    st.add_task(2, None, Status::Queued, 0);
    st.add_task(3, None, Status::Finished, 0);
    st.add_task(4, None, Status::Error, 0);
    st.add_task(5, None, Status::Info, 0);
    assert_eq!(st.get_total(), 3);
}

#[test]
fn every_id_stays_in_exactly_one_status() {
    let mut st = InternalState::new();
    let events = vec![
        TaskEvent::AddTask(1, Some("a".to_string()), Status::Queued),
        TaskEvent::AddTask(2, Some("b".to_string()), Status::Started),
        TaskEvent::UpdateTask(1, Status::Started),
        TaskEvent::UpdateTask(2, Status::Finished),
        TaskEvent::AddSubTask(1, 3, None, Status::Started),
        TaskEvent::UpdateSubTask(1, 3, Status::Finished),
        TaskEvent::SetTaskDisplayName(2, "bee".to_string()),
        TaskEvent::UpdateTask(1, Status::Error),
        TaskEvent::DeleteTask(1),
        TaskEvent::UpdateTask(2, Status::Finished),
    ];
    for (i, e) in events.into_iter().enumerate() {
        st.apply_event(e, i as u64);
        assert_eq!(buckets_holding(&st, 1), 1);
        assert_eq!(buckets_holding(&st, 2), if i == 0 { 0 } else { 1 });
    }
    assert_eq!(keys(&st, Status::Error), vec![1]);
    assert_eq!(keys(&st, Status::Finished), vec![2]);
    assert_eq!(name(&st, Status::Finished, 0), Some("bee".to_string()));
    assert_eq!(buckets_holding(&st, 3), 0);
}

#[test]
fn eviction_keeps_a_task_exactly_at_the_max_age() {
    let mut st = InternalState::new();
    st.add_task(1, None, Status::Error, 0);
    st.clear_old_entries(10_000, &[Status::Error], 10_000);
    assert_eq!(keys(&st, Status::Error), vec![1]);
    st.clear_old_entries(10_000, &[Status::Error], 10_001);
    assert_eq!(keys(&st, Status::Error), Vec::<i32>::new());
}
