use cli_status_board::column::{ColumnFit, StyledText, TextColor};
use cli_status_board::{Board, BoardClosed, SBState, Status, TaskEvent};
use cli_status_board::state::{
    add_subtask_event, add_task_event, delete_event, rename_event, update_event,
    update_subtask_event,
};
use std::sync::mpsc::{channel, Receiver};

fn drain(board: &mut Board, rx: &Receiver<TaskEvent>, now: u64) -> usize {
    let mut n = 0;
    for event in rx.try_iter() {
        board.apply(event, now);
        n += 1;
    }
    n
}

fn names(board: &Board, s: Status) -> Vec<String> {
    match board.state().tasks_in(s) {
        Some(v) => v.iter().map(|t| t.display_name.clone().unwrap_or_default()).collect(),
        None => Vec::new(),
    }
}

fn texts(line: &[StyledText]) -> Vec<String> {
    line.iter().map(|s| s.text.clone()).collect()
}

fn joined(line: &[StyledText]) -> String {
    texts(line).concat()
}

#[test]
fn dropped_handle_finishes_its_task() {
    let (tx, rx) = channel();
    let state = SBState::new(tx);
    let mut board = Board::new();
    let handle = state.add_task("build", Status::Started).unwrap();
    drain(&mut board, &rx, 0);
    assert_eq!(names(&board, Status::Started), vec!["build".to_string()]);
    drop(handle);
    drain(&mut board, &rx, 1);
    assert_eq!(names(&board, Status::Started), Vec::<String>::new());
    assert_eq!(names(&board, Status::Finished), vec!["build".to_string()]);
}

#[test]
fn only_the_last_copy_of_a_handle_finishes() {
    let (tx, rx) = channel();
    let state = SBState::new(tx);
    let mut board = Board::new();
    let handle = state.add_task("shared", Status::Started).unwrap();
    let copy = handle.clone();
    drop(handle);
    drain(&mut board, &rx, 0);
    assert_eq!(names(&board, Status::Started), vec!["shared".to_string()]);
    drop(copy);
    assert_eq!(drain(&mut board, &rx, 1), 1);
    assert_eq!(names(&board, Status::Finished), vec!["shared".to_string()]);
}

#[test]
fn sub_task_handles_do_not_finish_on_drop() {
    let (tx, rx) = channel();
    let state = SBState::new(tx);
    let mut board = Board::new();
    let parent = state.add_task("parent", Status::Started).unwrap();
    let sub = state.add_subtask(&parent, Status::Started).unwrap();
    drop(sub);
    drain(&mut board, &rx, 0);
    let task = &board.state().tasks_in(Status::Started).unwrap()[0];
    assert_eq!(task.completion(), Some((0, 1)));
    let sub = state.add_subtask(&parent, Status::Started).unwrap();
    state.update_subtask(&parent, &sub, Status::Finished).unwrap();
    drain(&mut board, &rx, 1);
    let task = &board.state().tasks_in(Status::Started).unwrap()[0];
    assert_eq!(task.completion(), Some((1, 2)));
}

#[test]
fn facade_events_reach_the_board() {
    let (tx, rx) = channel();
    let state = SBState::new(tx);
    let mut board = Board::new();
    let a = state.add_task("a", Status::Queued).unwrap();
    state.update_task(&a, Status::Started).unwrap();
    state.set_task_display_name(&a, "renamed".to_string()).unwrap();
    state.error("bad thing").unwrap();
    state.info("note").unwrap();
    drain(&mut board, &rx, 0);
    assert_eq!(names(&board, Status::Started), vec!["renamed".to_string()]);
    assert_eq!(names(&board, Status::Error), vec!["bad thing".to_string()]);
    assert_eq!(names(&board, Status::Info), vec!["note".to_string()]);
    state.delete_task(&a).unwrap();
    drain(&mut board, &rx, 1);
    assert_eq!(names(&board, Status::Started), Vec::<String>::new());
}

#[test]
fn closed_board_is_reported() {
    let (tx, rx) = channel();
    let state = SBState::new(tx);
    let a = state.add_task("a", Status::Started).unwrap();
    drop(rx);
    assert_eq!(state.update_task(&a, Status::Finished), Err(BoardClosed));
    assert!(state.add_task("b", Status::Started).is_err());
    assert_eq!(state.info("gone"), Err(BoardClosed));
}

#[test]
fn end_to_end_groups() {
    let mut board = Board::new();
    board.apply(TaskEvent::AddTask(1, Some("A".to_string()), Status::Finished), 0);
    board.apply(TaskEvent::AddTask(2, Some("B".to_string()), Status::Error), 0);
    board.apply(TaskEvent::AddTask(3, Some("C".to_string()), Status::Started), 0);
    board.apply(TaskEvent::AddTask(4, Some("D".to_string()), Status::Queued), 0);
    let lines = board.frame(Some((80, 24)), false, ColumnFit::MAX(40), 0).unwrap();
    let rendered: Vec<String> = lines.iter().map(|l| joined(l)).collect();
    assert_eq!(
        rendered,
        vec![
            "Finished tasks: 1 / 3".to_string(),
            "".to_string(),
            "Started (1):".to_string(),
            "    C      ".to_string(),
            "".to_string(),
            "Queued (1):".to_string(),
            "    D      ".to_string(),
            "".to_string(),
            "Error (1):".to_string(),
            "    B      ".to_string(),
        ]
    );
    assert_eq!(lines[0][1].color, TextColor::Green);
    assert_eq!(lines[3][0].color, TextColor::Green);
    assert_eq!(lines[6][0].color, TextColor::Yellow);
    assert_eq!(lines[9][0].color, TextColor::Red);
}

#[test]
fn rows_show_sub_task_progress() {
    let mut board = Board::new();
    board.apply(TaskEvent::AddTask(1, Some("job".to_string()), Status::Started), 0);
    board.apply(TaskEvent::AddSubTask(1, 2, None, Status::Finished), 0);
    board.apply(TaskEvent::AddSubTask(1, 3, None, Status::Started), 0);
    let lines = board.frame(Some((30, 10)), false, ColumnFit::MAX(15), 0).unwrap();
    assert_eq!(texts(&lines[3]), vec!["    job ", "   1 / ", "2 ", "======>"]);
}

#[test]
fn long_groups_are_cut_with_an_ellipsis_row() {
    let mut board = Board::new();
    for k in 0..12 {
        board.apply(TaskEvent::AddTask(k, None, Status::Queued), 0);
    }
    let lines = board.frame(Some((80, 24)), false, ColumnFit::MAX(40), 0).unwrap();
    assert_eq!(joined(&lines[2]), "Queued (12):");
    assert_eq!(lines.len(), 1 + 2 + 11);
    assert_eq!(texts(&lines[3])[0], "    0   ");
    assert_eq!(texts(&lines[13])[0], "    ... ");
}

#[test]
fn redraws_only_when_something_changed() {
    let mut board = Board::new();
    assert!(board.frame(Some((80, 24)), false, ColumnFit::MAX(40), 0).is_some());
    assert!(board.frame(Some((80, 24)), false, ColumnFit::MAX(40), 1).is_none());
    assert!(board.frame(Some((100, 24)), false, ColumnFit::MAX(40), 2).is_some());
    board.apply(TaskEvent::AddTask(1, None, Status::Started), 3);
    assert!(board.frame(None, false, ColumnFit::MAX(40), 4).is_none());
    board.apply(TaskEvent::AddTask(2, None, Status::Started), 5);
    assert!(board.frame(Some((100, 24)), true, ColumnFit::MAX(40), 6).is_none());
}

#[test]
fn aged_errors_leave_the_next_render() {
    let mut board = Board::new();
    board.apply(TaskEvent::AddTask(1, Some("old".to_string()), Status::Error), 0);
    board.apply(TaskEvent::AddTask(2, Some("done".to_string()), Status::Finished), 0);
    let lines = board.frame(Some((80, 24)), false, ColumnFit::MAX(40), 1).unwrap();
    assert_eq!(joined(&lines[2]), "Error (1):");
    board.apply(TaskEvent::UpdateTask(2, Status::Finished), 20_000);
    let lines = board.frame(Some((80, 24)), false, ColumnFit::MAX(40), 20_000).unwrap();
    assert_eq!(lines.len(), 1);
    assert_eq!(joined(&lines[0]), "Finished tasks: 1 / 1");
    assert_eq!(names(&board, Status::Finished), vec!["done".to_string()]);
}

#[test]
fn interleaved_producers_finish_every_task_once() {
    let (tx, rx) = channel();
    let state = SBState::new(tx);
    let mut board = Board::new();
    let producers: Vec<SBState> = (0..8).map(|_| state.clone()).collect();
    let mut handles = Vec::new();
    for (i, p) in producers.iter().enumerate() {
        handles.push(p.add_task(&format!("task {i}"), Status::Started).unwrap());
        if i % 3 == 0 {
            drain(&mut board, &rx, i as u64);
        }
    }
    while let Some(h) = handles.pop() {
        drop(h);
        if handles.len() % 2 == 0 {
            drain(&mut board, &rx, 100);
        }
    }
    drain(&mut board, &rx, 200);
    assert_eq!(board.state().count(Status::Finished), 8);
    assert_eq!(board.state().count(Status::Started), 0);
    let mut finished = names(&board, Status::Finished);
    finished.sort();
    finished.dedup();
    assert_eq!(finished.len(), 8);
}

#[test]
fn delivery_reports_a_gone_writer() {
    assert_eq!(cli_status_board::state::delivery(true), Ok(()));
    assert_eq!(cli_status_board::state::delivery(false), Err(BoardClosed));
}

#[test]
fn event_builders_make_the_named_events() {
    assert!(matches!(add_task_event(3, "x", Status::Queued),
        TaskEvent::AddTask(3, Some(ref n), Status::Queued) if n == "x"));
    assert!(matches!(rename_event(3, "y".to_string()),
        TaskEvent::SetTaskDisplayName(3, ref n) if n == "y"));
    assert!(matches!(update_event(4, Status::Finished), TaskEvent::UpdateTask(4, Status::Finished)));
    assert!(matches!(delete_event(5), TaskEvent::DeleteTask(5)));
    assert!(matches!(add_subtask_event(1, 2, Status::Started),
        TaskEvent::AddSubTask(1, 2, None, Status::Started)));
    assert!(matches!(update_subtask_event(1, 2, Status::Error),
        TaskEvent::UpdateSubTask(1, 2, Status::Error)));
}

#[test]
fn handles_name_the_tasks_they_registered() {
    let (tx, rx) = channel();
    let state = SBState::new(tx);
    let handle = state.add_task("job", Status::Started).unwrap();
    let sub = state.add_subtask(&handle, Status::Queued).unwrap();
    let events: Vec<TaskEvent> = rx.try_iter().collect();
    assert_eq!(events.len(), 2);
    assert!(matches!(events[0], TaskEvent::AddTask(k, _, Status::Started) if k == handle.id()));
    assert!(matches!(events[1],
        TaskEvent::AddSubTask(p, s, None, Status::Queued) if p == handle.id() && s == sub.id()));
    assert_ne!(handle.id(), sub.id());
}

#[test]
fn messages_return_weak_handles() {
    let (tx, rx) = channel();
    let state = SBState::new(tx);
    let mut board = Board::new();
    let note = state.info("note").unwrap();
    let err = state.error("oops").unwrap();
    assert_ne!(note.id(), err.id());
    drop(note);
    drop(err);
    assert_eq!(drain(&mut board, &rx, 0), 2);
    assert_eq!(names(&board, Status::Info), vec!["note".to_string()]);
    assert_eq!(names(&board, Status::Error), vec!["oops".to_string()]);
    assert_eq!(names(&board, Status::Finished), Vec::<String>::new());
}
