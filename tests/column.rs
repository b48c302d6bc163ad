use cli_status_board::column::{Column, ColumnAlign, ColumnConfig, ColumnFit, StyledText, TextColor};
use cli_status_board::paint::{paint, paint_line};
use cli_status_board::render::{header_of, progress_bar};
use cli_status_board::task_id::TaskId;
use cli_status_board::Status;
use std::sync::atomic::AtomicI32;

fn config(align: ColumnAlign, fit: ColumnFit, left: usize, right: usize) -> ColumnConfig {
    ColumnConfig { align, fit, left_padding: left, right_padding: right }
}

fn plain(s: &str) -> StyledText {
    StyledText::plain(s.to_string())
}

#[test]
fn max_width_truncates_with_ellipsis() {
    let mut c = Column::new(config(ColumnAlign::LEFT, ColumnFit::MAX(10), 0, 0));
    c.push(plain("hello world!"));
    let row = c.to_string(0);
    assert_eq!(row, "hello w...");
    assert_eq!(row.chars().count(), 10);
    assert!(row.ends_with("..."));
}

#[test]
fn max_width_counts_the_paddings() {
    let mut c = Column::new(config(ColumnAlign::LEFT, ColumnFit::MAX(10), 4, 1));
    c.push(plain("hello world"));
    assert_eq!(c.to_string(0), "    he... ");
    assert_eq!(c.line_len(), 10);
}

#[test]
fn max_width_keeps_short_text() {
    let mut c = Column::new(config(ColumnAlign::LEFT, ColumnFit::MAX(10), 0, 0));
    c.push(plain("short"));
    assert_eq!(c.to_string(0), "short");
}

#[test]
fn min_width_pads_to_exact_width() {
    let mut left = Column::new(config(ColumnAlign::LEFT, ColumnFit::MIN(8), 0, 0));
    left.push(plain("ab"));
    assert_eq!(left.to_string(0), "ab      ");
    let mut right = Column::new(config(ColumnAlign::RIGHT, ColumnFit::MIN(8), 0, 0));
    right.push(plain("ab"));
    assert_eq!(right.to_string(0), "      ab");
    assert_eq!(right.to_string(0).len(), 8);
}

#[test]
fn exact_width_truncates_or_pads() {
    let mut c = Column::new(config(ColumnAlign::LEFT, ColumnFit::EXACT(6), 0, 0));
    c.push(plain("abcdefgh"));
    c.push(plain("ab"));
    assert_eq!(c.to_string(0), "abc...");
    assert_eq!(c.to_string(1), "ab    ");
}

#[test]
fn rows_align_to_the_widest_entry() {
    let mut c = Column::new(config(ColumnAlign::RIGHT, ColumnFit::NORMAL, 1, 1));
    c.push(plain("a"));
    c.push(plain("abc"));
    assert_eq!(c.to_string(0), "   a ");
    assert_eq!(c.to_string(1), " abc ");
    assert_eq!(c.line_len(), 5);
    assert_eq!(c.len(), 2);
}

#[test]
fn missing_row_renders_empty() {
    let mut c = Column::new(config(ColumnAlign::LEFT, ColumnFit::NORMAL, 2, 2));
    c.push(plain("x"));
    assert_eq!(c.to_string(1), "");
    assert_eq!(c.to_wide_string(1, 20), "");
    assert_eq!(c.color(1), TextColor::Plain);
}

#[test]
fn colors_are_kept_per_row() {
    let mut c = Column::new(config(ColumnAlign::LEFT, ColumnFit::NORMAL, 0, 0));
    c.push(StyledText { text: "ok".to_string(), color: TextColor::Green });
    assert_eq!(c.color(0), TextColor::Green);
}

#[test]
fn wide_rendering_refits_the_original_text() {
    let mut c = Column::new(config(ColumnAlign::LEFT, ColumnFit::MAX(6), 2, 1));
    c.push(plain("abcdefghij"));
    assert_eq!(c.to_string(0), "  ... ");
    assert_eq!(c.to_wide_string(0, 8), "  ab... ");
    assert_eq!(c.to_wide_string(0, 20), "  abcdefghij        ");
    assert_eq!(c.to_wide_string(0, 2), "");
}

#[test]
fn emptiness_of_rows() {
    let mut c = Column::new(config(ColumnAlign::LEFT, ColumnFit::NORMAL, 0, 0));
    c.push(plain(""));
    c.push(plain("x"));
    assert!(c.is_empty(0));
    assert!(!c.is_empty(1));
    assert!(c.is_empty(2));
}

#[test]
fn progress_bar_rounds_to_nearest() {
    assert_eq!(progress_bar(1, 2, 10), "====>");
    assert_eq!(progress_bar(1, 3, 10), "==>");
    assert_eq!(progress_bar(2, 3, 10), "======>");
    assert_eq!(progress_bar(3, 3, 4), "===>");
    assert_eq!(progress_bar(0, 3, 10), "");
    assert_eq!(progress_bar(1, 1, 0), "");
}

#[test]
fn group_heading_shows_label_and_count() {
    assert_eq!(header_of(Status::Started, 3), "Started (3):");
    assert_eq!(header_of(Status::Error, 12), "Error (12):");
}

#[test]
fn task_ids_count_up_and_print_in_decimal() {
    let counter = AtomicI32::new(41);
    let a = TaskId::new(&counter);
    let b = TaskId::new(&counter);
    assert_eq!(a.id(), 42);
    assert_eq!(b.id(), 43);
    assert_eq!(a.to_string(), "42");
    assert!(a != b);
    assert!(a == a.make_weak());
    let negative = AtomicI32::new(-6);
    assert_eq!(TaskId::new(&negative).to_string(), "-5");
}

#[test]
fn status_terminality() {
    assert!(!Status::Queued.is_finished());
    assert!(!Status::Started.is_finished());
    assert!(Status::Finished.is_finished());
    assert!(Status::Error.is_finished());
    assert!(Status::Info.is_finished());
}

#[test]
fn painted_segments_carry_escape_codes_when_colors_are_on() {
    colored::control::set_override(true);
    let green = StyledText { text: "ok".to_string(), color: TextColor::Green };
    let yellow = StyledText { text: "wait".to_string(), color: TextColor::Yellow };
    let red = StyledText { text: "bad".to_string(), color: TextColor::Red };
    assert_eq!(paint(&green), "\u{1b}[92mok\u{1b}[0m");
    assert_eq!(paint(&yellow), "\u{1b}[93mwait\u{1b}[0m");
    assert_eq!(paint(&red), "\u{1b}[91mbad\u{1b}[0m");
    assert_eq!(paint(&plain("as is")), "as is");
    colored::control::set_override(false);
    assert_eq!(paint(&green), "ok");
}

#[test]
fn plain_lines_are_joined_as_they_are() {
    let line = vec![plain("    C "), plain("    "), plain(" ")];
    assert_eq!(paint_line(&line), "    C      ");
}

#[test]
fn every_row_is_as_wide_as_the_line() {
    let mut c = Column::new(config(ColumnAlign::RIGHT, ColumnFit::NORMAL, 3, 1));
    c.push(plain("a"));
    c.push(plain("abcdef"));
    c.push(plain(""));
    for row in 0..3 {
        assert_eq!(c.to_string(row).chars().count(), c.line_len());
    }
    assert_eq!(c.line_len(), 10);
}
