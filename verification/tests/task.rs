use todors::task::{add_task, TodoStruct};

fn is_printed_date(d: &str) -> bool {
    d.len() >= 10 && d.chars().all(|c| c.is_ascii_digit() || c == '-' || c == '+')
}

#[test]
fn new_task_is_trimmed_and_pending() {
    let task = add_task("  buy milk \n", "2025-01-01");
    assert_eq!(task.text, "buy milk");
    assert_eq!(task.date_added, "2025-01-01");
    assert!(!task.completed);
    assert_eq!(task.date_completed, "");
}

#[test]
fn new_task_of_white_space_has_no_text() {
    let task = add_task(" \t ", "2025-01-01");
    assert_eq!(task.text, "");
    assert_eq!(task.date_added, "2025-01-01");
}

#[test]
fn mark_completed_sets_the_day() {
    let mut task = add_task("a", "2025-01-01");
    task.mark_completed("2025-06-01");
    assert!(task.completed);
    assert_eq!(task.date_completed, "2025-06-01");
    assert_eq!(task.text, "a");
    assert_eq!(task.date_added, "2025-01-01");
}

#[test]
fn completed_takes_the_day_from_the_clock() {
    let mut task = add_task("a", "2025-01-01");
    task.completed();
    assert!(task.completed);
    assert!(is_printed_date(&task.date_completed));
    assert_eq!(task.text, "a");
    assert_eq!(task.date_added, "2025-01-01");
}

#[test]
fn not_completed_forgets_the_day() {
    let mut task = add_task("a", "2025-01-01");
    task.mark_completed("2025-06-01");
    task.not_completed();
    assert_eq!(task, add_task("a", "2025-01-01"));
}

#[test]
fn clear_gives_the_blank_task() {
    let mut task = add_task("a", "2025-01-01");
    task.mark_completed("2025-06-01");
    task.clear();
    assert_eq!(task, TodoStruct::default());
    assert_eq!(task.text, "");
    assert_eq!(task.date_added, "");
    assert!(!task.completed);
    assert_eq!(task.date_completed, "");
}

#[test]
fn clone_is_equal() {
    let mut task = add_task("a", "2025-01-01");
    task.mark_completed("2025-06-01");
    assert_eq!(task.clone(), task);
}

#[test]
fn completion_day_has_the_calendar_form() {
    let mut task = add_task("a", "2025-01-01");
    task.completed();
    let date = task.date_completed;
    assert_eq!(date.len(), 10);
    assert_eq!(&date[4..5], "-");
    assert_eq!(&date[7..8], "-");
    assert!(date[0..4].chars().all(|c| c.is_ascii_digit()));
    assert!(date[5..7].chars().all(|c| c.is_ascii_digit()));
    assert!(date[8..10].chars().all(|c| c.is_ascii_digit()));
}
