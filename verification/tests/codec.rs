use todors::codec::{
    format_done_line, format_todo_line, load_dones, load_todos, parse_done_line, parse_todo_line,
    save_dones, save_todos,
};
use todors::task::TodoStruct;

fn pending(text: &str, date_added: &str) -> TodoStruct {
    TodoStruct {
        text: text.to_string(),
        date_added: date_added.to_string(),
        completed: false,
        date_completed: String::new(),
    }
}

fn done(text: &str, date_added: &str, date_completed: &str) -> TodoStruct {
    TodoStruct {
        text: text.to_string(),
        date_added: date_added.to_string(),
        completed: true,
        date_completed: date_completed.to_string(),
    }
}

#[test]
fn malformed_line_is_skipped() {
    let tasks = load_todos("# TODOs\nnot a todo line\n- (2025-01-01) buy milk\n");
    assert_eq!(tasks, vec![pending("buy milk", "2025-01-01")]);
}

#[test]
fn lines_before_the_header_are_ignored() {
    let tasks = load_todos("- (2025-01-01) ignored\n# TODOs\n- (2025-01-02) counted");
    assert_eq!(tasks.len(), 1);
    assert_eq!(tasks[0].date_added, "2025-01-02");
    assert_eq!(tasks[0].text, "counted");
}

#[test]
fn pending_line_without_text_is_no_task() {
    assert_eq!(load_todos("# TODOs\n- (2025-01-01) \n"), vec![]);
    assert_eq!(parse_todo_line("- (2025-01-01) "), None);
    assert_eq!(parse_todo_line("- (2025-01-01)"), None);
}

#[test]
fn empty_text_holds_no_tasks() {
    assert_eq!(load_todos(""), vec![]);
    assert_eq!(load_dones(""), vec![]);
}

#[test]
fn pending_round_trip() {
    let tasks = vec![
        pending("buy milk", "2025-01-01"),
        pending("call (the) plumber, again", "2025-02-03"),
        pending("z", "2024-12-31"),
    ];
    let text = save_todos(&tasks);
    assert_eq!(
        text,
        "# TODOs\n- (2025-01-01) buy milk\n- (2025-02-03) call (the) plumber, again\n- (2024-12-31) z\n"
    );
    assert_eq!(load_todos(&text), tasks);
}

#[test]
fn done_round_trip() {
    let tasks = vec![
        done("buy milk", "2025-01-01", "2025-01-02"),
        done("write, then (re)read", "2025-02-03", "2025-03-04"),
    ];
    let text = save_dones(&tasks);
    assert_eq!(
        text,
        "# DONEs\n- DONE (Completed 2025-01-02, Added 2025-01-01) buy milk\n- DONE (Completed 2025-03-04, Added 2025-02-03) write, then (re)read\n"
    );
    assert_eq!(load_dones(&text), tasks);
}

#[test]
fn done_line_fields() {
    let task = parse_done_line("  - DONE (Completed 2025-05-10, Added 2025-05-09) my task  ");
    assert_eq!(task, Some(done("my task", "2025-05-09", "2025-05-10")));
}

#[test]
fn done_line_with_empty_added_date_is_skipped() {
    assert_eq!(parse_done_line("- DONE (Completed 2025-05-10, Added ) my task"), None);
}

#[test]
fn done_line_without_added_is_skipped() {
    assert_eq!(parse_done_line("- DONE (Completed 2025-05-10) my task"), None);
    assert_eq!(parse_done_line("- DONE (Completed 2025-05-10) x, Added 2025-05-09) y"), None);
}

#[test]
fn pending_line_fields_are_trimmed() {
    let task = parse_todo_line("\t- ( 2025-05-11 )   water the plants \r");
    assert_eq!(task, Some(pending("water the plants", "2025-05-11")));
}

#[test]
fn pending_text_starts_two_after_the_first_close() {
    let task = parse_todo_line("- (a)b) c");
    assert_eq!(task, Some(pending(") c", "a")));
}

#[test]
fn pending_line_needs_close_and_space() {
    assert_eq!(parse_todo_line("- (2025-01-01)buy milk"), None);
    assert_eq!(parse_todo_line("-(2025-01-01) buy milk"), None);
}

#[test]
fn lines_of_the_other_list_are_no_records() {
    assert_eq!(load_todos("# DONEs\n- (2025-01-01) a\n"), vec![]);
    assert_eq!(load_dones("# DONEs\n- (2025-01-01) a\n"), vec![]);
    assert_eq!(
        load_dones("# TODOs\n- DONE (Completed 2025-01-02, Added 2025-01-01) a\n"),
        vec![]
    );
}

#[test]
fn header_may_be_indented_and_repeated() {
    let tasks = load_todos("  # TODOs \r\n- (2025-01-01) a\r\n# TODOs\n- (2025-01-02) b");
    assert_eq!(tasks, vec![pending("a", "2025-01-01"), pending("b", "2025-01-02")]);
}

#[test]
fn formatted_lines() {
    assert_eq!(format_todo_line(&pending("buy milk", "2025-01-01")), "- (2025-01-01) buy milk");
    assert_eq!(
        format_done_line(&done("buy milk", "2025-01-01", "2025-01-02")),
        "- DONE (Completed 2025-01-02, Added 2025-01-01) buy milk"
    );
}

#[test]
fn text_beyond_ascii_is_kept() {
    let tasks = vec![pending("café ☕ straße", "2025-01-01")];
    assert_eq!(load_todos(&save_todos(&tasks)), tasks);
    let task = parse_todo_line("\u{3000}- (2025-01-01) née\u{a0}");
    assert_eq!(task, Some(pending("née", "2025-01-01")));
}

#[test]
fn text_with_a_line_feed_does_not_come_back() {
    let tasks = vec![pending("a\nb", "2025-01-01")];
    assert_eq!(load_todos(&save_todos(&tasks)), vec![pending("a", "2025-01-01")]);
}

#[test]
fn loaded_texts_are_never_empty() {
    let text = "# TODOs\n- () \n- (x) \n- (x)  y\n- ( ) z\n- (x)\n";
    let tasks = load_todos(text);
    assert_eq!(tasks, vec![pending("y", "x"), pending("z", "")]);
    let text = "# DONEs\n- DONE (Completed a, Added b) \n- DONE (Completed a, Added b) c\n";
    assert_eq!(load_dones(text), vec![done("c", "b", "a")]);
}
