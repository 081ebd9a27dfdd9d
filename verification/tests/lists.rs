use todors::lists::TodoLists;
use todors::task::TodoStruct;

fn texts(tasks: &Vec<TodoStruct>) -> Vec<String> {
    tasks.iter().map(|t| t.text.clone()).collect()
}

#[test]
fn new_lists_are_empty() {
    let lists = TodoLists::new();
    assert!(lists.pending().is_empty());
    assert!(lists.done().is_empty());
}

#[test]
fn added_tasks_stand_newest_first() {
    let mut lists = TodoLists::new();
    lists.add_task("x", "2025-01-01");
    lists.add_task("y", "2025-01-02");
    lists.add_task("z", "2025-01-03");
    assert_eq!(texts(lists.pending()), vec!["z", "y", "x"]);
    assert!(lists.done().is_empty());
}

#[test]
fn toggle_moves_the_task_and_back() {
    let mut lists = TodoLists::new();
    lists.add_task("A", "2025-05-30");
    lists.toggle_done(0, true, "2025-06-01");
    assert!(lists.pending().is_empty());
    assert_eq!(lists.done().len(), 1);
    assert_eq!(lists.done()[0].text, "A");
    assert_eq!(lists.done()[0].date_added, "2025-05-30");
    assert!(lists.done()[0].completed);
    assert_eq!(lists.done()[0].date_completed, "2025-06-01");
    lists.toggle_done(0, false, "2025-07-01");
    assert!(lists.done().is_empty());
    assert_eq!(lists.pending().len(), 1);
    assert_eq!(lists.pending()[0].text, "A");
    assert_eq!(lists.pending()[0].date_added, "2025-05-30");
    assert!(!lists.pending()[0].completed);
    assert_eq!(lists.pending()[0].date_completed, "");
}

#[test]
fn toggle_takes_the_task_at_the_index() {
    let mut lists = TodoLists::new();
    lists.add_task("x", "2025-01-01");
    lists.add_task("y", "2025-01-02");
    lists.add_task("z", "2025-01-03");
    lists.toggle_done(1, true, "2025-02-01");
    lists.toggle_done(1, true, "2025-02-02");
    assert_eq!(texts(lists.pending()), vec!["z"]);
    assert_eq!(texts(lists.done()), vec!["x", "y"]);
    assert_eq!(lists.done()[0].date_completed, "2025-02-02");
    assert_eq!(lists.done()[1].date_completed, "2025-02-01");
    lists.toggle_done(1, false, "");
    assert_eq!(texts(lists.pending()), vec!["y", "z"]);
    assert_eq!(texts(lists.done()), vec!["x"]);
}

#[test]
fn lists_are_written_and_read_again() {
    let mut lists = TodoLists::new();
    lists.add_task("x", "2025-01-01");
    lists.add_task(" y ", "2025-01-02");
    lists.add_task("z", "2025-01-03");
    lists.toggle_done(2, true, "2025-02-01");
    let (pending_text, done_text) = lists.persist_all();
    assert_eq!(pending_text, "# TODOs\n- (2025-01-03) z\n- (2025-01-02) y\n");
    assert_eq!(done_text, "# DONEs\n- DONE (Completed 2025-02-01, Added 2025-01-01) x\n");
    assert_eq!(TodoLists::load_all(Some(&pending_text), Some(&done_text)), lists);
}

#[test]
fn empty_lists_are_written_as_headers() {
    let (pending_text, done_text) = TodoLists::new().persist_all();
    assert_eq!(pending_text, "# TODOs\n");
    assert_eq!(done_text, "# DONEs\n");
    assert_eq!(TodoLists::load_all(Some(&pending_text), Some(&done_text)), TodoLists::new());
}

#[test]
fn lists_never_written_are_empty() {
    assert_eq!(TodoLists::load_all(None, None), TodoLists::new());
    assert_eq!(TodoLists::load_all(Some(""), Some("")), TodoLists::new());
}

#[test]
fn one_list_may_be_missing() {
    let lists = TodoLists::load_all(Some("# TODOs\n- (2025-01-03) z\n"), None);
    assert_eq!(lists.pending().len(), 1);
    assert!(lists.done().is_empty());
    let lists = TodoLists::load_all(
        None,
        Some("# DONEs\n- DONE (Completed 2025-02-01, Added 2025-01-01) x\n"),
    );
    assert!(lists.pending().is_empty());
    assert_eq!(lists.done().len(), 1);
}

#[test]
fn loaded_tasks_have_the_state_of_their_list() {
    let lists = TodoLists::load_all(
        Some("# TODOs\n- (2025-01-03) z\n"),
        Some("# DONEs\n- DONE (Completed 2025-02-01, Added 2025-01-01) x\n"),
    );
    assert!(!lists.pending()[0].completed);
    assert_eq!(lists.pending()[0].date_completed, "");
    assert!(lists.done()[0].completed);
    assert_eq!(lists.done()[0].date_completed, "2025-02-01");
}

#[test]
fn clock_variants_write_a_printed_date() {
    let mut lists = TodoLists::new();
    lists.add_task_now("  a ");
    assert_eq!(lists.pending()[0].text, "a");
    let added = lists.pending()[0].date_added.clone();
    assert!(added.len() >= 10);
    assert!(added.chars().all(|c| c.is_ascii_digit() || c == '-' || c == '+'));
    lists.toggle_done_now(0, true);
    assert!(lists.pending().is_empty());
    assert!(lists.done()[0].completed);
    assert!(lists.done()[0].date_completed.len() >= 10);
    assert_eq!(lists.done()[0].date_added, added);
    lists.toggle_done_now(0, false);
    assert!(lists.done().is_empty());
    assert_eq!(lists.pending()[0].date_completed, "");
    let (pending_text, done_text) = lists.persist_all();
    assert_eq!(TodoLists::load_all(Some(&pending_text), Some(&done_text)), lists);
}
