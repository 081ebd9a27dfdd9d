//! The text format of the two lists: one header line, then one line per
//! task. Reading is tolerant: everything before the header and every line
//! that is not a record is passed over.

use vstd::prelude::*;
use vstd::slice::slice_subrange;
use crate::task::{TaskView, TodoStruct};
use crate::text::{
    chars_of, contains, find, find_from, find_in, index_in, index_of, is_trimmed, lemma_find_from,
    lemma_trim_bounds, lemma_trim_keeps_last, matches_at, starts_with, string_of, trim,
    trim_bounds, trimmed,
};

verus! {

/// Which of the two lists a text belongs to.
#[derive(Clone, Copy, Debug, PartialEq, Eq)]
pub enum ListKind {
    Pending,
    Done,
}

/// The header line of a list's text.
pub open spec fn header(kind: ListKind) -> Seq<char> {
    match kind {
        ListKind::Pending => "# TODOs"@,
        ListKind::Done => "# DONEs"@,
    }
}

/// The record that a line of the pending list holds, if it holds one.
///
/// The trimmed line begins with `- (` and holds `) ` somewhere. The date is
/// what stands between the opening parenthesis and the first `)`, the text
/// what follows the character after that `)`; both are trimmed. A line on
/// which nothing follows is no record.
pub open spec fn pending_record(line: Seq<char>) -> Option<TaskView> {
    let t = trim(line);
    let lead = "- ("@;
    if starts_with(t, lead) && contains(t, ") "@) {
        match index_of(t, ')') {
            Some(close) if close + 2 < t.len() => Some(
                TaskView {
                    text: trim(t.skip(close + 2)),
                    date_added: trim(t.subrange(lead.len() as int, close)),
                    completed: false,
                    date_completed: Seq::empty(),
                },
            ),
            _ => None,
        }
    } else {
        None
    }
}

/// The record that a line of the done list holds, if it holds one.
///
/// The trimmed line begins with `- DONE (Completed ` and is split at its
/// first `) `: the text is what follows, and the part up to and including
/// that `)` holds the two dates. The completion date runs from the end of
/// the opening words to the first comma, the date added from the end of the
/// first `, Added ` to the closing parenthesis, and this last stretch must
/// not be empty. All three are trimmed.
pub open spec fn done_record(line: Seq<char>) -> Option<TaskView> {
    let t = trim(line);
    let lead = "- DONE (Completed "@;
    let mid = ", Added "@;
    if starts_with(t, lead) {
        match find(t, ") "@) {
            Some(split) => {
                let meta = t.take(split + 1);
                match (find_from(meta, seq![','], lead.len() as int), find(meta, mid)) {
                    (Some(comma), Some(added)) if added + mid.len() < split => Some(
                        TaskView {
                            text: trim(t.skip(split + 2)),
                            date_added: trim(meta.subrange(added + mid.len(), split)),
                            completed: true,
                            date_completed: trim(meta.subrange(lead.len() as int, comma)),
                        },
                    ),
                    _ => None,
                }
            },
            None => None,
        }
    } else {
        None
    }
}

/// The record that a line of the list `kind` holds, if it holds one.
pub open spec fn record(kind: ListKind, line: Seq<char>) -> Option<TaskView> {
    match kind {
        ListKind::Pending => pending_record(line),
        ListKind::Done => done_record(line),
    }
}

/// What every record of the list `kind` has: a text that is not empty, no
/// white space round the text or the dates, and the state that the list
/// stands for, with no completion date while pending.
pub open spec fn is_record_of(kind: ListKind, t: TaskView) -> bool {
    &&& t.text.len() > 0
    &&& is_trimmed(t.text)
    &&& is_trimmed(t.date_added)
    &&& is_trimmed(t.date_completed)
    &&& match kind {
        ListKind::Pending => !t.completed && t.date_completed.len() == 0,
        ListKind::Done => t.completed,
    }
}

/// No line yields a task without text, whatever the line holds; and what it
/// yields is trimmed and in the state of its list.
pub proof fn lemma_record_shape(kind: ListKind, line: Seq<char>)
    ensures
        record(kind, line) matches Some(t) ==> is_record_of(kind, t),
{
    let t = trim(line);
    lemma_trim_bounds(line);
    match kind {
        ListKind::Pending => {
            if let Some(task) = pending_record(line) {
                let close = index_of(t, ')')->0;
                lemma_find_from(t, seq![')'], 0);
                let rest = t.skip(close + 2);
                assert(rest.last() == t.last());
                lemma_trim_keeps_last(rest);
                lemma_trim_bounds(rest);
                lemma_trim_bounds(t.subrange("- ("@.len() as int, close));
            }
        },
        ListKind::Done => {
            if let Some(task) = done_record(line) {
                reveal_strlit(") ");
                let lead = "- DONE (Completed "@;
                let mid = ", Added "@;
                let split = find(t, ") "@)->0;
                lemma_find_from(t, ") "@, 0);
                assert(t.subrange(split, split + 2)[1] == t[split + 1]);
                assert(t[split + 1] == ' ');
                let meta = t.take(split + 1);
                let comma = find_from(meta, seq![','], lead.len() as int)->0;
                let added = find(meta, mid)->0;
                lemma_find_from(meta, mid, 0);
                let rest = t.skip(split + 2);
                assert(rest.last() == t.last());
                lemma_trim_keeps_last(rest);
                lemma_trim_bounds(rest);
                lemma_trim_bounds(meta.subrange(added + mid.len(), split));
                lemma_trim_bounds(meta.subrange(lead.len() as int, comma));
            }
        },
    }
}

/// The values of the tasks in `tasks`, in order.
pub open spec fn views(tasks: Seq<TodoStruct>) -> Seq<TaskView> {
    tasks.map_values(|t: TodoStruct| t@)
}

/// The value of an optional task.
pub open spec fn option_view(task: Option<TodoStruct>) -> Option<TaskView> {
    match task {
        Some(t) => Some(t@),
        None => None,
    }
}

/// Reads one line of the pending list, given as its characters.
fn read_pending(line: &[char]) -> (r: Option<TodoStruct>)
    ensures
        option_view(r) == pending_record(line@),
{
    let t = trimmed(line);
    let lead = chars_of("- (");
    let close_space = chars_of(") ");
    if !matches_at(t, lead.as_slice(), 0) {
        return None;
    }
    if find_in(t, close_space.as_slice(), 0).is_none() {
        return None;
    }
    match index_in(t, ')', 0) {
        Some(close) => {
            proof {
                reveal_strlit("- (");
                if close < 3 {
                    assert(t@.subrange(0, 3)[close as int] == t@[close as int]);
                }
            }
            if t.len() - close > 2 {
                let date = string_of(trimmed(slice_subrange(t, lead.len(), close)));
                let text = string_of(trimmed(slice_subrange(t, close + 2, t.len())));
                assert(t@.subrange(close + 2, t@.len() as int) =~= t@.skip(close + 2));
                Some(
                    TodoStruct {
                        text,
                        date_added: date,
                        completed: false,
                        date_completed: String::new(),
                    },
                )
            } else {
                None
            }
        },
        None => None,
    }
}

/// Reads one line of the done list, given as its characters.
fn read_done(line: &[char]) -> (r: Option<TodoStruct>)
    ensures
        option_view(r) == done_record(line@),
{
    let t = trimmed(line);
    let lead = chars_of("- DONE (Completed ");
    let mid = chars_of(", Added ");
    let close_space = chars_of(") ");
    if !matches_at(t, lead.as_slice(), 0) {
        return None;
    }
    proof {
        reveal_strlit(") ");
    }
    let split = match find_in(t, close_space.as_slice(), 0) {
        Some(split) => split,
        None => { return None; },
    };
    let n = t.len();
    let meta = slice_subrange(t, 0, split + 1);
    assert(meta@ =~= t@.take(split + 1));
    let comma = match index_in(meta, ',', lead.len()) {
        Some(comma) => comma,
        None => { return None; },
    };
    let added = match find_in(meta, mid.as_slice(), 0) {
        Some(added) => added,
        None => { return None; },
    };
    if added + mid.len() < split {
        let date_completed = string_of(trimmed(slice_subrange(meta, lead.len(), comma)));
        let date_added = string_of(trimmed(slice_subrange(meta, added + mid.len(), split)));
        let text = string_of(trimmed(slice_subrange(t, split + 2, n)));
        assert(t@.subrange(split + 2, n as int) =~= t@.skip(split + 2));
        Some(TodoStruct { text, date_added, completed: true, date_completed })
    } else {
        None
    }
}

/// The task that the line `line` of the pending list records, if any.
pub fn parse_todo_line(line: &str) -> (r: Option<TodoStruct>)
    ensures
        option_view(r) == pending_record(line@),
        r matches Some(task) ==> is_record_of(ListKind::Pending, task@),
{
    let chars = chars_of(line);
    proof {
        lemma_record_shape(ListKind::Pending, line@);
    }
    read_pending(chars.as_slice())
}

/// The task that the line `line` of the done list records, if any.
pub fn parse_done_line(line: &str) -> (r: Option<TodoStruct>)
    ensures
        option_view(r) == done_record(line@),
        r matches Some(task) ==> is_record_of(ListKind::Done, task@),
{
    let chars = chars_of(line);
    proof {
        lemma_record_shape(ListKind::Done, line@);
    }
    read_done(chars.as_slice())
}

/// The lines of `s`: the stretches between its line feeds.
pub open spec fn lines(s: Seq<char>) -> Seq<Seq<char>>
    decreases s.len(),
    via lines_decreases
{
    match index_of(s, '\n') {
        Some(i) => seq![s.take(i)] + lines(s.skip(i + 1)),
        None => seq![s],
    }
}

#[via_fn]
proof fn lines_decreases(s: Seq<char>) {
    lemma_find_from(s, seq!['\n'], 0);
}

/// The lines that follow the first line which, trimmed, is `head`; none
/// where no line is.
pub open spec fn after_header(ls: Seq<Seq<char>>, head: Seq<char>) -> Seq<Seq<char>>
    decreases ls.len(),
{
    if ls.len() == 0 {
        ls
    } else if trim(ls.first()) == head {
        ls.drop_first()
    } else {
        after_header(ls.drop_first(), head)
    }
}

/// The records of the list `kind` that the lines `ls` hold, in order.
pub open spec fn records(kind: ListKind, ls: Seq<Seq<char>>) -> Seq<TaskView>
    decreases ls.len(),
{
    if ls.len() == 0 {
        Seq::empty()
    } else {
        match record(kind, ls.first()) {
            Some(t) => seq![t] + records(kind, ls.drop_first()),
            None => records(kind, ls.drop_first()),
        }
    }
}

/// The tasks that the text `content` of the list `kind` holds: the records
/// on the lines after its header line, in the order of the lines.
pub open spec fn loaded(kind: ListKind, content: Seq<char>) -> Seq<TaskView> {
    records(kind, after_header(lines(content), header(kind)))
}

/// What is still to come of a text while it is read: the records of the
/// remaining lines once the header has been seen, and those after the
/// header before that.
spec fn to_come(kind: ListKind, rest: Seq<char>, seen: bool) -> Seq<TaskView> {
    if seen {
        records(kind, lines(rest))
    } else {
        records(kind, after_header(lines(rest), header(kind)))
    }
}

/// Reads the text of the list `kind`, line by line.
fn load(kind: ListKind, content: &str) -> (tasks: Vec<TodoStruct>)
    ensures
        views(tasks@) == loaded(kind, content@),
        forall|i: int| 0 <= i < tasks@.len() ==> is_record_of(kind, (#[trigger] tasks@[i])@),
{
    let chars = chars_of(content);
    let all = chars.as_slice();
    let n = all.len();
    let head = match kind {
        ListKind::Pending => chars_of("# TODOs"),
        ListKind::Done => chars_of("# DONEs"),
    };
    let mut tasks: Vec<TodoStruct> = Vec::new();
    let mut seen = false;
    let mut start: usize = 0;
    assert(all@.skip(0) =~= all@);
    assert(views(tasks@) =~= Seq::empty());
    loop
        invariant
            start <= n == all@.len(),
            all@ == content@,
            head@ == header(kind),
            loaded(kind, content@) == views(tasks@) + to_come(kind, all@.skip(start as int), seen),
            forall|i: int| 0 <= i < tasks@.len() ==> is_record_of(kind, (#[trigger] tasks@[i])@),
        decreases n - start,
    {
        let rest = slice_subrange(all, start, n);
        assert(rest@ =~= all@.skip(start as int));
        let end = match index_in(rest, '\n', 0) {
            Some(i) => i,
            None => rest.len(),
        };
        let line = slice_subrange(rest, 0, end);
        assert(line@ =~= rest@.take(end as int));
        let ghost before = views(tasks@);
        let ghost after = if end < rest@.len() {
            lines(rest@.skip(end + 1))
        } else {
            Seq::empty()
        };
        proof {
            if end == rest@.len() {
                assert(rest@.take(end as int) =~= rest@);
            }
            assert(lines(rest@) =~= seq![line@] + after);
            assert(lines(rest@).drop_first() =~= after);
        }
        if !seen {
            let (a, b) = trim_bounds(line);
            let t = slice_subrange(line, a, b);
            if t.len() == head.len() && matches_at(t, head.as_slice(), 0) {
                assert(t@.subrange(0, t@.len() as int) =~= t@);
                seen = true;
            } else {
                assert(t@ == head@ ==> t@.subrange(0, head@.len() as int) =~= head@);
            }
        } else {
            let found = match kind {
                ListKind::Pending => read_pending(line),
                ListKind::Done => read_done(line),
            };
            match found {
                Some(task) => {
                    proof {
                        lemma_record_shape(kind, line@);
                    }
                    tasks.push(task);
                    assert(views(tasks@) =~= before + seq![task@]);
                },
                None => {},
            }
        }
        if end == rest.len() {
            proof {
                assert(records(kind, after) =~= Seq::empty());
                assert(after_header(after, header(kind)) =~= after);
                assert(before + Seq::<TaskView>::empty() =~= before);
            }
            return tasks;
        }
        start = start + end + 1;
        assert(all@.skip(start as int) =~= rest@.skip(end + 1));
    }
}

/// The pending tasks that the text `content` holds, in the order of its
/// lines. Lines before the header `# TODOs` and lines that are no records
/// are passed over; the empty text holds no tasks.
pub fn load_todos(content: &str) -> (tasks: Vec<TodoStruct>)
    ensures
        views(tasks@) == loaded(ListKind::Pending, content@),
        forall|i: int|
            0 <= i < tasks@.len() ==> is_record_of(ListKind::Pending, (#[trigger] tasks@[i])@),
{
    load(ListKind::Pending, content)
}

/// The done tasks that the text `content` holds, in the order of its lines.
/// Lines before the header `# DONEs` and lines that are no records are
/// passed over; the empty text holds no tasks.
pub fn load_dones(content: &str) -> (tasks: Vec<TodoStruct>)
    ensures
        views(tasks@) == loaded(ListKind::Done, content@),
        forall|i: int|
            0 <= i < tasks@.len() ==> is_record_of(ListKind::Done, (#[trigger] tasks@[i])@),
{
    load(ListKind::Done, content)
}

/// The line that records the pending task `t`.
pub open spec fn pending_line(t: TaskView) -> Seq<char> {
    "- ("@ + t.date_added + ") "@ + t.text
}

/// The line that records the done task `t`.
pub open spec fn done_line(t: TaskView) -> Seq<char> {
    "- DONE (Completed "@ + t.date_completed + ", Added "@ + t.date_added + ") "@ + t.text
}

/// The line that records the task `t` in the list `kind`.
pub open spec fn line_of(kind: ListKind, t: TaskView) -> Seq<char> {
    match kind {
        ListKind::Pending => pending_line(t),
        ListKind::Done => done_line(t),
    }
}

/// The lines of the tasks `ts`, each ended by a line feed.
pub open spec fn body(kind: ListKind, ts: Seq<TaskView>) -> Seq<char>
    decreases ts.len(),
{
    if ts.len() == 0 {
        Seq::empty()
    } else {
        line_of(kind, ts.first()) + seq!['\n'] + body(kind, ts.drop_first())
    }
}

/// The text of the list `kind` that holds the tasks `ts`: the header line,
/// then one line per task, in order.
pub open spec fn saved(kind: ListKind, ts: Seq<TaskView>) -> Seq<char> {
    header(kind) + seq!['\n'] + body(kind, ts)
}

/// One more task adds its line at the end.
proof fn lemma_body_push(kind: ListKind, ts: Seq<TaskView>, t: TaskView)
    ensures
        body(kind, ts.push(t)) == body(kind, ts) + line_of(kind, t) + seq!['\n'],
    decreases ts.len(),
{
    if ts.len() == 0 {
        assert(ts.push(t).drop_first() =~= Seq::empty());
        assert(body(kind, ts.push(t).drop_first()) =~= Seq::empty());
        assert(body(kind, ts.push(t)) =~= body(kind, ts) + line_of(kind, t) + seq!['\n']);
    } else {
        lemma_body_push(kind, ts.drop_first(), t);
        assert(ts.push(t).drop_first() =~= ts.drop_first().push(t));
        assert(body(kind, ts.push(t)) =~= body(kind, ts) + line_of(kind, t) + seq!['\n']);
    }
}

/// The line that records `task` in the pending list.
pub fn format_todo_line(task: &TodoStruct) -> (line: String)
    ensures
        line@ == pending_line(task@),
{
    let mut line = String::new();
    line.append("- (");
    line.append(task.date_added.as_str());
    line.append(") ");
    line.append(task.text.as_str());
    assert(line@ =~= pending_line(task@));
    line
}

/// The line that records `task` in the done list.
pub fn format_done_line(task: &TodoStruct) -> (line: String)
    ensures
        line@ == done_line(task@),
{
    let mut line = String::new();
    line.append("- DONE (Completed ");
    line.append(task.date_completed.as_str());
    line.append(", Added ");
    line.append(task.date_added.as_str());
    line.append(") ");
    line.append(task.text.as_str());
    assert(line@ =~= done_line(task@));
    line
}

/// Writes the text of the list `kind` that holds `tasks`.
fn save(kind: ListKind, tasks: &Vec<TodoStruct>) -> (content: String)
    ensures
        content@ == saved(kind, views(tasks@)),
{
    let mut content = String::new();
    match kind {
        ListKind::Pending => content.append("# TODOs"),
        ListKind::Done => content.append("# DONEs"),
    }
    content.push('\n');
    let n = tasks.len();
    let mut i: usize = 0;
    assert(views(tasks@).take(0) =~= Seq::empty());
    assert(content@ =~= saved(kind, views(tasks@).take(0)));
    while i < n
        invariant
            i <= n == tasks@.len(),
            content@ == saved(kind, views(tasks@).take(i as int)),
        decreases n - i,
    {
        let line = match kind {
            ListKind::Pending => format_todo_line(&tasks[i]),
            ListKind::Done => format_done_line(&tasks[i]),
        };
        content.append(line.as_str());
        content.push('\n');
        proof {
            let ts = views(tasks@);
            lemma_body_push(kind, ts.take(i as int), ts[i as int]);
            assert(ts.take(i as int).push(ts[i as int]) =~= ts.take(i + 1));
            assert(content@ =~= saved(kind, ts.take(i + 1)));
        }
        i += 1;
    }
    assert(views(tasks@).take(n as int) =~= views(tasks@));
    content
}

/// The text of the pending list: the header `# TODOs`, then the line of
/// each task, in order.
pub fn save_todos(todo_list: &Vec<TodoStruct>) -> (content: String)
    ensures
        content@ == saved(ListKind::Pending, views(todo_list@)),
{
    save(ListKind::Pending, todo_list)
}

/// The text of the done list: the header `# DONEs`, then the line of each
/// task, in order.
pub fn save_dones(done_list: &Vec<TodoStruct>) -> (content: String)
    ensures
        content@ == saved(ListKind::Done, views(done_list@)),
{
    save(ListKind::Done, done_list)
}

} // verus!
