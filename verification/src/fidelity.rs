//! What the format keeps: a list that is written and read again comes back
//! as it was, and what stands before the header plays no part.

use vstd::prelude::*;
use crate::codec::{
    after_header, body, done_line, done_record, header, line_of, lines, loaded, pending_line,
    pending_record, record, records, saved, ListKind,
};
use crate::clock::{is_date_char, is_date_text};
use crate::task::{is_digit, is_iso_date, TaskView};
use crate::text::{
    find_from, index_of, is_space, is_trimmed, lemma_find_from, lemma_find_from_is,
    lemma_trim_of_trimmed, occurs_at, trim,
};

verus! {

/// A text that can stand on a line of its own: not empty, no white space at
/// either end, no line feed.
pub open spec fn is_storable_text(x: Seq<char>) -> bool {
    &&& x.len() > 0
    &&& is_trimmed(x)
    &&& forall|i: int| 0 <= i < x.len() ==> #[trigger] x[i] != '\n'
}

/// A date that none of the marks of the format can be mistaken for: no white
/// space, closing parenthesis or comma in it.
pub open spec fn is_plain(d: Seq<char>) -> bool {
    forall|i: int|
        0 <= i < d.len() ==> {
            let c = #[trigger] d[i];
            !is_space(c) && c != ')' && c != ','
        }
}

/// A task that the list `kind` can record and give back: a storable text
/// and plain dates, and in the done list a date added that is not empty.
pub open spec fn is_storable(kind: ListKind, t: TaskView) -> bool {
    &&& is_storable_text(t.text)
    &&& is_plain(t.date_added)
    &&& kind is Done ==> t.date_added.len() > 0 && is_plain(t.date_completed)
}

/// The dates that the list `kind` writes of the task `t` have the form
/// `YYYY-MM-DD`.
pub open spec fn has_iso_dates(kind: ListKind, t: TaskView) -> bool {
    &&& is_iso_date(t.date_added)
    &&& kind is Done ==> is_iso_date(t.date_completed)
}

/// What the list `kind` keeps of the task `t`: the text and the date added,
/// and for a done task the completion date. The state is that of the list.
pub open spec fn kept(kind: ListKind, t: TaskView) -> TaskView {
    match kind {
        ListKind::Pending => TaskView {
            text: t.text,
            date_added: t.date_added,
            completed: false,
            date_completed: Seq::empty(),
        },
        ListKind::Done => TaskView {
            text: t.text,
            date_added: t.date_added,
            completed: true,
            date_completed: t.date_completed,
        },
    }
}

/// A date of the form `YYYY-MM-DD` is plain, and not empty.
pub proof fn lemma_iso_date_is_plain(d: Seq<char>)
    requires
        is_iso_date(d),
    ensures
        is_plain(d),
        d.len() > 0,
{
    assert forall|i: int| 0 <= i < d.len() implies {
        let c = #[trigger] d[i];
        !is_space(c) && c != ')' && c != ','
    } by {
        if i != 4 && i != 7 {
            assert(is_digit(d[i]));
        }
    }
}

/// A date as the clock prints it is plain, and not empty.
pub proof fn lemma_date_text_is_plain(d: Seq<char>)
    requires
        is_date_text(d),
    ensures
        is_plain(d),
        d.len() > 0,
{
    assert forall|i: int| 0 <= i < d.len() implies {
        let c = #[trigger] d[i];
        !is_space(c) && c != ')' && c != ','
    } by {
        assert(is_date_char(d[i]));
    }
}

/// A plain date has no white space at either end.
proof fn lemma_plain_is_trimmed(d: Seq<char>)
    requires
        is_plain(d),
    ensures
        is_trimmed(d),
{
    if d.len() > 0 {
        assert(!is_space(d[0]));
        assert(!is_space(d[d.len() - 1]));
    }
}

/// Where the character `c` stands at `i` and nowhere before, `i` is its index.
proof fn lemma_index_of_is(s: Seq<char>, c: char, i: int)
    requires
        0 <= i < s.len(),
        s[i] == c,
        forall|j: int| 0 <= j < i ==> #[trigger] s[j] != c,
    ensures
        index_of(s, c) == Some(i),
        find_from(s, seq![c], 0) == Some(i),
{
    assert(s.subrange(i, i + 1) =~= seq![c]);
    assert forall|j: int| 0 <= j < i implies !occurs_at(s, seq![c], j) by {
        if occurs_at(s, seq![c], j) {
            assert(s.subrange(j, j + 1)[0] == s[j]);
        }
    }
    lemma_find_from_is(s, seq![c], 0, i);
}

/// A text without a line feed, then a line feed, then more: the first line
/// is that text, and the other lines are those of the rest.
pub proof fn lemma_lines_cons(first: Seq<char>, rest: Seq<char>)
    requires
        forall|i: int| 0 <= i < first.len() ==> #[trigger] first[i] != '\n',
    ensures
        lines(first + seq!['\n'] + rest) == seq![first] + lines(rest),
{
    let s = first + seq!['\n'] + rest;
    let i = first.len() as int;
    assert forall|j: int| 0 <= j < i implies #[trigger] s[j] != '\n' by {
        assert(s[j] == first[j]);
    }
    lemma_index_of_is(s, '\n', i);
    assert(s.take(i) =~= first);
    assert(s.skip(i + 1) =~= rest);
}

/// The line of a storable pending task reads as that task.
proof fn lemma_pending_line_reads(t: TaskView)
    requires
        is_storable(ListKind::Pending, t),
    ensures
        pending_record(pending_line(t)) == Some(kept(ListKind::Pending, t)),
{
    lemma_plain_is_trimmed(t.date_added);
    reveal_strlit("- (");
    reveal_strlit(") ");
    let d = t.date_added;
    let x = t.text;
    let l = pending_line(t);
    let lead = "- ("@;
    let mark = ") "@;
    let c = 3 + d.len() as int;
    assert(l.len() == 5 + d.len() + x.len());
    assert(l.subrange(0, 3) =~= lead);
    assert(l.subrange(3, c) =~= d);
    assert(l.subrange(c, c + 2) =~= mark);
    assert(l.skip(c + 2) =~= x);
    assert(l.first() == '-');
    assert(l.last() == x.last());
    lemma_trim_of_trimmed(l);
    assert(occurs_at(l, mark, c));
    lemma_find_from(l, mark, 0);
    assert forall|j: int| 0 <= j < c implies #[trigger] l[j] != ')' by {
        if j >= 3 {
            assert(l[j] == d[j - 3]);
        }
    }
    assert(l[c] == ')');
    lemma_index_of_is(l, ')', c);
    lemma_trim_of_trimmed(x);
    lemma_trim_of_trimmed(d);
}

/// The line of a storable done task reads as that task.
proof fn lemma_done_line_reads(t: TaskView)
    requires
        is_storable(ListKind::Done, t),
    ensures
        done_record(done_line(t)) == Some(kept(ListKind::Done, t)),
{
    lemma_plain_is_trimmed(t.date_added);
    lemma_plain_is_trimmed(t.date_completed);
    reveal_strlit("- DONE (Completed ");
    reveal_strlit(", Added ");
    reveal_strlit(") ");
    let dc = t.date_completed;
    let da = t.date_added;
    let x = t.text;
    let l = done_line(t);
    let lead = "- DONE (Completed "@;
    let mid = ", Added "@;
    let mark = ") "@;
    let a = 18 + dc.len() as int;
    let b = a + 8;
    let p = b + da.len() as int;
    assert(l.len() == 28 + dc.len() + da.len() + x.len());
    assert(l.subrange(0, 18) =~= lead);
    assert(l.subrange(18, a) =~= dc);
    assert(l.subrange(a, b) =~= mid);
    assert(l.subrange(b, p) =~= da);
    assert(l.subrange(p, p + 2) =~= mark);
    assert(l.skip(p + 2) =~= x);
    assert(l.first() == '-');
    assert(l.last() == x.last());
    lemma_trim_of_trimmed(l);
    assert forall|j: int| 0 <= j < p implies #[trigger] l[j] != ')' by {
        if 18 <= j < a {
            assert(l[j] == dc[j - 18]);
        } else if a <= j < b {
            assert(l[j] == mid[j - a]);
        } else if b <= j {
            assert(l[j] == da[j - b]);
        } else {
            assert(l[j] == lead[j]);
        }
    }
    assert forall|j: int| 0 <= j < p implies !occurs_at(l, mark, j) by {
        if occurs_at(l, mark, j) {
            assert(l.subrange(j, j + 2)[0] == l[j]);
        }
    }
    lemma_find_from_is(l, mark, 0, p);
    let meta = l.take(p + 1);
    assert forall|j: int| 0 <= j < a implies #[trigger] meta[j] != ',' by {
        if 18 <= j {
            assert(meta[j] == dc[j - 18]);
        } else {
            assert(meta[j] == lead[j]);
        }
    }
    assert(meta[a] == ',');
    assert(meta.subrange(a, a + 1) =~= seq![',']);
    assert forall|j: int| 18 <= j < a implies !occurs_at(meta, seq![','], j) by {
        if occurs_at(meta, seq![','], j) {
            assert(meta.subrange(j, j + 1)[0] == meta[j]);
        }
    }
    lemma_find_from_is(meta, seq![','], 18, a);
    assert(meta.subrange(a, b) =~= mid);
    assert forall|j: int| 0 <= j < a implies !occurs_at(meta, mid, j) by {
        if occurs_at(meta, mid, j) {
            assert(meta.subrange(j, j + 8)[0] == meta[j]);
        }
    }
    lemma_find_from_is(meta, mid, 0, a);
    assert(meta.subrange(18, a) =~= dc);
    assert(meta.subrange(b, p) =~= da);
    lemma_trim_of_trimmed(x);
    lemma_trim_of_trimmed(da);
    lemma_trim_of_trimmed(dc);
}

/// The line written for a storable task holds no line feed and reads as
/// that task.
pub proof fn lemma_line_comes_back(kind: ListKind, t: TaskView)
    requires
        is_storable(kind, t),
    ensures
        record(kind, line_of(kind, t)) == Some(kept(kind, t)),
        forall|i: int| 0 <= i < line_of(kind, t).len() ==> #[trigger] line_of(kind, t)[i] != '\n',
{
    reveal_strlit("- (");
    reveal_strlit(") ");
    reveal_strlit("- DONE (Completed ");
    reveal_strlit(", Added ");
    let l = line_of(kind, t);
    match kind {
        ListKind::Pending => {
            lemma_pending_line_reads(t);
            let c = 3 + t.date_added.len() as int;
            assert forall|i: int| 0 <= i < l.len() implies #[trigger] l[i] != '\n' by {
                if 3 <= i < c {
                    assert(l[i] == t.date_added[i - 3]);
                } else if c + 2 <= i {
                    assert(l[i] == t.text[i - c - 2]);
                }
            }
        },
        ListKind::Done => {
            lemma_done_line_reads(t);
            let a = 18 + t.date_completed.len() as int;
            let b = a + 8;
            let p = b + t.date_added.len() as int;
            assert forall|i: int| 0 <= i < l.len() implies #[trigger] l[i] != '\n' by {
                if 18 <= i < a {
                    assert(l[i] == t.date_completed[i - 18]);
                } else if a <= i < b {
                    assert(l[i] == ", Added "@[i - a]);
                } else if b <= i < p {
                    assert(l[i] == t.date_added[i - b]);
                } else if p + 2 <= i {
                    assert(l[i] == t.text[i - p - 2]);
                } else if i < 18 {
                    assert(l[i] == "- DONE (Completed "@[i]);
                }
            }
        },
    }
}

/// The lines written for storable tasks read as those tasks.
proof fn lemma_body_reads(kind: ListKind, ts: Seq<TaskView>)
    requires
        forall|i: int| 0 <= i < ts.len() ==> is_storable(kind, #[trigger] ts[i]),
    ensures
        records(kind, lines(body(kind, ts))) == ts.map_values(|t: TaskView| kept(kind, t)),
    decreases ts.len(),
{
    let back = ts.map_values(|t: TaskView| kept(kind, t));
    if ts.len() == 0 {
        reveal_strlit("- (");
        reveal_strlit("- DONE (Completed ");
        let none = Seq::<char>::empty();
        assert(body(kind, ts) =~= none);
        assert(lines(none) =~= seq![none]);
        assert(trim(none) =~= none);
        assert(record(kind, none) is None);
        assert(seq![none].drop_first() =~= Seq::<Seq<char>>::empty());
        assert(records(kind, seq![none].drop_first()) =~= Seq::empty());
        assert(records(kind, seq![none]) =~= back);
    } else {
        let t = ts.first();
        let rest = ts.drop_first();
        let l = line_of(kind, t);
        lemma_line_comes_back(kind, t);
        lemma_lines_cons(l, body(kind, rest));
        assert forall|i: int| 0 <= i < rest.len() implies is_storable(kind, #[trigger] rest[i]) by {
            assert(rest[i] == ts[i + 1]);
        }
        lemma_body_reads(kind, rest);
        let ls = seq![l] + lines(body(kind, rest));
        assert(ls.first() == l);
        assert(ls.drop_first() =~= lines(body(kind, rest)));
        assert(records(kind, ls) =~= seq![kept(kind, t)] + rest.map_values(
            |t: TaskView| kept(kind, t),
        ));
        assert(records(kind, ls) =~= back);
    }
}

/// A list of storable tasks that is written and read again comes back in
/// the same order, each task with what its list keeps of it.
pub proof fn lemma_stored_comes_back(kind: ListKind, ts: Seq<TaskView>)
    requires
        forall|i: int| 0 <= i < ts.len() ==> is_storable(kind, #[trigger] ts[i]),
    ensures
        loaded(kind, saved(kind, ts)) == ts.map_values(|t: TaskView| kept(kind, t)),
{
    reveal_strlit("# TODOs");
    reveal_strlit("# DONEs");
    let head = header(kind);
    lemma_lines_cons(head, body(kind, ts));
    assert(head.first() == '#');
    assert(head.last() == 's');
    lemma_trim_of_trimmed(head);
    let ls = seq![head] + lines(body(kind, ts));
    assert(ls.first() == head);
    assert(ls.drop_first() =~= lines(body(kind, ts)));
    lemma_body_reads(kind, ts);
}

/// Tasks whose text is storable and whose dates have the form `YYYY-MM-DD`
/// come back from writing and reading in the same order with the same texts
/// and dates: for a pending task the text and the date added, for a done
/// task the completion date as well.
pub proof fn lemma_round_trip(kind: ListKind, ts: Seq<TaskView>)
    requires
        forall|i: int|
            0 <= i < ts.len() ==> is_storable_text((#[trigger] ts[i]).text) && has_iso_dates(
                kind,
                ts[i],
            ),
    ensures
        loaded(kind, saved(kind, ts)).len() == ts.len(),
        forall|i: int|
            0 <= i < ts.len() ==> {
                let back = #[trigger] loaded(kind, saved(kind, ts))[i];
                &&& back.text == ts[i].text
                &&& back.date_added == ts[i].date_added
                &&& kind is Done ==> back.date_completed == ts[i].date_completed
            },
        loaded(kind, saved(kind, ts)) == ts.map_values(|t: TaskView| kept(kind, t)),
{
    assert forall|i: int| 0 <= i < ts.len() implies is_storable(kind, #[trigger] ts[i]) by {
        lemma_iso_date_is_plain(ts[i].date_added);
        if kind is Done {
            lemma_iso_date_is_plain(ts[i].date_completed);
        }
    }
    lemma_stored_comes_back(kind, ts);
}

/// The lines of two texts joined by a line feed are the lines of the one,
/// then the lines of the other.
pub proof fn lemma_lines_concat(a: Seq<char>, b: Seq<char>)
    ensures
        lines(a + seq!['\n'] + b) == lines(a) + lines(b),
    decreases a.len(),
{
    let s = a + seq!['\n'] + b;
    lemma_find_from(a, seq!['\n'], 0);
    match index_of(a, '\n') {
        Some(i) => {
            assert(a.subrange(i, i + 1)[0] == a[i]);
            assert forall|j: int| 0 <= j < i implies #[trigger] s[j] != '\n' by {
                if a[j] == '\n' {
                    assert(a.subrange(j, j + 1) =~= seq!['\n']);
                    assert(occurs_at(a, seq!['\n'], j));
                }
            }
            assert(s[i] == a[i]);
            lemma_index_of_is(s, '\n', i);
            assert(s.take(i) =~= a.take(i));
            assert(s.skip(i + 1) =~= a.skip(i + 1) + seq!['\n'] + b);
            lemma_lines_concat(a.skip(i + 1), b);
            assert(lines(s) =~= lines(a) + lines(b));
        },
        None => {
            assert forall|j: int| 0 <= j < a.len() implies #[trigger] a[j] != '\n' by {
                if a[j] == '\n' {
                    assert(a.subrange(j, j + 1) =~= seq!['\n']);
                    assert(occurs_at(a, seq!['\n'], j));
                }
            }
            lemma_lines_cons(a, b);
        },
    }
}

/// Each line is judged by itself: the records of two runs of lines are the
/// records of the one, then the records of the other. So a line that is no
/// record changes nothing about the lines round it.
pub proof fn lemma_records_concat(kind: ListKind, a: Seq<Seq<char>>, b: Seq<Seq<char>>)
    ensures
        records(kind, a + b) == records(kind, a) + records(kind, b),
    decreases a.len(),
{
    if a.len() == 0 {
        assert(a + b =~= b);
        assert(records(kind, a) + records(kind, b) =~= records(kind, b));
    } else {
        lemma_records_concat(kind, a.drop_first(), b);
        assert((a + b).first() == a.first());
        assert((a + b).drop_first() =~= a.drop_first() + b);
        assert(records(kind, a + b) =~= records(kind, a) + records(kind, b));
    }
}

/// No line is `head` when trimmed.
pub open spec fn has_no_header(ls: Seq<Seq<char>>, head: Seq<char>) -> bool {
    forall|i: int| 0 <= i < ls.len() ==> trim(#[trigger] ls[i]) != head
}

/// Reading begins after the first header line, whatever stands before it.
pub proof fn lemma_after_header(
    before: Seq<Seq<char>>,
    head_line: Seq<char>,
    after: Seq<Seq<char>>,
    head: Seq<char>,
)
    requires
        has_no_header(before, head),
        trim(head_line) == head,
    ensures
        after_header(before + seq![head_line] + after, head) == after,
    decreases before.len(),
{
    let ls = before + seq![head_line] + after;
    if before.len() == 0 {
        assert(ls.first() == head_line);
        assert(ls.drop_first() =~= after);
    } else {
        assert(ls.first() == before[0]);
        assert(ls.drop_first() =~= before.drop_first() + seq![head_line] + after);
        assert forall|i: int| 0 <= i < before.drop_first().len() implies trim(
            #[trigger] before.drop_first()[i],
        ) != head by {
            assert(before.drop_first()[i] == before[i + 1]);
        }
        lemma_after_header(before.drop_first(), head_line, after, head);
    }
}

/// Lines that stand before the header line are passed over, record or not:
/// the tasks of a text are the records on the lines after its first header
/// line, here `rest`.
pub proof fn lemma_before_header_ignored(
    kind: ListKind,
    before: Seq<char>,
    head_line: Seq<char>,
    rest: Seq<char>,
)
    requires
        has_no_header(lines(before), header(kind)),
        forall|i: int| 0 <= i < head_line.len() ==> #[trigger] head_line[i] != '\n',
        trim(head_line) == header(kind),
    ensures
        loaded(kind, before + seq!['\n'] + head_line + seq!['\n'] + rest) == records(
            kind,
            lines(rest),
        ),
        loaded(kind, head_line + seq!['\n'] + rest) == records(kind, lines(rest)),
{
    let tail = head_line + seq!['\n'] + rest;
    lemma_lines_cons(head_line, rest);
    lemma_lines_concat(before, tail);
    assert(before + seq!['\n'] + head_line + seq!['\n'] + rest =~= before + seq!['\n'] + tail);
    lemma_after_header(lines(before), head_line, lines(rest), header(kind));
    assert(lines(before) + lines(tail) =~= lines(before) + seq![head_line] + lines(rest));
    lemma_after_header(Seq::empty(), head_line, lines(rest), header(kind));
    assert(Seq::<Seq<char>>::empty() + seq![head_line] + lines(rest) =~= lines(tail));
}

/// A text without a header line holds no tasks.
pub proof fn lemma_no_header_no_tasks(kind: ListKind, content: Seq<char>)
    requires
        has_no_header(lines(content), header(kind)),
    ensures
        loaded(kind, content).len() == 0,
{
    lemma_no_header(lines(content), header(kind));
}

/// The empty text, which stands for a list that was never written, holds no
/// tasks.
pub proof fn lemma_empty_text_no_tasks(kind: ListKind)
    ensures
        loaded(kind, Seq::empty()).len() == 0,
{
    reveal_strlit("# TODOs");
    reveal_strlit("# DONEs");
    let none = Seq::<char>::empty();
    assert(lines(none) =~= seq![none]);
    assert(trim(none) =~= none);
    lemma_no_header(lines(none), header(kind));
}

proof fn lemma_no_header(ls: Seq<Seq<char>>, head: Seq<char>)
    requires
        has_no_header(ls, head),
    ensures
        after_header(ls, head).len() == 0,
    decreases ls.len(),
{
    if ls.len() > 0 {
        assert(trim(ls[0]) != head);
        assert forall|i: int| 0 <= i < ls.drop_first().len() implies trim(
            #[trigger] ls.drop_first()[i],
        ) != head by {
            assert(ls.drop_first()[i] == ls[i + 1]);
        }
        lemma_no_header(ls.drop_first(), head);
    }
}

} // verus!
