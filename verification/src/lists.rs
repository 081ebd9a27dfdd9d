//! The two ordered collections and the rules by which tasks enter them and
//! move between them. The newest entry of either stands first.

use vstd::prelude::*;
use crate::clock::{is_date_text, utc_today};
use crate::codec::{
    load_dones, load_todos, loaded, save_dones, save_todos, saved, views, ListKind,
};
use crate::fidelity::{is_storable, kept, lemma_stored_comes_back};
use crate::task::{add_task, TaskView, TodoStruct};

verus! {

/// The mathematical value of the two collections.
pub struct ListsView {
    pub pending: Seq<TaskView>,
    pub done: Seq<TaskView>,
}

impl ListsView {
    /// Where a task stands says whether it is completed: no pending task is
    /// marked completed or has a completion date, every done task is marked
    /// completed.
    pub open spec fn wf(self) -> bool {
        &&& forall|i: int|
            0 <= i < self.pending.len() ==> !(#[trigger] self.pending[i]).completed
                && self.pending[i].date_completed.len() == 0
        &&& forall|i: int| 0 <= i < self.done.len() ==> (#[trigger] self.done[i]).completed
    }

    /// The collections with `t` put in front of the pending tasks.
    pub open spec fn add(self, t: TaskView) -> ListsView {
        ListsView { pending: seq![t] + self.pending, done: self.done }
    }

    /// The collections after the pending task at `index` has been completed
    /// on `today`: it leaves the pending tasks and stands first among the
    /// done ones.
    pub open spec fn complete(self, index: int, today: Seq<char>) -> ListsView {
        ListsView {
            pending: self.pending.remove(index),
            done: seq![self.pending[index].mark_completed(today)] + self.done,
        }
    }

    /// The collections after the done task at `index` has been taken up
    /// again: it leaves the done tasks and stands first among the pending
    /// ones.
    pub open spec fn reopen(self, index: int) -> ListsView {
        ListsView {
            pending: seq![self.done[index].mark_pending()] + self.pending,
            done: self.done.remove(index),
        }
    }

    /// The number of tasks in the collection that a toggle to `new_state`
    /// takes its task from.
    pub open spec fn source_len(self, new_state: bool) -> nat {
        if new_state {
            self.pending.len()
        } else {
            self.done.len()
        }
    }

    /// The collections after the task at `index` has been toggled to
    /// `new_state`.
    pub open spec fn toggle(self, index: int, new_state: bool, today: Seq<char>) -> ListsView {
        if new_state {
            self.complete(index, today)
        } else {
            self.reopen(index)
        }
    }
}

/// The pending and the done tasks.
#[derive(Debug, PartialEq, Eq)]
pub struct TodoLists {
    pending: Vec<TodoStruct>,
    done: Vec<TodoStruct>,
}

impl View for TodoLists {
    type V = ListsView;

    closed spec fn view(&self) -> ListsView {
        ListsView { pending: views(self.pending@), done: views(self.done@) }
    }
}

impl TodoLists {
    /// Whether every task stands in the collection that its state asks for.
    /// This holds of every value of the type.
    pub open spec fn wf(&self) -> bool {
        self@.wf()
    }

    #[verifier::type_invariant]
    spec fn inv(&self) -> bool {
        self.wf()
    }

    /// Two empty collections.
    pub fn new() -> (lists: TodoLists)
        ensures
            lists@.pending.len() == 0,
            lists@.done.len() == 0,
            lists.wf(),
    {
        TodoLists { pending: Vec::new(), done: Vec::new() }
    }

    /// The collections that the two files hold. Each argument is the text of
    /// one file, the pending list first, or `None` where there is no such
    /// file: a list that was never written is empty.
    pub fn load_all(pending_text: Option<&str>, done_text: Option<&str>) -> (lists: TodoLists)
        ensures
            lists@.pending == match pending_text {
                Some(text) => loaded(ListKind::Pending, text@),
                None => Seq::empty(),
            },
            lists@.done == match done_text {
                Some(text) => loaded(ListKind::Done, text@),
                None => Seq::empty(),
            },
            lists.wf(),
    {
        let pending = match pending_text {
            Some(text) => load_todos(text),
            None => Vec::new(),
        };
        let done = match done_text {
            Some(text) => load_dones(text),
            None => Vec::new(),
        };
        proof {
            let l = ListsView { pending: views(pending@), done: views(done@) };
            assert forall|i: int| 0 <= i < l.pending.len() implies {
                &&& !(#[trigger] l.pending[i]).completed
                &&& l.pending[i].date_completed.len() == 0
            } by {
                assert(l.pending[i] == pending@[i]@);
            }
            assert forall|i: int| 0 <= i < l.done.len() implies (
            #[trigger] l.done[i]).completed by {
                assert(l.done[i] == done@[i]@);
            }
            if pending_text is None {
                assert(views(pending@) =~= Seq::empty());
            }
            if done_text is None {
                assert(views(done@) =~= Seq::empty());
            }
        }
        TodoLists { pending, done }
    }

    /// The texts of the two collections, the pending list first.
    pub fn persist_all(&self) -> (texts: (String, String))
        ensures
            texts.0@ == saved(ListKind::Pending, self@.pending),
            texts.1@ == saved(ListKind::Done, self@.done),
    {
        (save_todos(&self.pending), save_dones(&self.done))
    }

    /// The pending tasks, newest first. None of them is marked completed.
    pub fn pending(&self) -> (tasks: &Vec<TodoStruct>)
        ensures
            views(tasks@) == self@.pending,
            self.wf(),
    {
        proof {
            use_type_invariant(self);
        }
        &self.pending
    }

    /// The done tasks, newest first. Each of them is marked completed.
    pub fn done(&self) -> (tasks: &Vec<TodoStruct>)
        ensures
            views(tasks@) == self@.done,
            self.wf(),
    {
        proof {
            use_type_invariant(self);
        }
        &self.done
    }

    /// Puts a new task in front of the pending ones: `text` trimmed, added
    /// on `today`.
    pub fn add_task(&mut self, text: &str, today: &str)
        ensures
            final(self)@ == old(self)@.add(TaskView::added(text@, today@)),
            final(self).wf(),
    {
        let task = add_task(text, today);
        proof {
            use_type_invariant(&*self);
            lemma_add_keeps_wf(old(self)@, task@);
        }
        let mut pending = Vec::new();
        assert(views(pending@).len() == 0);
        std::mem::swap(&mut pending, &mut self.pending);
        pending.insert(0, task);
        assert(views(pending@) =~= seq![task@] + old(self)@.pending);
        self.pending = pending;
    }

    /// Puts a new task in front of the pending ones: `text` trimmed, added
    /// on the current UTC date.
    pub fn add_task_now(&mut self, text: &str)
        ensures
            final(self)@.pending.len() > 0,
            is_date_text(final(self)@.pending[0].date_added),
            final(self)@ == old(self)@.add(
                TaskView::added(text@, final(self)@.pending[0].date_added),
            ),
            final(self).wf(),
    {
        let date = utc_today();
        self.add_task(text, date.as_str());
    }

    /// Moves the task at `index` to the front of the other collection. With
    /// `new_state` set, the task is a pending one and becomes done on
    /// `today`; without, it is a done one and becomes pending, and `today`
    /// plays no part.
    pub fn toggle_done(&mut self, index: usize, new_state: bool, today: &str)
        requires
            index < old(self)@.source_len(new_state),
        ensures
            final(self)@ == old(self)@.toggle(index as int, new_state, today@),
            final(self).wf(),
    {
        proof {
            use_type_invariant(&*self);
            lemma_toggle_moves_one(old(self)@, index as int, new_state, today@);
        }
        let mut pending = Vec::new();
        let mut done = Vec::new();
        assert(views(pending@).len() == 0 && views(done@).len() == 0);
        std::mem::swap(&mut pending, &mut self.pending);
        std::mem::swap(&mut done, &mut self.done);
        if new_state {
            let mut task = pending.remove(index);
            task.mark_completed(today);
            done.insert(0, task);
            assert(views(pending@) =~= old(self)@.pending.remove(index as int));
            assert(views(done@) =~= seq![task@] + old(self)@.done);
        } else {
            let mut task = done.remove(index);
            task.not_completed();
            pending.insert(0, task);
            assert(views(done@) =~= old(self)@.done.remove(index as int));
            assert(views(pending@) =~= seq![task@] + old(self)@.pending);
        }
        self.pending = pending;
        self.done = done;
    }

    /// Moves the task at `index` to the front of the other collection, as
    /// `toggle_done` does, with the current UTC date as the day of
    /// completion.
    pub fn toggle_done_now(&mut self, index: usize, new_state: bool)
        requires
            index < old(self)@.source_len(new_state),
        ensures
            new_state ==> final(self)@.done.len() > 0 && is_date_text(
                final(self)@.done[0].date_completed,
            ) && final(self)@ == old(self)@.complete(
                index as int,
                final(self)@.done[0].date_completed,
            ),
            !new_state ==> final(self)@ == old(self)@.reopen(index as int),
            final(self).wf(),
    {
        let date = utc_today();
        self.toggle_done(index, new_state, date.as_str());
    }
}

/// A new pending task in front leaves every task in the collection that its
/// state asks for.
pub proof fn lemma_add_keeps_wf(l: ListsView, t: TaskView)
    requires
        l.wf(),
        !t.completed,
        t.date_completed.len() == 0,
    ensures
        l.add(t).wf(),
{
    let m = l.add(t);
    assert forall|i: int| 0 <= i < m.pending.len() implies !(#[trigger] m.pending[i]).completed
        && m.pending[i].date_completed.len() == 0 by {
        if i > 0 {
            assert(m.pending[i] == l.pending[i - 1]);
        }
    }
}

/// A toggle moves one task and leaves the others where they are: the two
/// collections together hold as many tasks as before, and every task is
/// still in the collection that its state asks for.
pub proof fn lemma_toggle_moves_one(l: ListsView, index: int, new_state: bool, today: Seq<char>)
    requires
        l.wf(),
        0 <= index < l.source_len(new_state),
    ensures
        l.toggle(index, new_state, today).wf(),
        l.toggle(index, new_state, today).pending.len() + l.toggle(
            index,
            new_state,
            today,
        ).done.len() == l.pending.len() + l.done.len(),
        l.toggle(index, new_state, today).source_len(!new_state) == l.source_len(!new_state) + 1,
{
    let m = l.toggle(index, new_state, today);
    if new_state {
        assert forall|i: int| 0 <= i < m.pending.len() implies !(#[trigger] m.pending[i]).completed
            && m.pending[i].date_completed.len() == 0 by {
            if i < index {
                assert(m.pending[i] == l.pending[i]);
            } else {
                assert(m.pending[i] == l.pending[i + 1]);
            }
        }
        assert forall|i: int| 0 <= i < m.done.len() implies (#[trigger] m.done[i]).completed by {
            if i > 0 {
                assert(m.done[i] == l.done[i - 1]);
            }
        }
    } else {
        assert forall|i: int| 0 <= i < m.pending.len() implies !(#[trigger] m.pending[i]).completed
            && m.pending[i].date_completed.len() == 0 by {
            if i > 0 {
                assert(m.pending[i] == l.pending[i - 1]);
            }
        }
        assert forall|i: int| 0 <= i < m.done.len() implies (#[trigger] m.done[i]).completed by {
            if i < index {
                assert(m.done[i] == l.done[i]);
            } else {
                assert(m.done[i] == l.done[i + 1]);
            }
        }
    }
}

/// Completing a pending task and taking it up again brings it back as it
/// was, now in front of the pending ones; the done tasks are as before.
pub proof fn lemma_complete_then_reopen(l: ListsView, index: int, today: Seq<char>)
    requires
        l.wf(),
        0 <= index < l.pending.len(),
    ensures
        l.complete(index, today).done[0] == l.pending[index].mark_completed(today),
        l.complete(index, today).reopen(0).pending == seq![l.pending[index]] + l.pending.remove(
            index,
        ),
        l.complete(index, today).reopen(0).done == l.done,
{
    let m = l.complete(index, today);
    assert(m.done.remove(0) =~= l.done);
    assert(l.pending[index].mark_completed(today).mark_pending() == l.pending[index]) by {
        assert(l.pending[index].date_completed =~= Seq::empty());
    }
}

/// Collections of storable tasks that are written and read again come
/// back as they were.
pub proof fn lemma_lists_come_back(l: ListsView)
    requires
        l.wf(),
        forall|i: int|
            0 <= i < l.pending.len() ==> is_storable(ListKind::Pending, #[trigger] l.pending[i]),
        forall|i: int| 0 <= i < l.done.len() ==> is_storable(ListKind::Done, #[trigger] l.done[i]),
    ensures
        loaded(ListKind::Pending, saved(ListKind::Pending, l.pending)) == l.pending,
        loaded(ListKind::Done, saved(ListKind::Done, l.done)) == l.done,
{
    lemma_stored_comes_back(ListKind::Pending, l.pending);
    lemma_stored_comes_back(ListKind::Done, l.done);
    assert forall|i: int| 0 <= i < l.pending.len() implies kept(
        ListKind::Pending,
        #[trigger] l.pending[i],
    ) == l.pending[i] by {
        assert(l.pending[i].date_completed =~= Seq::empty());
    }
    assert(l.pending.map_values(|t: TaskView| kept(ListKind::Pending, t)) =~= l.pending);
    assert(l.done.map_values(|t: TaskView| kept(ListKind::Done, t)) =~= l.done);
}

} // verus!
