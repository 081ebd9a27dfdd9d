//! The task record and its state transitions.

use vstd::prelude::*;
use crate::clock::{is_date_text, utc_today};
use crate::text::{chars_of, string_of, trim, trimmed};

verus! {

/// The mathematical value of a task.
pub struct TaskView {
    pub text: Seq<char>,
    pub date_added: Seq<char>,
    pub completed: bool,
    pub date_completed: Seq<char>,
}

impl TaskView {
    /// The task with no text, no dates, and not completed.
    pub open spec fn blank() -> TaskView {
        TaskView {
            text: Seq::empty(),
            date_added: Seq::empty(),
            completed: false,
            date_completed: Seq::empty(),
        }
    }

    /// A new pending task: `text` trimmed, added on `today`.
    pub open spec fn added(text: Seq<char>, today: Seq<char>) -> TaskView {
        TaskView {
            text: trim(text),
            date_added: today,
            completed: false,
            date_completed: Seq::empty(),
        }
    }

    /// The same task, completed on `today`.
    pub open spec fn mark_completed(self, today: Seq<char>) -> TaskView {
        TaskView { completed: true, date_completed: today, ..self }
    }

    /// The same task, pending again.
    pub open spec fn mark_pending(self) -> TaskView {
        TaskView { completed: false, date_completed: Seq::empty(), ..self }
    }
}

/// An ASCII digit.
pub open spec fn is_digit(c: char) -> bool {
    0x30 <= c as u32 <= 0x39
}

/// A date written as `YYYY-MM-DD`: four digits, two and two, with a hyphen
/// after the year and after the month.
pub open spec fn is_iso_date(d: Seq<char>) -> bool {
    &&& d.len() == 10
    &&& d[4] == '-'
    &&& d[7] == '-'
    &&& forall|i: int| 0 <= i < 10 && i != 4 && i != 7 ==> is_digit(#[trigger] d[i])
}

/// One to-do item.
#[derive(Debug, PartialEq, Eq)]
pub struct TodoStruct {
    /// What is to be done, without white space at either end.
    pub text: String,
    /// The day the task was added, as `YYYY-MM-DD`.
    pub date_added: String,
    /// Whether the task is done.
    pub completed: bool,
    /// The day the task was completed; empty while it is pending.
    pub date_completed: String,
}

impl View for TodoStruct {
    type V = TaskView;

    open spec fn view(&self) -> TaskView {
        TaskView {
            text: self.text@,
            date_added: self.date_added@,
            completed: self.completed,
            date_completed: self.date_completed@,
        }
    }
}

impl Clone for TodoStruct {
    fn clone(&self) -> (r: Self)
        ensures
            r@ == self@,
    {
        TodoStruct {
            text: self.text.clone(),
            date_added: self.date_added.clone(),
            completed: self.completed,
            date_completed: self.date_completed.clone(),
        }
    }
}

impl Default for TodoStruct {
    fn default() -> (r: Self)
        ensures
            r@ == TaskView::blank(),
    {
        TodoStruct {
            text: String::new(),
            date_added: String::new(),
            completed: false,
            date_completed: String::new(),
        }
    }
}

impl TodoStruct {
    /// Resets the task to the blank one.
    pub fn clear(&mut self)
        ensures
            final(self)@ == TaskView::blank(),
    {
        self.text = String::new();
        self.date_added = String::new();
        self.completed = false;
        self.date_completed = String::new();
    }

    /// Marks the task as completed on `today`.
    pub fn mark_completed(&mut self, today: &str)
        ensures
            final(self)@ == old(self)@.mark_completed(today@),
    {
        self.completed = true;
        self.date_completed = today.to_owned();
    }

    /// Marks the task as completed on the current UTC date.
    pub fn completed(&mut self)
        ensures
            is_date_text(final(self)@.date_completed),
            final(self)@ == old(self)@.mark_completed(final(self)@.date_completed),
    {
        let date = utc_today();
        self.mark_completed(date.as_str());
    }

    /// Marks the task as pending and forgets when it was completed.
    pub fn not_completed(&mut self)
        ensures
            final(self)@ == old(self)@.mark_pending(),
    {
        self.completed = false;
        self.date_completed = String::new();
    }
}

/// A new pending task with the trimmed `text`, added on `today`.
pub fn add_task(text: &str, today: &str) -> (task: TodoStruct)
    ensures
        task@ == TaskView::added(text@, today@),
{
    let chars = chars_of(text);
    TodoStruct {
        text: string_of(trimmed(chars.as_slice())),
        date_added: today.to_owned(),
        completed: false,
        date_completed: String::new(),
    }
}

} // verus!
