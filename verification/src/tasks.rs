//! A task list and the commands that change it.
//!
//! Tasks are numbered from one, in the order in which they were added.

use vstd::prelude::*;

verus! {

/// One task.
#[derive(Debug, PartialEq, Eq)]
pub struct Task {
    pub title: String,
    pub done: bool,
}

/// The mathematical value of a [`Task`].
pub struct TaskView {
    pub title: Seq<char>,
    pub done: bool,
}

impl View for Task {
    type V = TaskView;

    open spec fn view(&self) -> TaskView {
        TaskView { title: self.title@, done: self.done }
    }
}

/// The mathematical value of a task list.
pub open spec fn list_view(tasks: Seq<Task>) -> Seq<TaskView> {
    tasks.map_values(|task: Task| task@)
}

/// What can be asked of a task list.
#[derive(Debug, PartialEq, Eq)]
pub enum Command {
    /// Show the tasks.
    List,
    /// Add a task that is not done.
    Add { title: String },
    /// Mark the task with this number as done.
    Done { index: usize },
    /// Take the task with this number off the list.
    Delete { index: usize },
}

/// The mathematical value of a [`Command`].
pub enum CommandView {
    List,
    Add { title: Seq<char> },
    Done { index: nat },
    Delete { index: nat },
}

impl View for Command {
    type V = CommandView;

    open spec fn view(&self) -> CommandView {
        match *self {
            Command::List => CommandView::List,
            Command::Add { title } => CommandView::Add { title: title@ },
            Command::Done { index } => CommandView::Done { index: index as nat },
            Command::Delete { index } => CommandView::Delete { index: index as nat },
        }
    }
}

/// What came of a command.
#[derive(Debug, PartialEq, Eq)]
pub enum Outcome {
    /// The list is to be shown; it is unchanged.
    Listed,
    /// A task with this title was added.
    Added(String),
    /// The task with this number is done now.
    MarkedDone(usize),
    /// The task with this title was taken off the list.
    Deleted(String),
    /// There is no task with the number given; the list is unchanged.
    InvalidNumber,
}

/// The mathematical value of an [`Outcome`].
pub enum OutcomeView {
    Listed,
    Added(Seq<char>),
    MarkedDone(nat),
    Deleted(Seq<char>),
    InvalidNumber,
}

impl View for Outcome {
    type V = OutcomeView;

    open spec fn view(&self) -> OutcomeView {
        match *self {
            Outcome::Listed => OutcomeView::Listed,
            Outcome::Added(title) => OutcomeView::Added(title@),
            Outcome::MarkedDone(index) => OutcomeView::MarkedDone(index as nat),
            Outcome::Deleted(title) => OutcomeView::Deleted(title@),
            Outcome::InvalidNumber => OutcomeView::InvalidNumber,
        }
    }
}

impl OutcomeView {
    /// Whether the list was changed, so that it has to be stored again.
    pub open spec fn changed(self) -> bool {
        self is Added || self is MarkedDone || self is Deleted
    }
}

/// Whether `index` is the number of a task in a list of `len` tasks.
pub open spec fn is_task_number(index: nat, len: nat) -> bool {
    0 < index <= len
}

/// The list after a command, and what came of the command.
pub open spec fn applied(tasks: Seq<TaskView>, command: CommandView) -> (Seq<TaskView>, OutcomeView) {
    match command {
        CommandView::List => (tasks, OutcomeView::Listed),
        CommandView::Add { title } => (
            tasks.push(TaskView { title, done: false }),
            OutcomeView::Added(title),
        ),
        CommandView::Done { index } => if is_task_number(index, tasks.len()) {
            (
                tasks.update(index - 1, TaskView { done: true, ..tasks[index - 1] }),
                OutcomeView::MarkedDone(index),
            )
        } else {
            (tasks, OutcomeView::InvalidNumber)
        },
        CommandView::Delete { index } => if is_task_number(index, tasks.len()) {
            (tasks.remove(index - 1), OutcomeView::Deleted(tasks[index - 1].title))
        } else {
            (tasks, OutcomeView::InvalidNumber)
        },
    }
}

/// Carries out `command` on `tasks`.
pub fn apply(tasks: &mut Vec<Task>, command: Command) -> (outcome: Outcome)
    ensures
        (list_view(final(tasks)@), outcome@) == applied(list_view(old(tasks)@), command@),
{
    match command {
        Command::List => Outcome::Listed,
        Command::Add { title } => {
            let shown: String = title.clone();
            tasks.push(Task { title, done: false });
            assert(list_view(tasks@) =~= list_view(old(tasks)@).push(
                TaskView { title: title@, done: false },
            ));
            Outcome::Added(shown)
        },
        Command::Done { index } => {
            if index > 0 && index <= tasks.len() {
                let task: Task = tasks.remove(index - 1);
                tasks.insert(index - 1, Task { title: task.title, done: true });
                assert(list_view(tasks@) =~= list_view(old(tasks)@).update(
                    index - 1,
                    TaskView { done: true, ..list_view(old(tasks)@)[index - 1] },
                ));
                Outcome::MarkedDone(index)
            } else {
                Outcome::InvalidNumber
            }
        },
        Command::Delete { index } => {
            if index > 0 && index <= tasks.len() {
                let task: Task = tasks.remove(index - 1);
                assert(list_view(tasks@) =~= list_view(old(tasks)@).remove(index - 1));
                Outcome::Deleted(task.title)
            } else {
                Outcome::InvalidNumber
            }
        },
    }
}

/// Whether an outcome changed the list.
pub fn changed(outcome: &Outcome) -> (changed: bool)
    ensures
        changed == outcome@.changed(),
{
    match outcome {
        Outcome::Added(_) | Outcome::MarkedDone(_) | Outcome::Deleted(_) => true,
        Outcome::Listed | Outcome::InvalidNumber => false,
    }
}

/// How a task's state is shown in a listing.
pub fn state_label(task: &Task) -> (label: &'static str)
    ensures
        label@ == if task.done {
            "Done"@
        } else {
            "TBD"@
        },
{
    if task.done {
        "Done"
    } else {
        "TBD"
    }
}

} // verus!
