//! The task of a spawned agent: given as an argument or piped on stdin,
//! never both, and never blank.

use vstd::prelude::*;

use crate::text::{trim, trim_seq};

verus! {

/// Why no task could be taken.
#[derive(PartialEq, Eq, Structural, Clone, Copy, Debug)]
pub enum TaskError {
    /// The task was given both as an argument and on stdin.
    BothSources,
    /// The task is empty or blank.
    Missing,
}

impl TaskError {
    /// What the user is told.
    pub fn message(&self) -> (r: &'static str)
        ensures
            r@ == match *self {
                TaskError::BothSources => "Pass the task as an argument or --stdin, not both."@,
                TaskError::Missing => "Describe the task for the spawned agent: `orx agent spawn \"<task>\"`."@,
            },
    {
        match self {
            TaskError::BothSources => "Pass the task as an argument or --stdin, not both.",
            TaskError::Missing => "Describe the task for the spawned agent: `orx agent spawn \"<task>\"`.",
        }
    }
}

/// Whether both an argument and `--stdin` were given: that is ambiguous,
/// so neither is used (and stdin is not read).
pub fn check_task_sources(task_given: bool, stdin: bool) -> (r: Result<(), TaskError>)
    ensures
        r == (if task_given && stdin {
            Err(TaskError::BothSources)
        } else {
            Ok::<(), TaskError>(())
        }),
{
    if task_given && stdin {
        Err(TaskError::BothSources)
    } else {
        Ok(())
    }
}

/// A task with surrounding white space trimmed; an error when nothing is
/// left.
pub fn non_empty(text: String) -> (r: Result<String, TaskError>)
    ensures
        match r {
            Ok(t) => trim_seq(text@).len() > 0 && t@ == trim_seq(text@),
            Err(e) => trim_seq(text@).len() == 0 && e == TaskError::Missing,
        },
{
    let trimmed = trim(text.as_str());
    if trimmed.as_str().is_empty() {
        return Err(TaskError::Missing);
    }
    Ok(trimmed)
}

/// The task of a spawn: from stdin when `--stdin` was given (its text is
/// `stdin_text`), else from the argument (none is an empty task); trimmed.
/// An argument together with `--stdin` is refused.
pub fn task_text(task: Option<String>, stdin_text: Option<String>) -> (r: Result<String, TaskError>)
    ensures
        match (task, stdin_text) {
            (Some(_), Some(_)) => r == Err::<String, TaskError>(TaskError::BothSources),
            (_, Some(s)) | (Some(s), None) => match r {
                Ok(t) => trim_seq(s@).len() > 0 && t@ == trim_seq(s@),
                Err(e) => trim_seq(s@).len() == 0 && e == TaskError::Missing,
            },
            (None, None) => r == Err::<String, TaskError>(TaskError::Missing),
        },
{
    match stdin_text {
        Some(s) => {
            if task.is_some() {
                return Err(TaskError::BothSources);
            }
            non_empty(s)
        },
        None => match task {
            Some(t) => non_empty(t),
            None => {
                let r = non_empty(String::new());
                assert(trim_seq(Seq::<char>::empty()).len() == 0);
                r
            },
        },
    }
}

} // verus!
