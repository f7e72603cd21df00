//! Tasks and their lifecycle status, with the spec-level model that the rest
//! of the library's contracts are stated over.

use vstd::prelude::*;

use crate::error::{ErrorModel, TodoError};
use vstd::string::StringExecFns;

verus! {

/// Lifecycle state of a task. Any status may follow any other; there are no
/// transition guards.
#[derive(Clone, Copy, Debug, PartialEq, Eq, Structural)]
pub enum TaskStatus {
    NotStarted,
    InProgress,
    Completed,
}

impl TaskStatus {
    /// The name shown to users, as in the plain-text export.
    pub open spec fn spec_display_name(self) -> Seq<char> {
        match self {
            TaskStatus::NotStarted => "Not Started"@,
            TaskStatus::InProgress => "In Progress"@,
            TaskStatus::Completed => "Completed"@,
        }
    }

    /// The symbolic variant name, used by the structured exports.
    pub open spec fn spec_variant_name(self) -> Seq<char> {
        match self {
            TaskStatus::NotStarted => "NotStarted"@,
            TaskStatus::InProgress => "InProgress"@,
            TaskStatus::Completed => "Completed"@,
        }
    }

    /// The status named by a symbolic variant name, if any.
    pub open spec fn spec_from_variant_name(s: Seq<char>) -> Option<TaskStatus> {
        if s == "NotStarted"@ {
            Some(TaskStatus::NotStarted)
        } else if s == "InProgress"@ {
            Some(TaskStatus::InProgress)
        } else if s == "Completed"@ {
            Some(TaskStatus::Completed)
        } else {
            None
        }
    }

    /// The status named by a user-entered synonym, if any.
    pub open spec fn spec_parse(s: Seq<char>) -> Option<TaskStatus> {
        if s == "not started"@ || s == "ns"@ {
            Some(TaskStatus::NotStarted)
        } else if s == "in progress"@ || s == "ip"@ {
            Some(TaskStatus::InProgress)
        } else if s == "completed"@ || s == "c"@ {
            Some(TaskStatus::Completed)
        } else {
            None
        }
    }

    pub fn display_name(&self) -> (r: String)
        ensures
            r@ == self.spec_display_name(),
    {
        match self {
            TaskStatus::NotStarted => String::from_str("Not Started"),
            TaskStatus::InProgress => String::from_str("In Progress"),
            TaskStatus::Completed => String::from_str("Completed"),
        }
    }

    /// Parses a status synonym: `not started`/`ns`, `in progress`/`ip`,
    /// `completed`/`c`. Anything else is a `ParseError`.
    pub fn from_str(s: &str) -> (r: Result<TaskStatus, TodoError>)
        ensures
            match Self::spec_parse(s@) {
                Some(st) => r matches Ok(got) && got == st,
                None => r matches Err(e) && e@ == (ErrorModel::ParseError {
                    msg: "Error while parsing task status"@,
                }),
            },
    {
        let tok = crate::text::str_chars(s);
        Self::from_token(&tok)
    }

    /// Parses a status synonym given as a token, as `from_str` does.
    pub fn from_token(tok: &Vec<char>) -> (r: Result<TaskStatus, TodoError>)
        ensures
            match Self::spec_parse(tok@) {
                Some(st) => r matches Ok(got) && got == st,
                None => r matches Err(e) && e@ == (ErrorModel::ParseError {
                    msg: "Error while parsing task status"@,
                }),
            },
    {
        if crate::text::token_eq(tok, "not started") || crate::text::token_eq(tok, "ns") {
            Ok(TaskStatus::NotStarted)
        } else if crate::text::token_eq(tok, "in progress") || crate::text::token_eq(tok, "ip") {
            Ok(TaskStatus::InProgress)
        } else if crate::text::token_eq(tok, "completed") || crate::text::token_eq(tok, "c") {
            Ok(TaskStatus::Completed)
        } else {
            Err(TodoError::parse_error("Error while parsing task status"))
        }
    }
}

/// A single to-do entry. Identity is the `id`; uniqueness within a list is
/// expected of callers but not enforced here.
#[derive(Debug)]
pub struct Task {
    pub id: u32,
    pub description: String,
    pub status: TaskStatus,
}

/// The mathematical model of a `Task`.
pub struct TaskModel {
    pub id: u32,
    pub description: Seq<char>,
    pub status: TaskStatus,
}

impl View for Task {
    type V = TaskModel;

    open spec fn view(&self) -> TaskModel {
        TaskModel { id: self.id, description: self.description@, status: self.status }
    }
}

impl Clone for Task {
    /// An exact copy: same id, description and status.
    fn clone(&self) -> (r: Self)
        ensures
            r@ == self@,
    {
        Task { id: self.id, description: self.description.clone(), status: self.status }
    }
}

impl Task {
    /// A fresh task: the given id and description, status `NotStarted`.
    pub fn new(id: u32, description: String) -> (r: Task)
        ensures
            r@ == (TaskModel { id, description: description@, status: TaskStatus::NotStarted }),
    {
        Task { id, description, status: TaskStatus::NotStarted }
    }
}

} // verus!
