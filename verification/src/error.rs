//! The library's two error kinds: a malformed input (`ParseError`) and an
//! update aimed at an id that no task carries (`NotFound`).

use vstd::prelude::*;
use vstd::string::StringExecFns;

use crate::text::dec_digits;

verus! {

/// An error of a task-list operation or of command parsing.
#[derive(Debug)]
pub enum TodoError {
    /// An update named an id that no task in the list carries.
    NotFound { id: u32 },
    /// A command line, an id, a status synonym or an import payload was
    /// malformed; the message describes what was expected.
    ParseError { msg: String },
}

/// The mathematical model of a `TodoError`.
pub enum ErrorModel {
    NotFound { id: u32 },
    ParseError { msg: Seq<char> },
}

impl View for TodoError {
    type V = ErrorModel;

    open spec fn view(&self) -> ErrorModel {
        match self {
            TodoError::NotFound { id } => ErrorModel::NotFound { id: *id },
            TodoError::ParseError { msg } => ErrorModel::ParseError { msg: msg@ },
        }
    }
}

/// The message that reports a missing id.
pub open spec fn not_found_msg(id: u32) -> Seq<char> {
    "Task with id "@ + dec_digits(id as nat) + " was not found"@
}

impl ErrorModel {
    /// The descriptive message each error carries.
    pub open spec fn spec_message(self) -> Seq<char> {
        match self {
            ErrorModel::NotFound { id } => not_found_msg(id),
            ErrorModel::ParseError { msg } => msg,
        }
    }
}

impl TodoError {
    /// A `ParseError` with the given message.
    pub fn parse_error(msg: &str) -> (r: TodoError)
        ensures
            r@ == (ErrorModel::ParseError { msg: msg@ }),
    {
        TodoError::ParseError { msg: String::from_str(msg) }
    }

    /// A `NotFound` for the given id.
    pub fn not_found(id: u32) -> (r: TodoError)
        ensures
            r@ == (ErrorModel::NotFound { id }),
    {
        TodoError::NotFound { id }
    }

    /// The error's descriptive message.
    pub fn message(&self) -> (r: String)
        ensures
            r@ == self@.spec_message(),
    {
        match self {
            TodoError::NotFound { id } => {
                let mut s = String::from_str("Task with id ");
                let digits = crate::text::u32_to_string(*id);
                s.append(digits.as_str());
                s.append(" was not found");
                s
            },
            TodoError::ParseError { msg } => msg.clone(),
        }
    }
}

} // verus!
