//! The command parser: one line of user input becomes a structured command.
//! Tokenization splits on single spaces, so only the token immediately after
//! a command keyword is captured as a value; any further tokens on the line
//! are discarded. That quirk of the line syntax is deliberate here.

use vstd::prelude::*;

use crate::error::{ErrorModel, TodoError};
use crate::text::{
    ascii_lower, chars_to_string, parse_u32, parse_u32_token, split_spaces, split_tokens,
    str_chars, to_ascii_lower, token_eq, token_views,
};

verus! {

/// An export format selector.
#[derive(Clone, Copy, Debug, PartialEq, Eq, Structural)]
pub enum Format {
    Json,
    Yaml,
    Plaintext,
}

impl Format {
    /// The format named by a selector token: `j`/`json`, `y`/`yaml`,
    /// `p`/`plaintext`.
    pub open spec fn spec_parse(s: Seq<char>) -> Option<Format> {
        if s == "j"@ || s == "json"@ {
            Some(Format::Json)
        } else if s == "y"@ || s == "yaml"@ {
            Some(Format::Yaml)
        } else if s == "p"@ || s == "plaintext"@ {
            Some(Format::Plaintext)
        } else {
            None
        }
    }

    /// Parses a format selector given as a token, as `from_str` does.
    pub fn from_token(tok: &Vec<char>) -> (r: Result<Format, TodoError>)
        ensures
            match Self::spec_parse(tok@) {
                Some(f) => r matches Ok(got) && got == f,
                None => r matches Err(e) && e@ == (ErrorModel::ParseError {
                    msg: "Invalid export format."@,
                }),
            },
    {
        if token_eq(tok, "j") || token_eq(tok, "json") {
            Ok(Format::Json)
        } else if token_eq(tok, "y") || token_eq(tok, "yaml") {
            Ok(Format::Yaml)
        } else if token_eq(tok, "p") || token_eq(tok, "plaintext") {
            Ok(Format::Plaintext)
        } else {
            Err(TodoError::parse_error("Invalid export format."))
        }
    }

    /// Parses a format selector; anything unrecognized is a `ParseError`.
    pub fn from_str(s: &str) -> (r: Result<Format, TodoError>)
        ensures
            match Self::spec_parse(s@) {
                Some(f) => r matches Ok(got) && got == f,
                None => r matches Err(e) && e@ == (ErrorModel::ParseError {
                    msg: "Invalid export format."@,
                }),
            },
    {
        let tok = str_chars(s);
        Self::from_token(&tok)
    }
}

/// The task field an update aims at.
#[derive(Clone, Copy, Debug, PartialEq, Eq, Structural)]
pub enum TaskField {
    Description,
    Status,
}

impl TaskField {
    /// The field named by a selector token: `d`/`description`, `s`/`status`.
    pub open spec fn spec_parse(s: Seq<char>) -> Option<TaskField> {
        if s == "description"@ || s == "d"@ {
            Some(TaskField::Description)
        } else if s == "status"@ || s == "s"@ {
            Some(TaskField::Status)
        } else {
            None
        }
    }

    /// Parses a field selector given as a token, as `from_str` does.
    pub fn from_token(tok: &Vec<char>) -> (r: Result<TaskField, TodoError>)
        ensures
            match Self::spec_parse(tok@) {
                Some(f) => r matches Ok(got) && got == f,
                None => r matches Err(e) && e@ == (ErrorModel::ParseError {
                    msg: "Invalid field argument"@,
                }),
            },
    {
        if token_eq(tok, "description") || token_eq(tok, "d") {
            Ok(TaskField::Description)
        } else if token_eq(tok, "status") || token_eq(tok, "s") {
            Ok(TaskField::Status)
        } else {
            Err(TodoError::parse_error("Invalid field argument"))
        }
    }

    /// Parses a field selector; anything unrecognized is a `ParseError`.
    pub fn from_str(s: &str) -> (r: Result<TaskField, TodoError>)
        ensures
            match Self::spec_parse(s@) {
                Some(f) => r matches Ok(got) && got == f,
                None => r matches Err(e) && e@ == (ErrorModel::ParseError {
                    msg: "Invalid field argument"@,
                }),
            },
    {
        let tok = str_chars(s);
        Self::from_token(&tok)
    }
}

/// A parsed user instruction.
#[derive(Debug)]
pub enum Command {
    Add { val: String },
    Remove { id: u32 },
    Update { id: u32, new_val: String, field: TaskField },
    Export { format: Format, out_file: Option<String> },
    Quit,
}

/// The mathematical model of a `Command`.
pub enum CommandModel {
    Add { val: Seq<char> },
    Remove { id: u32 },
    Update { id: u32, new_val: Seq<char>, field: TaskField },
    Export { format: Format, out_file: Option<Seq<char>> },
    Quit,
}

impl View for Command {
    type V = CommandModel;

    open spec fn view(&self) -> CommandModel {
        match self {
            Command::Add { val } => CommandModel::Add { val: val@ },
            Command::Remove { id } => CommandModel::Remove { id: *id },
            Command::Update { id, new_val, field } => CommandModel::Update {
                id: *id,
                new_val: new_val@,
                field: *field,
            },
            Command::Export { format, out_file } => CommandModel::Export {
                format: *format,
                out_file: match out_file {
                    Some(f) => Some(f@),
                    None => None,
                },
            },
            Command::Quit => CommandModel::Quit,
        }
    }
}

/// What one line of input means, or the message of the parse failure. The
/// first token selects the command; `add` and `update` capture exactly one
/// value token; `update`'s field selector is matched case-insensitively;
/// `export` takes a format selector and an optional destination token.
pub open spec fn spec_parse_command(s: Seq<char>) -> Result<CommandModel, Seq<char>> {
    let parts = split_spaces(s);
    if parts[0] == "a"@ || parts[0] == "add"@ {
        if parts.len() < 2 {
            Err("Invalid arguments for add."@)
        } else {
            Ok(CommandModel::Add { val: parts[1] })
        }
    } else if parts[0] == "r"@ || parts[0] == "remove"@ {
        if parts.len() < 2 {
            Err("Invalid arguments for remove."@)
        } else {
            match parse_u32(parts[1]) {
                Some(id) => Ok(CommandModel::Remove { id }),
                None => Err("Invalid task id."@),
            }
        }
    } else if parts[0] == "u"@ || parts[0] == "update"@ {
        if parts.len() < 4 {
            Err("Invalid arguments for update."@)
        } else {
            match parse_u32(parts[1]) {
                Some(id) => match TaskField::spec_parse(ascii_lower(parts[2])) {
                    Some(field) => Ok(CommandModel::Update { id, new_val: parts[3], field }),
                    None => Err("Invalid field argument"@),
                },
                None => Err("Invalid task id."@),
            }
        }
    } else if parts[0] == "q"@ || parts[0] == "quit"@ {
        Ok(CommandModel::Quit)
    } else if parts[0] == "e"@ || parts[0] == "export"@ {
        if parts.len() < 2 {
            Err("Invalid arguments for export."@)
        } else {
            match Format::spec_parse(parts[1]) {
                Some(format) => Ok(
                    CommandModel::Export {
                        format,
                        out_file: if parts.len() >= 3 {
                            Some(parts[2])
                        } else {
                            None
                        },
                    },
                ),
                None => Err("Invalid export format."@),
            }
        }
    } else {
        Err("Invalid argument."@)
    }
}

impl Command {
    /// Parses one line of input, exactly as `spec_parse_command` describes.
    pub fn from_str(val: &str) -> (r: Result<Command, TodoError>)
        ensures
            match spec_parse_command(val@) {
                Ok(c) => r matches Ok(cmd) && cmd@ == c,
                Err(m) => r matches Err(e) && e@ == (ErrorModel::ParseError { msg: m }),
            },
    {
        let chars = str_chars(val);
        let parts = split_tokens(&chars);
        proof {
            assert forall|k: int| 0 <= k < parts@.len() implies #[trigger] split_spaces(val@)[k]
                == parts@[k]@ by {
                assert(token_views(parts@)[k] == parts@[k]@);
            }
            assert(split_spaces(val@).len() == parts@.len());
        }
        let p0 = &parts[0];
        if token_eq(p0, "a") || token_eq(p0, "add") {
            if parts.len() < 2 {
                return Err(TodoError::parse_error("Invalid arguments for add."));
            }
            let v = chars_to_string(&parts[1]);
            Ok(Command::Add { val: v })
        } else if token_eq(p0, "r") || token_eq(p0, "remove") {
            if parts.len() < 2 {
                return Err(TodoError::parse_error("Invalid arguments for remove."));
            }
            match parse_u32_token(&parts[1]) {
                Some(id) => Ok(Command::Remove { id }),
                None => Err(TodoError::parse_error("Invalid task id.")),
            }
        } else if token_eq(p0, "u") || token_eq(p0, "update") {
            if parts.len() < 4 {
                return Err(TodoError::parse_error("Invalid arguments for update."));
            }
            let id = match parse_u32_token(&parts[1]) {
                Some(id) => id,
                None => {
                    return Err(TodoError::parse_error("Invalid task id."));
                },
            };
            let low = to_ascii_lower(&parts[2]);
            let field = match TaskField::from_token(&low) {
                Ok(f) => f,
                Err(e) => {
                    return Err(e);
                },
            };
            let v = chars_to_string(&parts[3]);
            Ok(Command::Update { id, new_val: v, field })
        } else if token_eq(p0, "q") || token_eq(p0, "quit") {
            Ok(Command::Quit)
        } else if token_eq(p0, "e") || token_eq(p0, "export") {
            if parts.len() < 2 {
                return Err(TodoError::parse_error("Invalid arguments for export."));
            }
            let format = match Format::from_token(&parts[1]) {
                Ok(f) => f,
                Err(e) => {
                    return Err(e);
                },
            };
            let out_file = if parts.len() >= 3 {
                Some(chars_to_string(&parts[2]))
            } else {
                None
            };
            Ok(Command::Export { format, out_file })
        } else {
            Err(TodoError::parse_error("Invalid argument."))
        }
    }
}

} // verus!
