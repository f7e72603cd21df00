//! An in-memory TODO-list library: tasks with an id, a description and a
//! lifecycle status, held in an ordered list, together with a command parser
//! for an interactive session and exporters to plain text, JSON and YAML.
//!
//! Every operation carries a contract over a mathematical model of the data:
//! a task list is a sequence of task models, and each exporter's output is a
//! spec-level function of that sequence.

pub mod command;
pub mod error;
pub mod fmt;
pub mod json;
pub mod list;
pub mod round_trip;
pub mod task;
pub mod text;
