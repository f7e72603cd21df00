//! The three export formats, each a pure function of the task sequence,
//! dispatched through the `Formatter` strategy trait.

use vstd::prelude::*;

use crate::error::TodoError;
use crate::json::{json_string, quoted, render_task_list};
use crate::list::TaskList;
use crate::task::{Task, TaskModel, TaskStatus};
use crate::text::{
    ascii_lower, chars_to_string, dec_digits, is_dec_digit, push_chars, push_dec_u32,
    push_str_chars, str_chars, to_ascii_lower, token_eq,
};

verus! {

// ---------------------------------------------------------------------------
// Plain text
// ---------------------------------------------------------------------------
/// One plain-text line: `<id>: <description>\t<status display name>`.
pub open spec fn render_line(t: TaskModel) -> Seq<char> {
    dec_digits(t.id as nat) + ": "@ + t.description + "\t"@ + t.status.spec_display_name()
}

/// The lines joined by a newline; no trailing newline.
pub open spec fn render_plaintext(ts: Seq<TaskModel>) -> Seq<char>
    decreases ts.len(),
{
    if ts.len() == 0 {
        Seq::<char>::empty()
    } else if ts.len() == 1 {
        render_line(ts[0])
    } else {
        render_plaintext(ts.drop_last()) + "\n"@ + render_line(ts.last())
    }
}

fn push_line(out: &mut Vec<char>, t: &Task)
    ensures
        final(out)@ == old(out)@ + render_line(t@),
{
    push_dec_u32(out, t.id);
    push_str_chars(out, ": ");
    let desc = str_chars(t.description.as_str());
    push_chars(out, &desc);
    push_str_chars(out, "\t");
    match t.status {
        TaskStatus::NotStarted => push_str_chars(out, "Not Started"),
        TaskStatus::InProgress => push_str_chars(out, "In Progress"),
        TaskStatus::Completed => push_str_chars(out, "Completed"),
    }
    proof {
        assert(out@ =~= old(out)@ + render_line(t@));
    }
}

/// The plain-text export of `list`.
pub fn plaintext_string(list: &TaskList) -> (r: String)
    ensures
        r@ == render_plaintext(list@),
{
    let n = list.tasks.len();
    let mut out: Vec<char> = Vec::new();
    if n == 0 {
        proof {
            assert(out@ =~= render_plaintext(list@));
        }
        return chars_to_string(&out);
    }
    push_line(&mut out, &list.tasks[0]);
    proof {
        assert(list@.take(1)[0] == list@[0]);
        assert(out@ =~= render_plaintext(list@.take(1)));
    }
    let mut i: usize = 1;
    while i < n
        invariant
            n == list.tasks@.len(),
            1 <= i <= n,
            out@ == render_plaintext(list@.take(i as int)),
        decreases n - i,
    {
        push_str_chars(&mut out, "\n");
        push_line(&mut out, &list.tasks[i]);
        proof {
            assert(list@.take(i + 1 as int).drop_last() =~= list@.take(i as int));
            assert(list@.take(i + 1 as int).last() == list@[i as int]);
            assert(list@[i as int] == list.tasks@[i as int]@);
            assert(out@ =~= render_plaintext(list@.take(i + 1 as int)));
        }
        i = i + 1;
    }
    proof {
        assert(list@.take(n as int) =~= list@);
    }
    chars_to_string(&out)
}

// ---------------------------------------------------------------------------
// YAML
// ---------------------------------------------------------------------------
pub open spec fn is_ascii_letter(c: char) -> bool {
    ('a' as u32 <= c as u32 && c as u32 <= 'z' as u32) || ('A' as u32 <= c as u32 && c as u32
        <= 'Z' as u32)
}

/// Characters that can stand in a plain (unquoted) YAML scalar as this
/// library emits them.
pub open spec fn yaml_plain_char(c: char) -> bool {
    is_ascii_letter(c) || is_dec_digit(c) || c == ' ' || c == '_' || c == '-' || c == '.'
}

/// Words that YAML readers may take for a boolean or a null rather than a
/// string, compared case-insensitively.
pub open spec fn yaml_word_ambiguous(s: Seq<char>) -> bool {
    let low = ascii_lower(s);
    ||| low == "true"@
    ||| low == "false"@
    ||| low == "yes"@
    ||| low == "no"@
    ||| low == "on"@
    ||| low == "off"@
    ||| low == "null"@
    ||| low == "y"@
    ||| low == "n"@
}

/// When a string may be emitted as a plain YAML scalar: nonempty, opening
/// with a letter, made of plain characters, not ending in a space, and not
/// mistakable for a boolean or null.
pub open spec fn yaml_plain_ok(s: Seq<char>) -> bool {
    &&& s.len() > 0
    &&& is_ascii_letter(s[0])
    &&& forall|i: int| 0 <= i < s.len() ==> yaml_plain_char(#[trigger] s[i])
    &&& s.last() != ' '
    &&& !yaml_word_ambiguous(s)
}

/// A string value in the YAML export: plain where that is unambiguous,
/// double-quoted (with the JSON escapes, which YAML shares) otherwise.
pub open spec fn yaml_scalar(s: Seq<char>) -> Seq<char> {
    if yaml_plain_ok(s) {
        s
    } else {
        quoted(s)
    }
}

/// One task as a YAML block-sequence entry.
pub open spec fn render_yaml_item(t: TaskModel) -> Seq<char> {
    "- id: "@ + dec_digits(t.id as nat) + "\n  description: "@ + yaml_scalar(t.description)
        + "\n  status: "@ + t.status.spec_variant_name() + "\n"@
}

pub open spec fn render_yaml_items(ts: Seq<TaskModel>) -> Seq<char>
    decreases ts.len(),
{
    if ts.len() == 0 {
        Seq::<char>::empty()
    } else {
        render_yaml_items(ts.drop_last()) + render_yaml_item(ts.last())
    }
}

/// The whole YAML export: the `tasks` key over the block sequence, or an
/// empty flow sequence when there are no tasks.
pub open spec fn render_yaml(ts: Seq<TaskModel>) -> Seq<char> {
    if ts.len() == 0 {
        "tasks: []\n"@
    } else {
        "tasks:\n"@ + render_yaml_items(ts)
    }
}

/// Whether `s` may stand as a plain YAML scalar, as `yaml_plain_ok` says.
fn yaml_plain_ok_exec(s: &Vec<char>) -> (r: bool)
    ensures
        r == yaml_plain_ok(s@),
{
    let n = s.len();
    if n == 0 {
        return false;
    }
    let first = s[0] as u32;
    if !((first >= 97 && first <= 122) || (first >= 65 && first <= 90)) {
        return false;
    }
    if s[n - 1] == ' ' {
        return false;
    }
    let mut i: usize = 0;
    while i < n
        invariant
            n == s@.len(),
            i <= n,
            forall|j: int| 0 <= j < i ==> yaml_plain_char(#[trigger] s@[j]),
        decreases n - i,
    {
        let c = s[i];
        let u = c as u32;
        let plain = (u >= 97 && u <= 122) || (u >= 65 && u <= 90) || (u >= 48 && u <= 57) || c
            == ' ' || c == '_' || c == '-' || c == '.';
        if !plain {
            return false;
        }
        i = i + 1;
    }
    let low = to_ascii_lower(s);
    let ambiguous = token_eq(&low, "true") || token_eq(&low, "false") || token_eq(&low, "yes")
        || token_eq(&low, "no") || token_eq(&low, "on") || token_eq(&low, "off") || token_eq(
        &low,
        "null",
    ) || token_eq(&low, "y") || token_eq(&low, "n");
    !ambiguous
}

fn push_yaml_scalar(out: &mut Vec<char>, s: &Vec<char>)
    ensures
        final(out)@ == old(out)@ + yaml_scalar(s@),
{
    if yaml_plain_ok_exec(s) {
        push_chars(out, s);
    } else {
        crate::json::push_quoted(out, s);
    }
}

fn push_yaml_item(out: &mut Vec<char>, t: &Task)
    ensures
        final(out)@ == old(out)@ + render_yaml_item(t@),
{
    push_str_chars(out, "- id: ");
    push_dec_u32(out, t.id);
    push_str_chars(out, "\n  description: ");
    let desc = str_chars(t.description.as_str());
    push_yaml_scalar(out, &desc);
    push_str_chars(out, "\n  status: ");
    match t.status {
        TaskStatus::NotStarted => push_str_chars(out, "NotStarted"),
        TaskStatus::InProgress => push_str_chars(out, "InProgress"),
        TaskStatus::Completed => push_str_chars(out, "Completed"),
    }
    push_str_chars(out, "\n");
    proof {
        assert(out@ =~= old(out)@ + render_yaml_item(t@));
    }
}

/// The YAML export of `list`.
pub fn yaml_string(list: &TaskList) -> (r: String)
    ensures
        r@ == render_yaml(list@),
{
    let n = list.tasks.len();
    let mut out: Vec<char> = Vec::new();
    if n == 0 {
        push_str_chars(&mut out, "tasks: []\n");
        proof {
            assert(out@ =~= render_yaml(list@));
        }
        return chars_to_string(&out);
    }
    push_str_chars(&mut out, "tasks:\n");
    proof {
        assert(list@.take(0) =~= Seq::<TaskModel>::empty());
        assert(out@ =~= "tasks:\n"@ + render_yaml_items(list@.take(0)));
    }
    let mut i: usize = 0;
    while i < n
        invariant
            n == list.tasks@.len(),
            i <= n,
            out@ == "tasks:\n"@ + render_yaml_items(list@.take(i as int)),
        decreases n - i,
    {
        push_yaml_item(&mut out, &list.tasks[i]);
        proof {
            assert(list@.take(i + 1 as int).drop_last() =~= list@.take(i as int));
            assert(list@.take(i + 1 as int).last() == list@[i as int]);
            assert(list@[i as int] == list.tasks@[i as int]@);
            assert(out@ =~= "tasks:\n"@ + render_yaml_items(list@.take(i + 1 as int)));
        }
        i = i + 1;
    }
    proof {
        assert(list@.take(n as int) =~= list@);
    }
    chars_to_string(&out)
}

// ---------------------------------------------------------------------------
// The strategy trait and its three implementations
// ---------------------------------------------------------------------------
/// A rendering strategy: a pure function of the task sequence to text.
/// `format` never fails; the `Result` shape is part of the interface so that
/// callers handle all exporters alike.
pub trait Formatter: Sized {
    /// The exact text this formatter produces for a task sequence.
    spec fn spec_format(&self, tasks: Seq<TaskModel>) -> Seq<char>;

    /// Renders `tasks`.
    fn format(&self, tasks: &TaskList) -> (r: Result<String, TodoError>)
        ensures
            r matches Ok(out) && out@ == self.spec_format(tasks@),
    ;
}

/// Renders one line per task, `<id>: <description>\t<status>`.
pub struct PlaintextFormatter;

/// Renders the pretty-printed JSON object.
pub struct JsonFormatter;

/// Renders the YAML block form.
pub struct YamlFormatter;

impl PlaintextFormatter {
    pub fn new() -> (r: Self) {
        PlaintextFormatter
    }
}

impl JsonFormatter {
    pub fn new() -> (r: Self) {
        JsonFormatter
    }
}

impl YamlFormatter {
    pub fn new() -> (r: Self) {
        YamlFormatter
    }
}

impl Formatter for PlaintextFormatter {
    open spec fn spec_format(&self, tasks: Seq<TaskModel>) -> Seq<char> {
        render_plaintext(tasks)
    }

    fn format(&self, tasks: &TaskList) -> (r: Result<String, TodoError>) {
        Ok(plaintext_string(tasks))
    }
}

impl Formatter for JsonFormatter {
    open spec fn spec_format(&self, tasks: Seq<TaskModel>) -> Seq<char> {
        render_task_list(tasks)
    }

    fn format(&self, tasks: &TaskList) -> (r: Result<String, TodoError>) {
        Ok(json_string(tasks))
    }
}

impl Formatter for YamlFormatter {
    open spec fn spec_format(&self, tasks: Seq<TaskModel>) -> Seq<char> {
        render_yaml(tasks)
    }

    fn format(&self, tasks: &TaskList) -> (r: Result<String, TodoError>) {
        Ok(yaml_string(tasks))
    }
}

impl TaskList {
    /// Renders the current tasks with the given strategy; read-only, and
    /// always `Ok` with exactly the strategy's text.
    pub fn export_to_string<F: Formatter>(&self, formatter: &F) -> (r: Result<String, TodoError>)
        ensures
            r matches Ok(out) && out@ == formatter.spec_format(self@),
    {
        formatter.format(self)
    }
}

} // verus!
