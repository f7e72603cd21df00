//! The structured export format and its reader: a JSON object with a single
//! `tasks` key holding the list of task objects, pretty-printed with
//! two-space indentation. `parse_task_list` accepts the same shape with any
//! whitespace between tokens, and is the importer's definition of
//! well-formedness.

use vstd::prelude::*;

use crate::error::TodoError;
use crate::list::TaskList;
use crate::task::{Task, TaskModel, TaskStatus};
use crate::text::{
    chars_to_string, dec_digits, dec_val, is_dec_digit, push_dec_u32, push_str_chars, str_chars,
};

verus! {

/// The lowercase hexadecimal digit for a value below sixteen.
pub open spec fn spec_hex_digit(d: int) -> char {
    if d == 0 {
        '0'
    } else if d == 1 {
        '1'
    } else if d == 2 {
        '2'
    } else if d == 3 {
        '3'
    } else if d == 4 {
        '4'
    } else if d == 5 {
        '5'
    } else if d == 6 {
        '6'
    } else if d == 7 {
        '7'
    } else if d == 8 {
        '8'
    } else if d == 9 {
        '9'
    } else if d == 10 {
        'a'
    } else if d == 11 {
        'b'
    } else if d == 12 {
        'c'
    } else if d == 13 {
        'd'
    } else if d == 14 {
        'e'
    } else {
        'f'
    }
}

/// How one character appears inside a JSON string literal: quotes and
/// backslashes get a backslash escape, the named control characters their
/// short escapes, any other control character a `\u00XX` escape, and
/// everything else stands for itself.
pub open spec fn escape_char(c: char) -> Seq<char> {
    if c == '"' {
        seq!['\\', '"']
    } else if c == '\\' {
        seq!['\\', '\\']
    } else if c as u32 == 8 {
        seq!['\\', 'b']
    } else if c as u32 == 9 {
        seq!['\\', 't']
    } else if c as u32 == 10 {
        seq!['\\', 'n']
    } else if c as u32 == 12 {
        seq!['\\', 'f']
    } else if c as u32 == 13 {
        seq!['\\', 'r']
    } else if (c as u32) < 32 {
        let hi = spec_hex_digit((c as u32 / 16) as int);
        let lo = spec_hex_digit((c as u32 % 16) as int);
        seq!['\\', 'u', '0', '0', hi, lo]
    } else {
        seq![c]
    }
}

pub open spec fn escape_string(s: Seq<char>) -> Seq<char>
    decreases s.len(),
{
    if s.len() == 0 {
        Seq::<char>::empty()
    } else {
        escape_char(s[0]) + escape_string(s.drop_first())
    }
}

/// A JSON string literal: the escaped text between double quotes.
pub open spec fn quoted(s: Seq<char>) -> Seq<char> {
    seq!['"'] + escape_string(s) + seq!['"']
}

/// One task object, from its opening brace: the three members `id`,
/// `description` and `status`, in that order.
pub open spec fn render_task_body(t: TaskModel) -> Seq<char> {
    "{\n      "@ + quoted("id"@) + ": "@ + dec_digits(t.id as nat) + ",\n      "@ + quoted(
        "description"@,
    ) + ": "@ + quoted(t.description) + ",\n      "@ + quoted("status"@) + ": "@ + quoted(
        t.status.spec_variant_name(),
    ) + "\n    }"@
}

/// One task object, indented for its place inside the `tasks` array.
pub open spec fn render_task(t: TaskModel) -> Seq<char> {
    "    "@ + render_task_body(t)
}

/// The task objects joined by `,\n`.
pub open spec fn render_tasks(ts: Seq<TaskModel>) -> Seq<char>
    decreases ts.len(),
{
    if ts.len() == 0 {
        Seq::<char>::empty()
    } else if ts.len() == 1 {
        render_task(ts[0])
    } else {
        render_tasks(ts.drop_last()) + ",\n"@ + render_task(ts.last())
    }
}

/// The whole export: an object with the single key `tasks`.
pub open spec fn render_task_list(ts: Seq<TaskModel>) -> Seq<char> {
    if ts.len() == 0 {
        "{\n  "@ + quoted("tasks"@) + ": []\n}"@
    } else {
        "{\n  "@ + quoted("tasks"@) + ": [\n"@ + render_tasks(ts) + "\n  ]\n}"@
    }
}

fn hex_digit(d: u32) -> (c: char)
    requires
        d < 16,
    ensures
        c == spec_hex_digit(d as int),
{
    match d {
        0 => '0',
        1 => '1',
        2 => '2',
        3 => '3',
        4 => '4',
        5 => '5',
        6 => '6',
        7 => '7',
        8 => '8',
        9 => '9',
        10 => 'a',
        11 => 'b',
        12 => 'c',
        13 => 'd',
        14 => 'e',
        _ => 'f',
    }
}

proof fn lemma_escape_push(s: Seq<char>, c: char)
    ensures
        escape_string(s.push(c)) == escape_string(s) + escape_char(c),
    decreases s.len(),
{
    if s.len() == 0 {
        assert(s.push(c).drop_first() =~= Seq::<char>::empty());
        assert(escape_string(Seq::<char>::empty()) == Seq::<char>::empty());
        assert(s.push(c)[0] == c);
        assert(escape_string(s.push(c)) =~= escape_string(s) + escape_char(c));
    } else {
        assert(s.push(c).drop_first() =~= s.drop_first().push(c));
        lemma_escape_push(s.drop_first(), c);
        assert(escape_string(s.push(c)) =~= escape_string(s) + escape_char(c));
    }
}

/// Appends the escaped form of `s` to `out`.
fn push_escaped(out: &mut Vec<char>, s: &Vec<char>)
    ensures
        final(out)@ == old(out)@ + escape_string(s@),
{
    let n = s.len();
    let mut i: usize = 0;
    proof {
        assert(s@.take(0) =~= Seq::<char>::empty());
        assert(out@ =~= old(out)@ + escape_string(s@.take(0)));
    }
    while i < n
        invariant
            n == s@.len(),
            i <= n,
            out@ == old(out)@ + escape_string(s@.take(i as int)),
        decreases n - i,
    {
        let ghost pre = out@;
        let c = s[i];
        let u = c as u32;
        if c == '"' {
            out.push('\\');
            out.push('"');
        } else if c == '\\' {
            out.push('\\');
            out.push('\\');
        } else if u == 8 {
            out.push('\\');
            out.push('b');
        } else if u == 9 {
            out.push('\\');
            out.push('t');
        } else if u == 10 {
            out.push('\\');
            out.push('n');
        } else if u == 12 {
            out.push('\\');
            out.push('f');
        } else if u == 13 {
            out.push('\\');
            out.push('r');
        } else if u < 32 {
            out.push('\\');
            out.push('u');
            out.push('0');
            out.push('0');
            out.push(hex_digit(u / 16));
            out.push(hex_digit(u % 16));
        } else {
            out.push(c);
        }
        proof {
            assert(out@ =~= pre + escape_char(s@[i as int]));
            lemma_escape_push(s@.take(i as int), s@[i as int]);
            assert(s@.take(i as int).push(s@[i as int]) =~= s@.take(i + 1 as int));
        }
        i = i + 1;
    }
    proof {
        assert(s@.take(n as int) =~= s@);
    }
}

/// Appends the JSON string literal for `s` to `out`.
pub fn push_quoted(out: &mut Vec<char>, s: &Vec<char>)
    ensures
        final(out)@ == old(out)@ + quoted(s@),
{
    out.push('"');
    push_escaped(out, s);
    out.push('"');
    proof {
        assert(out@ =~= old(out)@ + quoted(s@));
    }
}

/// Appends the task's JSON object to `out`.
#[verifier::rlimit(60)]
fn push_task_json(out: &mut Vec<char>, t: &Task)
    ensures
        final(out)@ == old(out)@ + render_task(t@),
{
    push_str_chars(out, "    ");
    push_str_chars(out, "{\n      ");
    let key_id = str_chars("id");
    push_quoted(out, &key_id);
    push_str_chars(out, ": ");
    push_dec_u32(out, t.id);
    push_str_chars(out, ",\n      ");
    let key_desc = str_chars("description");
    push_quoted(out, &key_desc);
    push_str_chars(out, ": ");
    let desc = str_chars(t.description.as_str());
    push_quoted(out, &desc);
    push_str_chars(out, ",\n      ");
    let key_status = str_chars("status");
    push_quoted(out, &key_status);
    push_str_chars(out, ": ");
    let name = match t.status {
        TaskStatus::NotStarted => str_chars("NotStarted"),
        TaskStatus::InProgress => str_chars("InProgress"),
        TaskStatus::Completed => str_chars("Completed"),
    };
    proof {
        assert(name@ == t.status.spec_variant_name());
    }
    push_quoted(out, &name);
    push_str_chars(out, "\n    }");
    proof {
        assert(out@ =~= old(out)@ + render_task(t@));
    }
}

/// The pretty-printed JSON export of `list`.
pub fn json_string(list: &TaskList) -> (r: String)
    ensures
        r@ == render_task_list(list@),
{
    let n = list.tasks.len();
    let mut out: Vec<char> = Vec::new();
    let key_tasks = str_chars("tasks");
    if n == 0 {
        push_str_chars(&mut out, "{\n  ");
        push_quoted(&mut out, &key_tasks);
        push_str_chars(&mut out, ": []\n}");
        proof {
            assert(out@ =~= render_task_list(list@));
        }
        return chars_to_string(&out);
    }
    push_str_chars(&mut out, "{\n  ");
    push_quoted(&mut out, &key_tasks);
    push_str_chars(&mut out, ": [\n");
    push_task_json(&mut out, &list.tasks[0]);
    proof {
        assert(list@.take(1)[0] == list@[0]);
        assert(out@ =~= "{\n  "@ + quoted("tasks"@) + ": [\n"@ + render_tasks(list@.take(1)));
    }
    let mut i: usize = 1;
    while i < n
        invariant
            n == list.tasks@.len(),
            1 <= i <= n,
            out@ == "{\n  "@ + quoted("tasks"@) + ": [\n"@ + render_tasks(list@.take(i as int)),
        decreases n - i,
    {
        push_str_chars(&mut out, ",\n");
        push_task_json(&mut out, &list.tasks[i]);
        proof {
            assert(list@.take(i + 1 as int).drop_last() =~= list@.take(i as int));
            assert(list@.take(i + 1 as int).last() == list@[i as int]);
            assert(list@[i as int] == list.tasks@[i as int]@);
            assert(out@ =~= "{\n  "@ + quoted("tasks"@) + ": [\n"@ + render_tasks(list@.take(i + 1 as int)));
        }
        i = i + 1;
    }
    push_str_chars(&mut out, "\n  ]\n}");
    proof {
        assert(list@.take(n as int) =~= list@);
        assert(out@ =~= render_task_list(list@));
    }
    chars_to_string(&out)
}


// ---------------------------------------------------------------------------
// Parsing (the importer's grammar)
// ---------------------------------------------------------------------------
/// JSON insignificant whitespace.
pub open spec fn is_ws(c: char) -> bool {
    c == ' ' || c == '\n' || c == '\t' || c == '\r'
}

/// The first position at or after `i` holding something other than
/// whitespace.
pub open spec fn skip_ws(s: Seq<char>, i: int) -> int
    decreases s.len() - i,
{
    if 0 <= i < s.len() && is_ws(s[i]) {
        skip_ws(s, i + 1)
    } else {
        i
    }
}

pub proof fn lemma_skip_ws_bounds(s: Seq<char>, i: int)
    requires
        0 <= i <= s.len(),
    ensures
        i <= skip_ws(s, i) <= s.len(),
        skip_ws(s, i) < s.len() ==> !is_ws(s[skip_ws(s, i)]),
    decreases s.len() - i,
{
    if i < s.len() && is_ws(s[i]) {
        lemma_skip_ws_bounds(s, i + 1);
    }
}

/// Where a run of `k` whitespace characters at `i` ends before something that
/// is not whitespace, `skip_ws` stops exactly after the run.
pub proof fn lemma_skip_ws_run(s: Seq<char>, i: int, k: int)
    requires
        0 <= i,
        i + k <= s.len(),
        0 <= k,
        forall|m: int| i <= m < i + k ==> is_ws(s[m]),
        i + k == s.len() || !is_ws(s[i + k]),
    ensures
        skip_ws(s, i) == i + k,
    decreases k,
{
    if k == 0 {
    } else {
        lemma_skip_ws_run(s, i + 1, k - 1);
    }
}

/// The position after `c` when `c` stands at `i`.
pub open spec fn expect_char(s: Seq<char>, i: int, c: char) -> Option<int> {
    if 0 <= i < s.len() && s[i] == c {
        Some(i + 1)
    } else {
        None
    }
}

/// The character named by a simple backslash escape.
pub open spec fn simple_unescape(e: char) -> Option<char> {
    if e == '"' {
        Some('"')
    } else if e == '\\' {
        Some('\\')
    } else if e == '/' {
        Some('/')
    } else if e == 'b' {
        Some('\u{8}')
    } else if e == 'f' {
        Some('\u{c}')
    } else if e == 'n' {
        Some('\n')
    } else if e == 'r' {
        Some('\r')
    } else if e == 't' {
        Some('\t')
    } else {
        None
    }
}

/// The value of a hexadecimal digit, either case.
pub open spec fn hex_val(c: char) -> Option<int> {
    if is_dec_digit(c) {
        Some(crate::text::digit_val(c))
    } else if 'a' as u32 <= c as u32 && c as u32 <= 'f' as u32 {
        Some(10 + c as u32 - 'a' as u32)
    } else if 'A' as u32 <= c as u32 && c as u32 <= 'F' as u32 {
        Some(10 + c as u32 - 'A' as u32)
    } else {
        None
    }
}

/// The body of a JSON string literal from `i` (just inside the opening
/// quote) to its closing quote: unescaped text and the position after the
/// quote. Raw control characters are rejected; `\u` escapes are accepted in
/// the `\u00XX` form this library emits.
pub open spec fn parse_string_body(s: Seq<char>, i: int) -> Option<(Seq<char>, int)>
    decreases s.len() - i,
{
    if !(0 <= i < s.len()) {
        None
    } else if s[i] == '"' {
        Some((Seq::<char>::empty(), i + 1))
    } else if s[i] == '\\' {
        if i + 1 < s.len() {
            if s[i + 1] == 'u' {
                if i + 5 < s.len() && s[i + 2] == '0' && s[i + 3] == '0' {
                    match (hex_val(s[i + 4]), hex_val(s[i + 5])) {
                        (Some(h), Some(l)) => match parse_string_body(s, i + 6) {
                            Some((rest, j)) => Some((seq![((h * 16 + l) as char)] + rest, j)),
                            None => None,
                        },
                        _ => None,
                    }
                } else {
                    None
                }
            } else {
                match simple_unescape(s[i + 1]) {
                    Some(c) => match parse_string_body(s, i + 2) {
                        Some((rest, j)) => Some((seq![c] + rest, j)),
                        None => None,
                    },
                    None => None,
                }
            }
        } else {
            None
        }
    } else if (s[i] as u32) >= 32 {
        match parse_string_body(s, i + 1) {
            Some((rest, j)) => Some((seq![s[i]] + rest, j)),
            None => None,
        }
    } else {
        None
    }
}

/// A JSON string literal at `i`: its unescaped text and the position after
/// the closing quote.
pub open spec fn parse_string_at(s: Seq<char>, i: int) -> Option<(Seq<char>, int)> {
    if 0 <= i < s.len() && s[i] == '"' {
        parse_string_body(s, i + 1)
    } else {
        None
    }
}

pub proof fn lemma_parse_string_body_bounds(s: Seq<char>, i: int)
    ensures
        match parse_string_body(s, i) {
            Some((v, j)) => i < j <= s.len(),
            None => true,
        },
    decreases s.len() - i,
{
    if 0 <= i < s.len() {
        if s[i] == '\\' {
            if i + 1 < s.len() {
                if s[i + 1] == 'u' {
                    if i + 5 < s.len() {
                        lemma_parse_string_body_bounds(s, i + 6);
                    }
                } else {
                    lemma_parse_string_body_bounds(s, i + 2);
                }
            }
        } else {
            lemma_parse_string_body_bounds(s, i + 1);
        }
    }
}

pub proof fn lemma_parse_string_bounds(s: Seq<char>, i: int)
    ensures
        match parse_string_at(s, i) {
            Some((v, j)) => i < j <= s.len(),
            None => true,
        },
{
    lemma_parse_string_body_bounds(s, i + 1);
}

/// The end of the run of decimal digits starting at `i`.
pub open spec fn digits_end(s: Seq<char>, i: int) -> int
    decreases s.len() - i,
{
    if 0 <= i < s.len() && is_dec_digit(s[i]) {
        digits_end(s, i + 1)
    } else {
        i
    }
}

pub proof fn lemma_digits_end_bounds(s: Seq<char>, i: int)
    requires
        0 <= i <= s.len(),
    ensures
        i <= digits_end(s, i) <= s.len(),
        forall|m: int| i <= m < digits_end(s, i) ==> is_dec_digit(s[m]),
        digits_end(s, i) < s.len() ==> !is_dec_digit(s[digits_end(s, i)]),
    decreases s.len() - i,
{
    if i < s.len() && is_dec_digit(s[i]) {
        lemma_digits_end_bounds(s, i + 1);
    }
}

/// An unsigned number at `i`: the digit run read as a `u32`, rejected when
/// empty or too large for `u32`.
pub open spec fn parse_u32_at(s: Seq<char>, i: int) -> Option<(u32, int)> {
    if 0 <= i <= s.len() {
        let j = digits_end(s, i);
        if j > i && dec_val(s.subrange(i, j)) <= u32::MAX {
            Some(((dec_val(s.subrange(i, j)) as u32), j))
        } else {
            None
        }
    } else {
        None
    }
}

/// A quoted key equal to `key`, then a colon, with whitespace allowed around
/// both; the position after any whitespace following the colon.
pub open spec fn parse_key_colon(s: Seq<char>, i: int, key: Seq<char>) -> Option<int> {
    match parse_string_at(s, skip_ws(s, i)) {
        Some((k, j)) => if k == key {
            match expect_char(s, skip_ws(s, j), ':') {
                Some(j2) => Some(skip_ws(s, j2)),
                None => None,
            }
        } else {
            None
        },
        None => None,
    }
}

pub proof fn lemma_parse_key_colon_bounds(s: Seq<char>, i: int, key: Seq<char>)
    requires
        0 <= i <= s.len(),
    ensures
        match parse_key_colon(s, i, key) {
            Some(j) => i < j <= s.len(),
            None => true,
        },
{
    lemma_skip_ws_bounds(s, i);
    lemma_parse_string_bounds(s, skip_ws(s, i));
    match parse_string_at(s, skip_ws(s, i)) {
        Some((k, j)) => {
            lemma_skip_ws_bounds(s, j);
            let j1 = skip_ws(s, j);
            if 0 <= j1 < s.len() && s[j1] == ':' {
                lemma_skip_ws_bounds(s, j1 + 1);
            }
        },
        None => {},
    }
}

/// One task object at `i` (at its opening brace): members `id`,
/// `description` and `status`, in that order, each status one of the three
/// variant names.
pub open spec fn parse_task_at(s: Seq<char>, i: int) -> Option<(TaskModel, int)> {
    match expect_char(s, i, '{') {
        Some(i1) => match parse_key_colon(s, i1, "id"@) {
            Some(i2) => match parse_u32_at(s, i2) {
                Some((id, i3)) => match expect_char(s, skip_ws(s, i3), ',') {
                    Some(i4) => match parse_key_colon(s, i4, "description"@) {
                        Some(i5) => match parse_string_at(s, i5) {
                            Some((description, i6)) => match expect_char(s, skip_ws(s, i6), ',') {
                                Some(i7) => match parse_key_colon(s, i7, "status"@) {
                                    Some(i8) => match parse_string_at(s, i8) {
                                        Some((name, i9)) => match TaskStatus::spec_from_variant_name(
                                            name,
                                        ) {
                                            Some(status) => match expect_char(
                                                s,
                                                skip_ws(s, i9),
                                                '}',
                                            ) {
                                                Some(i10) => Some(
                                                    (TaskModel { id, description, status }, i10),
                                                ),
                                                None => None,
                                            },
                                            None => None,
                                        },
                                        None => None,
                                    },
                                    None => None,
                                },
                                None => None,
                            },
                            None => None,
                        },
                        None => None,
                    },
                    None => None,
                },
                None => None,
            },
            None => None,
        },
        None => None,
    }
}

pub proof fn lemma_parse_task_bounds(s: Seq<char>, i: int)
    requires
        0 <= i <= s.len(),
    ensures
        match parse_task_at(s, i) {
            Some((t, j)) => i < j <= s.len(),
            None => true,
        },
{
    if 0 <= i < s.len() && s[i] == '{' {
        let i1 = i + 1;
        lemma_parse_key_colon_bounds(s, i1, "id"@);
        match parse_key_colon(s, i1, "id"@) {
            Some(i2) => {
                lemma_digits_end_bounds(s, i2);
                match parse_u32_at(s, i2) {
                    Some((id, i3)) => {
                        lemma_skip_ws_bounds(s, i3);
                        let k3 = skip_ws(s, i3);
                        if 0 <= k3 < s.len() && s[k3] == ',' {
                            let i4 = k3 + 1;
                            lemma_parse_key_colon_bounds(s, i4, "description"@);
                            match parse_key_colon(s, i4, "description"@) {
                                Some(i5) => {
                                    lemma_parse_string_bounds(s, i5);
                                    match parse_string_at(s, i5) {
                                        Some((d, i6)) => {
                                            lemma_skip_ws_bounds(s, i6);
                                            let k6 = skip_ws(s, i6);
                                            if 0 <= k6 < s.len() && s[k6] == ',' {
                                                let i7 = k6 + 1;
                                                lemma_parse_key_colon_bounds(s, i7, "status"@);
                                                match parse_key_colon(s, i7, "status"@) {
                                                    Some(i8) => {
                                                        lemma_parse_string_bounds(s, i8);
                                                        match parse_string_at(s, i8) {
                                                            Some((nm, i9)) => {
                                                                lemma_skip_ws_bounds(s, i9);
                                                            },
                                                            None => {},
                                                        }
                                                    },
                                                    None => {},
                                                }
                                            }
                                        },
                                        None => {},
                                    }
                                },
                                None => {},
                            }
                        }
                    },
                    None => {},
                }
            },
            None => {},
        }
    }
}

/// The elements of a nonempty array from the first element's opening brace
/// to the closing bracket.
pub open spec fn parse_items(s: Seq<char>, i: int) -> Option<(Seq<TaskModel>, int)>
    decreases s.len() - i,
    via parse_items_dec
{
    if !(0 <= i <= s.len()) {
        None
    } else {
        match parse_task_at(s, i) {
            Some((t, j)) => {
                let k = skip_ws(s, j);
                if 0 <= k < s.len() && s[k] == ',' {
                    match parse_items(s, skip_ws(s, k + 1)) {
                        Some((rest, m)) => Some((seq![t] + rest, m)),
                        None => None,
                    }
                } else if 0 <= k < s.len() && s[k] == ']' {
                    Some((seq![t], k + 1))
                } else {
                    None
                }
            },
            None => None,
        }
    }
}

#[via_fn]
proof fn parse_items_dec(s: Seq<char>, i: int) {
    if 0 <= i <= s.len() {
        lemma_parse_task_bounds(s, i);
        match parse_task_at(s, i) {
            Some((t, j)) => {
                lemma_skip_ws_bounds(s, j);
                let k = skip_ws(s, j);
                if 0 <= k < s.len() && s[k] == ',' {
                    lemma_skip_ws_bounds(s, k + 1);
                }
            },
            None => {},
        }
    }
}

/// The `tasks` array at `i` (at its opening bracket).
pub open spec fn parse_array(s: Seq<char>, i: int) -> Option<(Seq<TaskModel>, int)> {
    match expect_char(s, i, '[') {
        Some(i1) => {
            let j = skip_ws(s, i1);
            if 0 <= j < s.len() && s[j] == ']' {
                Some((Seq::<TaskModel>::empty(), j + 1))
            } else {
                parse_items(s, j)
            }
        },
        None => None,
    }
}

/// The importer's whole grammar: an object whose single member is the key
/// `tasks` over an array of task objects, with any whitespace between
/// tokens, and nothing but whitespace after the closing brace.
pub open spec fn parse_task_list(s: Seq<char>) -> Option<Seq<TaskModel>> {
    match expect_char(s, skip_ws(s, 0), '{') {
        Some(i1) => match parse_key_colon(s, i1, "tasks"@) {
            Some(i2) => match parse_array(s, i2) {
                Some((ts, i3)) => match expect_char(s, skip_ws(s, i3), '}') {
                    Some(i5) => if skip_ws(s, i5) == s.len() {
                        Some(ts)
                    } else {
                        None
                    },
                    None => None,
                },
                None => None,
            },
            None => None,
        },
        None => None,
    }
}


pub proof fn lemma_parse_items_bounds(s: Seq<char>, i: int)
    requires
        0 <= i <= s.len(),
    ensures
        match parse_items(s, i) {
            Some((ts, m)) => i < m <= s.len(),
            None => true,
        },
    decreases s.len() - i,
{
    lemma_parse_task_bounds(s, i);
    match parse_task_at(s, i) {
        Some((t, j)) => {
            lemma_skip_ws_bounds(s, j);
            let k = skip_ws(s, j);
            if 0 <= k < s.len() && s[k] == ',' {
                lemma_skip_ws_bounds(s, k + 1);
                lemma_parse_items_bounds(s, skip_ws(s, k + 1));
            }
        },
        None => {},
    }
}

/// The first position at or after `i` (never past the end) holding something
/// other than whitespace.
fn skip_ws_exec(s: &Vec<char>, i: usize) -> (r: usize)
    requires
        i <= s@.len(),
    ensures
        r == skip_ws(s@, i as int),
        i <= r <= s@.len(),
{
    let n = s.len();
    let mut j = i;
    while j < n && (s[j] == ' ' || s[j] == '\n' || s[j] == '\t' || s[j] == '\r')
        invariant
            i <= j <= n,
            n == s@.len(),
            skip_ws(s@, i as int) == skip_ws(s@, j as int),
        decreases n - j,
    {
        j = j + 1;
    }
    j
}

fn hex_val_exec(c: char) -> (r: Option<u8>)
    ensures
        match hex_val(c) {
            Some(v) => r matches Some(b) && b as int == v,
            None => r is None,
        },
{
    let u = c as u32;
    if u >= 48 && u <= 57 {
        Some((u - 48) as u8)
    } else if u >= 97 && u <= 102 {
        Some((u - 87) as u8)
    } else if u >= 65 && u <= 70 {
        Some((u - 55) as u8)
    } else {
        None
    }
}

fn simple_unescape_exec(e: char) -> (r: Option<char>)
    ensures
        r == simple_unescape(e),
{
    if e == '"' {
        Some('"')
    } else if e == '\\' {
        Some('\\')
    } else if e == '/' {
        Some('/')
    } else if e == 'b' {
        Some('\u{8}')
    } else if e == 'f' {
        Some('\u{c}')
    } else if e == 'n' {
        Some('\n')
    } else if e == 'r' {
        Some('\r')
    } else if e == 't' {
        Some('\t')
    } else {
        None
    }
}

/// Reads the JSON string literal at `i`, as `parse_string_at` describes.
fn parse_string_exec(s: &Vec<char>, i: usize) -> (r: Option<(Vec<char>, usize)>)
    requires
        i <= s@.len(),
    ensures
        match parse_string_at(s@, i as int) {
            Some((d, j)) => r matches Some(p) && p.0@ == d && p.1 == j,
            None => r is None,
        },
{
    let n = s.len();
    if !(i < n) {
        return None;
    }
    if s[i] != '"' {
        return None;
    }
    let ghost start: int = i + 1;
    let mut acc: Vec<char> = Vec::new();
    let mut pos: usize = i + 1;
    proof {
        assert(match parse_string_body(s@, start) {
            Some((rest, j)) => parse_string_body(s@, start) == Some((acc@ + rest, j)),
            None => true,
        }) by {
            match parse_string_body(s@, start) {
                Some((rest, j)) => {
                    assert(acc@ + rest =~= rest);
                },
                None => {},
            }
        }
    }
    loop
        invariant
            i + 1 <= pos <= n,
            n == s@.len(),
            start == i + 1,
            s@[i as int] == '"',
            match parse_string_body(s@, pos as int) {
                Some((rest, j)) => parse_string_body(s@, start) == Some((acc@ + rest, j)),
                None => parse_string_body(s@, start) is None,
            },
        decreases n - pos,
    {
        let ghost pre = acc@;
        let ghost prepos: int = pos as int;
        if pos >= n {
            return None;
        }
        let c = s[pos];
        if c == '"' {
            proof {
                assert(parse_string_body(s@, pos as int) == Some(
                    (Seq::<char>::empty(), pos + 1 as int),
                ));
                assert(acc@ + Seq::<char>::empty() =~= acc@);
                assert(parse_string_body(s@, start) == Some((acc@, pos + 1 as int)));
                assert(parse_string_at(s@, i as int) == Some((acc@, pos + 1 as int)));
            }
            return Some((acc, pos + 1));
        }
        if c == '\\' {
            if pos + 1 >= n {
                return None;
            }
            let e = s[pos + 1];
            if e == 'u' {
                if !(n - pos > 5) {
                    return None;
                }
                if s[pos + 2] != '0' || s[pos + 3] != '0' {
                    return None;
                }
                let h = hex_val_exec(s[pos + 4]);
                let l = hex_val_exec(s[pos + 5]);
                match (h, l) {
                    (Some(hv), Some(lv)) => {
                        let b: u8 = hv * 16 + lv;
                        let c2 = b as char;
                        acc.push(c2);
                        pos = pos + 6;
                        proof {
                            match parse_string_body(s@, pos as int) {
                                Some((rest, j)) => {
                                    assert(acc@ + rest =~= pre + (seq![c2] + rest));
                                },
                                None => {},
                            }
                        }
                    },
                    _ => {
                        return None;
                    },
                }
            } else {
                match simple_unescape_exec(e) {
                    Some(c2) => {
                        acc.push(c2);
                        pos = pos + 2;
                        proof {
                            match parse_string_body(s@, pos as int) {
                                Some((rest, j)) => {
                                    assert(acc@ + rest =~= pre + (seq![c2] + rest));
                                },
                                None => {},
                            }
                        }
                    },
                    None => {
                        return None;
                    },
                }
            }
        } else {
            let u = c as u32;
            if u < 32 {
                return None;
            }
            acc.push(c);
            pos = pos + 1;
            proof {
                match parse_string_body(s@, pos as int) {
                    Some((rest, j)) => {
                        assert(acc@ + rest =~= pre + (seq![c] + rest));
                    },
                    None => {},
                }
            }
        }
    }
}

/// Reads the number at `i`, as `parse_u32_at` describes.
fn parse_u32_exec(s: &Vec<char>, i: usize) -> (r: Option<(u32, usize)>)
    requires
        i <= s@.len(),
    ensures
        match parse_u32_at(s@, i as int) {
            Some((v, j)) => r matches Some(p) && p.0 == v && p.1 == j,
            None => r is None,
        },
{
    let n = s.len();
    let ghost e: int = digits_end(s@, i as int);
    proof {
        lemma_digits_end_bounds(s@, i as int);
    }
    let mut acc: u32 = 0;
    let mut pos: usize = i;
    while pos < n && s[pos] as u32 >= 48 && s[pos] as u32 <= 57
        invariant
            i <= pos <= n,
            n == s@.len(),
            e == digits_end(s@, i as int),
            digits_end(s@, pos as int) == e,
            pos <= e,
            acc == dec_val(s@.subrange(i as int, pos as int)),
        decreases n - pos,
    {
        let c = s[pos];
        let d = c as u32 - 48;
        proof {
            assert(is_dec_digit(s@[pos as int]));
            assert(digits_end(s@, pos as int) == digits_end(s@, pos + 1 as int));
            lemma_digits_end_bounds(s@, pos + 1 as int);
            assert(s@.subrange(i as int, pos + 1 as int).drop_last() =~= s@.subrange(
                i as int,
                pos as int,
            ));
            assert(s@.subrange(i as int, pos + 1 as int).last() == s@[pos as int]);
        }
        let wide: u64 = acc as u64 * 10 + d as u64;
        if wide > u32::MAX as u64 {
            proof {
                lemma_digits_end_bounds(s@, i as int);
                let full = s@.subrange(i as int, e);
                assert(full.take(pos + 1 - i as int) =~= s@.subrange(i as int, pos + 1 as int));
                assert(forall|m: int|
                    pos + 1 - i <= m < full.len() ==> is_dec_digit(#[trigger] full[m]));
                crate::text::lemma_dec_val_extend(full, pos + 1 - i as int);
                assert(dec_val(full) > u32::MAX);
            }
            return None;
        }
        acc = wide as u32;
        pos = pos + 1;
    }
    proof {
        assert(digits_end(s@, pos as int) == pos as int);
        assert(pos == e);
    }
    if pos == i {
        return None;
    }
    Some((acc, pos))
}

/// Reads a key and its colon at `i`, as `parse_key_colon` describes.
fn parse_key_colon_exec(s: &Vec<char>, i: usize, key: &str) -> (r: Option<usize>)
    requires
        i <= s@.len(),
    ensures
        match parse_key_colon(s@, i as int, key@) {
            Some(j) => r matches Some(p) && p == j,
            None => r is None,
        },
        r matches Some(p) ==> p <= s@.len(),
{
    let j0 = skip_ws_exec(s, i);
    match parse_string_exec(s, j0) {
        Some(p) => {
            let (k, j) = p;
            proof {
                lemma_parse_string_bounds(s@, j0 as int);
            }
            if !crate::text::token_eq(&k, key) {
                return None;
            }
            let j1 = skip_ws_exec(s, j);
            if j1 < s.len() && s[j1] == ':' {
                Some(skip_ws_exec(s, j1 + 1))
            } else {
                None
            }
        },
        None => None,
    }
}

/// Reads the task object at `i`, as `parse_task_at` describes.
fn parse_task_exec(s: &Vec<char>, i: usize) -> (r: Option<(Task, usize)>)
    requires
        i <= s@.len(),
    ensures
        match parse_task_at(s@, i as int) {
            Some((m, j)) => r matches Some(p) && p.0@ == m && p.1 == j,
            None => r is None,
        },
{
    let n = s.len();
    if !(i < n) {
        return None;
    }
    if s[i] != '{' {
        return None;
    }
    let i2 = match parse_key_colon_exec(s, i + 1, "id") {
        Some(p) => p,
        None => {
            return None;
        },
    };
    let (id, i3) = match parse_u32_exec(s, i2) {
        Some(p) => p,
        None => {
            return None;
        },
    };
    proof {
        lemma_digits_end_bounds(s@, i2 as int);
    }
    let k3 = skip_ws_exec(s, i3);
    if !(k3 < n) {
        return None;
    }
    if s[k3] != ',' {
        return None;
    }
    let i5 = match parse_key_colon_exec(s, k3 + 1, "description") {
        Some(p) => p,
        None => {
            return None;
        },
    };
    let (desc, i6) = match parse_string_exec(s, i5) {
        Some(p) => p,
        None => {
            return None;
        },
    };
    proof {
        lemma_parse_string_bounds(s@, i5 as int);
    }
    let k6 = skip_ws_exec(s, i6);
    if !(k6 < n) {
        return None;
    }
    if s[k6] != ',' {
        return None;
    }
    let i8 = match parse_key_colon_exec(s, k6 + 1, "status") {
        Some(p) => p,
        None => {
            return None;
        },
    };
    let (name, i9) = match parse_string_exec(s, i8) {
        Some(p) => p,
        None => {
            return None;
        },
    };
    proof {
        lemma_parse_string_bounds(s@, i8 as int);
    }
    let status = if crate::text::token_eq(&name, "NotStarted") {
        TaskStatus::NotStarted
    } else if crate::text::token_eq(&name, "InProgress") {
        TaskStatus::InProgress
    } else if crate::text::token_eq(&name, "Completed") {
        TaskStatus::Completed
    } else {
        return None;
    };
    let k9 = skip_ws_exec(s, i9);
    if !(k9 < n) {
        return None;
    }
    if s[k9] != '}' {
        return None;
    }
    let description = chars_to_string(&desc);
    Some((Task { id, description, status }, k9 + 1))
}

/// Reads the array elements from the first object at `i` to the closing
/// bracket, as `parse_items` describes.
fn parse_items_exec(s: &Vec<char>, i: usize) -> (r: Option<(Vec<Task>, usize)>)
    requires
        i <= s@.len(),
    ensures
        match parse_items(s@, i as int) {
            Some((ts, m)) => r matches Some(p) && p.0@.map_values(|t: Task| t@) == ts && p.1 == m,
            None => r is None,
        },
{
    let n = s.len();
    let mut acc: Vec<Task> = Vec::new();
    let mut pos: usize = i;
    loop
        invariant
            i <= pos <= n,
            n == s@.len(),
            match parse_items(s@, pos as int) {
                Some((rest, m)) => parse_items(s@, i as int) == Some(
                    (acc@.map_values(|t: Task| t@) + rest, m),
                ),
                None => parse_items(s@, i as int) is None,
            },
        decreases n - pos,
    {
        let ghost pre = acc@.map_values(|t: Task| t@);
        let ghost prepos: int = pos as int;
        let (t, j) = match parse_task_exec(s, pos) {
            Some(p) => p,
            None => {
                return None;
            },
        };
        let ghost tm = t@;
        proof {
            lemma_parse_task_bounds(s@, pos as int);
        }
        acc.push(t);
        proof {
            assert(acc@.map_values(|t: Task| t@) =~= pre.push(tm));
        }
        let k = skip_ws_exec(s, j);
        if k < n && s[k] == ',' {
            let newpos = skip_ws_exec(s, k + 1);
            proof {
                match parse_items(s@, newpos as int) {
                    Some((rest, m)) => {
                        assert(acc@.map_values(|t: Task| t@) + rest =~= pre + (seq![tm] + rest));
                    },
                    None => {},
                }
            }
            pos = newpos;
        } else if k < n && s[k] == ']' {
            proof {
                assert(pre + seq![tm] =~= acc@.map_values(|t: Task| t@));
                assert(parse_items(s@, prepos) == Some((seq![tm], k + 1 as int)));
            }
            return Some((acc, k + 1));
        } else {
            return None;
        }
    }
}

/// Reads a whole task-list document, as `parse_task_list` describes.
pub fn parse_task_list_exec(s: &Vec<char>) -> (r: Option<Vec<Task>>)
    ensures
        match parse_task_list(s@) {
            Some(ts) => r matches Some(v) && v@.map_values(|t: Task| t@) == ts,
            None => r is None,
        },
{
    let n = s.len();
    let i0 = skip_ws_exec(s, 0);
    if !(i0 < n) {
        return None;
    }
    if s[i0] != '{' {
        return None;
    }
    let i2 = match parse_key_colon_exec(s, i0 + 1, "tasks") {
        Some(p) => p,
        None => {
            return None;
        },
    };
    if !(i2 < n) {
        return None;
    }
    if s[i2] != '[' {
        return None;
    }
    let j = skip_ws_exec(s, i2 + 1);
    let mut tasks_vec: Vec<Task>;
    let i3: usize;
    if j < n && s[j] == ']' {
        tasks_vec = Vec::new();
        i3 = j + 1;
        proof {
            assert(tasks_vec@.map_values(|t: Task| t@) =~= Seq::<TaskModel>::empty());
        }
    } else {
        match parse_items_exec(s, j) {
            Some(p) => {
                proof {
                    lemma_parse_items_bounds(s@, j as int);
                }
                tasks_vec = p.0;
                i3 = p.1;
            },
            None => {
                return None;
            },
        }
    }
    let i4 = skip_ws_exec(s, i3);
    if !(i4 < n) {
        return None;
    }
    if s[i4] != '}' {
        return None;
    }
    let i5 = skip_ws_exec(s, i4 + 1);
    if i5 != n {
        return None;
    }
    Some(tasks_vec)
}

impl TaskList {
    /// Replaces the whole collection with the one read from `tasks`; on a
    /// malformed payload fails with `ParseError` and leaves the list exactly
    /// as it was.
    pub fn import(&mut self, tasks: &str) -> (r: Result<(), TodoError>)
        ensures
            match parse_task_list(tasks@) {
                Some(ts) => r is Ok && final(self)@ == ts,
                None => r matches Err(e) && final(self)@ == old(self)@ && e@ == (
                crate::error::ErrorModel::ParseError { msg: "Error while parsing imported tasks"@ }),
            },
    {
        let chars = str_chars(tasks);
        match parse_task_list_exec(&chars) {
            Some(v) => {
                self.tasks = v;
                Ok(())
            },
            None => Err(TodoError::parse_error("Error while parsing imported tasks")),
        }
    }
}

} // verus!
