//! The law that the JSON exporter and the importer are inverse: feeding the
//! rendered export back through the parser reconstructs the same task
//! sequence, whatever the ids, descriptions and statuses.

use vstd::prelude::*;

use crate::json::{
    digits_end, escape_char, escape_string, hex_val, is_ws, parse_items, parse_key_colon,
    parse_string_at, parse_string_body, parse_task_at, parse_task_list, parse_u32_at, quoted,
    render_task_body, render_task_list, render_tasks, skip_ws, spec_hex_digit,
};
use crate::json::{lemma_skip_ws_run, parse_array};
use crate::task::{TaskModel, TaskStatus};
use crate::text::{dec_digits, is_dec_digit, lemma_dec_digits_are_digits, lemma_dec_val_of_digits};

verus! {

/// The character `a[k]` seen through a suffix of `s` that starts with `a`.
proof fn lemma_suffix_index(s: Seq<char>, i: int, a: Seq<char>, b: Seq<char>, k: int)
    requires
        0 <= i <= s.len(),
        s.subrange(i, s.len() as int) == a + b,
        0 <= k < a.len(),
    ensures
        s[i + k] == a[k],
{
    let whole = s.subrange(i, s.len() as int);
    assert(whole.len() == (a + b).len());
    assert(whole[k] == s[i + k]);
    assert((a + b)[k] == a[k]);
}

/// Splits a known suffix of `s` into its first chunk and the remainder.
proof fn lemma_suffix_parts(s: Seq<char>, i: int, a: Seq<char>, b: Seq<char>)
    requires
        0 <= i <= s.len(),
        s.subrange(i, s.len() as int) == a + b,
    ensures
        i + a.len() + b.len() == s.len(),
        s.subrange(i + a.len(), s.len() as int) == b,
{
    let whole = s.subrange(i, s.len() as int);
    assert(whole.len() == (a + b).len());
    let tail = s.subrange(i + a.len(), s.len() as int);
    assert forall|k: int| 0 <= k < b.len() implies tail[k] == b[k] by {
        assert(tail[k] == s[i + a.len() + k]);
        assert(whole[a.len() + k] == s[i + a.len() + k]);
        assert((a + b)[a.len() + k] == b[k]);
    }
    assert(tail =~= b);
}

/// Skipping whitespace over a known whitespace run lands on what follows it.
proof fn lemma_skip_ws_suffix(s: Seq<char>, i: int, w: Seq<char>, rest: Seq<char>)
    requires
        0 <= i <= s.len(),
        s.subrange(i, s.len() as int) == w + rest,
        forall|k: int| 0 <= k < w.len() ==> is_ws(#[trigger] w[k]),
        rest.len() == 0 || !is_ws(rest[0]),
    ensures
        skip_ws(s, i) == i + w.len(),
        s.subrange(i + w.len(), s.len() as int) == rest,
{
    lemma_suffix_parts(s, i, w, rest);
    if rest.len() > 0 {
        lemma_suffix_index(s, i + w.len(), rest, Seq::<char>::empty(), 0);
        assert(s.subrange(i + w.len(), s.len() as int) =~= rest + Seq::<char>::empty());
        assert(s[i + w.len()] == rest[0]);
    }
    assert forall|m: int| i <= m < i + w.len() implies is_ws(s[m]) by {
        lemma_suffix_index(s, i, w, rest, m - i);
        assert(is_ws(w[m - i]));
    }
    lemma_skip_ws_run(s, i, w.len() as int);
}

proof fn lemma_char_u32_roundtrip(c: char)
    ensures
        ((c as u32) as char) == c,
{
}

proof fn lemma_hex_val_digit(d: int)
    requires
        0 <= d < 16,
    ensures
        hex_val(spec_hex_digit(d)) == Some(d),
{
}

/// Parsing a string body over the escaped form of `d` recovers `d` exactly
/// and stops after the closing quote.
#[verifier::rlimit(100)]
proof fn lemma_parse_escaped_suffix(s: Seq<char>, i: int, d: Seq<char>, rest: Seq<char>)
    requires
        0 <= i <= s.len(),
        s.subrange(i, s.len() as int) == escape_string(d) + seq!['"'] + rest,
    ensures
        parse_string_body(s, i) == Some((d, s.len() - rest.len())),
    decreases d.len(),
{
    if d.len() == 0 {
        assert((escape_string(d) + seq!['"']) + rest =~= seq!['"'] + rest);
        lemma_suffix_parts(s, i, seq!['"'], rest);
        lemma_suffix_index(s, i, seq!['"'], rest, 0);
        assert(s[i] == '"');
        assert(parse_string_body(s, i) == Some((Seq::<char>::empty(), i + 1)));
        assert(d =~= Seq::<char>::empty());
    } else {
        let c = d[0];
        let d2 = d.drop_first();
        let ec = escape_char(c);
        assert(escape_string(d) == ec + escape_string(d2));
        let after = escape_string(d2) + seq!['"'] + rest;
        assert(s.subrange(i, s.len() as int) =~= ec + after);
        lemma_suffix_parts(s, i, ec, after);
        let j = i + ec.len();
        lemma_parse_escaped_suffix(s, j, d2, rest);
        assert(after.len() == escape_string(d2).len() + 1 + rest.len());
        lemma_char_u32_roundtrip(c);
        if c == '"' {
            lemma_suffix_index(s, i, ec, after, 0);
            lemma_suffix_index(s, i, ec, after, 1);
            assert(s[i] == '\\' && s[i + 1] == '"');
        } else if c == '\\' {
            lemma_suffix_index(s, i, ec, after, 0);
            lemma_suffix_index(s, i, ec, after, 1);
            assert(s[i] == '\\' && s[i + 1] == '\\');
        } else if c as u32 == 8 {
            assert((('\u{8}' as u32) as char) == '\u{8}');
            assert(c == '\u{8}');
            lemma_suffix_index(s, i, ec, after, 0);
            lemma_suffix_index(s, i, ec, after, 1);
            assert(s[i] == '\\' && s[i + 1] == 'b');
        } else if c as u32 == 9 {
            assert((('\t' as u32) as char) == '\t');
            assert(c == '\t');
            lemma_suffix_index(s, i, ec, after, 0);
            lemma_suffix_index(s, i, ec, after, 1);
            assert(s[i] == '\\' && s[i + 1] == 't');
        } else if c as u32 == 10 {
            assert((('\n' as u32) as char) == '\n');
            assert(c == '\n');
            lemma_suffix_index(s, i, ec, after, 0);
            lemma_suffix_index(s, i, ec, after, 1);
            assert(s[i] == '\\' && s[i + 1] == 'n');
        } else if c as u32 == 12 {
            assert((('\u{c}' as u32) as char) == '\u{c}');
            assert(c == '\u{c}');
            lemma_suffix_index(s, i, ec, after, 0);
            lemma_suffix_index(s, i, ec, after, 1);
            assert(s[i] == '\\' && s[i + 1] == 'f');
        } else if c as u32 == 13 {
            assert((('\r' as u32) as char) == '\r');
            assert(c == '\r');
            lemma_suffix_index(s, i, ec, after, 0);
            lemma_suffix_index(s, i, ec, after, 1);
            assert(s[i] == '\\' && s[i + 1] == 'r');
        } else if (c as u32) < 32 {
            let v = c as u32;
            let hi = spec_hex_digit(v as int / 16);
            let lo = spec_hex_digit(v as int % 16);
            assert(ec =~= seq!['\\', 'u', '0', '0', hi, lo]);
            lemma_suffix_index(s, i, ec, after, 0);
            lemma_suffix_index(s, i, ec, after, 1);
            lemma_suffix_index(s, i, ec, after, 2);
            lemma_suffix_index(s, i, ec, after, 3);
            lemma_suffix_index(s, i, ec, after, 4);
            lemma_suffix_index(s, i, ec, after, 5);
            assert(s[i] == '\\' && s[i + 1] == 'u' && s[i + 2] == '0' && s[i + 3] == '0');
            assert(s[i + 4] == hi && s[i + 5] == lo);
            lemma_hex_val_digit(v as int / 16);
            lemma_hex_val_digit(v as int % 16);
            assert((v as int / 16) * 16 + (v as int % 16) == v as int) by (nonlinear_arith);
            assert((((v as int / 16) * 16 + (v as int % 16)) as char) == c);
        } else {
            assert(ec =~= seq![c]);
            lemma_suffix_index(s, i, ec, after, 0);
            assert(s[i] == c);
        }
        assert(parse_string_body(s, i) == Some((seq![c] + d2, s.len() - rest.len())));
        assert(seq![c] + d2 =~= d);
    }
}

/// Parsing a rendered string literal recovers its text.
proof fn lemma_parse_string_suffix(s: Seq<char>, i: int, d: Seq<char>, rest: Seq<char>)
    requires
        0 <= i <= s.len(),
        s.subrange(i, s.len() as int) == quoted(d) + rest,
    ensures
        parse_string_at(s, i) == Some((d, s.len() - rest.len())),
{
    let after = escape_string(d) + seq!['"'] + rest;
    assert(quoted(d) + rest =~= seq!['"'] + after);
    lemma_suffix_parts(s, i, seq!['"'], after);
    lemma_suffix_index(s, i, seq!['"'], after, 0);
    assert(s[i] == '"');
    lemma_parse_escaped_suffix(s, i + 1, d, rest);
}

/// A digit run of known extent is exactly what `digits_end` finds.
proof fn lemma_digits_end_run(s: Seq<char>, i: int, k: int)
    requires
        0 <= i,
        0 <= k,
        i + k <= s.len(),
        forall|m: int| i <= m < i + k ==> is_dec_digit(s[m]),
        i + k == s.len() || !is_dec_digit(s[i + k]),
    ensures
        digits_end(s, i) == i + k,
    decreases k,
{
    if k > 0 {
        lemma_digits_end_run(s, i + 1, k - 1);
    }
}

/// Parsing a rendered number recovers its value.
proof fn lemma_parse_u32_suffix(s: Seq<char>, i: int, n: u32, rest: Seq<char>)
    requires
        0 <= i <= s.len(),
        s.subrange(i, s.len() as int) == dec_digits(n as nat) + rest,
        rest.len() == 0 || !is_dec_digit(rest[0]),
    ensures
        parse_u32_at(s, i) == Some((n, s.len() - rest.len())),
{
    let ds = dec_digits(n as nat);
    lemma_dec_digits_are_digits(n as nat);
    lemma_suffix_parts(s, i, ds, rest);
    if rest.len() > 0 {
        lemma_suffix_index(s, i + ds.len(), rest, Seq::<char>::empty(), 0);
        assert(s.subrange(i + ds.len(), s.len() as int) =~= rest + Seq::<char>::empty());
        assert(s[i + ds.len()] == rest[0]);
    }
    assert forall|m: int| i <= m < i + ds.len() implies is_dec_digit(s[m]) by {
        lemma_suffix_index(s, i, ds, rest, m - i);
        assert(is_dec_digit(ds[m - i]));
    }
    lemma_digits_end_run(s, i, ds.len() as int);
    assert(s.subrange(i, i + ds.len()) =~= ds) by {
        assert forall|k: int| 0 <= k < ds.len() implies s.subrange(i, i + ds.len())[k] == ds[k] by {
            lemma_suffix_index(s, i, ds, rest, k);
            assert(s.subrange(i, i + ds.len())[k] == s[i + k]);
        }
    }
    lemma_dec_val_of_digits(n as nat);
}

/// Parsing a rendered `"<key>": ` member head (with leading whitespace run
/// `w`) lands exactly on the value.
proof fn lemma_parse_key_colon_suffix(
    s: Seq<char>,
    i: int,
    w: Seq<char>,
    key: Seq<char>,
    rest: Seq<char>,
)
    requires
        0 <= i <= s.len(),
        s.subrange(i, s.len() as int) == w + quoted(key) + seq![':', ' '] + rest,
        forall|k: int| 0 <= k < w.len() ==> is_ws(#[trigger] w[k]),
        rest.len() > 0,
        !is_ws(rest[0]),
    ensures
        parse_key_colon(s, i, key) == Some(s.len() - rest.len()),
{
    let after_w = quoted(key) + (seq![':', ' '] + rest);
    assert(((w + quoted(key)) + seq![':', ' ']) + rest =~= w + after_w);
    assert(after_w[0] == '"') by {
        assert((quoted(key) + (seq![':', ' '] + rest))[0] == quoted(key)[0]);
        assert(quoted(key)[0] == '"');
    }
    lemma_skip_ws_suffix(s, i, w, after_w);
    let i1 = i + w.len();
    assert(s.subrange(i1, s.len() as int) =~= quoted(key) + (seq![':', ' '] + rest));
    lemma_parse_string_suffix(s, i1, key, seq![':', ' '] + rest);
    let p = s.len() - (seq![':', ' '] + rest).len();
    lemma_suffix_parts(s, i1, quoted(key), seq![':', ' '] + rest);
    assert(p == i1 + quoted(key).len());
    assert(s.subrange(p, s.len() as int) == seq![':', ' '] + rest);
    lemma_suffix_index(s, p, seq![':', ' '], rest, 0);
    assert(s[p] == ':');
    assert(!is_ws(s[p]));
    assert(skip_ws(s, p) == p);
    assert(s.subrange(p, s.len() as int) =~= seq![':'] + (seq![' '] + rest));
    lemma_suffix_parts(s, p, seq![':'], seq![' '] + rest);
    lemma_skip_ws_suffix(s, p + 1, seq![' '], rest);
}

/// The whitespace run `\n` plus six spaces that precedes each member.
spec fn member_gap() -> Seq<char> {
    seq!['\n', ' ', ' ', ' ', ' ', ' ', ' ']
}

proof fn lemma_variant_name_roundtrip(status: TaskStatus)
    ensures
        TaskStatus::spec_from_variant_name(status.spec_variant_name()) == Some(status),
{
    reveal_strlit("NotStarted");
    reveal_strlit("InProgress");
    reveal_strlit("Completed");
    assert("NotStarted"@[0] != "InProgress"@[0]);
    assert("NotStarted"@.len() != "Completed"@.len());
    assert("InProgress"@.len() != "Completed"@.len());
}

/// Parsing a rendered task object recovers the task.
#[verifier::rlimit(100)]
proof fn lemma_parse_task_suffix(s: Seq<char>, i: int, t: TaskModel, rest: Seq<char>)
    requires
        0 <= i <= s.len(),
        s.subrange(i, s.len() as int) == render_task_body(t) + rest,
    ensures
        parse_task_at(s, i) == Some((t, s.len() - rest.len())),
{
    reveal_strlit("{\n      ");
    reveal_strlit(",\n      ");
    reveal_strlit(": ");
    reveal_strlit("\n    }");
    lemma_dec_digits_are_digits(t.id as nat);
    let gap = member_gap();
    let r3 = quoted(t.status.spec_variant_name()) + ("\n    }"@ + rest);
    let r2 = quoted(t.description) + (seq![','] + (gap + quoted("status"@) + seq![':', ' '] + r3));
    let r1 = dec_digits(t.id as nat) + (seq![','] + (gap + quoted("description"@) + seq![':', ' ']
        + r2));
    assert(s.subrange(i, s.len() as int) =~= seq!['{'] + ((gap + quoted("id"@) + seq![':', ' '])
        + r1));
    lemma_suffix_parts(s, i, seq!['{'], (gap + quoted("id"@) + seq![':', ' ']) + r1);
    lemma_suffix_index(s, i, seq!['{'], (gap + quoted("id"@) + seq![':', ' ']) + r1, 0);
    assert(s[i] == '{');
    let i1 = i + 1;
    // --- id ---
    assert(r1[0] == dec_digits(t.id as nat)[0]);
    assert(is_dec_digit(r1[0]));
    assert(!is_ws(r1[0]));
    assert(s.subrange(i1, s.len() as int) =~= gap + quoted("id"@) + seq![':', ' '] + r1);
    lemma_parse_key_colon_suffix(s, i1, gap, "id"@, r1);
    let i2 = s.len() - r1.len();
    assert(s.subrange(i1, s.len() as int) =~= (gap + quoted("id"@) + seq![':', ' ']) + r1);
    lemma_suffix_parts(s, i1, gap + quoted("id"@) + seq![':', ' '], r1);
    assert(s.subrange(i2, s.len() as int) == r1);
    let ra = seq![','] + (gap + quoted("description"@) + seq![':', ' '] + r2);
    assert(s.subrange(i2, s.len() as int) =~= dec_digits(t.id as nat) + ra);
    assert(ra[0] == ',');
    assert(!is_dec_digit(ra[0]));
    lemma_parse_u32_suffix(s, i2, t.id, ra);
    let i3 = s.len() - ra.len();
    lemma_suffix_parts(s, i2, dec_digits(t.id as nat), ra);
    assert(s.subrange(i3, s.len() as int) == ra);
    lemma_suffix_index(s, i3, seq![','], gap + quoted("description"@) + seq![':', ' '] + r2, 0);
    assert(s[i3] == ',');
    assert(!is_ws(s[i3]));
    assert(skip_ws(s, i3) == i3);
    assert(s.subrange(i3, s.len() as int) =~= seq![','] + (gap + quoted("description"@) + seq![
        ':',
        ' ',
    ] + r2));
    lemma_suffix_parts(s, i3, seq![','], gap + quoted("description"@) + seq![':', ' '] + r2);
    let i4 = i3 + 1;
    // --- description ---
    assert(r2[0] == quoted(t.description)[0]);
    assert(quoted(t.description)[0] == '"');
    assert(!is_ws(r2[0]));
    assert(s.subrange(i4, s.len() as int) =~= gap + quoted("description"@) + seq![':', ' '] + r2);
    lemma_parse_key_colon_suffix(s, i4, gap, "description"@, r2);
    let i5 = s.len() - r2.len();
    assert(s.subrange(i4, s.len() as int) =~= (gap + quoted("description"@) + seq![':', ' ']) + r2);
    lemma_suffix_parts(s, i4, gap + quoted("description"@) + seq![':', ' '], r2);
    assert(s.subrange(i5, s.len() as int) == r2);
    let rb = seq![','] + (gap + quoted("status"@) + seq![':', ' '] + r3);
    assert(s.subrange(i5, s.len() as int) =~= quoted(t.description) + rb);
    lemma_parse_string_suffix(s, i5, t.description, rb);
    let i6 = s.len() - rb.len();
    lemma_suffix_parts(s, i5, quoted(t.description), rb);
    assert(s.subrange(i6, s.len() as int) == rb);
    lemma_suffix_index(s, i6, seq![','], gap + quoted("status"@) + seq![':', ' '] + r3, 0);
    assert(s[i6] == ',');
    assert(!is_ws(s[i6]));
    assert(skip_ws(s, i6) == i6);
    assert(s.subrange(i6, s.len() as int) =~= seq![','] + (gap + quoted("status"@) + seq![':', ' ']
        + r3));
    lemma_suffix_parts(s, i6, seq![','], gap + quoted("status"@) + seq![':', ' '] + r3);
    let i7 = i6 + 1;
    // --- status ---
    assert(r3[0] == quoted(t.status.spec_variant_name())[0]);
    assert(quoted(t.status.spec_variant_name())[0] == '"');
    assert(!is_ws(r3[0]));
    assert(s.subrange(i7, s.len() as int) =~= gap + quoted("status"@) + seq![':', ' '] + r3);
    lemma_parse_key_colon_suffix(s, i7, gap, "status"@, r3);
    let i8 = s.len() - r3.len();
    assert(s.subrange(i7, s.len() as int) =~= (gap + quoted("status"@) + seq![':', ' ']) + r3);
    lemma_suffix_parts(s, i7, gap + quoted("status"@) + seq![':', ' '], r3);
    assert(s.subrange(i8, s.len() as int) == r3);
    let rc = "\n    }"@ + rest;
    assert(s.subrange(i8, s.len() as int) =~= quoted(t.status.spec_variant_name()) + rc);
    lemma_parse_string_suffix(s, i8, t.status.spec_variant_name(), rc);
    let i9 = s.len() - rc.len();
    lemma_suffix_parts(s, i8, quoted(t.status.spec_variant_name()), rc);
    assert(s.subrange(i9, s.len() as int) == rc);
    lemma_variant_name_roundtrip(t.status);
    // --- closing brace ---
    assert(s.subrange(i9, s.len() as int) =~= seq!['\n', ' ', ' ', ' ', ' '] + (seq!['}'] + rest));
    lemma_skip_ws_suffix(s, i9, seq!['\n', ' ', ' ', ' ', ' '], seq!['}'] + rest);
    let k9 = i9 + 5;
    lemma_suffix_index(s, k9, seq!['}'], rest, 0);
    assert(s[k9] == '}');
    lemma_suffix_parts(s, k9, seq!['}'], rest);
    assert(parse_task_at(s, i) == Some((t, k9 + 1)));
}


/// The whitespace run `\n` plus four spaces that separates array items and
/// follows the opening bracket.
spec fn item_gap() -> Seq<char> {
    seq!['\n', ' ', ' ', ' ', ' ']
}

/// The task bodies joined by `,` and the item gap: the array's text between
/// the first opening brace and the closing bracket's whitespace.
spec fn joined_bodies(ts: Seq<TaskModel>) -> Seq<char>
    decreases ts.len(),
{
    if ts.len() <= 1 {
        render_task_body(ts[0])
    } else {
        render_task_body(ts[0]) + seq![','] + item_gap() + joined_bodies(ts.drop_first())
    }
}

proof fn lemma_joined_bodies_push(ts: Seq<TaskModel>, t: TaskModel)
    requires
        ts.len() >= 1,
    ensures
        joined_bodies(ts.push(t)) == joined_bodies(ts) + seq![','] + item_gap() + render_task_body(
            t,
        ),
    decreases ts.len(),
{
    if ts.len() == 1 {
        assert(ts.push(t).drop_first() =~= seq![t]);
        assert(joined_bodies(seq![t]) == render_task_body(t));
        assert(ts.push(t)[0] == ts[0]);
        assert(joined_bodies(ts.push(t)) =~= joined_bodies(ts) + seq![','] + item_gap()
            + render_task_body(t));
    } else {
        assert(ts.push(t).drop_first() =~= ts.drop_first().push(t));
        lemma_joined_bodies_push(ts.drop_first(), t);
        assert(ts.push(t)[0] == ts[0]);
        assert(joined_bodies(ts.push(t)) =~= joined_bodies(ts) + seq![','] + item_gap()
            + render_task_body(t));
    }
}

/// `render_tasks` is the four-space indent followed by the joined bodies.
proof fn lemma_render_tasks_decompose(ts: Seq<TaskModel>)
    requires
        ts.len() >= 1,
    ensures
        render_tasks(ts) == seq![' ', ' ', ' ', ' '] + joined_bodies(ts),
    decreases ts.len(),
{
    reveal_strlit("    ");
    reveal_strlit(",\n");
    if ts.len() == 1 {
        assert(render_tasks(ts) == "    "@ + render_task_body(ts[0]));
        assert(render_tasks(ts) =~= seq![' ', ' ', ' ', ' '] + joined_bodies(ts));
    } else {
        let dl = ts.drop_last();
        lemma_render_tasks_decompose(dl);
        assert(dl.push(ts.last()) =~= ts);
        lemma_joined_bodies_push(dl, ts.last());
        assert(render_tasks(ts) == render_tasks(dl) + ",\n"@ + ("    "@ + render_task_body(
            ts.last(),
        )));
        assert(render_tasks(ts) =~= seq![' ', ' ', ' ', ' '] + joined_bodies(ts));
    }
}

/// Parsing the rendered items of a nonempty task sequence recovers it and
/// stops after the closing bracket.
#[verifier::rlimit(100)]
proof fn lemma_parse_items_suffix(s: Seq<char>, i: int, ts: Seq<TaskModel>, rest: Seq<char>)
    requires
        ts.len() >= 1,
        0 <= i <= s.len(),
        s.subrange(i, s.len() as int) == joined_bodies(ts) + seq!['\n', ' ', ' '] + (seq![']']
            + rest),
    ensures
        parse_items(s, i) == Some((ts, s.len() - rest.len())),
    decreases ts.len(),
{
    reveal_strlit("{\n      ");
    if ts.len() == 1 {
        let after = seq!['\n', ' ', ' '] + (seq![']'] + rest);
        assert((joined_bodies(ts) + seq!['\n', ' ', ' ']) + (seq![']'] + rest) =~= render_task_body(
            ts[0],
        ) + after);
        lemma_parse_task_suffix(s, i, ts[0], after);
        let j = s.len() - after.len();
        lemma_suffix_parts(s, i, render_task_body(ts[0]), after);
        assert(s.subrange(j, s.len() as int) == after);
        assert(s.subrange(j, s.len() as int) =~= seq!['\n', ' ', ' '] + (seq![']'] + rest));
        lemma_skip_ws_suffix(s, j, seq!['\n', ' ', ' '], seq![']'] + rest);
        let k = j + 3;
        lemma_suffix_index(s, k, seq![']'], rest, 0);
        assert(s[k] == ']');
        lemma_suffix_parts(s, k, seq![']'], rest);
        assert(parse_items(s, i) == Some((seq![ts[0]], k + 1)));
        assert(seq![ts[0]] =~= ts);
    } else {
        let tail2 = ts.drop_first();
        let close = seq!['\n', ' ', ' '] + (seq![']'] + rest);
        let after = seq![','] + (item_gap() + (joined_bodies(tail2) + close));
        assert((joined_bodies(ts) + seq!['\n', ' ', ' ']) + (seq![']'] + rest)
            =~= render_task_body(ts[0]) + after);
        lemma_parse_task_suffix(s, i, ts[0], after);
        let j = s.len() - after.len();
        lemma_suffix_parts(s, i, render_task_body(ts[0]), after);
        assert(s.subrange(j, s.len() as int) == after);
        lemma_suffix_index(s, j, seq![','], item_gap() + (joined_bodies(tail2) + close), 0);
        assert(s[j] == ',');
        assert(!is_ws(s[j]));
        assert(skip_ws(s, j) == j);
        lemma_suffix_parts(s, j, seq![','], item_gap() + (joined_bodies(tail2) + close));
        assert(s.subrange(j + 1, s.len() as int) == item_gap() + (joined_bodies(tail2) + close));
        assert((joined_bodies(tail2) + close)[0] == '{') by {
            assert((joined_bodies(tail2) + close)[0] == joined_bodies(tail2)[0]);
            assert(render_task_body(tail2[0])[0] == "{\n      "@[0]);
        }
        lemma_skip_ws_suffix(s, j + 1, item_gap(), joined_bodies(tail2) + close);
        let newpos = j + 1 + 5;
        assert(s.subrange(newpos, s.len() as int) =~= joined_bodies(tail2) + seq!['\n', ' ', ' ']
            + (seq![']'] + rest));
        lemma_parse_items_suffix(s, newpos, tail2, rest);
        assert(parse_items(s, i) == Some((seq![ts[0]] + tail2, s.len() - rest.len())));
        assert(seq![ts[0]] + tail2 =~= ts);
    }
}

/// The document's head: brace, the `tasks` key, and the colon, landing on
/// the opening bracket of the array.
#[verifier::rlimit(100)]
proof fn lemma_doc_prefix(s: Seq<char>, r: Seq<char>)
    requires
        s.subrange(0, s.len() as int) == seq!['{'] + ((seq!['\n', ' ', ' '] + quoted("tasks"@)
            + seq![':', ' ']) + r),
        r.len() > 0,
        r[0] == '[',
    ensures
        skip_ws(s, 0) == 0,
        0 < s.len() && s[0] == '{',
        parse_key_colon(s, 1, "tasks"@) == Some(s.len() - r.len()),
        s.len() - r.len() < s.len(),
        s[s.len() - r.len()] == '[',
        s.subrange(s.len() - r.len(), s.len() as int) == r,
{
    let gap3 = seq!['\n', ' ', ' '];
    let head = (gap3 + quoted("tasks"@) + seq![':', ' ']) + r;
    lemma_suffix_index(s, 0, seq!['{'], head, 0);
    assert(s[0] == '{');
    assert(!is_ws(s[0]));
    assert(skip_ws(s, 0) == 0);
    lemma_suffix_parts(s, 0, seq!['{'], head);
    assert(s.subrange(1, s.len() as int) =~= gap3 + quoted("tasks"@) + seq![':', ' '] + r);
    lemma_parse_key_colon_suffix(s, 1, gap3, "tasks"@, r);
    let i2 = s.len() - r.len();
    assert(s.subrange(1, s.len() as int) =~= (gap3 + quoted("tasks"@) + seq![':', ' ']) + r);
    lemma_suffix_parts(s, 1, gap3 + quoted("tasks"@) + seq![':', ' '], r);
    assert(s.subrange(i2, s.len() as int) == r);
    lemma_suffix_index(s, i2, r, Seq::<char>::empty(), 0);
    assert(s.subrange(i2, s.len() as int) =~= r + Seq::<char>::empty());
    assert(s[i2] == '[');
}

#[verifier::rlimit(100)]
proof fn lemma_round_trip_empty(ts: Seq<TaskModel>)
    requires
        ts.len() == 0,
    ensures
        parse_task_list(render_task_list(ts)) == Some(ts),
{
    reveal_strlit("{\n  ");
    reveal_strlit(": []\n}");
    let s = render_task_list(ts);
    assert(s.subrange(0, s.len() as int) =~= s);
    let gap3 = seq!['\n', ' ', ' '];
    let r = seq!['['] + (seq![']'] + (seq!['\n'] + (seq!['}'] + Seq::<char>::empty())));
    assert(s =~= seq!['{'] + ((gap3 + quoted("tasks"@) + seq![':', ' ']) + r));
    lemma_doc_prefix(s, r);
    let i2 = s.len() - r.len();
    lemma_suffix_parts(s, i2, seq!['['], seq![']'] + (seq!['\n'] + (seq!['}']
        + Seq::<char>::empty())));
    let i3 = i2 + 1;
    lemma_suffix_index(s, i3, seq![']'], seq!['\n'] + (seq!['}'] + Seq::<char>::empty()), 0);
    assert(s[i3] == ']');
    assert(!is_ws(s[i3]));
    assert(skip_ws(s, i3) == i3);
    assert(parse_array(s, i2) == Some((Seq::<TaskModel>::empty(), i3 + 1)));
    lemma_suffix_parts(s, i3, seq![']'], seq!['\n'] + (seq!['}'] + Seq::<char>::empty()));
    lemma_skip_ws_suffix(s, i3 + 1, seq!['\n'], seq!['}'] + Seq::<char>::empty());
    let i4 = i3 + 2;
    lemma_suffix_index(s, i4, seq!['}'], Seq::<char>::empty(), 0);
    assert(s[i4] == '}');
    lemma_suffix_parts(s, i4, seq!['}'], Seq::<char>::empty());
    assert(i4 + 1 == s.len());
    assert(skip_ws(s, i4 + 1) == s.len());
    assert(parse_task_list(s) == Some(Seq::<TaskModel>::empty()));
    assert(Seq::<TaskModel>::empty() =~= ts);
}

/// The nonempty array: bracket, gap, items, and the closing bracket.
#[verifier::rlimit(100)]
proof fn lemma_array_nonempty(s: Seq<char>, i2: int, ts: Seq<TaskModel>, fin: Seq<char>)
    requires
        ts.len() > 0,
        0 <= i2 <= s.len(),
        s.subrange(i2, s.len() as int) == seq!['['] + (item_gap() + (joined_bodies(ts) + seq![
            '\n',
            ' ',
            ' ',
        ] + (seq![']'] + fin))),
    ensures
        parse_array(s, i2) == Some((ts, s.len() - fin.len())),
        s.subrange(s.len() - fin.len(), s.len() as int) == fin,
{
    reveal_strlit("{\n      ");
    let arr = item_gap() + (joined_bodies(ts) + seq!['\n', ' ', ' '] + (seq![']'] + fin));
    lemma_suffix_index(s, i2, seq!['['], arr, 0);
    assert(s[i2] == '[');
    lemma_suffix_parts(s, i2, seq!['['], arr);
    assert((joined_bodies(ts) + seq!['\n', ' ', ' '] + (seq![']'] + fin))[0] == '{') by {
        assert((joined_bodies(ts) + seq!['\n', ' ', ' '] + (seq![']'] + fin))[0]
            == joined_bodies(ts)[0]);
        assert(render_task_body(ts[0])[0] == "{\n      "@[0]);
    }
    lemma_skip_ws_suffix(s, i2 + 1, item_gap(), joined_bodies(ts) + seq!['\n', ' ', ' '] + (seq![
        ']',
    ] + fin));
    let j = i2 + 6;
    assert(s[j] == '{') by {
        lemma_suffix_index(s, j, joined_bodies(ts) + seq!['\n', ' ', ' '], seq![']'] + fin, 0);
        assert((joined_bodies(ts) + seq!['\n', ' ', ' '])[0] == joined_bodies(ts)[0]);
        assert(render_task_body(ts[0])[0] == "{\n      "@[0]);
    }
    assert(s[j] != ']');
    lemma_parse_items_suffix(s, j, ts, fin);
    let m = s.len() - fin.len();
    assert(parse_array(s, i2) == Some((ts, m)));
    assert(s.subrange(j, s.len() as int) == (joined_bodies(ts) + seq!['\n', ' ', ' ']) + (seq![
        ']',
    ] + fin));
    lemma_suffix_parts(s, j, joined_bodies(ts) + seq!['\n', ' ', ' '], seq![']'] + fin);
    lemma_suffix_parts(s, s.len() - (seq![']'] + fin).len(), seq![']'], fin);
}

/// The document's close: newline, closing brace, end of text.
proof fn lemma_doc_close(s: Seq<char>, m: int)
    requires
        0 <= m <= s.len(),
        s.subrange(m, s.len() as int) == seq!['\n'] + (seq!['}'] + Seq::<char>::empty()),
    ensures
        skip_ws(s, m) == m + 1,
        m + 1 < s.len() && s[m + 1] == '}',
        m + 2 == s.len(),
        skip_ws(s, m + 2) == s.len(),
{
    lemma_skip_ws_suffix(s, m, seq!['\n'], seq!['}'] + Seq::<char>::empty());
    lemma_suffix_index(s, m + 1, seq!['}'], Seq::<char>::empty(), 0);
    lemma_suffix_parts(s, m + 1, seq!['}'], Seq::<char>::empty());
    assert(skip_ws(s, m + 2) == s.len());
}

#[verifier::rlimit(100)]
proof fn lemma_round_trip_nonempty(ts: Seq<TaskModel>)
    requires
        ts.len() > 0,
    ensures
        parse_task_list(render_task_list(ts)) == Some(ts),
{
    reveal_strlit("{\n  ");
    reveal_strlit(": [\n");
    reveal_strlit("\n  ]\n}");
    let s = render_task_list(ts);
    assert(s.subrange(0, s.len() as int) =~= s);
    let gap3 = seq!['\n', ' ', ' '];
    lemma_render_tasks_decompose(ts);
    let fin = seq!['\n'] + (seq!['}'] + Seq::<char>::empty());
    let arr = item_gap() + (joined_bodies(ts) + seq!['\n', ' ', ' '] + (seq![']'] + fin));
    let r = seq!['['] + arr;
    assert(s =~= seq!['{'] + ((gap3 + quoted("tasks"@) + seq![':', ' ']) + r));
    lemma_doc_prefix(s, r);
    let i2 = s.len() - r.len();
    lemma_array_nonempty(s, i2, ts, fin);
    let m = s.len() - fin.len();
    lemma_doc_close(s, m);
    assert(parse_task_list(s) == Some(ts));
}

/// Law: exporting to JSON and importing the result reconstructs the same
/// ordered task sequence — the same ids, descriptions and statuses.
pub proof fn lemma_export_import_round_trip(ts: Seq<TaskModel>)
    ensures
        parse_task_list(render_task_list(ts)) == Some(ts),
{
    if ts.len() == 0 {
        lemma_round_trip_empty(ts);
    } else {
        lemma_round_trip_nonempty(ts);
    }
}

} // verus!
