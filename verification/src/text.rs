//! Character-level utilities shared by the formatters and the command parser:
//! decimal rendering and parsing of `u32` values, conversions between strings
//! and character vectors, and splitting a line into space-separated tokens.

use vstd::prelude::*;
use vstd::string::StrSliceExecFns;

verus! {

/// The decimal digit character for a value below ten.
pub open spec fn spec_digit_char(d: int) -> char {
    if d == 0 {
        '0'
    } else if d == 1 {
        '1'
    } else if d == 2 {
        '2'
    } else if d == 3 {
        '3'
    } else if d == 4 {
        '4'
    } else if d == 5 {
        '5'
    } else if d == 6 {
        '6'
    } else if d == 7 {
        '7'
    } else if d == 8 {
        '8'
    } else {
        '9'
    }
}

/// The usual decimal rendering of `n`: no sign, no leading zero except for
/// the number zero itself.
pub open spec fn dec_digits(n: nat) -> Seq<char>
    decreases n,
{
    if n < 10 {
        seq![spec_digit_char(n as int)]
    } else {
        dec_digits(n / 10).push(spec_digit_char((n % 10) as int))
    }
}

pub open spec fn is_dec_digit(c: char) -> bool {
    '0' as u32 <= c as u32 && c as u32 <= '9' as u32
}

pub open spec fn digit_val(c: char) -> int {
    c as u32 - '0' as u32
}

/// The value of a sequence of decimal digit characters, most significant first.
pub open spec fn dec_val(s: Seq<char>) -> int
    decreases s.len(),
{
    if s.len() == 0 {
        0
    } else {
        dec_val(s.drop_last()) * 10 + digit_val(s.last())
    }
}

/// A token parses as a `u32` when it is a nonempty, all-digit run whose value
/// fits; anything else (sign, blanks, other characters) is rejected.
pub open spec fn parse_u32(s: Seq<char>) -> Option<u32> {
    if s.len() > 0 && (forall|i: int| 0 <= i < s.len() ==> is_dec_digit(s[i])) && dec_val(s)
        <= u32::MAX {
        Some(dec_val(s) as u32)
    } else {
        None
    }
}

pub proof fn lemma_dec_digits_are_digits(n: nat)
    ensures
        dec_digits(n).len() >= 1,
        forall|i: int| 0 <= i < dec_digits(n).len() ==> is_dec_digit(#[trigger] dec_digits(n)[i]),
    decreases n,
{
    if n >= 10 {
        lemma_dec_digits_are_digits(n / 10);
    }
}

proof fn lemma_digit_val_char(d: int)
    requires
        0 <= d < 10,
    ensures
        digit_val(spec_digit_char(d)) == d,
{
}

/// The decimal rendering of a value reads back as that value.
pub proof fn lemma_dec_val_of_digits(n: nat)
    ensures
        dec_val(dec_digits(n)) == n,
    decreases n,
{
    if n < 10 {
        lemma_digit_val_char(n as int);
        assert(dec_val(Seq::<char>::empty()) == 0);
        assert(dec_digits(n).drop_last() =~= Seq::<char>::empty());
        assert(dec_digits(n).last() == spec_digit_char(n as int));
    } else {
        lemma_dec_val_of_digits(n / 10);
        lemma_digit_val_char((n % 10) as int);
        assert(dec_digits(n).drop_last() =~= dec_digits(n / 10));
        assert(dec_digits(n).last() == spec_digit_char((n % 10) as int));
        assert(dec_val(dec_digits(n)) == (n / 10) * 10 + n % 10);
        assert((n / 10) * 10 + n % 10 == n) by (nonlinear_arith);
    }
}

fn digit_char(d: u32) -> (c: char)
    requires
        d < 10,
    ensures
        c == spec_digit_char(d as int),
{
    match d {
        0 => '0',
        1 => '1',
        2 => '2',
        3 => '3',
        4 => '4',
        5 => '5',
        6 => '6',
        7 => '7',
        8 => '8',
        _ => '9',
    }
}

/// Appends the decimal rendering of `n` to `out`.
pub fn push_dec_u32(out: &mut Vec<char>, n: u32)
    ensures
        final(out)@ == old(out)@ + dec_digits(n as nat),
    decreases n,
{
    if n >= 10 {
        push_dec_u32(out, n / 10);
    }
    let d = digit_char(n % 10);
    out.push(d);
    proof {
        if n >= 10 {
            assert(out@ =~= old(out)@ + dec_digits(n as nat));
        } else {
            assert(out@ =~= old(out)@ + dec_digits(n as nat));
        }
    }
}

/// Relies on `String`'s `FromIterator<char>` implementation: collecting an
/// iterator of characters yields a string of exactly those characters.
#[verifier::external_body]
pub fn chars_to_string(v: &Vec<char>) -> (r: String)
    ensures
        r@ == v@,
{
    v.iter().collect()
}

/// The characters of `s`, in order, as a vector.
pub fn str_chars(s: &str) -> (v: Vec<char>)
    ensures
        v@ == s@,
{
    let n = s.unicode_len();
    let mut v: Vec<char> = Vec::new();
    let mut i: usize = 0;
    while i < n
        invariant
            n == s@.len(),
            i <= n,
            v@ == s@.subrange(0, i as int),
        decreases n - i,
    {
        v.push(s.get_char(i));
        i = i + 1;
        proof {
            assert(v@ =~= s@.subrange(0, i as int));
        }
    }
    proof {
        assert(v@ =~= s@);
    }
    v
}

/// Appending decimal digits to a nonnegative prefix can only grow its value.
pub proof fn lemma_dec_val_extend(s: Seq<char>, i: int)
    requires
        0 <= i <= s.len(),
        dec_val(s.take(i)) >= 0,
        forall|j: int| i <= j < s.len() ==> is_dec_digit(s[j]),
    ensures
        dec_val(s) >= dec_val(s.take(i)),
    decreases s.len() - i,
{
    if i == s.len() {
        assert(s.take(i) =~= s);
    } else {
        let s1 = s.drop_last();
        assert(s1.take(i) =~= s.take(i));
        lemma_dec_val_extend(s1, i);
        assert(digit_val(s.last()) >= 0);
    }
}

/// Reads a token as a `u32`, exactly as `parse_u32` describes.
pub fn parse_u32_token(tok: &Vec<char>) -> (r: Option<u32>)
    ensures
        r == parse_u32(tok@),
{
    let n = tok.len();
    if n == 0 {
        return None;
    }
    let mut acc: u32 = 0;
    let mut i: usize = 0;
    while i < n
        invariant
            0 < n == tok@.len(),
            i <= n,
            forall|j: int| 0 <= j < i ==> is_dec_digit(tok@[j]),
            acc == dec_val(tok@.take(i as int)),
        decreases n - i,
    {
        let c = tok[i];
        let u = c as u32;
        if u < 48 || u > 57 {
            return None;
        }
        let d = u - 48;
        proof {
            assert(tok@.take(i + 1 as int).drop_last() =~= tok@.take(i as int));
            assert(tok@.take(i + 1 as int).last() == tok@[i as int]);
        }
        let wide: u64 = acc as u64 * 10 + d as u64;
        if wide > u32::MAX as u64 {
            proof {
                if forall|j: int| 0 <= j < tok@.len() ==> is_dec_digit(tok@[j]) {
                    lemma_dec_val_extend(tok@, i + 1);
                    assert(dec_val(tok@) > u32::MAX);
                }
            }
            return None;
        }
        acc = wide as u32;
        i = i + 1;
    }
    proof {
        assert(tok@.take(n as int) =~= tok@);
    }
    Some(acc)
}

/// The lowercase form of an ASCII capital; any other character is unchanged.
pub open spec fn lower_char(c: char) -> char {
    match c {
        'A' => 'a',
        'B' => 'b',
        'C' => 'c',
        'D' => 'd',
        'E' => 'e',
        'F' => 'f',
        'G' => 'g',
        'H' => 'h',
        'I' => 'i',
        'J' => 'j',
        'K' => 'k',
        'L' => 'l',
        'M' => 'm',
        'N' => 'n',
        'O' => 'o',
        'P' => 'p',
        'Q' => 'q',
        'R' => 'r',
        'S' => 's',
        'T' => 't',
        'U' => 'u',
        'V' => 'v',
        'W' => 'w',
        'X' => 'x',
        'Y' => 'y',
        'Z' => 'z',
        _ => c,
    }
}

pub open spec fn ascii_lower(s: Seq<char>) -> Seq<char> {
    s.map_values(|c: char| lower_char(c))
}

/// ASCII-lowercases a token.
pub fn to_ascii_lower(tok: &Vec<char>) -> (r: Vec<char>)
    ensures
        r@ == ascii_lower(tok@),
{
    let mut r: Vec<char> = Vec::new();
    let mut i: usize = 0;
    while i < tok.len()
        invariant
            i <= tok@.len(),
            r@ == ascii_lower(tok@.take(i as int)),
        decreases tok@.len() - i,
    {
        let c = tok[i];
        let lc: char = match c {
            'A' => 'a',
            'B' => 'b',
            'C' => 'c',
            'D' => 'd',
            'E' => 'e',
            'F' => 'f',
            'G' => 'g',
            'H' => 'h',
            'I' => 'i',
            'J' => 'j',
            'K' => 'k',
            'L' => 'l',
            'M' => 'm',
            'N' => 'n',
            'O' => 'o',
            'P' => 'p',
            'Q' => 'q',
            'R' => 'r',
            'S' => 's',
            'T' => 't',
            'U' => 'u',
            'V' => 'v',
            'W' => 'w',
            'X' => 'x',
            'Y' => 'y',
            'Z' => 'z',
            _ => c,
        };
        r.push(lc);
        i = i + 1;
        proof {
            assert(r@ =~= ascii_lower(tok@.take(i as int)));
        }
    }
    proof {
        assert(tok@.take(tok@.len() as int) =~= tok@);
    }
    r
}

/// Whether a token's characters are exactly those of `lit`.
pub fn token_eq(tok: &Vec<char>, lit: &str) -> (r: bool)
    ensures
        r == (tok@ == lit@),
{
    let n = lit.unicode_len();
    if tok.len() != n {
        return false;
    }
    let mut i: usize = 0;
    while i < n
        invariant
            n == lit@.len() == tok@.len(),
            i <= n,
            forall|j: int| 0 <= j < i ==> tok@[j] == lit@[j],
        decreases n - i,
    {
        if tok[i] != lit.get_char(i) {
            return false;
        }
        i = i + 1;
    }
    proof {
        assert(tok@ =~= lit@);
    }
    true
}

/// Appends the characters of `s` to `out`.
pub fn push_str_chars(out: &mut Vec<char>, s: &str)
    ensures
        final(out)@ == old(out)@ + s@,
{
    let n = s.unicode_len();
    let mut i: usize = 0;
    while i < n
        invariant
            n == s@.len(),
            i <= n,
            out@ == old(out)@ + s@.subrange(0, i as int),
        decreases n - i,
    {
        out.push(s.get_char(i));
        i = i + 1;
        proof {
            assert(out@ =~= old(out)@ + s@.subrange(0, i as int));
        }
    }
    proof {
        assert(out@ =~= old(out)@ + s@);
    }
}

/// How `str::split(" ")` cuts a line: every single space ends a segment, so
/// consecutive spaces and leading or trailing spaces yield empty segments.
/// There is always at least one segment.
pub open spec fn split_spaces(s: Seq<char>) -> Seq<Seq<char>>
    decreases s.len(),
{
    if s.len() == 0 {
        seq![Seq::<char>::empty()]
    } else if s[0] == ' ' {
        seq![Seq::<char>::empty()] + split_spaces(s.drop_first())
    } else {
        let rest = split_spaces(s.drop_first());
        seq![seq![s[0]] + rest[0]] + rest.drop_first()
    }
}

pub proof fn lemma_split_spaces_nonempty(s: Seq<char>)
    ensures
        split_spaces(s).len() >= 1,
    decreases s.len(),
{
    if s.len() > 0 {
        lemma_split_spaces_nonempty(s.drop_first());
    }
}

/// `segs` with `p` glued onto the front of its first segment.
pub open spec fn prepend_first(p: Seq<char>, segs: Seq<Seq<char>>) -> Seq<Seq<char>> {
    seq![p + segs[0]] + segs.drop_first()
}

pub open spec fn token_views(ts: Seq<Vec<char>>) -> Seq<Seq<char>> {
    ts.map_values(|t: Vec<char>| t@)
}

/// Splits a line into its space-separated tokens, as `split_spaces` describes.
pub fn split_tokens(s: &Vec<char>) -> (r: Vec<Vec<char>>)
    ensures
        token_views(r@) == split_spaces(s@),
        r@.len() >= 1,
{
    let n = s.len();
    let mut done: Vec<Vec<char>> = Vec::new();
    let mut cur: Vec<char> = Vec::new();
    let mut i: usize = 0;
    proof {
        lemma_split_spaces_nonempty(s@.skip(0));
        assert(s@.skip(0) =~= s@);
        assert(prepend_first(cur@, split_spaces(s@.skip(0))) =~~= split_spaces(s@));
    }
    while i < n
        invariant
            n == s@.len(),
            i <= n,
            split_spaces(s@) =~~= token_views(done@) + prepend_first(cur@, split_spaces(s@.skip(i as int))),
        decreases n - i,
    {
        let ghost pre_done = done@;
        let ghost pre_cur = cur@;
        let c = s[i];
        proof {
            assert(s@.skip(i as int)[0] == s@[i as int]);
            assert(s@.skip(i as int).drop_first() =~= s@.skip(i + 1 as int));
            lemma_split_spaces_nonempty(s@.skip(i + 1 as int));
        }
        if c == ' ' {
            done.push(cur);
            cur = Vec::new();
            proof {
                assert(token_views(done@) =~~= token_views(pre_done).push(pre_cur));
                assert(prepend_first(pre_cur, split_spaces(s@.skip(i as int))) =~~= seq![pre_cur]
                    + split_spaces(s@.skip(i + 1 as int)));
                assert(token_views(done@) + prepend_first(cur@, split_spaces(s@.skip(i + 1 as int)))
                    =~~= token_views(pre_done) + prepend_first(
                    pre_cur,
                    split_spaces(s@.skip(i as int)),
                ));
            }
        } else {
            cur.push(c);
            proof {
                let rest = split_spaces(s@.skip(i + 1 as int));
                assert(prepend_first(pre_cur, split_spaces(s@.skip(i as int))) =~~= prepend_first(
                    cur@,
                    rest,
                ));
            }
        }
        i = i + 1;
    }
    proof {
        assert(s@.skip(n as int) =~= Seq::<char>::empty());
        assert(prepend_first(cur@, split_spaces(s@.skip(n as int))) =~~= seq![cur@]);
    }
    done.push(cur);
    proof {
        assert(token_views(done@) =~~= split_spaces(s@));
    }
    done
}


/// Appends the characters of `v` to `out`.
pub fn push_chars(out: &mut Vec<char>, v: &Vec<char>)
    ensures
        final(out)@ == old(out)@ + v@,
{
    let n = v.len();
    let mut i: usize = 0;
    while i < n
        invariant
            n == v@.len(),
            i <= n,
            out@ == old(out)@ + v@.subrange(0, i as int),
        decreases n - i,
    {
        out.push(v[i]);
        i = i + 1;
        proof {
            assert(out@ =~= old(out)@ + v@.subrange(0, i as int));
        }
    }
    proof {
        assert(out@ =~= old(out)@ + v@);
    }
}

/// The decimal rendering of `n` as a string.
pub fn u32_to_string(n: u32) -> (r: String)
    ensures
        r@ == dec_digits(n as nat),
{
    let mut out: Vec<char> = Vec::new();
    push_dec_u32(&mut out, n);
    proof {
        assert(out@ =~= dec_digits(n as nat));
    }
    chars_to_string(&out)
}

} // verus!
