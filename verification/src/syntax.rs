//! Small pieces of Mermaid syntax shared by several parsers: quotes, repeated
//! prefixes and suffixes, identifiers, directions.

use vstd::prelude::*;
use crate::text::{
    trim, trim_chars, starts_with, ends_with, slice_of, lit, chars_eq, words, words_exec, views,
    lowercase, lowercase_exec, uppercase, uppercase_exec, find_char, split_once,
    split_once_char_exec,
};
use crate::diagram::{Text, Direction};

verus! {

// ---------------------------------------------------------------------------
// Quotes
// ---------------------------------------------------------------------------

/// Whether `t` is wrapped in the quote character `q` (and longer than the quotes).
pub open spec fn wrapped_in(t: Text, q: char) -> bool {
    t.len() >= 2 && t[0] == q && t[t.len() - 1] == q
}

/// Trims `s`, then drops one pair of surrounding double or single quotes.
pub open spec fn strip_quotes(s: Text) -> Text {
    let t = trim(s);
    if wrapped_in(t, '"') || wrapped_in(t, '\'') {
        t.subrange(1, t.len() - 1)
    } else {
        t
    }
}

pub fn wrapped_in_exec(t: &Vec<char>, q: char) -> (r: bool)
    ensures
        r == wrapped_in(t@, q),
{
    t.len() >= 2 && t[0] == q && t[t.len() - 1] == q
}

/// Trims `s`, then drops one pair of surrounding double or single quotes.
pub fn strip_quotes_exec(s: &Vec<char>) -> (r: Vec<char>)
    ensures
        r@ == strip_quotes(s@),
{
    let t = trim_chars(s);
    if wrapped_in_exec(&t, '"') || wrapped_in_exec(&t, '\'') {
        slice_of(&t, 1, t.len() - 1)
    } else {
        t
    }
}

// ---------------------------------------------------------------------------
// Repeated prefixes and suffixes
// ---------------------------------------------------------------------------

/// `str::trim_start_matches` with a non-empty string pattern.
pub open spec fn trim_start_matches(s: Text, p: Text) -> Text
    decreases s.len(),
{
    if p.len() > 0 && starts_with(s, p) {
        trim_start_matches(s.skip(p.len() as int), p)
    } else {
        s
    }
}

/// `str::trim_start_matches` with a non-empty string pattern.
pub fn trim_start_matches_exec(s: &Vec<char>, p: &Vec<char>) -> (r: Vec<char>)
    ensures
        r@ == trim_start_matches(s@, p@),
{
    let mut cur = crate::text::copy_chars(s);
    while p.len() > 0 && crate::text::starts_with_exec(&cur, p)
        invariant
            trim_start_matches(s@, p@) == trim_start_matches(cur@, p@),
        decreases cur@.len(),
    {
        let next = slice_of(&cur, p.len(), cur.len());
        assert(next@ =~= cur@.skip(p@.len() as int));
        cur = next;
    }
    cur
}

/// Index after the last character of `s[..j]` that differs from `c`.
pub open spec fn back_char(s: Text, c: char, j: int) -> int
    decreases j,
{
    if 0 < j <= s.len() && s[j - 1] == c {
        back_char(s, c, j - 1)
    } else {
        j
    }
}

/// Index of the first character of `s[i..]` that differs from `c`.
pub open spec fn skip_char(s: Text, c: char, i: int) -> int
    decreases s.len() - i,
{
    if 0 <= i < s.len() && s[i] == c {
        skip_char(s, c, i + 1)
    } else {
        i
    }
}

/// `str::trim_end_matches` with a character pattern.
pub open spec fn trim_end_char(s: Text, c: char) -> Text {
    s.take(back_char(s, c, s.len() as int))
}

/// `str::trim_start_matches` with a character pattern.
pub open spec fn trim_start_char(s: Text, c: char) -> Text {
    s.skip(skip_char(s, c, 0))
}

/// `str::trim_matches` with a character pattern.
pub open spec fn trim_char(s: Text, c: char) -> Text {
    trim_end_char(trim_start_char(s, c), c)
}

pub proof fn lemma_back_char(s: Text, c: char, j: int)
    requires
        0 <= j <= s.len(),
    ensures
        0 <= back_char(s, c, j) <= j,
    decreases j,
{
    if 0 < j && s[j - 1] == c {
        lemma_back_char(s, c, j - 1);
    }
}

pub proof fn lemma_skip_char(s: Text, c: char, i: int)
    requires
        0 <= i <= s.len(),
    ensures
        i <= skip_char(s, c, i) <= s.len(),
    decreases s.len() - i,
{
    if i < s.len() && s[i] == c {
        lemma_skip_char(s, c, i + 1);
    }
}

/// `str::trim_end_matches` with a character pattern.
pub fn trim_end_char_exec(s: &Vec<char>, c: char) -> (r: Vec<char>)
    ensures
        r@ == trim_end_char(s@, c),
{
    let mut j = s.len();
    while j > 0 && s[j - 1] == c
        invariant
            j <= s.len(),
            back_char(s@, c, s@.len() as int) == back_char(s@, c, j as int),
        decreases j,
    {
        j -= 1;
    }
    let r = slice_of(s, 0, j);
    assert(r@ =~= s@.take(j as int));
    r
}

/// `str::trim_start_matches` with a character pattern.
pub fn trim_start_char_exec(s: &Vec<char>, c: char) -> (r: Vec<char>)
    ensures
        r@ == trim_start_char(s@, c),
{
    let mut i: usize = 0;
    while i < s.len() && s[i] == c
        invariant
            i <= s.len(),
            skip_char(s@, c, 0) == skip_char(s@, c, i as int),
        decreases s.len() - i,
    {
        i += 1;
    }
    let r = slice_of(s, i, s.len());
    assert(r@ =~= s@.skip(i as int));
    r
}

/// `str::trim_matches` with a character pattern.
pub fn trim_char_exec(s: &Vec<char>, c: char) -> (r: Vec<char>)
    ensures
        r@ == trim_char(s@, c),
{
    let t = trim_start_char_exec(s, c);
    trim_end_char_exec(&t, c)
}

/// `str::strip_prefix`.
pub open spec fn strip_prefix(s: Text, p: Text) -> Option<Text> {
    if starts_with(s, p) {
        Some(s.skip(p.len() as int))
    } else {
        None
    }
}

/// `str::strip_prefix`.
pub fn strip_prefix_exec(s: &Vec<char>, p: &Vec<char>) -> (r: Option<Vec<char>>)
    ensures
        match r {
            Some(t) => strip_prefix(s@, p@) == Some(t@),
            None => strip_prefix(s@, p@) is None,
        },
{
    if crate::text::starts_with_exec(s, p) {
        let t = slice_of(s, p.len(), s.len());
        assert(t@ =~= s@.skip(p@.len() as int));
        Some(t)
    } else {
        None
    }
}

// ---------------------------------------------------------------------------
// Identifiers
// ---------------------------------------------------------------------------

/// What `char::is_alphanumeric` answers for `c`.
pub uninterp spec fn unicode_alphanumeric(c: char) -> bool;

/// ASCII letters and digits.
pub open spec fn ascii_alphanumeric(c: char) -> bool {
    ('a' <= c && c <= 'z') || ('A' <= c && c <= 'Z') || ('0' <= c && c <= '9')
}

/// Calls `char::is_alphanumeric`. The contract names the answer and states what
/// its documentation gives for ASCII: letters and digits, nothing else. For other
/// characters the Unicode tables decide, which the contract leaves unsaid.
#[verifier::external_body]
pub(crate) fn char_is_alphanumeric(c: char) -> (r: bool)
    ensures
        r == unicode_alphanumeric(c),
        (c as u32) < 128 ==> (r == ascii_alphanumeric(c)),
{
    c.is_alphanumeric()
}

/// Whether a character may stay in an identifier made from a label.
pub open spec fn id_char(c: char) -> bool {
    unicode_alphanumeric(c) || c == '_'
}

/// Keeps the identifier characters of `s` (alphanumerics and `_`).
pub open spec fn sanitize_id(s: Text) -> Text
    decreases s.len(),
{
    if s.len() == 0 {
        seq![]
    } else if id_char(s.last()) {
        sanitize_id(s.drop_last()).push(s.last())
    } else {
        sanitize_id(s.drop_last())
    }
}

/// Keeps the identifier characters of `s` (alphanumerics and `_`).
pub fn sanitize_id_exec(s: &Vec<char>) -> (r: Vec<char>)
    ensures
        r@ == sanitize_id(s@),
{
    let mut r: Vec<char> = Vec::new();
    let mut i: usize = 0;
    while i < s.len()
        invariant
            i <= s.len(),
            r@ == sanitize_id(s@.take(i as int)),
        decreases s.len() - i,
    {
        let c = s[i];
        assert(s@.take(i + 1).drop_last() =~= s@.take(i as int));
        if char_is_alphanumeric(c) || c == '_' {
            r.push(c);
        }
        i += 1;
    }
    assert(s@.take(s.len() as int) =~= s@);
    r
}

// ---------------------------------------------------------------------------
// Directions
// ---------------------------------------------------------------------------

/// Direction named by a token (`TD`, `TB`, `BT`, `LR`, `RL`), compared exactly.
pub open spec fn direction_exact(t: Text) -> Option<Direction> {
    if t == "TD"@ || t == "TB"@ {
        Some(Direction::TopDown)
    } else if t == "BT"@ {
        Some(Direction::BottomUp)
    } else if t == "LR"@ {
        Some(Direction::LeftToRight)
    } else if t == "RL"@ {
        Some(Direction::RightToLeft)
    } else {
        None
    }
}

fn eq_lit(t: &Vec<char>, s: &str) -> (r: bool)
    ensures
        r == (t@ == s@),
{
    let v = lit(s);
    chars_eq(t, &v)
}

/// Direction named by a token, compared exactly.
pub fn direction_exact_exec(t: &Vec<char>) -> (r: Option<Direction>)
    ensures
        r == direction_exact(t@),
{
    if eq_lit(t, "TD") || eq_lit(t, "TB") {
        Some(Direction::TopDown)
    } else if eq_lit(t, "BT") {
        Some(Direction::BottomUp)
    } else if eq_lit(t, "LR") {
        Some(Direction::LeftToRight)
    } else if eq_lit(t, "RL") {
        Some(Direction::RightToLeft)
    } else {
        None
    }
}

/// Direction named by a token in any ASCII case.
pub open spec fn direction_any_case(t: Text) -> Option<Direction> {
    direction_exact(uppercase(t))
}

/// Direction named by a token in any ASCII case.
pub fn direction_any_case_exec(t: &Vec<char>) -> (r: Option<Direction>)
    ensures
        r == direction_any_case(t@),
{
    let u = uppercase_exec(t);
    direction_exact_exec(&u)
}

/// `direction X` line, keyword and token in any ASCII case.
pub open spec fn direction_line_any_case(line: Text) -> Option<Direction> {
    let parts = words(line);
    if parts.len() == 2 && lowercase(parts[0]) == "direction"@ {
        direction_any_case(parts[1])
    } else {
        None
    }
}

/// `direction X` line, keyword and token in any ASCII case.
pub fn direction_line_any_case_exec(line: &Vec<char>) -> (r: Option<Direction>)
    ensures
        r == direction_line_any_case(line@),
{
    let parts = words_exec(line);
    proof {
        assert(parts@.len() == views(parts@).len());
    }
    if parts.len() == 2 {
        assert(parts@[0]@ == views(parts@)[0]);
        assert(parts@[1]@ == views(parts@)[1]);
        let l = lowercase_exec(&parts[0]);
        if eq_lit(&l, "direction") {
            return direction_any_case_exec(&parts[1]);
        }
    }
    None
}

// ---------------------------------------------------------------------------
// Labels after a colon
// ---------------------------------------------------------------------------

/// `B : label` to `(B, Some(label))`; an empty label gives `None`.
pub open spec fn split_label(s: Text) -> (Text, Option<Text>) {
    match split_once(s, seq![':']) {
        Some((l, r)) => if trim(r).len() > 0 {
            (trim(l), Some(trim(r)))
        } else {
            (trim(l), None)
        },
        None => (trim(s), None),
    }
}

/// `B : label` to `(B, Some(label))`; an empty label gives `None`.
pub fn split_label_exec(s: &Vec<char>) -> (r: (Vec<char>, Option<Vec<char>>))
    ensures
        r.0@ == split_label(s@).0,
        crate::model::opt_text(r.1) == split_label(s@).1,
{
    match split_once_char_exec(s, ':') {
        Some((l, r)) => {
            let label = trim_chars(&r);
            let target = trim_chars(&l);
            if label.len() > 0 {
                (target, Some(label))
            } else {
                (target, None)
            }
        },
        None => (trim_chars(s), None),
    }
}

} // verus!
