//! Parser for `classDiagram` sources: class declarations with labels and bodies,
//! members, stereotypes, relations with multiplicities and labels.

use vstd::prelude::*;
use crate::text::{
    trim, trim_start, trim_end, trim_chars, trim_start_chars, trim_end_chars, starts_with,
    ends_with, starts_with_exec, ends_with_exec, find, find_exec, find_char, find_char_exec, lit,
    slice_of, split_once, split_once_char_exec, split_char, split_char_exec, lines, lines_exec,
    words, words_exec, lowercase, lowercase_exec, join, join_exec, views, str_chars,
    chars_to_string, copy_chars, lemma_find_from_props, lemma_views_push,
};
use crate::syntax::{
    strip_quotes, strip_quotes_exec, wrapped_in, wrapped_in_exec, trim_start_matches,
    trim_start_matches_exec, trim_end_char, trim_end_char_exec, sanitize_id, sanitize_id_exec,
    direction_any_case, direction_any_case_exec, direction_line_any_case,
    direction_line_any_case_exec, split_label, split_label_exec,
};
use crate::diagram::{
    Text, AstV, EdgeV, NodeShape, EdgeArrowhead, EdgeDecoration, EdgeStyle, Direction,
    DiagramKind, AstOf, EdgeOf, DiagramAst,
};
use crate::model::{
    lookup, insert, push_under, tt_view, tl_view, tt_get, tt_insert, tl_get, tl_push, opt_text,
    ensure_node, plain_node, plain_node_exec, ensure_node_exec, empty_ast, empty_ast_exec,
    push_edge, unique_ids, lemma_ensure_node_unique,
};
use crate::error::CoreError;
use crate::convert::conv_ast;

verus! {

// ---------------------------------------------------------------------------
// Small classifiers
// ---------------------------------------------------------------------------

/// A stereotype entry such as `<<interface>>`.
pub open spec fn is_stereotype(e: Text) -> bool {
    let t = trim(e);
    starts_with(t, "<<"@) && ends_with(t, ">>"@) && t.len() > 4
}

pub(crate) fn is_stereotype_chars(e: &Vec<char>) -> (r: bool)
    ensures
        r == is_stereotype(e@),
{
    let t = trim_chars(e);
    let open = lit("<<");
    let close = lit(">>");
    starts_with_exec(&t, &open) && ends_with_exec(&t, &close) && t.len() > 4
}

/// Whether an entry is a stereotype such as `<<interface>>`.
pub fn is_class_stereotype(entry: &str) -> (r: bool)
    ensures
        r == is_stereotype(entry@),
{
    let e = str_chars(entry);
    is_stereotype_chars(&e)
}

/// Trims, then drops one pair of surrounding quotes.
pub fn strip_quotes_str(input: &str) -> (r: String)
    ensures
        r@ == strip_quotes(input@),
{
    let s = str_chars(input);
    let t = strip_quotes_exec(&s);
    chars_to_string(&t)
}

/// `+foo() String` becomes `+foo() : String`; a signature that already has a
/// `:` after the parameters, or nothing after them, stays as it is (trimmed).
pub open spec fn normalize_method(e: Text) -> Text {
    let t = trim(e);
    match find_char(t, ')') {
        None => t,
        Some(c) => {
            let sig = t.take(c + 1);
            let rest = trim(t.skip(c + 1));
            if rest.len() == 0 {
                t
            } else if starts_with(rest, ":"@) {
                sig + " "@ + rest
            } else if find(t, "):"@) is Some || find(t, ") :"@) is Some {
                t
            } else {
                sig + " : "@ + rest
            }
        },
    }
}

pub(crate) fn normalize_method_chars(e: &Vec<char>) -> (r: Vec<char>)
    ensures
        r@ == normalize_method(e@),
{
    let t = trim_chars(e);
    match find_char_exec(&t, ')') {
        None => t,
        Some(c) => {
            proof {
                lemma_find_from_props(t@, seq![')'], 0);
            }
            let tl = t.len();
            assert(c < tl);
            let mut sig = slice_of(&t, 0, c + 1);
            let tail = slice_of(&t, c + 1, t.len());
            let rest = trim_chars(&tail);
            assert(sig@ =~= t@.take(c + 1));
            assert(tail@ =~= t@.skip(c + 1));
            let colon = lit(":");
            let p1 = lit("):");
            let p2 = lit(") :");
            if rest.len() == 0 {
                t
            } else if starts_with_exec(&rest, &colon) {
                let sp = lit(" ");
                crate::text::append_chars(&mut sig, &sp);
                crate::text::append_chars(&mut sig, &rest);
                sig
            } else if find_exec(&t, &p1).is_some() || find_exec(&t, &p2).is_some() {
                t
            } else {
                let sep = lit(" : ");
                crate::text::append_chars(&mut sig, &sep);
                crate::text::append_chars(&mut sig, &rest);
                sig
            }
        },
    }
}

/// `+foo() String` becomes `+foo() : String`.
pub fn normalize_method_signature(entry: &str) -> (r: String)
    ensures
        r@ == normalize_method(entry@),
{
    let e = str_chars(entry);
    let r = normalize_method_chars(&e);
    chars_to_string(&r)
}

// ---------------------------------------------------------------------------
// Class bodies
// ---------------------------------------------------------------------------

/// Trimmed non-blank lines.
pub open spec fn nonblank_trimmed(ls: Seq<Text>) -> Seq<Text>
    decreases ls.len(),
{
    if ls.len() == 0 {
        seq![]
    } else if trim(ls.last()).len() > 0 {
        nonblank_trimmed(ls.drop_last()).push(trim(ls.last()))
    } else {
        nonblank_trimmed(ls.drop_last())
    }
}

/// Entries of one `;`-separated part of a body.
pub open spec fn part_entries(p: Text) -> Seq<Text> {
    let t = trim(p);
    if t.len() == 0 {
        seq![]
    } else {
        nonblank_trimmed(lines(t))
    }
}

/// Entries of a list of parts.
pub open spec fn parts_entries(ps: Seq<Text>) -> Seq<Text>
    decreases ps.len(),
{
    if ps.len() == 0 {
        seq![]
    } else {
        parts_entries(ps.drop_last()) + part_entries(ps.last())
    }
}

/// Entries of an inline class body: split at `;` and at line ends, trimmed, blanks dropped.
pub open spec fn body_entries(body: Text) -> Seq<Text> {
    parts_entries(split_char(body, ';'))
}

fn nonblank_trimmed_exec(ls: &Vec<Vec<char>>) -> (r: Vec<Vec<char>>)
    ensures
        views(r@) == nonblank_trimmed(views(ls@)),
{
    let mut r: Vec<Vec<char>> = Vec::new();
    let mut i: usize = 0;
    while i < ls.len()
        invariant
            i <= ls.len(),
            views(r@) == nonblank_trimmed(views(ls@).take(i as int)),
        decreases ls.len() - i,
    {
        let t = trim_chars(&ls[i]);
        assert(views(ls@).take(i + 1).drop_last() =~= views(ls@).take(i as int));
        assert(views(ls@).take(i + 1).last() == ls@[i as int]@);
        if t.len() > 0 {
            proof {
                lemma_views_push(r@, t);
            }
            r.push(t);
        }
        i += 1;
    }
    assert(views(ls@).take(ls.len() as int) =~= views(ls@));
    r
}

pub(crate) fn body_entries_exec(body: &Vec<char>) -> (r: Vec<Vec<char>>)
    ensures
        views(r@) == body_entries(body@),
{
    let ps = split_char_exec(body, ';');
    let mut r: Vec<Vec<char>> = Vec::new();
    let mut i: usize = 0;
    while i < ps.len()
        invariant
            i <= ps.len(),
            views(r@) == parts_entries(views(ps@).take(i as int)),
        decreases ps.len() - i,
    {
        let t = trim_chars(&ps[i]);
        assert(views(ps@).take(i + 1).drop_last() =~= views(ps@).take(i as int));
        assert(views(ps@).take(i + 1).last() == ps@[i as int]@);
        if t.len() > 0 {
            let ls = lines_exec(&t);
            let es = nonblank_trimmed_exec(&ls);
            let ghost before = views(r@);
            let mut k: usize = 0;
            while k < es.len()
                invariant
                    k <= es.len(),
                    views(r@) == before + views(es@).take(k as int),
                decreases es.len() - k,
            {
                let c = copy_chars(&es[k]);
                proof {
                    lemma_views_push(r@, c);
                    assert(views(es@).take(k + 1) =~= views(es@).take(k as int).push(c@));
                }
                r.push(c);
                k += 1;
                assert(views(r@) =~= before + views(es@).take(k as int));
            }
            assert(views(es@).take(es.len() as int) =~= views(es@));
        } else {
            assert(part_entries(ps@[i as int]@) =~= Seq::<Text>::empty());
            assert(views(r@) =~= views(r@) + Seq::<Text>::empty());
        }
        i += 1;
    }
    assert(views(ps@).take(ps.len() as int) =~= views(ps@));
    r
}

/// Splits an inline class body into entries.
pub fn split_class_body(body: &str) -> (r: Vec<String>)
    ensures
        crate::text::string_views(r@) == body_entries(body@),
{
    let b = str_chars(body);
    let es = body_entries_exec(&b);
    let mut r: Vec<String> = Vec::new();
    let mut i: usize = 0;
    while i < es.len()
        invariant
            i <= es.len(),
            r@.len() == i,
            forall|k: int| #![trigger r@[k]] 0 <= k < i ==> r@[k]@ == es@[k]@,
        decreases es.len() - i,
    {
        r.push(chars_to_string(&es[i]));
        i += 1;
    }
    assert(crate::text::string_views(r@) =~= views(es@));
    r
}

// ---------------------------------------------------------------------------
// Class declarations
// ---------------------------------------------------------------------------

/// Header, inline body and openness of a declaration with a `{`.
pub open spec fn decl_parts(rest0: Text) -> (Text, Option<Text>, bool) {
    match find_char(rest0, '{') {
        Some(o) => {
            let header = trim(rest0.take(o));
            let tail = trim(rest0.skip(o + 1));
            match find_char(tail, '}') {
                Some(c) => {
                    let b = trim(tail.take(c));
                    (header, if b.len() > 0 { Some(b) } else { None }, false)
                },
                None => (header, None, true),
            }
        },
        None => (rest0, None, false),
    }
}

/// A class declaration: `Animal`, `Animal["Label"]`, `"Label" as Animal`,
/// `"Label"`, each optionally followed by an inline or opened `{` body.
/// Gives (id, label, inline body, body left open); `None` for empty text.
pub open spec fn class_decl(input: Text) -> Option<(Text, Option<Text>, Option<Text>, bool)> {
    let rest0 = trim(input);
    if rest0.len() == 0 {
        None
    } else {
        let (rest, body, open) = decl_parts(rest0);
        let lower = lowercase(rest);
        let as_form = match find(lower, " as "@) {
            Some(a) => if trim(rest.skip(a + 4)).len() > 0 {
                Some((trim(rest.skip(a + 4)), Some(strip_quotes(trim(rest.take(a)))), body, open))
            } else {
                None
            },
            None => None,
        };
        if as_form is Some {
            as_form
        } else if wrapped_in(trim(rest), '"') {
            let label = strip_quotes(trim(rest));
            Some((sanitize_id(label), Some(label), body, open))
        } else {
            let bracket = match find_char(rest, '[') {
                Some(b) => if trim(rest.take(b)).len() > 0 {
                    Some((trim(rest.take(b)), Some(strip_quotes(trim(trim_end_char(rest.skip(b + 1), ']')))), body, open))
                } else {
                    None
                },
                None => None,
            };
            if bracket is Some {
                bracket
            } else {
                Some((strip_quotes(rest), None, body, open))
            }
        }
    }
}

fn decl_parts_exec(rest0: &Vec<char>) -> (r: (Vec<char>, Option<Vec<char>>, bool))
    ensures
        (r.0@, opt_text(r.1), r.2) == decl_parts(rest0@),
{
    match find_char_exec(rest0, '{') {
        Some(o) => {
            proof {
                lemma_find_from_props(rest0@, seq!['{'], 0);
            }
            let h0 = slice_of(rest0, 0, o);
            let t0 = slice_of(rest0, o + 1, rest0.len());
            assert(h0@ =~= rest0@.take(o as int));
            assert(t0@ =~= rest0@.skip(o + 1));
            let header = trim_chars(&h0);
            let tail = trim_chars(&t0);
            match find_char_exec(&tail, '}') {
                Some(c) => {
                    proof {
                        lemma_find_from_props(tail@, seq!['}'], 0);
                    }
                    let b0 = slice_of(&tail, 0, c);
                    assert(b0@ =~= tail@.take(c as int));
                    let b = trim_chars(&b0);
                    if b.len() > 0 {
                        (header, Some(b), false)
                    } else {
                        (header, None, false)
                    }
                },
                None => (header, None, true),
            }
        },
        None => (copy_chars(rest0), None, false),
    }
}

/// Executable form of `class_decl`.
pub fn class_decl_exec(input: &Vec<char>) -> (r: Option<(Vec<char>, Option<Vec<char>>, Option<Vec<char>>, bool)>)
    ensures
        match r {
            Some((id, l, b, o)) => class_decl(input@) == Some((id@, opt_text(l), opt_text(b), o)),
            None => class_decl(input@) is None,
        },
{
    let rest0 = trim_chars(input);
    if rest0.len() == 0 {
        return None;
    }
    let (rest, body, open) = decl_parts_exec(&rest0);
    let lower = lowercase_exec(&rest);
    let as_pat = lit(" as ");
    match find_exec(&lower, &as_pat) {
        Some(a) => {
            proof {
                lemma_find_from_props(lower@, as_pat@, 0);
                reveal_strlit(" as ");
            }
            let id0 = slice_of(&rest, a + 4, rest.len());
            assert(id0@ =~= rest@.skip(a + 4));
            let id_part = trim_chars(&id0);
            if id_part.len() > 0 {
                let l0 = slice_of(&rest, 0, a);
                assert(l0@ =~= rest@.take(a as int));
                let label_part = trim_chars(&l0);
                let label = strip_quotes_exec(&label_part);
                return Some((id_part, Some(label), body, open));
            }
        },
        None => {},
    }
    let tr = trim_chars(&rest);
    if wrapped_in_exec(&tr, '"') {
        let label = strip_quotes_exec(&tr);
        let id = sanitize_id_exec(&label);
        return Some((id, Some(label), body, open));
    }
    match find_char_exec(&rest, '[') {
        Some(b) => {
            proof {
                lemma_find_from_props(rest@, seq!['['], 0);
            }
            let i0 = slice_of(&rest, 0, b);
            assert(i0@ =~= rest@.take(b as int));
            let id_part = trim_chars(&i0);
            if id_part.len() > 0 {
                let l0 = slice_of(&rest, b + 1, rest.len());
                assert(l0@ =~= rest@.skip(b + 1));
                let l1 = trim_end_char_exec(&l0, ']');
                let l2 = trim_chars(&l1);
                let label = strip_quotes_exec(&l2);
                return Some((id_part, Some(label), body, open));
            }
        },
        None => {},
    }
    Some((strip_quotes_exec(&rest), None, body, open))
}

fn opt_string(o: &Option<Vec<char>>) -> (r: Option<String>)
    ensures
        crate::diagram::opt_view(r) == opt_text(*o),
{
    match o {
        Some(t) => Some(chars_to_string(t)),
        None => None,
    }
}

/// Parses a class declaration (the text after `class `):
/// (id, label, inline body, body left open).
pub fn parse_class_declaration(input: &str) -> (r: Option<(String, Option<String>, Option<String>, bool)>)
    ensures
        match r {
            Some((id, l, b, o)) => class_decl(input@) == Some((id@, crate::diagram::opt_view(l), crate::diagram::opt_view(b), o)),
            None => class_decl(input@) is None,
        },
{
    let s = str_chars(input);
    match class_decl_exec(&s) {
        Some((id, l, b, o)) => Some((chars_to_string(&id), opt_string(&l), opt_string(&b), o)),
        None => None,
    }
}

// ---------------------------------------------------------------------------
// Relations
// ---------------------------------------------------------------------------

/// Relation tokens, longest first.
pub open spec fn relation_tokens() -> Seq<Text> {
    seq![
        "<|.."@, "..|>"@, "<|--"@, "--|>"@, "*--"@, "--*"@, "o--"@, "--o"@, "<.."@, "..>"@,
        "<--"@, "-->"@, ".."@, "--"@,
    ]
}

pub(crate) fn relation_tokens_exec() -> (r: Vec<Vec<char>>)
    ensures
        views(r@) == relation_tokens(),
{
    let mut r: Vec<Vec<char>> = Vec::new();
    r.push(lit("<|.."));
    r.push(lit("..|>"));
    r.push(lit("<|--"));
    r.push(lit("--|>"));
    r.push(lit("*--"));
    r.push(lit("--*"));
    r.push(lit("o--"));
    r.push(lit("--o"));
    r.push(lit("<.."));
    r.push(lit("..>"));
    r.push(lit("<--"));
    r.push(lit("-->"));
    r.push(lit(".."));
    r.push(lit("--"));
    assert(views(r@) =~= relation_tokens());
    r
}

/// Arrow and line properties of a relation token.
#[derive(Debug, Clone, Copy)]
pub struct RelationMeta {
    pub directed: bool,
    pub arrow_start: Option<EdgeArrowhead>,
    pub arrow_end: Option<EdgeArrowhead>,
    pub start_decoration: Option<EdgeDecoration>,
    pub end_decoration: Option<EdgeDecoration>,
    pub style: EdgeStyle,
}

/// Properties of a relation token: `*` ends carry a filled diamond, `o` ends a
/// hollow-diamond decoration, `<`/`>` ends an arrow (an open triangle with `|`),
/// `..` makes the line dotted.
pub open spec fn edge_meta(token: Text) -> RelationMeta {
    let lt = find_char(token, '<') is Some;
    let gt = find_char(token, '>') is Some;
    let pipe_start = starts_with(token, "<|"@);
    let pipe_end = find(token, "|>"@) is Some;
    let star_start = token.len() > 0 && token[0] == '*';
    let star_end = token.len() > 0 && token.last() == '*';
    let o_start = token.len() > 0 && token[0] == 'o';
    let o_end = token.len() > 0 && token.last() == 'o';
    RelationMeta {
        directed: lt || gt,
        arrow_start: if star_start {
            Some(EdgeArrowhead::Diamond)
        } else if lt {
            if pipe_start { Some(EdgeArrowhead::OpenTriangle) } else { Some(EdgeArrowhead::Arrow) }
        } else {
            None
        },
        arrow_end: if star_end {
            Some(EdgeArrowhead::Diamond)
        } else if gt {
            if pipe_end { Some(EdgeArrowhead::OpenTriangle) } else { Some(EdgeArrowhead::Arrow) }
        } else {
            None
        },
        start_decoration: if o_start { Some(EdgeDecoration::Circle) } else { None },
        end_decoration: if o_end { Some(EdgeDecoration::Circle) } else { None },
        style: if find(token, ".."@) is Some { EdgeStyle::Dotted } else { EdgeStyle::Solid },
    }
}

pub(crate) fn edge_meta_chars(token: &Vec<char>) -> (r: RelationMeta)
    ensures
        r == edge_meta(token@),
{
    let lt = find_char_exec(token, '<').is_some();
    let gt = find_char_exec(token, '>').is_some();
    let ps = lit("<|");
    let pe = lit("|>");
    let dots = lit("..");
    let pipe_start = starts_with_exec(token, &ps);
    let pipe_end = find_exec(token, &pe).is_some();
    let n = token.len();
    let star_start = n > 0 && token[0] == '*';
    let star_end = n > 0 && token[n - 1] == '*';
    let o_start = n > 0 && token[0] == 'o';
    let o_end = n > 0 && token[n - 1] == 'o';
    RelationMeta {
        directed: lt || gt,
        arrow_start: if star_start {
            Some(EdgeArrowhead::Diamond)
        } else if lt {
            if pipe_start { Some(EdgeArrowhead::OpenTriangle) } else { Some(EdgeArrowhead::Arrow) }
        } else {
            None
        },
        arrow_end: if star_end {
            Some(EdgeArrowhead::Diamond)
        } else if gt {
            if pipe_end { Some(EdgeArrowhead::OpenTriangle) } else { Some(EdgeArrowhead::Arrow) }
        } else {
            None
        },
        start_decoration: if o_start { Some(EdgeDecoration::Circle) } else { None },
        end_decoration: if o_end { Some(EdgeDecoration::Circle) } else { None },
        style: if find_exec(token, &dots).is_some() { EdgeStyle::Dotted } else { EdgeStyle::Solid },
    }
}

/// Properties of a relation token.
pub fn edge_meta_from_token(token: &str) -> (r: RelationMeta)
    ensures
        r == edge_meta(token@),
{
    let t = str_chars(token);
    edge_meta_chars(&t)
}

/// First token (from index `i` on) that occurs in `line` with text on both sides:
/// (token index, position of its first occurrence).
pub open spec fn relation_match(line: Text, i: int) -> Option<(int, int)>
    decreases 14 - i,
{
    if i < 0 || i >= 14 {
        None
    } else {
        let tok = relation_tokens()[i];
        match find(line, tok) {
            Some(pos) => if trim(line.take(pos)).len() == 0 || trim(line.skip(pos + tok.len())).len() == 0 {
                relation_match(line, i + 1)
            } else {
                Some((i, pos))
            },
            None => relation_match(line, i + 1),
        }
    }
}

/// Position of the last `q` in `t[..j]`.
pub open spec fn last_index_before(t: Text, q: char, j: int) -> Option<int>
    decreases j,
{
    if j <= 0 || j > t.len() {
        None
    } else if t[j - 1] == q {
        Some(j - 1)
    } else {
        last_index_before(t, q, j - 1)
    }
}

/// Position of the first `q` in `t[i..]`.
pub open spec fn index_from(t: Text, q: char, i: int) -> Option<int>
    decreases t.len() - i,
{
    if i < 0 || i >= t.len() {
        None
    } else if t[i] == q {
        Some(i)
    } else {
        index_from(t, q, i + 1)
    }
}

pub proof fn lemma_last_index_before(t: Text, q: char, j: int)
    requires
        0 <= j <= t.len(),
    ensures
        last_index_before(t, q, j) matches Some(k) ==> 0 <= k < j,
    decreases j,
{
    if j > 0 && t[j - 1] != q {
        lemma_last_index_before(t, q, j - 1);
    }
}

pub proof fn lemma_index_from(t: Text, q: char, i: int)
    requires
        0 <= i,
    ensures
        index_from(t, q, i) matches Some(k) ==> i <= k < t.len(),
    decreases t.len() - i,
{
    if i < t.len() && t[i] != q {
        lemma_index_from(t, q, i + 1);
    }
}

/// A trailing quoted value: `X "v"` gives (`X `, `v`).
pub open spec fn split_trailing_quoted(input: Text) -> Option<(Text, Text)> {
    let t = trim_end(input);
    if t.len() == 0 || (t.last() != '"' && t.last() != '\'') {
        None
    } else {
        match last_index_before(t, t.last(), t.len() - 1) {
            Some(k) => Some((t.take(k), t.subrange(k + 1, t.len() - 1))),
            None => None,
        }
    }
}

/// A leading quoted value: `"v" X` gives (`v`, ` X`).
pub open spec fn split_leading_quoted(input: Text) -> Option<(Text, Text)> {
    let t = trim_start(input);
    if t.len() == 0 || (t[0] != '"' && t[0] != '\'') {
        None
    } else {
        match index_from(t, t[0], 1) {
            Some(k) => Some((t.subrange(1, k), t.skip(k + 1))),
            None => None,
        }
    }
}

/// `"1" Animal`-style left side: (class token, multiplicity).
pub open spec fn mult_left(input: Text) -> (Text, Option<Text>) {
    let t = trim(input);
    if t.len() == 0 {
        (seq![], None)
    } else {
        match split_trailing_quoted(t) {
            Some((before, value)) => if trim(before).len() > 0 && value.len() > 0 {
                (trim(before), Some(value))
            } else {
                (t, None)
            },
            None => (t, None),
        }
    }
}

/// `Animal "many"`-style right side: (class token, multiplicity).
pub open spec fn mult_right(input: Text) -> (Text, Option<Text>) {
    let t = trim(input);
    if t.len() == 0 {
        (seq![], None)
    } else {
        match split_leading_quoted(t) {
            Some((value, rest)) => if trim(rest).len() > 0 && value.len() > 0 {
                (trim(rest), Some(value))
            } else {
                (t, None)
            },
            None => (t, None),
        }
    }
}

/// A class token: a quoted token becomes an id from its label.
pub open spec fn normalize_class_id(token: Text) -> (Text, Option<Text>) {
    let t = trim(token);
    if wrapped_in(t, '"') {
        (sanitize_id(strip_quotes(t)), Some(strip_quotes(t)))
    } else {
        (t, None)
    }
}

fn split_trailing_quoted_exec(input: &Vec<char>) -> (r: Option<(Vec<char>, Vec<char>)>)
    ensures
        match r {
            Some((a, b)) => split_trailing_quoted(input@) == Some((a@, b@)),
            None => split_trailing_quoted(input@) is None,
        },
{
    let t = trim_end_chars(input);
    let n = t.len();
    if n == 0 || (t[n - 1] != '"' && t[n - 1] != '\'') {
        return None;
    }
    let q = t[n - 1];
    let mut j: usize = n - 1;
    while j > 0 && t[j - 1] != q
        invariant
            j <= n - 1,
            n == t@.len(),
            last_index_before(t@, q, (n - 1) as int) == last_index_before(t@, q, j as int),
        decreases j,
    {
        j -= 1;
    }
    if j == 0 {
        return None;
    }
    let k = j - 1;
    let a = slice_of(&t, 0, k);
    let b = slice_of(&t, k + 1, n - 1);
    assert(a@ =~= t@.take(k as int));
    Some((a, b))
}

fn split_leading_quoted_exec(input: &Vec<char>) -> (r: Option<(Vec<char>, Vec<char>)>)
    ensures
        match r {
            Some((a, b)) => split_leading_quoted(input@) == Some((a@, b@)),
            None => split_leading_quoted(input@) is None,
        },
{
    let t = trim_start_chars(input);
    let n = t.len();
    if n == 0 || (t[0] != '"' && t[0] != '\'') {
        return None;
    }
    let q = t[0];
    let mut k: usize = 1;
    while k < n && t[k] != q
        invariant
            1 <= k <= n,
            n == t@.len(),
            index_from(t@, q, 1) == index_from(t@, q, k as int),
        decreases n - k,
    {
        k += 1;
    }
    if k >= n {
        return None;
    }
    let a = slice_of(&t, 1, k);
    let b = slice_of(&t, k + 1, n);
    assert(b@ =~= t@.skip(k + 1));
    Some((a, b))
}

pub(crate) fn mult_left_exec(input: &Vec<char>) -> (r: (Vec<char>, Option<Vec<char>>))
    ensures
        (r.0@, opt_text(r.1)) == mult_left(input@),
{
    let t = trim_chars(input);
    if t.len() == 0 {
        return (Vec::new(), None);
    }
    match split_trailing_quoted_exec(&t) {
        Some((before, value)) => {
            let b = trim_chars(&before);
            if b.len() > 0 && value.len() > 0 {
                (b, Some(value))
            } else {
                (t, None)
            }
        },
        None => (t, None),
    }
}

pub(crate) fn mult_right_exec(input: &Vec<char>) -> (r: (Vec<char>, Option<Vec<char>>))
    ensures
        (r.0@, opt_text(r.1)) == mult_right(input@),
{
    let t = trim_chars(input);
    if t.len() == 0 {
        return (Vec::new(), None);
    }
    match split_leading_quoted_exec(&t) {
        Some((value, rest)) => {
            let b = trim_chars(&rest);
            if b.len() > 0 && value.len() > 0 {
                (b, Some(value))
            } else {
                (t, None)
            }
        },
        None => (t, None),
    }
}

pub(crate) fn normalize_class_id_exec(token: &Vec<char>) -> (r: (Vec<char>, Option<Vec<char>>))
    ensures
        (r.0@, opt_text(r.1)) == normalize_class_id(token@),
{
    let t = trim_chars(token);
    if wrapped_in_exec(&t, '"') {
        let label = strip_quotes_exec(&t);
        (sanitize_id_exec(&label), Some(label))
    } else {
        (t, None)
    }
}

// ---------------------------------------------------------------------------
// Parser state
// ---------------------------------------------------------------------------

/// Abstract state of the class parser between lines.
pub struct ClassSt {
    pub ast: AstV,
    pub members: Seq<(Text, Seq<Text>)>,
    pub stereos: Seq<(Text, Seq<Text>)>,
    pub labels: Seq<(Text, Text)>,
    pub current: Option<Text>,
}

/// The class node for `id`, labelled by its recorded label or its id.
pub open spec fn ensure_class(a: AstV, id: Text, label: Option<Text>) -> AstV {
    ensure_node(a, plain_node(id, match label { Some(l) => l, None => id }, NodeShape::Rectangle))
}

/// Records a body entry under a class, as a stereotype or as a member.
pub open spec fn classify(st: ClassSt, id: Text, entry: Text) -> ClassSt {
    if is_stereotype(entry) {
        ClassSt { stereos: push_under(st.stereos, id, entry), ..st }
    } else {
        ClassSt { members: push_under(st.members, id, entry), ..st }
    }
}

/// Records several body entries.
pub open spec fn classify_all(st: ClassSt, id: Text, es: Seq<Text>) -> ClassSt
    decreases es.len(),
{
    if es.len() == 0 {
        st
    } else {
        classify(classify_all(st, id, es.drop_last()), id, es.last())
    }
}

/// The state after a relation line, if `line` is one.
pub open spec fn class_relation(st: ClassSt, line: Text) -> Option<ClassSt> {
    match relation_match(line, 0) {
        None => None,
        Some((i, pos)) => {
            let tok = relation_tokens()[i];
            let left_part = trim(line.take(pos));
            let (right_part, label) = split_label(trim(line.skip(pos + tok.len())));
            let (left0, start_label) = mult_left(left_part);
            let (right0, end_label) = mult_right(right_part);
            let (left_id, left_label) = normalize_class_id(left0);
            let (right_id, right_label) = normalize_class_id(right0);
            let labels1 = match left_label { Some(l) => insert(st.labels, left_id, l), None => st.labels };
            let labels2 = match right_label { Some(l) => insert(labels1, right_id, l), None => labels1 };
            let a1 = ensure_class(st.ast, left_id, lookup(labels2, left_id));
            let a2 = ensure_class(a1, right_id, lookup(labels2, right_id));
            let m = edge_meta(tok);
            let e = EdgeV {
                from: left_id,
                to: right_id,
                label,
                start_label,
                end_label,
                directed: m.directed,
                arrow_start: m.arrow_start,
                arrow_end: m.arrow_end,
                start_decoration: m.start_decoration,
                end_decoration: m.end_decoration,
                style: m.style,
            };
            Some(ClassSt { ast: AstV { edges: a2.edges.push(e), ..a2 }, labels: labels2, ..st })
        },
    }
}

/// `ClassName : member` line.
pub open spec fn member_line(line: Text) -> Option<(Text, Text)> {
    match split_once(line, seq![':']) {
        Some((l, r)) => if trim(l).len() == 0 || trim(r).len() == 0 || find_char(trim(l), ' ') is Some {
            None
        } else {
            Some((trim(l), trim(r)))
        },
        None => None,
    }
}

/// The state after a declaration line.
pub open spec fn class_declared(st: ClassSt, d: (Text, Option<Text>, Option<Text>, bool)) -> ClassSt {
    let (id, label, body, open) = d;
    let labels1 = match label { Some(l) => insert(st.labels, id, l), None => st.labels };
    let st1 = ClassSt { ast: ensure_class(st.ast, id, lookup(labels1, id)), labels: labels1, ..st };
    let st2 = match body { Some(b) => classify_all(st1, id, body_entries(b)), None => st1 };
    if open { ClassSt { current: Some(id), ..st2 } } else { st2 }
}

/// One line of a class diagram.
#[verifier::opaque]
pub open spec fn class_step(st: ClassSt, raw: Text) -> ClassSt {
    let line = trim(raw);
    if line.len() == 0 || starts_with(line, "%%"@) {
        st
    } else if starts_with(lowercase(line), "classdiagram"@) {
        let parts = words(line);
        if parts.len() > 1 {
            match direction_any_case(parts[1]) {
                Some(d) => ClassSt { ast: AstV { direction: d, ..st.ast }, ..st },
                None => st,
            }
        } else {
            st
        }
    } else if direction_line_any_case(line) is Some {
        ClassSt { ast: AstV { direction: direction_line_any_case(line)->0, ..st.ast }, ..st }
    } else if st.current is Some {
        let active = st.current->0;
        match find_char(line, '}') {
            Some(e) => {
                let frag = trim(line.take(e));
                let st2 = if frag.len() > 0 { classify(st, active, frag) } else { st };
                ClassSt { current: None, ..st2 }
            },
            None => if is_stereotype(line) {
                ClassSt { stereos: push_under(st.stereos, active, line), ..st }
            } else {
                ClassSt { members: push_under(st.members, active, line), ..st }
            },
        }
    } else if class_relation(st, line) is Some {
        class_relation(st, line)->0
    } else {
        let decl = if starts_with(line, "class "@) {
            class_decl(trim(trim_start_matches(line, "class "@)))
        } else {
            None
        };
        match decl {
            Some(d) => class_declared(st, d),
            None => match member_line(line) {
                Some((id, member)) => classify(st, id, member),
                None => st,
            },
        }
    }
}

/// State after the first `n` lines.
pub open spec fn class_run(ls: Seq<Text>, n: int) -> ClassSt
    decreases n,
{
    if n <= 0 {
        ClassSt {
            ast: empty_ast(DiagramKind::Class),
            members: seq![],
            stereos: seq![],
            labels: seq![],
            current: None,
        }
    } else {
        class_step(class_run(ls, n - 1), ls[n - 1])
    }
}

/// A member entry with a parameter list.
pub open spec fn is_method(t: Text) -> bool {
    find_char(t, '(') is Some && find_char(t, ')') is Some
}

/// Attribute entries (trimmed) of a member list.
pub open spec fn attrs_of(items: Seq<Text>) -> Seq<Text>
    decreases items.len(),
{
    if items.len() == 0 {
        seq![]
    } else if is_method(trim(items.last())) {
        attrs_of(items.drop_last())
    } else {
        attrs_of(items.drop_last()).push(trim(items.last()))
    }
}

/// Method entries (normalized) of a member list.
pub open spec fn methods_of(items: Seq<Text>) -> Seq<Text>
    decreases items.len(),
{
    if items.len() == 0 {
        seq![]
    } else if is_method(trim(items.last())) {
        methods_of(items.drop_last()).push(normalize_method(trim(items.last())))
    } else {
        methods_of(items.drop_last())
    }
}

/// Lines of a class box: stereotypes, name, then `---` and attributes, `---` and methods.
pub open spec fn class_label_lines(st: ClassSt, id: Text, label: Text) -> Seq<Text> {
    let name = match lookup(st.labels, id) { Some(l) => l, None => label };
    let base = (match lookup(st.stereos, id) { Some(s) => s, None => seq![] }).push(name);
    match lookup(st.members, id) {
        Some(items) => if items.len() > 0 {
            let a = attrs_of(items);
            let m = methods_of(items);
            if a.len() > 0 || m.len() > 0 {
                base.push("---"@) + if a.len() > 0 {
                    a + if m.len() > 0 { seq!["---"@] + m } else { seq![] }
                } else {
                    m
                }
            } else {
                base
            }
        } else {
            base
        },
        None => base,
    }
}

/// The final model: every node's label rebuilt from the collected class data.
pub open spec fn class_finish(st: ClassSt) -> AstV {
    AstV {
        nodes: st.ast.nodes.map_values(|n: crate::diagram::NodeV|
            crate::diagram::NodeV { label: join(class_label_lines(st, n.id, n.label), "\n"@), ..n }),
        ..st.ast
    }
}

/// The model a class diagram source describes.
pub open spec fn class_model(s: Seq<char>) -> AstV {
    class_finish(class_run(lines(s), lines(s).len() as int))
}


// ---------------------------------------------------------------------------
// Distinct classes
// ---------------------------------------------------------------------------

proof fn lemma_classify_all_ast(st: ClassSt, id: Text, es: Seq<Text>)
    ensures
        classify_all(st, id, es).ast == st.ast,
    decreases es.len(),
{
    if es.len() > 0 {
        lemma_classify_all_ast(st, id, es.drop_last());
    }
}

proof fn lemma_class_step_unique(st: ClassSt, raw: Text)
    requires
        unique_ids(st.ast.nodes),
    ensures
        unique_ids(class_step(st, raw).ast.nodes),
        class_step(st, raw).ast.kind == st.ast.kind,
{
    reveal(class_step);
    let line = trim(raw);
    if line.len() == 0 || starts_with(line, "%%"@) || starts_with(lowercase(line), "classdiagram"@) {
    } else if direction_line_any_case(line) is Some {
    } else if st.current is Some {
    } else if class_relation(st, line) is Some {
        let (i, pos) = relation_match(line, 0)->0;
        let tok = relation_tokens()[i];
        let left_part = trim(line.take(pos));
        let (right_part, label) = split_label(trim(line.skip(pos + tok.len())));
        let (left0, start_label) = mult_left(left_part);
        let (right0, end_label) = mult_right(right_part);
        let (left_id, left_label) = normalize_class_id(left0);
        let (right_id, right_label) = normalize_class_id(right0);
        let labels1 = match left_label { Some(l) => insert(st.labels, left_id, l), None => st.labels };
        let labels2 = match right_label { Some(l) => insert(labels1, right_id, l), None => labels1 };
        let l1 = lookup(labels2, left_id);
        let l2 = lookup(labels2, right_id);
        lemma_ensure_node_unique(st.ast, plain_node(left_id, match l1 { Some(l) => l, None => left_id }, NodeShape::Rectangle));
        let a1 = ensure_class(st.ast, left_id, l1);
        lemma_ensure_node_unique(a1, plain_node(right_id, match l2 { Some(l) => l, None => right_id }, NodeShape::Rectangle));
    } else {
        let decl = if starts_with(line, "class "@) {
            class_decl(trim(trim_start_matches(line, "class "@)))
        } else {
            None
        };
        match decl {
            Some(d) => {
                let (id, label, body, open) = d;
                let labels1 = match label { Some(l) => insert(st.labels, id, l), None => st.labels };
                let l1 = lookup(labels1, id);
                lemma_ensure_node_unique(st.ast, plain_node(id, match l1 { Some(l) => l, None => id }, NodeShape::Rectangle));
                let st1 = ClassSt { ast: ensure_class(st.ast, id, l1), labels: labels1, ..st };
                match body {
                    Some(b) => lemma_classify_all_ast(st1, id, body_entries(b)),
                    None => {},
                }
            },
            None => {},
        }
    }
}

proof fn lemma_class_run_unique(ls: Seq<Text>, n: int)
    ensures
        unique_ids(class_run(ls, n).ast.nodes),
        class_run(ls, n).ast.kind == DiagramKind::Class,
    decreases n,
{
    if n > 0 {
        lemma_class_run_unique(ls, n - 1);
        lemma_class_step_unique(class_run(ls, n - 1), ls[n - 1]);
    }
}

/// The classes of a parsed class diagram have distinct ids.
pub proof fn lemma_class_model_unique(s: Seq<char>)
    ensures
        unique_ids(class_model(s).nodes),
        class_model(s).kind == DiagramKind::Class,
{
    let st = class_run(lines(s), lines(s).len() as int);
    lemma_class_run_unique(lines(s), lines(s).len() as int);
    crate::model::lemma_same_ids_unique(st.ast.nodes, class_model(s).nodes);
}


/// A mark of a relation token seen from the other end: `<` and `>` swap.
pub open spec fn flip_mark(c: char) -> char {
    if c == '<' { '>' } else if c == '>' { '<' } else { c }
}

/// A relation token read from the other end: reversed, with `<` and `>` swapped.
pub open spec fn mirror_token(t: Text) -> Text {
    Seq::new(t.len(), |i: int| flip_mark(t[t.len() - 1 - i]))
}

pub proof fn lemma_find_some(s: Text, p: Text)
    ensures
        find(s, p) is Some <==> exists|k: int| crate::text::matches_at(s, p, k),
{
    crate::text::lemma_find_from_props(s, p, 0);
    if find(s, p) is Some {
        let k = find(s, p)->0;
        assert(crate::text::matches_at(s, p, k));
    }
}

pub proof fn lemma_mirror_has(t: Text, c: char)
    ensures
        find_char(t, c) is Some <==> find_char(mirror_token(t), flip_mark(c)) is Some,
{
    let m = mirror_token(t);
    let n = t.len() as int;
    lemma_find_some(t, seq![c]);
    lemma_find_some(m, seq![flip_mark(c)]);
    if exists|k: int| crate::text::matches_at(t, seq![c], k) {
        let k = choose|k: int| crate::text::matches_at(t, seq![c], k);
        assert(t.subrange(k, k + 1)[0] == t[k]);
        assert(m[n - 1 - k] == flip_mark(t[k]));
        assert(m.subrange(n - 1 - k, n - k) =~= seq![flip_mark(c)]);
        assert(crate::text::matches_at(m, seq![flip_mark(c)], n - 1 - k));
    }
    if exists|k: int| crate::text::matches_at(m, seq![flip_mark(c)], k) {
        let k = choose|k: int| crate::text::matches_at(m, seq![flip_mark(c)], k);
        assert(m.subrange(k, k + 1)[0] == m[k]);
        assert(m[k] == flip_mark(t[n - 1 - k]));
        assert(t[n - 1 - k] == c);
        assert(t.subrange(n - 1 - k, n - k) =~= seq![c]);
        assert(crate::text::matches_at(t, seq![c], n - 1 - k));
    }
}

proof fn lemma_mirror_dots(t: Text)
    ensures
        find(t, ".."@) is Some <==> find(mirror_token(t), ".."@) is Some,
{
    reveal_strlit("..");
    let m = mirror_token(t);
    let n = t.len() as int;
    lemma_find_some(t, ".."@);
    lemma_find_some(m, ".."@);
    if exists|k: int| crate::text::matches_at(t, ".."@, k) {
        let k = choose|k: int| crate::text::matches_at(t, ".."@, k);
        assert(t.subrange(k, k + 2)[0] == t[k] && t.subrange(k, k + 2)[1] == t[k + 1]);
        assert(m[n - 2 - k] == flip_mark(t[k + 1]) && m[n - 1 - k] == flip_mark(t[k]));
        assert(m.subrange(n - 2 - k, n - k) =~= ".."@);
        assert(crate::text::matches_at(m, ".."@, n - 2 - k));
    }
    if exists|k: int| crate::text::matches_at(m, ".."@, k) {
        let k = choose|k: int| crate::text::matches_at(m, ".."@, k);
        assert(m.subrange(k, k + 2)[0] == m[k] && m.subrange(k, k + 2)[1] == m[k + 1]);
        assert(m[k] == flip_mark(t[n - 1 - k]) && m[k + 1] == flip_mark(t[n - 2 - k]));
        assert(t[n - 1 - k] == '.' && t[n - 2 - k] == '.');
        assert(t.subrange(n - 2 - k, n - k) =~= ".."@);
        assert(crate::text::matches_at(t, ".."@, n - 2 - k));
    }
}

/// Law: the marks at the two ends of a relation token decide its two ends.
/// The end (start) carries the hollow `o` decoration exactly when the token
/// ends (starts) with `o`, and a filled diamond exactly when it ends (starts)
/// with `*`. Read from the other end, a token has its two ends swapped, and
/// keeps whether it is directed and its line style.
pub proof fn law_relation_ends(t: Text)
    ensures
        (edge_meta(t).start_decoration == Some(EdgeDecoration::Circle)) <==> (t.len() > 0 && t[0] == 'o'),
        (edge_meta(t).end_decoration == Some(EdgeDecoration::Circle)) <==> (t.len() > 0 && t.last() == 'o'),
        (edge_meta(t).arrow_start == Some(EdgeArrowhead::Diamond)) <==> (t.len() > 0 && t[0] == '*'),
        (edge_meta(t).arrow_end == Some(EdgeArrowhead::Diamond)) <==> (t.len() > 0 && t.last() == '*'),
        edge_meta(mirror_token(t)).start_decoration == edge_meta(t).end_decoration,
        edge_meta(mirror_token(t)).end_decoration == edge_meta(t).start_decoration,
        edge_meta(mirror_token(t)).directed == edge_meta(t).directed,
        edge_meta(mirror_token(t)).style == edge_meta(t).style,
        edge_meta(t).directed == (t.contains('<') || t.contains('>')),
        (edge_meta(t).style == EdgeStyle::Dotted) <==> (exists|k: int| 0 <= k && k + 1 < t.len() && #[trigger] t[k] == '.' && t[k + 1] == '.'),
        edge_meta(t).style == EdgeStyle::Dotted || edge_meta(t).style == EdgeStyle::Solid,
{
    let m = mirror_token(t);
    lemma_find_some(t, seq!['<']);
    lemma_find_some(t, seq!['>']);
    lemma_find_some(t, ".."@);
    reveal_strlit("..");
    if t.contains('<') {
        let i = choose|i: int| 0 <= i < t.len() && t[i] == '<';
        assert(t.subrange(i, i + 1) =~= seq!['<']);
        assert(crate::text::matches_at(t, seq!['<'], i));
    }
    if t.contains('>') {
        let i = choose|i: int| 0 <= i < t.len() && t[i] == '>';
        assert(t.subrange(i, i + 1) =~= seq!['>']);
        assert(crate::text::matches_at(t, seq!['>'], i));
    }
    if exists|k: int| crate::text::matches_at(t, seq!['<'], k) {
        let k = choose|k: int| crate::text::matches_at(t, seq!['<'], k);
        assert(t.subrange(k, k + 1)[0] == t[k]);
    }
    if exists|k: int| crate::text::matches_at(t, seq!['>'], k) {
        let k = choose|k: int| crate::text::matches_at(t, seq!['>'], k);
        assert(t.subrange(k, k + 1)[0] == t[k]);
    }
    if exists|k: int| 0 <= k && k + 1 < t.len() && #[trigger] t[k] == '.' && t[k + 1] == '.' {
        let k = choose|k: int| 0 <= k && k + 1 < t.len() && #[trigger] t[k] == '.' && t[k + 1] == '.';
        assert(t.subrange(k, k + 2) =~= ".."@);
        assert(crate::text::matches_at(t, ".."@, k));
    }
    if exists|k: int| crate::text::matches_at(t, ".."@, k) {
        let k = choose|k: int| crate::text::matches_at(t, ".."@, k);
        assert(t.subrange(k, k + 2)[0] == t[k] && t.subrange(k, k + 2)[1] == t[k + 1]);
    }
    let n = t.len() as int;
    if n > 0 {
        assert(m[0] == flip_mark(t[n - 1]));
        assert(m[n - 1] == flip_mark(t[0]));
        assert(m.last() == m[n - 1]);
    }
    lemma_mirror_has(t, '<');
    lemma_mirror_has(t, '>');
    lemma_mirror_dots(t);
}

} // verus!
