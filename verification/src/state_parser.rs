//! The state diagram parser, proved to compute `state_model`.

use vstd::prelude::*;
use crate::text::{
    trim, trim_chars, trim_start_chars, trim_end_chars, starts_with_exec, find_exec,
    find_char_exec, lit, slice_of, suffix, split_once_char_exec, lines_exec, lowercase_exec,
    views, str_chars, copy_chars, chars_eq, lemma_find_from_props, lemma_views_push,
    append_chars, decimal_usize,
};
use crate::syntax::{
    strip_quotes_exec, trim_start_matches_exec, direction_line_any_case_exec, split_label_exec,
};
use crate::diagram::{
    Text, NodeShape, EdgeArrowhead, EdgeStyle, DiagramKind, AstOf, EdgeOf, SubgraphOf, DiagramAst,
};
use crate::model::{
    opt_text, tt_view, tl_view, tt_get, tt_insert, tl_get, tl_push, find_keyed, find_node,
    first_index, keys, node_ids, plain_node_exec, plain_style_exec, ensure_node_exec,
    empty_ast_exec, push_edge, push_subgraph, push_subgraph_node, set_node_subgraph,
    lemma_first_index,
};
use crate::state::{
    StateSt, stmt_split, statements, stereotype, alias_line, container_header, transition_tokens,
    transition_match, colon_sep, description_line, note_line, simple_line, nl_prefixed,
    display_force, display, state_node, add_to_subgraph, node_of, scope_of, end_token,
    kept_shape, state_transition, declare, container_pushes, state_container, state_stmt,
    stmts_fold, state_run, state_init, state_model, queue_measure, lemma_line_measure,
    lemma_queue_measure_front, lemma_queue_measure_concat,
};
use crate::error::CoreError;
use crate::convert::conv_ast;

verus! {

/// Statements of a line.
fn statements_exec(s: &Vec<char>) -> (r: Vec<Vec<char>>)
    ensures
        views(r@) == statements(s@),
{
    let mut r: Vec<Vec<char>> = Vec::new();
    let mut start: usize = 0;
    let mut inq = false;
    let mut i: usize = 0;
    while i < s.len()
        invariant
            start <= i <= s.len(),
            views(r@) + stmt_split(s@, i as int, start as int, inq) == stmt_split(s@, 0, 0, false),
        decreases s.len() - i,
    {
        if s[i] == '"' {
            inq = !inq;
        } else if s[i] == ';' && !inq {
            let piece = slice_of(s, start, i);
            proof {
                lemma_views_push(r@, piece);
                assert(views(r@.push(piece)) + stmt_split(s@, i + 1, i + 1, inq)
                    =~= views(r@) + (seq![piece@] + stmt_split(s@, i + 1, i + 1, inq)));
            }
            r.push(piece);
            start = i + 1;
        }
        i += 1;
    }
    if start < s.len() {
        let piece = slice_of(s, start, s.len());
        proof {
            lemma_views_push(r@, piece);
        }
        r.push(piece);
    } else {
        assert(views(r@) + Seq::<Text>::empty() =~= views(r@));
    }
    if r.len() == 0 {
        r.push(copy_chars(s));
        assert(views(r@) =~= seq![s@]);
    }
    r
}

/// `state id <<stereotype>>`: the cleaned line, a shape and a label override.
fn stereotype_exec(line: &Vec<char>) -> (r: (Vec<char>, Option<NodeShape>, Option<Vec<char>>))
    ensures
        (r.0@, r.1, opt_text(r.2)) == stereotype(line@),
{
    let t = trim_chars(line);
    if !starts_with_exec(&t, &lit("state ")) {
        return (t, None, None);
    }
    let open = lit("<<");
    let close = lit(">>");
    proof {
        reveal_strlit("<<");
        reveal_strlit(">>");
    }
    match find_exec(&t, &open) {
        None => (t, None, None),
        Some(st) => {
            proof {
                lemma_find_from_props(t@, open@, 0);
            }
            let rest = suffix(&t, st + 2);
            assert(rest@ =~= t@.skip(st + 2));
            match find_exec(&rest, &close) {
                None => (t, None, None),
                Some(e) => {
                    proof {
                        lemma_find_from_props(rest@, close@, 0);
                    }
                    let s0 = slice_of(&t, st + 2, st + 2 + e);
                    let s1 = trim_chars(&s0);
                    let stereo = lowercase_exec(&s1);
                    let b0 = slice_of(&t, 0, st);
                    assert(b0@ =~= t@.take(st as int));
                    let before = trim_end_chars(&b0);
                    let a0 = suffix(&t, st + 2 + e + 2);
                    assert(a0@ =~= t@.skip(st + 2 + e + 2));
                    let after = trim_start_chars(&a0);
                    let cleaned = if after.len() == 0 {
                        before
                    } else if before.len() == 0 {
                        after
                    } else {
                        let mut c = before;
                        append_chars(&mut c, &lit(" "));
                        append_chars(&mut c, &after);
                        c
                    };
                    if chars_eq(&stereo, &lit("choice")) {
                        (cleaned, Some(NodeShape::Diamond), None)
                    } else if chars_eq(&stereo, &lit("fork")) || chars_eq(&stereo, &lit("join")) {
                        let empty: Vec<char> = Vec::new();
                        assert(empty@ =~= Seq::<char>::empty());
                        (cleaned, Some(NodeShape::Rectangle), Some(empty))
                    } else {
                        (cleaned, None, None)
                    }
                },
            }
        },
    }
}

/// A quoted head `"Label" rest`: the label and what follows the closing quote, trimmed.
fn quoted_head(rest: &Vec<char>) -> (r: Option<(Vec<char>, Vec<char>)>)
    requires
        rest@.len() > 0,
    ensures
        match r {
            Some((label, remaining)) => crate::text::find_char(rest@.skip(1), '"') matches Some(q)
                && label@ == rest@.subrange(1, q + 1) && remaining@ == trim(rest@.skip(q + 2)),
            None => crate::text::find_char(rest@.skip(1), '"') is None,
        },
{
    let r1 = suffix(rest, 1);
    assert(r1@ =~= rest@.skip(1));
    match find_char_exec(&r1, '"') {
        None => None,
        Some(q) => {
            proof {
                lemma_find_from_props(r1@, seq!['"'], 0);
            }
            let rl = rest.len();
            assert(q + 2 <= rl);
            let label = slice_of(rest, 1, q + 1);
            let rem0 = suffix(rest, q + 2);
            assert(rem0@ =~= rest@.skip(q + 2));
            Some((label, trim_chars(&rem0)))
        },
    }
}

/// `state "Label" as id`.
fn alias_line_exec(line: &Vec<char>) -> (r: Option<(Vec<char>, Vec<char>)>)
    ensures
        match r {
            Some((id, label)) => alias_line(line@) == Some((id@, label@)),
            None => alias_line(line@) is None,
        },
{
    let t = trim_chars(line);
    let kw = lit("state ");
    if !starts_with_exec(&t, &kw) || find_char_exec(&t, '{').is_some() {
        return None;
    }
    let r0 = trim_start_matches_exec(&t, &kw);
    let rest = trim_chars(&r0);
    if !(rest.len() > 0 && rest[0] == '"') {
        return None;
    }
    match quoted_head(&rest) {
        None => None,
        Some((label, remaining)) => {
            let lr = lowercase_exec(&remaining);
            if !starts_with_exec(&lr, &lit("as ")) {
                return None;
            }
            proof {
                reveal_strlit("as ");
            }
            let i0 = suffix(&remaining, 3);
            assert(i0@ =~= remaining@.skip(3));
            let id = trim_chars(&i0);
            if id.len() == 0 {
                None
            } else {
                Some((id, label))
            }
        },
    }
}

/// Composite state header.
fn container_header_exec(line: &Vec<char>) -> (r: Option<(Option<Vec<char>>, Vec<char>, Vec<char>)>)
    ensures
        match r {
            Some((id, label, tail)) => container_header(line@) == Some((opt_text(id), label@, tail@)),
            None => container_header(line@) is None,
        },
{
    let t = trim_chars(line);
    let kw = lit("state ");
    if !starts_with_exec(&t, &kw) {
        return None;
    }
    match find_char_exec(&t, '{') {
        None => None,
        Some(b) => {
            proof {
                lemma_find_from_props(t@, seq!['{'], 0);
            }
            let h0 = slice_of(&t, 0, b);
            assert(h0@ =~= t@.take(b as int));
            let head = trim_chars(&h0);
            let t0 = suffix(&t, b + 1);
            assert(t0@ =~= t@.skip(b + 1));
            let tail = trim_chars(&t0);
            let r0 = trim_start_matches_exec(&head, &kw);
            let rest = trim_chars(&r0);
            if rest.len() == 0 {
                return None;
            }
            if rest[0] == '"' {
                match quoted_head(&rest) {
                    None => None,
                    Some((label, remaining)) => {
                        let lr = lowercase_exec(&remaining);
                        if starts_with_exec(&lr, &lit("as ")) {
                            proof {
                                reveal_strlit("as ");
                            }
                            let i0 = suffix(&remaining, 3);
                            assert(i0@ =~= remaining@.skip(3));
                            let id = trim_chars(&i0);
                            if id.len() == 0 {
                                None
                            } else {
                                Some((Some(id), label, tail))
                            }
                        } else {
                            Some((None, label, tail))
                        }
                    },
                }
            } else {
                let lower = lowercase_exec(&rest);
                let pat = lit(" as ");
                match find_exec(&lower, &pat) {
                    Some(a) => {
                        proof {
                            lemma_find_from_props(lower@, pat@, 0);
                            reveal_strlit(" as ");
                        }
                        let ip0 = slice_of(&rest, 0, a);
                        assert(ip0@ =~= rest@.take(a as int));
                        let id_part = trim_chars(&ip0);
                        let lp0 = suffix(&rest, a + 4);
                        assert(lp0@ =~= rest@.skip(a + 4));
                        let label_part = trim_chars(&lp0);
                        if id_part.len() == 0 || label_part.len() == 0 {
                            None
                        } else {
                            Some((Some(strip_quotes_exec(&id_part)), strip_quotes_exec(&label_part), tail))
                        }
                    },
                    None => {
                        let id = strip_quotes_exec(&rest);
                        let label = strip_quotes_exec(&rest);
                        Some((Some(id), label, tail))
                    },
                }
            }
        },
    }
}

/// The transition tokens.
fn transition_tokens_exec() -> (r: Vec<Vec<char>>)
    ensures
        views(r@) == transition_tokens(),
{
    let mut r: Vec<Vec<char>> = Vec::new();
    r.push(lit("<-->"));
    r.push(lit("<--"));
    r.push(lit("-->"));
    r.push(lit("<->"));
    r.push(lit("->"));
    r.push(lit("<-"));
    r.push(lit("..>"));
    r.push(lit("<.."));
    assert(views(r@) =~= transition_tokens());
    r
}

/// First transition token with text on both sides.
fn transition_match_exec(line: &Vec<char>, toks: &Vec<Vec<char>>) -> (r: Option<(usize, usize)>)
    requires
        views(toks@) == transition_tokens(),
    ensures
        match r {
            Some((i, pos)) => transition_match(line@, 0) == Some((i as int, pos as int)) && i < 8
                && crate::text::find(line@, transition_tokens()[i as int]) == Some(pos as int),
            None => transition_match(line@, 0) is None,
        },
{
    assert(transition_tokens().len() == 8);
    assert(toks@.len() == views(toks@).len());
    let mut i: usize = 0;
    while i < toks.len()
        invariant
            i <= 8,
            toks@.len() == 8,
            views(toks@) == transition_tokens(),
            transition_match(line@, 0) == transition_match(line@, i as int),
        decreases 8 - i,
    {
        assert(views(toks@)[i as int] == toks@[i as int]@);
        let tok = &toks[i];
        match find_exec(line, tok) {
            Some(pos) => {
                proof {
                    lemma_find_from_props(line@, tok@, 0);
                }
                let l0 = slice_of(line, 0, pos);
                let tl = tok.len();
                let ll = line.len();
                assert(pos + tl <= ll);
                let r0 = slice_of(line, pos + tl, line.len());
                assert(l0@ =~= line@.take(pos as int));
                assert(r0@ =~= line@.skip(pos + tok@.len()));
                let lt = trim_chars(&l0);
                let rt = trim_chars(&r0);
                if lt.len() == 0 || rt.len() == 0 {
                    i += 1;
                } else {
                    return Some((i, pos));
                }
            },
            None => {
                i += 1;
            },
        }
    }
    None
}

/// First `:` that does not start a `:::`.
fn colon_sep_exec(s: &Vec<char>) -> (r: Option<usize>)
    ensures
        match r {
            Some(k) => colon_sep(s@, 0) == Some(k as int) && k < s@.len(),
            None => colon_sep(s@, 0) is None,
        },
{
    let mut i: usize = 0;
    while i < s.len()
        invariant
            colon_sep(s@, 0) == colon_sep(s@, i as int),
            i <= s.len() + 2,
        decreases s.len() + 2 - i,
    {
        if s[i] == ':' {
            if s.len() - i > 2 && s[i + 1] == ':' && s[i + 2] == ':' {
                i += 3;
            } else {
                return Some(i);
            }
        } else {
            i += 1;
        }
    }
    None
}

/// `id : description`.
fn description_line_exec(line: &Vec<char>) -> (r: Option<(Vec<char>, Vec<char>)>)
    ensures
        match r {
            Some((id, desc)) => description_line(line@) == Some((id@, desc@)),
            None => description_line(line@) is None,
        },
{
    let t = trim_chars(line);
    if t.len() == 0 || starts_with_exec(&lowercase_exec(&t), &lit("note ")) {
        return None;
    }
    let rest = if starts_with_exec(&t, &lit("state ")) {
        proof {
            reveal_strlit("state ");
        }
        let r0 = suffix(&t, 6);
        assert(r0@ =~= t@.skip(6));
        trim_chars(&r0)
    } else {
        t
    };
    if find_exec(&lowercase_exec(&rest), &lit(" as ")).is_some() {
        return None;
    }
    match colon_sep_exec(&rest) {
        None => None,
        Some(sep) => {
            let i0 = slice_of(&rest, 0, sep);
            assert(i0@ =~= rest@.take(sep as int));
            let d0 = suffix(&rest, sep + 1);
            assert(d0@ =~= rest@.skip(sep + 1));
            let id = strip_quotes_exec(&trim_chars(&i0));
            let desc = strip_quotes_exec(&trim_chars(&d0));
            if id.len() == 0 || desc.len() == 0 {
                None
            } else {
                Some((id, desc))
            }
        },
    }
}

/// `note left of X: text` / `note right of X: text`.
fn note_line_exec(line: &Vec<char>) -> (r: Option<(Vec<char>, Vec<char>, Vec<char>)>)
    ensures
        match r {
            Some((pos, target, text)) => note_line(line@) == Some((pos@, target@, text@)),
            None => note_line(line@) is None,
        },
{
    let t = trim_chars(line);
    if !starts_with_exec(&lowercase_exec(&t), &lit("note ")) {
        return None;
    }
    proof {
        reveal_strlit("note ");
        reveal_strlit("right of ");
        reveal_strlit("left of ");
    }
    assert(crate::text::lowercase(t@).len() == t@.len());
    let r0 = suffix(&t, 4);
    assert(r0@ =~= t@.skip(4));
    let rest = trim_chars(&r0);
    let lr = lowercase_exec(&rest);
    assert(lr@.len() == rest@.len());
    let (pos, targets) = if starts_with_exec(&lr, &lit("right of ")) {
        let x = suffix(&rest, 9);
        assert(x@ =~= rest@.skip(9));
        (lit("right"), trim_chars(&x))
    } else if starts_with_exec(&lr, &lit("left of ")) {
        let x = suffix(&rest, 8);
        assert(x@ =~= rest@.skip(8));
        (lit("left"), trim_chars(&x))
    } else {
        return None;
    };
    match split_once_char_exec(&targets, ':') {
        None => None,
        Some((tg, lb)) => {
            let tg = trim_chars(&tg);
            let lb = trim_chars(&lb);
            if tg.len() == 0 || lb.len() == 0 {
                None
            } else {
                Some((pos, tg, lb))
            }
        },
    }
}

/// `state id`.
fn simple_line_exec(line: &Vec<char>) -> (r: Option<Vec<char>>)
    ensures
        match r {
            Some(id) => simple_line(line@) == Some(id@),
            None => simple_line(line@) is None,
        },
{
    let t = trim_chars(line);
    let kw = lit("state ");
    if !starts_with_exec(&t, &kw) || find_char_exec(&t, '{').is_some() {
        return None;
    }
    let r0 = trim_start_matches_exec(&t, &kw);
    let rest = trim_chars(&r0);
    if find_exec(&lowercase_exec(&rest), &lit(" as ")).is_some() || rest.len() == 0 {
        return None;
    }
    let id = strip_quotes_exec(&rest);
    if id.len() == 0 {
        None
    } else {
        Some(id)
    }
}

/// Parser state: the model so far, labels, descriptions, start and end
/// pseudo-states per scope, and the stack of open composite states.
struct StateParser {
    ast: AstOf<Vec<char>>,
    labels: Vec<(Vec<char>, Vec<char>)>,
    descs: Vec<(Vec<char>, Vec<Vec<char>>)>,
    starts: Vec<(Vec<char>, Vec<char>)>,
    ends: Vec<(Vec<char>, Vec<char>)>,
    stack: Vec<usize>,
}

impl View for StateParser {
    type V = StateSt;

    closed spec fn view(&self) -> StateSt {
        StateSt {
            ast: self.ast@,
            labels: tt_view(self.labels@),
            descs: tl_view(self.descs@),
            starts: tt_view(self.starts@),
            ends: tt_view(self.ends@),
            stack: self.stack@,
        }
    }
}

fn nl_prefixed_exec(ds: &Vec<Vec<char>>) -> (r: Vec<char>)
    ensures
        r@ == nl_prefixed(views(ds@)),
{
    let mut r: Vec<char> = Vec::new();
    let nl = lit("\n");
    let mut i: usize = 0;
    while i < ds.len()
        invariant
            i <= ds.len(),
            nl@ == "\n"@,
            r@ == nl_prefixed(views(ds@).take(i as int)),
        decreases ds.len() - i,
    {
        assert(views(ds@).take(i + 1).drop_last() =~= views(ds@).take(i as int));
        assert(views(ds@).take(i + 1).last() == ds@[i as int]@);
        append_chars(&mut r, &nl);
        append_chars(&mut r, &ds[i]);
        i += 1;
    }
    assert(views(ds@).take(ds.len() as int) =~= views(ds@));
    r
}

fn display_exec(p: &StateParser, id: &Vec<char>) -> (r: Option<Vec<char>>)
    ensures
        opt_text(r) == display(p@.labels, p@.descs, id@),
{
    let l = tt_get(&p.labels, id);
    let d = tl_get(&p.descs, id);
    if l.is_none() && d.is_none() {
        return None;
    }
    let mut title = match l {
        Some(t) => t,
        None => copy_chars(id),
    };
    match d {
        Some(ds) => {
            if ds.len() > 0 {
                append_chars(&mut title, &lit("\n---"));
                let rest = nl_prefixed_exec(&ds);
                append_chars(&mut title, &rest);
            }
        },
        None => {},
    }
    Some(title)
}

fn state_node_exec(a: &mut AstOf<Vec<char>>, id: &Vec<char>, label: Option<Vec<char>>, shape: NodeShape)
    ensures
        final(a)@ == state_node(old(a)@, id@, opt_text(label), shape),
{
    let l = match label {
        Some(l) => l,
        None => copy_chars(id),
    };
    let n = plain_node_exec(copy_chars(id), l, shape);
    ensure_node_exec(a, n);
}

fn add_to_subgraph_exec(a: &mut AstOf<Vec<char>>, stack: &Vec<usize>, id: &Vec<char>)
    ensures
        final(a)@ == add_to_subgraph(old(a)@, stack@, id@),
{
    let n = stack.len();
    if n == 0 {
        return;
    }
    let idx = stack[n - 1];
    assert(idx == stack@.last());
    if idx < a.subgraphs.len() {
        assert(a@.subgraphs[idx as int] == a.subgraphs@[idx as int]@);
        assert(keys(a.subgraphs@[idx as int].nodes@) =~= a@.subgraphs[idx as int].nodes);
        if find_keyed(&a.subgraphs[idx].nodes, id).is_none() {
            push_subgraph_node(&mut a.subgraphs, idx, copy_chars(id));
        }
    }
    let ghost a1 = a@;
    match find_node(a, id) {
        Some(j) => {
            set_node_subgraph(&mut a.nodes, j, idx);
            assert(a@ =~= crate::diagram::AstV {
                nodes: a1.nodes.update(j as int, crate::diagram::NodeV { subgraph: Some(idx), ..a1.nodes[j as int] }),
                ..a1
            });
        },
        None => {},
    }
}

fn kept_shape_exec(a: &AstOf<Vec<char>>, id: &Vec<char>, shape: NodeShape) -> (r: NodeShape)
    ensures
        r == kept_shape(a@, id@, shape),
{
    if shape == NodeShape::RoundRect {
        match find_node(a, id) {
            Some(j) => {
                assert(a@.nodes[j as int] == a.nodes@[j as int]@);
                a.nodes[j].shape
            },
            None => shape,
        }
    } else {
        shape
    }
}

fn scope_exec(p: &StateParser) -> (r: Vec<char>)
    ensures
        r@ == scope_of(p@),
{
    let n = p.stack.len();
    if n > 0 && p.stack[n - 1] < p.ast.subgraphs.len() {
        let idx = p.stack[n - 1];
        assert(p@.ast.subgraphs[idx as int] == p.ast.subgraphs@[idx as int]@);
        copy_chars(&p.ast.subgraphs[idx].id)
    } else {
        lit("root")
    }
}

fn pseudo_id(prefix: &str, scope: &Vec<char>) -> (r: Vec<char>)
    ensures
        r@ == prefix@ + scope@ + "__"@,
{
    let mut v = lit(prefix);
    append_chars(&mut v, scope);
    append_chars(&mut v, &lit("__"));
    v
}

fn end_token_exec(p: &mut StateParser, token: &Vec<char>, is_start: bool, scope: &Vec<char>)
    -> (r: (Vec<char>, NodeShape, Option<Vec<char>>))
    ensures
        (final(p)@.starts, final(p)@.ends, r.0@, r.1, opt_text(r.2))
            == end_token(old(p)@.starts, old(p)@.ends, token@, is_start, scope@),
        final(p)@.ast == old(p)@.ast,
        final(p)@.labels == old(p)@.labels,
        final(p)@.descs == old(p)@.descs,
        final(p)@.stack == old(p)@.stack,
{
    let t = trim_chars(token);
    if chars_eq(&t, &lit("[*]")) || chars_eq(&t, &lit("*")) {
        let empty: Vec<char> = Vec::new();
        assert(empty@ =~= Seq::<char>::empty());
        if is_start {
            match tt_get(&p.starts, scope) {
                Some(id) => (id, NodeShape::Circle, Some(empty)),
                None => {
                    let id = pseudo_id("__start_", scope);
                    tt_insert(&mut p.starts, copy_chars(scope), copy_chars(&id));
                    (id, NodeShape::Circle, Some(empty))
                },
            }
        } else {
            match tt_get(&p.ends, scope) {
                Some(id) => (id, NodeShape::DoubleCircle, Some(empty)),
                None => {
                    let id = pseudo_id("__end_", scope);
                    tt_insert(&mut p.ends, copy_chars(scope), copy_chars(&id));
                    (id, NodeShape::DoubleCircle, Some(empty))
                },
            }
        }
    } else {
        (strip_quotes_exec(&t), NodeShape::RoundRect, None)
    }
}

fn declare_exec(p: &mut StateParser, id: &Vec<char>, shape: Option<NodeShape>)
    ensures
        final(p)@ == declare(old(p)@, id@, shape),
{
    let d = display_exec(p, id);
    let sh = match shape {
        Some(s) => s,
        None => NodeShape::RoundRect,
    };
    state_node_exec(&mut p.ast, id, d, sh);
    add_to_subgraph_exec(&mut p.ast, &p.stack, id);
}

fn transition_exec(p: &mut StateParser, left: &Vec<char>, tok: &Vec<char>, right: &Vec<char>, label: Option<Vec<char>>)
    ensures
        final(p)@ == state_transition(old(p)@, left@, tok@, right@, opt_text(label)),
{
    let scope = scope_exec(p);
    let (lid, lshape, llabel) = end_token_exec(p, left, true, &scope);
    let (rid, rshape, rlabel) = end_token_exec(p, right, false, &scope);
    let ldisp = match llabel {
        Some(l) => Some(l),
        None => display_exec(p, &lid),
    };
    let rdisp = match rlabel {
        Some(l) => Some(l),
        None => display_exec(p, &rid),
    };
    let ls = kept_shape_exec(&p.ast, &lid, lshape);
    let rs = kept_shape_exec(&p.ast, &rid, rshape);
    state_node_exec(&mut p.ast, &lid, ldisp, ls);
    state_node_exec(&mut p.ast, &rid, rdisp, rs);
    add_to_subgraph_exec(&mut p.ast, &p.stack, &lid);
    add_to_subgraph_exec(&mut p.ast, &p.stack, &rid);
    let lt = find_char_exec(tok, '<').is_some();
    let gt = find_char_exec(tok, '>').is_some();
    let dotted = find_exec(tok, &lit("..")).is_some();
    let e = EdgeOf {
        from: lid,
        to: rid,
        label,
        start_label: None,
        end_label: None,
        directed: lt || gt,
        arrow_start: if lt { Some(EdgeArrowhead::Arrow) } else { None },
        arrow_end: if gt { Some(EdgeArrowhead::Arrow) } else { None },
        start_decoration: None,
        end_decoration: None,
        style: if dotted { EdgeStyle::Dotted } else { EdgeStyle::Solid },
    };
    push_edge(&mut p.ast, e);
}

fn container_pushes_exec(tail: &Vec<char>) -> (r: Vec<Vec<char>>)
    ensures
        views(r@) == container_pushes(tail@),
{
    let mut r: Vec<Vec<char>> = Vec::new();
    if tail.len() == 0 {
        assert(views(r@) =~= Seq::<Text>::empty());
        return r;
    }
    match find_char_exec(tail, '}') {
        Some(c) => {
            proof {
                lemma_find_from_props(tail@, seq!['}'], 0);
            }
            let b0 = slice_of(tail, 0, c);
            assert(b0@ =~= tail@.take(c as int));
            let a0 = suffix(tail, c + 1);
            assert(a0@ =~= tail@.skip(c + 1));
            let body = trim_chars(&b0);
            let after = trim_chars(&a0);
            let ghost bv = body@;
            let ghost av = after@;
            if body.len() > 0 {
                r.push(body);
            }
            r.push(lit("}"));
            if after.len() > 0 {
                r.push(after);
            }
            assert(views(r@) =~= (if bv.len() > 0 { seq![bv] } else { Seq::<Text>::empty() }) + seq!["}"@]
                + (if av.len() > 0 { seq![av] } else { Seq::<Text>::empty() }));
            r
        },
        None => {
            r.push(copy_chars(tail));
            assert(views(r@) =~= seq![tail@]);
            r
        },
    }
}

fn container_exec(p: &mut StateParser, h: (Option<Vec<char>>, Vec<char>, Vec<char>)) -> (r: Vec<Vec<char>>)
    ensures
        (final(p)@, views(r@)) == state_container(old(p)@, (opt_text(h.0), h.1@, h.2@)),
{
    let (id, label, tail) = h;
    let idx = p.ast.subgraphs.len();
    assert(idx == p@.ast.subgraphs.len());
    match &id {
        Some(i) => tt_insert(&mut p.labels, copy_chars(i), copy_chars(&label)),
        None => {},
    }
    let sid = match id {
        Some(i) => i,
        None => {
            let mut v = lit("__composite_");
            append_chars(&mut v, &decimal_usize(idx));
            append_chars(&mut v, &lit("__"));
            v
        },
    };
    let g = SubgraphOf { id: sid, label, direction: None, nodes: Vec::new(), style: plain_style_exec() };
    assert(g@.nodes =~= Seq::<Text>::empty());
    push_subgraph(&mut p.ast, g);
    p.stack.push(idx);
    container_pushes_exec(&tail)
}

/// One statement; returns the lines to put back in front of the queue.
fn state_stmt_exec(p: &mut StateParser, raw: &Vec<char>, toks: &Vec<Vec<char>>) -> (r: Vec<Vec<char>>)
    requires
        views(toks@) == transition_tokens(),
    ensures
        (final(p)@, views(r@)) == state_stmt(old(p)@, raw@),
{
    reveal(state_stmt);
    let none: Vec<Vec<char>> = Vec::new();
    assert(views(none@) =~= Seq::<Text>::empty());
    let l0 = trim_chars(raw);
    if l0.len() == 0 || starts_with_exec(&l0, &lit("%%")) {
        return none;
    }
    let (l1, shape, lo) = stereotype_exec(&l0);
    let line = trim_chars(&l1);
    let lower = lowercase_exec(&line);
    if line.len() == 0 || starts_with_exec(&lower, &lit("statediagram")) {
        return none;
    }
    match direction_line_any_case_exec(&line) {
        Some(d) => {
            p.ast.direction = d;
            return none;
        },
        None => {},
    }
    if starts_with_exec(&lower, &lit("style ")) || starts_with_exec(&lower, &lit("classdef "))
        || starts_with_exec(&lower, &lit("class ")) {
        return none;
    }
    if chars_eq(&line, &lit("}")) {
        if p.stack.len() > 0 {
            p.stack.pop();
        }
        return none;
    }
    if chars_eq(&line, &lit("--")) {
        return none;
    }
    match container_header_exec(&line) {
        Some(h) => {
            return container_exec(p, h);
        },
        None => {},
    }
    match alias_line_exec(&line) {
        Some((id, label0)) => {
            let label = match lo {
                Some(l) => l,
                None => label0,
            };
            tt_insert(&mut p.labels, copy_chars(&id), label);
            declare_exec(p, &id, shape);
            return none;
        },
        None => {},
    }
    match transition_match_exec(&line, toks) {
        Some((i, pos)) => {
            assert(transition_tokens().len() == 8);
            assert(toks@.len() == views(toks@).len());
            assert(views(toks@)[i as int] == toks@[i as int]@);
            let tok = &toks[i];
            proof {
                lemma_find_from_props(line@, tok@, 0);
            }
            let tl = tok.len();
            let ll = line.len();
            assert(pos + tl <= ll);
            let l0 = slice_of(&line, 0, pos);
            assert(l0@ =~= line@.take(pos as int));
            let r0 = suffix(&line, pos + tl);
            assert(r0@ =~= line@.skip(pos + tok@.len()));
            let left = trim_chars(&l0);
            let rp = trim_chars(&r0);
            let (right, label) = split_label_exec(&rp);
            transition_exec(p, &left, tok, &right, label);
            return none;
        },
        None => {},
    }
    match description_line_exec(&line) {
        Some((id, desc)) => {
            let label = match lo {
                Some(l) => l,
                None => desc,
            };
            tl_push(&mut p.descs, copy_chars(&id), label);
            declare_exec(p, &id, shape);
            return none;
        },
        None => {},
    }
    match note_line_exec(&line) {
        Some((pos, target, text)) => {
            state_node_exec(&mut p.ast, &target, None, NodeShape::RoundRect);
            let mut note_id = lit("__note_");
            append_chars(&mut note_id, &pos);
            append_chars(&mut note_id, &lit("_"));
            append_chars(&mut note_id, &target);
            append_chars(&mut note_id, &lit("__"));
            state_node_exec(&mut p.ast, &note_id, Some(text), NodeShape::Rectangle);
            add_to_subgraph_exec(&mut p.ast, &p.stack, &note_id);
            return none;
        },
        None => {},
    }
    match simple_line_exec(&line) {
        Some(id) => {
            match lo {
                Some(l) => tt_insert(&mut p.labels, copy_chars(&id), l),
                None => {},
            }
            declare_exec(p, &id, shape);
            return none;
        },
        None => {},
    }
    let id = strip_quotes_exec(&line);
    if id.len() > 0 && !chars_eq(&id, &lit("{")) && !chars_eq(&id, &lit("}")) {
        declare_exec(p, &id, shape);
    }
    none
}

/// Parses a state diagram. Every source is accepted: statements that match no
/// form are skipped.
pub fn parse_state(input: &str) -> (r: Result<DiagramAst, CoreError>)
    ensures
        r matches Ok(a) && a@ == state_model(input@),
{
    let s = str_chars(input);
    let mut pending = lines_exec(&s);
    let toks = transition_tokens_exec();
    let mut p = StateParser {
        ast: empty_ast_exec(DiagramKind::State),
        labels: Vec::new(),
        descs: Vec::new(),
        starts: Vec::new(),
        ends: Vec::new(),
        stack: Vec::new(),
    };
    assert(tt_view(p.labels@) =~= Seq::empty());
    assert(tl_view(p.descs@) =~= Seq::empty());
    assert(tt_view(p.starts@) =~= Seq::empty());
    assert(tt_view(p.ends@) =~= Seq::empty());
    assert(p@ == state_init());
    assert(views(pending@) == crate::text::lines(input@));
    while pending.len() > 0
        invariant
            views(toks@) == transition_tokens(),
            state_run(p@, views(pending@)).ast == state_model(input@),
        decreases queue_measure(views(pending@)),
    {
        let ghost q = views(pending@);
        let ghost st0 = p@;
        let line = pending.remove(0);
        assert(views(pending@) =~= q.skip(1));
        let stmts = statements_exec(&line);
        let mut front: Vec<Vec<char>> = Vec::new();
        let mut k: usize = 0;
        while k < stmts.len()
            invariant
                k <= stmts.len(),
                views(toks@) == transition_tokens(),
                (p@, views(front@)) == stmts_fold(st0, views(stmts@).take(k as int)),
            decreases stmts.len() - k,
        {
            assert(views(stmts@).take(k + 1).drop_last() =~= views(stmts@).take(k as int));
            assert(views(stmts@).take(k + 1).last() == stmts@[k as int]@);
            let pushed = state_stmt_exec(&mut p, &stmts[k], &toks);
            let mut nf = pushed;
            let ghost pv = views(nf@);
            crate::text::append_lines(&mut nf, &front);
            front = nf;
            k += 1;
        }
        assert(views(stmts@).take(stmts.len() as int) =~= views(stmts@));
        proof {
            lemma_line_measure(st0, q[0]);
            lemma_queue_measure_front(q);
            lemma_queue_measure_concat(views(front@), q.skip(1));
        }
        let ghost fv = views(front@);
        crate::text::append_lines(&mut front, &pending);
        pending = front;
        assert(views(pending@) == fv + q.skip(1));
        assert(state_run(st0, q) == state_run(p@, views(pending@)));
    }
    Ok(conv_ast(&p.ast))
}

} // verus!
