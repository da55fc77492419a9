//! Model of `stateDiagram` sources: states, composite states, start and end
//! pseudo-states per scope, transitions, descriptions, notes and stereotypes.
//!
//! A source line may hold several `;`-separated statements. The inline body of a
//! composite state (`state A { ... } rest`) goes back to the front of the queue of
//! lines still to read, after the remaining statements of the current line.

use vstd::prelude::*;
use crate::text::{
    trim, trim_start, trim_end, starts_with, find, find_char, lines, lowercase, split_once, decimal,
};
use crate::syntax::{strip_quotes, trim_start_matches, direction_line_any_case, split_label};
use crate::diagram::{Text, AstV, NodeV, EdgeV, SubgraphV, NodeShape, EdgeArrowhead, EdgeStyle, DiagramKind};
use crate::model::{
    lookup, insert, push_under, first_index, node_ids, has_node, plain_node, plain_style,
    ensure_node, empty_ast, unique_ids, lemma_ensure_node_unique,
};

verus! {

/// Abstract state of the state-diagram parser between statements.
pub struct StateSt {
    pub ast: AstV,
    pub labels: Seq<(Text, Text)>,
    pub descs: Seq<(Text, Seq<Text>)>,
    pub starts: Seq<(Text, Text)>,
    pub ends: Seq<(Text, Text)>,
    pub stack: Seq<usize>,
}

// ---------------------------------------------------------------------------
// Statements of a line
// ---------------------------------------------------------------------------

/// Pieces of `s` from index `i` on, the current piece starting at `start`: split at
/// `;` outside double quotes; a final empty piece is dropped.
pub open spec fn stmt_split(s: Text, i: int, start: int, inq: bool) -> Seq<Text>
    decreases s.len() - i,
{
    if i < 0 || i >= s.len() {
        if 0 <= start < s.len() {
            seq![s.subrange(start, s.len() as int)]
        } else {
            seq![]
        }
    } else if s[i] == '"' {
        stmt_split(s, i + 1, start, !inq)
    } else if s[i] == ';' && !inq {
        seq![s.subrange(start, i)] + stmt_split(s, i + 1, i + 1, inq)
    } else {
        stmt_split(s, i + 1, start, inq)
    }
}

/// Statements of a line; a line without any piece is one statement.
pub open spec fn statements(s: Text) -> Seq<Text> {
    let r = stmt_split(s, 0, 0, false);
    if r.len() == 0 {
        seq![s]
    } else {
        r
    }
}

// ---------------------------------------------------------------------------
// Statement forms
// ---------------------------------------------------------------------------

/// `state id <<choice>>`, `<<fork>>`, `<<join>>`: the line without the stereotype,
/// the shape it asks for and, for fork and join, an empty label.
pub open spec fn stereotype(line: Text) -> (Text, Option<NodeShape>, Option<Text>) {
    let t = trim(line);
    if !starts_with(t, "state "@) {
        (t, None, None)
    } else {
        match find(t, "<<"@) {
            None => (t, None, None),
            Some(st) => match find(t.skip(st + 2), ">>"@) {
                None => (t, None, None),
                Some(e) => {
                    let stereo = lowercase(trim(t.subrange(st + 2, st + 2 + e)));
                    let before = trim_end(t.take(st));
                    let after = trim_start(t.skip(st + 2 + e + 2));
                    let cleaned = if after.len() == 0 {
                        before
                    } else if before.len() == 0 {
                        after
                    } else {
                        before + " "@ + after
                    };
                    if stereo == "choice"@ {
                        (cleaned, Some(NodeShape::Diamond), None)
                    } else if stereo == "fork"@ || stereo == "join"@ {
                        (cleaned, Some(NodeShape::Rectangle), Some(seq![]))
                    } else {
                        (cleaned, None, None)
                    }
                },
            },
        }
    }
}

/// `state "Label" as id`: (id, label).
pub open spec fn alias_line(line: Text) -> Option<(Text, Text)> {
    let t = trim(line);
    if !starts_with(t, "state "@) || find_char(t, '{') is Some {
        None
    } else {
        let rest = trim(trim_start_matches(t, "state "@));
        if !(rest.len() > 0 && rest[0] == '"') {
            None
        } else {
            match find_char(rest.skip(1), '"') {
                None => None,
                Some(q) => {
                    let label = rest.subrange(1, q + 1);
                    let remaining = trim(rest.skip(q + 2));
                    if !starts_with(lowercase(remaining), "as "@) {
                        None
                    } else {
                        let id = trim(remaining.skip(3));
                        if id.len() == 0 {
                            None
                        } else {
                            Some((id, label))
                        }
                    }
                },
            }
        }
    }
}

/// Composite state header `state X {`: (id, label, text after the brace).
pub open spec fn container_header(line: Text) -> Option<(Option<Text>, Text, Text)> {
    let t = trim(line);
    if !starts_with(t, "state "@) {
        None
    } else {
        match find_char(t, '{') {
            None => None,
            Some(b) => {
                let head = trim(t.take(b));
                let tail = trim(t.skip(b + 1));
                let rest = trim(trim_start_matches(head, "state "@));
                if rest.len() == 0 {
                    None
                } else if rest[0] == '"' {
                    match find_char(rest.skip(1), '"') {
                        None => None,
                        Some(q) => {
                            let label = rest.subrange(1, q + 1);
                            let remaining = trim(rest.skip(q + 2));
                            if starts_with(lowercase(remaining), "as "@) {
                                let id = trim(remaining.skip(3));
                                if id.len() == 0 {
                                    None
                                } else {
                                    Some((Some(id), label, tail))
                                }
                            } else {
                                Some((None, label, tail))
                            }
                        },
                    }
                } else {
                    match find(lowercase(rest), " as "@) {
                        Some(a) => {
                            let id_part = trim(rest.take(a));
                            let label_part = trim(rest.skip(a + 4));
                            if id_part.len() == 0 || label_part.len() == 0 {
                                None
                            } else {
                                Some((Some(strip_quotes(id_part)), strip_quotes(label_part), tail))
                            }
                        },
                        None => Some((Some(strip_quotes(rest)), strip_quotes(rest), tail)),
                    }
                }
            },
        }
    }
}

/// Transition tokens, in the order they are tried.
pub open spec fn transition_tokens() -> Seq<Text> {
    seq!["<-->"@, "<--"@, "-->"@, "<->"@, "->"@, "<-"@, "..>"@, "<.."@]
}

/// First token (from index `i` on) found in `line` with text on both sides:
/// (token index, position of its first occurrence).
pub open spec fn transition_match(line: Text, i: int) -> Option<(int, int)>
    decreases 8 - i,
{
    if i < 0 || i >= 8 {
        None
    } else {
        let tok = transition_tokens()[i];
        match find(line, tok) {
            Some(pos) => if trim(line.take(pos)).len() == 0 || trim(line.skip(pos + tok.len())).len() == 0 {
                transition_match(line, i + 1)
            } else {
                Some((i, pos))
            },
            None => transition_match(line, i + 1),
        }
    }
}

/// Index of the first `:` of `s` from `i` on that does not start a `:::`.
pub open spec fn colon_sep(s: Text, i: int) -> Option<int>
    decreases s.len() - i,
{
    if i < 0 || i >= s.len() {
        None
    } else if s[i] == ':' {
        if i + 2 < s.len() && s[i + 1] == ':' && s[i + 2] == ':' {
            colon_sep(s, i + 3)
        } else {
            Some(i)
        }
    } else {
        colon_sep(s, i + 1)
    }
}

/// `id : description`: (id, description).
pub open spec fn description_line(line: Text) -> Option<(Text, Text)> {
    let t = trim(line);
    if t.len() == 0 || starts_with(lowercase(t), "note "@) {
        None
    } else {
        let rest = if starts_with(t, "state "@) { trim(t.skip(6)) } else { t };
        if find(lowercase(rest), " as "@) is Some {
            None
        } else {
            match colon_sep(rest, 0) {
                None => None,
                Some(sep) => {
                    let id = strip_quotes(trim(rest.take(sep)));
                    let desc = strip_quotes(trim(rest.skip(sep + 1)));
                    if id.len() == 0 || desc.len() == 0 {
                        None
                    } else {
                        Some((id, desc))
                    }
                },
            }
        }
    }
}

/// `note left of X: text` / `note right of X: text`: (side, target, text).
pub open spec fn note_line(line: Text) -> Option<(Text, Text, Text)> {
    let t = trim(line);
    if !starts_with(lowercase(t), "note "@) {
        None
    } else {
        let rest = trim(t.skip(4));
        let lr = lowercase(rest);
        let pt = if starts_with(lr, "right of "@) {
            Some(("right"@, trim(rest.skip(9))))
        } else if starts_with(lr, "left of "@) {
            Some(("left"@, trim(rest.skip(8))))
        } else {
            None
        };
        match pt {
            None => None,
            Some((pos, targets)) => match split_once(targets, seq![':']) {
                None => None,
                Some((tg, lb)) => if trim(tg).len() == 0 || trim(lb).len() == 0 {
                    None
                } else {
                    Some((pos, trim(tg), trim(lb)))
                },
            },
        }
    }
}

/// `state id`: the id.
pub open spec fn simple_line(line: Text) -> Option<Text> {
    let t = trim(line);
    if !starts_with(t, "state "@) || find_char(t, '{') is Some {
        None
    } else {
        let rest = trim(trim_start_matches(t, "state "@));
        if find(lowercase(rest), " as "@) is Some || rest.len() == 0 {
            None
        } else {
            let id = strip_quotes(rest);
            if id.len() == 0 {
                None
            } else {
                Some(id)
            }
        }
    }
}

// ---------------------------------------------------------------------------
// Effects on the model
// ---------------------------------------------------------------------------

/// Descriptions joined, each after a line break.
pub open spec fn nl_prefixed(ds: Seq<Text>) -> Text
    decreases ds.len(),
{
    if ds.len() == 0 {
        seq![]
    } else {
        nl_prefixed(ds.drop_last()) + "\n"@ + ds.last()
    }
}

/// Label of a state with a recorded label or descriptions: its title, then `---`
/// and one line per description.
pub open spec fn display_force(labels: Seq<(Text, Text)>, descs: Seq<(Text, Seq<Text>)>, id: Text) -> Text {
    let title = match lookup(labels, id) { Some(l) => l, None => id };
    match lookup(descs, id) {
        Some(ds) => if ds.len() == 0 { title } else { title + "\n---"@ + nl_prefixed(ds) },
        None => title,
    }
}

/// The display label of a state, when anything is recorded for it.
pub open spec fn display(labels: Seq<(Text, Text)>, descs: Seq<(Text, Seq<Text>)>, id: Text) -> Option<Text> {
    if lookup(labels, id) is None && lookup(descs, id) is None {
        None
    } else {
        Some(display_force(labels, descs, id))
    }
}

/// The model with a state node added unless one with its id exists.
pub open spec fn state_node(a: AstV, id: Text, label: Option<Text>, shape: NodeShape) -> AstV {
    ensure_node(a, plain_node(id, match label { Some(l) => l, None => id }, shape))
}

/// Inside a composite state, the node joins the innermost one.
pub open spec fn add_to_subgraph(a: AstV, stack: Seq<usize>, id: Text) -> AstV {
    if stack.len() == 0 {
        a
    } else {
        let idx = stack.last();
        let a1 = if idx < a.subgraphs.len() && first_index(a.subgraphs[idx as int].nodes, id) is None {
            AstV {
                subgraphs: a.subgraphs.update(
                    idx as int,
                    SubgraphV { nodes: a.subgraphs[idx as int].nodes.push(id), ..a.subgraphs[idx as int] },
                ),
                ..a
            }
        } else {
            a
        };
        match first_index(node_ids(a1.nodes), id) {
            Some(j) => AstV { nodes: a1.nodes.update(j, NodeV { subgraph: Some(idx), ..a1.nodes[j] }), ..a1 },
            None => a1,
        }
    }
}

/// The node with id `id` (meaningful when it exists).
pub open spec fn node_of(a: AstV, id: Text) -> NodeV {
    a.nodes[first_index(node_ids(a.nodes), id)->0]
}

/// Id of the composite state that encloses the current statement, or `root`.
pub open spec fn scope_of(st: StateSt) -> Text {
    if st.stack.len() > 0 && st.stack.last() < st.ast.subgraphs.len() {
        st.ast.subgraphs[st.stack.last() as int].id
    } else {
        "root"@
    }
}

/// A transition end: `[*]` stands for the start (or end) pseudo-state of the scope.
/// Gives the start and end maps, the id, its shape and its forced label.
pub open spec fn end_token(
    starts: Seq<(Text, Text)>,
    ends: Seq<(Text, Text)>,
    token: Text,
    is_start: bool,
    scope: Text,
) -> (Seq<(Text, Text)>, Seq<(Text, Text)>, Text, NodeShape, Option<Text>) {
    let t = trim(token);
    if t == "[*]"@ || t == "*"@ {
        if is_start {
            match lookup(starts, scope) {
                Some(id) => (starts, ends, id, NodeShape::Circle, Some(seq![])),
                None => {
                    let id = "__start_"@ + scope + "__"@;
                    (insert(starts, scope, id), ends, id, NodeShape::Circle, Some(seq![]))
                },
            }
        } else {
            match lookup(ends, scope) {
                Some(id) => (starts, ends, id, NodeShape::DoubleCircle, Some(seq![])),
                None => {
                    let id = "__end_"@ + scope + "__"@;
                    (starts, insert(ends, scope, id), id, NodeShape::DoubleCircle, Some(seq![]))
                },
            }
        }
    } else {
        (starts, ends, strip_quotes(t), NodeShape::RoundRect, None)
    }
}

/// The shape a transition end gets: an existing node keeps its shape unless the
/// end asks for a pseudo-state shape.
pub open spec fn kept_shape(a: AstV, id: Text, shape: NodeShape) -> NodeShape {
    if shape == NodeShape::RoundRect && has_node(a, id) { node_of(a, id).shape } else { shape }
}

/// The state after transition `left tok right : label`.
pub open spec fn state_transition(st: StateSt, left: Text, tok: Text, right: Text, label: Option<Text>) -> StateSt {
    let scope = scope_of(st);
    let (s1, e1, lid, lshape, llabel) = end_token(st.starts, st.ends, left, true, scope);
    let (s2, e2, rid, rshape, rlabel) = end_token(s1, e1, right, false, scope);
    let ldisp = match llabel { Some(l) => Some(l), None => display(st.labels, st.descs, lid) };
    let rdisp = match rlabel { Some(l) => Some(l), None => display(st.labels, st.descs, rid) };
    let a = st.ast;
    let a1 = state_node(a, lid, ldisp, kept_shape(a, lid, lshape));
    let a2 = state_node(a1, rid, rdisp, kept_shape(a, rid, rshape));
    let a3 = add_to_subgraph(a2, st.stack, lid);
    let a4 = add_to_subgraph(a3, st.stack, rid);
    let lt = find_char(tok, '<') is Some;
    let gt = find_char(tok, '>') is Some;
    let e = EdgeV {
        from: lid,
        to: rid,
        label,
        start_label: None,
        end_label: None,
        directed: lt || gt,
        arrow_start: if lt { Some(EdgeArrowhead::Arrow) } else { None },
        arrow_end: if gt { Some(EdgeArrowhead::Arrow) } else { None },
        start_decoration: None,
        end_decoration: None,
        style: if find(tok, ".."@) is Some { EdgeStyle::Dotted } else { EdgeStyle::Solid },
    };
    StateSt { ast: AstV { edges: a4.edges.push(e), ..a4 }, starts: s2, ends: e2, ..st }
}

/// A state declared or described: its node is added (labelled if anything is
/// recorded for it) and joins the enclosing composite state.
pub open spec fn declare(st: StateSt, id: Text, shape: Option<NodeShape>) -> StateSt {
    let a1 = state_node(st.ast, id, display(st.labels, st.descs, id), match shape { Some(s) => s, None => NodeShape::RoundRect });
    StateSt { ast: add_to_subgraph(a1, st.stack, id), ..st }
}

/// The lines a composite header puts back in front of the queue.
pub open spec fn container_pushes(tail: Text) -> Seq<Text> {
    if tail.len() == 0 {
        seq![]
    } else {
        match find_char(tail, '}') {
            Some(c) => {
                let body = trim(tail.take(c));
                let after = trim(tail.skip(c + 1));
                (if body.len() > 0 { seq![body] } else { seq![] }) + seq!["}"@]
                    + (if after.len() > 0 { seq![after] } else { seq![] })
            },
            None => seq![tail],
        }
    }
}

/// The state after a composite header, and the lines it puts back.
pub open spec fn state_container(st: StateSt, h: (Option<Text>, Text, Text)) -> (StateSt, Seq<Text>) {
    let (id, label, tail) = h;
    let idx = st.ast.subgraphs.len();
    let labels1 = match id { Some(i) => insert(st.labels, i, label), None => st.labels };
    let sid = match id { Some(i) => i, None => "__composite_"@ + decimal(idx) + "__"@ };
    let sg = SubgraphV { id: sid, label, direction: None, nodes: seq![], style: plain_style() };
    (
        StateSt {
            ast: AstV { subgraphs: st.ast.subgraphs.push(sg), ..st.ast },
            labels: labels1,
            stack: st.stack.push(idx as usize),
            ..st
        },
        container_pushes(tail),
    )
}

/// One statement: the new state and the lines it puts back in front of the queue.
#[verifier::opaque]
pub open spec fn state_stmt(st: StateSt, raw: Text) -> (StateSt, Seq<Text>) {
    let l0 = trim(raw);
    if l0.len() == 0 || starts_with(l0, "%%"@) {
        (st, seq![])
    } else {
        let (l1, shape, lo) = stereotype(l0);
        let line = trim(l1);
        let lower = lowercase(line);
        if line.len() == 0 || starts_with(lower, "statediagram"@) {
            (st, seq![])
        } else if direction_line_any_case(line) is Some {
            (StateSt { ast: AstV { direction: direction_line_any_case(line)->0, ..st.ast }, ..st }, seq![])
        } else if starts_with(lower, "style "@) || starts_with(lower, "classdef "@) || starts_with(lower, "class "@) {
            (st, seq![])
        } else if line == "}"@ {
            (StateSt { stack: if st.stack.len() > 0 { st.stack.drop_last() } else { st.stack }, ..st }, seq![])
        } else if line == "--"@ {
            (st, seq![])
        } else if container_header(line) is Some {
            state_container(st, container_header(line)->0)
        } else if alias_line(line) is Some {
            let (id, label0) = alias_line(line)->0;
            let label = match lo { Some(l) => l, None => label0 };
            (declare(StateSt { labels: insert(st.labels, id, label), ..st }, id, shape), seq![])
        } else if transition_match(line, 0) is Some {
            let (i, pos) = transition_match(line, 0)->0;
            let tok = transition_tokens()[i];
            let (right, label) = split_label(trim(line.skip(pos + tok.len())));
            (state_transition(st, trim(line.take(pos)), tok, right, label), seq![])
        } else if description_line(line) is Some {
            let (id, desc) = description_line(line)->0;
            let label = match lo { Some(l) => l, None => desc };
            (declare(StateSt { descs: push_under(st.descs, id, label), ..st }, id, shape), seq![])
        } else if note_line(line) is Some {
            let (pos, target, text) = note_line(line)->0;
            let a1 = state_node(st.ast, target, None, NodeShape::RoundRect);
            let note_id = "__note_"@ + pos + "_"@ + target + "__"@;
            let a2 = state_node(a1, note_id, Some(text), NodeShape::Rectangle);
            (StateSt { ast: add_to_subgraph(a2, st.stack, note_id), ..st }, seq![])
        } else if simple_line(line) is Some {
            let id = simple_line(line)->0;
            let labels1 = match lo { Some(l) => insert(st.labels, id, l), None => st.labels };
            (declare(StateSt { labels: labels1, ..st }, id, shape), seq![])
        } else {
            let id = strip_quotes(line);
            if id.len() > 0 && id != "{"@ && id != "}"@ {
                (declare(st, id, shape), seq![])
            } else {
                (st, seq![])
            }
        }
    }
}

/// The statements of a line in order; lines put back by later statements come first.
pub open spec fn stmts_fold(st: StateSt, stmts: Seq<Text>) -> (StateSt, Seq<Text>)
    decreases stmts.len(),
{
    if stmts.len() == 0 {
        (st, seq![])
    } else {
        let (s1, f1) = stmts_fold(st, stmts.drop_last());
        let (s2, p) = state_stmt(s1, stmts.last());
        (s2, p + f1)
    }
}

/// Size of a queue of lines: its characters plus one per line.
pub open spec fn queue_measure(q: Seq<Text>) -> nat
    decreases q.len(),
{
    if q.len() == 0 {
        0
    } else {
        queue_measure(q.drop_last()) + q.last().len() + 1
    }
}

pub proof fn lemma_queue_measure_concat(a: Seq<Text>, b: Seq<Text>)
    ensures
        queue_measure(a + b) == queue_measure(a) + queue_measure(b),
    decreases b.len(),
{
    if b.len() > 0 {
        lemma_queue_measure_concat(a, b.drop_last());
        assert((a + b).drop_last() =~= a + b.drop_last());
    } else {
        assert(a + b =~= a);
    }
}

pub proof fn lemma_queue_measure_single(x: Text)
    ensures
        queue_measure(seq![x]) == x.len() + 1,
{
    reveal_with_fuel(queue_measure, 2);
    assert(seq![x].drop_last() =~= Seq::<Text>::empty());
}

pub proof fn lemma_queue_measure_front(q: Seq<Text>)
    requires
        q.len() > 0,
    ensures
        queue_measure(q) == q[0].len() + 1 + queue_measure(q.skip(1)),
{
    lemma_queue_measure_concat(seq![q[0]], q.skip(1));
    assert(seq![q[0]] + q.skip(1) =~= q);
    lemma_queue_measure_single(q[0]);
}

pub proof fn lemma_trim_len(s: Text)
    ensures
        trim_start(s).len() <= s.len(),
        trim_end(s).len() <= s.len(),
        trim(s).len() <= s.len(),
{
    crate::text::lemma_skip_ws_bounds(s, 0);
    crate::text::lemma_back_ws_bounds(s, s.len() as int);
    let t = trim_start(s);
    crate::text::lemma_back_ws_bounds(t, t.len() as int);
}

pub proof fn lemma_stmt_split_measure(s: Text, i: int, start: int, inq: bool)
    requires
        0 <= start <= i <= s.len(),
    ensures
        queue_measure(stmt_split(s, i, start, inq)) <= s.len() - start + 1,
    decreases s.len() - i,
{
    if i >= s.len() {
        if start < s.len() {
            lemma_queue_measure_single(s.subrange(start, s.len() as int));
        } else {
            assert(queue_measure(Seq::<Text>::empty()) == 0);
        }
    } else if s[i] == '"' {
        lemma_stmt_split_measure(s, i + 1, start, !inq);
    } else if s[i] == ';' && !inq {
        lemma_stmt_split_measure(s, i + 1, i + 1, inq);
        let piece = seq![s.subrange(start, i)];
        lemma_queue_measure_concat(piece, stmt_split(s, i + 1, i + 1, inq));
        lemma_queue_measure_single(s.subrange(start, i));
    } else {
        lemma_stmt_split_measure(s, i + 1, start, inq);
    }
}

pub proof fn lemma_statements_measure(s: Text)
    ensures
        queue_measure(statements(s)) <= s.len() + 1,
        statements(s).len() >= 1,
{
    lemma_stmt_split_measure(s, 0, 0, false);
    if stmt_split(s, 0, 0, false).len() == 0 {
        lemma_queue_measure_single(s);
    }
}

pub proof fn lemma_stereotype_len(l0: Text)
    ensures
        stereotype(l0).0.len() <= l0.len(),
{
    let t = trim(l0);
    lemma_trim_len(l0);
    if starts_with(t, "state "@) {
        crate::text::lemma_find_from_props(t, "<<"@, 0);
        match find(t, "<<"@) {
            None => {},
            Some(st) => {
                crate::text::lemma_find_from_props(t.skip(st + 2), ">>"@, 0);
                match find(t.skip(st + 2), ">>"@) {
                    None => {},
                    Some(e) => {
                        reveal_strlit("<<");
                        reveal_strlit(">>");
                        reveal_strlit(" ");
                        assert(st + 2 <= t.len());
                        assert(e + 2 <= t.len() - st - 2);
                        lemma_trim_len(t.take(st));
                        lemma_trim_len(t.skip(st + 2 + e + 2));
                        let before = trim_end(t.take(st));
                        let after = trim_start(t.skip(st + 2 + e + 2));
                        assert(before.len() <= st);
                        assert(after.len() <= t.len() - (st + 2 + e + 2));
                        assert((before + " "@ + after).len() == before.len() + 1 + after.len());
                    },
                }
            },
        }
    }
}

pub proof fn lemma_container_pushes(tail: Text)
    ensures
        queue_measure(container_pushes(tail)) <= tail.len() + 3,
{
    if tail.len() > 0 {
        crate::text::lemma_find_from_props(tail, seq!['}'], 0);
        match find_char(tail, '}') {
            Some(c) => {
                let body = trim(tail.take(c));
                let after = trim(tail.skip(c + 1));
                lemma_trim_len(tail.take(c));
                lemma_trim_len(tail.skip(c + 1));
                let b: Seq<Text> = if body.len() > 0 { seq![body] } else { seq![] };
                let a: Seq<Text> = if after.len() > 0 { seq![after] } else { seq![] };
                lemma_queue_measure_concat(b, seq!["}"@]);
                lemma_queue_measure_concat(b + seq!["}"@], a);
                lemma_queue_measure_single("}"@);
                lemma_queue_measure_single(body);
                lemma_queue_measure_single(after);
                assert(queue_measure(Seq::<Text>::empty()) == 0);
                reveal_strlit("}");
            },
            None => {
                lemma_queue_measure_single(tail);
            },
        }
    }
}

pub proof fn lemma_container_tail(line: Text)
    requires
        container_header(line) is Some,
    ensures
        container_header(line) matches Some((_, _, tail)) && tail.len() + 7 <= line.len(),
{
    let t = trim(line);
    lemma_trim_len(line);
    crate::text::lemma_find_from_props(t, seq!['{'], 0);
    let b = find_char(t, '{')->0;
    reveal_strlit("state ");
    assert(crate::text::matches_at(t, seq!['{'], b));
    assert(t.subrange(b, b + 1)[0] == t[b]);
    assert(t[b] == '{');
    if b < 6 {
        assert(t[b] == "state "@[b]);
    }
    lemma_trim_len(t.skip(b + 1));
}

pub proof fn lemma_stmt_pushes(st: StateSt, raw: Text)
    ensures
        queue_measure(state_stmt(st, raw).1) <= raw.len(),
{
    reveal(state_stmt);
    let l0 = trim(raw);
    lemma_trim_len(raw);
    if !(l0.len() == 0 || starts_with(l0, "%%"@)) {
        let (l1, shape, lo) = stereotype(l0);
        lemma_stereotype_len(l0);
        let line = trim(l1);
        lemma_trim_len(l1);
        if container_header(line) is Some {
            lemma_container_tail(line);
            let (_, _, tail) = container_header(line)->0;
            lemma_container_pushes(tail);
        }
    }
    assert(queue_measure(Seq::<Text>::empty()) == 0);
}

pub proof fn lemma_stmts_fold_measure(st: StateSt, stmts: Seq<Text>)
    ensures
        queue_measure(stmts_fold(st, stmts).1) + stmts.len() <= queue_measure(stmts),
    decreases stmts.len(),
{
    if stmts.len() > 0 {
        lemma_stmts_fold_measure(st, stmts.drop_last());
        let (s1, f1) = stmts_fold(st, stmts.drop_last());
        lemma_stmt_pushes(s1, stmts.last());
        lemma_queue_measure_concat(state_stmt(s1, stmts.last()).1, f1);
    }
}

pub proof fn lemma_line_measure(st: StateSt, line: Text)
    ensures
        queue_measure(stmts_fold(st, statements(line)).1) <= line.len(),
{
    lemma_statements_measure(line);
    lemma_stmts_fold_measure(st, statements(line));
}

/// The state after reading every queued line; a composite header's inline body
/// goes back to the front of the queue.
pub open spec fn state_run(st: StateSt, pending: Seq<Text>) -> StateSt
    decreases queue_measure(pending),
{
    if pending.len() == 0 {
        st
    } else {
        let (s1, front) = stmts_fold(st, statements(pending[0]));
        proof {
            lemma_line_measure(st, pending[0]);
            lemma_queue_measure_front(pending);
            lemma_queue_measure_concat(front, pending.skip(1));
        }
        state_run(s1, front + pending.skip(1))
    }
}

/// State before the first line.
pub open spec fn state_init() -> StateSt {
    StateSt {
        ast: empty_ast(DiagramKind::State),
        labels: seq![],
        descs: seq![],
        starts: seq![],
        ends: seq![],
        stack: seq![],
    }
}

/// The model a state diagram source describes.
pub open spec fn state_model(s: Seq<char>) -> AstV {
    state_run(state_init(), lines(s)).ast
}


// ---------------------------------------------------------------------------
// Distinct states
// ---------------------------------------------------------------------------

proof fn lemma_add_to_subgraph_unique(a: AstV, stack: Seq<usize>, id: Text)
    requires
        unique_ids(a.nodes),
    ensures
        unique_ids(add_to_subgraph(a, stack, id).nodes),
        add_to_subgraph(a, stack, id).kind == a.kind,
{
    if stack.len() > 0 {
        let idx = stack.last();
        let a1 = if idx < a.subgraphs.len() && first_index(a.subgraphs[idx as int].nodes, id) is None {
            AstV {
                subgraphs: a.subgraphs.update(
                    idx as int,
                    SubgraphV { nodes: a.subgraphs[idx as int].nodes.push(id), ..a.subgraphs[idx as int] },
                ),
                ..a
            }
        } else {
            a
        };
        match first_index(node_ids(a1.nodes), id) {
            Some(j) => {
                crate::model::lemma_first_index(node_ids(a1.nodes), id);
                crate::model::lemma_same_ids_unique(a1.nodes, add_to_subgraph(a, stack, id).nodes);
            },
            None => {},
        }
    }
}

proof fn lemma_state_node_unique(a: AstV, id: Text, label: Option<Text>, shape: NodeShape)
    requires
        unique_ids(a.nodes),
    ensures
        unique_ids(state_node(a, id, label, shape).nodes),
{
    lemma_ensure_node_unique(a, plain_node(id, match label { Some(l) => l, None => id }, shape));
}

proof fn lemma_declare_unique(st: StateSt, id: Text, shape: Option<NodeShape>)
    requires
        unique_ids(st.ast.nodes),
    ensures
        unique_ids(declare(st, id, shape).ast.nodes),
        declare(st, id, shape).ast.kind == st.ast.kind,
{
    let s = match shape { Some(s) => s, None => NodeShape::RoundRect };
    lemma_state_node_unique(st.ast, id, display(st.labels, st.descs, id), s);
    lemma_add_to_subgraph_unique(state_node(st.ast, id, display(st.labels, st.descs, id), s), st.stack, id);
}

proof fn lemma_transition_unique(st: StateSt, left: Text, tok: Text, right: Text, label: Option<Text>)
    requires
        unique_ids(st.ast.nodes),
    ensures
        unique_ids(state_transition(st, left, tok, right, label).ast.nodes),
        state_transition(st, left, tok, right, label).ast.kind == st.ast.kind,
{
    let scope = scope_of(st);
    let (s1, e1, lid, lshape, llabel) = end_token(st.starts, st.ends, left, true, scope);
    let (s2, e2, rid, rshape, rlabel) = end_token(s1, e1, right, false, scope);
    let ldisp = match llabel { Some(l) => Some(l), None => display(st.labels, st.descs, lid) };
    let rdisp = match rlabel { Some(l) => Some(l), None => display(st.labels, st.descs, rid) };
    let a = st.ast;
    lemma_state_node_unique(a, lid, ldisp, kept_shape(a, lid, lshape));
    let a1 = state_node(a, lid, ldisp, kept_shape(a, lid, lshape));
    lemma_state_node_unique(a1, rid, rdisp, kept_shape(a, rid, rshape));
    let a2 = state_node(a1, rid, rdisp, kept_shape(a, rid, rshape));
    lemma_add_to_subgraph_unique(a2, st.stack, lid);
    lemma_add_to_subgraph_unique(add_to_subgraph(a2, st.stack, lid), st.stack, rid);
}

proof fn lemma_stmt_unique(st: StateSt, raw: Text)
    requires
        unique_ids(st.ast.nodes),
    ensures
        unique_ids(state_stmt(st, raw).0.ast.nodes),
        state_stmt(st, raw).0.ast.kind == st.ast.kind,
{
    reveal(state_stmt);
    let l0 = trim(raw);
    if l0.len() == 0 || starts_with(l0, "%%"@) {
    } else {
        let (l1, shape, lo) = stereotype(l0);
        let line = trim(l1);
        let lower = lowercase(line);
        if line.len() == 0 || starts_with(lower, "statediagram"@) {
        } else if direction_line_any_case(line) is Some {
        } else if starts_with(lower, "style "@) || starts_with(lower, "classdef "@) || starts_with(lower, "class "@) {
        } else if line == "}"@ || line == "--"@ {
        } else if container_header(line) is Some {
        } else if alias_line(line) is Some {
            let (id, label0) = alias_line(line)->0;
            let label = match lo { Some(l) => l, None => label0 };
            lemma_declare_unique(StateSt { labels: insert(st.labels, id, label), ..st }, id, shape);
        } else if transition_match(line, 0) is Some {
            let (i, pos) = transition_match(line, 0)->0;
            let tok = transition_tokens()[i];
            let (right, label) = split_label(trim(line.skip(pos + tok.len())));
            lemma_transition_unique(st, trim(line.take(pos)), tok, right, label);
        } else if description_line(line) is Some {
            let (id, desc) = description_line(line)->0;
            let label = match lo { Some(l) => l, None => desc };
            lemma_declare_unique(StateSt { descs: push_under(st.descs, id, label), ..st }, id, shape);
        } else if note_line(line) is Some {
            let (pos, target, text) = note_line(line)->0;
            lemma_state_node_unique(st.ast, target, None, NodeShape::RoundRect);
            let a1 = state_node(st.ast, target, None, NodeShape::RoundRect);
            let note_id = "__note_"@ + pos + "_"@ + target + "__"@;
            lemma_state_node_unique(a1, note_id, Some(text), NodeShape::Rectangle);
            lemma_add_to_subgraph_unique(state_node(a1, note_id, Some(text), NodeShape::Rectangle), st.stack, note_id);
        } else if simple_line(line) is Some {
            let id = simple_line(line)->0;
            let labels1 = match lo { Some(l) => insert(st.labels, id, l), None => st.labels };
            lemma_declare_unique(StateSt { labels: labels1, ..st }, id, shape);
        } else {
            let id = strip_quotes(line);
            if id.len() > 0 && id != "{"@ && id != "}"@ {
                lemma_declare_unique(st, id, shape);
            }
        }
    }
}

proof fn lemma_stmts_fold_unique(st: StateSt, stmts: Seq<Text>)
    requires
        unique_ids(st.ast.nodes),
    ensures
        unique_ids(stmts_fold(st, stmts).0.ast.nodes),
        stmts_fold(st, stmts).0.ast.kind == st.ast.kind,
    decreases stmts.len(),
{
    if stmts.len() > 0 {
        lemma_stmts_fold_unique(st, stmts.drop_last());
        lemma_stmt_unique(stmts_fold(st, stmts.drop_last()).0, stmts.last());
    }
}

proof fn lemma_state_run_unique(st: StateSt, pending: Seq<Text>)
    requires
        unique_ids(st.ast.nodes),
    ensures
        unique_ids(state_run(st, pending).ast.nodes),
        state_run(st, pending).ast.kind == st.ast.kind,
    decreases queue_measure(pending),
{
    if pending.len() > 0 {
        let (s1, front) = stmts_fold(st, statements(pending[0]));
        lemma_line_measure(st, pending[0]);
        lemma_queue_measure_front(pending);
        lemma_queue_measure_concat(front, pending.skip(1));
        lemma_stmts_fold_unique(st, statements(pending[0]));
        lemma_state_run_unique(s1, front + pending.skip(1));
    }
}

/// The states of a parsed state diagram have distinct ids.
pub proof fn lemma_state_model_unique(s: Seq<char>)
    ensures
        unique_ids(state_model(s).nodes),
        state_model(s).kind == DiagramKind::State,
{
    lemma_state_run_unique(state_init(), lines(s));
}


/// Law: a note stands on the side its line names. When `note_line` reads a
/// line, the side it gives is `left` or `right`, and the words after `note`
/// begin with that side followed by ` of `; a line whose words after `note`
/// begin with `right of` never gives `left`, and the other way round.
pub proof fn law_note_side(line: Text)
    ensures
        match note_line(line) {
            Some((side, _, _)) => {
                let after = lowercase(trim(trim(line).skip(4)));
                &&& (side == "left"@ || side == "right"@)
                &&& starts_with(after, side + " of "@)
            },
            None => true,
        },
{
    reveal_strlit("left");
    reveal_strlit("right");
    reveal_strlit(" of ");
    reveal_strlit("left of ");
    reveal_strlit("right of ");
    assert("left"@ + " of "@ =~= "left of "@);
    assert("right"@ + " of "@ =~= "right of "@);
}


/// A state id that can carry a stereotype: not blank at either end, and
/// without `<` or `>`.
pub open spec fn stereotype_id(x: Text) -> bool {
    &&& x.len() > 0
    &&& !crate::text::is_ws(x[0]) && !crate::text::is_ws(x[x.len() - 1])
    &&& forall|i: int| 0 <= i < x.len() ==> #[trigger] x[i] != '<' && x[i] != '>'
}

/// The first occurrence of `p` in `t` is at `k` when `p` occurs there and at no
/// earlier place.
proof fn lemma_first_at(t: Text, p: Text, k: int)
    requires
        0 <= k,
        crate::text::matches_at(t, p, k),
        forall|j: int| 0 <= j < k ==> !#[trigger] crate::text::matches_at(t, p, j),
    ensures
        find(t, p) == Some(k),
{
    crate::text::lemma_find_from_props(t, p, 0);
    if find(t, p) is Some {
        let f = find(t, p)->0;
        if f < k {
            assert(crate::text::matches_at(t, p, f));
        }
    }
}

/// The line `state x <<w>>`.
pub open spec fn stereo_line(x: Text, w: Text) -> Text {
    "state "@ + x + " <<"@ + w + ">>"@
}

/// A word of lower-case letters.
pub open spec fn lower_word(w: Text) -> bool {
    w.len() > 0 && forall|i: int| 0 <= i < w.len() ==> 'a' <= #[trigger] w[i] <= 'z'
}

proof fn lemma_stereo_chars(x: Text, w: Text)
    ensures
        ({
            let t = stereo_line(x, w);
            let lx = x.len() as int;
            let lw = w.len() as int;
            &&& t.len() == lx + lw + 11
            &&& forall|i: int| 0 <= i < 6 ==> #[trigger] t[i] == "state "@[i]
            &&& forall|i: int| 0 <= i < lx ==> #[trigger] t[6 + i] == x[i]
            &&& t[6 + lx] == ' ' && t[7 + lx] == '<' && t[8 + lx] == '<'
            &&& forall|i: int| 0 <= i < lw ==> #[trigger] t[9 + lx + i] == w[i]
            &&& t[9 + lx + lw] == '>' && t[10 + lx + lw] == '>'
            &&& t.take(6) == "state "@
        }),
{
    reveal_strlit("state ");
    reveal_strlit(" <<");
    reveal_strlit(">>");
    let t = stereo_line(x, w);
    assert(t.take(6) =~= "state "@);
}

proof fn lemma_stereo_open(x: Text, w: Text)
    requires
        stereotype_id(x),
        lower_word(w),
    ensures
        trim(stereo_line(x, w)) == stereo_line(x, w),
        starts_with(stereo_line(x, w), "state "@),
        find(stereo_line(x, w), "<<"@) == Some(x.len() as int + 7),
{
    reveal_strlit("state ");
    reveal_strlit("<<");
    lemma_stereo_chars(x, w);
    let t = stereo_line(x, w);
    let n = t.len() as int;
    let lx = x.len() as int;
    let p = lx + 7;
    assert(t[0] == "state "@[0]);
    assert(crate::text::skip_ws(t, 0) == 0);
    assert(trim_start(t) =~= t);
    assert(crate::text::back_ws(t, n) == n);
    assert(trim(t) =~= t);
    assert(t.subrange(0, 6) =~= "state "@);
    assert(t.subrange(p, p + 2) =~= "<<"@);
    assert forall|j: int| 0 <= j < p implies !#[trigger] crate::text::matches_at(t, "<<"@, j) by {
        if crate::text::matches_at(t, "<<"@, j) {
            assert(t.subrange(j, j + 2)[0] == t[j]);
            if j < 6 {
                assert(t[j] == "state "@[j]);
            } else if j < 6 + lx {
                assert(t[6 + (j - 6)] == x[j - 6]);
            }
        }
    }
    lemma_first_at(t, "<<"@, p);
}

proof fn lemma_stereo_close(x: Text, w: Text)
    requires
        lower_word(w),
    ensures
        find(stereo_line(x, w).skip(x.len() as int + 9), ">>"@) == Some(w.len() as int),
        lowercase(trim(stereo_line(x, w).subrange(x.len() as int + 9, x.len() as int + 9 + w.len()))) == w,
        trim_start(stereo_line(x, w).skip(x.len() as int + 9 + w.len() + 2)) == Seq::<char>::empty(),
{
    reveal_strlit(">>");
    lemma_stereo_chars(x, w);
    let t = stereo_line(x, w);
    let lx = x.len() as int;
    let lw = w.len() as int;
    let u = t.skip(lx + 9);
    assert(u.len() == lw + 2);
    assert forall|i: int| 0 <= i < lw implies u[i] == w[i] by {
        assert(t[9 + lx + i] == w[i]);
    }
    assert(u[lw] == '>' && u[lw + 1] == '>');
    assert(u.subrange(lw, lw + 2) =~= ">>"@);
    assert forall|j: int| 0 <= j < lw implies !#[trigger] crate::text::matches_at(u, ">>"@, j) by {
        if crate::text::matches_at(u, ">>"@, j) {
            assert(u.subrange(j, j + 2)[0] == u[j]);
        }
    }
    lemma_first_at(u, ">>"@, lw);
    let v = t.subrange(lx + 9, lx + 9 + lw);
    assert forall|i: int| 0 <= i < lw implies v[i] == w[i] by {
        assert(t[9 + lx + i] == w[i]);
    }
    assert(v =~= w);
    assert(crate::text::skip_ws(w, 0) == 0);
    assert(trim_start(w) =~= w);
    assert(crate::text::back_ws(w, lw) == lw);
    assert(trim(w) =~= w);
    assert(lowercase(w) =~= w);
    assert(t.skip(lx + 9 + lw + 2) =~= Seq::<char>::empty());
}

proof fn lemma_stereo_before(x: Text, w: Text)
    requires
        stereotype_id(x),
    ensures
        trim_end(stereo_line(x, w).take(x.len() as int + 7)) == "state "@ + x,
{
    reveal_strlit("state ");
    lemma_stereo_chars(x, w);
    let t = stereo_line(x, w);
    let lx = x.len() as int;
    let p = lx + 7;
    let b = t.take(p);
    assert(b[p - 1] == ' ');
    assert(b[p - 2] == t[6 + (lx - 1)]);
    assert(b[p - 2] == x[lx - 1]);
    assert(crate::text::back_ws(b, p - 1) == p - 1);
    assert(crate::text::back_ws(b, p) == p - 1);
    assert forall|i: int| 0 <= i < p - 1 implies b[i] == ("state "@ + x)[i] by {
        if i < 6 {
            assert(t[i] == "state "@[i]);
        } else {
            assert(t[6 + (i - 6)] == x[i - 6]);
        }
    }
    assert(trim_end(b) =~= "state "@ + x);
}

proof fn lemma_stereo_word(x: Text, w: Text)
    requires
        stereotype_id(x),
        lower_word(w),
    ensures
        ({
            let t = stereo_line(x, w);
            let p = x.len() as int + 7;
            let e = w.len() as int;
            &&& trim(t) == t
            &&& starts_with(t, "state "@)
            &&& find(t, "<<"@) == Some(p)
            &&& find(t.skip(p + 2), ">>"@) == Some(e)
            &&& lowercase(trim(t.subrange(p + 2, p + 2 + e))) == w
            &&& trim_end(t.take(p)) == "state "@ + x
            &&& trim_start(t.skip(p + 2 + e + 2)) == Seq::<char>::empty()
        }),
{
    lemma_stereo_open(x, w);
    lemma_stereo_close(x, w);
    lemma_stereo_before(x, w);
}

/// Law: a stereotype picks the shape of the state it follows, whatever the
/// state's id. `state x <<choice>>` is a diamond, `<<fork>>` and `<<join>>` are
/// bars (a rectangle with an empty label); the line without the stereotype is
/// `state x`.
pub proof fn law_stereotypes(x: Text)
    requires
        stereotype_id(x),
    ensures
        stereotype(stereo_line(x, "choice"@)) == ("state "@ + x, Some(NodeShape::Diamond), None::<Text>),
        stereotype(stereo_line(x, "fork"@)) == ("state "@ + x, Some(NodeShape::Rectangle), Some(Seq::<char>::empty())),
        stereotype(stereo_line(x, "join"@)) == ("state "@ + x, Some(NodeShape::Rectangle), Some(Seq::<char>::empty())),
{
    reveal_strlit("choice");
    reveal_strlit("fork");
    reveal_strlit("join");
    lemma_stereo_word(x, "choice"@);
    lemma_stereo_word(x, "fork"@);
    lemma_stereo_word(x, "join"@);
    assert("choice"@ != "fork"@ && "choice"@ != "join"@ && "fork"@ != "join"@) by {
        assert("choice"@[0] != "fork"@[0] && "choice"@[0] != "join"@[0] && "fork"@[0] != "join"@[0]);
    }
}

} // verus!
