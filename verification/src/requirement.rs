//! `requirementDiagram` sources: requirements and elements with attribute
//! bodies, and typed relations between them written either way round.

use vstd::prelude::*;
use crate::text::{
    trim, trim_chars, starts_with, starts_with_exec, find_char, find_char_exec, lit, slice_of,
    suffix, lines, lines_exec, lowercase, lowercase_exec, split_once, split_once_exec,
    split_once_char_exec, split_ws_once, split_ws_once_exec, join, join_exec, views, str_chars,
    copy_chars, chars_eq, append_chars, lemma_views_push,
};
use crate::syntax::{
    trim_char, trim_char_exec, trim_start_char, trim_start_char_exec, trim_end_char,
    trim_end_char_exec,
};
use crate::diagram::{
    Text, NodeShape, EdgeStyle, EdgeArrowhead, DiagramKind, AstOf, EdgeOf, DiagramAst, AstV,
    NodeV, EdgeV, deep,
};
use crate::model::{
    lookup, push_under, ensure_node, plain_node, empty_ast, tl_view, tl_get, tl_push,
    plain_node_exec, ensure_node_exec, empty_ast_exec, push_edge, set_node_label, opt_text,
    unique_ids, lemma_ensure_node_unique, lemma_same_ids_unique,
};
use crate::er::{direction_directive, direction_directive_exec, unquote, unquote_exec};
use crate::error::CoreError;
use crate::convert::conv_ast;

verus! {

// ---------------------------------------------------------------------------
// Model
// ---------------------------------------------------------------------------

/// Display name of an element kind; unknown kinds show lower-cased.
pub open spec fn kind_label(kind: Text) -> Text {
    let k = lowercase(kind);
    if k == "requirement"@ {
        "Requirement"@
    } else if k == "functionalrequirement"@ {
        "Functional Requirement"@
    } else if k == "interfacerequirement"@ {
        "Interface Requirement"@
    } else if k == "performancerequirement"@ {
        "Performance Requirement"@
    } else if k == "physicalrequirement"@ {
        "Physical Requirement"@
    } else if k == "designconstraint"@ {
        "Design Constraint"@
    } else if k == "element"@ {
        "Element"@
    } else {
        k
    }
}

/// Display name of an attribute key.
pub open spec fn attr_key(key: Text) -> Text {
    if key == "id"@ {
        "ID"@
    } else if key == "text"@ {
        "Text"@
    } else if key == "risk"@ {
        "Risk"@
    } else if key == "verifymethod"@ || key == "verification"@ {
        "Verification"@
    } else if key == "docref"@ {
        "Doc Ref"@
    } else {
        kind_label(key)
    }
}

/// An attribute line as shown: `Key: value`, or the key alone.
pub open spec fn normalize_attr(line: Text) -> Text {
    match split_once(line, ":"@) {
        Some((k, v)) => {
            let key = attr_key(lowercase(trim(k)));
            let value = unquote(v);
            if value.len() == 0 { key } else { key + ": "@ + value }
        },
        None => unquote(line),
    }
}

/// Relation types.
pub open spec fn is_relation(rel: Text) -> bool {
    rel == "contains"@ || rel == "copies"@ || rel == "derives"@ || rel == "satisfies"@
        || rel == "verifies"@ || rel == "refines"@ || rel == "traces"@
}

/// The relation type written between the dashes and arrow marks.
pub open spec fn relation_type(raw: Text) -> Option<Text> {
    let rel = lowercase(trim(trim_end_char(trim_start_char(trim(trim_char(trim(raw), '-')), '<'), '>')));
    if is_relation(rel) { Some(rel) } else { None }
}

/// `A -type-> B` or `B <-type- A`: (from, type, to).
pub open spec fn relation_line(line: Text) -> Option<(Text, Text, Text)> {
    match split_once(line, "->"@) {
        Some((left, right)) => {
            let to = unquote(right);
            match split_once(trim(left), "-"@) {
                None => None,
                Some((fp, rp)) => {
                    let from = unquote(fp);
                    match relation_type(rp) {
                        Some(rel) => if from.len() == 0 || to.len() == 0 { None } else { Some((from, rel, to)) },
                        None => None,
                    }
                },
            }
        },
        None => match split_once(line, "<-"@) {
            Some((left, right)) => {
                let to = unquote(left);
                match split_once(trim(right), "-"@) {
                    None => None,
                    Some((rp, fp)) => {
                        let from = unquote(fp);
                        match relation_type(rp) {
                            Some(rel) => if from.len() == 0 || to.len() == 0 { None } else { Some((from, rel, to)) },
                            None => None,
                        }
                    },
                }
            },
            None => None,
        },
    }
}

/// `kind id`: (kind, id).
pub open spec fn req_header(h: Text) -> Option<(Text, Text)> {
    match split_ws_once(trim(h)) {
        (k, Some(r)) => {
            let kind = trim(k);
            let rest = trim(r);
            let id = trim_char(rest, '"');
            if kind.len() == 0 || rest.len() == 0 || id.len() == 0 { None } else { Some((kind, id)) }
        },
        (_, None) => None,
    }
}

/// A declared element, labelled with its kind above its id.
pub open spec fn declared(a: AstV, kind: Text, id: Text) -> AstV {
    let kl = kind_label(kind);
    let label = if kl.len() == 0 { id } else { "<<"@ + kl + ">>\n"@ + id };
    ensure_node(a, plain_node(id, label, NodeShape::Rectangle))
}

/// An element met in a relation before its declaration.
pub open spec fn mentioned(a: AstV, id: Text) -> AstV {
    ensure_node(a, plain_node(id, id, NodeShape::Rectangle))
}

/// The edge of a relation.
pub open spec fn req_edge(from: Text, rel: Text, to: Text) -> EdgeV {
    EdgeV {
        from,
        to,
        label: Some(rel),
        start_label: None,
        end_label: None,
        directed: true,
        arrow_start: None,
        arrow_end: Some(EdgeArrowhead::Arrow),
        start_decoration: None,
        end_decoration: None,
        style: EdgeStyle::Solid,
    }
}

/// Parser state: the model, each element's attribute lines, the open body.
pub struct ReqSt {
    pub ast: AstV,
    pub attrs: Seq<(Text, Seq<Text>)>,
    pub current: Option<Text>,
}

/// A line that opens a body (`kind id {`, possibly closed on the same line).
pub open spec fn req_body(st: ReqSt, line: Text, open: int) -> ReqSt {
    match req_header(trim(line.take(open))) {
        None => st,
        Some((kind, id)) => {
            let a = declared(st.ast, kind, id);
            let tail = trim(line.skip(open + 1));
            match find_char(tail, '}') {
                Some(c) => {
                    let frag = trim(tail.take(c));
                    ReqSt {
                        ast: a,
                        attrs: if frag.len() > 0 { push_under(st.attrs, id, frag) } else { st.attrs },
                        current: None,
                    }
                },
                None => ReqSt {
                    ast: a,
                    attrs: if tail.len() > 0 { push_under(st.attrs, id, tail) } else { st.attrs },
                    current: Some(id),
                },
            }
        },
    }
}

/// One line.
pub open spec fn req_step(st: ReqSt, raw: Text) -> ReqSt {
    let line = trim(raw);
    if line.len() == 0 || starts_with(line, "%%"@) || starts_with(lowercase(line), "requirementdiagram"@) {
        st
    } else if direction_directive(line) is Some {
        ReqSt { ast: AstV { direction: direction_directive(line)->0, ..st.ast }, ..st }
    } else if st.current is Some {
        let active = st.current->0;
        match find_char(line, '}') {
            Some(e) => {
                let frag = trim(line.take(e));
                ReqSt {
                    attrs: if frag.len() > 0 { push_under(st.attrs, active, frag) } else { st.attrs },
                    current: None,
                    ..st
                }
            },
            None => ReqSt { attrs: push_under(st.attrs, active, line), ..st },
        }
    } else if relation_line(line) is Some {
        let (from, rel, to) = relation_line(line)->0;
        let a = mentioned(mentioned(st.ast, from), to);
        ReqSt { ast: AstV { edges: a.edges.push(req_edge(from, rel, to)), ..a }, ..st }
    } else if find_char(line, '{') is Some {
        req_body(st, line, find_char(line, '{')->0)
    } else {
        match req_header(line) {
            Some((kind, id)) => ReqSt { ast: declared(st.ast, kind, id), ..st },
            None => st,
        }
    }
}

/// State after the first `n` lines.
pub open spec fn req_run(ls: Seq<Text>, n: int) -> ReqSt
    decreases n,
{
    if n <= 0 {
        ReqSt { ast: empty_ast(DiagramKind::Requirement), attrs: seq![], current: None }
    } else {
        req_step(req_run(ls, n - 1), ls[n - 1])
    }
}

/// A node with its attribute lines, each shown as `Key: value`, under its label.
pub open spec fn with_attrs(attrs: Seq<(Text, Seq<Text>)>, n: NodeV) -> NodeV {
    match lookup(attrs, n.id) {
        Some(xs) => if xs.len() > 0 {
            NodeV { label: join(seq![n.label] + xs.map_values(|x: Text| normalize_attr(x)), "\n"@), ..n }
        } else {
            n
        },
        None => n,
    }
}

/// The model a requirement diagram source describes.
pub open spec fn req_model(s: Seq<char>) -> AstV {
    let st = req_run(lines(s), lines(s).len() as int);
    AstV { nodes: st.ast.nodes.map_values(|n: NodeV| with_attrs(st.attrs, n)), ..st.ast }
}

// ---------------------------------------------------------------------------
// Parser
// ---------------------------------------------------------------------------

fn kind_label_exec(kind: &Vec<char>) -> (r: Vec<char>)
    ensures
        r@ == kind_label(kind@),
{
    let k = lowercase_exec(kind);
    if chars_eq(&k, &lit("requirement")) {
        lit("Requirement")
    } else if chars_eq(&k, &lit("functionalrequirement")) {
        lit("Functional Requirement")
    } else if chars_eq(&k, &lit("interfacerequirement")) {
        lit("Interface Requirement")
    } else if chars_eq(&k, &lit("performancerequirement")) {
        lit("Performance Requirement")
    } else if chars_eq(&k, &lit("physicalrequirement")) {
        lit("Physical Requirement")
    } else if chars_eq(&k, &lit("designconstraint")) {
        lit("Design Constraint")
    } else if chars_eq(&k, &lit("element")) {
        lit("Element")
    } else {
        k
    }
}

fn attr_key_exec(key: &Vec<char>) -> (r: Vec<char>)
    ensures
        r@ == attr_key(key@),
{
    if chars_eq(key, &lit("id")) {
        lit("ID")
    } else if chars_eq(key, &lit("text")) {
        lit("Text")
    } else if chars_eq(key, &lit("risk")) {
        lit("Risk")
    } else if chars_eq(key, &lit("verifymethod")) || chars_eq(key, &lit("verification")) {
        lit("Verification")
    } else if chars_eq(key, &lit("docref")) {
        lit("Doc Ref")
    } else {
        kind_label_exec(key)
    }
}

fn normalize_attr_exec(line: &Vec<char>) -> (r: Vec<char>)
    ensures
        r@ == normalize_attr(line@),
{
    match split_once_exec(line, &lit(":")) {
        Some((k, v)) => {
            let key = attr_key_exec(&lowercase_exec(&trim_chars(&k)));
            let value = unquote_exec(&v);
            if value.len() == 0 {
                key
            } else {
                let mut t = key;
                append_chars(&mut t, &lit(": "));
                append_chars(&mut t, &value);
                t
            }
        },
        None => unquote_exec(line),
    }
}

fn relation_type_exec(raw: &Vec<char>) -> (r: Option<Vec<char>>)
    ensures
        opt_text(r) == relation_type(raw@),
{
    let t = trim_chars(&trim_char_exec(&trim_chars(raw), '-'));
    let rel = lowercase_exec(&trim_chars(&trim_end_char_exec(&trim_start_char_exec(&t, '<'), '>')));
    if chars_eq(&rel, &lit("contains")) || chars_eq(&rel, &lit("copies")) || chars_eq(&rel, &lit("derives"))
        || chars_eq(&rel, &lit("satisfies")) || chars_eq(&rel, &lit("verifies")) || chars_eq(&rel, &lit("refines"))
        || chars_eq(&rel, &lit("traces")) {
        Some(rel)
    } else {
        None
    }
}

fn relation_line_exec(line: &Vec<char>) -> (r: Option<(Vec<char>, Vec<char>, Vec<char>)>)
    ensures
        match r {
            Some((f, rel, t)) => relation_line(line@) == Some((f@, rel@, t@)),
            None => relation_line(line@) is None,
        },
{
    match split_once_exec(line, &lit("->")) {
        Some((left, right)) => {
            let to = unquote_exec(&right);
            match split_once_exec(&trim_chars(&left), &lit("-")) {
                None => None,
                Some((fp, rp)) => {
                    let from = unquote_exec(&fp);
                    match relation_type_exec(&rp) {
                        Some(rel) => if from.len() == 0 || to.len() == 0 { None } else { Some((from, rel, to)) },
                        None => None,
                    }
                },
            }
        },
        None => match split_once_exec(line, &lit("<-")) {
            Some((left, right)) => {
                let to = unquote_exec(&left);
                match split_once_exec(&trim_chars(&right), &lit("-")) {
                    None => None,
                    Some((rp, fp)) => {
                        let from = unquote_exec(&fp);
                        match relation_type_exec(&rp) {
                            Some(rel) => if from.len() == 0 || to.len() == 0 { None } else { Some((from, rel, to)) },
                            None => None,
                        }
                    },
                }
            },
            None => None,
        },
    }
}

fn req_header_exec(h: &Vec<char>) -> (r: Option<(Vec<char>, Vec<char>)>)
    ensures
        match r {
            Some((k, id)) => req_header(h@) == Some((k@, id@)),
            None => req_header(h@) is None,
        },
{
    match split_ws_once_exec(&trim_chars(h)) {
        (k, Some(r)) => {
            let kind = trim_chars(&k);
            let rest = trim_chars(&r);
            let id = trim_char_exec(&rest, '"');
            if kind.len() == 0 || rest.len() == 0 || id.len() == 0 { None } else { Some((kind, id)) }
        },
        (_, None) => None,
    }
}

fn declared_exec(a: &mut AstOf<Vec<char>>, kind: &Vec<char>, id: &Vec<char>)
    ensures
        final(a)@ == declared(old(a)@, kind@, id@),
{
    let kl = kind_label_exec(kind);
    let label = if kl.len() == 0 {
        copy_chars(id)
    } else {
        let mut t = lit("<<");
        append_chars(&mut t, &kl);
        append_chars(&mut t, &lit(">>\n"));
        append_chars(&mut t, id);
        t
    };
    ensure_node_exec(a, plain_node_exec(copy_chars(id), label, NodeShape::Rectangle));
}

fn mentioned_exec(a: &mut AstOf<Vec<char>>, id: &Vec<char>)
    ensures
        final(a)@ == mentioned(old(a)@, id@),
{
    ensure_node_exec(a, plain_node_exec(copy_chars(id), copy_chars(id), NodeShape::Rectangle));
}

/// Parser state.
struct ReqParser {
    ast: AstOf<Vec<char>>,
    attrs: Vec<(Vec<char>, Vec<Vec<char>>)>,
    current: Option<Vec<char>>,
}

impl View for ReqParser {
    type V = ReqSt;

    closed spec fn view(&self) -> ReqSt {
        ReqSt { ast: self.ast@, attrs: tl_view(self.attrs@), current: opt_text(self.current) }
    }
}

fn req_body_exec(p: &mut ReqParser, line: &Vec<char>, open: usize)
    requires
        open < line@.len(),
    ensures
        final(p)@ == req_body(old(p)@, line@, open as int),
{
    let h = slice_of(line, 0, open);
    assert(h@ =~= line@.take(open as int));
    match req_header_exec(&trim_chars(&h)) {
        None => {},
        Some((kind, id)) => {
            declared_exec(&mut p.ast, &kind, &id);
            let ln = line.len();
            let t0 = suffix(line, open + 1);
            assert(t0@ =~= line@.skip(open + 1));
            let tail = trim_chars(&t0);
            match find_char_exec(&tail, '}') {
                Some(c) => {
                    let f = slice_of(&tail, 0, c);
                    assert(f@ =~= tail@.take(c as int));
                    let frag = trim_chars(&f);
                    if frag.len() > 0 {
                        tl_push(&mut p.attrs, id, frag);
                    }
                    p.current = None;
                },
                None => {
                    if tail.len() > 0 {
                        tl_push(&mut p.attrs, copy_chars(&id), tail);
                    }
                    p.current = Some(id);
                },
            }
        },
    }
}

fn req_step_exec(p: &mut ReqParser, raw: &Vec<char>)
    ensures
        final(p)@ == req_step(old(p)@, raw@),
{
    let line = trim_chars(raw);
    if line.len() == 0 || starts_with_exec(&line, &lit("%%")) || starts_with_exec(&lowercase_exec(&line), &lit("requirementdiagram")) {
        return;
    }
    match direction_directive_exec(&line) {
        Some(d) => {
            p.ast.direction = d;
            return;
        },
        None => {},
    }
    match &p.current {
        Some(active) => {
            let active = copy_chars(active);
            match find_char_exec(&line, '}') {
                Some(e) => {
                    let f = slice_of(&line, 0, e);
                    assert(f@ =~= line@.take(e as int));
                    let frag = trim_chars(&f);
                    if frag.len() > 0 {
                        tl_push(&mut p.attrs, active, frag);
                    }
                    p.current = None;
                },
                None => {
                    tl_push(&mut p.attrs, active, line);
                },
            }
            return;
        },
        None => {},
    }
    match relation_line_exec(&line) {
        Some((from, rel, to)) => {
            mentioned_exec(&mut p.ast, &from);
            mentioned_exec(&mut p.ast, &to);
            let e = EdgeOf {
                from,
                to,
                label: Some(rel),
                start_label: None,
                end_label: None,
                directed: true,
                arrow_start: None,
                arrow_end: Some(EdgeArrowhead::Arrow),
                start_decoration: None,
                end_decoration: None,
                style: EdgeStyle::Solid,
            };
            push_edge(&mut p.ast, e);
            return;
        },
        None => {},
    }
    match find_char_exec(&line, '{') {
        Some(o) => {
            req_body_exec(p, &line, o);
            return;
        },
        None => {},
    }
    match req_header_exec(&line) {
        Some((kind, id)) => declared_exec(&mut p.ast, &kind, &id),
        None => {},
    }
}

/// A node's label with its attribute lines.
fn with_attrs_exec(attrs: &Vec<(Vec<char>, Vec<Vec<char>>)>, id: &Vec<char>, label: &Vec<char>) -> (r: Option<Vec<char>>)
    ensures
        forall|n: NodeV| n.id == id@ && n.label == label@ ==> (match r {
            Some(l) => with_attrs(tl_view(attrs@), n) == (NodeV { label: l@, ..n }),
            None => with_attrs(tl_view(attrs@), n) == n,
        }),
{
    match tl_get(attrs, id) {
        Some(xs) => {
            if xs.len() > 0 {
                let mut parts: Vec<Vec<char>> = Vec::new();
                parts.push(copy_chars(label));
                let mut i: usize = 0;
                while i < xs.len()
                    invariant
                        i <= xs@.len(),
                        views(parts@) == seq![label@] + views(xs@).take(i as int).map_values(|x: Text| normalize_attr(x)),
                    decreases xs@.len() - i,
                {
                    let ghost p0 = parts@;
                    let t = normalize_attr_exec(&xs[i]);
                    parts.push(t);
                    proof {
                        lemma_views_push(p0, t);
                    }
                    i += 1;
                    assert(views(parts@) =~= seq![label@] + views(xs@).take(i as int).map_values(|x: Text| normalize_attr(x)));
                }
                assert(views(xs@).take(xs@.len() as int) =~= views(xs@));
                Some(join_exec(&parts, &lit("\n")))
            } else {
                None
            }
        },
        None => None,
    }
}

/// Parses a requirement diagram. Every source is accepted.
pub fn parse_requirement(input: &str) -> (r: Result<DiagramAst, CoreError>)
    ensures
        r matches Ok(a) && a@ == req_model(input@),
{
    let s = str_chars(input);
    let ls = lines_exec(&s);
    let mut p = ReqParser { ast: empty_ast_exec(DiagramKind::Requirement), attrs: Vec::new(), current: None };
    assert(tl_view(p.attrs@) =~= Seq::empty());
    let mut i: usize = 0;
    while i < ls.len()
        invariant
            i <= ls@.len(),
            views(ls@) == lines(s@),
            s@ == input@,
            p@ == req_run(views(ls@), i as int),
        decreases ls@.len() - i,
    {
        assert(views(ls@)[i as int] == ls@[i as int]@);
        req_step_exec(&mut p, &ls[i]);
        i += 1;
    }
    let ghost st = p@;
    let ghost n0 = st.ast.nodes;
    let mut k: usize = 0;
    while k < p.ast.nodes.len()
        invariant
            k <= p.ast.nodes@.len(),
            p.ast.nodes@.len() == n0.len(),
            p@.attrs == st.attrs,
            p@.ast == (AstV { nodes: p@.ast.nodes, ..st.ast }),
            forall|x: int| 0 <= x < n0.len() ==> #[trigger] deep(p.ast.nodes@)[x] == if x < k {
                with_attrs(st.attrs, n0[x])
            } else {
                n0[x]
            },
        decreases p.ast.nodes@.len() - k,
    {
        let ghost nk = deep(p.ast.nodes@)[k as int];
        assert(nk == n0[k as int]);
        match with_attrs_exec(&p.attrs, &p.ast.nodes[k].id, &p.ast.nodes[k].label) {
            Some(l) => {
                set_node_label(&mut p.ast.nodes, k, l);
            },
            None => {},
        }
        k += 1;
    }
    assert(p@.ast.nodes =~= n0.map_values(|n: NodeV| with_attrs(st.attrs, n)));
    Ok(conv_ast(&p.ast))
}


// ---------------------------------------------------------------------------
// Distinct elements
// ---------------------------------------------------------------------------

proof fn lemma_declared_unique(a: AstV, kind: Text, id: Text)
    requires
        unique_ids(a.nodes),
    ensures
        unique_ids(declared(a, kind, id).nodes),
        declared(a, kind, id).kind == a.kind,
{
    let kl = kind_label(kind);
    let label = if kl.len() == 0 { id } else { "<<"@ + kl + ">>\n"@ + id };
    lemma_ensure_node_unique(a, plain_node(id, label, NodeShape::Rectangle));
}

proof fn lemma_req_step_unique(st: ReqSt, raw: Text)
    requires
        unique_ids(st.ast.nodes),
    ensures
        unique_ids(req_step(st, raw).ast.nodes),
        req_step(st, raw).ast.kind == st.ast.kind,
{
    let line = trim(raw);
    if line.len() == 0 || starts_with(line, "%%"@) || starts_with(lowercase(line), "requirementdiagram"@) {
    } else if direction_directive(line) is Some {
    } else if st.current is Some {
    } else if relation_line(line) is Some {
        let (from, rel, to) = relation_line(line)->0;
        lemma_ensure_node_unique(st.ast, plain_node(from, from, NodeShape::Rectangle));
        lemma_ensure_node_unique(mentioned(st.ast, from), plain_node(to, to, NodeShape::Rectangle));
    } else if find_char(line, '{') is Some {
        match req_header(trim(line.take(find_char(line, '{')->0))) {
            Some((kind, id)) => lemma_declared_unique(st.ast, kind, id),
            None => {},
        }
    } else {
        match req_header(line) {
            Some((kind, id)) => lemma_declared_unique(st.ast, kind, id),
            None => {},
        }
    }
}

proof fn lemma_req_run_unique(ls: Seq<Text>, n: int)
    ensures
        unique_ids(req_run(ls, n).ast.nodes),
        req_run(ls, n).ast.kind == DiagramKind::Requirement,
    decreases n,
{
    if n > 0 {
        lemma_req_run_unique(ls, n - 1);
        lemma_req_step_unique(req_run(ls, n - 1), ls[n - 1]);
    }
}

/// The elements of a parsed requirement diagram have distinct ids.
pub proof fn lemma_req_model_unique(s: Seq<char>)
    ensures
        unique_ids(req_model(s).nodes),
        req_model(s).kind == DiagramKind::Requirement,
{
    let st = req_run(lines(s), lines(s).len() as int);
    lemma_req_run_unique(lines(s), lines(s).len() as int);
    lemma_same_ids_unique(st.ast.nodes, req_model(s).nodes);
}


/// The relation types of requirement diagrams.
pub open spec fn relation_words() -> Seq<Text> {
    seq!["contains"@, "copies"@, "derives"@, "satisfies"@, "verifies"@, "refines"@, "traces"@]
}

/// A word of lower-case letters is left as it is by the trims and the
/// lower-casing that read a relation type.
proof fn lemma_lower_word(w: Text)
    requires
        w.len() > 0,
        forall|i: int| 0 <= i < w.len() ==> 'a' <= #[trigger] w[i] <= 'z',
    ensures
        relation_type(w) == (if is_relation(w) { Some(w) } else { None }),
{
    let n = w.len() as int;
    assert(!crate::text::is_ws(w[0]));
    assert(!crate::text::is_ws(w[n - 1]));
    assert(crate::text::skip_ws(w, 0) == 0);
    assert(crate::text::trim_start(w) =~= w);
    assert(crate::text::back_ws(w, n) == n);
    assert(trim(w) =~= w);
    assert(crate::syntax::skip_char(w, '-', 0) == 0);
    assert(trim_start_char(w, '-') =~= w);
    assert(crate::syntax::back_char(w, '-', n) == n);
    assert(trim_end_char(w, '-') =~= w);
    assert(trim_char(w, '-') =~= w);
    assert(crate::syntax::skip_char(w, '<', 0) == 0);
    assert(trim_start_char(w, '<') =~= w);
    assert(crate::syntax::back_char(w, '>', n) == n);
    assert(trim_end_char(w, '>') =~= w);
    assert(lowercase(w) =~= w);
}

/// Law: the seven relation types of requirement diagrams (`contains`,
/// `copies`, `derives`, `satisfies`, `verifies`, `refines`, `traces`) are each
/// read as themselves, and no text is read as any other relation type.
pub proof fn law_relation_types(raw: Text)
    ensures
        forall|i: int| 0 <= i < relation_words().len() ==>
            relation_type(#[trigger] relation_words()[i]) == Some(relation_words()[i]),
        relation_type(raw) matches Some(t) ==> relation_words().contains(t),
{
    reveal_strlit("contains");
    reveal_strlit("copies");
    reveal_strlit("derives");
    reveal_strlit("satisfies");
    reveal_strlit("verifies");
    reveal_strlit("refines");
    reveal_strlit("traces");
    let ws = relation_words();
    assert forall|i: int| 0 <= i < ws.len() implies relation_type(#[trigger] ws[i]) == Some(ws[i]) by {
        lemma_lower_word(ws[i]);
    }
    if relation_type(raw) is Some {
        let t = relation_type(raw)->0;
        if t == ws[0] { assert(ws[0] == t); }
        else if t == ws[1] { assert(ws[1] == t); }
        else if t == ws[2] { assert(ws[2] == t); }
        else if t == ws[3] { assert(ws[3] == t); }
        else if t == ws[4] { assert(ws[4] == t); }
        else if t == ws[5] { assert(ws[5] == t); }
        else { assert(ws[6] == t); }
    }
}

} // verus!
