//! `erDiagram` sources: entities with attribute bodies, and relations whose
//! ends carry crow's-foot cardinalities.

use vstd::prelude::*;
use crate::text::{
    trim, trim_chars, starts_with, starts_with_exec, find, find_exec, find_char, find_char_exec,
    lit, slice_of, suffix, lines, lines_exec, words, words_exec, lowercase, lowercase_exec,
    split_once, split_once_exec, join, join_exec, views, str_chars, copy_chars, chars_eq,
    append_chars, copy_lines,
};
use crate::syntax::{trim_char, trim_char_exec};
use crate::diagram::{
    Text, NodeShape, EdgeStyle, Direction, DiagramKind, AstOf, EdgeOf, DiagramAst, AstV, NodeV,
    EdgeV, deep,
};
use crate::model::{
    lookup, push_under, ensure_node, plain_node, empty_ast, tl_view, tl_get, tl_push,
    plain_node_exec, ensure_node_exec, empty_ast_exec, push_edge, set_node_label, opt_text,
    unique_ids, lemma_ensure_node_unique, lemma_same_ids_unique,
};
use crate::error::CoreError;
use crate::convert::conv_ast;

verus! {

// ---------------------------------------------------------------------------
// Model
// ---------------------------------------------------------------------------

/// `direction XX` lines (exactly two words; unknown directions are no directive).
pub open spec fn direction_directive(line: Text) -> Option<Direction> {
    let ws = words(line);
    if ws.len() == 2 && ws[0] == "direction"@ {
        if ws[1] == "TD"@ || ws[1] == "TB"@ {
            Some(Direction::TopDown)
        } else if ws[1] == "BT"@ {
            Some(Direction::BottomUp)
        } else if ws[1] == "LR"@ {
            Some(Direction::LeftToRight)
        } else if ws[1] == "RL"@ {
            Some(Direction::RightToLeft)
        } else {
            None
        }
    } else {
        None
    }
}

/// Characters that make up a cardinality mark.
pub open spec fn is_card_char(c: char) -> bool {
    c == '|' || c == 'o' || c == '{' || c == '}'
}

/// A left end: (entity, mark of up to two characters at its end).
pub open spec fn card_left(s: Text) -> (Text, Option<Text>) {
    let t = trim(s);
    let n = t.len() as int;
    if n == 0 {
        (seq![], None)
    } else if n >= 2 && is_card_char(t[n - 2]) && is_card_char(t[n - 1]) {
        (trim(t.take(n - 2)), Some(t.skip(n - 2)))
    } else if is_card_char(t[n - 1]) {
        (trim(t.take(n - 1)), Some(seq![t[n - 1]]))
    } else {
        (t, None)
    }
}

/// A right end: (entity, mark of up to two characters at its start).
pub open spec fn card_right(s: Text) -> (Text, Option<Text>) {
    let t = trim(s);
    if t.len() == 0 {
        (seq![], None)
    } else if t.len() >= 2 && is_card_char(t[0]) && is_card_char(t[1]) {
        (trim(t.skip(2)), Some(t.take(2)))
    } else if is_card_char(t[0]) {
        (trim(t.skip(1)), Some(seq![t[0]]))
    } else {
        (t, None)
    }
}

/// What a cardinality mark reads as.
pub open spec fn cardinality(s: Text) -> Text {
    let t = trim(s);
    if t == "||"@ || t == "|"@ {
        "1"@
    } else if t == "o|"@ || t == "|o"@ || t == "o"@ {
        "0..1"@
    } else if t == "|{"@ || t == "}|"@ {
        "1..*"@
    } else if t == "o{"@ || t == "}o"@ || t == "}"@ || t == "{"@ {
        "0..*"@
    } else {
        t
    }
}

/// Trimmed, without surrounding double quotes.
pub open spec fn unquote(s: Text) -> Text {
    trim_char(trim(s), '"')
}

/// A relation line.
pub struct ErRelation {
    pub left: Text,
    pub right: Text,
    pub label: Option<Text>,
    pub left_card: Option<Text>,
    pub right_card: Option<Text>,
    pub style: EdgeStyle,
}

/// The relation part and label of a line.
pub open spec fn relation_parts(line: Text) -> (Text, Option<Text>) {
    match split_once(line, ":"@) {
        Some((b, a)) => (trim(b), if trim(a).len() == 0 { None } else { Some(trim(a)) }),
        None => (trim(line), None),
    }
}

/// Where the connector of a relation stands, and its style.
pub open spec fn connector(rel: Text) -> Option<(int, EdgeStyle)> {
    match find(rel, "--"@) {
        Some(i) => Some((i, EdgeStyle::Solid)),
        None => match find(rel, ".."@) {
            Some(i) => Some((i, EdgeStyle::Dotted)),
            None => None,
        },
    }
}

/// `A ||--o{ B : label`.
pub open spec fn er_relation(line: Text) -> Option<ErRelation> {
    let (rel, label) = relation_parts(line);
    match connector(rel) {
        None => None,
        Some((i, style)) => {
            let lp = trim(rel.take(i));
            let rp = trim(rel.skip(i + 2));
            let (le, lc) = card_left(lp);
            let (re, rc) = card_right(rp);
            let l = unquote(le);
            let r = unquote(re);
            if lp.len() == 0 || rp.len() == 0 || le.len() == 0 || re.len() == 0 || l.len() == 0 || r.len() == 0 {
                None
            } else {
                Some(ErRelation {
                    left: l,
                    right: r,
                    label,
                    left_card: match lc { Some(c) => Some(cardinality(c)), None => None },
                    right_card: match rc { Some(c) => Some(cardinality(c)), None => None },
                    style,
                })
            }
        },
    }
}

/// The label a relation's edge carries: its own, else its cardinalities.
pub open spec fn er_edge_label(r: ErRelation) -> Option<Text> {
    match r.label {
        Some(l) => Some(l),
        None => match (r.left_card, r.right_card) {
            (Some(a), Some(b)) => Some(a + " : "@ + b),
            (Some(c), None) => Some(c),
            (None, Some(c)) => Some(c),
            (None, None) => None,
        },
    }
}

/// An entity node.
pub open spec fn entity(a: AstV, id: Text) -> AstV {
    ensure_node(a, plain_node(id, id, NodeShape::RoundRect))
}

/// The edge of a relation.
pub open spec fn er_edge(r: ErRelation) -> EdgeV {
    EdgeV {
        from: r.left,
        to: r.right,
        label: er_edge_label(r),
        start_label: None,
        end_label: None,
        directed: false,
        arrow_start: None,
        arrow_end: None,
        start_decoration: None,
        end_decoration: None,
        style: r.style,
    }
}

/// Parser state: the model, each entity's attribute lines, the open body.
pub struct ErSt {
    pub ast: AstV,
    pub members: Seq<(Text, Seq<Text>)>,
    pub current: Option<Text>,
}

/// A line that opens an entity body (`Name {`, possibly closed on the same line).
pub open spec fn entity_body(st: ErSt, line: Text, open: int) -> ErSt {
    let name = unquote(trim(line.take(open)));
    if name.len() == 0 {
        st
    } else {
        let a = entity(st.ast, name);
        let tail = trim(line.skip(open + 1));
        match find_char(tail, '}') {
            Some(c) => {
                let frag = trim(tail.take(c));
                ErSt {
                    ast: a,
                    members: if frag.len() > 0 { push_under(st.members, name, frag) } else { st.members },
                    current: None,
                }
            },
            None => ErSt {
                ast: a,
                members: if tail.len() > 0 { push_under(st.members, name, tail) } else { st.members },
                current: Some(name),
            },
        }
    }
}

/// One line.
pub open spec fn er_step(st: ErSt, raw: Text) -> ErSt {
    let line = trim(raw);
    if line.len() == 0 || starts_with(line, "%%"@) || starts_with(lowercase(line), "erdiagram"@) {
        st
    } else if direction_directive(line) is Some {
        ErSt { ast: AstV { direction: direction_directive(line)->0, ..st.ast }, ..st }
    } else if st.current is Some {
        let active = st.current->0;
        match find_char(line, '}') {
            Some(e) => {
                let frag = trim(line.take(e));
                ErSt {
                    members: if frag.len() > 0 { push_under(st.members, active, frag) } else { st.members },
                    current: None,
                    ..st
                }
            },
            None => ErSt { members: push_under(st.members, active, line), ..st },
        }
    } else if er_relation(line) is Some {
        let r = er_relation(line)->0;
        let a = entity(entity(st.ast, r.left), r.right);
        ErSt { ast: AstV { edges: a.edges.push(er_edge(r)), ..a }, ..st }
    } else if find_char(line, '{') is Some {
        entity_body(st, line, find_char(line, '{')->0)
    } else if unquote(line).len() > 0 {
        ErSt { ast: entity(st.ast, unquote(line)), ..st }
    } else {
        st
    }
}

/// State after the first `n` lines.
pub open spec fn er_run(ls: Seq<Text>, n: int) -> ErSt
    decreases n,
{
    if n <= 0 {
        ErSt { ast: empty_ast(DiagramKind::Er), members: seq![], current: None }
    } else {
        er_step(er_run(ls, n - 1), ls[n - 1])
    }
}

/// A node with its attribute lines under its name, after a `---` rule.
pub open spec fn with_members(members: Seq<(Text, Seq<Text>)>, n: NodeV) -> NodeV {
    match lookup(members, n.id) {
        Some(attrs) => if attrs.len() > 0 {
            NodeV { label: join(seq![n.label, "---"@] + attrs, "\n"@), ..n }
        } else {
            n
        },
        None => n,
    }
}

/// The model an ER diagram source describes.
pub open spec fn er_model(s: Seq<char>) -> AstV {
    let st = er_run(lines(s), lines(s).len() as int);
    AstV { nodes: st.ast.nodes.map_values(|n: NodeV| with_members(st.members, n)), ..st.ast }
}

// ---------------------------------------------------------------------------
// Parser
// ---------------------------------------------------------------------------

/// Reads a `direction XX` line.
pub fn direction_directive_exec(line: &Vec<char>) -> (r: Option<Direction>)
    ensures
        r == direction_directive(line@),
{
    let ws = words_exec(line);
    assert(ws@.len() == views(ws@).len());
    if ws.len() == 2 && chars_eq(&ws[0], &lit("direction")) {
        assert(views(ws@)[0] == ws@[0]@);
        assert(views(ws@)[1] == ws@[1]@);
        let d = &ws[1];
        if chars_eq(d, &lit("TD")) || chars_eq(d, &lit("TB")) {
            Some(Direction::TopDown)
        } else if chars_eq(d, &lit("BT")) {
            Some(Direction::BottomUp)
        } else if chars_eq(d, &lit("LR")) {
            Some(Direction::LeftToRight)
        } else if chars_eq(d, &lit("RL")) {
            Some(Direction::RightToLeft)
        } else {
            None
        }
    } else {
        if ws.len() == 2 {
            assert(views(ws@)[0] == ws@[0]@);
        }
        None
    }
}

fn is_card_char_exec(c: char) -> (r: bool)
    ensures
        r == is_card_char(c),
{
    c == '|' || c == 'o' || c == '{' || c == '}'
}

fn card_left_exec(s: &Vec<char>) -> (r: (Vec<char>, Option<Vec<char>>))
    ensures
        (r.0@, opt_text(r.1)) == card_left(s@),
{
    let t = trim_chars(s);
    let n = t.len();
    if n == 0 {
        (Vec::new(), None)
    } else if n >= 2 && is_card_char_exec(t[n - 2]) && is_card_char_exec(t[n - 1]) {
        let e = slice_of(&t, 0, n - 2);
        let c = suffix(&t, n - 2);
        assert(e@ =~= t@.take(n - 2));
        assert(c@ =~= t@.skip(n - 2));
        (trim_chars(&e), Some(c))
    } else if is_card_char_exec(t[n - 1]) {
        let e = slice_of(&t, 0, n - 1);
        assert(e@ =~= t@.take(n - 1));
        let mut c: Vec<char> = Vec::new();
        c.push(t[n - 1]);
        assert(c@ =~= seq![t@[n - 1]]);
        (trim_chars(&e), Some(c))
    } else {
        (t, None)
    }
}

fn card_right_exec(s: &Vec<char>) -> (r: (Vec<char>, Option<Vec<char>>))
    ensures
        (r.0@, opt_text(r.1)) == card_right(s@),
{
    let t = trim_chars(s);
    let n = t.len();
    if n == 0 {
        (Vec::new(), None)
    } else if n >= 2 && is_card_char_exec(t[0]) && is_card_char_exec(t[1]) {
        let e = suffix(&t, 2);
        let c = slice_of(&t, 0, 2);
        assert(e@ =~= t@.skip(2));
        assert(c@ =~= t@.take(2));
        (trim_chars(&e), Some(c))
    } else if is_card_char_exec(t[0]) {
        let e = suffix(&t, 1);
        assert(e@ =~= t@.skip(1));
        let mut c: Vec<char> = Vec::new();
        c.push(t[0]);
        assert(c@ =~= seq![t@[0]]);
        (trim_chars(&e), Some(c))
    } else {
        (t, None)
    }
}

fn cardinality_exec(s: &Vec<char>) -> (r: Vec<char>)
    ensures
        r@ == cardinality(s@),
{
    let t = trim_chars(s);
    if chars_eq(&t, &lit("||")) || chars_eq(&t, &lit("|")) {
        lit("1")
    } else if chars_eq(&t, &lit("o|")) || chars_eq(&t, &lit("|o")) || chars_eq(&t, &lit("o")) {
        lit("0..1")
    } else if chars_eq(&t, &lit("|{")) || chars_eq(&t, &lit("}|")) {
        lit("1..*")
    } else if chars_eq(&t, &lit("o{")) || chars_eq(&t, &lit("}o")) || chars_eq(&t, &lit("}")) || chars_eq(&t, &lit("{")) {
        lit("0..*")
    } else {
        t
    }
}

/// Trimmed, without surrounding double quotes.
pub fn unquote_exec(s: &Vec<char>) -> (r: Vec<char>)
    ensures
        r@ == unquote(s@),
{
    trim_char_exec(&trim_chars(s), '"')
}

fn opt_cardinality(c: Option<Vec<char>>) -> (r: Option<Vec<char>>)
    ensures
        opt_text(r) == match opt_text(c) { Some(t) => Some(cardinality(t)), None => None },
{
    match c {
        Some(t) => Some(cardinality_exec(&t)),
        None => None,
    }
}

struct ErRelationX {
    left: Vec<char>,
    right: Vec<char>,
    label: Option<Vec<char>>,
    left_card: Option<Vec<char>>,
    right_card: Option<Vec<char>>,
    style: EdgeStyle,
}

impl View for ErRelationX {
    type V = ErRelation;

    closed spec fn view(&self) -> ErRelation {
        ErRelation {
            left: self.left@,
            right: self.right@,
            label: opt_text(self.label),
            left_card: opt_text(self.left_card),
            right_card: opt_text(self.right_card),
            style: self.style,
        }
    }
}

fn relation_parts_exec(line: &Vec<char>) -> (r: (Vec<char>, Option<Vec<char>>))
    ensures
        (r.0@, opt_text(r.1)) == relation_parts(line@),
{
    match split_once_exec(line, &lit(":")) {
        Some((b, a)) => {
            let l = trim_chars(&a);
            (trim_chars(&b), if l.len() == 0 { None } else { Some(l) })
        },
        None => (trim_chars(line), None),
    }
}

fn connector_exec(rel: &Vec<char>) -> (r: Option<(usize, EdgeStyle)>)
    ensures
        match r {
            Some((i, st)) => connector(rel@) == Some((i as int, st)) && i + 2 <= rel@.len(),
            None => connector(rel@) is None,
        },
{
    proof {
        reveal_strlit("--");
        reveal_strlit("..");
    }
    match find_exec(rel, &lit("--")) {
        Some(i) => Some((i, EdgeStyle::Solid)),
        None => match find_exec(rel, &lit("..")) {
            Some(i) => Some((i, EdgeStyle::Dotted)),
            None => None,
        },
    }
}

fn er_relation_exec(line: &Vec<char>) -> (r: Option<ErRelationX>)
    ensures
        match r {
            Some(x) => er_relation(line@) == Some(x@),
            None => er_relation(line@) is None,
        },
{
    let (rel, label) = relation_parts_exec(line);
    match connector_exec(&rel) {
        None => None,
        Some((i, style)) => {
            let l0 = slice_of(&rel, 0, i);
            assert(l0@ =~= rel@.take(i as int));
            let r0 = suffix(&rel, i + 2);
            assert(r0@ =~= rel@.skip(i + 2));
            let lp = trim_chars(&l0);
            let rp = trim_chars(&r0);
            let (le, lc) = card_left_exec(&lp);
            let (re, rc) = card_right_exec(&rp);
            let l = unquote_exec(&le);
            let r = unquote_exec(&re);
            if lp.len() == 0 || rp.len() == 0 || le.len() == 0 || re.len() == 0 || l.len() == 0 || r.len() == 0 {
                None
            } else {
                let x = ErRelationX {
                    left: l,
                    right: r,
                    label,
                    left_card: opt_cardinality(lc),
                    right_card: opt_cardinality(rc),
                    style,
                };
                Some(x)
            }
        },
    }
}

fn er_edge_label_exec(r: &ErRelationX) -> (l: Option<Vec<char>>)
    ensures
        opt_text(l) == er_edge_label(r@),
{
    match &r.label {
        Some(l) => Some(copy_chars(l)),
        None => match (&r.left_card, &r.right_card) {
            (Some(a), Some(b)) => {
                let mut t = copy_chars(a);
                append_chars(&mut t, &lit(" : "));
                append_chars(&mut t, b);
                Some(t)
            },
            (Some(c), None) => Some(copy_chars(c)),
            (None, Some(c)) => Some(copy_chars(c)),
            (None, None) => None,
        },
    }
}

/// Parser state.
struct ErParser {
    ast: AstOf<Vec<char>>,
    members: Vec<(Vec<char>, Vec<Vec<char>>)>,
    current: Option<Vec<char>>,
}

impl View for ErParser {
    type V = ErSt;

    closed spec fn view(&self) -> ErSt {
        ErSt { ast: self.ast@, members: tl_view(self.members@), current: opt_text(self.current) }
    }
}

fn entity_exec(a: &mut AstOf<Vec<char>>, id: &Vec<char>)
    ensures
        final(a)@ == entity(old(a)@, id@),
{
    ensure_node_exec(a, plain_node_exec(copy_chars(id), copy_chars(id), NodeShape::RoundRect));
}

fn entity_body_exec(p: &mut ErParser, line: &Vec<char>, open: usize)
    requires
        open < line@.len(),
    ensures
        final(p)@ == entity_body(old(p)@, line@, open as int),
{
    let h = slice_of(line, 0, open);
    assert(h@ =~= line@.take(open as int));
    let name = unquote_exec(&trim_chars(&h));
    if name.len() == 0 {
        return;
    }
    entity_exec(&mut p.ast, &name);
    let ln = line.len();
    let t0 = suffix(line, open + 1);
    assert(t0@ =~= line@.skip(open + 1));
    let tail = trim_chars(&t0);
    match find_char_exec(&tail, '}') {
        Some(c) => {
            let f = slice_of(&tail, 0, c);
            assert(f@ =~= tail@.take(c as int));
            let frag = trim_chars(&f);
            if frag.len() > 0 {
                tl_push(&mut p.members, name, frag);
            }
            p.current = None;
        },
        None => {
            if tail.len() > 0 {
                tl_push(&mut p.members, copy_chars(&name), tail);
            }
            p.current = Some(name);
        },
    }
}

fn er_step_exec(p: &mut ErParser, raw: &Vec<char>)
    ensures
        final(p)@ == er_step(old(p)@, raw@),
{
    let line = trim_chars(raw);
    if line.len() == 0 || starts_with_exec(&line, &lit("%%")) || starts_with_exec(&lowercase_exec(&line), &lit("erdiagram")) {
        return;
    }
    match direction_directive_exec(&line) {
        Some(d) => {
            p.ast.direction = d;
            return;
        },
        None => {},
    }
    match &p.current {
        Some(active) => {
            let active = copy_chars(active);
            match find_char_exec(&line, '}') {
                Some(e) => {
                    let f = slice_of(&line, 0, e);
                    assert(f@ =~= line@.take(e as int));
                    let frag = trim_chars(&f);
                    if frag.len() > 0 {
                        tl_push(&mut p.members, active, frag);
                    }
                    p.current = None;
                },
                None => {
                    tl_push(&mut p.members, active, line);
                },
            }
            return;
        },
        None => {},
    }
    match er_relation_exec(&line) {
        Some(r) => {
            entity_exec(&mut p.ast, &r.left);
            entity_exec(&mut p.ast, &r.right);
            let e = EdgeOf {
                from: copy_chars(&r.left),
                to: copy_chars(&r.right),
                label: er_edge_label_exec(&r),
                start_label: None,
                end_label: None,
                directed: false,
                arrow_start: None,
                arrow_end: None,
                start_decoration: None,
                end_decoration: None,
                style: r.style,
            };
            push_edge(&mut p.ast, e);
            return;
        },
        None => {},
    }
    match find_char_exec(&line, '{') {
        Some(o) => {
            entity_body_exec(p, &line, o);
            return;
        },
        None => {},
    }
    let name = unquote_exec(&line);
    if name.len() > 0 {
        entity_exec(&mut p.ast, &name);
    }
}

/// A node's label with its attribute lines.
fn with_members_exec(members: &Vec<(Vec<char>, Vec<Vec<char>>)>, id: &Vec<char>, label: &Vec<char>) -> (r: Option<Vec<char>>)
    ensures
        forall|n: NodeV| n.id == id@ && n.label == label@ ==> (match r {
            Some(l) => with_members(tl_view(members@), n) == (NodeV { label: l@, ..n }),
            None => with_members(tl_view(members@), n) == n,
        }),
{
    match tl_get(members, id) {
        Some(attrs) => {
            if attrs.len() > 0 {
                let mut parts: Vec<Vec<char>> = Vec::new();
                parts.push(copy_chars(label));
                parts.push(lit("---"));
                let ghost head = views(parts@);
                crate::text::append_lines(&mut parts, &attrs);
                assert(views(parts@) =~= seq![label@, "---"@] + views(attrs@));
                Some(join_exec(&parts, &lit("\n")))
            } else {
                None
            }
        },
        None => None,
    }
}

/// Parses an ER diagram. Every source is accepted.
pub fn parse_er(input: &str) -> (r: Result<DiagramAst, CoreError>)
    ensures
        r matches Ok(a) && a@ == er_model(input@),
{
    let s = str_chars(input);
    let ls = lines_exec(&s);
    let mut p = ErParser { ast: empty_ast_exec(DiagramKind::Er), members: Vec::new(), current: None };
    assert(tl_view(p.members@) =~= Seq::empty());
    let mut i: usize = 0;
    while i < ls.len()
        invariant
            i <= ls@.len(),
            views(ls@) == lines(s@),
            s@ == input@,
            p@ == er_run(views(ls@), i as int),
        decreases ls@.len() - i,
    {
        assert(views(ls@)[i as int] == ls@[i as int]@);
        er_step_exec(&mut p, &ls[i]);
        i += 1;
    }
    let ghost st = p@;
    let ghost n0 = st.ast.nodes;
    let mut k: usize = 0;
    while k < p.ast.nodes.len()
        invariant
            k <= p.ast.nodes@.len(),
            p.ast.nodes@.len() == n0.len(),
            p@.members == st.members,
            p@.ast == (AstV { nodes: p@.ast.nodes, ..st.ast }),
            forall|x: int| 0 <= x < n0.len() ==> #[trigger] deep(p.ast.nodes@)[x] == if x < k {
                with_members(st.members, n0[x])
            } else {
                n0[x]
            },
        decreases p.ast.nodes@.len() - k,
    {
        let ghost nk = deep(p.ast.nodes@)[k as int];
        match with_members_exec(&p.members, &p.ast.nodes[k].id, &p.ast.nodes[k].label) {
            Some(l) => {
                set_node_label(&mut p.ast.nodes, k, l);
            },
            None => {},
        }
        k += 1;
    }
    assert(p@.ast.nodes =~= n0.map_values(|n: NodeV| with_members(st.members, n)));
    Ok(conv_ast(&p.ast))
}


// ---------------------------------------------------------------------------
// Distinct entities
// ---------------------------------------------------------------------------

proof fn lemma_er_step_unique(st: ErSt, raw: Text)
    requires
        unique_ids(st.ast.nodes),
    ensures
        unique_ids(er_step(st, raw).ast.nodes),
        er_step(st, raw).ast.kind == st.ast.kind,
{
    let line = trim(raw);
    if line.len() == 0 || starts_with(line, "%%"@) || starts_with(lowercase(line), "erdiagram"@) {
    } else if direction_directive(line) is Some {
    } else if st.current is Some {
    } else if er_relation(line) is Some {
        let r = er_relation(line)->0;
        lemma_ensure_node_unique(st.ast, plain_node(r.left, r.left, NodeShape::RoundRect));
        lemma_ensure_node_unique(entity(st.ast, r.left), plain_node(r.right, r.right, NodeShape::RoundRect));
    } else if find_char(line, '{') is Some {
        let name = unquote(trim(line.take(find_char(line, '{')->0)));
        if name.len() > 0 {
            lemma_ensure_node_unique(st.ast, plain_node(name, name, NodeShape::RoundRect));
        }
    } else if unquote(line).len() > 0 {
        lemma_ensure_node_unique(st.ast, plain_node(unquote(line), unquote(line), NodeShape::RoundRect));
    }
}

proof fn lemma_er_run_unique(ls: Seq<Text>, n: int)
    ensures
        unique_ids(er_run(ls, n).ast.nodes),
        er_run(ls, n).ast.kind == DiagramKind::Er,
    decreases n,
{
    if n > 0 {
        lemma_er_run_unique(ls, n - 1);
        lemma_er_step_unique(er_run(ls, n - 1), ls[n - 1]);
    }
}

/// The entities of a parsed ER diagram have distinct ids.
pub proof fn lemma_er_model_unique(s: Seq<char>)
    ensures
        unique_ids(er_model(s).nodes),
        er_model(s).kind == DiagramKind::Er,
{
    let st = er_run(lines(s), lines(s).len() as int);
    lemma_er_run_unique(lines(s), lines(s).len() as int);
    lemma_same_ids_unique(st.ast.nodes, er_model(s).nodes);
}


/// The crow's-foot marks that a relation end may carry, each of a bar `|`, a
/// ring `o` or a foot `{`/`}` and at most one other of these.
pub open spec fn er_marks() -> Seq<Text> {
    seq!["||"@, "|"@, "o|"@, "|o"@, "o"@, "|{"@, "}|"@, "o{"@, "}o"@]
}

proof fn lemma_short_contains(t: Text, c: char)
    requires
        1 <= t.len() <= 2,
    ensures
        t.contains(c) <==> (t[0] == c || (t.len() == 2 && t[1] == c)),
{
    if t[0] == c {
        assert(t[0] == c);
    }
    if t.len() == 2 && t[1] == c {
        assert(t[1] == c);
    }
}

/// Law: a crow's-foot mark reads as `min` or `min..max`. The minimum is 0
/// exactly when the mark has a ring `o`, else 1; the maximum is many (`*`)
/// exactly when it has a crow's foot `{` or `}`, else 1, written only after a 0.
/// A foot alone reads as zero or more. Any other text is kept, trimmed.
pub proof fn law_er_cardinality(s: Text)
    ensures
        ({
            let t = trim(s);
            let ring = t.contains('o');
            let foot = t.contains('{') || t.contains('}');
            if er_marks().contains(t) {
                cardinality(s) == (if ring { "0"@ } else { "1"@ })
                    + (if foot { "..*"@ } else if ring { "..1"@ } else { seq![] })
            } else if t == "{"@ || t == "}"@ {
                cardinality(s) == "0..*"@
            } else {
                cardinality(s) == t
            }
        }),
{
    let t = trim(s);
    reveal_strlit("||");
    reveal_strlit("|");
    reveal_strlit("o|");
    reveal_strlit("|o");
    reveal_strlit("o");
    reveal_strlit("|{");
    reveal_strlit("}|");
    reveal_strlit("o{");
    reveal_strlit("}o");
    reveal_strlit("}");
    reveal_strlit("{");
    reveal_strlit("0");
    reveal_strlit("1");
    reveal_strlit("..*");
    reveal_strlit("..1");
    reveal_strlit("0..1");
    reveal_strlit("1..*");
    reveal_strlit("0..*");
    let ms = er_marks();
    if ms.contains(t) {
        let k = choose|k: int| 0 <= k < ms.len() && ms[k] == t;
        assert(ms[k] == t);
        assert(1 <= t.len() <= 2);
        lemma_short_contains(t, 'o');
        lemma_short_contains(t, '{');
        lemma_short_contains(t, '}');
        assert("0"@ + "..1"@ =~= "0..1"@);
        assert("1"@ + "..*"@ =~= "1..*"@);
        assert("0"@ + "..*"@ =~= "0..*"@);
        assert("1"@ + Seq::<char>::empty() =~= "1"@);
        if k <= 1 {
            assert(!t.contains('o') && !t.contains('{') && !t.contains('}'));
            assert(cardinality(s) == "1"@);
        } else if k <= 4 {
            assert(t.contains('o') && !t.contains('{') && !t.contains('}'));
            assert(cardinality(s) == "0..1"@);
        } else if k <= 6 {
            assert(!t.contains('o') && (t.contains('{') || t.contains('}')));
            assert(cardinality(s) == "1..*"@);
        } else {
            assert(t.contains('o') && (t.contains('{') || t.contains('}')));
            assert(cardinality(s) == "0..*"@);
        }
    } else {
        assert(t != ms[0] && t != ms[1] && t != ms[2] && t != ms[3] && t != ms[4] && t != ms[5]);
        assert(t != ms[6] && t != ms[7] && t != ms[8]);
    }
}


/// The two marks of a connector drawn in a style.
pub open spec fn connector_mark(st: EdgeStyle) -> Text {
    if st == EdgeStyle::Solid { "--"@ } else { ".."@ }
}

/// Law: a relation's connector is its first `--` (an identifying relation,
/// solid line), or where it has none, its first `..` (non-identifying, dotted);
/// a relation with neither has no connector. The connector stands where the
/// two marks are written.
pub proof fn law_er_connector(rel: Text)
    ensures
        connector(rel) is None <==> (find(rel, "--"@) is None && find(rel, ".."@) is None),
        connector(rel) matches Some((i, st)) ==> {
            &&& (st == EdgeStyle::Solid <==> find(rel, "--"@) is Some)
            &&& (st == EdgeStyle::Solid || st == EdgeStyle::Dotted)
            &&& crate::text::matches_at(rel, connector_mark(st), i)
            &&& forall|k: int| 0 <= k < i ==> !#[trigger] crate::text::matches_at(rel, connector_mark(st), k)
        },
{
    crate::text::lemma_find_from_props(rel, "--"@, 0);
    crate::text::lemma_find_from_props(rel, ".."@, 0);
}

} // verus!
