//! Model of `flowchart` / `graph` sources: node shapes, edges with labels,
//! decorations and chains of `&`-joined ends, subgraphs, `classDef` / `class` /
//! `style` / `linkStyle` / `click` directives, titles and front matter.
//!
//! Edge lines are recognised by two regular expressions, run on the line with the
//! contents of brackets blanked out and cut out of the line itself.

use vstd::prelude::*;
use crate::text::{
    trim, starts_with, ends_with, find, find_char, lines, words, split_char, split_once,
    split_pat, split_ws_once, trim_end_pat, first_word, is_ws, decimal,
};
use crate::syntax::{
    strip_quotes, strip_prefix, trim_start_char, trim_end_char, trim_char, unicode_alphanumeric,
};
use crate::diagram::{
    Text, AstV, NodeV, EdgeV, SubgraphV, StyleV, NodeShape, EdgeArrowhead, EdgeDecoration,
    EdgeStyle, Direction, DiagramKind,
};
use crate::model::{
    lookup, insert, push_under, first_index, node_ids, has_node, plain_style, ensure_node,
    empty_ast, unique_ids, lemma_ensure_node_unique,
};
use crate::numeric::{float_literal, float_at_most_2_5, float_at_least_2_5, parse_index};
use crate::pattern::{regex_groups, utf8_len};

verus! {

// ---------------------------------------------------------------------------
// Patterns
// ---------------------------------------------------------------------------

/// `flowchart TD` / `graph LR` headers.
pub open spec fn header_pattern() -> Seq<char> {
    "^(flowchart|graph)\\s+(\\w+)"@
}

/// `subgraph ...` lines.
pub open spec fn subgraph_pattern() -> Seq<char> {
    "^subgraph\\s+(.*)$"@
}

/// Edges with a pipe label: `A -->|label| B` (groups: left, arrow, label, right).
pub open spec fn pipe_label_pattern() -> Seq<char> {
    "^(?P<left>.+?)\\s*(?P<arrow><[-.=ox]*[-=]+[-.=ox]*>|<[-.=ox]*[-=]+[-.=ox]*|[-.=ox]*[-=]+[-.=ox]*>|[-.=ox]*[-=]+[-.=ox]*)\\|(?P<label>.+?)\\|\\s*(?P<right>.+)$"@
}

/// Plain edges: `A --> B` (groups: left, arrow, right).
pub open spec fn arrow_pattern() -> Seq<char> {
    "^(?P<left>.+?)\\s*(?P<arrow><[-.=ox]*[-=]+[-.=ox]*>|<[-.=ox]*[-=]+[-.=ox]*|[-.=ox]*[-=]+[-.=ox]*>|[-.=ox]*[-=]+[-.=ox]*)\\s*(?P<right>.+)$"@
}

/// Group `i` of a match, when it took part.
pub open spec fn group(gs: Seq<Option<Text>>, i: int) -> Option<Text> {
    if 0 <= i < gs.len() { gs[i] } else { None }
}

// ---------------------------------------------------------------------------
// Edge arrows
// ---------------------------------------------------------------------------

/// What an arrow token says of an edge.
#[derive(Clone, Copy)]
pub struct FlowMeta {
    pub directed: bool,
    pub arrow_start: bool,
    pub arrow_end: bool,
    pub start_decoration: Option<EdgeDecoration>,
    pub end_decoration: Option<EdgeDecoration>,
    pub style: EdgeStyle,
}

/// Reads an arrow token: `o`/`x` ends are decorations, `<`/`>` arrowheads, `=`
/// thick, `.` dotted.
pub open spec fn edge_meta(arrow: Text) -> FlowMeta {
    let s0 = trim(arrow);
    let sd = if s0.len() > 0 && s0[0] == 'o' {
        Some(EdgeDecoration::Circle)
    } else if s0.len() > 0 && s0[0] == 'x' {
        Some(EdgeDecoration::Cross)
    } else {
        None
    };
    let s1 = if sd is Some { s0.skip(1) } else { s0 };
    let ed = if s1.len() > 0 && s1.last() == 'o' {
        Some(EdgeDecoration::Circle)
    } else if s1.len() > 0 && s1.last() == 'x' {
        Some(EdgeDecoration::Cross)
    } else {
        None
    };
    let s = if ed is Some { s1.drop_last() } else { s1 };
    let start = s.len() > 0 && s[0] == '<';
    let end = s.len() > 0 && s.last() == '>';
    let has_eq = find_char(s, '=') is Some;
    let has_dot = find_char(s, '.') is Some;
    FlowMeta {
        directed: start || end,
        arrow_start: start,
        arrow_end: end,
        start_decoration: sd,
        end_decoration: ed,
        style: if has_eq && !has_dot {
            EdgeStyle::Thick
        } else if has_dot {
            EdgeStyle::Dotted
        } else {
            EdgeStyle::Solid
        },
    }
}

// ---------------------------------------------------------------------------
// Masking bracket contents
// ---------------------------------------------------------------------------

/// `n` spaces.
pub open spec fn spaces(n: nat) -> Text
    decreases n,
{
    if n == 0 { seq![] } else { spaces((n - 1) as nat).push(' ') }
}

/// The line from index `i` on with bracket contents blanked, at bracket depth
/// `depth` (inside a bracket when `inb`): each blanked character becomes as many
/// spaces as it has UTF-8 bytes, so byte offsets stay those of the line.
pub open spec fn mask_from(s: Text, i: int, depth: int, inb: bool) -> Text
    decreases s.len() - i,
{
    if i < 0 || i >= s.len() {
        seq![]
    } else {
        let c = s[i];
        if c == '[' || c == '(' || c == '{' {
            seq![c] + mask_from(s, i + 1, depth + 1, true)
        } else if c == ']' || c == ')' || c == '}' {
            if depth - 1 <= 0 {
                seq![c] + mask_from(s, i + 1, 0, false)
            } else {
                seq![c] + mask_from(s, i + 1, depth - 1, inb)
            }
        } else if inb {
            spaces(utf8_len(c)) + mask_from(s, i + 1, depth, inb)
        } else {
            seq![c] + mask_from(s, i + 1, depth, inb)
        }
    }
}

/// The line with bracket contents blanked.
pub open spec fn masked(s: Text) -> Text {
    mask_from(s, 0, 0, false)
}

// ---------------------------------------------------------------------------
// Edge lines
// ---------------------------------------------------------------------------

/// `o rest` / `x rest` on the right of an arrow (the mark standing alone, a
/// blank after it): the decoration and the rest. A node id that merely starts
/// with `o` or `x` is no decoration.
pub open spec fn leading_decoration(right: Text) -> Option<(char, Text)> {
    let t = trim(right);
    if t.len() > 1 && (t[0] == 'o' || t[0] == 'x') && is_ws(t[1]) && trim(t.skip(1)).len() > 0 {
        Some((t[0], trim(t.skip(1))))
    } else {
        None
    }
}

/// The edge a match of the pipe-label pattern describes (groups: left, arrow,
/// label, right): `Some(None)` when a group did not take part (no edge),
/// `None` when an end or the label is blank (the plain-arrow reading is tried).
pub open spec fn pipe_edge(gs: Seq<Option<Text>>) -> Option<Option<(Text, Option<Text>, Text, FlowMeta)>> {
    if group(gs, 1) is None || group(gs, 2) is None || group(gs, 3) is None || group(gs, 4) is None {
        Some(None)
    } else {
        let left = trim(group(gs, 1)->0);
        let arrow = trim(group(gs, 2)->0);
        let label = trim(group(gs, 3)->0);
        let right = trim(group(gs, 4)->0);
        if left.len() > 0 && right.len() > 0 && label.len() > 0 {
            Some(Some((left, Some(label), right, edge_meta(arrow))))
        } else {
            None
        }
    }
}

/// The direction that a match of the header pattern names (group 2), if the group took part.
pub open spec fn header_direction(gs: Seq<Option<Text>>) -> Option<Direction> {
    match group(gs, 2) {
        Some(d) => Some(direction_token(d)),
        None => None,
    }
}

/// Id and label that a match of the subgraph pattern declares (group 1: the rest of the line).
pub open spec fn subgraph_heading(gs: Seq<Option<Text>>) -> (Option<Text>, Text) {
    subgraph_header(match group(gs, 1) { Some(r) => r, None => seq![] })
}

/// The edge a match of the plain-arrow pattern describes (groups: left, arrow,
/// right): a spaced `o`/`x` mark or a `|label|` may open the right-hand side.
pub open spec fn arrow_edge(gs: Seq<Option<Text>>) -> Option<(Text, Option<Text>, Text, FlowMeta)> {
    if group(gs, 1) is None || group(gs, 2) is None || group(gs, 3) is None {
        None
    } else {
        let left = trim(group(gs, 1)->0);
        let right = trim(group(gs, 3)->0);
        let arrow = trim(group(gs, 2)->0);
        if left.len() == 0 || right.len() == 0 || arrow.len() == 0 {
            None
        } else {
            match leading_decoration(right) {
                Some((dec, rest)) => Some((left, None, rest, edge_meta(arrow.push(dec)))),
                None => {
                    let (label, tok) = if right.len() > 0 && right[0] == '|' {
                        match find_char(right.skip(1), '|') {
                            Some(e) => (Some(trim(right.skip(1).take(e))), trim(right.skip(1).skip(e + 1))),
                            None => (None, right),
                        }
                    } else {
                        (None, right)
                    };
                    if tok.len() == 0 {
                        None
                    } else {
                        Some((left, label, tok, edge_meta(arrow)))
                    }
                },
            }
        }
    }
}

/// An edge line: (left ends, label, right ends, arrow).
pub open spec fn edge_line(line: Text) -> Option<(Text, Option<Text>, Text, FlowMeta)> {
    let m = masked(line);
    let pipe = match regex_groups(pipe_label_pattern(), m, line) {
        Some(gs) => pipe_edge(gs),
        None => None,
    };
    match pipe {
        Some(r) => r,
        None => match regex_groups(arrow_pattern(), m, line) {
            None => None,
            Some(gs) => arrow_edge(gs),
        },
    }
}

/// Whether the arrow of a plain-arrow match opens a text label: `--`, `-.` or
/// `==`, as in `A -- text --> B`.
pub open spec fn opens_text(gs: Seq<Option<Text>>) -> bool {
    match group(gs, 2) {
        Some(a) => trim(a) == "--"@ || trim(a) == "-."@ || trim(a) == "=="@,
        None => false,
    }
}

/// Whether an edge line is read by the plain-arrow pattern, with an arrow that
/// opens a text label.
pub open spec fn text_label_opening(line: Text) -> bool {
    let m = masked(line);
    let piped = match regex_groups(pipe_label_pattern(), m, line) {
        Some(gs) => pipe_edge(gs),
        None => None,
    };
    piped is None && match regex_groups(arrow_pattern(), m, line) {
        Some(gs) => opens_text(gs),
        None => false,
    }
}

/// The links of an edge line. A chain `A --> B --> C` gives one link per
/// arrow: while the right-hand side is itself an edge line, the link ends at
/// that line's left ends and the rest is read again (`fuel` bounds the rounds).
/// An opening arrow with text after it, `A -- text --> B`, gives one link from
/// `A` labelled `text`, with the target and arrow of the arrow that follows.
pub open spec fn edge_chain(line: Text, fuel: nat) -> Seq<(Text, Option<Text>, Text, FlowMeta)>
    decreases fuel,
{
    match edge_line(line) {
        None => seq![],
        Some((l, lab, r, m)) => if fuel > 0 && edge_line(r) is Some {
            let rest = edge_chain(r, (fuel - 1) as nat);
            if lab is None && m.end_decoration is None && text_label_opening(line) {
                let (l2, _, r2, m2) = rest[0];
                seq![(l, Some(l2), r2, m2)] + rest.skip(1)
            } else {
                let (l2, _, _, _) = edge_line(r)->0;
                seq![(l, lab, l2, m)] + rest
            }
        } else {
            seq![(l, lab, r, m)]
        },
    }
}

/// An edge line has at least one link.
pub proof fn lemma_chain_nonempty(line: Text, fuel: nat)
    requires
        edge_line(line) is Some,
    ensures
        edge_chain(line, fuel).len() > 0,
{
}

/// The links of an edge line, read to the end of the line.
pub open spec fn edge_links(line: Text) -> Seq<(Text, Option<Text>, Text, FlowMeta)> {
    edge_chain(line, line.len() as nat)
}

// ---------------------------------------------------------------------------
// Node tokens
// ---------------------------------------------------------------------------

/// Label and shape inside `[...]`; `None` where the opening and closing marks
/// overlap (`[/]`, `[\]`), which has no inside to cut out.
pub open spec fn bracket_shape(raw: Text) -> Option<(Text, NodeShape)> {
    let t = trim(raw);
    let n = t.len();
    let two = |o: Text, c: Text| starts_with(t, o) && ends_with(t, c);
    if two("[/"@, "/]"@) || two("[\\"@, "\\]"@) || two("[["@, "]]"@) || two("[("@, ")]"@) {
        if n < 4 {
            None
        } else {
            let label = strip_quotes(t.subrange(2, n - 2));
            Some((label, if two("[/"@, "/]"@) {
                NodeShape::Parallelogram
            } else if two("[\\"@, "\\]"@) {
                NodeShape::Trapezoid
            } else if two("[["@, "]]"@) {
                NodeShape::Subroutine
            } else {
                NodeShape::Cylinder
            }))
        }
    } else if n >= 2 && t[0] == '[' && t[n - 1] == ']' {
        let inner = t.subrange(1, n - 1);
        let m = inner.len();
        if m >= 2 && inner[0] == '(' && inner[m - 1] == ')' {
            Some((strip_quotes(inner.subrange(1, m - 1)), NodeShape::Stadium))
        } else {
            Some((strip_quotes(inner), NodeShape::Rectangle))
        }
    } else {
        Some((strip_quotes(t), NodeShape::Rectangle))
    }
}

/// Label and shape inside `(...)`.
pub open spec fn paren_shape(raw: Text) -> (Text, NodeShape) {
    let t = trim(raw);
    let n = t.len();
    if starts_with(t, "((("@) && ends_with(t, ")))"@) && n >= 6 {
        (strip_quotes(t.subrange(3, n - 3)), NodeShape::DoubleCircle)
    } else if starts_with(t, "(("@) && ends_with(t, "))"@) && n >= 4 {
        (strip_quotes(t.subrange(2, n - 2)), NodeShape::Circle)
    } else if n >= 2 && t[0] == '(' && t[n - 1] == ')' {
        let inner = t.subrange(1, n - 1);
        let m = inner.len();
        if m >= 2 && inner[0] == '[' && inner[m - 1] == ']' {
            (strip_quotes(inner.subrange(1, m - 1)), NodeShape::Stadium)
        } else {
            (strip_quotes(inner), NodeShape::RoundRect)
        }
    } else {
        (strip_quotes(t), NodeShape::RoundRect)
    }
}

/// Label and shape inside `{...}`.
pub open spec fn brace_shape(raw: Text) -> (Text, NodeShape) {
    let t = trim(raw);
    let n = t.len();
    if starts_with(t, "{{"@) && ends_with(t, "}}"@) && n >= 4 {
        (strip_quotes(t.subrange(2, n - 2)), NodeShape::Hexagon)
    } else if n >= 2 && t[0] == '{' && t[n - 1] == '}' {
        (strip_quotes(t.subrange(1, n - 1)), NodeShape::Diamond)
    } else {
        (strip_quotes(t), NodeShape::Diamond)
    }
}

/// `id[...]`, `id(...)`, `id{...}`: id, label and shape; the outer `None` when
/// no form applies, the inner `None` for an inside that cannot be cut out.
pub open spec fn id_label(token: Text) -> Option<Option<(Text, Text, NodeShape)>> {
    let n = token.len();
    let sq = match find_char(token, '[') {
        Some(st) => if n > 0 && token[n - 1] == ']' && st > 0 && trim(token.take(st)).len() > 0 {
            match bracket_shape(token.skip(st)) {
                Some((l, sh)) => Some(Some((trim(token.take(st)), l, sh))),
                None => Some(None),
            }
        } else {
            None
        },
        None => None,
    };
    if sq is Some {
        sq
    } else {
        match find_char(token, '(') {
            Some(st) if n > 0 && token[n - 1] == ')' && st > 0 && trim(token.take(st)).len() > 0 => {
                let (l, sh) = paren_shape(token.skip(st));
                Some(Some((trim(token.take(st)), l, sh)))
            },
            _ => match find_char(token, '{') {
                Some(st) if n > 0 && token[n - 1] == '}' && st > 0 && trim(token.take(st)).len() > 0 => {
                    let (l, sh) = brace_shape(token.skip(st));
                    Some(Some((trim(token.take(st)), l, sh)))
                },
                _ => None,
            },
        }
    }
}

/// Trimmed non-empty pieces.
pub open spec fn nonempty_trimmed(ps: Seq<Text>) -> Seq<Text>
    decreases ps.len(),
{
    if ps.len() == 0 {
        seq![]
    } else if trim(ps.last()).len() > 0 {
        nonempty_trimmed(ps.drop_last()).push(trim(ps.last()))
    } else {
        nonempty_trimmed(ps.drop_last())
    }
}

/// A node token: `id`, a shaped node, `id>label]`, each with `:::class` suffixes.
pub struct NodeToken {
    pub id: Text,
    pub label: Option<Text>,
    pub shape: Option<NodeShape>,
    pub classes: Seq<Text>,
}

/// Reads a node token; `None` for a shaped node whose inside cannot be cut out.
pub open spec fn node_token(token: Text) -> Option<NodeToken> {
    let parts = split_pat(token, ":::"@);
    let base = trim(parts[0]);
    let classes = nonempty_trimmed(parts.skip(1));
    let t = trim(base);
    let n = t.len();
    let asym = if find_char(t, '[') is None {
        match find_char(t, '>') {
            Some(pos) => if n > 0 && t[n - 1] == ']' && pos > 0
                && trim(t.take(pos)).len() > 0 && trim(t.subrange(pos + 1, n - 1)).len() > 0 {
                Some(NodeToken {
                    id: trim(t.take(pos)),
                    label: Some(strip_quotes(trim(t.subrange(pos + 1, n - 1)))),
                    shape: Some(NodeShape::Asymmetric),
                    classes,
                })
            } else {
                None
            },
            None => None,
        }
    } else {
        None
    };
    if asym is Some {
        asym
    } else {
        match id_label(t) {
            Some(Some((id, label, shape))) => Some(NodeToken { id, label: Some(label), shape: Some(shape), classes }),
            Some(None) => None,
            None => Some(NodeToken { id: first_word(t), label: None, shape: None, classes }),
        }
    }
}

// ---------------------------------------------------------------------------
// Directives
// ---------------------------------------------------------------------------

/// A link-style override: dash lengths and width, each a number as written.
pub struct LinkOv {
    pub dash: Option<Seq<Text>>,
    pub width: Option<Text>,
}

/// Parser state between lines.
pub struct FlowSt {
    pub ast: AstV,
    pub stack: Seq<usize>,
    pub class_defs: Seq<(Text, StyleV)>,
    pub node_classes: Seq<(Text, Seq<Text>)>,
    pub links: Seq<(Option<Seq<usize>>, LinkOv)>,
    pub in_front_matter: bool,
    pub broken: bool,
}

/// `key: value, key: value` properties, split at commas, each at its first colon.
pub open spec fn props(s: Text) -> Seq<Option<(Text, Text)>> {
    split_char(s, ',').map_values(|p: Text| match split_once(trim(p), seq![':']) {
        Some((k, v)) => Some((trim(k), v)),
        None => None,
    })
}

/// A stroke width as written, when it is a number once a `px` suffix is dropped.
pub open spec fn width_text(v: Text) -> Option<Text> {
    let w = trim_end_pat(trim(v), "px"@);
    if float_literal(w) { Some(w) } else { None }
}

/// A style with the properties `fill`, `stroke`, `stroke-width`, `color` applied in order.
pub open spec fn apply_props(st: StyleV, ps: Seq<Option<(Text, Text)>>) -> StyleV
    decreases ps.len(),
{
    if ps.len() == 0 {
        st
    } else {
        let s1 = apply_props(st, ps.drop_last());
        match ps.last() {
            Some((k, v)) => if k == "fill"@ {
                StyleV { fill: Some(trim(v)), ..s1 }
            } else if k == "stroke"@ {
                StyleV { stroke: Some(trim(v)), ..s1 }
            } else if k == "stroke-width"@ {
                match width_text(v) {
                    Some(w) => StyleV { stroke_width: Some(w), ..s1 },
                    None => s1,
                }
            } else if k == "color"@ {
                StyleV { color: Some(trim(v)), ..s1 }
            } else {
                s1
            },
            None => s1,
        }
    }
}

/// The text after a directive keyword, split at its first whitespace: (first, rest).
pub open spec fn directive_args(line: Text, kw: Text) -> (Text, Text) {
    let rest = match strip_prefix(line, kw) { Some(r) => trim(r), None => seq![] };
    let (a, b) = split_ws_once(rest);
    (trim(a), match b { Some(x) => trim(x), None => seq![] })
}

/// `classDef name props`.
pub open spec fn class_def(st: FlowSt, line: Text) -> FlowSt {
    let (name, ps) = directive_args(line, "classDef"@);
    if name.len() == 0 {
        st
    } else {
        let base = match lookup(st.class_defs, name) { Some(s) => s, None => plain_style() };
        FlowSt { class_defs: insert(st.class_defs, name, apply_props(base, props(ps))), ..st }
    }
}

/// Pushes `cls` under each id.
pub open spec fn assign_class(m: Seq<(Text, Seq<Text>)>, ids: Seq<Text>, cls: Text) -> Seq<(Text, Seq<Text>)>
    decreases ids.len(),
{
    if ids.len() == 0 {
        m
    } else {
        let m1 = assign_class(m, ids.drop_last(), cls);
        if trim(ids.last()).len() > 0 { push_under(m1, trim(ids.last()), cls) } else { m1 }
    }
}

/// `class id1,id2 name`.
pub open spec fn class_assignment(st: FlowSt, line: Text) -> FlowSt {
    let (ids, name) = directive_args(line, "class"@);
    if name.len() == 0 {
        st
    } else {
        FlowSt { node_classes: assign_class(st.node_classes, split_char(ids, ','), name), ..st }
    }
}

/// `style id props`.
pub open spec fn style_line(st: FlowSt, line: Text) -> FlowSt {
    let (id, ps) = directive_args(line, "style"@);
    match first_index(node_ids(st.ast.nodes), id) {
        Some(j) => {
            let n = st.ast.nodes[j];
            let n2 = NodeV { style: apply_props(n.style, props(ps)), ..n };
            FlowSt { ast: AstV { nodes: st.ast.nodes.update(j, n2), ..st.ast }, ..st }
        },
        None => st,
    }
}

/// `click id url "target"`.
pub open spec fn click_line(st: FlowSt, line: Text) -> FlowSt {
    let rest = match strip_prefix(line, "click"@) { Some(r) => trim(r), None => seq![] };
    let (p1, r1) = split_ws_once(rest);
    let (p2, r2) = match r1 { Some(x) => split_ws_once(x), None => (seq![], None) };
    let id = trim(p1);
    let url = trim(p2);
    let target = match r2 { Some(x) => trim_char(trim(x), '"'), None => seq![] };
    if id.len() == 0 || url.len() == 0 {
        st
    } else {
        match first_index(node_ids(st.ast.nodes), id) {
            Some(j) => {
                let n = st.ast.nodes[j];
                let n2 = NodeV { link: Some((url, if target.len() == 0 { "_blank"@ } else { target })), ..n };
                FlowSt { ast: AstV { nodes: st.ast.nodes.update(j, n2), ..st.ast }, ..st }
            },
            None => st,
        }
    }
}

/// Indices of a comma list, those that parse.
pub open spec fn indices_of(ps: Seq<Text>) -> Seq<usize>
    decreases ps.len(),
{
    if ps.len() == 0 {
        seq![]
    } else {
        match parse_index(trim(ps.last())) {
            Some(i) => indices_of(ps.drop_last()).push(i),
            None => indices_of(ps.drop_last()),
        }
    }
}

/// Numbers among whitespace-separated words.
pub open spec fn numbers_of(ws: Seq<Text>) -> Seq<Text>
    decreases ws.len(),
{
    if ws.len() == 0 {
        seq![]
    } else if float_literal(ws.last()) {
        numbers_of(ws.drop_last()).push(ws.last())
    } else {
        numbers_of(ws.drop_last())
    }
}

/// A link-style override with the properties applied in order.
pub open spec fn link_props(ov: LinkOv, ps: Seq<Option<(Text, Text)>>) -> LinkOv
    decreases ps.len(),
{
    if ps.len() == 0 {
        ov
    } else {
        let o1 = link_props(ov, ps.drop_last());
        match ps.last() {
            Some((k, v)) => if k == "stroke-dasharray"@ && numbers_of(words(v)).len() > 0 {
                LinkOv { dash: Some(numbers_of(words(v))), ..o1 }
            } else if k == "stroke-width"@ && width_text(v) is Some {
                LinkOv { width: width_text(v), ..o1 }
            } else {
                o1
            },
            None => o1,
        }
    }
}

/// `linkStyle default|i,j props`.
pub open spec fn link_style(st: FlowSt, line: Text) -> FlowSt {
    let (target, ps) = directive_args(line, "linkStyle"@);
    if target.len() == 0 {
        st
    } else {
        let t: Option<Option<Seq<usize>>> = if target == "default"@ {
            Some(None)
        } else if indices_of(split_char(target, ',')).len() > 0 {
            Some(Some(indices_of(split_char(target, ','))))
        } else {
            None
        };
        match t {
            Some(tg) => FlowSt {
                links: st.links.push((tg, link_props(LinkOv { dash: None, width: None }, props(ps)))),
                ..st
            },
            None => st,
        }
    }
}

/// `subgraph` header: id (when one is written) and label.
pub open spec fn subgraph_header(rest0: Text) -> (Option<Text>, Text) {
    let rest = trim(rest0);
    if rest.len() == 0 {
        (None, seq![])
    } else if rest[0] == '"' && find_char(rest.skip(1), '"') is Some {
        (None, rest.subrange(1, find_char(rest.skip(1), '"')->0 + 1))
    } else {
        let k = id_prefix_len(rest, 0);
        let id = rest.take(k);
        let r2 = trim(trim_start_char(rest.skip(k), '['));
        if id.len() == 0 {
            (None, trim_end_char(r2, ']'))
        } else if r2.len() > 0 && (r2[0] == '[' || r2[0] == '"') {
            (Some(id), strip_quotes(trim(trim_end_char(trim_start_char(r2, '['), ']'))))
        } else if r2.len() > 0 {
            (Some(id), r2)
        } else {
            (Some(id), id)
        }
    }
}

/// Length of the run of alphanumeric, `_` and `-` characters of `s` from `i` on.
pub open spec fn id_prefix_len(s: Text, i: int) -> int
    decreases s.len() - i,
{
    if 0 <= i < s.len() && (unicode_alphanumeric(s[i]) || s[i] == '_' || s[i] == '-') {
        id_prefix_len(s, i + 1)
    } else {
        i
    }
}

/// Direction token, `TopDown` for anything else.
pub open spec fn direction_token(t: Text) -> Direction {
    if t == "BT"@ {
        Direction::BottomUp
    } else if t == "LR"@ {
        Direction::LeftToRight
    } else if t == "RL"@ {
        Direction::RightToLeft
    } else {
        Direction::TopDown
    }
}

// ---------------------------------------------------------------------------
// Effects on the model
// ---------------------------------------------------------------------------

/// Inside a subgraph, the node joins the innermost one.
pub open spec fn join_subgraph(a: AstV, stack: Seq<usize>, id: Text) -> AstV {
    if stack.len() > 0 && stack.last() < a.subgraphs.len()
        && first_index(a.subgraphs[stack.last() as int].nodes, id) is None {
        let idx = stack.last() as int;
        AstV {
            subgraphs: a.subgraphs.update(idx, SubgraphV { nodes: a.subgraphs[idx].nodes.push(id), ..a.subgraphs[idx] }),
            ..a
        }
    } else {
        a
    }
}

/// A node added unless one with its id exists.
pub open spec fn flow_node(a: AstV, id: Text, label: Text, shape: NodeShape, style: StyleV) -> AstV {
    ensure_node(a, NodeV { id, label, shape, style, link: None, subgraph: None })
}

/// Style of a node from its inline classes, then the classes assigned to it.
pub open spec fn resolve_style(id: Text, classes: Seq<Text>, defs: Seq<(Text, StyleV)>, assigned: Seq<(Text, Seq<Text>)>) -> StyleV {
    let all = classes + match lookup(assigned, id) { Some(v) => v, None => seq![] };
    overlay_classes(plain_style(), all, defs)
}

/// Overlays the styles of the classes, in order.
pub open spec fn overlay_classes(st: StyleV, cls: Seq<Text>, defs: Seq<(Text, StyleV)>) -> StyleV
    decreases cls.len(),
{
    if cls.len() == 0 {
        st
    } else {
        let s1 = overlay_classes(st, cls.drop_last(), defs);
        match lookup(defs, cls.last()) {
            Some(d) => StyleV {
                fill: if d.fill is Some { d.fill } else { s1.fill },
                stroke: if d.stroke is Some { d.stroke } else { s1.stroke },
                stroke_width: if d.stroke_width is Some { d.stroke_width } else { s1.stroke_width },
                color: if d.color is Some { d.color } else { s1.color },
            },
            None => s1,
        }
    }
}

/// The end of an edge: its node added, then joining the subgraph.
pub open spec fn edge_end(a: AstV, stack: Seq<usize>, t: NodeToken) -> AstV {
    let label = match t.label { Some(l) => l, None => t.id };
    let shape = match t.shape { Some(s) => s, None => NodeShape::RoundRect };
    join_subgraph(flow_node(a, t.id, label, shape, plain_style()), stack, t.id)
}

/// The edge from `src` to `tgt`.
pub open spec fn flow_edge(src: Text, tgt: Text, label: Option<Text>, m: FlowMeta) -> EdgeV {
    EdgeV {
        from: src,
        to: tgt,
        label,
        start_label: None,
        end_label: None,
        directed: m.directed,
        arrow_start: if m.arrow_start { Some(EdgeArrowhead::Arrow) } else { None },
        arrow_end: if m.arrow_end { Some(EdgeArrowhead::Arrow) } else { None },
        start_decoration: m.start_decoration,
        end_decoration: m.end_decoration,
        style: m.style,
    }
}

/// Edges from one source to the targets `tgts`, with whether every token could be
/// read; reading stops at the first token that cannot be.
pub open spec fn edges_to(a: AstV, stack: Seq<usize>, src: Text, tgts: Seq<Text>, label: Option<Text>, m: FlowMeta) -> (AstV, bool)
    decreases tgts.len(),
{
    if tgts.len() == 0 {
        (a, true)
    } else {
        let (a1, ok) = edges_to(a, stack, src, tgts.drop_last(), label, m);
        if !ok {
            (a1, false)
        } else {
            match node_token(tgts.last()) {
                None => (a1, false),
                Some(t) => if t.id.len() == 0 {
                    (a1, true)
                } else {
                    let a2 = edge_end(a1, stack, t);
                    (AstV { edges: a2.edges.push(flow_edge(src, t.id, label, m)), ..a2 }, true)
                },
            }
        }
    }
}

/// Edges from every source to every target, with whether every token could be read.
pub open spec fn edges_from(a: AstV, stack: Seq<usize>, srcs: Seq<Text>, tgts: Seq<Text>, label: Option<Text>, m: FlowMeta) -> (AstV, bool)
    decreases srcs.len(),
{
    if srcs.len() == 0 {
        (a, true)
    } else {
        let (a1, ok) = edges_from(a, stack, srcs.drop_last(), tgts, label, m);
        if !ok {
            (a1, false)
        } else {
            match node_token(srcs.last()) {
                None => (a1, false),
                Some(t) => if t.id.len() == 0 {
                    (a1, true)
                } else {
                    edges_to(edge_end(a1, stack, t), stack, t.id, tgts, label, m)
                },
            }
        }
    }
}

/// Ends listed with `&`.
pub open spec fn ends_of(t: Text) -> Seq<Text> {
    nonempty_trimmed(split_char(t, '&'))
}

/// The edges of the first `n` links added in order; `false` once a node token
/// does not read, the rest then skipped.
pub open spec fn chain_edges(a: AstV, stack: Seq<usize>, links: Seq<(Text, Option<Text>, Text, FlowMeta)>, n: int) -> (AstV, bool)
    decreases n,
{
    if n <= 0 {
        (a, true)
    } else {
        let (a1, ok) = chain_edges(a, stack, links, n - 1);
        if !ok {
            (a1, false)
        } else {
            let k = links[n - 1];
            edges_from(a1, stack, ends_of(k.0), ends_of(k.2), k.1, k.3)
        }
    }
}

/// One line outside the front matter.
#[verifier::opaque]
pub open spec fn flow_line(st: FlowSt, line: Text) -> FlowSt {
    if line.len() == 0 || starts_with(line, "%%"@) {
        st
    } else if regex_groups(header_pattern(), line, line) is Some {
        match header_direction(regex_groups(header_pattern(), line, line)->0) {
            Some(d) => FlowSt { ast: AstV { direction: d, ..st.ast }, ..st },
            None => st,
        }
    } else if words(line).len() == 2 && words(line)[0] == "direction"@ {
        let d = direction_token(words(line)[1]);
        if st.stack.len() > 0 {
            let idx = st.stack.last() as int;
            if idx < st.ast.subgraphs.len() {
                FlowSt {
                    ast: AstV {
                        subgraphs: st.ast.subgraphs.update(idx, SubgraphV { direction: Some(d), ..st.ast.subgraphs[idx] }),
                        ..st.ast
                    },
                    ..st
                }
            } else {
                st
            }
        } else {
            FlowSt { ast: AstV { direction: d, ..st.ast }, ..st }
        }
    } else if line == "end"@ {
        FlowSt { stack: if st.stack.len() > 0 { st.stack.drop_last() } else { st.stack }, ..st }
    } else if regex_groups(subgraph_pattern(), line, line) is Some {
        let (id_opt, label) = subgraph_heading(regex_groups(subgraph_pattern(), line, line)->0);
        let n = st.ast.subgraphs.len();
        let id = match id_opt { Some(i) => i, None => "__sg_"@ + decimal(n) + "__"@ };
        let sg = SubgraphV { id, label, direction: None, nodes: seq![], style: plain_style() };
        FlowSt { ast: AstV { subgraphs: st.ast.subgraphs.push(sg), ..st.ast }, stack: st.stack.push(n as usize), ..st }
    } else if starts_with(line, "classDef"@) {
        class_def(st, line)
    } else if starts_with(line, "class "@) {
        class_assignment(st, line)
    } else if starts_with(line, "style "@) {
        style_line(st, line)
    } else if starts_with(line, "linkStyle"@) {
        link_style(st, line)
    } else if starts_with(line, "click "@) {
        click_line(st, line)
    } else if starts_with(line, "title "@) {
        let t = trim(line.skip(6));
        if t.len() > 0 { FlowSt { ast: AstV { title: Some(t), ..st.ast }, ..st } } else { st }
    } else if starts_with(line, "accTitle"@) || starts_with(line, "accDescr"@) {
        st
    } else if edge_line(line) is Some {
        let links = edge_links(line);
        let (a, ok) = chain_edges(st.ast, st.stack, links, links.len() as int);
        FlowSt { ast: a, broken: !ok, ..st }
    } else {
        match node_token(line) {
            None => FlowSt { broken: true, ..st },
            Some(t) => if t.id.len() == 0 {
                st
            } else {
                let label = match t.label { Some(l) => l, None => t.id };
                let shape = match t.shape { Some(s) => s, None => NodeShape::RoundRect };
                let style = resolve_style(t.id, t.classes, st.class_defs, st.node_classes);
                FlowSt { ast: join_subgraph(flow_node(st.ast, t.id, label, shape, style), st.stack, t.id), ..st }
            },
        }
    }
}

/// One line, front matter included.
pub open spec fn flow_step(st: FlowSt, raw: Text) -> FlowSt {
    let line = trim(raw);
    if st.broken {
        st
    } else if st.in_front_matter {
        if line == "---"@ {
            FlowSt { in_front_matter: false, ..st }
        } else {
            match strip_prefix(line, "title:"@) {
                Some(t) => if trim(t).len() > 0 { FlowSt { ast: AstV { title: Some(trim(t)), ..st.ast }, ..st } } else { st },
                None => st,
            }
        }
    } else {
        flow_line(st, line)
    }
}

/// State after lines `ls[start..n]`.
pub open spec fn flow_run(ls: Seq<Text>, start: int, n: int) -> FlowSt
    decreases n - start,
{
    if n <= start {
        FlowSt {
            ast: empty_ast(DiagramKind::Flowchart),
            stack: seq![],
            class_defs: seq![],
            node_classes: seq![],
            links: seq![],
            in_front_matter: start > 0,
            broken: false,
        }
    } else {
        flow_step(flow_run(ls, start, n - 1), ls[n - 1])
    }
}

/// The line style a link-style override asks for: short dashes dot, long ones
/// dash, a wide stroke is thick.
pub open spec fn override_style(ov: LinkOv) -> Option<EdgeStyle> {
    match ov.dash {
        Some(d) => if forall|i: int| 0 <= i < d.len() ==> float_at_most_2_5(#[trigger] d[i]) {
            Some(EdgeStyle::Dotted)
        } else {
            Some(EdgeStyle::Dashed)
        },
        None => match ov.width {
            Some(w) => if float_at_least_2_5(w) { Some(EdgeStyle::Thick) } else { None },
            None => None,
        },
    }
}

/// Edges with one override applied.
pub open spec fn apply_override(es: Seq<EdgeV>, target: Option<Seq<usize>>, s: EdgeStyle) -> Seq<EdgeV> {
    match target {
        None => es.map_values(|e: EdgeV| EdgeV { style: s, ..e }),
        Some(ix) => Seq::new(es.len(), |k: int| if ix.contains(k as usize) { EdgeV { style: s, ..es[k] } } else { es[k] }),
    }
}

/// Edges with the overrides applied in order.
pub open spec fn apply_overrides(es: Seq<EdgeV>, links: Seq<(Option<Seq<usize>>, LinkOv)>) -> Seq<EdgeV>
    decreases links.len(),
{
    if links.len() == 0 {
        es
    } else {
        let e1 = apply_overrides(es, links.drop_last());
        match override_style(links.last().1) {
            Some(s) => apply_override(e1, links.last().0, s),
            None => e1,
        }
    }
}

/// Whether the first line opens front matter.
pub open spec fn opens_front_matter(ls: Seq<Text>) -> bool {
    ls.len() > 0 && trim(ls[0]) == "---"@
}

/// Final state of a flowchart source.
pub open spec fn flow_final(s: Seq<char>) -> FlowSt {
    let ls = lines(s);
    flow_run(ls, if opens_front_matter(ls) { 1int } else { 0int }, ls.len() as int)
}

/// The model a flowchart source describes.
pub open spec fn flow_model(s: Seq<char>) -> AstV {
    let st = flow_final(s);
    AstV { edges: apply_overrides(st.ast.edges, st.links), ..st.ast }
}

/// Whether the source holds a shaped node whose inside cannot be cut out.
pub open spec fn flow_unreadable(s: Seq<char>) -> bool {
    flow_final(s).broken
}


// ---------------------------------------------------------------------------
// Distinct nodes
// ---------------------------------------------------------------------------

proof fn lemma_edge_end_unique(a: AstV, stack: Seq<usize>, t: NodeToken)
    requires
        unique_ids(a.nodes),
    ensures
        unique_ids(edge_end(a, stack, t).nodes),
        edge_end(a, stack, t).kind == a.kind,
{
    let label = match t.label { Some(l) => l, None => t.id };
    let shape = match t.shape { Some(s) => s, None => NodeShape::RoundRect };
    lemma_ensure_node_unique(a, NodeV { id: t.id, label, shape, style: plain_style(), link: None, subgraph: None });
}

proof fn lemma_edges_to_unique(a: AstV, stack: Seq<usize>, src: Text, tgts: Seq<Text>, label: Option<Text>, m: FlowMeta)
    requires
        unique_ids(a.nodes),
    ensures
        unique_ids(edges_to(a, stack, src, tgts, label, m).0.nodes),
        edges_to(a, stack, src, tgts, label, m).0.kind == a.kind,
    decreases tgts.len(),
{
    if tgts.len() > 0 {
        lemma_edges_to_unique(a, stack, src, tgts.drop_last(), label, m);
        let (a1, ok) = edges_to(a, stack, src, tgts.drop_last(), label, m);
        if ok {
            match node_token(tgts.last()) {
                Some(t) => if t.id.len() > 0 {
                    lemma_edge_end_unique(a1, stack, t);
                },
                None => {},
            }
        }
    }
}

proof fn lemma_edges_from_unique(a: AstV, stack: Seq<usize>, srcs: Seq<Text>, tgts: Seq<Text>, label: Option<Text>, m: FlowMeta)
    requires
        unique_ids(a.nodes),
    ensures
        unique_ids(edges_from(a, stack, srcs, tgts, label, m).0.nodes),
        edges_from(a, stack, srcs, tgts, label, m).0.kind == a.kind,
    decreases srcs.len(),
{
    if srcs.len() > 0 {
        lemma_edges_from_unique(a, stack, srcs.drop_last(), tgts, label, m);
        let (a1, ok) = edges_from(a, stack, srcs.drop_last(), tgts, label, m);
        if ok {
            match node_token(srcs.last()) {
                Some(t) => if t.id.len() > 0 {
                    lemma_edge_end_unique(a1, stack, t);
                    lemma_edges_to_unique(edge_end(a1, stack, t), stack, t.id, tgts, label, m);
                },
                None => {},
            }
        }
    }
}

/// Once a link fails, the later links change nothing.
pub proof fn lemma_chain_edges_stop(a: AstV, stack: Seq<usize>, links: Seq<(Text, Option<Text>, Text, FlowMeta)>, i: int, n: int)
    requires
        0 <= i <= n,
        !chain_edges(a, stack, links, i).1,
    ensures
        chain_edges(a, stack, links, n) == chain_edges(a, stack, links, i),
    decreases n - i,
{
    if n > i {
        lemma_chain_edges_stop(a, stack, links, i, n - 1);
    }
}

proof fn lemma_chain_edges_unique(a: AstV, stack: Seq<usize>, links: Seq<(Text, Option<Text>, Text, FlowMeta)>, n: int)
    requires
        unique_ids(a.nodes),
    ensures
        unique_ids(chain_edges(a, stack, links, n).0.nodes),
        chain_edges(a, stack, links, n).0.kind == a.kind,
    decreases n,
{
    if n > 0 {
        lemma_chain_edges_unique(a, stack, links, n - 1);
        let (a1, ok) = chain_edges(a, stack, links, n - 1);
        if ok {
            let k = links[n - 1];
            lemma_edges_from_unique(a1, stack, ends_of(k.0), ends_of(k.2), k.1, k.3);
        }
    }
}

proof fn lemma_update_same_id_unique(nodes: Seq<NodeV>, j: int, n2: NodeV)
    requires
        unique_ids(nodes),
        0 <= j < nodes.len(),
        n2.id == nodes[j].id,
    ensures
        unique_ids(nodes.update(j, n2)),
{
    crate::model::lemma_same_ids_unique(nodes, nodes.update(j, n2));
}

proof fn lemma_flow_line_unique(st: FlowSt, line: Text)
    requires
        unique_ids(st.ast.nodes),
    ensures
        unique_ids(flow_line(st, line).ast.nodes),
        flow_line(st, line).ast.kind == st.ast.kind,
{
    reveal(flow_line);
    if line.len() == 0 || starts_with(line, "%%"@) {
    } else if regex_groups(header_pattern(), line, line) is Some {
    } else if words(line).len() == 2 && words(line)[0] == "direction"@ {
    } else if line == "end"@ {
    } else if regex_groups(subgraph_pattern(), line, line) is Some {
    } else if starts_with(line, "classDef"@) || starts_with(line, "class "@) {
    } else if starts_with(line, "style "@) {
        let (id, ps) = directive_args(line, "style"@);
        crate::model::lemma_first_index(node_ids(st.ast.nodes), id);
        match first_index(node_ids(st.ast.nodes), id) {
            Some(j) => {
                let n = st.ast.nodes[j];
                lemma_update_same_id_unique(st.ast.nodes, j, NodeV { style: apply_props(n.style, props(ps)), ..n });
            },
            None => {},
        }
    } else if starts_with(line, "linkStyle"@) {
    } else if starts_with(line, "click "@) {
        let rest = match strip_prefix(line, "click"@) { Some(r) => trim(r), None => seq![] };
        let (p1, r1) = split_ws_once(rest);
        let (p2, r2) = match r1 { Some(x) => split_ws_once(x), None => (seq![], None) };
        let id = trim(p1);
        let url = trim(p2);
        let target = match r2 { Some(x) => trim_char(trim(x), '"'), None => seq![] };
        crate::model::lemma_first_index(node_ids(st.ast.nodes), id);
        if id.len() > 0 && url.len() > 0 {
            match first_index(node_ids(st.ast.nodes), id) {
                Some(j) => {
                    let n = st.ast.nodes[j];
                    lemma_update_same_id_unique(st.ast.nodes, j,
                        NodeV { link: Some((url, if target.len() == 0 { "_blank"@ } else { target })), ..n });
                },
                None => {},
            }
        }
    } else if starts_with(line, "title "@) || starts_with(line, "accTitle"@) || starts_with(line, "accDescr"@) {
    } else if edge_line(line) is Some {
        let links = edge_links(line);
        lemma_chain_edges_unique(st.ast, st.stack, links, links.len() as int);
    } else {
        match node_token(line) {
            None => {},
            Some(t) => if t.id.len() > 0 {
                let label = match t.label { Some(l) => l, None => t.id };
                let shape = match t.shape { Some(s) => s, None => NodeShape::RoundRect };
                let style = resolve_style(t.id, t.classes, st.class_defs, st.node_classes);
                lemma_ensure_node_unique(st.ast, NodeV { id: t.id, label, shape, style, link: None, subgraph: None });
            },
        }
    }
}

proof fn lemma_flow_run_unique(ls: Seq<Text>, start: int, n: int)
    ensures
        unique_ids(flow_run(ls, start, n).ast.nodes),
        flow_run(ls, start, n).ast.kind == DiagramKind::Flowchart,
    decreases n - start,
{
    if n > start {
        lemma_flow_run_unique(ls, start, n - 1);
        let st = flow_run(ls, start, n - 1);
        let line = trim(ls[n - 1]);
        if !st.broken && !st.in_front_matter {
            lemma_flow_line_unique(st, line);
        }
    }
}

/// The nodes of a parsed flowchart have distinct ids.
pub proof fn lemma_flow_model_unique(s: Seq<char>)
    ensures
        unique_ids(flow_model(s).nodes),
        flow_model(s).kind == DiagramKind::Flowchart,
{
    let ls = lines(s);
    lemma_flow_run_unique(ls, if opens_front_matter(ls) { 1int } else { 0int }, ls.len() as int);
}


/// Law: the marks at the two ends of an arrow token decide its two ends. A
/// token of two or more characters without surrounding blanks starts (ends)
/// with a circle mark exactly when its first (last) character is `o`, and with
/// a cross exactly when it is `x`. Read from the other end (reversed, `<` and
/// `>` swapped), the token has its arrowheads and marks on swapped sides, and
/// keeps whether it is directed and its line style.
pub proof fn law_arrow_ends(t: Text)
    requires
        t.len() >= 2,
        !crate::text::is_ws(t[0]),
        !crate::text::is_ws(t[t.len() - 1]),
    ensures
        edge_meta(t).start_decoration == (if t[0] == 'o' { Some(EdgeDecoration::Circle) } else if t[0] == 'x' {
            Some(EdgeDecoration::Cross) } else { None }),
        edge_meta(t).end_decoration == (if t.last() == 'o' { Some(EdgeDecoration::Circle) } else if t.last() == 'x' {
            Some(EdgeDecoration::Cross) } else { None }),
        edge_meta(crate::class::mirror_token(t)).start_decoration == edge_meta(t).end_decoration,
        edge_meta(crate::class::mirror_token(t)).end_decoration == edge_meta(t).start_decoration,
        edge_meta(crate::class::mirror_token(t)).arrow_start == edge_meta(t).arrow_end,
        edge_meta(crate::class::mirror_token(t)).arrow_end == edge_meta(t).arrow_start,
        edge_meta(crate::class::mirror_token(t)).directed == edge_meta(t).directed,
        edge_meta(crate::class::mirror_token(t)).style == edge_meta(t).style,
        edge_meta(t).style == (if t.contains('.') { EdgeStyle::Dotted } else if t.contains('=') {
            EdgeStyle::Thick } else { EdgeStyle::Solid }),
        edge_meta(t).directed == (edge_meta(t).arrow_start || edge_meta(t).arrow_end),
{
    let n = t.len() as int;
    let m = crate::class::mirror_token(t);
    assert(m[0] == crate::class::flip_mark(t[n - 1]));
    assert(m[n - 1] == crate::class::flip_mark(t[0]));
    assert(crate::text::skip_ws(t, 0) == 0);
    assert(crate::text::trim_start(t) =~= t);
    assert(crate::text::back_ws(t, n) == n);
    assert(trim(t) =~= t);
    assert(!crate::text::is_ws(m[0]));
    assert(!crate::text::is_ws(m[n - 1]));
    assert(crate::text::skip_ws(m, 0) == 0);
    assert(crate::text::trim_start(m) =~= m);
    assert(crate::text::back_ws(m, n) == n);
    assert(trim(m) =~= m);
    let a: int = if t[0] == 'o' || t[0] == 'x' { 1 } else { 0 };
    let b: int = if t[n - 1] == 'o' || t[n - 1] == 'x' { 1 } else { 0 };
    let s1t = if a == 1 { t.skip(1) } else { t };
    let s1m = if b == 1 { m.skip(1) } else { m };
    assert(s1t.last() == t[n - 1]);
    assert(s1m.last() == m[n - 1]);
    let ct = t.subrange(a, n - b);
    let cm = m.subrange(b, n - a);
    assert(ct =~= if b == 1 { s1t.drop_last() } else { s1t });
    assert(cm =~= if a == 1 { s1m.drop_last() } else { s1m });
    assert(cm =~= crate::class::mirror_token(ct));
    if ct.len() > 0 {
        assert(cm[0] == crate::class::flip_mark(ct[ct.len() - 1]));
        assert(cm[cm.len() - 1] == crate::class::flip_mark(ct[0]));
    }
    crate::class::lemma_mirror_has(ct, '=');
    crate::class::lemma_mirror_has(ct, '.');
    lemma_core_has(t, ct, a, b, '=');
    lemma_core_has(t, ct, a, b, '.');
}

proof fn lemma_core_has(t: Text, ct: Text, a: int, b: int, c: char)
    requires
        t.len() >= 2,
        0 <= a <= 1,
        0 <= b <= 1,
        ct == t.subrange(a, t.len() - b),
        a == 1 ==> (t[0] == 'o' || t[0] == 'x'),
        b == 1 ==> (t[t.len() - 1] == 'o' || t[t.len() - 1] == 'x'),
        c != 'o' && c != 'x',
    ensures
        find_char(ct, c) is Some <==> t.contains(c),
{
    crate::class::lemma_find_some(ct, seq![c]);
    if t.contains(c) {
        let i = choose|i: int| 0 <= i < t.len() && t[i] == c;
        assert(a <= i < t.len() - b);
        assert(ct[i - a] == c);
        assert(ct.subrange(i - a, i - a + 1) =~= seq![c]);
        assert(crate::text::matches_at(ct, seq![c], i - a));
    }
    if exists|k: int| crate::text::matches_at(ct, seq![c], k) {
        let k = choose|k: int| crate::text::matches_at(ct, seq![c], k);
        assert(ct.subrange(k, k + 1)[0] == ct[k]);
        assert(t[k + a] == c);
    }
}


/// The direction words of a flowchart header.
pub open spec fn direction_words() -> Seq<Text> {
    seq!["TB"@, "TD"@, "BT"@, "LR"@, "RL"@]
}

/// Law: a direction word names the side the flow starts from: `T`op gives top
/// down, `B`ottom bottom up, `L`eft left to right and `R`ight right to left.
/// Any other word gives top down.
pub proof fn law_direction_words(t: Text)
    ensures
        direction_words().contains(t) ==> direction_token(t) == (if t[0] == 'B' {
            Direction::BottomUp
        } else if t[0] == 'L' {
            Direction::LeftToRight
        } else if t[0] == 'R' {
            Direction::RightToLeft
        } else {
            Direction::TopDown
        }),
        !direction_words().contains(t) ==> direction_token(t) == Direction::TopDown,
{
    reveal_strlit("TB");
    reveal_strlit("TD");
    reveal_strlit("BT");
    reveal_strlit("LR");
    reveal_strlit("RL");
    let ws = direction_words();
    if ws.contains(t) {
        let k = choose|k: int| 0 <= k < ws.len() && ws[k] == t;
        assert(ws[k] == t);
    } else {
        assert(t != ws[2] && t != ws[3] && t != ws[4]);
    }
}


/// Whether a character is one of the marks that open or close a node's shape.
pub open spec fn shape_mark(c: char) -> bool {
    c == '[' || c == ']' || c == '(' || c == ')' || c == '{' || c == '}' || c == '/' || c == '\\'
}

/// A label that neither begins nor ends with a blank or a shape mark.
pub open spec fn plain_label(x: Text) -> bool {
    &&& x.len() > 0
    &&& !crate::text::is_ws(x[0]) && !shape_mark(x[0])
    &&& !crate::text::is_ws(x[x.len() - 1]) && !shape_mark(x[x.len() - 1])
}

proof fn lemma_wrapped(o: Text, x: Text, c: Text)
    requires
        plain_label(x),
        o.len() >= 1,
        c.len() >= 1,
        !crate::text::is_ws(o[0]),
        !crate::text::is_ws(c[c.len() - 1]),
    ensures
        ({
            let t = o + x + c;
            let n = t.len() as int;
            &&& trim(t) == t
            &&& n == o.len() + x.len() + c.len()
            &&& forall|i: int| 0 <= i < o.len() ==> t[i] == o[i]
            &&& forall|k: int| 0 <= k < c.len() ==> t[n - c.len() + k] == c[k]
            &&& t[o.len() as int] == x[0]
            &&& t[n - c.len() - 1] == x[x.len() - 1]
            &&& t.subrange(o.len() as int, n - c.len()) == x
        }),
{
    let t = o + x + c;
    let n = t.len() as int;
    assert(t[0] == o[0]);
    assert(t[n - 1] == c[c.len() - 1]);
    assert(crate::text::skip_ws(t, 0) == 0);
    assert(crate::text::trim_start(t) =~= t);
    assert(crate::text::back_ws(t, n) == n);
    assert(trim(t) =~= t);
    assert(t.subrange(o.len() as int, n - c.len()) =~= x);
}

proof fn lemma_starts_ends(t: Text, p: Text)
    ensures
        starts_with(t, p) <==> (p.len() <= t.len() && forall|i: int| 0 <= i < p.len() ==> t[i] == p[i]),
        ends_with(t, p) <==> (p.len() <= t.len() && forall|i: int| 0 <= i < p.len() ==> t[t.len() - p.len() + i] == p[i]),
{
    if p.len() <= t.len() && forall|i: int| 0 <= i < p.len() ==> t[i] == p[i] {
        assert(t.subrange(0, p.len() as int) =~= p);
    }
    if starts_with(t, p) {
        assert forall|i: int| 0 <= i < p.len() implies t[i] == p[i] by {
            assert(t.subrange(0, p.len() as int)[i] == t[i]);
        }
    }
    if p.len() <= t.len() && forall|i: int| 0 <= i < p.len() ==> t[t.len() - p.len() + i] == p[i] {
        assert(t.subrange(t.len() - p.len(), t.len() as int) =~= p);
    }
    if ends_with(t, p) {
        assert forall|i: int| 0 <= i < p.len() implies t[t.len() - p.len() + i] == p[i] by {
            assert(t.subrange(t.len() - p.len(), t.len() as int)[i] == t[t.len() - p.len() + i]);
        }
    }
}

/// Law: the marks around a node's label decide its shape, whatever the label
/// (one that neither begins nor ends with a blank or a shape mark): `[x]` a
/// rectangle, `[(x)]` a cylinder, `[[x]]` a subroutine, `[/x/]` a
/// parallelogram, `[\x\]` a trapezoid, `(x)` a rounded rectangle, `([x])` a
/// stadium, `((x))` a circle, `(((x)))` a double circle, `{x}` a diamond and
/// `{{x}}` a hexagon; the label is `x` without surrounding quotes.
pub proof fn law_node_shapes(x: Text)
    requires
        plain_label(x),
    ensures
        bracket_shape("["@ + x + "]"@) == Some((strip_quotes(x), NodeShape::Rectangle)),
        bracket_shape("[("@ + x + ")]"@) == Some((strip_quotes(x), NodeShape::Cylinder)),
        bracket_shape("[["@ + x + "]]"@) == Some((strip_quotes(x), NodeShape::Subroutine)),
        bracket_shape("[/"@ + x + "/]"@) == Some((strip_quotes(x), NodeShape::Parallelogram)),
        bracket_shape("[\\"@ + x + "\\]"@) == Some((strip_quotes(x), NodeShape::Trapezoid)),
        paren_shape("("@ + x + ")"@) == (strip_quotes(x), NodeShape::RoundRect),
        paren_shape("(["@ + x + "])"@) == (strip_quotes(x), NodeShape::Stadium),
        paren_shape("(("@ + x + "))"@) == (strip_quotes(x), NodeShape::Circle),
        paren_shape("((("@ + x + ")))"@) == (strip_quotes(x), NodeShape::DoubleCircle),
        brace_shape("{"@ + x + "}"@) == (strip_quotes(x), NodeShape::Diamond),
        brace_shape("{{"@ + x + "}}"@) == (strip_quotes(x), NodeShape::Hexagon),
{
    reveal_strlit("[");
    reveal_strlit("]");
    reveal_strlit("[(");
    reveal_strlit(")]");
    reveal_strlit("[[");
    reveal_strlit("]]");
    reveal_strlit("[/");
    reveal_strlit("/]");
    reveal_strlit("[\\");
    reveal_strlit("\\]");
    reveal_strlit("(");
    reveal_strlit(")");
    reveal_strlit("([");
    reveal_strlit("])");
    reveal_strlit("((");
    reveal_strlit("))");
    reveal_strlit("(((");
    reveal_strlit(")))");
    reveal_strlit("{");
    reveal_strlit("}");
    reveal_strlit("{{");
    reveal_strlit("}}");
    lemma_bracket_forms(x);
    lemma_paren_forms(x);
    lemma_brace_forms(x);
}

proof fn lemma_bracket_rectangle(x: Text)
    requires
        plain_label(x),
    ensures
        bracket_shape("["@ + x + "]"@) == Some((strip_quotes(x), NodeShape::Rectangle)),
{
    reveal_strlit(")]");
    reveal_strlit("/]");
    reveal_strlit("[");
    reveal_strlit("[(");
    reveal_strlit("[/");
    reveal_strlit("[[");
    reveal_strlit("[\\");
    reveal_strlit("\\]");
    reveal_strlit("]");
    reveal_strlit("]]");
    let t = "["@ + x + "]"@;
    lemma_wrapped("["@, x, "]"@);
    lemma_starts_ends(t, "[/"@);
    lemma_starts_ends(t, "/]"@);
    lemma_starts_ends(t, "[\\"@);
    lemma_starts_ends(t, "\\]"@);
    lemma_starts_ends(t, "[["@);
    lemma_starts_ends(t, "]]"@);
    lemma_starts_ends(t, "[("@);
    lemma_starts_ends(t, ")]"@);
}

proof fn lemma_bracket_cylinder(x: Text)
    requires
        plain_label(x),
    ensures
        bracket_shape("[("@ + x + ")]"@) == Some((strip_quotes(x), NodeShape::Cylinder)),
{
    reveal_strlit(")]");
    reveal_strlit("/]");
    reveal_strlit("[(");
    reveal_strlit("[/");
    reveal_strlit("[[");
    reveal_strlit("[\\");
    reveal_strlit("\\]");
    reveal_strlit("]]");
    let t = "[("@ + x + ")]"@;
    lemma_wrapped("[("@, x, ")]"@);
    lemma_starts_ends(t, "[/"@);
    lemma_starts_ends(t, "/]"@);
    lemma_starts_ends(t, "[\\"@);
    lemma_starts_ends(t, "\\]"@);
    lemma_starts_ends(t, "[["@);
    lemma_starts_ends(t, "]]"@);
    lemma_starts_ends(t, "[("@);
    lemma_starts_ends(t, ")]"@);
}

proof fn lemma_bracket_subroutine(x: Text)
    requires
        plain_label(x),
    ensures
        bracket_shape("[["@ + x + "]]"@) == Some((strip_quotes(x), NodeShape::Subroutine)),
{
    reveal_strlit("/]");
    reveal_strlit("[/");
    reveal_strlit("[[");
    reveal_strlit("[\\");
    reveal_strlit("\\]");
    reveal_strlit("]]");
    let t = "[["@ + x + "]]"@;
    lemma_wrapped("[["@, x, "]]"@);
    lemma_starts_ends(t, "[/"@);
    lemma_starts_ends(t, "/]"@);
    lemma_starts_ends(t, "[\\"@);
    lemma_starts_ends(t, "\\]"@);
    lemma_starts_ends(t, "[["@);
    lemma_starts_ends(t, "]]"@);
}

proof fn lemma_bracket_parallelogram(x: Text)
    requires
        plain_label(x),
    ensures
        bracket_shape("[/"@ + x + "/]"@) == Some((strip_quotes(x), NodeShape::Parallelogram)),
{
    reveal_strlit("/]");
    reveal_strlit("[/");
    let t = "[/"@ + x + "/]"@;
    lemma_wrapped("[/"@, x, "/]"@);
    lemma_starts_ends(t, "[/"@);
    lemma_starts_ends(t, "/]"@);
}

proof fn lemma_bracket_trapezoid(x: Text)
    requires
        plain_label(x),
    ensures
        bracket_shape("[\\"@ + x + "\\]"@) == Some((strip_quotes(x), NodeShape::Trapezoid)),
{
    reveal_strlit("/]");
    reveal_strlit("[/");
    reveal_strlit("[\\");
    reveal_strlit("\\]");
    let t = "[\\"@ + x + "\\]"@;
    lemma_wrapped("[\\"@, x, "\\]"@);
    lemma_starts_ends(t, "[/"@);
    lemma_starts_ends(t, "/]"@);
    lemma_starts_ends(t, "[\\"@);
    lemma_starts_ends(t, "\\]"@);
}

proof fn lemma_paren_roundrect(x: Text)
    requires
        plain_label(x),
    ensures
        paren_shape("("@ + x + ")"@) == (strip_quotes(x), NodeShape::RoundRect),
{
    reveal_strlit("(");
    reveal_strlit("((");
    reveal_strlit("(((");
    reveal_strlit(")");
    reveal_strlit("))");
    reveal_strlit(")))");
    let t = "("@ + x + ")"@;
    lemma_wrapped("("@, x, ")"@);
    lemma_starts_ends(t, "((("@);
    lemma_starts_ends(t, ")))"@);
    lemma_starts_ends(t, "(("@);
    lemma_starts_ends(t, "))"@);
}

proof fn lemma_paren_stadium(x: Text)
    requires
        plain_label(x),
    ensures
        paren_shape("(["@ + x + "])"@) == (strip_quotes(x), NodeShape::Stadium),
{
    reveal_strlit("([");
    reveal_strlit("])");
    reveal_strlit("(((");
    reveal_strlit(")))");
    reveal_strlit("((");
    reveal_strlit("))");
    let o = "(["@;
    let c = "])"@;
    assert(o =~= seq!['(', '[']);
    assert(c =~= seq![']', ')']);
    let t = o + x + c;
    lemma_wrapped(o, x, c);
    let n = t.len() as int;
    assert(t[1] == '[');
    lemma_starts_ends(t, "(("@);
    assert(!starts_with(t, "(("@));
    assert(!starts_with(t, "((("@)) by {
        lemma_starts_ends(t, "((("@);
    }
    let inner = t.subrange(1, n - 1);
    assert(inner =~= seq!['['] + x + seq![']']);
    assert(inner.subrange(1, inner.len() - 1) =~= x);
}

proof fn lemma_paren_circle(x: Text)
    requires
        plain_label(x),
    ensures
        paren_shape("(("@ + x + "))"@) == (strip_quotes(x), NodeShape::Circle),
{
    reveal_strlit("((");
    reveal_strlit("(((");
    reveal_strlit("))");
    reveal_strlit(")))");
    let t = "(("@ + x + "))"@;
    lemma_wrapped("(("@, x, "))"@);
    lemma_starts_ends(t, "((("@);
    lemma_starts_ends(t, ")))"@);
    lemma_starts_ends(t, "(("@);
    lemma_starts_ends(t, "))"@);
}

proof fn lemma_paren_doublecircle(x: Text)
    requires
        plain_label(x),
    ensures
        paren_shape("((("@ + x + ")))"@) == (strip_quotes(x), NodeShape::DoubleCircle),
{
    reveal_strlit("(((");
    reveal_strlit(")))");
    let t = "((("@ + x + ")))"@;
    lemma_wrapped("((("@, x, ")))"@);
    lemma_starts_ends(t, "((("@);
    lemma_starts_ends(t, ")))"@);
}

proof fn lemma_bracket_forms(x: Text)
    requires
        plain_label(x),
    ensures
        bracket_shape("["@ + x + "]"@) == Some((strip_quotes(x), NodeShape::Rectangle)),
        bracket_shape("[("@ + x + ")]"@) == Some((strip_quotes(x), NodeShape::Cylinder)),
        bracket_shape("[["@ + x + "]]"@) == Some((strip_quotes(x), NodeShape::Subroutine)),
        bracket_shape("[/"@ + x + "/]"@) == Some((strip_quotes(x), NodeShape::Parallelogram)),
        bracket_shape("[\\"@ + x + "\\]"@) == Some((strip_quotes(x), NodeShape::Trapezoid)),
{
    lemma_bracket_rectangle(x);
    lemma_bracket_cylinder(x);
    lemma_bracket_subroutine(x);
    lemma_bracket_parallelogram(x);
    lemma_bracket_trapezoid(x);
}

proof fn lemma_paren_forms(x: Text)
    requires
        plain_label(x),
    ensures
        paren_shape("("@ + x + ")"@) == (strip_quotes(x), NodeShape::RoundRect),
        paren_shape("(["@ + x + "])"@) == (strip_quotes(x), NodeShape::Stadium),
        paren_shape("(("@ + x + "))"@) == (strip_quotes(x), NodeShape::Circle),
        paren_shape("((("@ + x + ")))"@) == (strip_quotes(x), NodeShape::DoubleCircle),
{
    lemma_paren_roundrect(x);
    lemma_paren_stadium(x);
    lemma_paren_circle(x);
    lemma_paren_doublecircle(x);
}

proof fn lemma_brace_forms(x: Text)
    requires
        plain_label(x),
    ensures
        brace_shape("{"@ + x + "}"@) == (strip_quotes(x), NodeShape::Diamond),
        brace_shape("{{"@ + x + "}}"@) == (strip_quotes(x), NodeShape::Hexagon),
{
    reveal_strlit("{");
    reveal_strlit("{{");
    reveal_strlit("}");
    reveal_strlit("}}");
    reveal_strlit("{{");
    reveal_strlit("}}");
    {
        let t = "{"@ + x + "}"@;
        lemma_wrapped("{"@, x, "}"@);
        lemma_starts_ends(t, "{{"@);
        lemma_starts_ends(t, "}}"@);
    }

    {
        let t = "{{"@ + x + "}}"@;
        lemma_wrapped("{{"@, x, "}}"@);
        lemma_starts_ends(t, "{{"@);
        lemma_starts_ends(t, "}}"@);
    }
}
} // verus!
