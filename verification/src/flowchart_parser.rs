//! The flowchart parser, proved to compute `flow_model`.

use vstd::prelude::*;
use crate::text::{
    trim, trim_chars, starts_with_exec, ends_with_exec, find_exec, find_char_exec, lit, slice_of,
    suffix, split_char_exec, split_once_char_exec, split_pat_exec, split_ws_once_exec,
    trim_end_pat_exec, first_word_exec, lines_exec, words_exec, views, str_chars, copy_chars,
    chars_eq, lemma_find_from_props, lemma_views_push, append_chars, decimal_usize,
};
use crate::syntax::{
    strip_quotes_exec, strip_prefix_exec, trim_start_char_exec, trim_end_char_exec,
    trim_char_exec, char_is_alphanumeric,
};
use crate::diagram::{
    Text, NodeShape, EdgeArrowhead, EdgeDecoration, EdgeStyle, Direction, DiagramKind, AstOf,
    EdgeOf, NodeOf, SubgraphOf, NodeStyleOf, DiagramAst,
};
use crate::model::{
    opt_text, tl_view, tl_get, tl_push, find_keyed, find_node, keys, copy_style, copy_opt,
    set_node_style, set_node_link, set_subgraph_direction, push_subgraph, push_subgraph_node,
    push_edge, ensure_node_exec, empty_ast_exec, plain_style_exec, lemma_first_index,
};
use crate::numeric::{float_literal_exec, float_at_most_2_5_exec, float_at_least_2_5_exec, parse_index_exec};
use crate::pattern::{regex_groups_exec, opt_texts, utf8_len};
use crate::flowchart::{
    FlowMeta, edge_meta, spaces, mask_from, masked, leading_decoration, edge_line, group,
    edge_chain, edge_links, opens_text, text_label_opening, lemma_chain_nonempty, ends_of, chain_edges, lemma_chain_edges_stop, pipe_edge, arrow_edge,
    pipe_label_pattern, arrow_pattern, bracket_shape, paren_shape, brace_shape, id_label,
    nonempty_trimmed, NodeToken, node_token, LinkOv, FlowSt, props, width_text, apply_props,
    directive_args, class_def, assign_class, class_assignment, style_line, click_line,
    indices_of, numbers_of, link_props, link_style, subgraph_header, id_prefix_len,
    direction_token, join_subgraph, flow_node, resolve_style, overlay_classes, edge_end,
    flow_edge, edges_to, edges_from, flow_line, flow_step, flow_run, override_style,
    apply_override, apply_overrides, opens_front_matter, flow_final, flow_model,
    flow_unreadable, header_pattern, subgraph_pattern, header_direction, subgraph_heading,
};
use crate::diagram::{StyleV, opt_view, deep};
use crate::model::set_edge_style;
use crate::error::CoreError;
use crate::convert::conv_ast;
use crate::model::{lookup, insert, plain_style, first_index, node_ids};

verus! {

/// The direction named by the captures of a header line, if its group took part.
pub fn header_direction_exec(gs: &Vec<Option<Vec<char>>>) -> (r: Option<Direction>)
    ensures
        r == header_direction(opt_texts(gs@)),
{
    match group_exec(gs, 2) {
        Some(d) => Some(direction_token_exec(&d)),
        None => None,
    }
}

/// Id and label declared by the captures of a subgraph line.
pub fn subgraph_heading_exec(gs: &Vec<Option<Vec<char>>>) -> (r: (Option<Vec<char>>, Vec<char>))
    ensures
        (opt_text(r.0), r.1@) == subgraph_heading(opt_texts(gs@)),
{
    let rest = match group_exec(gs, 1) {
        Some(r) => r,
        None => Vec::new(),
    };
    subgraph_header_exec(&rest)
}

/// Reads an arrow token.
fn edge_meta_exec(arrow: &Vec<char>) -> (r: FlowMeta)
    ensures
        r == edge_meta(arrow@),
{
    let s0 = trim_chars(arrow);
    let sd = if s0.len() > 0 && s0[0] == 'o' {
        Some(EdgeDecoration::Circle)
    } else if s0.len() > 0 && s0[0] == 'x' {
        Some(EdgeDecoration::Cross)
    } else {
        None
    };
    let s1 = if sd.is_some() { suffix(&s0, 1) } else { s0 };
    let ed = if s1.len() > 0 && s1[s1.len() - 1] == 'o' {
        Some(EdgeDecoration::Circle)
    } else if s1.len() > 0 && s1[s1.len() - 1] == 'x' {
        Some(EdgeDecoration::Cross)
    } else {
        None
    };
    let s = if ed.is_some() { slice_of(&s1, 0, s1.len() - 1) } else { s1 };
    let start = s.len() > 0 && s[0] == '<';
    let end = s.len() > 0 && s[s.len() - 1] == '>';
    let has_eq = find_char_exec(&s, '=').is_some();
    let has_dot = find_char_exec(&s, '.').is_some();
    FlowMeta {
        directed: start || end,
        arrow_start: start,
        arrow_end: end,
        start_decoration: sd,
        end_decoration: ed,
        style: if has_eq && !has_dot {
            EdgeStyle::Thick
        } else if has_dot {
            EdgeStyle::Dotted
        } else {
            EdgeStyle::Solid
        },
    }
}

fn push_spaces(v: &mut Vec<char>, n: u32)
    requires
        n <= 4,
    ensures
        final(v)@ == old(v)@ + spaces(n as nat),
{
    let mut k: u32 = 0;
    while k < n
        invariant
            k <= n,
            v@ == old(v)@ + spaces(k as nat),
        decreases n - k,
    {
        v.push(' ');
        k += 1;
        assert(v@ =~= old(v)@ + spaces(k as nat));
    }
}

fn utf8_len_of(c: char) -> (r: u32)
    ensures
        r == utf8_len(c),
        r <= 4,
{
    let v = c as u32;
    if v < 0x80 {
        1
    } else if v < 0x800 {
        2
    } else if v < 0x10000 {
        3
    } else {
        4
    }
}

/// The line with bracket contents blanked.
fn masked_exec(s: &Vec<char>) -> (r: Vec<char>)
    ensures
        r@ == masked(s@),
{
    let mut r: Vec<char> = Vec::new();
    let mut depth: usize = 0;
    let mut inb = false;
    let mut i: usize = 0;
    while i < s.len()
        invariant
            i <= s@.len(),
            depth <= i,
            r@ + mask_from(s@, i as int, depth as int, inb) == masked(s@),
        decreases s@.len() - i,
    {
        let c = s[i];
        let ghost r0 = r@;
        if c == '[' || c == '(' || c == '{' {
            r.push(c);
            assert(r0 + mask_from(s@, i as int, depth as int, inb) =~= r@ + mask_from(s@, i + 1, depth + 1, true));
            depth = depth + 1;
            inb = true;
        } else if c == ']' || c == ')' || c == '}' {
            r.push(c);
            if depth <= 1 {
                assert(r0 + mask_from(s@, i as int, depth as int, inb) =~= r@ + mask_from(s@, i + 1, 0, false));
                depth = 0;
                inb = false;
            } else {
                assert(r0 + mask_from(s@, i as int, depth as int, inb) =~= r@ + mask_from(s@, i + 1, depth - 1, inb));
                depth = depth - 1;
            }
        } else if inb {
            push_spaces(&mut r, utf8_len_of(c));
            assert(r0 + mask_from(s@, i as int, depth as int, inb) =~= r@ + mask_from(s@, i + 1, depth as int, inb));
        } else {
            r.push(c);
            assert(r0 + mask_from(s@, i as int, depth as int, inb) =~= r@ + mask_from(s@, i + 1, depth as int, inb));
        }
        i += 1;
    }
    assert(r@ + Seq::<char>::empty() =~= r@);
    r
}

fn leading_decoration_exec(right: &Vec<char>) -> (r: Option<(char, Vec<char>)>)
    ensures
        match r {
            Some((c, rest)) => leading_decoration(right@) == Some((c, rest@)),
            None => leading_decoration(right@) is None,
        },
{
    let t = trim_chars(right);
    if t.len() > 1 && (t[0] == 'o' || t[0] == 'x') && crate::text::char_is_ws(t[1]) {
        let r1 = suffix(&t, 1);
        assert(r1@ =~= t@.skip(1));
        let rest = trim_chars(&r1);
        if rest.len() > 0 {
            return Some((t[0], rest));
        }
    }
    None
}

/// Group `i` of a match as text.
pub fn group_exec(gs: &Vec<Option<Vec<char>>>, i: usize) -> (r: Option<Vec<char>>)
    ensures
        opt_text(r) == group(opt_texts(gs@), i as int),
{
    if i < gs.len() {
        assert(opt_texts(gs@)[i as int] == opt_text(gs@[i as int]));
        match &gs[i] {
            Some(t) => Some(copy_chars(t)),
            None => None,
        }
    } else {
        None
    }
}

/// The edge a match of the pipe-label pattern describes.
pub fn pipe_edge_exec(gs: &Vec<Option<Vec<char>>>) -> (r: Option<Option<(Vec<char>, Option<Vec<char>>, Vec<char>, FlowMeta)>>)
    ensures
        match r {
            Some(Some((l, lb, rt, m))) => pipe_edge(opt_texts(gs@)) == Some(Some((l@, opt_text(lb), rt@, m))),
            Some(None) => pipe_edge(opt_texts(gs@)) == Some(None::<(Text, Option<Text>, Text, FlowMeta)>),
            None => pipe_edge(opt_texts(gs@)) is None,
        },
{
    let g1 = group_exec(gs, 1);
    let g2 = group_exec(gs, 2);
    let g3 = group_exec(gs, 3);
    let g4 = group_exec(gs, 4);
    match (g1, g2, g3, g4) {
        (Some(l), Some(a), Some(lb), Some(rt)) => {
            let left = trim_chars(&l);
            let arrow = trim_chars(&a);
            let label = trim_chars(&lb);
            let right = trim_chars(&rt);
            if left.len() > 0 && right.len() > 0 && label.len() > 0 {
                let meta = edge_meta_exec(&arrow);
                Some(Some((left, Some(label), right, meta)))
            } else {
                None
            }
        },
        _ => Some(None),
    }
}

/// The edge a match of the plain-arrow pattern describes.
pub fn arrow_edge_exec(gs: &Vec<Option<Vec<char>>>) -> (r: Option<(Vec<char>, Option<Vec<char>>, Vec<char>, FlowMeta)>)
    ensures
        match r {
            Some((l, lb, rt, m)) => arrow_edge(opt_texts(gs@)) == Some((l@, opt_text(lb), rt@, m)),
            None => arrow_edge(opt_texts(gs@)) is None,
        },
{
    let g1 = group_exec(gs, 1);
    let g2 = group_exec(gs, 2);
    let g3 = group_exec(gs, 3);
    match (g1, g2, g3) {
        (Some(l), Some(a), Some(rt)) => {
            let left = trim_chars(&l);
            let right = trim_chars(&rt);
            let arrow = trim_chars(&a);
            if left.len() == 0 || right.len() == 0 || arrow.len() == 0 {
                return None;
            }
            match leading_decoration_exec(&right) {
                Some((dec, rest)) => {
                    let mut a2 = arrow;
                    a2.push(dec);
                    let meta = edge_meta_exec(&a2);
                    Some((left, None, rest, meta))
                },
                None => {
                    let (label, tok) = if right.len() > 0 && right[0] == '|' {
                        let r1 = suffix(&right, 1);
                        assert(r1@ =~= right@.skip(1));
                        match find_char_exec(&r1, '|') {
                            Some(e) => {
                                proof {
                                    lemma_find_from_props(r1@, seq!['|'], 0);
                                }
                                let a0 = slice_of(&r1, 0, e);
                                assert(a0@ =~= r1@.take(e as int));
                                let b0 = suffix(&r1, e + 1);
                                assert(b0@ =~= r1@.skip(e + 1));
                                (Some(trim_chars(&a0)), trim_chars(&b0))
                            },
                            None => (None, right),
                        }
                    } else {
                        (None, right)
                    };
                    if tok.len() == 0 {
                        None
                    } else {
                        let meta = edge_meta_exec(&arrow);
                        Some((left, label, tok, meta))
                    }
                },
            }
        },
        _ => None,
    }
}

/// An edge line: (left ends, label, right ends, arrow).
fn edge_line_exec(line: &Vec<char>) -> (r: Option<(Vec<char>, Option<Vec<char>>, Vec<char>, FlowMeta)>)
    ensures
        match r {
            Some((l, lb, rt, m)) => edge_line(line@) == Some((l@, opt_text(lb), rt@, m)),
            None => edge_line(line@) is None,
        },
{
    let m = masked_exec(line);
    let pipe = "^(?P<left>.+?)\\s*(?P<arrow><[-.=ox]*[-=]+[-.=ox]*>|<[-.=ox]*[-=]+[-.=ox]*|[-.=ox]*[-=]+[-.=ox]*>|[-.=ox]*[-=]+[-.=ox]*)\\|(?P<label>.+?)\\|\\s*(?P<right>.+)$";
    let arrow_re = "^(?P<left>.+?)\\s*(?P<arrow><[-.=ox]*[-=]+[-.=ox]*>|<[-.=ox]*[-=]+[-.=ox]*|[-.=ox]*[-=]+[-.=ox]*>|[-.=ox]*[-=]+[-.=ox]*)\\s*(?P<right>.+)$";
    assert(pipe@ == pipe_label_pattern());
    assert(arrow_re@ == arrow_pattern());
    match regex_groups_exec(pipe, &m, line) {
        Some(gs) => {
            match pipe_edge_exec(&gs) {
                Some(r) => {
                    return r;
                },
                None => {},
            }
        },
        None => {},
    }
    match regex_groups_exec(arrow_re, &m, line) {
        None => None,
        Some(gs) => arrow_edge_exec(&gs),
    }
}

/// Links with their texts as character sequences.
pub open spec fn link_views(v: Seq<(Vec<char>, Option<Vec<char>>, Vec<char>, FlowMeta)>) -> Seq<(Text, Option<Text>, Text, FlowMeta)> {
    v.map_values(|x: (Vec<char>, Option<Vec<char>>, Vec<char>, FlowMeta)| (x.0@, opt_text(x.1), x.2@, x.3))
}

/// Whether the arrow of a plain-arrow match opens a text label (`--`, `-.`, `==`).
pub fn opens_text_exec(gs: &Vec<Option<Vec<char>>>) -> (r: bool)
    ensures
        r == opens_text(opt_texts(gs@)),
{
    match group_exec(gs, 2) {
        Some(a) => {
            let t = trim_chars(&a);
            chars_eq(&t, &lit("--")) || chars_eq(&t, &lit("-.")) || chars_eq(&t, &lit("=="))
        },
        None => false,
    }
}

/// Whether an edge line opens a text label.
fn text_label_opening_exec(line: &Vec<char>) -> (r: bool)
    ensures
        r == text_label_opening(line@),
{
    let m = masked_exec(line);
    let pipe = "^(?P<left>.+?)\\s*(?P<arrow><[-.=ox]*[-=]+[-.=ox]*>|<[-.=ox]*[-=]+[-.=ox]*|[-.=ox]*[-=]+[-.=ox]*>|[-.=ox]*[-=]+[-.=ox]*)\\|(?P<label>.+?)\\|\\s*(?P<right>.+)$";
    let arrow_re = "^(?P<left>.+?)\\s*(?P<arrow><[-.=ox]*[-=]+[-.=ox]*>|<[-.=ox]*[-=]+[-.=ox]*|[-.=ox]*[-=]+[-.=ox]*>|[-.=ox]*[-=]+[-.=ox]*)\\s*(?P<right>.+)$";
    assert(pipe@ == pipe_label_pattern());
    assert(arrow_re@ == arrow_pattern());
    match regex_groups_exec(pipe, &m, line) {
        Some(gs) => {
            if pipe_edge_exec(&gs).is_some() {
                return false;
            }
        },
        None => {},
    }
    match regex_groups_exec(arrow_re, &m, line) {
        Some(gs) => opens_text_exec(&gs),
        None => false,
    }
}

/// The links of an edge line, `fuel` rounds at most.
fn edge_chain_exec(line: &Vec<char>, fuel: usize) -> (r: Vec<(Vec<char>, Option<Vec<char>>, Vec<char>, FlowMeta)>)
    ensures
        link_views(r@) == edge_chain(line@, fuel as nat),
    decreases fuel,
{
    match edge_line_exec(line) {
        None => Vec::new(),
        Some((l, lb, rt, m)) => {
            if fuel > 0 {
                match edge_line_exec(&rt) {
                    Some((l2, _, _, _)) => {
                        let mut rest = edge_chain_exec(&rt, fuel - 1);
                        let mut out: Vec<(Vec<char>, Option<Vec<char>>, Vec<char>, FlowMeta)> = Vec::new();
                        if lb.is_none() && m.end_decoration.is_none() && text_label_opening_exec(line) {
                            proof {
                                lemma_chain_nonempty(rt@, (fuel - 1) as nat);
                            }
                            assert(link_views(rest@).len() == rest@.len());
                            let ghost tail0 = link_views(rest@);
                            let (l3, _, r3, m3) = rest.remove(0);
                            out.push((l, Some(l3), r3, m3));
                            let ghost first = link_views(out@);
                            let ghost tail = link_views(rest@);
                            assert(tail =~= tail0.skip(1));
                            out.append(&mut rest);
                            assert(link_views(out@) =~= first + tail);
                            return out;
                        }
                        out.push((l, lb, l2, m));
                        let ghost first = link_views(out@);
                        let ghost tail = link_views(rest@);
                        out.append(&mut rest);
                        assert(link_views(out@) =~= first + tail);
                        return out;
                    },
                    None => {},
                }
            }
            let mut out: Vec<(Vec<char>, Option<Vec<char>>, Vec<char>, FlowMeta)> = Vec::new();
            out.push((l, lb, rt, m));
            assert(link_views(out@) =~= seq![(l@, opt_text(lb), rt@, m)]);
            out
        },
    }
}

fn two_marks(t: &Vec<char>, o: &str, c: &str) -> (r: bool)
    ensures
        r == (crate::text::starts_with(t@, o@) && crate::text::ends_with(t@, c@)),
{
    starts_with_exec(t, &lit(o)) && ends_with_exec(t, &lit(c))
}

fn bracket_shape_exec(raw: &Vec<char>) -> (r: Option<(Vec<char>, NodeShape)>)
    ensures
        match r {
            Some((l, sh)) => bracket_shape(raw@) == Some((l@, sh)),
            None => bracket_shape(raw@) is None,
        },
{
    let t = trim_chars(raw);
    let n = t.len();
    let para = two_marks(&t, "[/", "/]");
    let trap = two_marks(&t, "[\\", "\\]");
    let subr = two_marks(&t, "[[", "]]");
    let cyl = two_marks(&t, "[(", ")]");
    if para || trap || subr || cyl {
        if n < 4 {
            return None;
        }
        let inner = slice_of(&t, 2, n - 2);
        let label = strip_quotes_exec(&inner);
        let shape = if para {
            NodeShape::Parallelogram
        } else if trap {
            NodeShape::Trapezoid
        } else if subr {
            NodeShape::Subroutine
        } else {
            NodeShape::Cylinder
        };
        Some((label, shape))
    } else if n >= 2 && t[0] == '[' && t[n - 1] == ']' {
        let inner = slice_of(&t, 1, n - 1);
        let m = inner.len();
        if m >= 2 && inner[0] == '(' && inner[m - 1] == ')' {
            let x = slice_of(&inner, 1, m - 1);
            Some((strip_quotes_exec(&x), NodeShape::Stadium))
        } else {
            Some((strip_quotes_exec(&inner), NodeShape::Rectangle))
        }
    } else {
        Some((strip_quotes_exec(&t), NodeShape::Rectangle))
    }
}

fn paren_shape_exec(raw: &Vec<char>) -> (r: (Vec<char>, NodeShape))
    ensures
        (r.0@, r.1) == paren_shape(raw@),
{
    let t = trim_chars(raw);
    let n = t.len();
    if two_marks(&t, "(((", ")))") && n >= 6 {
        let x = slice_of(&t, 3, n - 3);
        (strip_quotes_exec(&x), NodeShape::DoubleCircle)
    } else if two_marks(&t, "((", "))") && n >= 4 {
        let x = slice_of(&t, 2, n - 2);
        (strip_quotes_exec(&x), NodeShape::Circle)
    } else if n >= 2 && t[0] == '(' && t[n - 1] == ')' {
        let inner = slice_of(&t, 1, n - 1);
        let m = inner.len();
        if m >= 2 && inner[0] == '[' && inner[m - 1] == ']' {
            let x = slice_of(&inner, 1, m - 1);
            (strip_quotes_exec(&x), NodeShape::Stadium)
        } else {
            (strip_quotes_exec(&inner), NodeShape::RoundRect)
        }
    } else {
        (strip_quotes_exec(&t), NodeShape::RoundRect)
    }
}

fn brace_shape_exec(raw: &Vec<char>) -> (r: (Vec<char>, NodeShape))
    ensures
        (r.0@, r.1) == brace_shape(raw@),
{
    let t = trim_chars(raw);
    let n = t.len();
    if two_marks(&t, "{{", "}}") && n >= 4 {
        let x = slice_of(&t, 2, n - 2);
        (strip_quotes_exec(&x), NodeShape::Hexagon)
    } else if n >= 2 && t[0] == '{' && t[n - 1] == '}' {
        let x = slice_of(&t, 1, n - 1);
        (strip_quotes_exec(&x), NodeShape::Diamond)
    } else {
        (strip_quotes_exec(&t), NodeShape::Diamond)
    }
}

/// The id before an opening mark at `st`, when the token closes with `close`.
fn id_before(token: &Vec<char>, st: usize, close: char) -> (r: Option<Vec<char>>)
    requires
        st < token@.len(),
    ensures
        match r {
            Some(id) => token@.len() > 0 && token@[token@.len() - 1] == close && st > 0
                && trim(token@.take(st as int)).len() > 0 && id@ == trim(token@.take(st as int)),
            None => !(token@.len() > 0 && token@[token@.len() - 1] == close && st > 0
                && trim(token@.take(st as int)).len() > 0),
        },
{
    let n = token.len();
    if n > 0 && token[n - 1] == close && st > 0 {
        let a = slice_of(token, 0, st);
        assert(a@ =~= token@.take(st as int));
        let id = trim_chars(&a);
        if id.len() > 0 {
            return Some(id);
        }
    }
    None
}

fn id_label_exec(token: &Vec<char>) -> (r: Option<Option<(Vec<char>, Vec<char>, NodeShape)>>)
    ensures
        match r {
            Some(Some((id, l, sh))) => id_label(token@) == Some(Some((id@, l@, sh))),
            Some(None) => id_label(token@) == Some(None::<(Text, Text, NodeShape)>),
            None => id_label(token@) is None,
        },
{
    match find_char_exec(token, '[') {
        Some(st) => {
            proof {
                lemma_find_from_props(token@, seq!['['], 0);
            }
            match id_before(token, st, ']') {
                Some(id) => {
                    let raw = suffix(token, st);
                    assert(raw@ =~= token@.skip(st as int));
                    return match bracket_shape_exec(&raw) {
                        Some((l, sh)) => Some(Some((id, l, sh))),
                        None => Some(None),
                    };
                },
                None => {},
            }
        },
        None => {},
    }
    match find_char_exec(token, '(') {
        Some(st) => {
            proof {
                lemma_find_from_props(token@, seq!['('], 0);
            }
            match id_before(token, st, ')') {
                Some(id) => {
                    let raw = suffix(token, st);
                    assert(raw@ =~= token@.skip(st as int));
                    let (l, sh) = paren_shape_exec(&raw);
                    return Some(Some((id, l, sh)));
                },
                None => {},
            }
        },
        None => {},
    }
    match find_char_exec(token, '{') {
        Some(st) => {
            proof {
                lemma_find_from_props(token@, seq!['{'], 0);
            }
            match id_before(token, st, '}') {
                Some(id) => {
                    let raw = suffix(token, st);
                    assert(raw@ =~= token@.skip(st as int));
                    let (l, sh) = brace_shape_exec(&raw);
                    Some(Some((id, l, sh)))
                },
                None => None,
            }
        },
        None => None,
    }
}

fn nonempty_trimmed_exec(ps: &Vec<Vec<char>>, from: usize) -> (r: Vec<Vec<char>>)
    requires
        from <= ps@.len(),
    ensures
        views(r@) == nonempty_trimmed(views(ps@).skip(from as int)),
{
    let mut r: Vec<Vec<char>> = Vec::new();
    let mut i = from;
    assert(views(ps@).skip(from as int).take(0) =~= Seq::<Text>::empty());
    while i < ps.len()
        invariant
            from <= i <= ps@.len(),
            views(r@) == nonempty_trimmed(views(ps@).skip(from as int).take(i - from)),
        decreases ps@.len() - i,
    {
        let ghost q = views(ps@).skip(from as int);
        assert(q.take(i + 1 - from).drop_last() =~= q.take(i - from));
        assert(q.take(i + 1 - from).last() == ps@[i as int]@);
        let t = trim_chars(&ps[i]);
        if t.len() > 0 {
            proof {
                lemma_views_push(r@, t);
            }
            r.push(t);
        }
        i += 1;
    }
    assert(views(ps@).skip(from as int).take(ps@.len() - from) =~= views(ps@).skip(from as int));
    r
}

/// A node token read from source text.
struct TokenParts {
    id: Vec<char>,
    label: Option<Vec<char>>,
    shape: Option<NodeShape>,
    classes: Vec<Vec<char>>,
}

impl View for TokenParts {
    type V = NodeToken;

    closed spec fn view(&self) -> NodeToken {
        NodeToken { id: self.id@, label: opt_text(self.label), shape: self.shape, classes: views(self.classes@) }
    }
}

fn node_token_exec(token: &Vec<char>) -> (r: Option<TokenParts>)
    ensures
        match r {
            Some(t) => node_token(token@) == Some(t@),
            None => node_token(token@) is None,
        },
{
    let sep = lit(":::");
    proof {
        reveal_strlit(":::");
        crate::text::lemma_split_pat_nonempty(token@, ":::"@);
    }
    let parts = split_pat_exec(token, &sep);
    assert(views(parts@)[0] == parts@[0]@);
    let base = trim_chars(&parts[0]);
    let classes = nonempty_trimmed_exec(&parts, 1);
    let t = trim_chars(&base);
    let n = t.len();
    if find_char_exec(&t, '[').is_none() {
        match find_char_exec(&t, '>') {
            Some(pos) => {
                proof {
                    lemma_find_from_props(t@, seq!['>'], 0);
                }
                assert(t@.subrange(pos as int, pos + 1)[0] == t@[pos as int]);
                assert(t@[pos as int] == '>');
                if n > 0 && t[n - 1] == ']' && pos > 0 {
                    let a = slice_of(&t, 0, pos);
                    assert(a@ =~= t@.take(pos as int));
                    let id = trim_chars(&a);
                    if pos + 1 <= n - 1 {
                        let b = slice_of(&t, pos + 1, n - 1);
                        let label = trim_chars(&b);
                        if id.len() > 0 && label.len() > 0 {
                            let l = strip_quotes_exec(&label);
                            return Some(TokenParts { id, label: Some(l), shape: Some(NodeShape::Asymmetric), classes });
                        }
                    }
                }
            },
            None => {},
        }
    }
    match id_label_exec(&t) {
        Some(Some((id, label, shape))) => Some(TokenParts { id, label: Some(label), shape: Some(shape), classes }),
        Some(None) => None,
        None => Some(TokenParts { id: first_word_exec(&t), label: None, shape: None, classes }),
    }
}

/// View of a list of properties.
pub open spec fn prop_views(ps: Seq<Option<(Vec<char>, Vec<char>)>>) -> Seq<Option<(Text, Text)>> {
    ps.map_values(|p: Option<(Vec<char>, Vec<char>)>| match p {
        Some((k, v)) => Some((k@, v@)),
        None => None,
    })
}

fn props_exec(s: &Vec<char>) -> (r: Vec<Option<(Vec<char>, Vec<char>)>>)
    ensures
        prop_views(r@) == props(s@),
{
    let parts = crate::text::split_char_exec(s, ',');
    let mut r: Vec<Option<(Vec<char>, Vec<char>)>> = Vec::new();
    let mut i: usize = 0;
    assert(props(s@).len() == parts@.len());
    while i < parts.len()
        invariant
            i <= parts@.len(),
            props(s@).len() == parts@.len(),
            prop_views(r@) == props(s@).take(i as int),
            views(parts@) == crate::text::split_char(s@, ','),
        decreases parts@.len() - i,
    {
        assert(views(parts@)[i as int] == parts@[i as int]@);
        let t = trim_chars(&parts[i]);
        let item = match split_once_char_exec(&t, ':') {
            Some((k, v)) => Some((trim_chars(&k), v)),
            None => None,
        };
        let ghost r0 = r@;
        r.push(item);
        assert(prop_views(r@).last() == props(s@)[i as int]);
        assert(prop_views(r@) =~= prop_views(r0).push(prop_views(r@).last()));
        assert(props(s@).take(i + 1) =~= props(s@).take(i as int).push(props(s@)[i as int]));
        i += 1;
    }
    assert(props(s@).take(parts@.len() as int) =~= props(s@));
    r
}

fn width_text_exec(v: &Vec<char>) -> (r: Option<Vec<char>>)
    ensures
        opt_text(r) == width_text(v@),
{
    let t = trim_chars(v);
    let w = trim_end_pat_exec(&t, &lit("px"));
    if float_literal_exec(&w) {
        Some(w)
    } else {
        None
    }
}

fn apply_props_exec(st: &mut NodeStyleOf<Vec<char>>, ps: &Vec<Option<(Vec<char>, Vec<char>)>>)
    ensures
        final(st)@ == apply_props(old(st)@, prop_views(ps@)),
{
    let ghost s0 = st@;
    let mut i: usize = 0;
    while i < ps.len()
        invariant
            i <= ps@.len(),
            st@ == apply_props(s0, prop_views(ps@).take(i as int)),
        decreases ps@.len() - i,
    {
        assert(prop_views(ps@).take(i + 1).drop_last() =~= prop_views(ps@).take(i as int));
        assert(prop_views(ps@).take(i + 1).last() == prop_views(ps@)[i as int]);
        match &ps[i] {
            Some((k, v)) => {
                if chars_eq(k, &lit("fill")) {
                    st.fill = Some(trim_chars(v));
                } else if chars_eq(k, &lit("stroke")) {
                    st.stroke = Some(trim_chars(v));
                } else if chars_eq(k, &lit("stroke-width")) {
                    match width_text_exec(v) {
                        Some(w) => {
                            st.stroke_width = Some(w);
                        },
                        None => {},
                    }
                } else if chars_eq(k, &lit("color")) {
                    st.color = Some(trim_chars(v));
                }
            },
            None => {},
        }
        i += 1;
    }
    assert(prop_views(ps@).take(ps@.len() as int) =~= prop_views(ps@));
}

fn directive_args_exec(line: &Vec<char>, kw: &str) -> (r: (Vec<char>, Vec<char>))
    ensures
        (r.0@, r.1@) == directive_args(line@, kw@),
{
    let rest = match strip_prefix_exec(line, &lit(kw)) {
        Some(r) => trim_chars(&r),
        None => Vec::new(),
    };
    let (a, b) = split_ws_once_exec(&rest);
    let second = match b {
        Some(x) => trim_chars(&x),
        None => Vec::new(),
    };
    (trim_chars(&a), second)
}

/// View of class definitions.
pub open spec fn sv_view(m: Seq<(Vec<char>, NodeStyleOf<Vec<char>>)>) -> Seq<(Text, StyleV)> {
    m.map_values(|p: (Vec<char>, NodeStyleOf<Vec<char>>)| (p.0@, p.1@))
}

fn sv_get(m: &Vec<(Vec<char>, NodeStyleOf<Vec<char>>)>, k: &Vec<char>) -> (r: Option<NodeStyleOf<Vec<char>>>)
    ensures
        match r {
            Some(s) => lookup(sv_view(m@), k@) == Some(s@),
            None => lookup(sv_view(m@), k@) is None,
        },
{
    assert(sv_view(m@).map_values(|p: (Text, StyleV)| p.0) =~= keys(m@));
    match find_keyed(m, k) {
        Some(j) => Some(copy_style(&m[j].1)),
        None => None,
    }
}

fn sv_insert(m: &mut Vec<(Vec<char>, NodeStyleOf<Vec<char>>)>, k: Vec<char>, v: NodeStyleOf<Vec<char>>)
    ensures
        sv_view(final(m)@) == insert(sv_view(old(m)@), k@, v@),
{
    assert(sv_view(old(m)@).map_values(|p: (Text, StyleV)| p.0) =~= keys(old(m)@));
    let ghost kv = k@;
    let ghost vv = v@;
    match find_keyed(m, &k) {
        Some(j) => {
            m.set(j, (k, v));
            assert(sv_view(m@) =~= sv_view(old(m)@).update(j as int, (kv, vv)));
        },
        None => {
            m.push((k, v));
            assert(sv_view(m@) =~= sv_view(old(m)@).push((kv, vv)));
        },
    }
}

/// Link-style override read from a directive.
struct LinkOvX {
    dash: Option<Vec<Vec<char>>>,
    width: Option<Vec<char>>,
}

impl View for LinkOvX {
    type V = LinkOv;

    closed spec fn view(&self) -> LinkOv {
        LinkOv {
            dash: match self.dash { Some(d) => Some(views(d@)), None => None },
            width: opt_text(self.width),
        }
    }
}

/// View of a link-style target.
pub open spec fn target_view(t: Option<Vec<usize>>) -> Option<Seq<usize>> {
    match t {
        Some(v) => Some(v@),
        None => None,
    }
}

/// Parser state.
struct FlowParser {
    ast: AstOf<Vec<char>>,
    stack: Vec<usize>,
    class_defs: Vec<(Vec<char>, NodeStyleOf<Vec<char>>)>,
    node_classes: Vec<(Vec<char>, Vec<Vec<char>>)>,
    links: Vec<(Option<Vec<usize>>, LinkOvX)>,
    in_front_matter: bool,
    broken: bool,
}

impl View for FlowParser {
    type V = FlowSt;

    closed spec fn view(&self) -> FlowSt {
        FlowSt {
            ast: self.ast@,
            stack: self.stack@,
            class_defs: sv_view(self.class_defs@),
            node_classes: tl_view(self.node_classes@),
            links: self.links@.map_values(|l: (Option<Vec<usize>>, LinkOvX)| (target_view(l.0), l.1@)),
            in_front_matter: self.in_front_matter,
            broken: self.broken,
        }
    }
}

fn class_def_exec(p: &mut FlowParser, line: &Vec<char>)
    ensures
        final(p)@ == class_def(old(p)@, line@),
{
    let (name, ps) = directive_args_exec(line, "classDef");
    if name.len() == 0 {
        return;
    }
    let mut base = match sv_get(&p.class_defs, &name) {
        Some(s) => s,
        None => plain_style_exec(),
    };
    let pl = props_exec(&ps);
    apply_props_exec(&mut base, &pl);
    sv_insert(&mut p.class_defs, name, base);
}

fn class_assignment_exec(p: &mut FlowParser, line: &Vec<char>)
    ensures
        final(p)@ == class_assignment(old(p)@, line@),
{
    let (ids, name) = directive_args_exec(line, "class");
    if name.len() == 0 {
        return;
    }
    let parts = crate::text::split_char_exec(&ids, ',');
    let ghost m0 = p@.node_classes;
    let mut i: usize = 0;
    while i < parts.len()
        invariant
            i <= parts@.len(),
            p@.node_classes == assign_class(m0, views(parts@).take(i as int), name@),
            p@.ast == old(p)@.ast,
            p@.stack == old(p)@.stack,
            p@.class_defs == old(p)@.class_defs,
            p@.links == old(p)@.links,
            p@.in_front_matter == old(p)@.in_front_matter,
            p@.broken == old(p)@.broken,
        decreases parts@.len() - i,
    {
        assert(views(parts@).take(i + 1).drop_last() =~= views(parts@).take(i as int));
        assert(views(parts@).take(i + 1).last() == parts@[i as int]@);
        let t = trim_chars(&parts[i]);
        if t.len() > 0 {
            tl_push(&mut p.node_classes, t, copy_chars(&name));
        }
        i += 1;
    }
    assert(views(parts@).take(parts@.len() as int) =~= views(parts@));
}

fn style_line_exec(p: &mut FlowParser, line: &Vec<char>)
    ensures
        final(p)@ == style_line(old(p)@, line@),
{
    let (id, ps) = directive_args_exec(line, "style");
    match find_node(&p.ast, &id) {
        Some(j) => {
            assert(p@.ast.nodes[j as int] == p.ast.nodes@[j as int]@);
            let mut st = copy_style(&p.ast.nodes[j].style);
            let pl = props_exec(&ps);
            apply_props_exec(&mut st, &pl);
            let ghost a0 = p@.ast;
            set_node_style(&mut p.ast.nodes, j, st);
            assert(p@.ast =~= crate::diagram::AstV { nodes: a0.nodes.update(j as int, crate::diagram::NodeV { style: apply_props(a0.nodes[j as int].style, props(ps@)), ..a0.nodes[j as int] }), ..a0 });
        },
        None => {},
    }
}

fn click_line_exec(p: &mut FlowParser, line: &Vec<char>)
    ensures
        final(p)@ == click_line(old(p)@, line@),
{
    let rest = match strip_prefix_exec(line, &lit("click")) {
        Some(r) => trim_chars(&r),
        None => Vec::new(),
    };
    let (p1, r1) = split_ws_once_exec(&rest);
    let (p2, r2) = match r1 {
        Some(x) => split_ws_once_exec(&x),
        None => (Vec::new(), None),
    };
    let id = trim_chars(&p1);
    let url = trim_chars(&p2);
    let target = match r2 {
        Some(x) => trim_char_exec(&trim_chars(&x), '"'),
        None => Vec::new(),
    };
    if id.len() == 0 || url.len() == 0 {
        return;
    }
    match find_node(&p.ast, &id) {
        Some(j) => {
            let t = if target.len() == 0 { lit("_blank") } else { target };
            let ghost a0 = p@.ast;
            let ghost uv = url@;
            let ghost tv = t@;
            set_node_link(&mut p.ast.nodes, j, url, t);
            assert(p@.ast =~= crate::diagram::AstV { nodes: a0.nodes.update(j as int, crate::diagram::NodeV { link: Some((uv, tv)), ..a0.nodes[j as int] }), ..a0 });
        },
        None => {},
    }
}

fn indices_of_exec(ps: &Vec<Vec<char>>) -> (r: Vec<usize>)
    ensures
        r@ == indices_of(views(ps@)),
{
    let mut r: Vec<usize> = Vec::new();
    let mut i: usize = 0;
    while i < ps.len()
        invariant
            i <= ps@.len(),
            r@ == indices_of(views(ps@).take(i as int)),
        decreases ps@.len() - i,
    {
        assert(views(ps@).take(i + 1).drop_last() =~= views(ps@).take(i as int));
        assert(views(ps@).take(i + 1).last() == ps@[i as int]@);
        match parse_index_exec(&trim_chars(&ps[i])) {
            Some(v) => r.push(v),
            None => {},
        }
        i += 1;
    }
    assert(views(ps@).take(ps@.len() as int) =~= views(ps@));
    r
}

fn numbers_of_exec(ws: &Vec<Vec<char>>) -> (r: Vec<Vec<char>>)
    ensures
        views(r@) == numbers_of(views(ws@)),
{
    let mut r: Vec<Vec<char>> = Vec::new();
    let mut i: usize = 0;
    while i < ws.len()
        invariant
            i <= ws@.len(),
            views(r@) == numbers_of(views(ws@).take(i as int)),
        decreases ws@.len() - i,
    {
        assert(views(ws@).take(i + 1).drop_last() =~= views(ws@).take(i as int));
        assert(views(ws@).take(i + 1).last() == ws@[i as int]@);
        if float_literal_exec(&ws[i]) {
            let c = copy_chars(&ws[i]);
            proof {
                lemma_views_push(r@, c);
            }
            r.push(c);
        }
        i += 1;
    }
    assert(views(ws@).take(ws@.len() as int) =~= views(ws@));
    r
}

fn link_props_exec(ps: &Vec<Option<(Vec<char>, Vec<char>)>>) -> (r: LinkOvX)
    ensures
        r@ == link_props(LinkOv { dash: None, width: None }, prop_views(ps@)),
{
    let mut ov = LinkOvX { dash: None, width: None };
    let mut i: usize = 0;
    while i < ps.len()
        invariant
            i <= ps@.len(),
            ov@ == link_props(LinkOv { dash: None, width: None }, prop_views(ps@).take(i as int)),
        decreases ps@.len() - i,
    {
        assert(prop_views(ps@).take(i + 1).drop_last() =~= prop_views(ps@).take(i as int));
        assert(prop_views(ps@).take(i + 1).last() == prop_views(ps@)[i as int]);
        match &ps[i] {
            Some((k, v)) => {
                if chars_eq(k, &lit("stroke-dasharray")) {
                    let ws = words_exec(v);
                    let nums = numbers_of_exec(&ws);
                    if nums.len() > 0 {
                        ov.dash = Some(nums);
                    }
                    proof {
                        reveal_strlit("stroke-dasharray");
                        reveal_strlit("stroke-width");
                        assert("stroke-dasharray"@[7] != "stroke-width"@[7]);
                    }
                } else if chars_eq(k, &lit("stroke-width")) {
                    match width_text_exec(v) {
                        Some(w) => {
                            ov.width = Some(w);
                        },
                        None => {},
                    }
                }
            },
            None => {},
        }
        i += 1;
    }
    assert(prop_views(ps@).take(ps@.len() as int) =~= prop_views(ps@));
    ov
}

fn link_style_exec(p: &mut FlowParser, line: &Vec<char>)
    ensures
        final(p)@ == link_style(old(p)@, line@),
{
    let (target, ps) = directive_args_exec(line, "linkStyle");
    if target.len() == 0 {
        return;
    }
    let tg: Option<Vec<usize>> = if chars_eq(&target, &lit("default")) {
        None
    } else {
        let parts = crate::text::split_char_exec(&target, ',');
        let ix = indices_of_exec(&parts);
        if ix.len() == 0 {
            return;
        }
        Some(ix)
    };
    let pl = props_exec(&ps);
    let ov = link_props_exec(&pl);
    let ghost l0 = p@.links;
    let ghost item = (target_view(tg), ov@);
    p.links.push((tg, ov));
    assert(p@.links =~= l0.push(item));
}

fn id_prefix_len_exec(s: &Vec<char>) -> (r: usize)
    ensures
        r == id_prefix_len(s@, 0),
        r <= s@.len(),
{
    let mut i: usize = 0;
    while i < s.len() && (char_is_alphanumeric(s[i]) || s[i] == '_' || s[i] == '-')
        invariant
            i <= s@.len(),
            id_prefix_len(s@, 0) == id_prefix_len(s@, i as int),
        decreases s@.len() - i,
    {
        i += 1;
    }
    i
}

fn subgraph_header_exec(rest0: &Vec<char>) -> (r: (Option<Vec<char>>, Vec<char>))
    ensures
        (opt_text(r.0), r.1@) == subgraph_header(rest0@),
{
    let rest = trim_chars(rest0);
    if rest.len() == 0 {
        return (None, Vec::new());
    }
    if rest[0] == '"' {
        let r1 = suffix(&rest, 1);
        assert(r1@ =~= rest@.skip(1));
        match find_char_exec(&r1, '"') {
            Some(e) => {
                proof {
                    lemma_find_from_props(r1@, seq!['"'], 0);
                }
                return (None, slice_of(&rest, 1, e + 1));
            },
            None => {},
        }
    }
    let k = id_prefix_len_exec(&rest);
    let id = slice_of(&rest, 0, k);
    assert(id@ =~= rest@.take(k as int));
    let tail = suffix(&rest, k);
    assert(tail@ =~= rest@.skip(k as int));
    let r2 = trim_chars(&trim_start_char_exec(&tail, '['));
    if id.len() == 0 {
        (None, trim_end_char_exec(&r2, ']'))
    } else if r2.len() > 0 && (r2[0] == '[' || r2[0] == '"') {
        let inner = trim_chars(&trim_end_char_exec(&trim_start_char_exec(&r2, '['), ']'));
        (Some(id), strip_quotes_exec(&inner))
    } else if r2.len() > 0 {
        (Some(id), r2)
    } else {
        let label = copy_chars(&id);
        (Some(id), label)
    }
}

fn direction_token_exec(t: &Vec<char>) -> (r: Direction)
    ensures
        r == direction_token(t@),
{
    if chars_eq(t, &lit("BT")) {
        Direction::BottomUp
    } else if chars_eq(t, &lit("LR")) {
        Direction::LeftToRight
    } else if chars_eq(t, &lit("RL")) {
        Direction::RightToLeft
    } else {
        Direction::TopDown
    }
}

fn join_subgraph_exec(a: &mut AstOf<Vec<char>>, stack: &Vec<usize>, id: &Vec<char>)
    ensures
        final(a)@ == join_subgraph(old(a)@, stack@, id@),
{
    let n = stack.len();
    if n == 0 {
        return;
    }
    let idx = stack[n - 1];
    if idx < a.subgraphs.len() {
        assert(a@.subgraphs[idx as int] == a.subgraphs@[idx as int]@);
        assert(keys(a.subgraphs@[idx as int].nodes@) =~= a@.subgraphs[idx as int].nodes);
        if find_keyed(&a.subgraphs[idx].nodes, id).is_none() {
            let ghost a0 = a@;
            push_subgraph_node(&mut a.subgraphs, idx, copy_chars(id));
            assert(a@ =~= join_subgraph(a0, stack@, id@));
        }
    }
}

fn flow_node_exec(a: &mut AstOf<Vec<char>>, id: &Vec<char>, label: Vec<char>, shape: NodeShape, style: NodeStyleOf<Vec<char>>)
    ensures
        final(a)@ == flow_node(old(a)@, id@, label@, shape, style@),
{
    let n = NodeOf { id: copy_chars(id), label, shape, style, link: None, subgraph: None };
    ensure_node_exec(a, n);
}

fn overlay_classes_exec(cls: &Vec<Vec<char>>, defs: &Vec<(Vec<char>, NodeStyleOf<Vec<char>>)>) -> (r: NodeStyleOf<Vec<char>>)
    ensures
        r@ == overlay_classes(plain_style(), views(cls@), sv_view(defs@)),
{
    let mut st = plain_style_exec();
    let mut i: usize = 0;
    while i < cls.len()
        invariant
            i <= cls@.len(),
            st@ == overlay_classes(plain_style(), views(cls@).take(i as int), sv_view(defs@)),
        decreases cls@.len() - i,
    {
        assert(views(cls@).take(i + 1).drop_last() =~= views(cls@).take(i as int));
        assert(views(cls@).take(i + 1).last() == cls@[i as int]@);
        match sv_get(defs, &cls[i]) {
            Some(d) => {
                if d.fill.is_some() {
                    st.fill = d.fill;
                }
                if d.stroke.is_some() {
                    st.stroke = d.stroke;
                }
                if d.stroke_width.is_some() {
                    st.stroke_width = d.stroke_width;
                }
                if d.color.is_some() {
                    st.color = d.color;
                }
            },
            None => {},
        }
        i += 1;
    }
    assert(views(cls@).take(cls@.len() as int) =~= views(cls@));
    st
}

fn resolve_style_exec(p: &FlowParser, id: &Vec<char>, classes: &Vec<Vec<char>>) -> (r: NodeStyleOf<Vec<char>>)
    ensures
        r@ == resolve_style(id@, views(classes@), p@.class_defs, p@.node_classes),
{
    let mut all = crate::text::copy_lines(classes);
    match tl_get(&p.node_classes, id) {
        Some(v) => {
            crate::text::append_lines(&mut all, &v);
        },
        None => {
            assert(views(all@) =~= views(classes@) + Seq::<Text>::empty());
        },
    }
    overlay_classes_exec(&all, &p.class_defs)
}

fn edge_end_exec(a: &mut AstOf<Vec<char>>, stack: &Vec<usize>, t: &TokenParts)
    ensures
        final(a)@ == edge_end(old(a)@, stack@, t@),
{
    let label = match &t.label {
        Some(l) => copy_chars(l),
        None => copy_chars(&t.id),
    };
    let shape = match t.shape {
        Some(s) => s,
        None => NodeShape::RoundRect,
    };
    flow_node_exec(a, &t.id, label, shape, plain_style_exec());
    join_subgraph_exec(a, stack, &t.id);
}

fn flow_edge_exec(src: &Vec<char>, tgt: &Vec<char>, label: &Option<Vec<char>>, m: FlowMeta) -> (r: EdgeOf<Vec<char>>)
    ensures
        r@ == flow_edge(src@, tgt@, opt_text(*label), m),
{
    EdgeOf {
        from: copy_chars(src),
        to: copy_chars(tgt),
        label: copy_opt(label),
        start_label: None,
        end_label: None,
        directed: m.directed,
        arrow_start: if m.arrow_start { Some(EdgeArrowhead::Arrow) } else { None },
        arrow_end: if m.arrow_end { Some(EdgeArrowhead::Arrow) } else { None },
        start_decoration: m.start_decoration,
        end_decoration: m.end_decoration,
        style: m.style,
    }
}

proof fn lemma_edges_to_failed(a: crate::diagram::AstV, stack: Seq<usize>, src: Text, tgts: Seq<Text>, j: int, label: Option<Text>, m: FlowMeta)
    requires
        0 <= j <= tgts.len(),
        !edges_to(a, stack, src, tgts.take(j), label, m).1,
    ensures
        edges_to(a, stack, src, tgts, label, m) == edges_to(a, stack, src, tgts.take(j), label, m),
    decreases tgts.len() - j,
{
    if j < tgts.len() {
        assert(tgts.take(j + 1).drop_last() =~= tgts.take(j));
        lemma_edges_to_failed(a, stack, src, tgts, j + 1, label, m);
    } else {
        assert(tgts.take(j) =~= tgts);
    }
}

proof fn lemma_edges_from_failed(a: crate::diagram::AstV, stack: Seq<usize>, srcs: Seq<Text>, tgts: Seq<Text>, j: int, label: Option<Text>, m: FlowMeta)
    requires
        0 <= j <= srcs.len(),
        !edges_from(a, stack, srcs.take(j), tgts, label, m).1,
    ensures
        edges_from(a, stack, srcs, tgts, label, m) == edges_from(a, stack, srcs.take(j), tgts, label, m),
    decreases srcs.len() - j,
{
    if j < srcs.len() {
        assert(srcs.take(j + 1).drop_last() =~= srcs.take(j));
        lemma_edges_from_failed(a, stack, srcs, tgts, j + 1, label, m);
    } else {
        assert(srcs.take(j) =~= srcs);
    }
}

/// Edges from one source to every target; `false` when a token cannot be read.
fn edges_to_exec(a: &mut AstOf<Vec<char>>, stack: &Vec<usize>, src: &Vec<char>, tgts: &Vec<Vec<char>>, label: &Option<Vec<char>>, m: FlowMeta) -> (r: bool)
    ensures
        (final(a)@, r) == edges_to(old(a)@, stack@, src@, views(tgts@), opt_text(*label), m),
{
    let ghost a0 = a@;
    let mut i: usize = 0;
    while i < tgts.len()
        invariant
            i <= tgts@.len(),
            a0 == old(a)@,
            edges_to(a0, stack@, src@, views(tgts@).take(i as int), opt_text(*label), m) == (a@, true),
        decreases tgts@.len() - i,
    {
        assert(views(tgts@).take(i + 1).drop_last() =~= views(tgts@).take(i as int));
        assert(views(tgts@).take(i + 1).last() == tgts@[i as int]@);
        match node_token_exec(&tgts[i]) {
            None => {
                proof {
                    lemma_edges_to_failed(a0, stack@, src@, views(tgts@), i + 1, opt_text(*label), m);
                }
                return false;
            },
            Some(t) => {
                if t.id.len() > 0 {
                    edge_end_exec(a, stack, &t);
                    let e = flow_edge_exec(src, &t.id, label, m);
                    push_edge(a, e);
                }
            },
        }
        i += 1;
    }
    assert(views(tgts@).take(tgts@.len() as int) =~= views(tgts@));
    true
}

/// Edges from every source to every target; `false` when a token cannot be read.
fn edges_from_exec(a: &mut AstOf<Vec<char>>, stack: &Vec<usize>, srcs: &Vec<Vec<char>>, tgts: &Vec<Vec<char>>, label: &Option<Vec<char>>, m: FlowMeta) -> (r: bool)
    ensures
        (final(a)@, r) == edges_from(old(a)@, stack@, views(srcs@), views(tgts@), opt_text(*label), m),
{
    let ghost a0 = a@;
    let mut i: usize = 0;
    while i < srcs.len()
        invariant
            i <= srcs@.len(),
            a0 == old(a)@,
            edges_from(a0, stack@, views(srcs@).take(i as int), views(tgts@), opt_text(*label), m) == (a@, true),
        decreases srcs@.len() - i,
    {
        assert(views(srcs@).take(i + 1).drop_last() =~= views(srcs@).take(i as int));
        assert(views(srcs@).take(i + 1).last() == srcs@[i as int]@);
        match node_token_exec(&srcs[i]) {
            None => {
                proof {
                    lemma_edges_from_failed(a0, stack@, views(srcs@), views(tgts@), i + 1, opt_text(*label), m);
                }
                return false;
            },
            Some(t) => {
                if t.id.len() > 0 {
                    edge_end_exec(a, stack, &t);
                    if !edges_to_exec(a, stack, &t.id, tgts, label, m) {
                        proof {
                            lemma_edges_from_failed(a0, stack@, views(srcs@), views(tgts@), i + 1, opt_text(*label), m);
                        }
                        return false;
                    }
                }
            },
        }
        i += 1;
    }
    assert(views(srcs@).take(srcs@.len() as int) =~= views(srcs@));
    true
}

fn override_style_exec(ov: &LinkOvX) -> (r: Option<EdgeStyle>)
    ensures
        r == override_style(ov@),
{
    match &ov.dash {
        Some(d) => {
            let mut all = true;
            let mut i: usize = 0;
            while i < d.len()
                invariant
                    i <= d@.len(),
                    all == (forall|k: int| 0 <= k < i ==> crate::numeric::float_at_most_2_5(#[trigger] views(d@)[k])),
                decreases d@.len() - i,
            {
                assert(views(d@)[i as int] == d@[i as int]@);
                if !float_at_most_2_5_exec(&d[i]) {
                    all = false;
                }
                i += 1;
            }
            if all { Some(EdgeStyle::Dotted) } else { Some(EdgeStyle::Dashed) }
        },
        None => match &ov.width {
            Some(w) => if float_at_least_2_5_exec(w) { Some(EdgeStyle::Thick) } else { None },
            None => None,
        },
    }
}

fn apply_override_exec(edges: &mut Vec<EdgeOf<Vec<char>>>, target: &Option<Vec<usize>>, st: EdgeStyle)
    ensures
        deep(final(edges)@) == apply_override(deep(old(edges)@), target_view(*target), st),
{
    let ghost e0 = deep(edges@);
    match target {
        None => {
            let mut i: usize = 0;
            while i < edges.len()
                invariant
                    i <= edges@.len(),
                    edges@.len() == e0.len(),
                    forall|k: int| 0 <= k < i ==> #[trigger] deep(edges@)[k] == (crate::diagram::EdgeV { style: st, ..e0[k] }),
                    forall|k: int| i <= k < e0.len() ==> #[trigger] deep(edges@)[k] == e0[k],
                decreases edges@.len() - i,
            {
                let ghost prev = deep(edges@);
                assert(prev[i as int] == e0[i as int]);
                assert(prev[i as int] == edges@[i as int]@);
                set_edge_style(edges, i, st);
                proof {
                    assert forall|k: int| 0 <= k < i + 1 implies #[trigger] deep(edges@)[k] == (crate::diagram::EdgeV { style: st, ..e0[k] }) by {
                        if k < i {
                            assert(deep(edges@)[k] == prev[k]);
                        }
                    }
                    assert forall|k: int| i + 1 <= k < e0.len() implies #[trigger] deep(edges@)[k] == e0[k] by {
                        assert(deep(edges@)[k] == prev[k]);
                    }
                }
                i += 1;
            }
            assert(deep(edges@) =~= apply_override(e0, None, st));
        },
        Some(ix) => {
            let mut t: usize = 0;
            while t < ix.len()
                invariant
                    t <= ix@.len(),
                    edges@.len() == e0.len(),
                    forall|k: int| 0 <= k < e0.len() ==> #[trigger] deep(edges@)[k]
                        == (if ix@.take(t as int).contains(k as usize) { crate::diagram::EdgeV { style: st, ..e0[k] } } else { e0[k] }),
                decreases ix@.len() - t,
            {
                let j = ix[t];
                let ghost prev = deep(edges@);
                let ghost pe = edges@;
                if j < edges.len() {
                    assert(prev[j as int] == pe[j as int]@);
                    set_edge_style(edges, j, st);
                }
                proof {
                    assert forall|k: int| 0 <= k < e0.len() implies #[trigger] deep(edges@)[k]
                        == (if ix@.take(t + 1).contains(k as usize) { crate::diagram::EdgeV { style: st, ..e0[k] } } else { e0[k] }) by {
                        assert(ix@.take(t + 1) =~= ix@.take(t as int).push(j));
                        assert(prev[k] == (if ix@.take(t as int).contains(k as usize) { crate::diagram::EdgeV { style: st, ..e0[k] } } else { e0[k] }));
                        if k as usize != j {
                            assert(deep(edges@)[k] == prev[k]);
                        }
                        if k as usize == j {
                            assert(ix@.take(t + 1)[t as int] == j);
                        } else {
                            if ix@.take(t + 1).contains(k as usize) {
                                let w = choose|w: int| 0 <= w < ix@.take(t + 1).len() && #[trigger] ix@.take(t + 1)[w] == k as usize;
                                assert(ix@.take(t as int)[w] == k as usize);
                            }
                            if ix@.take(t as int).contains(k as usize) {
                                let w = choose|w: int| 0 <= w < ix@.take(t as int).len() && #[trigger] ix@.take(t as int)[w] == k as usize;
                                assert(ix@.take(t + 1)[w] == k as usize);
                            }
                        }
                    }
                }
                t += 1;
            }
            assert(ix@.take(ix@.len() as int) =~= ix@);
            assert(deep(edges@) =~= apply_override(e0, Some(ix@), st));
        },
    }
}

/// Adds the edges of the links in order, stopping at the first that fails.
fn chain_exec(p: &mut FlowParser, links: &Vec<(Vec<char>, Option<Vec<char>>, Vec<char>, FlowMeta)>)
    ensures
        final(p)@ == (FlowSt {
            ast: chain_edges(old(p)@.ast, old(p)@.stack, link_views(links@), links@.len() as int).0,
            broken: !chain_edges(old(p)@.ast, old(p)@.stack, link_views(links@), links@.len() as int).1,
            ..old(p)@
        }),
{
    let ghost st = p@;
    let ghost lv = link_views(links@);
    let mut i: usize = 0;
    while i < links.len()
        invariant
            i <= links@.len(),
            lv == link_views(links@),
            st == old(p)@,
            p@ == (FlowSt { ast: chain_edges(st.ast, st.stack, lv, i as int).0, ..st }),
            chain_edges(st.ast, st.stack, lv, i as int).1,
        decreases links@.len() - i,
    {
        let (left, label, right, m) = &links[i];
        assert(lv[i as int] == (left@, opt_text(*label), right@, *m));
        let lp = crate::text::split_char_exec(left, '&');
        let rp = crate::text::split_char_exec(right, '&');
        let srcs = nonempty_trimmed_exec(&lp, 0);
        let tgts = nonempty_trimmed_exec(&rp, 0);
        assert(views(lp@).skip(0) =~= views(lp@));
        assert(views(rp@).skip(0) =~= views(rp@));
        assert(views(srcs@) == ends_of(lv[i as int].0));
        assert(views(tgts@) == ends_of(lv[i as int].2));
        let ghost a1 = p@.ast;
        let ok = edges_from_exec(&mut p.ast, &p.stack, &srcs, &tgts, label, *m);
        assert(chain_edges(st.ast, st.stack, lv, i + 1) == edges_from(a1, st.stack, views(srcs@), views(tgts@), opt_text(*label), *m));
        if !ok {
            p.broken = true;
            proof {
                lemma_chain_edges_stop(st.ast, st.stack, lv, i as int + 1, links@.len() as int);
            }
            return;
        }
        i += 1;
    }
    p.broken = false;
}

#[verifier::rlimit(40)]
fn flow_line_exec(p: &mut FlowParser, line: &Vec<char>)
    ensures
        final(p)@ == flow_line(old(p)@, line@),
{
    reveal(flow_line);
    if line.len() == 0 || starts_with_exec(line, &lit("%%")) {
        return;
    }
    let header = "^(flowchart|graph)\\s+(\\w+)";
    assert(header@ == header_pattern());
    match regex_groups_exec(header, line, line) {
        Some(gs) => {
            match header_direction_exec(&gs) {
                Some(d) => {
                    p.ast.direction = d;
                },
                None => {},
            }
            return;
        },
        None => {},
    }
    let ws = words_exec(line);
    assert(ws@.len() == views(ws@).len());
    if ws.len() == 2 && chars_eq(&ws[0], &lit("direction")) {
        assert(views(ws@)[0] == ws@[0]@);
        assert(views(ws@)[1] == ws@[1]@);
        let d = direction_token_exec(&ws[1]);
        let n = p.stack.len();
        if n > 0 {
            let idx = p.stack[n - 1];
            if idx < p.ast.subgraphs.len() {
                let ghost a0 = p@.ast;
                set_subgraph_direction(&mut p.ast.subgraphs, idx, d);
                assert(p@.ast =~= crate::diagram::AstV {
                    subgraphs: a0.subgraphs.update(idx as int, crate::diagram::SubgraphV { direction: Some(d), ..a0.subgraphs[idx as int] }),
                    ..a0
                });
            }
        } else {
            p.ast.direction = d;
        }
        return;
    }
    if chars_eq(line, &lit("end")) {
        if p.stack.len() > 0 {
            p.stack.pop();
        }
        return;
    }
    let sgp = "^subgraph\\s+(.*)$";
    assert(sgp@ == subgraph_pattern());
    match regex_groups_exec(sgp, line, line) {
        Some(gs) => {
            let (id_opt, label) = subgraph_heading_exec(&gs);
            let n = p.ast.subgraphs.len();
            let id = match id_opt {
                Some(i) => i,
                None => {
                    let mut v = lit("__sg_");
                    append_chars(&mut v, &decimal_usize(n));
                    append_chars(&mut v, &lit("__"));
                    v
                },
            };
            let g = SubgraphOf { id, label, direction: None, nodes: Vec::new(), style: plain_style_exec() };
            assert(g@.nodes =~= Seq::<Text>::empty());
            push_subgraph(&mut p.ast, g);
            p.stack.push(n);
            return;
        },
        None => {},
    }
    if starts_with_exec(line, &lit("classDef")) {
        class_def_exec(p, line);
        return;
    }
    if starts_with_exec(line, &lit("class ")) {
        class_assignment_exec(p, line);
        return;
    }
    if starts_with_exec(line, &lit("style ")) {
        style_line_exec(p, line);
        return;
    }
    if starts_with_exec(line, &lit("linkStyle")) {
        link_style_exec(p, line);
        return;
    }
    if starts_with_exec(line, &lit("click ")) {
        click_line_exec(p, line);
        return;
    }
    if starts_with_exec(line, &lit("title ")) {
        proof {
            reveal_strlit("title ");
        }
        let t0 = suffix(line, 6);
        assert(t0@ =~= line@.skip(6));
        let t = trim_chars(&t0);
        if t.len() > 0 {
            p.ast.title = Some(t);
        }
        return;
    }
    if starts_with_exec(line, &lit("accTitle")) || starts_with_exec(line, &lit("accDescr")) {
        return;
    }
    let links = edge_chain_exec(line, line.len());
    if links.len() > 0 {
        chain_exec(p, &links);
        return;
    }
    assert(edge_line(line@) is None);
    match node_token_exec(line) {
        None => {
            p.broken = true;
        },
        Some(t) => {
            if t.id.len() > 0 {
                let label = match &t.label {
                    Some(l) => copy_chars(l),
                    None => copy_chars(&t.id),
                };
                let shape = match t.shape {
                    Some(s) => s,
                    None => NodeShape::RoundRect,
                };
                let style = resolve_style_exec(p, &t.id, &t.classes);
                flow_node_exec(&mut p.ast, &t.id, label, shape, style);
                join_subgraph_exec(&mut p.ast, &p.stack, &t.id);
            }
        },
    }
}

fn flow_step_exec(p: &mut FlowParser, raw: &Vec<char>)
    ensures
        final(p)@ == flow_step(old(p)@, raw@),
{
    if p.broken {
        return;
    }
    let line = trim_chars(raw);
    if p.in_front_matter {
        if chars_eq(&line, &lit("---")) {
            p.in_front_matter = false;
        } else {
            match strip_prefix_exec(&line, &lit("title:")) {
                Some(t) => {
                    let tt = trim_chars(&t);
                    if tt.len() > 0 {
                        p.ast.title = Some(tt);
                    }
                },
                None => {},
            }
        }
        return;
    }
    flow_line_exec(p, &line);
}

/// Runs the line steps over a flowchart source.
fn flow_scan(input: &str) -> (p: FlowParser)
    ensures
        p@ == flow_final(input@),
{
    let s = str_chars(input);
    let ls = lines_exec(&s);
    let fm = ls.len() > 0 && chars_eq(&trim_chars(&ls[0]), &lit("---"));
    assert(ls@.len() > 0 ==> views(ls@)[0] == ls@[0]@);
    assert(fm == opens_front_matter(views(ls@)));
    let start: usize = if fm { 1 } else { 0 };
    let mut p = FlowParser {
        ast: empty_ast_exec(DiagramKind::Flowchart),
        stack: Vec::new(),
        class_defs: Vec::new(),
        node_classes: Vec::new(),
        links: Vec::new(),
        in_front_matter: fm,
        broken: false,
    };
    assert(sv_view(p.class_defs@) =~= Seq::empty());
    assert(tl_view(p.node_classes@) =~= Seq::empty());
    assert(p.links@.map_values(|l: (Option<Vec<usize>>, LinkOvX)| (target_view(l.0), l.1@)) =~= Seq::empty());
    assert(p.stack@ =~= Seq::<usize>::empty());
    let mut i: usize = start;
    while i < ls.len()
        invariant
            start <= i <= ls@.len(),
            start == (if opens_front_matter(views(ls@)) { 1int } else { 0int }),
            views(ls@) == crate::text::lines(s@),
            s@ == input@,
            p@ == flow_run(views(ls@), start as int, i as int),
        decreases ls@.len() - i,
    {
        assert(views(ls@)[i as int] == ls@[i as int]@);
        flow_step_exec(&mut p, &ls[i]);
        i += 1;
    }
    p
}

/// Whether a flowchart source can be parsed: it holds no shaped node whose
/// inside cannot be cut out (`A[/]`, `A[\\]`), which slicing would panic on.
pub fn flowchart_readable(input: &str) -> (r: bool)
    ensures
        r == !flow_unreadable(input@),
{
    !flow_scan(input).broken
}

/// Parses a flowchart into its model.
pub fn parse_flowchart(input: &str) -> (r: Result<DiagramAst, CoreError>)
    requires
        !flow_unreadable(input@),
    ensures
        r matches Ok(a) && a@ == flow_model(input@),
{
    let mut p = flow_scan(input);
    let ghost st = p@;
    let mut k: usize = 0;
    while k < p.links.len()
        invariant
            k <= p.links@.len(),
            p@.links == st.links,
            p@.links.len() == p.links@.len(),
            p@.ast == (crate::diagram::AstV { edges: apply_overrides(st.ast.edges, st.links.take(k as int)), ..st.ast }),
        decreases p.links@.len() - k,
    {
        assert(st.links.take(k + 1).drop_last() =~= st.links.take(k as int));
        assert(st.links.take(k + 1).last() == st.links[k as int]);
        assert(st.links[k as int] == (target_view(p.links@[k as int].0), p.links@[k as int].1@));
        match override_style_exec(&p.links[k].1) {
            Some(sty) => {
                let ghost a0 = p@.ast;
                apply_override_exec(&mut p.ast.edges, &p.links[k].0, sty);
                assert(p@.ast =~= crate::diagram::AstV { edges: apply_override(a0.edges, target_view(p.links@[k as int].0), sty), ..a0 });
            },
            None => {},
        }
        k += 1;
    }
    assert(st.links.take(st.links.len() as int) =~= st.links);
    Ok(conv_ast(&p.ast))
}

/// Parses a flowchart that can be read; `None` for one that cannot.
pub fn try_parse_flowchart(input: &str) -> (r: Option<DiagramAst>)
    ensures
        match r {
            Some(a) => !flow_unreadable(input@) && a@ == flow_model(input@),
            None => flow_unreadable(input@),
        },
{
    if !flowchart_readable(input) {
        return None;
    }
    match parse_flowchart(input) {
        Ok(a) => Some(a),
        Err(_) => None,
    }
}

/// Direction named by a header token: `BT`, `LR`, `RL`, and `TopDown` for
/// anything else (`TD`, `TB` included).
pub fn parse_direction_token(token: &str) -> (r: Direction)
    ensures
        r == direction_token(token@),
{
    direction_token_exec(&str_chars(token))
}

} // verus!
