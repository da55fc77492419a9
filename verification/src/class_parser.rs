//! The line-by-line class diagram parser, proved to compute `class_model`.

use vstd::prelude::*;
use crate::text::{
    trim_chars, starts_with_exec, find_exec, find_char_exec, lit, slice_of, split_once_char_exec,
    lines_exec, words_exec, lowercase_exec, join_exec, views, str_chars, copy_chars,
    lemma_find_from_props, lemma_views_push, append_lines,
};
use crate::syntax::{
    trim_start_matches_exec, direction_any_case_exec, direction_line_any_case_exec,
    split_label_exec,
};
use crate::diagram::{NodeV, NodeShape, DiagramKind, AstOf, EdgeOf, NodeOf, DiagramAst, deep};
use crate::model::{
    tt_view, tl_view, tt_get, tt_insert, tl_get, tl_push, opt_text, plain_node_exec,
    ensure_node_exec, empty_ast_exec, push_edge, set_node_label,
};
use crate::class::{
    ClassSt, ensure_class, classify, classify_all, relation_tokens, relation_match,
    class_relation, member_line, class_declared, class_step, class_run, is_method, attrs_of,
    methods_of, class_label_lines, class_finish, class_model, is_stereotype_chars,
    normalize_method_chars, body_entries_exec, relation_tokens_exec, edge_meta_chars,
    mult_left_exec, mult_right_exec, normalize_class_id_exec, class_decl_exec,
};
use crate::error::CoreError;
use crate::convert::conv_ast;

verus! {

/// Parser state: the model so far, members, stereotypes and labels per class,
/// and the class whose `{` body is open.
struct ClassParser {
    ast: AstOf<Vec<char>>,
    members: Vec<(Vec<char>, Vec<Vec<char>>)>,
    stereos: Vec<(Vec<char>, Vec<Vec<char>>)>,
    labels: Vec<(Vec<char>, Vec<char>)>,
    current: Option<Vec<char>>,
}

impl View for ClassParser {
    type V = ClassSt;

    closed spec fn view(&self) -> ClassSt {
        ClassSt {
            ast: self.ast@,
            members: tl_view(self.members@),
            stereos: tl_view(self.stereos@),
            labels: tt_view(self.labels@),
            current: opt_text(self.current),
        }
    }
}

fn ensure_class_exec(a: &mut AstOf<Vec<char>>, id: &Vec<char>, label: Option<Vec<char>>)
    ensures
        final(a)@ == ensure_class(old(a)@, id@, opt_text(label)),
{
    let l = match label {
        Some(l) => l,
        None => copy_chars(id),
    };
    let n = plain_node_exec(copy_chars(id), l, NodeShape::Rectangle);
    ensure_node_exec(a, n);
}

fn classify_exec(p: &mut ClassParser, id: &Vec<char>, entry: &Vec<char>)
    ensures
        final(p)@ == classify(old(p)@, id@, entry@),
{
    if is_stereotype_chars(entry) {
        tl_push(&mut p.stereos, copy_chars(id), copy_chars(entry));
    } else {
        tl_push(&mut p.members, copy_chars(id), copy_chars(entry));
    }
}

fn classify_all_exec(p: &mut ClassParser, id: &Vec<char>, es: &Vec<Vec<char>>)
    ensures
        final(p)@ == classify_all(old(p)@, id@, views(es@)),
{
    let ghost p0 = p@;
    let mut i: usize = 0;
    while i < es.len()
        invariant
            i <= es.len(),
            p@ == classify_all(p0, id@, views(es@).take(i as int)),
        decreases es.len() - i,
    {
        assert(views(es@).take(i + 1).drop_last() =~= views(es@).take(i as int));
        assert(views(es@).take(i + 1).last() == es@[i as int]@);
        classify_exec(p, id, &es[i]);
        i += 1;
    }
    assert(views(es@).take(es.len() as int) =~= views(es@));
}

fn relation_match_exec(line: &Vec<char>, toks: &Vec<Vec<char>>) -> (r: Option<(usize, usize)>)
    requires
        views(toks@) == relation_tokens(),
    ensures
        match r {
            Some((i, pos)) => relation_match(line@, 0) == Some((i as int, pos as int)) && i < 14
                && crate::text::find(line@, relation_tokens()[i as int]) == Some(pos as int),
            None => relation_match(line@, 0) is None,
        },
{
    assert(relation_tokens().len() == 14);
    assert(toks@.len() == 14);
    let mut i: usize = 0;
    while i < toks.len()
        invariant
            i <= 14,
            toks@.len() == 14,
            views(toks@) == relation_tokens(),
            relation_match(line@, 0) == relation_match(line@, i as int),
        decreases 14 - i,
    {
        assert(views(toks@)[i as int] == toks@[i as int]@);
        let tok = &toks[i];
        match find_exec(line, tok) {
            Some(pos) => {
                proof {
                    lemma_find_from_props(line@, tok@, 0);
                }
                let l0 = slice_of(line, 0, pos);
                let e: usize = pos + tok.len();
                let r0 = slice_of(line, e, line.len());
                assert(l0@ =~= line@.take(pos as int));
                assert(r0@ =~= line@.skip(pos + tok@.len()));
                let lt = trim_chars(&l0);
                let rt = trim_chars(&r0);
                if lt.len() == 0 || rt.len() == 0 {
                    i += 1;
                } else {
                    return Some((i, pos));
                }
            },
            None => {
                i += 1;
            },
        }
    }
    None
}

/// Handles a relation line; `false` (state unchanged) when `line` is none.
fn class_relation_exec(p: &mut ClassParser, line: &Vec<char>, toks: &Vec<Vec<char>>) -> (r: bool)
    requires
        views(toks@) == relation_tokens(),
    ensures
        r == class_relation(old(p)@, line@) is Some,
        r ==> final(p)@ == class_relation(old(p)@, line@)->0,
        !r ==> final(p)@ == old(p)@,
{
    match relation_match_exec(line, toks) {
        None => false,
        Some((i, pos)) => {
            assert(relation_tokens().len() == 14);
            assert(toks@.len() == views(toks@).len());
            assert(views(toks@)[i as int] == toks@[i as int]@);
            let tok = &toks[i];
            proof {
                lemma_find_from_props(line@, tok@, 0);
            }
            assert(crate::text::find(line@, tok@) == Some(pos as int));
            let tl = tok.len();
            let ll = line.len();
            assert(pos + tl <= ll);
            let l0 = slice_of(line, 0, pos);
            let e: usize = pos + tl;
            let r0 = slice_of(line, e, line.len());
            assert(l0@ =~= line@.take(pos as int));
            assert(r0@ =~= line@.skip(pos + tok@.len()));
            let left_part = trim_chars(&l0);
            let r1 = trim_chars(&r0);
            let (right_part, label) = split_label_exec(&r1);
            let (left0, start_label) = mult_left_exec(&left_part);
            let (right0, end_label) = mult_right_exec(&right_part);
            let (left_id, left_label) = normalize_class_id_exec(&left0);
            let (right_id, right_label) = normalize_class_id_exec(&right0);
            match left_label {
                Some(l) => tt_insert(&mut p.labels, copy_chars(&left_id), l),
                None => {},
            }
            match right_label {
                Some(l) => tt_insert(&mut p.labels, copy_chars(&right_id), l),
                None => {},
            }
            let ll = tt_get(&p.labels, &left_id);
            ensure_class_exec(&mut p.ast, &left_id, ll);
            let rl = tt_get(&p.labels, &right_id);
            ensure_class_exec(&mut p.ast, &right_id, rl);
            let m = edge_meta_chars(tok);
            let edge = EdgeOf {
                from: left_id,
                to: right_id,
                label,
                start_label,
                end_label,
                directed: m.directed,
                arrow_start: m.arrow_start,
                arrow_end: m.arrow_end,
                start_decoration: m.start_decoration,
                end_decoration: m.end_decoration,
                style: m.style,
            };
            push_edge(&mut p.ast, edge);
            true
        },
    }
}

fn member_line_exec(line: &Vec<char>) -> (r: Option<(Vec<char>, Vec<char>)>)
    ensures
        match r {
            Some((a, b)) => member_line(line@) == Some((a@, b@)),
            None => member_line(line@) is None,
        },
{
    match split_once_char_exec(line, ':') {
        Some((l, r)) => {
            let id = trim_chars(&l);
            let member = trim_chars(&r);
            if id.len() == 0 || member.len() == 0 || find_char_exec(&id, ' ').is_some() {
                None
            } else {
                Some((id, member))
            }
        },
        None => None,
    }
}

fn class_declared_exec(p: &mut ClassParser, d: (Vec<char>, Option<Vec<char>>, Option<Vec<char>>, bool))
    ensures
        final(p)@ == class_declared(old(p)@, (d.0@, opt_text(d.1), opt_text(d.2), d.3)),
{
    let (id, label, body, open) = d;
    match label {
        Some(l) => tt_insert(&mut p.labels, copy_chars(&id), l),
        None => {},
    }
    let l = tt_get(&p.labels, &id);
    ensure_class_exec(&mut p.ast, &id, l);
    match body {
        Some(b) => {
            let es = body_entries_exec(&b);
            classify_all_exec(p, &id, &es);
        },
        None => {},
    }
    if open {
        p.current = Some(id);
    }
}

fn class_step_exec(p: &mut ClassParser, raw: &Vec<char>, toks: &Vec<Vec<char>>)
    requires
        views(toks@) == relation_tokens(),
    ensures
        final(p)@ == class_step(old(p)@, raw@),
{
    reveal(class_step);
    let line = trim_chars(raw);
    let pct = lit("%%");
    proof {
        reveal_strlit("%%");
    }
    if line.len() == 0 || starts_with_exec(&line, &pct) {
        return;
    }
    let lower = lowercase_exec(&line);
    let hdr = lit("classdiagram");
    if starts_with_exec(&lower, &hdr) {
        let parts = words_exec(&line);
        if parts.len() > 1 {
            assert(views(parts@)[1] == parts@[1]@);
            match direction_any_case_exec(&parts[1]) {
                Some(d) => {
                    p.ast.direction = d;
                },
                None => {},
            }
        }
        return;
    }
    match direction_line_any_case_exec(&line) {
        Some(d) => {
            p.ast.direction = d;
            return;
        },
        None => {},
    }
    match &p.current {
        Some(active) => {
            let active = copy_chars(active);
            match find_char_exec(&line, '}') {
                Some(e) => {
                    proof {
                        lemma_find_from_props(line@, seq!['}'], 0);
                    }
                    let f0 = slice_of(&line, 0, e);
                    assert(f0@ =~= line@.take(e as int));
                    let frag = trim_chars(&f0);
                    if frag.len() > 0 {
                        classify_exec(p, &active, &frag);
                    }
                    p.current = None;
                },
                None => {
                    classify_exec(p, &active, &line);
                },
            }
            return;
        },
        None => {},
    }
    if class_relation_exec(p, &line, toks) {
        return;
    }
    let cls = lit("class ");
    let decl = if starts_with_exec(&line, &cls) {
        let rest = trim_start_matches_exec(&line, &cls);
        let rest = trim_chars(&rest);
        class_decl_exec(&rest)
    } else {
        None
    };
    match decl {
        Some(d) => {
            class_declared_exec(p, d);
        },
        None => match member_line_exec(&line) {
            Some((id, member)) => {
                classify_exec(p, &id, &member);
            },
            None => {},
        },
    }
}

fn is_method_exec(t: &Vec<char>) -> (r: bool)
    ensures
        r == is_method(t@),
{
    find_char_exec(t, '(').is_some() && find_char_exec(t, ')').is_some()
}

fn attrs_of_exec(items: &Vec<Vec<char>>) -> (r: Vec<Vec<char>>)
    ensures
        views(r@) == attrs_of(views(items@)),
{
    let mut r: Vec<Vec<char>> = Vec::new();
    let mut i: usize = 0;
    while i < items.len()
        invariant
            i <= items.len(),
            views(r@) == attrs_of(views(items@).take(i as int)),
        decreases items.len() - i,
    {
        assert(views(items@).take(i + 1).drop_last() =~= views(items@).take(i as int));
        assert(views(items@).take(i + 1).last() == items@[i as int]@);
        let t = trim_chars(&items[i]);
        if !is_method_exec(&t) {
            proof {
                lemma_views_push(r@, t);
            }
            r.push(t);
        }
        i += 1;
    }
    assert(views(items@).take(items.len() as int) =~= views(items@));
    r
}

fn methods_of_exec(items: &Vec<Vec<char>>) -> (r: Vec<Vec<char>>)
    ensures
        views(r@) == methods_of(views(items@)),
{
    let mut r: Vec<Vec<char>> = Vec::new();
    let mut i: usize = 0;
    while i < items.len()
        invariant
            i <= items.len(),
            views(r@) == methods_of(views(items@).take(i as int)),
        decreases items.len() - i,
    {
        assert(views(items@).take(i + 1).drop_last() =~= views(items@).take(i as int));
        assert(views(items@).take(i + 1).last() == items@[i as int]@);
        let t = trim_chars(&items[i]);
        if is_method_exec(&t) {
            let m = normalize_method_chars(&t);
            proof {
                lemma_views_push(r@, m);
            }
            r.push(m);
        }
        i += 1;
    }
    assert(views(items@).take(items.len() as int) =~= views(items@));
    r
}

fn class_label_lines_exec(p: &ClassParser, id: &Vec<char>, label: &Vec<char>) -> (r: Vec<Vec<char>>)
    ensures
        views(r@) == class_label_lines(p@, id@, label@),
{
    let name = match tt_get(&p.labels, id) {
        Some(l) => l,
        None => copy_chars(label),
    };
    let mut base = match tl_get(&p.stereos, id) {
        Some(s) => s,
        None => Vec::new(),
    };
    assert(views(Seq::<Vec<char>>::empty()) =~= Seq::<Seq<char>>::empty());
    proof {
        lemma_views_push(base@, name);
    }
    base.push(name);
    let ghost b0 = views(base@);
    match tl_get(&p.members, id) {
        Some(items) => {
            if items.len() > 0 {
                let a = attrs_of_exec(&items);
                let m = methods_of_exec(&items);
                if a.len() > 0 || m.len() > 0 {
                    let sep = lit("---");
                    proof {
                        lemma_views_push(base@, sep);
                    }
                    base.push(sep);
                    if a.len() > 0 {
                        append_lines(&mut base, &a);
                        if m.len() > 0 {
                            let sep2 = lit("---");
                            proof {
                                lemma_views_push(base@, sep2);
                            }
                            base.push(sep2);
                            append_lines(&mut base, &m);
                            assert(views(base@) =~= b0.push("---"@) + (views(a@) + (seq!["---"@] + views(m@))));
                        } else {
                            assert(views(base@) =~= b0.push("---"@) + (views(a@) + Seq::<Seq<char>>::empty()));
                        }
                    } else {
                        append_lines(&mut base, &m);
                    }
                }
            }
        },
        None => {},
    }
    base
}

fn class_finish_exec(p: ClassParser) -> (r: AstOf<Vec<char>>)
    ensures
        r@ == class_finish(p@),
{
    let ghost st = p@;
    let mut p = p;
    let mut nodes: Vec<NodeOf<Vec<char>>> = Vec::new();
    std::mem::swap(&mut nodes, &mut p.ast.nodes);
    let nl = lit("\n");
    let n = nodes.len();
    let mut i: usize = 0;
    while i < n
        invariant
            i <= n,
            nodes@.len() == n,
            deep(nodes@).len() == n,
            st.ast.nodes.len() == n,
            p@.labels == st.labels,
            p@.stereos == st.stereos,
            p@.members == st.members,
            nl@ == "\n"@,
            forall|k: int| #![trigger deep(nodes@)[k]] 0 <= k < i ==> deep(nodes@)[k] == (NodeV {
                label: crate::text::join(class_label_lines(st, st.ast.nodes[k].id, st.ast.nodes[k].label), "\n"@),
                ..st.ast.nodes[k]
            }),
            forall|k: int| #![trigger deep(nodes@)[k]] i <= k < n ==> deep(nodes@)[k] == st.ast.nodes[k],
        decreases n - i,
    {
        assert(deep(nodes@)[i as int] == nodes@[i as int]@);
        let ls = class_label_lines_exec(&p, &nodes[i].id, &nodes[i].label);
        let label = join_exec(&ls, &nl);
        set_node_label(&mut nodes, i, label);
        i += 1;
    }
    std::mem::swap(&mut nodes, &mut p.ast.nodes);
    assert(deep(p.ast.nodes@) =~= class_finish(st).nodes);
    assert(p.ast@ =~= class_finish(st));
    p.ast
}

/// Parses a class diagram. Every source is accepted: lines that match no form are skipped.
pub fn parse_class(input: &str) -> (r: Result<DiagramAst, CoreError>)
    ensures
        r matches Ok(a) && a@ == class_model(input@),
{
    let s = str_chars(input);
    let ls = lines_exec(&s);
    let toks = relation_tokens_exec();
    let mut p = ClassParser {
        ast: empty_ast_exec(DiagramKind::Class),
        members: Vec::new(),
        stereos: Vec::new(),
        labels: Vec::new(),
        current: None,
    };
    assert(tl_view(p.members@) =~= Seq::empty());
    assert(tl_view(p.stereos@) =~= Seq::empty());
    assert(tt_view(p.labels@) =~= Seq::empty());
    let mut i: usize = 0;
    while i < ls.len()
        invariant
            i <= ls.len(),
            views(ls@) == crate::text::lines(s@),
            views(toks@) == relation_tokens(),
            p@ == class_run(views(ls@), i as int),
        decreases ls.len() - i,
    {
        assert(views(ls@)[i as int] == ls@[i as int]@);
        class_step_exec(&mut p, &ls[i], &toks);
        i += 1;
    }
    let a = class_finish_exec(p);
    Ok(conv_ast(&a))
}

} // verus!
