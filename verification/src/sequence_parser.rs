//! The sequence diagram parser, proved to compute `seq_model`.

use vstd::prelude::*;
use crate::text::{
    trim, trim_chars, trim_start_chars, starts_with_exec, find_exec, find_char_exec, lit, slice_of,
    suffix, split_char_exec, lines_exec, views, str_chars, copy_chars, chars_eq, append_chars,
    decimal_usize, find, find_char, lines,
};
use crate::syntax::{strip_prefix_exec, trim_start_matches_exec};
use crate::diagram::{
    Text, NodeShape, EdgeArrowhead, EdgeStyle, DiagramKind, ControlBlockKind, AstOf, EdgeOf,
    SequenceMetaOf, SequenceActivationOf, SequenceNoteOf, SequenceRectOf,
    SequenceControlBlockOf, NotePositionOf, DiagramAst, AstV, MetaV, ActivationV, NotePosV,
    deep, pair_views, flag_views, group_views, text_views,
};
use crate::model::{
    opt_text, tt_view, tt_get, tt_insert, find_keyed, find_node, keys, first_index, lookup,
    insert, node_ids, plain_node_exec, ensure_node_exec, empty_ast_exec, push_edge, copy_opt,
    lemma_deep_push, lemma_deep_update, lemma_node_keys,
};
use crate::pattern::{regex_groups_exec, opt_texts};
use crate::flowchart::group;
use crate::flowchart_parser::group_exec;
use crate::sequence::{
    SeqSt, Message, rect_pattern, block_pattern, branch_pattern, create_pattern, note_pattern,
    alias_pattern, group_text, arrow_info, message_arrows, message_arrow, activation_suffix,
    message_line, resolve, participant, activate, deactivate, message, block_kind, resolve_all,
    seq_step, seq_line, note_position, seq_decl, seq_run, still_open, closed_blocks,
    closed_rects, seq_finish, seq_model, rect_color, block_open, branch_label, created_name,
    note_parts, alias_parts,
};
use crate::error::CoreError;
use crate::convert::conv_ast;

verus! {

/// Open activations of each participant, innermost last.
spec fn stack_views(m: Seq<(Vec<char>, Vec<usize>)>) -> Seq<(Text, Seq<usize>)> {
    m.map_values(|p: (Vec<char>, Vec<usize>)| (p.0@, p.1@))
}

/// Open control blocks.
spec fn block_views(b: Seq<(ControlBlockKind, Vec<char>, usize, Vec<(Vec<char>, usize)>)>) -> Seq<(ControlBlockKind, Text, usize, Seq<(Text, usize)>)> {
    b.map_values(|x: (ControlBlockKind, Vec<char>, usize, Vec<(Vec<char>, usize)>)| (x.0, x.1@, x.2, group_views(x.3@)))
}

/// Parser state.
struct SeqParser {
    ast: AstOf<Vec<char>>,
    meta: SequenceMetaOf<Vec<char>>,
    stacks: Vec<(Vec<char>, Vec<usize>)>,
    step: usize,
    blocks: Vec<(ControlBlockKind, Vec<char>, usize, Vec<(Vec<char>, usize)>)>,
    rects: Vec<(Vec<char>, usize)>,
    saw_header: bool,
}

impl View for SeqParser {
    type V = SeqSt;

    closed spec fn view(&self) -> SeqSt {
        SeqSt {
            ast: self.ast@,
            meta: self.meta@,
            stacks: stack_views(self.stacks@),
            step: self.step as nat,
            blocks: block_views(self.blocks@),
            rects: group_views(self.rects@),
            saw_header: self.saw_header,
        }
    }
}

fn copy_usizes(v: &Vec<usize>) -> (r: Vec<usize>)
    ensures
        r@ == v@,
{
    let mut r: Vec<usize> = Vec::new();
    let mut i: usize = 0;
    while i < v.len()
        invariant
            i <= v@.len(),
            r@ == v@.take(i as int),
        decreases v@.len() - i,
    {
        r.push(v[i]);
        i += 1;
        assert(r@ =~= v@.take(i as int));
    }
    assert(v@.take(v@.len() as int) =~= v@);
    r
}

/// The participant a name or alias stands for.
fn resolve_exec(meta: &SequenceMetaOf<Vec<char>>, name: &Vec<char>) -> (r: Vec<char>)
    ensures
        r@ == resolve(meta@, name@),
{
    let n = trim_chars(name);
    assert(pair_views(meta.aliases@) =~= tt_view(meta.aliases@));
    match tt_get(&meta.aliases, &n) {
        Some(id) => id,
        None => n,
    }
}

/// `HashMap::insert` on a map of flags.
fn flag_insert(m: &mut Vec<(Vec<char>, bool)>, k: Vec<char>, v: bool)
    ensures
        flag_views(final(m)@) == insert(flag_views(old(m)@), k@, v),
{
    assert(flag_views(old(m)@).map_values(|p: (Text, bool)| p.0) =~= keys(old(m)@));
    let ghost kv = k@;
    match find_keyed(m, &k) {
        Some(j) => {
            m.set(j, (k, v));
            assert(flag_views(m@) =~= flag_views(old(m)@).update(j as int, (kv, v)));
        },
        None => {
            m.push((k, v));
            assert(flag_views(m@) =~= flag_views(old(m)@).push((kv, v)));
        },
    }
}

/// Open activations of `id` (none when it has no stack yet).
spec fn open_of(stacks: Seq<(Text, Seq<usize>)>, id: Text) -> Seq<usize> {
    match lookup(stacks, id) {
        Some(s) => s,
        None => seq![],
    }
}

/// Pushes `idx` on the stack of `k`; gives the stack's depth before.
fn stack_push(m: &mut Vec<(Vec<char>, Vec<usize>)>, k: &Vec<char>, idx: usize) -> (depth: usize)
    ensures
        depth == open_of(stack_views(old(m)@), k@).len(),
        stack_views(final(m)@) == insert(stack_views(old(m)@), k@, open_of(stack_views(old(m)@), k@).push(idx)),
{
    assert(stack_views(old(m)@).map_values(|p: (Text, Seq<usize>)| p.0) =~= keys(old(m)@));
    let ghost kv = k@;
    match find_keyed(m, k) {
        Some(j) => {
            let mut s = copy_usizes(&m[j].1);
            let d = s.len();
            s.push(idx);
            let ghost sv = s@;
            m.set(j, (copy_chars(k), s));
            assert(stack_views(m@) =~= stack_views(old(m)@).update(j as int, (kv, sv)));
            d
        },
        None => {
            let mut s: Vec<usize> = Vec::new();
            s.push(idx);
            assert(s@ =~= seq![idx]);
            m.push((copy_chars(k), s));
            assert(stack_views(m@) =~= stack_views(old(m)@).push((kv, seq![idx])));
            0
        },
    }
}

/// Pops the innermost open activation of `k`.
fn stack_pop(m: &mut Vec<(Vec<char>, Vec<usize>)>, k: &Vec<char>) -> (r: Option<usize>)
    ensures
        match lookup(stack_views(old(m)@), k@) {
            Some(s) => if s.len() > 0 {
                r == Some(s.last()) && stack_views(final(m)@) == insert(stack_views(old(m)@), k@, s.drop_last())
            } else {
                r is None && final(m)@ == old(m)@
            },
            None => r is None && final(m)@ == old(m)@,
        },
{
    assert(stack_views(old(m)@).map_values(|p: (Text, Seq<usize>)| p.0) =~= keys(old(m)@));
    let ghost kv = k@;
    match find_keyed(m, k) {
        Some(j) => {
            let mut s = copy_usizes(&m[j].1);
            if s.len() == 0 {
                return None;
            }
            let last = s.pop().unwrap();
            let ghost sv = s@;
            m.set(j, (copy_chars(k), s));
            assert(stack_views(m@) =~= stack_views(old(m)@).update(j as int, (kv, sv)));
            Some(last)
        },
        None => None,
    }
}

/// Declares a participant.
fn participant_exec(p: &mut SeqParser, name: &Vec<char>, is_actor: bool)
    ensures
        final(p)@ == participant(old(p)@, name@, is_actor),
        final(p).step == old(p).step,
        final(p).meta.message_counter == old(p).meta.message_counter,
{
    let n = trim_chars(name);
    if n.len() == 0 {
        return;
    }
    proof {
        lemma_node_keys(p.ast.nodes@);
    }
    let fresh = find_node(&p.ast, &n).is_none();
    if fresh {
        let shape = if is_actor { NodeShape::Circle } else { NodeShape::Rectangle };
        ensure_node_exec(&mut p.ast, plain_node_exec(copy_chars(&n), copy_chars(&n), shape));
        assert(text_views(p.meta.participant_order@) =~= keys(p.meta.participant_order@));
        if find_keyed(&p.meta.participant_order, &n).is_none() {
            let ghost o0 = p.meta.participant_order@;
            p.meta.participant_order.push(copy_chars(&n));
            assert(text_views(p.meta.participant_order@) =~= text_views(o0).push(n@));
        }
    }
    flag_insert(&mut p.meta.is_actor, n, is_actor);
}

/// Opens an activation of `id` at the current step.
fn activate_exec(p: &mut SeqParser, id: &Vec<char>)
    ensures
        final(p)@ == activate(old(p)@, id@),
        final(p).step == old(p).step,
        final(p).meta.message_counter == old(p).meta.message_counter,
{
    let idx = p.meta.activations.len();
    let depth = stack_push(&mut p.stacks, id, idx);
    let act = SequenceActivationOf { participant_id: copy_chars(id), start_step: p.step, end_step: None, depth };
    let ghost a0 = p.meta.activations@;
    p.meta.activations.push(act);
    proof {
        lemma_deep_push(a0, act);
    }
}

/// Closes the innermost open activation of `id` at the current step.
fn deactivate_exec(p: &mut SeqParser, id: &Vec<char>)
    ensures
        final(p)@ == deactivate(old(p)@, id@),
        final(p).step == old(p).step,
        final(p).meta.message_counter == old(p).meta.message_counter,
{
    match stack_pop(&mut p.stacks, id) {
        Some(idx) => {
            if idx < p.meta.activations.len() {
                let a = &p.meta.activations[idx];
                let na = SequenceActivationOf {
                    participant_id: copy_chars(&a.participant_id),
                    start_step: a.start_step,
                    end_step: Some(p.step),
                    depth: a.depth,
                };
                let ghost a0 = p.meta.activations@;
                p.meta.activations.set(idx, na);
                proof {
                    lemma_deep_update(a0, idx as int, na);
                }
            }
        },
        None => {},
    }
}


/// What an arrow says of a message.
fn arrow_info_exec(a: &Vec<char>) -> (r: (Option<EdgeArrowhead>, Option<EdgeArrowhead>, EdgeStyle, bool))
    ensures
        r == arrow_info(a@),
{
    if chars_eq(a, &lit("->>")) {
        (Some(EdgeArrowhead::Arrow), None, EdgeStyle::Solid, false)
    } else if chars_eq(a, &lit("-->>")) {
        (Some(EdgeArrowhead::Arrow), None, EdgeStyle::Dashed, false)
    } else if chars_eq(a, &lit("->")) || chars_eq(a, &lit("-)")) {
        (Some(EdgeArrowhead::OpenTriangle), None, EdgeStyle::Solid, false)
    } else if chars_eq(a, &lit("-->")) || chars_eq(a, &lit("--)")) {
        (Some(EdgeArrowhead::OpenTriangle), None, EdgeStyle::Dashed, false)
    } else if chars_eq(a, &lit("-x")) {
        (Some(EdgeArrowhead::Cross), None, EdgeStyle::Solid, false)
    } else if chars_eq(a, &lit("--x")) {
        (Some(EdgeArrowhead::Cross), None, EdgeStyle::Dashed, false)
    } else if chars_eq(a, &lit("<-")) {
        (None, Some(EdgeArrowhead::OpenTriangle), EdgeStyle::Solid, true)
    } else if chars_eq(a, &lit("<--")) {
        (None, Some(EdgeArrowhead::OpenTriangle), EdgeStyle::Dashed, true)
    } else if chars_eq(a, &lit("<<->>")) {
        (Some(EdgeArrowhead::Arrow), Some(EdgeArrowhead::Arrow), EdgeStyle::Solid, false)
    } else {
        (Some(EdgeArrowhead::Arrow), Some(EdgeArrowhead::Arrow), EdgeStyle::Dashed, false)
    }
}

/// The arrow forms, in the order they are looked for.
fn message_arrows_exec() -> (r: Vec<Vec<char>>)
    ensures
        views(r@) == message_arrows(),
{
    let mut r: Vec<Vec<char>> = Vec::new();
    r.push(lit("<<-->>"));
    r.push(lit("<<->>"));
    r.push(lit("-->>"));
    r.push(lit("->>"));
    r.push(lit("-->"));
    r.push(lit("->"));
    r.push(lit("--x"));
    r.push(lit("-x"));
    r.push(lit("--)"));
    r.push(lit("-)"));
    r.push(lit("<--"));
    r.push(lit("<-"));
    assert(views(r@) =~= message_arrows());
    r
}

/// The first arrow form in `line`, with where it occurs.
fn message_arrow_exec(line: &Vec<char>, arrows: &Vec<Vec<char>>) -> (r: Option<(usize, usize)>)
    requires
        views(arrows@) == message_arrows(),
    ensures
        match r {
            Some((i, pos)) => message_arrow(line@, 0) == Some(i as int) && i < 12 && i < arrows@.len()
                && find(line@, message_arrows()[i as int]) == Some(pos as int)
                && pos + message_arrows()[i as int].len() <= line@.len(),
            None => message_arrow(line@, 0) is None,
        },
{
    assert(arrows@.len() == views(arrows@).len());
    assert(message_arrows().len() == 12);
    let mut i: usize = 0;
    while i < 12
        invariant
            i <= 12,
            arrows@.len() == 12,
            views(arrows@) == message_arrows(),
            message_arrow(line@, 0) == message_arrow(line@, i as int),
        decreases 12 - i,
    {
        assert(views(arrows@)[i as int] == arrows@[i as int]@);
        match find_exec(line, &arrows[i]) {
            Some(pos) => {
                return Some((i, pos));
            },
            None => {},
        }
        i += 1;
    }
    None
}

/// A trailing `+` or `-`.
fn activation_suffix_exec(s0: &Vec<char>) -> (r: (Vec<char>, bool, bool))
    ensures
        (r.0@, r.1, r.2) == activation_suffix(s0@),
{
    let s = trim_chars(s0);
    if s.len() > 0 && s[s.len() - 1] == '+' {
        let u = slice_of(&s, 0, s.len() - 1);
        assert(u@ =~= s@.drop_last());
        (trim_chars(&u), true, false)
    } else if s.len() > 0 && s[s.len() - 1] == '-' {
        let u = slice_of(&s, 0, s.len() - 1);
        assert(u@ =~= s@.drop_last());
        (trim_chars(&u), false, true)
    } else {
        (s, false, false)
    }
}

/// A message read off a line.
struct MessageX {
    from: Vec<char>,
    to: Vec<char>,
    arrow: Vec<char>,
    label: Option<Vec<char>>,
    act_from: bool,
    act_to: bool,
    deact_from: bool,
    deact_to: bool,
}

impl View for MessageX {
    type V = Message;

    closed spec fn view(&self) -> Message {
        Message {
            from: self.from@,
            to: self.to@,
            arrow: self.arrow@,
            label: opt_text(self.label),
            act_from: self.act_from,
            act_to: self.act_to,
            deact_from: self.deact_from,
            deact_to: self.deact_to,
        }
    }
}

/// Reads a message line.
fn message_line_exec(line0: &Vec<char>, arrows: &Vec<Vec<char>>) -> (r: Option<MessageX>)
    requires
        views(arrows@) == message_arrows(),
    ensures
        match r {
            Some(m) => message_line(line0@) == Some(m@),
            None => message_line(line0@) is None,
        },
{
    let line = trim_chars(line0);
    match message_arrow_exec(&line, arrows) {
        None => None,
        Some((i, pos)) => {
            assert(views(arrows@)[i as int] == arrows@[i as int]@);
            let a = copy_chars(&arrows[i]);
            let head = slice_of(&line, 0, pos);
            assert(head@ =~= line@.take(pos as int));
            let (from, af, df) = activation_suffix_exec(&trim_chars(&head));
            let tail = suffix(&line, pos + a.len());
            assert(tail@ =~= line@.skip(pos + a@.len()));
            let rest0 = trim_start_chars(&tail);
            let (at, dt, rest) = if rest0.len() > 0 && rest0[0] == '+' {
                let r1 = suffix(&rest0, 1);
                assert(r1@ =~= rest0@.skip(1));
                (true, false, r1)
            } else if rest0.len() > 0 && rest0[0] == '-' {
                let r1 = suffix(&rest0, 1);
                assert(r1@ =~= rest0@.skip(1));
                (false, true, r1)
            } else {
                (false, false, rest0)
            };
            let (to_part, label) = match find_char_exec(&rest, ':') {
                Some(c) => {
                    let tp = slice_of(&rest, 0, c);
                    assert(tp@ =~= rest@.take(c as int));
                    let lb0 = suffix(&rest, c + 1);
                    assert(lb0@ =~= rest@.skip(c + 1));
                    let lb = trim_chars(&lb0);
                    (trim_chars(&tp), if lb.len() == 0 { None } else { Some(lb) })
                },
                None => (rest, None),
            };
            let (to, at2, dt2) = activation_suffix_exec(&to_part);
            let m = MessageX {
                from,
                to,
                arrow: a,
                label,
                act_from: af,
                act_to: at || at2,
                deact_from: df,
                deact_to: dt || dt2,
            };
            assert(m@ == message_line(line0@)->0);
            Some(m)
        },
    }
}

/// A message line's effect.
fn message_exec(p: &mut SeqParser, m: &MessageX)
    requires
        old(p).step < usize::MAX,
        old(p).meta.message_counter <= old(p).step,
    ensures
        final(p)@ == message(old(p)@, m@),
        final(p).step == old(p).step + 1,
        final(p).meta.message_counter <= final(p).step,
{
    let ghost st = p@;
    let from = resolve_exec(&p.meta, &m.from);
    let to = resolve_exec(&p.meta, &m.to);
    if m.act_from {
        activate_exec(p, &from);
    }
    let ghost s1 = p@;
    if m.act_to {
        activate_exec(p, &to);
    }
    let ghost s2 = p@;
    participant_exec(p, &from, false);
    let ghost s3 = p@;
    participant_exec(p, &to, false);
    let ghost s4 = p@;
    let (end, start, style, reversed) = arrow_info_exec(&m.arrow);
    let label = if p.meta.autonumber {
        let n = p.meta.message_counter + 1;
        p.meta.message_counter = n;
        let mut l = decimal_usize(n);
        append_chars(&mut l, &lit(". "));
        match &m.label {
            Some(x) => append_chars(&mut l, x),
            None => {
                assert(l@ =~= l@ + Seq::<char>::empty());
            },
        }
        Some(l)
    } else {
        copy_opt(&m.label)
    };
    let e = EdgeOf {
        from: if reversed { copy_chars(&to) } else { copy_chars(&from) },
        to: if reversed { copy_chars(&from) } else { copy_chars(&to) },
        label,
        start_label: None,
        end_label: None,
        directed: true,
        arrow_start: start,
        arrow_end: end,
        start_decoration: None,
        end_decoration: None,
        style,
    };
    push_edge(&mut p.ast, e);
    let ghost s5 = p@;
    assert(s5 == (SeqSt {
        ast: AstV { edges: s4.ast.edges.push(e@), ..s4.ast },
        meta: if s4.meta.autonumber { MetaV { message_counter: (s4.meta.message_counter + 1) as usize, ..s4.meta } } else { s4.meta },
        ..s4
    }));
    if m.deact_from {
        deactivate_exec(p, &from);
    }
    if m.deact_to {
        deactivate_exec(p, &to);
    }
    p.step = p.step + 1;
}


/// Kind named by a control block keyword.
fn block_kind_exec(k: &Vec<char>) -> (r: Option<ControlBlockKind>)
    ensures
        r == block_kind(k@),
{
    if chars_eq(k, &lit("loop")) {
        Some(ControlBlockKind::Loop)
    } else if chars_eq(k, &lit("alt")) {
        Some(ControlBlockKind::Alt)
    } else if chars_eq(k, &lit("opt")) {
        Some(ControlBlockKind::Opt)
    } else if chars_eq(k, &lit("par")) {
        Some(ControlBlockKind::Par)
    } else if chars_eq(k, &lit("critical")) {
        Some(ControlBlockKind::Critical)
    } else if chars_eq(k, &lit("break")) {
        Some(ControlBlockKind::Break)
    } else {
        None
    }
}

/// A group's text, empty when it did not take part.
fn group_text_exec(gs: &Vec<Option<Vec<char>>>, i: usize) -> (r: Vec<char>)
    ensures
        r@ == group_text(opt_texts(gs@), i as int),
{
    match group_exec(gs, i) {
        Some(t) => t,
        None => Vec::new(),
    }
}

/// The colour named by the captures of a `rect` line.
pub fn rect_color_exec(gs: &Vec<Option<Vec<char>>>) -> (r: Vec<char>)
    ensures
        r@ == rect_color(opt_texts(gs@)),
{
    group_text_exec(gs, 1)
}

/// The block that the captures of a block line open: its kind and trimmed label,
/// or `None` where the keyword names no block.
pub fn block_open_exec(gs: &Vec<Option<Vec<char>>>) -> (r: Option<(ControlBlockKind, Vec<char>)>)
    ensures
        match r {
            Some((k, l)) => block_open(opt_texts(gs@)) == Some((k, l@)),
            None => block_open(opt_texts(gs@)) is None,
        },
{
    match block_kind_exec(&group_text_exec(gs, 1)) {
        Some(k) => Some((k, trim_chars(&group_text_exec(gs, 2)))),
        None => None,
    }
}

/// The trimmed label from the captures of a branch line.
pub fn branch_label_exec(gs: &Vec<Option<Vec<char>>>) -> (r: Vec<char>)
    ensures
        r@ == branch_label(opt_texts(gs@)),
{
    trim_chars(&group_text_exec(gs, 2))
}

/// The trimmed participant name from the captures of a `create` line.
pub fn created_name_exec(gs: &Vec<Option<Vec<char>>>) -> (r: Vec<char>)
    ensures
        r@ == created_name(opt_texts(gs@)),
{
    trim_chars(&group_text_exec(gs, 1))
}

/// Position word, trimmed targets and trimmed text from the captures of a note line.
pub fn note_parts_exec(gs: &Vec<Option<Vec<char>>>) -> (r: (Vec<char>, Vec<char>, Vec<char>))
    ensures
        (r.0@, r.1@, r.2@) == note_parts(opt_texts(gs@)),
{
    (group_text_exec(gs, 1), trim_chars(&group_text_exec(gs, 2)), trim_chars(&group_text_exec(gs, 3)))
}

/// Trimmed name and trimmed alias from the captures of `name as alias`.
pub fn alias_parts_exec(gs: &Vec<Option<Vec<char>>>) -> (r: (Vec<char>, Vec<char>))
    ensures
        (r.0@, r.1@) == alias_parts(opt_texts(gs@)),
{
    (trim_chars(&group_text_exec(gs, 1)), trim_chars(&group_text_exec(gs, 2)))
}

/// Each name resolved.
fn resolve_all_exec(meta: &SequenceMetaOf<Vec<char>>, ns: &Vec<Vec<char>>) -> (r: Vec<Vec<char>>)
    ensures
        views(r@) == resolve_all(meta@, views(ns@)),
{
    let mut r: Vec<Vec<char>> = Vec::new();
    let mut i: usize = 0;
    while i < ns.len()
        invariant
            i <= ns@.len(),
            views(r@) == resolve_all(meta@, views(ns@)).take(i as int),
        decreases ns@.len() - i,
    {
        let ghost r0 = r@;
        let t = resolve_exec(meta, &trim_chars(&ns[i]));
        r.push(t);
        proof {
            crate::text::lemma_views_push(r0, t);
        }
        i += 1;
        assert(views(r@) =~= resolve_all(meta@, views(ns@)).take(i as int));
    }
    assert(resolve_all(meta@, views(ns@)).take(ns@.len() as int) =~= resolve_all(meta@, views(ns@)));
    r
}

/// Where a note stands.
fn note_position_exec(meta: &SequenceMetaOf<Vec<char>>, pos: &Vec<char>, target: &Vec<char>) -> (r: Option<NotePositionOf<Vec<char>>>)
    ensures
        match r {
            Some(np) => note_position(meta@, pos@, target@) == Some(match np {
                NotePositionOf::LeftOf(t) => NotePosV::LeftOf(t@),
                NotePositionOf::RightOf(t) => NotePosV::RightOf(t@),
                NotePositionOf::Over(v) => NotePosV::Over(text_views(v@)),
            }),
            None => note_position(meta@, pos@, target@) is None,
        },
{
    if chars_eq(pos, &lit("left of")) {
        Some(NotePositionOf::LeftOf(resolve_exec(meta, target)))
    } else if chars_eq(pos, &lit("right of")) {
        Some(NotePositionOf::RightOf(resolve_exec(meta, target)))
    } else if chars_eq(pos, &lit("over")) {
        let parts = split_char_exec(target, ',');
        let v = resolve_all_exec(meta, &parts);
        assert(text_views(v@) =~= views(v@));
        Some(NotePositionOf::Over(v))
    } else {
        None
    }
}

/// A line that declares, activates, annotates or sends.
fn seq_decl_exec(p: &mut SeqParser, line: &Vec<char>, arrows: &Vec<Vec<char>>)
    requires
        views(arrows@) == message_arrows(),
        old(p).step < usize::MAX,
        old(p).meta.message_counter <= old(p).step,
    ensures
        final(p)@ == seq_decl(old(p)@, line@),
        final(p).step <= old(p).step + 1,
        final(p).meta.message_counter <= final(p).step,
{
    reveal(seq_decl);
    let create_re = "^create\\s+(?:participant|actor)\\s+(.+)$";
    assert(create_re@ == create_pattern());
    match regex_groups_exec(create_re, line, line) {
        Some(gs) => {
            let name = created_name_exec(&gs);
            participant_exec(p, &name, false);
            return;
        },
        None => {},
    }
    if starts_with_exec(line, &lit("destroy ")) {
        return;
    }
    match strip_prefix_exec(line, &lit("activate ")) {
        Some(rest) => {
            let id = resolve_exec(&p.meta, &trim_chars(&rest));
            activate_exec(p, &id);
            return;
        },
        None => {},
    }
    match strip_prefix_exec(line, &lit("deactivate ")) {
        Some(rest) => {
            let id = resolve_exec(&p.meta, &trim_chars(&rest));
            deactivate_exec(p, &id);
            return;
        },
        None => {},
    }
    let note_re = "^Note\\s+(?P<pos>left of|right of|over)\\s+(?P<target>[^:]+?)(?:\\s*:\\s*(?P<text>.+))?$";
    assert(note_re@ == note_pattern());
    match regex_groups_exec(note_re, line, line) {
        Some(gs) => {
            let (pos, target, text) = note_parts_exec(&gs);
            match note_position_exec(&p.meta, &pos, &target) {
                Some(np) => {
                    let note = SequenceNoteOf { text, position: np, step: p.step };
                    let ghost n0 = p.meta.notes@;
                    p.meta.notes.push(note);
                    proof {
                        lemma_deep_push(n0, note);
                    }
                },
                None => {},
            }
            return;
        },
        None => {},
    }
    if starts_with_exec(line, &lit("participant ")) || starts_with_exec(line, &lit("actor ")) {
        let is_actor = starts_with_exec(line, &lit("actor "));
        let r1 = trim_start_matches_exec(line, &lit("participant "));
        let rest = trim_chars(&trim_start_matches_exec(&r1, &lit("actor ")));
        let alias_re = "^(?P<name>\\S+)\\s+as\\s+(?P<alias>.+)$";
        assert(alias_re@ == alias_pattern());
        match regex_groups_exec(alias_re, &rest, &rest) {
            Some(gs) => {
                let (name, alias) = alias_parts_exec(&gs);
                let ghost st = p@;
                assert(pair_views(p.meta.aliases@) =~= tt_view(p.meta.aliases@));
                tt_insert(&mut p.meta.aliases, alias, copy_chars(&name));
                assert(pair_views(p.meta.aliases@) =~= tt_view(p.meta.aliases@));
                participant_exec(p, &name, is_actor);
            },
            None => {
                participant_exec(p, &rest, is_actor);
            },
        }
        return;
    }
    match message_line_exec(line, arrows) {
        Some(m) => {
            message_exec(p, &m);
        },
        None => {},
    }
}


/// A line after the header.
fn seq_line_exec(p: &mut SeqParser, line: &Vec<char>, arrows: &Vec<Vec<char>>)
    requires
        views(arrows@) == message_arrows(),
        old(p).step < usize::MAX,
        old(p).meta.message_counter <= old(p).step,
    ensures
        final(p)@ == seq_line(old(p)@, line@),
        final(p).step <= old(p).step + 1,
        final(p).meta.message_counter <= final(p).step,
{
    reveal(seq_line);
    if chars_eq(line, &lit("autonumber")) {
        p.meta.autonumber = true;
        return;
    }
    match strip_prefix_exec(line, &lit("title:")) {
        Some(t0) => {
            let t = trim_chars(&t0);
            if t.len() > 0 {
                p.ast.title = Some(t);
            }
            return;
        },
        None => {},
    }
    if chars_eq(line, &lit("end")) {
        if p.rects.len() > 0 {
            let ghost r0 = p.rects@;
            let (c, s) = p.rects.pop().unwrap();
            assert(group_views(p.rects@) =~= group_views(r0).drop_last());
            let x = SequenceRectOf { color: c, start_step: s, end_step: p.step };
            let ghost m0 = p.meta.rects@;
            p.meta.rects.push(x);
            proof {
                lemma_deep_push(m0, x);
            }
        } else if p.blocks.len() > 0 {
            let ghost b0 = p.blocks@;
            let (k, l, s, g) = p.blocks.pop().unwrap();
            assert(block_views(p.blocks@) =~= block_views(b0).drop_last());
            let x = SequenceControlBlockOf { kind: k, label: l, start_step: s, end_step: p.step, groups: g };
            let ghost m0 = p.meta.control_blocks@;
            p.meta.control_blocks.push(x);
            proof {
                lemma_deep_push(m0, x);
            }
        }
        return;
    }
    let rect_re = "^rect\\s+(rgba?\\s*\\([^)]+\\))\\s*$";
    assert(rect_re@ == rect_pattern());
    match regex_groups_exec(rect_re, line, line) {
        Some(gs) => {
            let c = rect_color_exec(&gs);
            let ghost r0 = p.rects@;
            let ghost cv = c@;
            p.rects.push((c, p.step));
            assert(group_views(p.rects@) =~= group_views(r0).push((cv, p.step)));
            return;
        },
        None => {},
    }
    let block_re = "^(?P<kind>loop|alt|opt|par|critical|break)\\s+(?P<label>.*)$";
    assert(block_re@ == block_pattern());
    match regex_groups_exec(block_re, line, line) {
        Some(gs) => {
            match block_open_exec(&gs) {
                Some((k, label)) => {
                    let ghost b0 = p.blocks@;
                    let ghost lv = label@;
                    let groups: Vec<(Vec<char>, usize)> = Vec::new();
                    assert(group_views(groups@) =~= Seq::<(Text, usize)>::empty());
                    p.blocks.push((k, label, p.step, groups));
                    assert(block_views(p.blocks@) =~= block_views(b0).push((k, lv, p.step, seq![])));
                },
                None => {},
            }
            return;
        },
        None => {},
    }
    let branch_re = "^(?P<kind>else|and|option)(?:\\s+(?P<label>.*))?$";
    assert(branch_re@ == branch_pattern());
    match regex_groups_exec(branch_re, line, line) {
        Some(gs) => {
            if p.blocks.len() > 0 {
                let label = branch_label_exec(&gs);
                let ghost b0 = p.blocks@;
                let ghost lv = label@;
                let (k, l, s, mut g) = p.blocks.pop().unwrap();
                let ghost g0 = g@;
                g.push((label, p.step));
                assert(group_views(g@) =~= group_views(g0).push((lv, p.step)));
                p.blocks.push((k, l, s, g));
                assert(block_views(p.blocks@) =~= block_views(b0).drop_last().push((k, block_views(b0).last().1, s, group_views(g0).push((lv, p.step)))));
            }
            return;
        },
        None => {},
    }
    seq_decl_exec(p, line, arrows);
}

/// One line.
fn seq_step_exec(p: &mut SeqParser, raw: &Vec<char>, arrows: &Vec<Vec<char>>)
    requires
        views(arrows@) == message_arrows(),
        old(p).step < usize::MAX,
        old(p).meta.message_counter <= old(p).step,
    ensures
        final(p)@ == seq_step(old(p)@, raw@),
        final(p).step <= old(p).step + 1,
        final(p).meta.message_counter <= final(p).step,
{
    let line = trim_chars(raw);
    if line.len() == 0 || starts_with_exec(&line, &lit("%%")) {
        return;
    }
    if starts_with_exec(&line, &lit("sequenceDiagram")) {
        p.saw_header = true;
        return;
    }
    if !p.saw_header {
        return;
    }
    seq_line_exec(p, &line, arrows);
}

/// Whether activation `i` is still open in some stack.
fn still_open_exec(stacks: &Vec<(Vec<char>, Vec<usize>)>, i: usize) -> (r: bool)
    ensures
        r == still_open(stack_views(stacks@), i as int),
{
    let ghost sv = stack_views(stacks@);
    let mut k: usize = 0;
    while k < stacks.len()
        invariant
            k <= stacks@.len(),
            sv == stack_views(stacks@),
            forall|a: int, b: int| 0 <= a < k && 0 <= b < sv[a].1.len() ==> sv[a].1[b] != i,
        decreases stacks@.len() - k,
    {
        let mut j: usize = 0;
        while j < stacks[k].1.len()
            invariant
                k < stacks@.len(),
                j <= stacks@[k as int].1@.len(),
                sv == stack_views(stacks@),
                sv[k as int].1 == stacks@[k as int].1@,
                forall|a: int, b: int| 0 <= a < k && 0 <= b < sv[a].1.len() ==> sv[a].1[b] != i,
                forall|b: int| 0 <= b < j ==> sv[k as int].1[b] != i,
            decreases stacks@[k as int].1@.len() - j,
        {
            if stacks[k].1[j] == i {
                assert(sv[k as int].1[j as int] == i as usize);
                return true;
            }
            j += 1;
        }
        k += 1;
    }
    assert(!still_open(sv, i as int));
    false
}


/// Closes every open activation, block and rectangle at the last step.
fn seq_finish_exec(p: SeqParser) -> (r: AstOf<Vec<char>>)
    ensures
        r@ == seq_finish(p@),
{
    let ghost st = p@;
    let step = p.step;
    let SeqParser { ast, meta, stacks, step: _, blocks, rects, saw_header: _ } = p;
    let ghost acts0 = meta@.activations;
    let mut acts: Vec<SequenceActivationOf<Vec<char>>> = Vec::new();
    let mut i: usize = 0;
    while i < meta.activations.len()
        invariant
            i <= meta.activations@.len(),
            acts0 == deep(meta.activations@),
            st.stacks == stack_views(stacks@),
            step == st.step as usize,
            acts@.len() == i,
            forall|x: int| 0 <= x < i ==> #[trigger] deep(acts@)[x] == (if still_open(st.stacks, x) {
                ActivationV { end_step: Some(step), ..acts0[x] }
            } else {
                acts0[x]
            }),
        decreases meta.activations@.len() - i,
    {
        let a = &meta.activations[i];
        let open = still_open_exec(&stacks, i);
        let na = SequenceActivationOf {
            participant_id: copy_chars(&a.participant_id),
            start_step: a.start_step,
            end_step: if open { Some(step) } else { a.end_step },
            depth: a.depth,
        };
        let ghost v0 = acts@;
        acts.push(na);
        proof {
            lemma_deep_push(v0, na);
        }
        i += 1;
    }
    let ghost acts_final = acts;
    let SequenceMetaOf {
        participant_order, aliases, is_actor, activations: _, notes, rects: mut mrects,
        control_blocks: mut mcb, autonumber, message_counter, total_steps: _,
    } = meta;
    let mut blocks = blocks;
    let ghost cb0 = deep(mcb@);
    let ghost bs0 = block_views(blocks@);
    while blocks.len() > 0
        invariant
            cb0 + closed_blocks(bs0, step) == deep(mcb@) + closed_blocks(block_views(blocks@), step),
        decreases blocks@.len(),
    {
        let ghost b0 = blocks@;
        let ghost m0 = mcb@;
        let (k, l, s, g) = blocks.pop().unwrap();
        assert(block_views(blocks@) =~= block_views(b0).drop_last());
        let x = SequenceControlBlockOf { kind: k, label: l, start_step: s, end_step: step, groups: g };
        mcb.push(x);
        proof {
            lemma_deep_push(m0, x);
        }
        assert(deep(m0) + closed_blocks(block_views(b0), step) =~= deep(mcb@) + closed_blocks(block_views(blocks@), step));
    }
    assert(closed_blocks(block_views(blocks@), step) =~= Seq::empty());
    assert(deep(mcb@) =~= cb0 + closed_blocks(bs0, step));
    let mut rects = rects;
    let ghost rs0_meta = deep(mrects@);
    let ghost rs0 = group_views(rects@);
    while rects.len() > 0
        invariant
            rs0_meta + closed_rects(rs0, step) == deep(mrects@) + closed_rects(group_views(rects@), step),
        decreases rects@.len(),
    {
        let ghost r0 = rects@;
        let ghost m0 = mrects@;
        let (c, s) = rects.pop().unwrap();
        assert(group_views(rects@) =~= group_views(r0).drop_last());
        let x = SequenceRectOf { color: c, start_step: s, end_step: step };
        mrects.push(x);
        proof {
            lemma_deep_push(m0, x);
        }
        assert(deep(m0) + closed_rects(group_views(r0), step) =~= deep(mrects@) + closed_rects(group_views(rects@), step));
    }
    assert(closed_rects(group_views(rects@), step) =~= Seq::empty());
    assert(deep(mrects@) =~= rs0_meta + closed_rects(rs0, step));
    let meta = SequenceMetaOf {
        participant_order,
        aliases,
        is_actor,
        activations: acts,
        notes,
        rects: mrects,
        control_blocks: mcb,
        autonumber,
        message_counter,
        total_steps: step,
    };
    let mut ast = ast;
    ast.sequence_meta = Some(meta);
    assert(deep(acts_final@) =~= seq_finish(st).sequence_meta->0.activations);
    proof {
        let fm = seq_finish(st).sequence_meta->0;
        let m = ast@.sequence_meta->0;
        assert(m.activations == fm.activations);
        assert(m.control_blocks == fm.control_blocks);
        assert(m.rects == fm.rects);
        assert(m == fm);
    }
    ast
}

/// Parses a sequence diagram. Every source is accepted: lines before the
/// `sequenceDiagram` header and lines that match no form are skipped.
pub fn parse_sequence(input: &str) -> (r: Result<DiagramAst, CoreError>)
    ensures
        r matches Ok(a) && a@ == seq_model(input@),
{
    let s = str_chars(input);
    let ls = lines_exec(&s);
    let arrows = message_arrows_exec();
    let meta = SequenceMetaOf {
        participant_order: Vec::new(),
        aliases: Vec::new(),
        is_actor: Vec::new(),
        activations: Vec::new(),
        notes: Vec::new(),
        rects: Vec::new(),
        control_blocks: Vec::new(),
        autonumber: false,
        message_counter: 0,
        total_steps: 0,
    };
    let mut p = SeqParser {
        ast: empty_ast_exec(DiagramKind::Sequence),
        meta,
        stacks: Vec::new(),
        step: 0,
        blocks: Vec::new(),
        rects: Vec::new(),
        saw_header: false,
    };
    assert(p@.meta.participant_order =~= Seq::empty());
    assert(p@.meta.aliases =~= Seq::empty());
    assert(p@.meta.is_actor =~= Seq::empty());
    assert(p@.meta.activations =~= Seq::empty());
    assert(p@.meta.notes =~= Seq::empty());
    assert(p@.meta.rects =~= Seq::empty());
    assert(p@.meta.control_blocks =~= Seq::empty());
    assert(p@.stacks =~= seq_run(views(ls@), 0).stacks);
    assert(p@.blocks =~= seq_run(views(ls@), 0).blocks);
    assert(p@.rects =~= seq_run(views(ls@), 0).rects);
    assert(p@ == seq_run(views(ls@), 0));
    let mut i: usize = 0;
    while i < ls.len()
        invariant
            i <= ls@.len(),
            views(ls@) == lines(s@),
            s@ == input@,
            views(arrows@) == message_arrows(),
            p@ == seq_run(views(ls@), i as int),
            p.step <= i,
            p.meta.message_counter <= p.step,
        decreases ls@.len() - i,
    {
        assert(views(ls@)[i as int] == ls@[i as int]@);
        seq_step_exec(&mut p, &ls[i], &arrows);
        i += 1;
    }
    let a = seq_finish_exec(p);
    Ok(conv_ast(&a))
}

} // verus!
