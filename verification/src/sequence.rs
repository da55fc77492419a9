//! Model of `sequenceDiagram` sources: participants and actors with aliases,
//! messages with twelve arrow forms and `+`/`-` activation marks, activations,
//! notes, control blocks with their branches, background rectangles, numbering.
//!
//! Steps count messages: a record made between two messages carries the number
//! of messages before it.

use vstd::prelude::*;
use crate::text::{trim, trim_start, starts_with, find, find_char, lines, lines_from, split_char, decimal};
use crate::syntax::{strip_prefix, trim_start_matches};
use crate::diagram::{
    Text, AstV, NodeV, EdgeV, NodeShape, EdgeArrowhead, EdgeStyle, DiagramKind, ControlBlockKind,
    MetaV, ActivationV, NoteV, NotePosV, RectV, BlockV,
};
use crate::model::{lookup, insert, has_node, plain_node, ensure_node, empty_ast, first_index, unique_ids, lemma_ensure_node_unique, node_ids};
use crate::pattern::regex_groups;
use crate::flowchart::group;

verus! {

// ---------------------------------------------------------------------------
// Patterns
// ---------------------------------------------------------------------------

/// `rect rgb(...)` / `rect rgba(...)` (group 1: the colour).
pub open spec fn rect_pattern() -> Seq<char> {
    "^rect\\s+(rgba?\\s*\\([^)]+\\))\\s*$"@
}

/// Control block openings (groups: kind, label).
pub open spec fn block_pattern() -> Seq<char> {
    "^(?P<kind>loop|alt|opt|par|critical|break)\\s+(?P<label>.*)$"@
}

/// Branches of a control block (groups: kind, label).
pub open spec fn branch_pattern() -> Seq<char> {
    "^(?P<kind>else|and|option)(?:\\s+(?P<label>.*))?$"@
}

/// `create participant X` (group 1: the name).
pub open spec fn create_pattern() -> Seq<char> {
    "^create\\s+(?:participant|actor)\\s+(.+)$"@
}

/// Notes (groups: position, targets, text).
pub open spec fn note_pattern() -> Seq<char> {
    "^Note\\s+(?P<pos>left of|right of|over)\\s+(?P<target>[^:]+?)(?:\\s*:\\s*(?P<text>.+))?$"@
}

/// `Name as Alias` (groups: name, alias).
pub open spec fn alias_pattern() -> Seq<char> {
    "^(?P<name>\\S+)\\s+as\\s+(?P<alias>.+)$"@
}

/// A group's text, empty when it did not take part.
pub open spec fn group_text(gs: Seq<Option<Text>>, i: int) -> Text {
    match group(gs, i) { Some(t) => t, None => seq![] }
}

/// The colour that a match of the `rect` pattern names.
pub open spec fn rect_color(gs: Seq<Option<Text>>) -> Text {
    group_text(gs, 1)
}

/// The kind and trimmed label that a match of the block pattern opens, if its
/// keyword names a block.
pub open spec fn block_open(gs: Seq<Option<Text>>) -> Option<(ControlBlockKind, Text)> {
    match block_kind(group_text(gs, 1)) {
        Some(k) => Some((k, trim(group_text(gs, 2)))),
        None => None,
    }
}

/// The trimmed label of a match of the branch pattern (`else`, `and`, `option`).
pub open spec fn branch_label(gs: Seq<Option<Text>>) -> Text {
    trim(group_text(gs, 2))
}

/// The trimmed name that a match of the `create` pattern declares.
pub open spec fn created_name(gs: Seq<Option<Text>>) -> Text {
    trim(group_text(gs, 1))
}

/// Position word, trimmed target list and trimmed text of a match of the note pattern.
pub open spec fn note_parts(gs: Seq<Option<Text>>) -> (Text, Text, Text) {
    (group_text(gs, 1), trim(group_text(gs, 2)), trim(group_text(gs, 3)))
}

/// Trimmed name and trimmed alias of a match of the alias pattern.
pub open spec fn alias_parts(gs: Seq<Option<Text>>) -> (Text, Text) {
    (trim(group_text(gs, 1)), trim(group_text(gs, 2)))
}

// ---------------------------------------------------------------------------
// Messages
// ---------------------------------------------------------------------------

/// What an arrow says of a message: (arrow at the end, arrow at the start, style, reversed).
pub open spec fn arrow_info(a: Text) -> (Option<EdgeArrowhead>, Option<EdgeArrowhead>, EdgeStyle, bool) {
    if a == "->>"@ {
        (Some(EdgeArrowhead::Arrow), None, EdgeStyle::Solid, false)
    } else if a == "-->>"@ {
        (Some(EdgeArrowhead::Arrow), None, EdgeStyle::Dashed, false)
    } else if a == "->"@ || a == "-)"@ {
        (Some(EdgeArrowhead::OpenTriangle), None, EdgeStyle::Solid, false)
    } else if a == "-->"@ || a == "--)"@ {
        (Some(EdgeArrowhead::OpenTriangle), None, EdgeStyle::Dashed, false)
    } else if a == "-x"@ {
        (Some(EdgeArrowhead::Cross), None, EdgeStyle::Solid, false)
    } else if a == "--x"@ {
        (Some(EdgeArrowhead::Cross), None, EdgeStyle::Dashed, false)
    } else if a == "<-"@ {
        (None, Some(EdgeArrowhead::OpenTriangle), EdgeStyle::Solid, true)
    } else if a == "<--"@ {
        (None, Some(EdgeArrowhead::OpenTriangle), EdgeStyle::Dashed, true)
    } else if a == "<<->>"@ {
        (Some(EdgeArrowhead::Arrow), Some(EdgeArrowhead::Arrow), EdgeStyle::Solid, false)
    } else {
        (Some(EdgeArrowhead::Arrow), Some(EdgeArrowhead::Arrow), EdgeStyle::Dashed, false)
    }
}

/// Arrow forms, in the order they are looked for.
pub open spec fn message_arrows() -> Seq<Text> {
    seq!["<<-->>"@, "<<->>"@, "-->>"@, "->>"@, "-->"@, "->"@, "--x"@, "-x"@, "--)"@, "-)"@, "<--"@, "<-"@]
}

/// Index of the first arrow form (from `i` on) that occurs in `line`.
pub open spec fn message_arrow(line: Text, i: int) -> Option<int>
    decreases 12 - i,
{
    if i < 0 || i >= 12 {
        None
    } else if find(line, message_arrows()[i]) is Some {
        Some(i)
    } else {
        message_arrow(line, i + 1)
    }
}

/// A trailing `+` or `-`: (name, activates, deactivates).
pub open spec fn activation_suffix(s0: Text) -> (Text, bool, bool) {
    let s = trim(s0);
    if s.len() > 0 && s.last() == '+' {
        (trim(s.drop_last()), true, false)
    } else if s.len() > 0 && s.last() == '-' {
        (trim(s.drop_last()), false, true)
    } else {
        (s, false, false)
    }
}

/// A message: (from, to, arrow, label, from activates, to activates, from deactivates, to deactivates).
pub struct Message {
    pub from: Text,
    pub to: Text,
    pub arrow: Text,
    pub label: Option<Text>,
    pub act_from: bool,
    pub act_to: bool,
    pub deact_from: bool,
    pub deact_to: bool,
}

/// Reads a message line at its first arrow form.
pub open spec fn message_line(line0: Text) -> Option<Message> {
    let line = trim(line0);
    match message_arrow(line, 0) {
        None => None,
        Some(i) => {
            let a = message_arrows()[i];
            let pos = find(line, a)->0;
            let (from, af, df) = activation_suffix(trim(line.take(pos)));
            let rest0 = trim_start(line.skip(pos + a.len()));
            let (at, dt, rest) = if rest0.len() > 0 && rest0[0] == '+' {
                (true, false, rest0.skip(1))
            } else if rest0.len() > 0 && rest0[0] == '-' {
                (false, true, rest0.skip(1))
            } else {
                (false, false, rest0)
            };
            let (to_part, label) = match find_char(rest, ':') {
                Some(c) => (trim(rest.take(c)), if trim(rest.skip(c + 1)).len() == 0 { None } else { Some(trim(rest.skip(c + 1))) }),
                None => (rest, None),
            };
            let (to, at2, dt2) = activation_suffix(to_part);
            Some(Message {
                from,
                to,
                arrow: a,
                label,
                act_from: af,
                act_to: at || at2,
                deact_from: df,
                deact_to: dt || dt2,
            })
        },
    }
}

// ---------------------------------------------------------------------------
// Parser state
// ---------------------------------------------------------------------------

/// Parser state between lines.
pub struct SeqSt {
    pub ast: AstV,
    pub meta: MetaV,
    pub stacks: Seq<(Text, Seq<usize>)>,
    pub step: nat,
    pub blocks: Seq<(ControlBlockKind, Text, usize, Seq<(Text, usize)>)>,
    pub rects: Seq<(Text, usize)>,
    pub saw_header: bool,
}

/// The participant a name or alias stands for.
pub open spec fn resolve(meta: MetaV, name: Text) -> Text {
    let n = trim(name);
    match lookup(meta.aliases, n) {
        Some(id) => id,
        None => n,
    }
}

/// Declares a participant (an empty name declares nothing) and records its kind.
pub open spec fn participant(st: SeqSt, name: Text, is_actor: bool) -> SeqSt {
    let n = trim(name);
    if n.len() == 0 {
        st
    } else {
        let fresh = !has_node(st.ast, n);
        let a = if fresh {
            ensure_node(st.ast, plain_node(n, n, if is_actor { NodeShape::Circle } else { NodeShape::Rectangle }))
        } else {
            st.ast
        };
        let order = if fresh && first_index(st.meta.participant_order, n) is None {
            st.meta.participant_order.push(n)
        } else {
            st.meta.participant_order
        };
        SeqSt {
            ast: a,
            meta: MetaV { participant_order: order, is_actor: insert(st.meta.is_actor, n, is_actor), ..st.meta },
            ..st
        }
    }
}

/// Opens an activation of `id` at the current step, one deeper than the open ones.
pub open spec fn activate(st: SeqSt, id: Text) -> SeqSt {
    let open = match lookup(st.stacks, id) { Some(s) => s, None => seq![] };
    let idx = st.meta.activations.len();
    let act = ActivationV { participant_id: id, start_step: st.step as usize, end_step: None, depth: open.len() as usize };
    SeqSt {
        meta: MetaV { activations: st.meta.activations.push(act), ..st.meta },
        stacks: insert(st.stacks, id, open.push(idx as usize)),
        ..st
    }
}

/// Closes the innermost open activation of `id` at the current step.
pub open spec fn deactivate(st: SeqSt, id: Text) -> SeqSt {
    match lookup(st.stacks, id) {
        Some(s) => if s.len() > 0 {
            let idx = s.last() as int;
            let acts = st.meta.activations;
            SeqSt {
                meta: MetaV {
                    activations: if idx < acts.len() {
                        acts.update(idx, ActivationV { end_step: Some(st.step as usize), ..acts[idx] })
                    } else {
                        acts
                    },
                    ..st.meta
                },
                stacks: insert(st.stacks, id, s.drop_last()),
                ..st
            }
        } else {
            st
        },
        None => st,
    }
}

/// The label a message shows: numbered `n. label` once numbering is on.
pub open spec fn numbered_label(meta: MetaV, label: Option<Text>) -> Option<Text> {
    if meta.autonumber {
        Some(decimal(((meta.message_counter + 1) as usize) as nat) + ". "@ + match label { Some(l) => l, None => seq![] })
    } else {
        label
    }
}

/// The edge of a message between resolved participants.
pub open spec fn message_edge(m: Message, from: Text, to: Text, label: Option<Text>) -> EdgeV {
    let (end, start, style, reversed) = arrow_info(m.arrow);
    EdgeV {
        from: if reversed { to } else { from },
        to: if reversed { from } else { to },
        label,
        start_label: None,
        end_label: None,
        directed: true,
        arrow_start: start,
        arrow_end: end,
        start_decoration: None,
        end_decoration: None,
        style,
    }
}

/// Records a message's edge, counting it when numbering is on.
pub open spec fn record_message(st: SeqSt, e: EdgeV) -> SeqSt {
    SeqSt {
        ast: AstV { edges: st.ast.edges.push(e), ..st.ast },
        meta: if st.meta.autonumber { MetaV { message_counter: (st.meta.message_counter + 1) as usize, ..st.meta } } else { st.meta },
        ..st
    }
}

/// A message line's effect.
pub open spec fn message(st: SeqSt, m: Message) -> SeqSt {
    let from = resolve(st.meta, m.from);
    let to = resolve(st.meta, m.to);
    let s1 = if m.act_from { activate(st, from) } else { st };
    let s2 = if m.act_to { activate(s1, to) } else { s1 };
    let s3 = participant(s2, from, false);
    let s4 = participant(s3, to, false);
    let s5 = record_message(s4, message_edge(m, from, to, numbered_label(s4.meta, m.label)));
    let s6 = if m.deact_from { deactivate(s5, from) } else { s5 };
    let s7 = if m.deact_to { deactivate(s6, to) } else { s6 };
    SeqSt { step: s7.step + 1, ..s7 }
}

/// Kind named by a control block keyword.
pub open spec fn block_kind(k: Text) -> Option<ControlBlockKind> {
    if k == "loop"@ {
        Some(ControlBlockKind::Loop)
    } else if k == "alt"@ {
        Some(ControlBlockKind::Alt)
    } else if k == "opt"@ {
        Some(ControlBlockKind::Opt)
    } else if k == "par"@ {
        Some(ControlBlockKind::Par)
    } else if k == "critical"@ {
        Some(ControlBlockKind::Critical)
    } else if k == "break"@ {
        Some(ControlBlockKind::Break)
    } else {
        None
    }
}

/// Names of an `over` note: each resolved.
pub open spec fn resolve_all(meta: MetaV, ns: Seq<Text>) -> Seq<Text> {
    ns.map_values(|n: Text| resolve(meta, trim(n)))
}

/// One line: blank lines, comments and anything before the header are skipped.
pub open spec fn seq_step(st: SeqSt, raw: Text) -> SeqSt {
    let line = trim(raw);
    if line.len() == 0 || starts_with(line, "%%"@) {
        st
    } else if starts_with(line, "sequenceDiagram"@) {
        SeqSt { saw_header: true, ..st }
    } else if !st.saw_header {
        st
    } else {
        seq_line(st, line)
    }
}

/// A line after the header: numbering, title, block structure.
#[verifier::opaque]
pub open spec fn seq_line(st: SeqSt, line: Text) -> SeqSt {
    if line == "autonumber"@ {
        SeqSt { meta: MetaV { autonumber: true, ..st.meta }, ..st }
    } else if strip_prefix(line, "title:"@) is Some {
        let t = trim(strip_prefix(line, "title:"@)->0);
        if t.len() > 0 { SeqSt { ast: AstV { title: Some(t), ..st.ast }, ..st } } else { st }
    } else if line == "end"@ {
        if st.rects.len() > 0 {
            let (c, s) = st.rects.last();
            SeqSt {
                meta: MetaV { rects: st.meta.rects.push(RectV { color: c, start_step: s, end_step: st.step as usize }), ..st.meta },
                rects: st.rects.drop_last(),
                ..st
            }
        } else if st.blocks.len() > 0 {
            let (k, l, s, g) = st.blocks.last();
            SeqSt {
                meta: MetaV {
                    control_blocks: st.meta.control_blocks.push(BlockV { kind: k, label: l, start_step: s, end_step: st.step as usize, groups: g }),
                    ..st.meta
                },
                blocks: st.blocks.drop_last(),
                ..st
            }
        } else {
            st
        }
    } else if regex_groups(rect_pattern(), line, line) is Some {
        let c = rect_color(regex_groups(rect_pattern(), line, line)->0);
        SeqSt { rects: st.rects.push((c, st.step as usize)), ..st }
    } else if regex_groups(block_pattern(), line, line) is Some {
        match block_open(regex_groups(block_pattern(), line, line)->0) {
            Some((k, label)) => SeqSt { blocks: st.blocks.push((k, label, st.step as usize, seq![])), ..st },
            None => st,
        }
    } else if regex_groups(branch_pattern(), line, line) is Some {
        let label = branch_label(regex_groups(branch_pattern(), line, line)->0);
        if st.blocks.len() > 0 {
            let (k, l, s, g) = st.blocks.last();
            SeqSt {
                blocks: st.blocks.drop_last().push((k, l, s, g.push((label, st.step as usize)))),
                ..st
            }
        } else {
            st
        }
    } else {
        seq_decl(st, line)
    }
}

/// Where a note stands.
pub open spec fn note_position(meta: MetaV, pos: Text, target: Text) -> Option<NotePosV> {
    if pos == "left of"@ {
        Some(NotePosV::LeftOf(resolve(meta, target)))
    } else if pos == "right of"@ {
        Some(NotePosV::RightOf(resolve(meta, target)))
    } else if pos == "over"@ {
        Some(NotePosV::Over(resolve_all(meta, split_char(target, ','))))
    } else {
        None
    }
}

/// A line that declares, activates, annotates or sends.
#[verifier::opaque]
pub open spec fn seq_decl(st: SeqSt, line: Text) -> SeqSt {
    if regex_groups(create_pattern(), line, line) is Some {
        participant(st, created_name(regex_groups(create_pattern(), line, line)->0), false)
    } else if starts_with(line, "destroy "@) {
        st
    } else if strip_prefix(line, "activate "@) is Some {
        activate(st, resolve(st.meta, trim(strip_prefix(line, "activate "@)->0)))
    } else if strip_prefix(line, "deactivate "@) is Some {
        deactivate(st, resolve(st.meta, trim(strip_prefix(line, "deactivate "@)->0)))
    } else if regex_groups(note_pattern(), line, line) is Some {
        let (pos, target, text) = note_parts(regex_groups(note_pattern(), line, line)->0);
        match note_position(st.meta, pos, target) {
            Some(p) => SeqSt {
                meta: MetaV { notes: st.meta.notes.push(NoteV { text, position: p, step: st.step as usize }), ..st.meta },
                ..st
            },
            None => st,
        }
    } else if starts_with(line, "participant "@) || starts_with(line, "actor "@) {
        let is_actor = starts_with(line, "actor "@);
        let rest = trim(trim_start_matches(trim_start_matches(line, "participant "@), "actor "@));
        match regex_groups(alias_pattern(), rest, rest) {
            Some(gs) => {
                let (name, alias) = alias_parts(gs);
                participant(SeqSt { meta: MetaV { aliases: insert(st.meta.aliases, alias, name), ..st.meta }, ..st }, name, is_actor)
            },
            None => participant(st, rest, is_actor),
        }
    } else {
        match message_line(line) {
            Some(m) => message(st, m),
            None => st,
        }
    }
}

/// State after the first `n` lines.
pub open spec fn seq_run(ls: Seq<Text>, n: int) -> SeqSt
    decreases n,
{
    if n <= 0 {
        SeqSt {
            ast: empty_ast(DiagramKind::Sequence),
            meta: MetaV {
                participant_order: seq![],
                aliases: seq![],
                is_actor: seq![],
                activations: seq![],
                notes: seq![],
                rects: seq![],
                control_blocks: seq![],
                autonumber: false,
                message_counter: 0,
                total_steps: 0,
            },
            stacks: seq![],
            step: 0,
            blocks: seq![],
            rects: seq![],
            saw_header: false,
        }
    } else {
        seq_step(seq_run(ls, n - 1), ls[n - 1])
    }
}

/// Whether activation `i` is still open in some participant's stack.
pub open spec fn still_open(stacks: Seq<(Text, Seq<usize>)>, i: int) -> bool {
    exists|k: int, j: int| 0 <= k < stacks.len() && 0 <= j < stacks[k].1.len() && #[trigger] stacks[k].1[j] as int == i
}

/// Blocks still open at the end, innermost first.
pub open spec fn closed_blocks(bs: Seq<(ControlBlockKind, Text, usize, Seq<(Text, usize)>)>, step: usize) -> Seq<BlockV>
    decreases bs.len(),
{
    if bs.len() == 0 {
        seq![]
    } else {
        let (k, l, s, g) = bs.last();
        seq![BlockV { kind: k, label: l, start_step: s, end_step: step, groups: g }] + closed_blocks(bs.drop_last(), step)
    }
}

/// Rectangles still open at the end, innermost first.
pub open spec fn closed_rects(rs: Seq<(Text, usize)>, step: usize) -> Seq<RectV>
    decreases rs.len(),
{
    if rs.len() == 0 {
        seq![]
    } else {
        seq![RectV { color: rs.last().0, start_step: rs.last().1, end_step: step }] + closed_rects(rs.drop_last(), step)
    }
}

/// The sequence data once every open activation, block and rectangle is closed
/// at the last step.
pub open spec fn seq_finish(st: SeqSt) -> AstV {
    let step = st.step as usize;
    let acts = st.meta.activations;
    let meta = MetaV {
        activations: Seq::new(acts.len(), |i: int| if still_open(st.stacks, i) {
            ActivationV { end_step: Some(step), ..acts[i] }
        } else {
            acts[i]
        }),
        control_blocks: st.meta.control_blocks + closed_blocks(st.blocks, step),
        rects: st.meta.rects + closed_rects(st.rects, step),
        total_steps: step,
        ..st.meta
    };
    AstV { sequence_meta: Some(meta), ..st.ast }
}

/// The model a sequence diagram source describes.
pub open spec fn seq_model(s: Seq<char>) -> AstV {
    seq_finish(seq_run(lines(s), lines(s).len() as int))
}


// ---------------------------------------------------------------------------
// Steps
// ---------------------------------------------------------------------------

/// An activation that starts by step `step` and, when closed, ends between its
/// start and `step`.
pub open spec fn activation_within(a: ActivationV, step: nat) -> bool {
    &&& a.start_step <= step
    &&& (a.end_step matches Some(e) ==> a.start_step <= e && e <= step)
}

/// A closed activation, ending between its start and `step`.
pub open spec fn closed_within(a: ActivationV, step: nat) -> bool {
    a.end_step matches Some(e) && a.start_step <= e && e <= step
}

/// A closed block whose branches lie between its start and end, which is by `step`.
pub open spec fn block_within(b: BlockV, step: nat) -> bool {
    &&& b.start_step <= b.end_step
    &&& b.end_step <= step
    &&& forall|g: int| 0 <= g < b.groups.len() ==> b.start_step <= (#[trigger] b.groups[g]).1 && b.groups[g].1 <= b.end_step
}

/// An open block whose branches lie between its start and `step`.
pub open spec fn open_block_within(b: (ControlBlockKind, Text, usize, Seq<(Text, usize)>), step: nat) -> bool {
    &&& b.2 <= step
    &&& forall|g: int| 0 <= g < b.3.len() ==> b.2 <= (#[trigger] b.3[g]).1 && b.3[g].1 <= step
}

/// Everything recorded so far lies within the steps taken, and every activation
/// still open is on some participant's stack.
#[verifier::opaque]
pub open spec fn steps_within(st: SeqSt) -> bool {
    let step = st.step;
    let acts = st.meta.activations;
    &&& forall|i: int| 0 <= i < acts.len() ==> activation_within(#[trigger] acts[i], step)
    &&& forall|i: int| 0 <= i < acts.len() ==> ((#[trigger] acts[i]).end_step is None ==> still_open(st.stacks, i))
    &&& forall|i: int| 0 <= i < st.blocks.len() ==> open_block_within(#[trigger] st.blocks[i], step)
    &&& forall|i: int| 0 <= i < st.meta.control_blocks.len() ==> block_within(#[trigger] st.meta.control_blocks[i], step)
    &&& forall|i: int| 0 <= i < st.rects.len() ==> (#[trigger] st.rects[i]).1 <= step
    &&& forall|i: int| 0 <= i < st.meta.rects.len() ==> (#[trigger] st.meta.rects[i]).start_step <= st.meta.rects[i].end_step
        && st.meta.rects[i].end_step <= step
    &&& forall|i: int| 0 <= i < st.meta.notes.len() ==> (#[trigger] st.meta.notes[i]).step <= step
}

/// What the step lemmas need of a state: room for one more step and two more
/// activations, and one edge per step.
pub open spec fn step_room(st: SeqSt) -> bool {
    &&& st.step < usize::MAX
    &&& st.meta.activations.len() + 2 <= usize::MAX
    &&& st.ast.edges.len() == st.step
}

proof fn lemma_insert_keeps_open(stacks: Seq<(Text, Seq<usize>)>, id: Text, v: Seq<usize>, i: int)
    requires
        still_open(stacks, i),
        lookup(stacks, id) matches Some(s) ==> forall|j: int| 0 <= j < s.len() && s[j] as int == i ==> j < v.len() && v[j] as int == i,
    ensures
        still_open(insert(stacks, id, v), i),
{
    let ks = stacks.map_values(|p: (Text, Seq<usize>)| p.0);
    crate::model::lemma_first_index(ks, id);
    let (k, j) = choose|k: int, j: int| 0 <= k < stacks.len() && 0 <= j < stacks[k].1.len() && #[trigger] stacks[k].1[j] as int == i;
    let ns = insert(stacks, id, v);
    match first_index(ks, id) {
        Some(j0) => {
            if k == j0 {
                assert(ns[k].1[j] as int == i);
            } else {
                assert(ns[k] == stacks[k]);
                assert(ns[k].1[j] as int == i);
            }
        },
        None => {
            assert(ns[k] == stacks[k]);
            assert(ns[k].1[j] as int == i);
        },
    }
}

proof fn lemma_insert_opens(stacks: Seq<(Text, Seq<usize>)>, id: Text, s: Seq<usize>, x: usize)
    requires
        s == (match lookup(stacks, id) { Some(t) => t, None => seq![] }),
    ensures
        still_open(insert(stacks, id, s.push(x)), x as int),
{
    let ks = stacks.map_values(|p: (Text, Seq<usize>)| p.0);
    crate::model::lemma_first_index(ks, id);
    let ns = insert(stacks, id, s.push(x));
    match first_index(ks, id) {
        Some(j0) => {
            assert(ns[j0].1[s.len() as int] == x);
        },
        None => {
            assert(ns[stacks.len() as int].1[0] == x);
        },
    }
}

proof fn lemma_activate_within(st: SeqSt, id: Text)
    requires
        steps_within(st),
        st.step <= usize::MAX,
        st.meta.activations.len() < usize::MAX,
    ensures
        steps_within(activate(st, id)),
        activate(st, id).meta.activations.len() == st.meta.activations.len() + 1,
        activate(st, id).step == st.step,
        activate(st, id).ast == st.ast,
{
    reveal(steps_within);
    let open = match lookup(st.stacks, id) { Some(s) => s, None => seq![] };
    let idx = st.meta.activations.len();
    let st2 = activate(st, id);
    assert forall|i: int| 0 <= i < st2.meta.activations.len() implies
        ((#[trigger] st2.meta.activations[i]).end_step is None ==> still_open(st2.stacks, i)) by {
        if i < idx {
            if st.meta.activations[i].end_step is None {
                lemma_insert_keeps_open(st.stacks, id, open.push(idx as usize), i);
            }
        } else {
            lemma_insert_opens(st.stacks, id, open, idx as usize);
        }
    }
}

proof fn lemma_deactivate_within(st: SeqSt, id: Text)
    requires
        steps_within(st),
        st.step <= usize::MAX,
    ensures
        steps_within(deactivate(st, id)),
        deactivate(st, id).meta.activations.len() == st.meta.activations.len(),
        deactivate(st, id).step == st.step,
        deactivate(st, id).ast == st.ast,
{
    reveal(steps_within);
    match lookup(st.stacks, id) {
        Some(s) => if s.len() > 0 {
            let idx = s.last() as int;
            let st2 = deactivate(st, id);
            assert forall|i: int| 0 <= i < st2.meta.activations.len() implies
                ((#[trigger] st2.meta.activations[i]).end_step is None ==> still_open(st2.stacks, i)) by {
                if st2.meta.activations[i].end_step is None {
                    assert(i != idx);
                    assert forall|j: int| 0 <= j < s.len() && s[j] as int == i implies j < s.drop_last().len() && s.drop_last()[j] as int == i by {
                        if j == s.len() - 1 {
                            assert(s[j] == s.last());
                        }
                    }
                    lemma_insert_keeps_open(st.stacks, id, s.drop_last(), i);
                }
            }
        },
        None => {},
    }
}

proof fn lemma_participant_within(st: SeqSt, name: Text, is_actor: bool)
    requires
        steps_within(st),
    ensures
        steps_within(participant(st, name, is_actor)),
        participant(st, name, is_actor).step == st.step,
        participant(st, name, is_actor).ast.edges == st.ast.edges,
        participant(st, name, is_actor).meta.activations == st.meta.activations,
{
    reveal(steps_within);
}

/// A state that differs from one within its steps only in its model and
/// message counter is within them too.
proof fn lemma_counter_within(st: SeqSt, t: SeqSt)
    requires
        steps_within(st),
        t == (SeqSt { ast: t.ast, meta: MetaV { message_counter: t.meta.message_counter, ..st.meta }, ..st }),
    ensures
        steps_within(t),
{
    reveal(steps_within);
}

/// One more step keeps everything within the steps.
proof fn lemma_step_within(st: SeqSt)
    requires
        steps_within(st),
    ensures
        steps_within(SeqSt { step: st.step + 1, ..st }),
{
    reveal(steps_within);
    let t = SeqSt { step: st.step + 1, ..st };
    assert forall|i: int| 0 <= i < t.meta.control_blocks.len() implies block_within(#[trigger] t.meta.control_blocks[i], t.step) by {
        assert(block_within(st.meta.control_blocks[i], st.step));
    }
    assert forall|i: int| 0 <= i < t.blocks.len() implies open_block_within(#[trigger] t.blocks[i], t.step) by {
        assert(open_block_within(st.blocks[i], st.step));
    }
}

proof fn lemma_message_within(st: SeqSt, m: Message)
    requires
        steps_within(st),
        step_room(st),
    ensures
        steps_within(message(st, m)),
        message(st, m).step == st.step + 1,
        message(st, m).ast.edges.len() == message(st, m).step,
        message(st, m).meta.activations.len() <= st.meta.activations.len() + 2,
{
    let from = resolve(st.meta, m.from);
    let to = resolve(st.meta, m.to);
    let s1 = if m.act_from { activate(st, from) } else { st };
    if m.act_from { lemma_activate_within(st, from); }
    let s2 = if m.act_to { activate(s1, to) } else { s1 };
    if m.act_to { lemma_activate_within(s1, to); }
    let s3 = participant(s2, from, false);
    lemma_participant_within(s2, from, false);
    let s4 = participant(s3, to, false);
    lemma_participant_within(s3, to, false);
    let s5 = record_message(s4, message_edge(m, from, to, numbered_label(s4.meta, m.label)));
    lemma_counter_within(s4, s5);
    let s6 = if m.deact_from { deactivate(s5, from) } else { s5 };
    if m.deact_from { lemma_deactivate_within(s5, from); }
    let s7 = if m.deact_to { deactivate(s6, to) } else { s6 };
    if m.deact_to { lemma_deactivate_within(s6, to); }
    lemma_step_within(s7);
}

proof fn lemma_decl_within(st: SeqSt, line: Text)
    requires
        steps_within(st),
        step_room(st),
    ensures
        steps_within(seq_decl(st, line)),
        seq_decl(st, line).step <= st.step + 1,
        seq_decl(st, line).ast.edges.len() == seq_decl(st, line).step,
        seq_decl(st, line).meta.activations.len() <= st.meta.activations.len() + 2,
{
    reveal(seq_decl);
    if regex_groups(create_pattern(), line, line) is Some {
        lemma_participant_within(st, trim(group_text(regex_groups(create_pattern(), line, line)->0, 1)), false);
    } else if starts_with(line, "destroy "@) {
    } else if strip_prefix(line, "activate "@) is Some {
        lemma_activate_within(st, resolve(st.meta, trim(strip_prefix(line, "activate "@)->0)));
    } else if strip_prefix(line, "deactivate "@) is Some {
        lemma_deactivate_within(st, resolve(st.meta, trim(strip_prefix(line, "deactivate "@)->0)));
    } else if regex_groups(note_pattern(), line, line) is Some {
        reveal(steps_within);
        let st2 = seq_decl(st, line);
        assert forall|i: int| 0 <= i < st2.meta.notes.len() implies (#[trigger] st2.meta.notes[i]).step <= st2.step by {
            if i < st.meta.notes.len() {
                assert(st2.meta.notes[i] == st.meta.notes[i]);
            }
        }
    } else if starts_with(line, "participant "@) || starts_with(line, "actor "@) {
        let is_actor = starts_with(line, "actor "@);
        let rest = trim(trim_start_matches(trim_start_matches(line, "participant "@), "actor "@));
        match regex_groups(alias_pattern(), rest, rest) {
            Some(gs) => {
                let name = trim(group_text(gs, 1));
                let alias = trim(group_text(gs, 2));
                let st1 = SeqSt { meta: MetaV { aliases: insert(st.meta.aliases, alias, name), ..st.meta }, ..st };
                assert(steps_within(st1)) by {
                    reveal(steps_within);
                }
                lemma_participant_within(st1, name, is_actor);
            },
            None => {
                lemma_participant_within(st, rest, is_actor);
            },
        }
    } else {
        match message_line(line) {
            Some(m) => lemma_message_within(st, m),
            None => {},
        }
    }
}

proof fn lemma_line_within(st: SeqSt, line: Text)
    requires
        steps_within(st),
        step_room(st),
    ensures
        steps_within(seq_line(st, line)),
        seq_line(st, line).step <= st.step + 1,
        seq_line(st, line).ast.edges.len() == seq_line(st, line).step,
        seq_line(st, line).meta.activations.len() <= st.meta.activations.len() + 2,
{
    reveal(seq_line);
    if line == "autonumber"@ {
        reveal(steps_within);
    } else if strip_prefix(line, "title:"@) is Some {
        reveal(steps_within);
    } else if line == "end"@ {
        reveal(steps_within);
        let st2 = seq_line(st, line);
        if st.rects.len() > 0 {
            assert forall|i: int| 0 <= i < st2.rects.len() implies (#[trigger] st2.rects[i]).1 <= st2.step by {
                assert(st2.rects[i] == st.rects[i]);
            }
            assert forall|i: int| 0 <= i < st2.meta.rects.len() implies (#[trigger] st2.meta.rects[i]).start_step <= st2.meta.rects[i].end_step
                && st2.meta.rects[i].end_step <= st2.step by {
                if i < st.meta.rects.len() {
                    assert(st2.meta.rects[i] == st.meta.rects[i]);
                } else {
                    assert(st.rects[st.rects.len() - 1].1 <= st.step);
                }
            }
        } else if st.blocks.len() > 0 {
            assert(open_block_within(st.blocks[st.blocks.len() - 1], st.step));
            assert forall|i: int| 0 <= i < st2.blocks.len() implies open_block_within(#[trigger] st2.blocks[i], st2.step) by {
                assert(st2.blocks[i] == st.blocks[i]);
            }
            assert forall|i: int| 0 <= i < st2.meta.control_blocks.len() implies block_within(#[trigger] st2.meta.control_blocks[i], st2.step) by {
                if i < st.meta.control_blocks.len() {
                    assert(st2.meta.control_blocks[i] == st.meta.control_blocks[i]);
                }
            }
        }
    } else if regex_groups(rect_pattern(), line, line) is Some {
        reveal(steps_within);
        let st2 = seq_line(st, line);
        assert forall|i: int| 0 <= i < st2.rects.len() implies (#[trigger] st2.rects[i]).1 <= st2.step by {
            if i < st.rects.len() {
                assert(st2.rects[i] == st.rects[i]);
            }
        }
    } else if regex_groups(block_pattern(), line, line) is Some {
        reveal(steps_within);
        let st2 = seq_line(st, line);
        assert forall|i: int| 0 <= i < st2.blocks.len() implies open_block_within(#[trigger] st2.blocks[i], st2.step) by {
            if i < st.blocks.len() {
                assert(st2.blocks[i] == st.blocks[i]);
            }
        }
    } else if regex_groups(branch_pattern(), line, line) is Some {
        reveal(steps_within);
        if st.blocks.len() > 0 {
            let st2 = seq_line(st, line);
            assert(open_block_within(st.blocks[st.blocks.len() - 1], st.step));
            assert forall|i: int| 0 <= i < st2.blocks.len() implies open_block_within(#[trigger] st2.blocks[i], st2.step) by {
                if i < st.blocks.len() - 1 {
                    assert(st2.blocks[i] == st.blocks[i]);
                }
            }
        }
    } else {
        lemma_decl_within(st, line);
    }
}

proof fn lemma_run_within(ls: Seq<Text>, n: int)
    requires
        0 <= n <= ls.len(),
        2 * ls.len() + 2 <= usize::MAX,
    ensures
        steps_within(seq_run(ls, n)),
        seq_run(ls, n).step <= n,
        seq_run(ls, n).ast.edges.len() == seq_run(ls, n).step,
        seq_run(ls, n).meta.activations.len() <= 2 * n,
    decreases n,
{
    if n > 0 {
        lemma_run_within(ls, n - 1);
        let st = seq_run(ls, n - 1);
        let line = trim(ls[n - 1]);
        if line.len() == 0 || starts_with(line, "%%"@) {
        } else if starts_with(line, "sequenceDiagram"@) {
            assert(steps_within(seq_run(ls, n))) by {
                reveal(steps_within);
            }
        } else if !st.saw_header {
        } else {
            lemma_line_within(st, line);
        }
    } else {
        let st = seq_run(ls, 0);
        assert(st.ast.edges.len() == 0);
        assert(steps_within(st)) by {
            reveal(steps_within);
        }
    }
}

proof fn lemma_lines_from_len(s: Seq<char>, i: int)
    requires
        0 <= i,
    ensures
        lines_from(s, i).len() <= if i < s.len() { s.len() - i } else { 0 },
    decreases s.len() - i,
{
    if i < s.len() {
        match crate::text::find_from(s, seq!['\n'], i) {
            None => {},
            Some(k) => {
                crate::text::lemma_find_from_props(s, seq!['\n'], i);
                lemma_lines_from_len(s, k + 1);
            },
        }
    }
}

proof fn lemma_closed_blocks(bs: Seq<(ControlBlockKind, Text, usize, Seq<(Text, usize)>)>, step: usize)
    requires
        forall|i: int| 0 <= i < bs.len() ==> open_block_within(#[trigger] bs[i], step as nat),
    ensures
        forall|i: int| 0 <= i < closed_blocks(bs, step).len() ==> block_within(#[trigger] closed_blocks(bs, step)[i], step as nat),
        closed_blocks(bs, step).len() == bs.len(),
    decreases bs.len(),
{
    if bs.len() > 0 {
        assert(open_block_within(bs[bs.len() - 1], step as nat));
        assert forall|i: int| 0 <= i < bs.drop_last().len() implies open_block_within(#[trigger] bs.drop_last()[i], step as nat) by {
            assert(bs.drop_last()[i] == bs[i]);
        }
        lemma_closed_blocks(bs.drop_last(), step);
        let c = closed_blocks(bs, step);
        assert forall|i: int| 0 <= i < c.len() implies block_within(#[trigger] c[i], step as nat) by {
            if i > 0 {
                assert(c[i] == closed_blocks(bs.drop_last(), step)[i - 1]);
            }
        }
    }
}

proof fn lemma_closed_rects(rs: Seq<(Text, usize)>, step: usize)
    requires
        forall|i: int| 0 <= i < rs.len() ==> (#[trigger] rs[i]).1 <= step,
    ensures
        forall|i: int| 0 <= i < closed_rects(rs, step).len() ==> (#[trigger] closed_rects(rs, step)[i]).start_step <= step
            && closed_rects(rs, step)[i].end_step == step,
        closed_rects(rs, step).len() == rs.len(),
    decreases rs.len(),
{
    if rs.len() > 0 {
        assert forall|i: int| 0 <= i < rs.drop_last().len() implies (#[trigger] rs.drop_last()[i]).1 <= step by {
            assert(rs.drop_last()[i] == rs[i]);
        }
        lemma_closed_rects(rs.drop_last(), step);
        let c = closed_rects(rs, step);
        assert forall|i: int| 0 <= i < c.len() implies (#[trigger] c[i]).start_step <= step && c[i].end_step == step by {
            if i > 0 {
                assert(c[i] == closed_rects(rs.drop_last(), step)[i - 1]);
            } else {
                assert(rs[rs.len() - 1].1 <= step);
            }
        }
    }
}

/// Law: a parsed sequence diagram counts one step per message, and everything it
/// records lies within those steps. Every activation is closed, no earlier than
/// it opened; every control block ends no earlier than it starts, with its
/// branches in between; every background rectangle likewise; every note stands
/// at a step that exists. (Sources too long to count in a `usize` are left out.)
pub proof fn law_sequence_steps(s: Seq<char>)
    requires
        2 * s.len() + 2 <= usize::MAX,
    ensures
        seq_model(s).sequence_meta is Some,
        ({
            let a = seq_model(s);
            let m = a.sequence_meta->0;
            &&& m.total_steps == a.edges.len()
            &&& forall|i: int| 0 <= i < m.activations.len() ==> closed_within(#[trigger] m.activations[i], m.total_steps as nat)
            &&& forall|i: int| 0 <= i < m.control_blocks.len() ==> block_within(#[trigger] m.control_blocks[i], m.total_steps as nat)
            &&& forall|i: int| 0 <= i < m.rects.len() ==> (#[trigger] m.rects[i]).start_step <= m.rects[i].end_step
                    && m.rects[i].end_step <= m.total_steps
            &&& forall|i: int| 0 <= i < m.notes.len() ==> (#[trigger] m.notes[i]).step <= m.total_steps
        }),
{
    let ls = lines(s);
    lemma_lines_from_len(s, 0);
    lemma_run_within(ls, ls.len() as int);
    let st = seq_run(ls, ls.len() as int);
    reveal(steps_within);
    let step = st.step as usize;
    assert(step as nat == st.step);
    let a = seq_model(s);
    let m = a.sequence_meta->0;
    lemma_closed_blocks(st.blocks, step);
    lemma_closed_rects(st.rects, step);
    assert forall|i: int| 0 <= i < m.activations.len() implies closed_within(#[trigger] m.activations[i], m.total_steps as nat) by {
        assert(activation_within(st.meta.activations[i], st.step));
    }
    assert forall|i: int| 0 <= i < m.control_blocks.len() implies block_within(#[trigger] m.control_blocks[i], m.total_steps as nat) by {
        if i < st.meta.control_blocks.len() {
            assert(m.control_blocks[i] == st.meta.control_blocks[i]);
        } else {
            assert(m.control_blocks[i] == closed_blocks(st.blocks, step)[i - st.meta.control_blocks.len()]);
        }
    }
    assert forall|i: int| 0 <= i < m.rects.len() implies (#[trigger] m.rects[i]).start_step <= m.rects[i].end_step
        && m.rects[i].end_step <= m.total_steps by {
        if i < st.meta.rects.len() {
            assert(m.rects[i] == st.meta.rects[i]);
        } else {
            assert(m.rects[i] == closed_rects(st.rects, step)[i - st.meta.rects.len()]);
        }
    }
}


// ---------------------------------------------------------------------------
// Distinct participants
// ---------------------------------------------------------------------------

proof fn lemma_participant_unique(st: SeqSt, name: Text, is_actor: bool)
    requires
        unique_ids(st.ast.nodes),
    ensures
        unique_ids(participant(st, name, is_actor).ast.nodes),
        participant(st, name, is_actor).ast.kind == st.ast.kind,
{
    let n = trim(name);
    if n.len() > 0 {
        lemma_ensure_node_unique(st.ast, plain_node(n, n, if is_actor { NodeShape::Circle } else { NodeShape::Rectangle }));
    }
}

proof fn lemma_message_unique(st: SeqSt, m: Message)
    requires
        unique_ids(st.ast.nodes),
    ensures
        unique_ids(message(st, m).ast.nodes),
        message(st, m).ast.kind == st.ast.kind,
{
    let from = resolve(st.meta, m.from);
    let to = resolve(st.meta, m.to);
    let s1 = if m.act_from { activate(st, from) } else { st };
    let s2 = if m.act_to { activate(s1, to) } else { s1 };
    lemma_participant_unique(s2, from, false);
    let s3 = participant(s2, from, false);
    lemma_participant_unique(s3, to, false);
}

proof fn lemma_step_unique(st: SeqSt, raw: Text)
    requires
        unique_ids(st.ast.nodes),
    ensures
        unique_ids(seq_step(st, raw).ast.nodes),
        seq_step(st, raw).ast.kind == st.ast.kind,
{
    reveal(seq_line);
    reveal(seq_decl);
    let line = trim(raw);
    if line.len() == 0 || starts_with(line, "%%"@) || starts_with(line, "sequenceDiagram"@) || !st.saw_header {
    } else if line == "autonumber"@ || strip_prefix(line, "title:"@) is Some || line == "end"@
        || regex_groups(rect_pattern(), line, line) is Some || regex_groups(block_pattern(), line, line) is Some
        || regex_groups(branch_pattern(), line, line) is Some {
    } else if regex_groups(create_pattern(), line, line) is Some {
        lemma_participant_unique(st, trim(group_text(regex_groups(create_pattern(), line, line)->0, 1)), false);
    } else if starts_with(line, "destroy "@) || strip_prefix(line, "activate "@) is Some
        || strip_prefix(line, "deactivate "@) is Some || regex_groups(note_pattern(), line, line) is Some {
    } else if starts_with(line, "participant "@) || starts_with(line, "actor "@) {
        let is_actor = starts_with(line, "actor "@);
        let rest = trim(trim_start_matches(trim_start_matches(line, "participant "@), "actor "@));
        match regex_groups(alias_pattern(), rest, rest) {
            Some(gs) => {
                let name = trim(group_text(gs, 1));
                let alias = trim(group_text(gs, 2));
                lemma_participant_unique(SeqSt { meta: MetaV { aliases: insert(st.meta.aliases, alias, name), ..st.meta }, ..st }, name, is_actor);
            },
            None => lemma_participant_unique(st, rest, is_actor),
        }
    } else {
        match message_line(line) {
            Some(m) => lemma_message_unique(st, m),
            None => {},
        }
    }
}

proof fn lemma_run_unique(ls: Seq<Text>, n: int)
    ensures
        unique_ids(seq_run(ls, n).ast.nodes),
        seq_run(ls, n).ast.kind == DiagramKind::Sequence,
    decreases n,
{
    if n > 0 {
        lemma_run_unique(ls, n - 1);
        lemma_step_unique(seq_run(ls, n - 1), ls[n - 1]);
    }
}

/// The participants of a parsed sequence diagram have distinct ids.
pub proof fn lemma_seq_model_unique(s: Seq<char>)
    ensures
        unique_ids(seq_model(s).nodes),
        seq_model(s).kind == DiagramKind::Sequence,
{
    lemma_run_unique(lines(s), lines(s).len() as int);
}


// ---------------------------------------------------------------------------
// Participants
// ---------------------------------------------------------------------------

/// The participants are the nodes in declaration order, alias targets are
/// trimmed names, and every message end that is not empty is a participant.
pub open spec fn participants_ok(st: SeqSt) -> bool {
    &&& st.meta.participant_order == node_ids(st.ast.nodes)
    &&& forall|i: int| 0 <= i < st.meta.aliases.len() ==> trim(#[trigger] st.meta.aliases[i].1) == st.meta.aliases[i].1
    &&& forall|i: int| 0 <= i < st.ast.edges.len() ==>
            ((#[trigger] st.ast.edges[i]).from.len() > 0 ==> node_ids(st.ast.nodes).contains(st.ast.edges[i].from))
            && (st.ast.edges[i].to.len() > 0 ==> node_ids(st.ast.nodes).contains(st.ast.edges[i].to))
}

proof fn lemma_resolve_trimmed(meta: MetaV, name: Text)
    requires
        forall|i: int| 0 <= i < meta.aliases.len() ==> trim(#[trigger] meta.aliases[i].1) == meta.aliases[i].1,
    ensures
        trim(resolve(meta, name)) == resolve(meta, name),
{
    let ks = meta.aliases.map_values(|p: (Text, Text)| p.0);
    crate::model::lemma_first_index(ks, trim(name));
    match first_index(ks, trim(name)) {
        Some(j) => {
            assert(trim(meta.aliases[j].1) == meta.aliases[j].1);
        },
        None => {
            crate::text::lemma_trim_twice(name);
        },
    }
}

proof fn lemma_participant_ok(st: SeqSt, name: Text, is_actor: bool)
    requires
        participants_ok(st),
    ensures
        participants_ok(participant(st, name, is_actor)),
        participant(st, name, is_actor).meta.aliases == st.meta.aliases,
        participant(st, name, is_actor).ast.edges == st.ast.edges,
        trim(name).len() > 0 ==> node_ids(participant(st, name, is_actor).ast.nodes).contains(trim(name)),
        forall|x: Text| node_ids(st.ast.nodes).contains(x) ==> #[trigger] node_ids(participant(st, name, is_actor).ast.nodes).contains(x),
{
    let n = trim(name);
    let ids = node_ids(st.ast.nodes);
    let r = participant(st, name, is_actor);
    if n.len() > 0 {
        crate::model::lemma_first_index(ids, n);
        if !has_node(st.ast, n) {
            let nd = plain_node(n, n, if is_actor { NodeShape::Circle } else { NodeShape::Rectangle });
            assert(node_ids(r.ast.nodes) =~= ids.push(n));
            assert(ids.push(n)[ids.len() as int] == n);
            assert forall|x: Text| ids.contains(x) implies #[trigger] node_ids(r.ast.nodes).contains(x) by {
                let j = choose|j: int| 0 <= j < ids.len() && ids[j] == x;
                assert(ids.push(n)[j] == x);
            }
        } else {
            let j = first_index(ids, n)->0;
            assert(ids[j] == n);
        }
    }
}

proof fn lemma_message_ok(st: SeqSt, m: Message)
    requires
        participants_ok(st),
    ensures
        participants_ok(message(st, m)),
{
    let from = resolve(st.meta, m.from);
    let to = resolve(st.meta, m.to);
    lemma_resolve_trimmed(st.meta, m.from);
    lemma_resolve_trimmed(st.meta, m.to);
    let s1 = if m.act_from { activate(st, from) } else { st };
    let s2 = if m.act_to { activate(s1, to) } else { s1 };
    assert(participants_ok(s2));
    lemma_participant_ok(s2, from, false);
    let s3 = participant(s2, from, false);
    lemma_participant_ok(s3, to, false);
    let s4 = participant(s3, to, false);
    let e = message_edge(m, from, to, numbered_label(s4.meta, m.label));
    let s5 = record_message(s4, e);
    let ids4 = node_ids(s4.ast.nodes);
    assert(from.len() > 0 ==> ids4.contains(from));
    assert(to.len() > 0 ==> ids4.contains(to));
    assert forall|i: int| 0 <= i < s5.ast.edges.len() implies
        ((#[trigger] s5.ast.edges[i]).from.len() > 0 ==> node_ids(s5.ast.nodes).contains(s5.ast.edges[i].from))
        && (s5.ast.edges[i].to.len() > 0 ==> node_ids(s5.ast.nodes).contains(s5.ast.edges[i].to)) by {
        if i < s4.ast.edges.len() {
            assert(s5.ast.edges[i] == s4.ast.edges[i]);
        }
    }
    assert(participants_ok(s5));
    let s6 = if m.deact_from { deactivate(s5, from) } else { s5 };
    let s7 = if m.deact_to { deactivate(s6, to) } else { s6 };
    assert(participants_ok(s6));
    assert(participants_ok(s7));
}

proof fn lemma_step_ok(st: SeqSt, raw: Text)
    requires
        participants_ok(st),
    ensures
        participants_ok(seq_step(st, raw)),
{
    reveal(seq_line);
    reveal(seq_decl);
    let line = trim(raw);
    if line.len() == 0 || starts_with(line, "%%"@) || starts_with(line, "sequenceDiagram"@) || !st.saw_header {
    } else if line == "autonumber"@ || strip_prefix(line, "title:"@) is Some || line == "end"@
        || regex_groups(rect_pattern(), line, line) is Some || regex_groups(block_pattern(), line, line) is Some
        || regex_groups(branch_pattern(), line, line) is Some {
    } else if regex_groups(create_pattern(), line, line) is Some {
        lemma_participant_ok(st, trim(group_text(regex_groups(create_pattern(), line, line)->0, 1)), false);
    } else if starts_with(line, "destroy "@) {
    } else if strip_prefix(line, "activate "@) is Some {
        let id = resolve(st.meta, trim(strip_prefix(line, "activate "@)->0));
        assert(participants_ok(activate(st, id)));
    } else if strip_prefix(line, "deactivate "@) is Some {
        let id = resolve(st.meta, trim(strip_prefix(line, "deactivate "@)->0));
        assert(participants_ok(deactivate(st, id)));
    } else if regex_groups(note_pattern(), line, line) is Some {
    } else if starts_with(line, "participant "@) || starts_with(line, "actor "@) {
        let is_actor = starts_with(line, "actor "@);
        let rest = trim(trim_start_matches(trim_start_matches(line, "participant "@), "actor "@));
        match regex_groups(alias_pattern(), rest, rest) {
            Some(gs) => {
                let name = trim(group_text(gs, 1));
                let alias = trim(group_text(gs, 2));
                let st1 = SeqSt { meta: MetaV { aliases: insert(st.meta.aliases, alias, name), ..st.meta }, ..st };
                crate::text::lemma_trim_twice(group_text(gs, 1));
                let ks = st.meta.aliases.map_values(|p: (Text, Text)| p.0);
                crate::model::lemma_first_index(ks, alias);
                assert forall|i: int| 0 <= i < st1.meta.aliases.len() implies trim(#[trigger] st1.meta.aliases[i].1) == st1.meta.aliases[i].1 by {
                    if i < st.meta.aliases.len() && st1.meta.aliases[i] == st.meta.aliases[i] {
                    }
                }
                lemma_participant_ok(st1, name, is_actor);
            },
            None => lemma_participant_ok(st, rest, is_actor),
        }
    } else {
        match message_line(line) {
            Some(m) => lemma_message_ok(st, m),
            None => {},
        }
    }
}

proof fn lemma_run_ok(ls: Seq<Text>, n: int)
    ensures
        participants_ok(seq_run(ls, n)),
    decreases n,
{
    if n > 0 {
        lemma_run_ok(ls, n - 1);
        lemma_step_ok(seq_run(ls, n - 1), ls[n - 1]);
    } else {
        assert(node_ids(seq_run(ls, n).ast.nodes) =~= Seq::<Text>::empty());
    }
}

/// Law: the participants of a sequence diagram are its nodes, in the order
/// they were first declared or used, each once; and every message end that is
/// not empty is a participant.
pub proof fn law_sequence_participants(s: Seq<char>)
    ensures
        ({
            let a = seq_model(s);
            let m = a.sequence_meta->0;
            &&& a.sequence_meta is Some
            &&& m.participant_order == node_ids(a.nodes)
            &&& m.participant_order.no_duplicates()
            &&& forall|i: int| 0 <= i < a.edges.len() ==>
                    ((#[trigger] a.edges[i]).from.len() > 0 ==> m.participant_order.contains(a.edges[i].from))
                    && (a.edges[i].to.len() > 0 ==> m.participant_order.contains(a.edges[i].to))
        }),
{
    let ls = lines(s);
    lemma_run_ok(ls, ls.len() as int);
    lemma_seq_model_unique(s);
    let a = seq_model(s);
    let ids = node_ids(a.nodes);
    assert forall|i: int, j: int| 0 <= i < ids.len() && 0 <= j < ids.len() && i != j implies ids[i] != ids[j] by {
        if i < j {
            assert(a.nodes[i].id != a.nodes[j].id);
        } else {
            assert(a.nodes[j].id != a.nodes[i].id);
        }
    }
}


/// Whether an arrow form has two dashes in a row.
pub open spec fn has_double_dash(a: Text) -> bool {
    exists|i: int| 0 <= i && i + 1 < a.len() && #[trigger] a[i] == '-' && a[i + 1] == '-'
}

/// Law: an arrow form's characters decide what it says of a message. The line
/// is dashed exactly when the form has two dashes in a row. The message runs
/// backwards exactly when the form opens with `<` and does not close with `>`;
/// its start then has an open arrowhead, and a form opening with `<<` has a
/// full arrowhead at the start. A forward message ends in a cross for `x`, a
/// full arrowhead for `>>`, and an open one for `>` or `)`.
pub proof fn law_message_arrows(a: Text)
    requires
        message_arrows().contains(a),
    ensures
        ({
            let (end, start, style, reversed) = arrow_info(a);
            let n = a.len() as int;
            &&& style == (if has_double_dash(a) { EdgeStyle::Dashed } else { EdgeStyle::Solid })
            &&& reversed == (a[0] == '<' && a[n - 1] != '>')
            &&& start == (if a[0] == '<' {
                    if a[1] == '<' { Some(EdgeArrowhead::Arrow) } else { Some(EdgeArrowhead::OpenTriangle) }
                } else {
                    None
                })
            &&& end == (if reversed {
                    None
                } else if a[n - 1] == 'x' {
                    Some(EdgeArrowhead::Cross)
                } else if a[n - 1] == '>' && a[n - 2] == '>' {
                    Some(EdgeArrowhead::Arrow)
                } else {
                    Some(EdgeArrowhead::OpenTriangle)
                })
        }),
{
    reveal_strlit("<<-->>");
    reveal_strlit("<<->>");
    reveal_strlit("-->>");
    reveal_strlit("->>");
    reveal_strlit("-->");
    reveal_strlit("->");
    reveal_strlit("--x");
    reveal_strlit("-x");
    reveal_strlit("--)");
    reveal_strlit("-)");
    reveal_strlit("<--");
    reveal_strlit("<-");
    let ms = message_arrows();
    let k = choose|k: int| 0 <= k < ms.len() && ms[k] == a;
    assert(ms[k] == a);
    if k == 0 || k == 2 || k == 4 || k == 6 || k == 8 || k == 10 {
        let i = if k == 0 { 2int } else if k == 10 { 1int } else { 0int };
        assert(a[i] == '-' && a[i + 1] == '-');
        assert(has_double_dash(a));
    } else {
        assert(!has_double_dash(a)) by {
            assert forall|i: int| 0 <= i && i + 1 < a.len() implies !(#[trigger] a[i] == '-' && a[i + 1] == '-') by {}
        }
    }
}


/// The keyword that opens a control block of a kind.
pub open spec fn block_word(k: ControlBlockKind) -> Text {
    match k {
        ControlBlockKind::Loop => "loop"@,
        ControlBlockKind::Alt => "alt"@,
        ControlBlockKind::Opt => "opt"@,
        ControlBlockKind::Par => "par"@,
        ControlBlockKind::Critical => "critical"@,
        ControlBlockKind::Break => "break"@,
    }
}

/// Law: each control block keyword opens the block of its own kind, and only
/// the six keywords open blocks: a word names kind `k` exactly when it is the
/// keyword of `k`.
pub proof fn law_block_words(w: Text, k: ControlBlockKind)
    ensures
        block_kind(w) == Some(k) <==> w == block_word(k),
{
    reveal_strlit("loop");
    reveal_strlit("alt");
    reveal_strlit("opt");
    reveal_strlit("par");
    reveal_strlit("critical");
    reveal_strlit("break");
    assert("loop"@[0] == 'l' && "alt"@[0] == 'a' && "opt"@[0] == 'o' && "par"@[0] == 'p');
    assert("critical"@[0] == 'c' && "break"@[0] == 'b');
    if block_kind(w) is Some {
        assert(w.len() > 0);
    }
}

/// Law: a note stands where its position words say. `left of` puts it left of
/// its (resolved) target, `right of` right of it, `over` over each of the
/// comma-separated targets; no other words place a note.
pub proof fn law_note_positions(meta: MetaV, pos: Text, target: Text)
    ensures
        (note_position(meta, pos, target) == Some(NotePosV::LeftOf(resolve(meta, target)))) <==> pos == "left of"@,
        (note_position(meta, pos, target) == Some(NotePosV::RightOf(resolve(meta, target)))) <==> pos == "right of"@,
        (note_position(meta, pos, target) == Some(NotePosV::Over(resolve_all(meta, split_char(target, ','))))) <==> pos == "over"@,
        note_position(meta, pos, target) is None <==> !(pos == "left of"@ || pos == "right of"@ || pos == "over"@),
{
    reveal_strlit("left of");
    reveal_strlit("right of");
    reveal_strlit("over");
    assert("left of"@[0] == 'l' && "right of"@[0] == 'r' && "over"@[0] == 'o');
}

} // verus!
