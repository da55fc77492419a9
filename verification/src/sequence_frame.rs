//! The discrete frame of a sequence diagram's layout: which columns, message
//! rows, activation boxes and lifelines there are, before any coordinate.

use vstd::prelude::*;
use crate::text::{views, string_chars, chars_to_string, lit, append_chars, decimal_usize, decimal};
use crate::diagram::{Text, DiagramAst, AstV, MetaV, EdgeV, ActivationV, NodeOf, text_views, deep};
use crate::model::{node_lookup, lookup};
use crate::ranking::{last_index, last_index_exec};

verus! {

/// A participant's column: its id, its header text and whether it is an actor.
pub struct SequenceColumn {
    pub id: String,
    pub label: String,
    pub is_actor: bool,
}

impl View for SequenceColumn {
    type V = (Text, Text, bool);

    open spec fn view(&self) -> (Text, Text, bool) {
        (self.id@, self.label@, self.is_actor)
    }
}

/// A message row: the columns of its two ends (`None` for a participant
/// without a column) and whether it comes back to its sender.
#[derive(Clone, Copy)]
pub struct MessageRow {
    pub from: Option<usize>,
    pub to: Option<usize>,
    pub self_loop: bool,
}

/// An index as an integer.
pub open spec fn opt_int(o: Option<usize>) -> Option<int> {
    match o {
        Some(x) => Some(x as int),
        None => None,
    }
}

impl View for MessageRow {
    type V = (Option<int>, Option<int>, bool);

    open spec fn view(&self) -> (Option<int>, Option<int>, bool) {
        (opt_int(self.from), opt_int(self.to), self.self_loop)
    }
}

/// An activation box: its id, its participant's column, the step it opens at,
/// the step it closes at and its nesting depth.
pub struct ActivationBox {
    pub id: String,
    pub column: Option<usize>,
    pub start_step: usize,
    pub end_step: usize,
    pub depth: usize,
}

impl View for ActivationBox {
    type V = (Text, Option<int>, int, int, int);

    open spec fn view(&self) -> (Text, Option<int>, int, int, int) {
        (self.id@, opt_int(self.column), self.start_step as int, self.end_step as int, self.depth as int)
    }
}

/// A participant's lifeline, from its header to its end mark.
pub struct Lifeline {
    pub from: String,
    pub to: String,
}

impl View for Lifeline {
    type V = (Text, Text);

    open spec fn view(&self) -> (Text, Text) {
        (self.from@, self.to@)
    }
}

/// The discrete frame of a sequence layout.
pub struct SequenceFrame {
    pub columns: Vec<SequenceColumn>,
    pub total_steps: usize,
    pub messages: Vec<MessageRow>,
    pub activations: Vec<ActivationBox>,
    pub lifelines: Vec<Lifeline>,
}

/// What a frame says, as plain values.
pub struct FrameV {
    pub columns: Seq<(Text, Text, bool)>,
    pub total_steps: int,
    pub messages: Seq<(Option<int>, Option<int>, bool)>,
    pub activations: Seq<(Text, Option<int>, int, int, int)>,
    pub lifelines: Seq<(Text, Text)>,
}

impl View for SequenceFrame {
    type V = FrameV;

    open spec fn view(&self) -> FrameV {
        FrameV {
            columns: deep(self.columns@),
            total_steps: self.total_steps as int,
            messages: deep(self.messages@),
            activations: deep(self.activations@),
            lifelines: deep(self.lifelines@),
        }
    }
}

/// The column of a participant: its last place in the participant order.
pub open spec fn column_of(order: Seq<Text>, id: Text) -> Option<int> {
    last_index(order, id)
}

/// A participant's column: its node's label (or its id where no node has it)
/// and its actor flag (false where none is recorded).
pub open spec fn frame_column(a: AstV, m: MetaV, pid: Text) -> (Text, Text, bool) {
    (
        pid,
        match node_lookup(a, pid) { Some(n) => n.label, None => pid },
        match lookup(m.is_actor, pid) { Some(b) => b, None => false },
    )
}

/// The number of step rows: the recorded steps, or the messages where there are more.
pub open spec fn frame_steps(a: AstV, m: MetaV) -> int {
    if m.total_steps >= a.edges.len() { m.total_steps as int } else { a.edges.len() as int }
}

/// The row of a message.
pub open spec fn message_row(order: Seq<Text>, e: EdgeV) -> (Option<int>, Option<int>, bool) {
    (column_of(order, e.from), column_of(order, e.to), e.from == e.to)
}

/// The id of an activation box: `activation_<participant>_<start step>`.
pub open spec fn activation_id(pid: Text, start: usize) -> Text {
    "activation_"@ + pid + "_"@ + decimal(start as nat)
}

/// The box of an activation; one still open runs to the last step.
pub open spec fn activation_box(order: Seq<Text>, steps: int, x: ActivationV) -> (Text, Option<int>, int, int, int) {
    (
        activation_id(x.participant_id, x.start_step),
        column_of(order, x.participant_id),
        x.start_step as int,
        match x.end_step { Some(e) => e as int, None => steps },
        x.depth as int,
    )
}

/// The lifeline of a participant: from its id to `<id>_lifeline_end`.
pub open spec fn lifeline(pid: Text) -> (Text, Text) {
    (pid, pid + "_lifeline_end"@)
}

/// The frame of a sequence model; none without sequence data or participants.
pub open spec fn frame_model(a: AstV) -> Option<FrameV> {
    match a.sequence_meta {
        None => None,
        Some(m) => if m.participant_order.len() == 0 {
            None
        } else {
            let order = m.participant_order;
            let steps = frame_steps(a, m);
            Some(FrameV {
                columns: order.map_values(|p: Text| frame_column(a, m, p)),
                total_steps: steps,
                messages: a.edges.map_values(|e: EdgeV| message_row(order, e)),
                activations: m.activations.map_values(|x: ActivationV| activation_box(order, steps, x)),
                lifelines: order.map_values(|p: Text| lifeline(p)),
            })
        },
    }
}

fn copy_string(s: &String) -> (r: String)
    ensures
        r@ == s@,
{
    chars_to_string(&string_chars(s))
}

/// The frame of a sequence diagram's layout; `None` where the model has no
/// sequence data or no participant.
pub fn sequence_frame(ast: &DiagramAst) -> (r: Option<SequenceFrame>)
    ensures
        match r {
            Some(f) => frame_model(ast@) == Some(f@),
            None => frame_model(ast@) is None,
        },
{
    let meta = match &ast.sequence_meta {
        Some(m) => m,
        None => return None,
    };
    if meta.participant_order.len() == 0 {
        return None;
    }
    let ghost a = ast@;
    let ghost m = meta@;
    let ghost order = m.participant_order;
    assert(a.sequence_meta == Some(m));
    let mut ids: Vec<Vec<char>> = Vec::new();
    let mut columns: Vec<SequenceColumn> = Vec::new();
    let mut lifelines: Vec<Lifeline> = Vec::new();
    let mut i: usize = 0;
    while i < meta.participant_order.len()
        invariant
            i <= meta.participant_order@.len(),
            m == meta@,
            a == ast@,
            order == m.participant_order,
            order.len() == meta.participant_order@.len(),
            views(ids@) == order.take(i as int),
            deep(columns@) == order.map_values(|p: Text| frame_column(a, m, p)).take(i as int),
            deep(lifelines@) == order.map_values(|p: Text| lifeline(p)).take(i as int),
        decreases meta.participant_order@.len() - i,
    {
        let pid = &meta.participant_order[i];
        assert(order[i as int] == pid@);
        let label = match ast.node(pid.as_str()) {
            Some(n) => copy_string(&n.label),
            None => copy_string(pid),
        };
        let is_actor = match meta.actor_flag(pid.as_str()) {
            Some(b) => b,
            None => false,
        };
        let col = SequenceColumn { id: copy_string(pid), label, is_actor };
        let mut end = string_chars(pid);
        append_chars(&mut end, &lit("_lifeline_end"));
        let line = Lifeline { from: copy_string(pid), to: chars_to_string(&end) };
        let ghost c0 = columns@;
        let ghost l0 = lifelines@;
        let ghost v0 = ids@;
        let pv = string_chars(pid);
        ids.push(pv);
        columns.push(col);
        lifelines.push(line);
        assert(views(ids@) =~= views(v0).push(pid@));
        assert(deep(columns@) =~= deep(c0).push(col@));
        assert(deep(lifelines@) =~= deep(l0).push(line@));
        i += 1;
        assert(order.take(i as int) =~= order.take(i - 1).push(pid@));
        assert(order.map_values(|p: Text| frame_column(a, m, p)).take(i as int)
            =~= order.map_values(|p: Text| frame_column(a, m, p)).take(i - 1).push(frame_column(a, m, pid@)));
        assert(order.map_values(|p: Text| lifeline(p)).take(i as int)
            =~= order.map_values(|p: Text| lifeline(p)).take(i - 1).push(lifeline(pid@)));
    }
    assert(views(ids@) =~= order);
    assert(order.map_values(|p: Text| frame_column(a, m, p)).take(order.len() as int) =~= order.map_values(|p: Text| frame_column(a, m, p)));
    assert(order.map_values(|p: Text| lifeline(p)).take(order.len() as int) =~= order.map_values(|p: Text| lifeline(p)));
    let steps: usize = if meta.total_steps >= ast.edges.len() { meta.total_steps } else { ast.edges.len() };
    assert(steps as int == frame_steps(a, m));
    let mut messages: Vec<MessageRow> = Vec::new();
    let mut j: usize = 0;
    while j < ast.edges.len()
        invariant
            j <= ast.edges@.len(),
            a == ast@,
            a.edges.len() == ast.edges@.len(),
            views(ids@) == order,
            deep(messages@) == a.edges.map_values(|e: EdgeV| message_row(order, e)).take(j as int),
        decreases ast.edges@.len() - j,
    {
        let e = &ast.edges[j];
        assert(a.edges[j as int] == e@);
        let from = string_chars(&e.from);
        let to = string_chars(&e.to);
        let row = MessageRow {
            from: last_index_exec(&ids, &from),
            to: last_index_exec(&ids, &to),
            self_loop: crate::text::chars_eq(&from, &to),
        };
        let ghost r0 = messages@;
        messages.push(row);
        assert(deep(messages@) =~= deep(r0).push(row@));
        j += 1;
        assert(a.edges.map_values(|e: EdgeV| message_row(order, e)).take(j as int)
            =~= a.edges.map_values(|e: EdgeV| message_row(order, e)).take(j - 1).push(message_row(order, e@)));
    }
    assert(a.edges.map_values(|e: EdgeV| message_row(order, e)).take(a.edges.len() as int)
        =~= a.edges.map_values(|e: EdgeV| message_row(order, e)));
    let mut boxes: Vec<ActivationBox> = Vec::new();
    let mut k: usize = 0;
    while k < meta.activations.len()
        invariant
            k <= meta.activations@.len(),
            m == meta@,
            m.activations.len() == meta.activations@.len(),
            views(ids@) == order,
            steps as int == frame_steps(a, m),
            deep(boxes@) == m.activations.map_values(|x: ActivationV| activation_box(order, frame_steps(a, m), x)).take(k as int),
        decreases meta.activations@.len() - k,
    {
        let x = &meta.activations[k];
        assert(m.activations[k as int] == x@);
        let pid = string_chars(&x.participant_id);
        let mut id = lit("activation_");
        append_chars(&mut id, &pid);
        append_chars(&mut id, &lit("_"));
        append_chars(&mut id, &decimal_usize(x.start_step));
        let end_step = match x.end_step {
            Some(e) => e,
            None => steps,
        };
        let b = ActivationBox {
            id: chars_to_string(&id),
            column: last_index_exec(&ids, &pid),
            start_step: x.start_step,
            end_step,
            depth: x.depth,
        };
        let ghost b0 = boxes@;
        boxes.push(b);
        assert(deep(boxes@) =~= deep(b0).push(b@));
        k += 1;
        assert(m.activations.map_values(|x: ActivationV| activation_box(order, frame_steps(a, m), x)).take(k as int)
            =~= m.activations.map_values(|x: ActivationV| activation_box(order, frame_steps(a, m), x)).take(k - 1)
                .push(activation_box(order, frame_steps(a, m), x@)));
    }
    assert(m.activations.map_values(|x: ActivationV| activation_box(order, frame_steps(a, m), x)).take(m.activations.len() as int)
        =~= m.activations.map_values(|x: ActivationV| activation_box(order, frame_steps(a, m), x)));
    let f = SequenceFrame { columns, total_steps: steps, messages, activations: boxes, lifelines };
    assert(f@ == frame_model(a)->0);
    Some(f)
}

} // verus!
