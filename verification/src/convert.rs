//! Conversion of a model built over `Vec<char>` into the public `String` model.
//! Every conversion preserves the abstract view.

use vstd::prelude::*;
use crate::text::chars_to_string;
use crate::diagram::{
    opt_view, text_views, group_views, pair_views, flag_views, deep, NodeStyleOf, NodeStyle,
    NodeLinkOf, NodeOf, DiagramNode, EdgeOf, DiagramEdge, SubgraphOf, Subgraph,
    SequenceActivationOf, SequenceActivation, NotePositionOf, SequenceNoteOf, SequenceNote,
    SequenceRectOf, SequenceRect, SequenceControlBlockOf, SequenceControlBlock, SequenceMetaOf,
    SequenceMeta, AstOf, DiagramAst,
};

verus! {

fn conv_text(v: &Vec<char>) -> (r: String)
    ensures
        r@ == v@,
{
    chars_to_string(v)
}

fn conv_opt(v: &Option<Vec<char>>) -> (r: Option<String>)
    ensures
        opt_view(r) == opt_view(*v),
{
    match v {
        Some(t) => Some(conv_text(t)),
        None => None,
    }
}

fn conv_texts(v: &Vec<Vec<char>>) -> (r: Vec<String>)
    ensures
        text_views(r@) == text_views(v@),
{
    let mut r: Vec<String> = Vec::new();
    let mut i: usize = 0;
    while i < v.len()
        invariant
            i <= v.len(),
            r@.len() == i,
            forall|k: int| #![trigger r@[k]] 0 <= k < i ==> text_views(r@)[k] == text_views(v@)[k],
        decreases v.len() - i,
    {
        r.push(conv_text(&v[i]));
        i += 1;
    }
    assert(text_views(r@) =~= text_views(v@));
    r
}

fn conv_style(s: &NodeStyleOf<Vec<char>>) -> (r: NodeStyle)
    ensures
        r@ == s@,
{
    NodeStyleOf {
        fill: conv_opt(&s.fill),
        stroke: conv_opt(&s.stroke),
        stroke_width: conv_opt(&s.stroke_width),
        color: conv_opt(&s.color),
    }
}

fn conv_node(n: &NodeOf<Vec<char>>) -> (r: DiagramNode)
    ensures
        r@ == n@,
{
    let link = match &n.link {
        Some(l) => Some(NodeLinkOf { url: conv_text(&l.url), target: conv_text(&l.target) }),
        None => None,
    };
    NodeOf {
        id: conv_text(&n.id),
        label: conv_text(&n.label),
        shape: n.shape,
        style: conv_style(&n.style),
        link,
        subgraph: n.subgraph,
    }
}

fn conv_edge(e: &EdgeOf<Vec<char>>) -> (r: DiagramEdge)
    ensures
        r@ == e@,
{
    EdgeOf {
        from: conv_text(&e.from),
        to: conv_text(&e.to),
        label: conv_opt(&e.label),
        start_label: conv_opt(&e.start_label),
        end_label: conv_opt(&e.end_label),
        directed: e.directed,
        arrow_start: e.arrow_start,
        arrow_end: e.arrow_end,
        start_decoration: e.start_decoration,
        end_decoration: e.end_decoration,
        style: e.style,
    }
}

fn conv_subgraph(s: &SubgraphOf<Vec<char>>) -> (r: Subgraph)
    ensures
        r@ == s@,
{
    SubgraphOf {
        id: conv_text(&s.id),
        label: conv_text(&s.label),
        direction: s.direction,
        nodes: conv_texts(&s.nodes),
        style: conv_style(&s.style),
    }
}

fn conv_activation(a: &SequenceActivationOf<Vec<char>>) -> (r: SequenceActivation)
    ensures
        r@ == a@,
{
    SequenceActivationOf {
        participant_id: conv_text(&a.participant_id),
        start_step: a.start_step,
        end_step: a.end_step,
        depth: a.depth,
    }
}

fn conv_note(n: &SequenceNoteOf<Vec<char>>) -> (r: SequenceNote)
    ensures
        r@ == n@,
{
    let position = match &n.position {
        NotePositionOf::LeftOf(t) => NotePositionOf::LeftOf(conv_text(t)),
        NotePositionOf::RightOf(t) => NotePositionOf::RightOf(conv_text(t)),
        NotePositionOf::Over(v) => NotePositionOf::Over(conv_texts(v)),
    };
    SequenceNoteOf { text: conv_text(&n.text), position, step: n.step }
}

fn conv_rect(x: &SequenceRectOf<Vec<char>>) -> (r: SequenceRect)
    ensures
        r@ == x@,
{
    SequenceRectOf { color: conv_text(&x.color), start_step: x.start_step, end_step: x.end_step }
}

fn conv_block(b: &SequenceControlBlockOf<Vec<char>>) -> (r: SequenceControlBlock)
    ensures
        r@ == b@,
{
    let mut groups: Vec<(String, usize)> = Vec::new();
    let mut i: usize = 0;
    while i < b.groups.len()
        invariant
            i <= b.groups.len(),
            groups@.len() == i,
            forall|k: int| #![trigger groups@[k]] 0 <= k < i ==> group_views(groups@)[k] == group_views(b.groups@)[k],
        decreases b.groups.len() - i,
    {
        let g = &b.groups[i];
        groups.push((conv_text(&g.0), g.1));
        i += 1;
    }
    assert(group_views(groups@) =~= group_views(b.groups@));
    SequenceControlBlockOf {
        kind: b.kind,
        label: conv_text(&b.label),
        start_step: b.start_step,
        end_step: b.end_step,
        groups,
    }
}

fn conv_meta(m: &SequenceMetaOf<Vec<char>>) -> (r: SequenceMeta)
    ensures
        r@ == m@,
{
    let mut aliases: Vec<(String, String)> = Vec::new();
    let mut i: usize = 0;
    while i < m.aliases.len()
        invariant
            i <= m.aliases.len(),
            aliases@.len() == i,
            forall|k: int| #![trigger aliases@[k]] 0 <= k < i ==> pair_views(aliases@)[k] == pair_views(m.aliases@)[k],
        decreases m.aliases.len() - i,
    {
        let p = &m.aliases[i];
        aliases.push((conv_text(&p.0), conv_text(&p.1)));
        i += 1;
    }
    assert(pair_views(aliases@) =~= pair_views(m.aliases@));
    let mut is_actor: Vec<(String, bool)> = Vec::new();
    let mut i: usize = 0;
    while i < m.is_actor.len()
        invariant
            i <= m.is_actor.len(),
            is_actor@.len() == i,
            forall|k: int| #![trigger is_actor@[k]] 0 <= k < i ==> flag_views(is_actor@)[k] == flag_views(m.is_actor@)[k],
        decreases m.is_actor.len() - i,
    {
        let p = &m.is_actor[i];
        is_actor.push((conv_text(&p.0), p.1));
        i += 1;
    }
    assert(flag_views(is_actor@) =~= flag_views(m.is_actor@));
    let mut activations: Vec<SequenceActivation> = Vec::new();
    let mut i: usize = 0;
    while i < m.activations.len()
        invariant
            i <= m.activations.len(),
            activations@.len() == i,
            forall|k: int| #![trigger activations@[k]] 0 <= k < i ==> deep(activations@)[k] == deep(m.activations@)[k],
        decreases m.activations.len() - i,
    {
        activations.push(conv_activation(&m.activations[i]));
        i += 1;
    }
    assert(deep(activations@) =~= deep(m.activations@));
    let mut notes: Vec<SequenceNote> = Vec::new();
    let mut i: usize = 0;
    while i < m.notes.len()
        invariant
            i <= m.notes.len(),
            notes@.len() == i,
            forall|k: int| #![trigger notes@[k]] 0 <= k < i ==> deep(notes@)[k] == deep(m.notes@)[k],
        decreases m.notes.len() - i,
    {
        notes.push(conv_note(&m.notes[i]));
        i += 1;
    }
    assert(deep(notes@) =~= deep(m.notes@));
    let mut rects: Vec<SequenceRect> = Vec::new();
    let mut i: usize = 0;
    while i < m.rects.len()
        invariant
            i <= m.rects.len(),
            rects@.len() == i,
            forall|k: int| #![trigger rects@[k]] 0 <= k < i ==> deep(rects@)[k] == deep(m.rects@)[k],
        decreases m.rects.len() - i,
    {
        rects.push(conv_rect(&m.rects[i]));
        i += 1;
    }
    assert(deep(rects@) =~= deep(m.rects@));
    let mut blocks: Vec<SequenceControlBlock> = Vec::new();
    let mut i: usize = 0;
    while i < m.control_blocks.len()
        invariant
            i <= m.control_blocks.len(),
            blocks@.len() == i,
            forall|k: int| #![trigger blocks@[k]] 0 <= k < i ==> deep(blocks@)[k] == deep(m.control_blocks@)[k],
        decreases m.control_blocks.len() - i,
    {
        blocks.push(conv_block(&m.control_blocks[i]));
        i += 1;
    }
    assert(deep(blocks@) =~= deep(m.control_blocks@));
    SequenceMetaOf {
        participant_order: conv_texts(&m.participant_order),
        aliases,
        is_actor,
        activations,
        notes,
        rects,
        control_blocks: blocks,
        autonumber: m.autonumber,
        message_counter: m.message_counter,
        total_steps: m.total_steps,
    }
}

/// The public model holding the same diagram as `a`.
pub fn conv_ast(a: &AstOf<Vec<char>>) -> (r: DiagramAst)
    ensures
        r@ == a@,
{
    let mut nodes: Vec<DiagramNode> = Vec::new();
    let mut i: usize = 0;
    while i < a.nodes.len()
        invariant
            i <= a.nodes.len(),
            nodes@.len() == i,
            forall|k: int| #![trigger nodes@[k]] 0 <= k < i ==> deep(nodes@)[k] == deep(a.nodes@)[k],
        decreases a.nodes.len() - i,
    {
        nodes.push(conv_node(&a.nodes[i]));
        i += 1;
    }
    assert(deep(nodes@) =~= deep(a.nodes@));
    let mut edges: Vec<DiagramEdge> = Vec::new();
    let mut i: usize = 0;
    while i < a.edges.len()
        invariant
            i <= a.edges.len(),
            edges@.len() == i,
            forall|k: int| #![trigger edges@[k]] 0 <= k < i ==> deep(edges@)[k] == deep(a.edges@)[k],
        decreases a.edges.len() - i,
    {
        edges.push(conv_edge(&a.edges[i]));
        i += 1;
    }
    assert(deep(edges@) =~= deep(a.edges@));
    let mut subgraphs: Vec<Subgraph> = Vec::new();
    let mut i: usize = 0;
    while i < a.subgraphs.len()
        invariant
            i <= a.subgraphs.len(),
            subgraphs@.len() == i,
            forall|k: int| #![trigger subgraphs@[k]] 0 <= k < i ==> deep(subgraphs@)[k] == deep(a.subgraphs@)[k],
        decreases a.subgraphs.len() - i,
    {
        subgraphs.push(conv_subgraph(&a.subgraphs[i]));
        i += 1;
    }
    assert(deep(subgraphs@) =~= deep(a.subgraphs@));
    let sequence_meta = match &a.sequence_meta {
        Some(m) => Some(conv_meta(m)),
        None => None,
    };
    AstOf {
        kind: a.kind,
        direction: a.direction,
        nodes,
        edges,
        subgraphs,
        title: conv_opt(&a.title),
        sequence_meta,
    }
}

} // verus!
