//! The entry point: detect the diagram type, then hand the source to its parser.

use vstd::prelude::*;
use crate::diagram::{DiagramKind, DiagramAst, AstV};
use crate::model::unique_ids;
use crate::detect::{detect, detect_diagram_kind};
use crate::error::CoreError;
use crate::flowchart::{flow_model, flow_unreadable};
use crate::flowchart_parser::{parse_flowchart, flowchart_readable};
use crate::sequence::seq_model;
use crate::sequence_parser::parse_sequence;
use crate::class::class_model;
use crate::class_parser::parse_class;
use crate::state::state_model;
use crate::state_parser::parse_state;
use crate::er::{er_model, parse_er};
use crate::requirement::{req_model, parse_requirement};
use crate::packet::{packet_model, parse_packet};
use crate::text::{lit, str_chars, chars_to_string, append_chars};

verus! {

/// Name of a diagram type as `{:?}` shows it.
pub open spec fn kind_debug_name(k: DiagramKind) -> Seq<char> {
    match k {
        DiagramKind::Flowchart => "Flowchart"@,
        DiagramKind::Sequence => "Sequence"@,
        DiagramKind::Class => "Class"@,
        DiagramKind::State => "State"@,
        DiagramKind::Er => "Er"@,
        DiagramKind::Pie => "Pie"@,
        DiagramKind::Mindmap => "Mindmap"@,
        DiagramKind::Journey => "Journey"@,
        DiagramKind::Timeline => "Timeline"@,
        DiagramKind::Gantt => "Gantt"@,
        DiagramKind::Requirement => "Requirement"@,
        DiagramKind::GitGraph => "GitGraph"@,
        DiagramKind::C4 => "C4"@,
        DiagramKind::Sankey => "Sankey"@,
        DiagramKind::Quadrant => "Quadrant"@,
        DiagramKind::Block => "Block"@,
        DiagramKind::Packet => "Packet"@,
        DiagramKind::Kanban => "Kanban"@,
        DiagramKind::Architecture => "Architecture"@,
        DiagramKind::Radar => "Radar"@,
        DiagramKind::Treemap => "Treemap"@,
        DiagramKind::XYChart => "XYChart"@,
    }
}

/// Whether a diagram type has a parser.
pub open spec fn has_parser(k: DiagramKind) -> bool {
    k == DiagramKind::Flowchart || k == DiagramKind::Sequence || k == DiagramKind::Class
        || k == DiagramKind::State || k == DiagramKind::Er || k == DiagramKind::Requirement
        || k == DiagramKind::Packet
}

/// The model the parser of type `k` gives for `s`.
pub open spec fn model_of(k: DiagramKind, s: Seq<char>) -> AstV {
    match k {
        DiagramKind::Flowchart => flow_model(s),
        DiagramKind::Sequence => seq_model(s),
        DiagramKind::Class => class_model(s),
        DiagramKind::State => state_model(s),
        DiagramKind::Er => er_model(s),
        DiagramKind::Requirement => req_model(s),
        _ => packet_model(s),
    }
}

/// Whether `s` can be parsed without a panic: only a flowchart can hold a node
/// shape that cannot be cut out.
pub open spec fn mermaid_readable(s: Seq<char>) -> bool {
    detect(s) == Some(DiagramKind::Flowchart) ==> !flow_unreadable(s)
}

/// What `parse_mermaid` gives for `s`.
pub open spec fn parse_outcome(s: Seq<char>, r: Result<DiagramAst, CoreError>) -> bool {
    match detect(s) {
        None => r matches Err(CoreError::ParseError { source }) && source@ == unknown_message(),
        Some(k) => if !has_parser(k) {
            r matches Err(CoreError::ParseError { source }) && source@ == unsupported_message(k)
        } else {
            r matches Ok(a) && a@ == model_of(k, s)
        },
    }
}

/// Message of a type that is recognised but has no parser.
pub open spec fn unsupported_message(k: DiagramKind) -> Seq<char> {
    "图表类型 "@ + kind_debug_name(k) + " 尚未实现"@
}

/// Message of a source whose type is not recognised.
pub open spec fn unknown_message() -> Seq<char> {
    "无法识别图表类型"@
}

fn kind_debug_name_exec(k: DiagramKind) -> (r: &'static str)
    ensures
        r@ == kind_debug_name(k),
{
    match k {
        DiagramKind::Flowchart => "Flowchart",
        DiagramKind::Sequence => "Sequence",
        DiagramKind::Class => "Class",
        DiagramKind::State => "State",
        DiagramKind::Er => "Er",
        DiagramKind::Pie => "Pie",
        DiagramKind::Mindmap => "Mindmap",
        DiagramKind::Journey => "Journey",
        DiagramKind::Timeline => "Timeline",
        DiagramKind::Gantt => "Gantt",
        DiagramKind::Requirement => "Requirement",
        DiagramKind::GitGraph => "GitGraph",
        DiagramKind::C4 => "C4",
        DiagramKind::Sankey => "Sankey",
        DiagramKind::Quadrant => "Quadrant",
        DiagramKind::Block => "Block",
        DiagramKind::Packet => "Packet",
        DiagramKind::Kanban => "Kanban",
        DiagramKind::Architecture => "Architecture",
        DiagramKind::Radar => "Radar",
        DiagramKind::Treemap => "Treemap",
        DiagramKind::XYChart => "XYChart",
    }
}

/// Parses a Mermaid source: the type named by its header line picks the parser.
/// An unrecognised type, or one without a parser, is a parse error.
pub fn parse_mermaid(input: &str) -> (r: Result<DiagramAst, CoreError>)
    requires
        mermaid_readable(input@),
    ensures
        parse_outcome(input@, r),
{
    match detect_diagram_kind(input) {
        None => Err(CoreError::parse_error("无法识别图表类型")),
        Some(k) => match k {
            DiagramKind::Flowchart => parse_flowchart(input),
            DiagramKind::Sequence => parse_sequence(input),
            DiagramKind::Class => parse_class(input),
            DiagramKind::State => parse_state(input),
            DiagramKind::Er => parse_er(input),
            DiagramKind::Requirement => parse_requirement(input),
            DiagramKind::Packet => parse_packet(input),
            _ => {
                let mut m = lit("图表类型 ");
                append_chars(&mut m, &str_chars(kind_debug_name_exec(k)));
                append_chars(&mut m, &lit(" 尚未实现"));
                let msg = chars_to_string(&m);
                Err(CoreError::parse_error(msg.as_str()))
            },
        },
    }
}

/// Parses a Mermaid source that can be read, as `parse_mermaid` does; `None`
/// for a flowchart holding a node shape that cannot be cut out.
pub fn try_parse_mermaid(input: &str) -> (r: Option<Result<DiagramAst, CoreError>>)
    ensures
        match r {
            Some(res) => mermaid_readable(input@) && parse_outcome(input@, res),
            None => !mermaid_readable(input@),
        },
{
    let k = detect_diagram_kind(input);
    if k == Some(DiagramKind::Flowchart) && !flowchart_readable(input) {
        return None;
    }
    Some(parse_mermaid(input))
}

/// Law: every parser gives a model of its own diagram type whose nodes have
/// distinct ids; so a source that `parse_mermaid` accepts comes back with the
/// type its header names.
pub proof fn law_parsed_models(k: DiagramKind, s: Seq<char>)
    requires
        has_parser(k),
    ensures
        model_of(k, s).kind == k,
        unique_ids(model_of(k, s).nodes),
{
    match k {
        DiagramKind::Flowchart => crate::flowchart::lemma_flow_model_unique(s),
        DiagramKind::Sequence => crate::sequence::lemma_seq_model_unique(s),
        DiagramKind::Class => crate::class::lemma_class_model_unique(s),
        DiagramKind::State => crate::state::lemma_state_model_unique(s),
        DiagramKind::Er => crate::er::lemma_er_model_unique(s),
        DiagramKind::Requirement => crate::requirement::lemma_req_model_unique(s),
        _ => crate::packet::lemma_packet_model_unique(s),
    }
}

} // verus!
