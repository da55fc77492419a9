//! Diagram type detection from the header line, past an optional YAML front matter.

use vstd::prelude::*;
use crate::text::{
    find_from, lines, lines_exec, trim, trim_chars, starts_with, starts_with_exec, lit, str_chars, views,
};
use crate::diagram::{DiagramKind, Text};

verus! {

/// Index of the first line at or after `i` that reads `---` once trimmed.
pub open spec fn fence_from(ls: Seq<Text>, i: int) -> Option<int>
    decreases ls.len() - i,
{
    if i < 0 || i >= ls.len() {
        None
    } else if trim(ls[i]) == "---"@ {
        Some(i)
    } else {
        fence_from(ls, i + 1)
    }
}

/// Index of the first line at or after `i` that is not blank.
pub open spec fn content_from(ls: Seq<Text>, i: int) -> Option<int>
    decreases ls.len() - i,
{
    if i < 0 || i >= ls.len() {
        None
    } else if trim(ls[i]).len() > 0 {
        Some(i)
    } else {
        content_from(ls, i + 1)
    }
}

/// The trimmed line that names the diagram type: the first line, or, when the
/// first line opens a front matter, the first non-blank line after its closing `---`.
/// An unclosed front matter, or none after it, leaves the first line.
pub open spec fn header_line(s: Seq<char>) -> Text {
    let ls = lines(s);
    if ls.len() == 0 {
        seq![]
    } else if trim(ls[0]) == "---"@ {
        match fence_from(ls, 1) {
            Some(c) => match content_from(ls, c + 1) {
                Some(j) => trim(ls[j]),
                None => trim(ls[0]),
            },
            None => trim(ls[0]),
        }
    } else {
        trim(ls[0])
    }
}

/// Diagram type named by a header line.
pub open spec fn kind_of_header(h: Text) -> Option<DiagramKind> {
    if starts_with(h, "flowchart"@) || starts_with(h, "graph"@) {
        Some(DiagramKind::Flowchart)
    } else if starts_with(h, "sequenceDiagram"@) {
        Some(DiagramKind::Sequence)
    } else if starts_with(h, "classDiagram"@) {
        Some(DiagramKind::Class)
    } else if starts_with(h, "stateDiagram"@) {
        Some(DiagramKind::State)
    } else if starts_with(h, "erDiagram"@) {
        Some(DiagramKind::Er)
    } else if starts_with(h, "pie"@) {
        Some(DiagramKind::Pie)
    } else if starts_with(h, "mindmap"@) {
        Some(DiagramKind::Mindmap)
    } else if starts_with(h, "journey"@) {
        Some(DiagramKind::Journey)
    } else if starts_with(h, "timeline"@) {
        Some(DiagramKind::Timeline)
    } else if starts_with(h, "gantt"@) {
        Some(DiagramKind::Gantt)
    } else if starts_with(h, "requirementDiagram"@) {
        Some(DiagramKind::Requirement)
    } else if starts_with(h, "gitGraph"@) {
        Some(DiagramKind::GitGraph)
    } else if starts_with(h, "C4Context"@) || starts_with(h, "C4Container"@)
        || starts_with(h, "C4Component"@) || starts_with(h, "C4Dynamic"@)
        || starts_with(h, "C4Deployment"@) {
        Some(DiagramKind::C4)
    } else if starts_with(h, "sankey"@) {
        Some(DiagramKind::Sankey)
    } else if starts_with(h, "quadrantChart"@) {
        Some(DiagramKind::Quadrant)
    } else if starts_with(h, "block"@) {
        Some(DiagramKind::Block)
    } else if starts_with(h, "packet"@) {
        Some(DiagramKind::Packet)
    } else if starts_with(h, "kanban"@) {
        Some(DiagramKind::Kanban)
    } else if starts_with(h, "architecture"@) {
        Some(DiagramKind::Architecture)
    } else if starts_with(h, "radar"@) {
        Some(DiagramKind::Radar)
    } else if starts_with(h, "treemap"@) {
        Some(DiagramKind::Treemap)
    } else if starts_with(h, "xychart"@) {
        Some(DiagramKind::XYChart)
    } else {
        None
    }
}

/// Diagram type of a source text.
pub open spec fn detect(s: Seq<char>) -> Option<DiagramKind> {
    kind_of_header(header_line(s))
}

fn has_prefix(h: &Vec<char>, p: &str) -> (r: bool)
    ensures
        r == starts_with(h@, p@),
{
    let pv = lit(p);
    starts_with_exec(h, &pv)
}

fn kind_of_header_exec(h: &Vec<char>) -> (r: Option<DiagramKind>)
    ensures
        r == kind_of_header(h@),
{
    if has_prefix(h, "flowchart") || has_prefix(h, "graph") {
        Some(DiagramKind::Flowchart)
    } else if has_prefix(h, "sequenceDiagram") {
        Some(DiagramKind::Sequence)
    } else if has_prefix(h, "classDiagram") {
        Some(DiagramKind::Class)
    } else if has_prefix(h, "stateDiagram") {
        Some(DiagramKind::State)
    } else if has_prefix(h, "erDiagram") {
        Some(DiagramKind::Er)
    } else if has_prefix(h, "pie") {
        Some(DiagramKind::Pie)
    } else if has_prefix(h, "mindmap") {
        Some(DiagramKind::Mindmap)
    } else if has_prefix(h, "journey") {
        Some(DiagramKind::Journey)
    } else if has_prefix(h, "timeline") {
        Some(DiagramKind::Timeline)
    } else if has_prefix(h, "gantt") {
        Some(DiagramKind::Gantt)
    } else if has_prefix(h, "requirementDiagram") {
        Some(DiagramKind::Requirement)
    } else if has_prefix(h, "gitGraph") {
        Some(DiagramKind::GitGraph)
    } else if has_prefix(h, "C4Context") || has_prefix(h, "C4Container")
        || has_prefix(h, "C4Component") || has_prefix(h, "C4Dynamic")
        || has_prefix(h, "C4Deployment") {
        Some(DiagramKind::C4)
    } else if has_prefix(h, "sankey") {
        Some(DiagramKind::Sankey)
    } else if has_prefix(h, "quadrantChart") {
        Some(DiagramKind::Quadrant)
    } else if has_prefix(h, "block") {
        Some(DiagramKind::Block)
    } else if has_prefix(h, "packet") {
        Some(DiagramKind::Packet)
    } else if has_prefix(h, "kanban") {
        Some(DiagramKind::Kanban)
    } else if has_prefix(h, "architecture") {
        Some(DiagramKind::Architecture)
    } else if has_prefix(h, "radar") {
        Some(DiagramKind::Radar)
    } else if has_prefix(h, "treemap") {
        Some(DiagramKind::Treemap)
    } else if has_prefix(h, "xychart") {
        Some(DiagramKind::XYChart)
    } else {
        None
    }
}

fn is_fence(l: &Vec<char>) -> (r: bool)
    ensures
        r == (trim(l@) == "---"@),
{
    let t = trim_chars(l);
    let f = lit("---");
    crate::text::chars_eq(&t, &f)
}

/// The header line of a source text.
pub fn header_line_exec(s: &Vec<char>) -> (r: Vec<char>)
    ensures
        r@ == header_line(s@),
{
    let ls = lines_exec(s);
    let ghost lv = views(ls@);
    if ls.len() == 0 {
        return Vec::new();
    }
    assert(ls@[0]@ == lv[0]);
    if !is_fence(&ls[0]) {
        return trim_chars(&ls[0]);
    }
    let mut i: usize = 1;
    while i < ls.len() && !is_fence(&ls[i])
        invariant
            1 <= i <= ls.len(),
            lv == views(ls@),
            fence_from(lv, 1) == fence_from(lv, i as int),
        decreases ls.len() - i,
    {
        assert(ls@[i as int]@ == lv[i as int]);
        i += 1;
    }
    if i >= ls.len() {
        return trim_chars(&ls[0]);
    }
    assert(ls@[i as int]@ == lv[i as int]);
    let c = i;
    let mut j: usize = c + 1;
    while j < ls.len() && trim_chars(&ls[j]).len() == 0
        invariant
            c < j <= ls.len(),
            lv == views(ls@),
            fence_from(lv, 1) == Some(c as int),
            content_from(lv, c + 1) == content_from(lv, j as int),
        decreases ls.len() - j,
    {
        assert(ls@[j as int]@ == lv[j as int]);
        j += 1;
    }
    if j >= ls.len() {
        return trim_chars(&ls[0]);
    }
    assert(ls@[j as int]@ == lv[j as int]);
    trim_chars(&ls[j])
}

/// Diagram type of a Mermaid source, read from its header line.
pub fn detect_diagram_kind(input: &str) -> (r: Option<DiagramKind>)
    ensures
        r == detect(input@),
{
    let s = str_chars(input);
    let h = header_line_exec(&s);
    kind_of_header_exec(&h)
}

/// Names of the diagram types, in the order of `DiagramKind`.
pub open spec fn kind_names() -> Seq<Seq<char>> {
    seq![
        "flowchart"@, "sequenceDiagram"@, "classDiagram"@, "stateDiagram-v2"@,
        "erDiagram"@, "pie"@, "mindmap"@, "journey"@, "timeline"@, "gantt"@,
        "requirementDiagram"@, "gitGraph"@, "C4Context"@, "sankey"@,
        "quadrantChart"@, "block"@, "packet"@, "kanban"@, "architecture"@,
        "radar"@, "treemap"@, "xychart"@,
    ]
}

impl DiagramKind {
    /// Names of all diagram types.
    pub fn all_names() -> (r: Vec<&'static str>)
        ensures
            r@.map_values(|s: &str| s@) == kind_names(),
    {
        let mut r: Vec<&'static str> = Vec::new();
        r.push("flowchart");
        r.push("sequenceDiagram");
        r.push("classDiagram");
        r.push("stateDiagram-v2");
        r.push("erDiagram");
        r.push("pie");
        r.push("mindmap");
        r.push("journey");
        r.push("timeline");
        r.push("gantt");
        r.push("requirementDiagram");
        r.push("gitGraph");
        r.push("C4Context");
        r.push("sankey");
        r.push("quadrantChart");
        r.push("block");
        r.push("packet");
        r.push("kanban");
        r.push("architecture");
        r.push("radar");
        r.push("treemap");
        r.push("xychart");
        assert(r@.map_values(|s: &str| s@) =~= kind_names());
        r
    }
}


/// A word of letters, digits and `-` that starts with a letter.
pub open spec fn plain_word(s: Seq<char>) -> bool {
    &&& s.len() > 0
    &&& ('a' <= s[0] <= 'z' || 'A' <= s[0] <= 'Z')
    &&& forall|i: int| 0 <= i < s.len() ==> ('a' <= #[trigger] s[i] <= 'z' || 'A' <= s[i] <= 'Z' || '0' <= s[i] <= '9' || s[i] == '-')
}

/// A source made of one plain word is its own header line.
proof fn lemma_plain_header(s: Seq<char>)
    requires
        plain_word(s),
    ensures
        header_line(s) == s,
{
    crate::text::lemma_find_from_props(s, seq!['\n'], 0);
    if find_from(s, seq!['\n'], 0) is Some {
        let k = find_from(s, seq!['\n'], 0)->0;
        assert(s.subrange(k, k + 1) == seq!['\n']);
        assert(s[k] == s.subrange(k, k + 1)[0]);
    }
    assert(lines(s) == seq![s.subrange(0, s.len() as int)]);
    assert(s.subrange(0, s.len() as int) =~= s);
    assert(!crate::text::is_ws(s[0]));
    assert(!crate::text::is_ws(s[s.len() - 1]));
    assert(crate::text::skip_ws(s, 0) == 0);
    assert(crate::text::trim_start(s) =~= s);
    assert(crate::text::back_ws(s, s.len() as int) == s.len());
    assert(trim(s) =~= s);
    reveal_strlit("---");
    assert(s != "---"@) by {
        assert(s[0] != '-');
    }
}

/// A source that starts with `p` agrees with `p` at each of its positions.
proof fn lemma_prefix_at(h: Seq<char>, p: Seq<char>, i: int)
    requires
        0 <= i < p.len(),
    ensures
        starts_with(h, p) ==> i < h.len() && h[i] == p[i],
{
    if starts_with(h, p) {
        assert(h.subrange(0, p.len() as int)[i] == h[i]);
    }
}

proof fn lemma_prefix_holds(h: Seq<char>, p: Seq<char>)
    requires
        p.len() <= h.len(),
        forall|i: int| 0 <= i < p.len() ==> h[i] == p[i],
    ensures
        starts_with(h, p),
{
    assert(h.subrange(0, p.len() as int) =~= p);
}

proof fn lemma_detect_name_0()
    ensures
        detect("flowchart"@) == Some(DiagramKind::Flowchart),
{
    reveal_strlit("flowchart");
    lemma_plain_header("flowchart"@);
    reveal_strlit("flowchart");
    lemma_prefix_holds("flowchart"@, "flowchart"@);
}

proof fn lemma_detect_name_1()
    ensures
        detect("sequenceDiagram"@) == Some(DiagramKind::Sequence),
{
    reveal_strlit("sequenceDiagram");
    lemma_plain_header("sequenceDiagram"@);
    reveal_strlit("flowchart");
    lemma_prefix_at("sequenceDiagram"@, "flowchart"@, 0);
    reveal_strlit("graph");
    lemma_prefix_at("sequenceDiagram"@, "graph"@, 0);
    reveal_strlit("sequenceDiagram");
    lemma_prefix_holds("sequenceDiagram"@, "sequenceDiagram"@);
}

proof fn lemma_detect_name_2()
    ensures
        detect("classDiagram"@) == Some(DiagramKind::Class),
{
    reveal_strlit("classDiagram");
    lemma_plain_header("classDiagram"@);
    reveal_strlit("flowchart");
    lemma_prefix_at("classDiagram"@, "flowchart"@, 0);
    reveal_strlit("graph");
    lemma_prefix_at("classDiagram"@, "graph"@, 0);
    reveal_strlit("sequenceDiagram");
    lemma_prefix_at("classDiagram"@, "sequenceDiagram"@, 0);
    reveal_strlit("classDiagram");
    lemma_prefix_holds("classDiagram"@, "classDiagram"@);
}

proof fn lemma_detect_name_3()
    ensures
        detect("stateDiagram-v2"@) == Some(DiagramKind::State),
{
    reveal_strlit("stateDiagram-v2");
    lemma_plain_header("stateDiagram-v2"@);
    reveal_strlit("flowchart");
    lemma_prefix_at("stateDiagram-v2"@, "flowchart"@, 0);
    reveal_strlit("graph");
    lemma_prefix_at("stateDiagram-v2"@, "graph"@, 0);
    reveal_strlit("sequenceDiagram");
    lemma_prefix_at("stateDiagram-v2"@, "sequenceDiagram"@, 1);
    reveal_strlit("classDiagram");
    lemma_prefix_at("stateDiagram-v2"@, "classDiagram"@, 0);
    reveal_strlit("stateDiagram");
    lemma_prefix_holds("stateDiagram-v2"@, "stateDiagram"@);
}

proof fn lemma_detect_name_4()
    ensures
        detect("erDiagram"@) == Some(DiagramKind::Er),
{
    reveal_strlit("erDiagram");
    lemma_plain_header("erDiagram"@);
    reveal_strlit("flowchart");
    lemma_prefix_at("erDiagram"@, "flowchart"@, 0);
    reveal_strlit("graph");
    lemma_prefix_at("erDiagram"@, "graph"@, 0);
    reveal_strlit("sequenceDiagram");
    lemma_prefix_at("erDiagram"@, "sequenceDiagram"@, 0);
    reveal_strlit("classDiagram");
    lemma_prefix_at("erDiagram"@, "classDiagram"@, 0);
    reveal_strlit("stateDiagram");
    lemma_prefix_at("erDiagram"@, "stateDiagram"@, 0);
    reveal_strlit("erDiagram");
    lemma_prefix_holds("erDiagram"@, "erDiagram"@);
}

proof fn lemma_detect_name_5()
    ensures
        detect("pie"@) == Some(DiagramKind::Pie),
{
    reveal_strlit("pie");
    lemma_plain_header("pie"@);
    reveal_strlit("flowchart");
    lemma_prefix_at("pie"@, "flowchart"@, 0);
    reveal_strlit("graph");
    lemma_prefix_at("pie"@, "graph"@, 0);
    reveal_strlit("sequenceDiagram");
    lemma_prefix_at("pie"@, "sequenceDiagram"@, 0);
    reveal_strlit("classDiagram");
    lemma_prefix_at("pie"@, "classDiagram"@, 0);
    reveal_strlit("stateDiagram");
    lemma_prefix_at("pie"@, "stateDiagram"@, 0);
    reveal_strlit("erDiagram");
    lemma_prefix_at("pie"@, "erDiagram"@, 0);
    reveal_strlit("pie");
    lemma_prefix_holds("pie"@, "pie"@);
}

proof fn lemma_detect_name_6()
    ensures
        detect("mindmap"@) == Some(DiagramKind::Mindmap),
{
    reveal_strlit("mindmap");
    lemma_plain_header("mindmap"@);
    reveal_strlit("flowchart");
    lemma_prefix_at("mindmap"@, "flowchart"@, 0);
    reveal_strlit("graph");
    lemma_prefix_at("mindmap"@, "graph"@, 0);
    reveal_strlit("sequenceDiagram");
    lemma_prefix_at("mindmap"@, "sequenceDiagram"@, 0);
    reveal_strlit("classDiagram");
    lemma_prefix_at("mindmap"@, "classDiagram"@, 0);
    reveal_strlit("stateDiagram");
    lemma_prefix_at("mindmap"@, "stateDiagram"@, 0);
    reveal_strlit("erDiagram");
    lemma_prefix_at("mindmap"@, "erDiagram"@, 0);
    reveal_strlit("pie");
    lemma_prefix_at("mindmap"@, "pie"@, 0);
    reveal_strlit("mindmap");
    lemma_prefix_holds("mindmap"@, "mindmap"@);
}

proof fn lemma_detect_name_7()
    ensures
        detect("journey"@) == Some(DiagramKind::Journey),
{
    reveal_strlit("journey");
    lemma_plain_header("journey"@);
    reveal_strlit("flowchart");
    lemma_prefix_at("journey"@, "flowchart"@, 0);
    reveal_strlit("graph");
    lemma_prefix_at("journey"@, "graph"@, 0);
    reveal_strlit("sequenceDiagram");
    lemma_prefix_at("journey"@, "sequenceDiagram"@, 0);
    reveal_strlit("classDiagram");
    lemma_prefix_at("journey"@, "classDiagram"@, 0);
    reveal_strlit("stateDiagram");
    lemma_prefix_at("journey"@, "stateDiagram"@, 0);
    reveal_strlit("erDiagram");
    lemma_prefix_at("journey"@, "erDiagram"@, 0);
    reveal_strlit("pie");
    lemma_prefix_at("journey"@, "pie"@, 0);
    reveal_strlit("mindmap");
    lemma_prefix_at("journey"@, "mindmap"@, 0);
    reveal_strlit("journey");
    lemma_prefix_holds("journey"@, "journey"@);
}

proof fn lemma_detect_name_8()
    ensures
        detect("timeline"@) == Some(DiagramKind::Timeline),
{
    reveal_strlit("timeline");
    lemma_plain_header("timeline"@);
    reveal_strlit("flowchart");
    lemma_prefix_at("timeline"@, "flowchart"@, 0);
    reveal_strlit("graph");
    lemma_prefix_at("timeline"@, "graph"@, 0);
    reveal_strlit("sequenceDiagram");
    lemma_prefix_at("timeline"@, "sequenceDiagram"@, 0);
    reveal_strlit("classDiagram");
    lemma_prefix_at("timeline"@, "classDiagram"@, 0);
    reveal_strlit("stateDiagram");
    lemma_prefix_at("timeline"@, "stateDiagram"@, 0);
    reveal_strlit("erDiagram");
    lemma_prefix_at("timeline"@, "erDiagram"@, 0);
    reveal_strlit("pie");
    lemma_prefix_at("timeline"@, "pie"@, 0);
    reveal_strlit("mindmap");
    lemma_prefix_at("timeline"@, "mindmap"@, 0);
    reveal_strlit("journey");
    lemma_prefix_at("timeline"@, "journey"@, 0);
    reveal_strlit("timeline");
    lemma_prefix_holds("timeline"@, "timeline"@);
}

proof fn lemma_detect_name_9()
    ensures
        detect("gantt"@) == Some(DiagramKind::Gantt),
{
    reveal_strlit("gantt");
    lemma_plain_header("gantt"@);
    reveal_strlit("flowchart");
    lemma_prefix_at("gantt"@, "flowchart"@, 0);
    reveal_strlit("graph");
    lemma_prefix_at("gantt"@, "graph"@, 1);
    reveal_strlit("sequenceDiagram");
    lemma_prefix_at("gantt"@, "sequenceDiagram"@, 0);
    reveal_strlit("classDiagram");
    lemma_prefix_at("gantt"@, "classDiagram"@, 0);
    reveal_strlit("stateDiagram");
    lemma_prefix_at("gantt"@, "stateDiagram"@, 0);
    reveal_strlit("erDiagram");
    lemma_prefix_at("gantt"@, "erDiagram"@, 0);
    reveal_strlit("pie");
    lemma_prefix_at("gantt"@, "pie"@, 0);
    reveal_strlit("mindmap");
    lemma_prefix_at("gantt"@, "mindmap"@, 0);
    reveal_strlit("journey");
    lemma_prefix_at("gantt"@, "journey"@, 0);
    reveal_strlit("timeline");
    lemma_prefix_at("gantt"@, "timeline"@, 0);
    reveal_strlit("gantt");
    lemma_prefix_holds("gantt"@, "gantt"@);
}

proof fn lemma_detect_name_10()
    ensures
        detect("requirementDiagram"@) == Some(DiagramKind::Requirement),
{
    reveal_strlit("requirementDiagram");
    lemma_plain_header("requirementDiagram"@);
    reveal_strlit("flowchart");
    lemma_prefix_at("requirementDiagram"@, "flowchart"@, 0);
    reveal_strlit("graph");
    lemma_prefix_at("requirementDiagram"@, "graph"@, 0);
    reveal_strlit("sequenceDiagram");
    lemma_prefix_at("requirementDiagram"@, "sequenceDiagram"@, 0);
    reveal_strlit("classDiagram");
    lemma_prefix_at("requirementDiagram"@, "classDiagram"@, 0);
    reveal_strlit("stateDiagram");
    lemma_prefix_at("requirementDiagram"@, "stateDiagram"@, 0);
    reveal_strlit("erDiagram");
    lemma_prefix_at("requirementDiagram"@, "erDiagram"@, 0);
    reveal_strlit("pie");
    lemma_prefix_at("requirementDiagram"@, "pie"@, 0);
    reveal_strlit("mindmap");
    lemma_prefix_at("requirementDiagram"@, "mindmap"@, 0);
    reveal_strlit("journey");
    lemma_prefix_at("requirementDiagram"@, "journey"@, 0);
    reveal_strlit("timeline");
    lemma_prefix_at("requirementDiagram"@, "timeline"@, 0);
    reveal_strlit("gantt");
    lemma_prefix_at("requirementDiagram"@, "gantt"@, 0);
    reveal_strlit("requirementDiagram");
    lemma_prefix_holds("requirementDiagram"@, "requirementDiagram"@);
}

proof fn lemma_detect_name_11()
    ensures
        detect("gitGraph"@) == Some(DiagramKind::GitGraph),
{
    reveal_strlit("gitGraph");
    lemma_plain_header("gitGraph"@);
    reveal_strlit("flowchart");
    lemma_prefix_at("gitGraph"@, "flowchart"@, 0);
    reveal_strlit("graph");
    lemma_prefix_at("gitGraph"@, "graph"@, 1);
    reveal_strlit("sequenceDiagram");
    lemma_prefix_at("gitGraph"@, "sequenceDiagram"@, 0);
    reveal_strlit("classDiagram");
    lemma_prefix_at("gitGraph"@, "classDiagram"@, 0);
    reveal_strlit("stateDiagram");
    lemma_prefix_at("gitGraph"@, "stateDiagram"@, 0);
    reveal_strlit("erDiagram");
    lemma_prefix_at("gitGraph"@, "erDiagram"@, 0);
    reveal_strlit("pie");
    lemma_prefix_at("gitGraph"@, "pie"@, 0);
    reveal_strlit("mindmap");
    lemma_prefix_at("gitGraph"@, "mindmap"@, 0);
    reveal_strlit("journey");
    lemma_prefix_at("gitGraph"@, "journey"@, 0);
    reveal_strlit("timeline");
    lemma_prefix_at("gitGraph"@, "timeline"@, 0);
    reveal_strlit("gantt");
    lemma_prefix_at("gitGraph"@, "gantt"@, 1);
    reveal_strlit("requirementDiagram");
    lemma_prefix_at("gitGraph"@, "requirementDiagram"@, 0);
    reveal_strlit("gitGraph");
    lemma_prefix_holds("gitGraph"@, "gitGraph"@);
}

proof fn lemma_detect_name_12()
    ensures
        detect("C4Context"@) == Some(DiagramKind::C4),
{
    reveal_strlit("C4Context");
    lemma_plain_header("C4Context"@);
    reveal_strlit("flowchart");
    lemma_prefix_at("C4Context"@, "flowchart"@, 0);
    reveal_strlit("graph");
    lemma_prefix_at("C4Context"@, "graph"@, 0);
    reveal_strlit("sequenceDiagram");
    lemma_prefix_at("C4Context"@, "sequenceDiagram"@, 0);
    reveal_strlit("classDiagram");
    lemma_prefix_at("C4Context"@, "classDiagram"@, 0);
    reveal_strlit("stateDiagram");
    lemma_prefix_at("C4Context"@, "stateDiagram"@, 0);
    reveal_strlit("erDiagram");
    lemma_prefix_at("C4Context"@, "erDiagram"@, 0);
    reveal_strlit("pie");
    lemma_prefix_at("C4Context"@, "pie"@, 0);
    reveal_strlit("mindmap");
    lemma_prefix_at("C4Context"@, "mindmap"@, 0);
    reveal_strlit("journey");
    lemma_prefix_at("C4Context"@, "journey"@, 0);
    reveal_strlit("timeline");
    lemma_prefix_at("C4Context"@, "timeline"@, 0);
    reveal_strlit("gantt");
    lemma_prefix_at("C4Context"@, "gantt"@, 0);
    reveal_strlit("requirementDiagram");
    lemma_prefix_at("C4Context"@, "requirementDiagram"@, 0);
    reveal_strlit("gitGraph");
    lemma_prefix_at("C4Context"@, "gitGraph"@, 0);
    reveal_strlit("C4Context");
    lemma_prefix_holds("C4Context"@, "C4Context"@);
}

proof fn lemma_detect_name_13()
    ensures
        detect("sankey"@) == Some(DiagramKind::Sankey),
{
    reveal_strlit("sankey");
    lemma_plain_header("sankey"@);
    reveal_strlit("flowchart");
    lemma_prefix_at("sankey"@, "flowchart"@, 0);
    reveal_strlit("graph");
    lemma_prefix_at("sankey"@, "graph"@, 0);
    reveal_strlit("sequenceDiagram");
    lemma_prefix_at("sankey"@, "sequenceDiagram"@, 1);
    reveal_strlit("classDiagram");
    lemma_prefix_at("sankey"@, "classDiagram"@, 0);
    reveal_strlit("stateDiagram");
    lemma_prefix_at("sankey"@, "stateDiagram"@, 1);
    reveal_strlit("erDiagram");
    lemma_prefix_at("sankey"@, "erDiagram"@, 0);
    reveal_strlit("pie");
    lemma_prefix_at("sankey"@, "pie"@, 0);
    reveal_strlit("mindmap");
    lemma_prefix_at("sankey"@, "mindmap"@, 0);
    reveal_strlit("journey");
    lemma_prefix_at("sankey"@, "journey"@, 0);
    reveal_strlit("timeline");
    lemma_prefix_at("sankey"@, "timeline"@, 0);
    reveal_strlit("gantt");
    lemma_prefix_at("sankey"@, "gantt"@, 0);
    reveal_strlit("requirementDiagram");
    lemma_prefix_at("sankey"@, "requirementDiagram"@, 0);
    reveal_strlit("gitGraph");
    lemma_prefix_at("sankey"@, "gitGraph"@, 0);
    reveal_strlit("C4Context");
    lemma_prefix_at("sankey"@, "C4Context"@, 0);
    reveal_strlit("C4Container");
    lemma_prefix_at("sankey"@, "C4Container"@, 0);
    reveal_strlit("C4Component");
    lemma_prefix_at("sankey"@, "C4Component"@, 0);
    reveal_strlit("C4Dynamic");
    lemma_prefix_at("sankey"@, "C4Dynamic"@, 0);
    reveal_strlit("C4Deployment");
    lemma_prefix_at("sankey"@, "C4Deployment"@, 0);
    reveal_strlit("sankey");
    lemma_prefix_holds("sankey"@, "sankey"@);
}

proof fn lemma_detect_name_14()
    ensures
        detect("quadrantChart"@) == Some(DiagramKind::Quadrant),
{
    reveal_strlit("quadrantChart");
    lemma_plain_header("quadrantChart"@);
    reveal_strlit("flowchart");
    lemma_prefix_at("quadrantChart"@, "flowchart"@, 0);
    reveal_strlit("graph");
    lemma_prefix_at("quadrantChart"@, "graph"@, 0);
    reveal_strlit("sequenceDiagram");
    lemma_prefix_at("quadrantChart"@, "sequenceDiagram"@, 0);
    reveal_strlit("classDiagram");
    lemma_prefix_at("quadrantChart"@, "classDiagram"@, 0);
    reveal_strlit("stateDiagram");
    lemma_prefix_at("quadrantChart"@, "stateDiagram"@, 0);
    reveal_strlit("erDiagram");
    lemma_prefix_at("quadrantChart"@, "erDiagram"@, 0);
    reveal_strlit("pie");
    lemma_prefix_at("quadrantChart"@, "pie"@, 0);
    reveal_strlit("mindmap");
    lemma_prefix_at("quadrantChart"@, "mindmap"@, 0);
    reveal_strlit("journey");
    lemma_prefix_at("quadrantChart"@, "journey"@, 0);
    reveal_strlit("timeline");
    lemma_prefix_at("quadrantChart"@, "timeline"@, 0);
    reveal_strlit("gantt");
    lemma_prefix_at("quadrantChart"@, "gantt"@, 0);
    reveal_strlit("requirementDiagram");
    lemma_prefix_at("quadrantChart"@, "requirementDiagram"@, 0);
    reveal_strlit("gitGraph");
    lemma_prefix_at("quadrantChart"@, "gitGraph"@, 0);
    reveal_strlit("C4Context");
    lemma_prefix_at("quadrantChart"@, "C4Context"@, 0);
    reveal_strlit("C4Container");
    lemma_prefix_at("quadrantChart"@, "C4Container"@, 0);
    reveal_strlit("C4Component");
    lemma_prefix_at("quadrantChart"@, "C4Component"@, 0);
    reveal_strlit("C4Dynamic");
    lemma_prefix_at("quadrantChart"@, "C4Dynamic"@, 0);
    reveal_strlit("C4Deployment");
    lemma_prefix_at("quadrantChart"@, "C4Deployment"@, 0);
    reveal_strlit("sankey");
    lemma_prefix_at("quadrantChart"@, "sankey"@, 0);
    reveal_strlit("quadrantChart");
    lemma_prefix_holds("quadrantChart"@, "quadrantChart"@);
}

proof fn lemma_detect_name_15()
    ensures
        detect("block"@) == Some(DiagramKind::Block),
{
    reveal_strlit("block");
    lemma_plain_header("block"@);
    reveal_strlit("flowchart");
    lemma_prefix_at("block"@, "flowchart"@, 0);
    reveal_strlit("graph");
    lemma_prefix_at("block"@, "graph"@, 0);
    reveal_strlit("sequenceDiagram");
    lemma_prefix_at("block"@, "sequenceDiagram"@, 0);
    reveal_strlit("classDiagram");
    lemma_prefix_at("block"@, "classDiagram"@, 0);
    reveal_strlit("stateDiagram");
    lemma_prefix_at("block"@, "stateDiagram"@, 0);
    reveal_strlit("erDiagram");
    lemma_prefix_at("block"@, "erDiagram"@, 0);
    reveal_strlit("pie");
    lemma_prefix_at("block"@, "pie"@, 0);
    reveal_strlit("mindmap");
    lemma_prefix_at("block"@, "mindmap"@, 0);
    reveal_strlit("journey");
    lemma_prefix_at("block"@, "journey"@, 0);
    reveal_strlit("timeline");
    lemma_prefix_at("block"@, "timeline"@, 0);
    reveal_strlit("gantt");
    lemma_prefix_at("block"@, "gantt"@, 0);
    reveal_strlit("requirementDiagram");
    lemma_prefix_at("block"@, "requirementDiagram"@, 0);
    reveal_strlit("gitGraph");
    lemma_prefix_at("block"@, "gitGraph"@, 0);
    reveal_strlit("C4Context");
    lemma_prefix_at("block"@, "C4Context"@, 0);
    reveal_strlit("C4Container");
    lemma_prefix_at("block"@, "C4Container"@, 0);
    reveal_strlit("C4Component");
    lemma_prefix_at("block"@, "C4Component"@, 0);
    reveal_strlit("C4Dynamic");
    lemma_prefix_at("block"@, "C4Dynamic"@, 0);
    reveal_strlit("C4Deployment");
    lemma_prefix_at("block"@, "C4Deployment"@, 0);
    reveal_strlit("sankey");
    lemma_prefix_at("block"@, "sankey"@, 0);
    reveal_strlit("quadrantChart");
    lemma_prefix_at("block"@, "quadrantChart"@, 0);
    reveal_strlit("block");
    lemma_prefix_holds("block"@, "block"@);
}

proof fn lemma_detect_name_16()
    ensures
        detect("packet"@) == Some(DiagramKind::Packet),
{
    reveal_strlit("packet");
    lemma_plain_header("packet"@);
    reveal_strlit("flowchart");
    lemma_prefix_at("packet"@, "flowchart"@, 0);
    reveal_strlit("graph");
    lemma_prefix_at("packet"@, "graph"@, 0);
    reveal_strlit("sequenceDiagram");
    lemma_prefix_at("packet"@, "sequenceDiagram"@, 0);
    reveal_strlit("classDiagram");
    lemma_prefix_at("packet"@, "classDiagram"@, 0);
    reveal_strlit("stateDiagram");
    lemma_prefix_at("packet"@, "stateDiagram"@, 0);
    reveal_strlit("erDiagram");
    lemma_prefix_at("packet"@, "erDiagram"@, 0);
    reveal_strlit("pie");
    lemma_prefix_at("packet"@, "pie"@, 1);
    reveal_strlit("mindmap");
    lemma_prefix_at("packet"@, "mindmap"@, 0);
    reveal_strlit("journey");
    lemma_prefix_at("packet"@, "journey"@, 0);
    reveal_strlit("timeline");
    lemma_prefix_at("packet"@, "timeline"@, 0);
    reveal_strlit("gantt");
    lemma_prefix_at("packet"@, "gantt"@, 0);
    reveal_strlit("requirementDiagram");
    lemma_prefix_at("packet"@, "requirementDiagram"@, 0);
    reveal_strlit("gitGraph");
    lemma_prefix_at("packet"@, "gitGraph"@, 0);
    reveal_strlit("C4Context");
    lemma_prefix_at("packet"@, "C4Context"@, 0);
    reveal_strlit("C4Container");
    lemma_prefix_at("packet"@, "C4Container"@, 0);
    reveal_strlit("C4Component");
    lemma_prefix_at("packet"@, "C4Component"@, 0);
    reveal_strlit("C4Dynamic");
    lemma_prefix_at("packet"@, "C4Dynamic"@, 0);
    reveal_strlit("C4Deployment");
    lemma_prefix_at("packet"@, "C4Deployment"@, 0);
    reveal_strlit("sankey");
    lemma_prefix_at("packet"@, "sankey"@, 0);
    reveal_strlit("quadrantChart");
    lemma_prefix_at("packet"@, "quadrantChart"@, 0);
    reveal_strlit("block");
    lemma_prefix_at("packet"@, "block"@, 0);
    reveal_strlit("packet");
    lemma_prefix_holds("packet"@, "packet"@);
}

proof fn lemma_detect_name_17()
    ensures
        detect("kanban"@) == Some(DiagramKind::Kanban),
{
    reveal_strlit("kanban");
    lemma_plain_header("kanban"@);
    reveal_strlit("flowchart");
    lemma_prefix_at("kanban"@, "flowchart"@, 0);
    reveal_strlit("graph");
    lemma_prefix_at("kanban"@, "graph"@, 0);
    reveal_strlit("sequenceDiagram");
    lemma_prefix_at("kanban"@, "sequenceDiagram"@, 0);
    reveal_strlit("classDiagram");
    lemma_prefix_at("kanban"@, "classDiagram"@, 0);
    reveal_strlit("stateDiagram");
    lemma_prefix_at("kanban"@, "stateDiagram"@, 0);
    reveal_strlit("erDiagram");
    lemma_prefix_at("kanban"@, "erDiagram"@, 0);
    reveal_strlit("pie");
    lemma_prefix_at("kanban"@, "pie"@, 0);
    reveal_strlit("mindmap");
    lemma_prefix_at("kanban"@, "mindmap"@, 0);
    reveal_strlit("journey");
    lemma_prefix_at("kanban"@, "journey"@, 0);
    reveal_strlit("timeline");
    lemma_prefix_at("kanban"@, "timeline"@, 0);
    reveal_strlit("gantt");
    lemma_prefix_at("kanban"@, "gantt"@, 0);
    reveal_strlit("requirementDiagram");
    lemma_prefix_at("kanban"@, "requirementDiagram"@, 0);
    reveal_strlit("gitGraph");
    lemma_prefix_at("kanban"@, "gitGraph"@, 0);
    reveal_strlit("C4Context");
    lemma_prefix_at("kanban"@, "C4Context"@, 0);
    reveal_strlit("C4Container");
    lemma_prefix_at("kanban"@, "C4Container"@, 0);
    reveal_strlit("C4Component");
    lemma_prefix_at("kanban"@, "C4Component"@, 0);
    reveal_strlit("C4Dynamic");
    lemma_prefix_at("kanban"@, "C4Dynamic"@, 0);
    reveal_strlit("C4Deployment");
    lemma_prefix_at("kanban"@, "C4Deployment"@, 0);
    reveal_strlit("sankey");
    lemma_prefix_at("kanban"@, "sankey"@, 0);
    reveal_strlit("quadrantChart");
    lemma_prefix_at("kanban"@, "quadrantChart"@, 0);
    reveal_strlit("block");
    lemma_prefix_at("kanban"@, "block"@, 0);
    reveal_strlit("packet");
    lemma_prefix_at("kanban"@, "packet"@, 0);
    reveal_strlit("kanban");
    lemma_prefix_holds("kanban"@, "kanban"@);
}

proof fn lemma_detect_name_18()
    ensures
        detect("architecture"@) == Some(DiagramKind::Architecture),
{
    reveal_strlit("architecture");
    lemma_plain_header("architecture"@);
    reveal_strlit("flowchart");
    lemma_prefix_at("architecture"@, "flowchart"@, 0);
    reveal_strlit("graph");
    lemma_prefix_at("architecture"@, "graph"@, 0);
    reveal_strlit("sequenceDiagram");
    lemma_prefix_at("architecture"@, "sequenceDiagram"@, 0);
    reveal_strlit("classDiagram");
    lemma_prefix_at("architecture"@, "classDiagram"@, 0);
    reveal_strlit("stateDiagram");
    lemma_prefix_at("architecture"@, "stateDiagram"@, 0);
    reveal_strlit("erDiagram");
    lemma_prefix_at("architecture"@, "erDiagram"@, 0);
    reveal_strlit("pie");
    lemma_prefix_at("architecture"@, "pie"@, 0);
    reveal_strlit("mindmap");
    lemma_prefix_at("architecture"@, "mindmap"@, 0);
    reveal_strlit("journey");
    lemma_prefix_at("architecture"@, "journey"@, 0);
    reveal_strlit("timeline");
    lemma_prefix_at("architecture"@, "timeline"@, 0);
    reveal_strlit("gantt");
    lemma_prefix_at("architecture"@, "gantt"@, 0);
    reveal_strlit("requirementDiagram");
    lemma_prefix_at("architecture"@, "requirementDiagram"@, 0);
    reveal_strlit("gitGraph");
    lemma_prefix_at("architecture"@, "gitGraph"@, 0);
    reveal_strlit("C4Context");
    lemma_prefix_at("architecture"@, "C4Context"@, 0);
    reveal_strlit("C4Container");
    lemma_prefix_at("architecture"@, "C4Container"@, 0);
    reveal_strlit("C4Component");
    lemma_prefix_at("architecture"@, "C4Component"@, 0);
    reveal_strlit("C4Dynamic");
    lemma_prefix_at("architecture"@, "C4Dynamic"@, 0);
    reveal_strlit("C4Deployment");
    lemma_prefix_at("architecture"@, "C4Deployment"@, 0);
    reveal_strlit("sankey");
    lemma_prefix_at("architecture"@, "sankey"@, 0);
    reveal_strlit("quadrantChart");
    lemma_prefix_at("architecture"@, "quadrantChart"@, 0);
    reveal_strlit("block");
    lemma_prefix_at("architecture"@, "block"@, 0);
    reveal_strlit("packet");
    lemma_prefix_at("architecture"@, "packet"@, 0);
    reveal_strlit("kanban");
    lemma_prefix_at("architecture"@, "kanban"@, 0);
    reveal_strlit("architecture");
    lemma_prefix_holds("architecture"@, "architecture"@);
}

proof fn lemma_detect_name_19()
    ensures
        detect("radar"@) == Some(DiagramKind::Radar),
{
    reveal_strlit("radar");
    lemma_plain_header("radar"@);
    reveal_strlit("flowchart");
    lemma_prefix_at("radar"@, "flowchart"@, 0);
    reveal_strlit("graph");
    lemma_prefix_at("radar"@, "graph"@, 0);
    reveal_strlit("sequenceDiagram");
    lemma_prefix_at("radar"@, "sequenceDiagram"@, 0);
    reveal_strlit("classDiagram");
    lemma_prefix_at("radar"@, "classDiagram"@, 0);
    reveal_strlit("stateDiagram");
    lemma_prefix_at("radar"@, "stateDiagram"@, 0);
    reveal_strlit("erDiagram");
    lemma_prefix_at("radar"@, "erDiagram"@, 0);
    reveal_strlit("pie");
    lemma_prefix_at("radar"@, "pie"@, 0);
    reveal_strlit("mindmap");
    lemma_prefix_at("radar"@, "mindmap"@, 0);
    reveal_strlit("journey");
    lemma_prefix_at("radar"@, "journey"@, 0);
    reveal_strlit("timeline");
    lemma_prefix_at("radar"@, "timeline"@, 0);
    reveal_strlit("gantt");
    lemma_prefix_at("radar"@, "gantt"@, 0);
    reveal_strlit("requirementDiagram");
    lemma_prefix_at("radar"@, "requirementDiagram"@, 1);
    reveal_strlit("gitGraph");
    lemma_prefix_at("radar"@, "gitGraph"@, 0);
    reveal_strlit("C4Context");
    lemma_prefix_at("radar"@, "C4Context"@, 0);
    reveal_strlit("C4Container");
    lemma_prefix_at("radar"@, "C4Container"@, 0);
    reveal_strlit("C4Component");
    lemma_prefix_at("radar"@, "C4Component"@, 0);
    reveal_strlit("C4Dynamic");
    lemma_prefix_at("radar"@, "C4Dynamic"@, 0);
    reveal_strlit("C4Deployment");
    lemma_prefix_at("radar"@, "C4Deployment"@, 0);
    reveal_strlit("sankey");
    lemma_prefix_at("radar"@, "sankey"@, 0);
    reveal_strlit("quadrantChart");
    lemma_prefix_at("radar"@, "quadrantChart"@, 0);
    reveal_strlit("block");
    lemma_prefix_at("radar"@, "block"@, 0);
    reveal_strlit("packet");
    lemma_prefix_at("radar"@, "packet"@, 0);
    reveal_strlit("kanban");
    lemma_prefix_at("radar"@, "kanban"@, 0);
    reveal_strlit("architecture");
    lemma_prefix_at("radar"@, "architecture"@, 0);
    reveal_strlit("radar");
    lemma_prefix_holds("radar"@, "radar"@);
}

proof fn lemma_detect_name_20()
    ensures
        detect("treemap"@) == Some(DiagramKind::Treemap),
{
    reveal_strlit("treemap");
    lemma_plain_header("treemap"@);
    reveal_strlit("flowchart");
    lemma_prefix_at("treemap"@, "flowchart"@, 0);
    reveal_strlit("graph");
    lemma_prefix_at("treemap"@, "graph"@, 0);
    reveal_strlit("sequenceDiagram");
    lemma_prefix_at("treemap"@, "sequenceDiagram"@, 0);
    reveal_strlit("classDiagram");
    lemma_prefix_at("treemap"@, "classDiagram"@, 0);
    reveal_strlit("stateDiagram");
    lemma_prefix_at("treemap"@, "stateDiagram"@, 0);
    reveal_strlit("erDiagram");
    lemma_prefix_at("treemap"@, "erDiagram"@, 0);
    reveal_strlit("pie");
    lemma_prefix_at("treemap"@, "pie"@, 0);
    reveal_strlit("mindmap");
    lemma_prefix_at("treemap"@, "mindmap"@, 0);
    reveal_strlit("journey");
    lemma_prefix_at("treemap"@, "journey"@, 0);
    reveal_strlit("timeline");
    lemma_prefix_at("treemap"@, "timeline"@, 1);
    reveal_strlit("gantt");
    lemma_prefix_at("treemap"@, "gantt"@, 0);
    reveal_strlit("requirementDiagram");
    lemma_prefix_at("treemap"@, "requirementDiagram"@, 0);
    reveal_strlit("gitGraph");
    lemma_prefix_at("treemap"@, "gitGraph"@, 0);
    reveal_strlit("C4Context");
    lemma_prefix_at("treemap"@, "C4Context"@, 0);
    reveal_strlit("C4Container");
    lemma_prefix_at("treemap"@, "C4Container"@, 0);
    reveal_strlit("C4Component");
    lemma_prefix_at("treemap"@, "C4Component"@, 0);
    reveal_strlit("C4Dynamic");
    lemma_prefix_at("treemap"@, "C4Dynamic"@, 0);
    reveal_strlit("C4Deployment");
    lemma_prefix_at("treemap"@, "C4Deployment"@, 0);
    reveal_strlit("sankey");
    lemma_prefix_at("treemap"@, "sankey"@, 0);
    reveal_strlit("quadrantChart");
    lemma_prefix_at("treemap"@, "quadrantChart"@, 0);
    reveal_strlit("block");
    lemma_prefix_at("treemap"@, "block"@, 0);
    reveal_strlit("packet");
    lemma_prefix_at("treemap"@, "packet"@, 0);
    reveal_strlit("kanban");
    lemma_prefix_at("treemap"@, "kanban"@, 0);
    reveal_strlit("architecture");
    lemma_prefix_at("treemap"@, "architecture"@, 0);
    reveal_strlit("radar");
    lemma_prefix_at("treemap"@, "radar"@, 0);
    reveal_strlit("treemap");
    lemma_prefix_holds("treemap"@, "treemap"@);
}

proof fn lemma_detect_name_21()
    ensures
        detect("xychart"@) == Some(DiagramKind::XYChart),
{
    reveal_strlit("xychart");
    lemma_plain_header("xychart"@);
    reveal_strlit("flowchart");
    lemma_prefix_at("xychart"@, "flowchart"@, 0);
    reveal_strlit("graph");
    lemma_prefix_at("xychart"@, "graph"@, 0);
    reveal_strlit("sequenceDiagram");
    lemma_prefix_at("xychart"@, "sequenceDiagram"@, 0);
    reveal_strlit("classDiagram");
    lemma_prefix_at("xychart"@, "classDiagram"@, 0);
    reveal_strlit("stateDiagram");
    lemma_prefix_at("xychart"@, "stateDiagram"@, 0);
    reveal_strlit("erDiagram");
    lemma_prefix_at("xychart"@, "erDiagram"@, 0);
    reveal_strlit("pie");
    lemma_prefix_at("xychart"@, "pie"@, 0);
    reveal_strlit("mindmap");
    lemma_prefix_at("xychart"@, "mindmap"@, 0);
    reveal_strlit("journey");
    lemma_prefix_at("xychart"@, "journey"@, 0);
    reveal_strlit("timeline");
    lemma_prefix_at("xychart"@, "timeline"@, 0);
    reveal_strlit("gantt");
    lemma_prefix_at("xychart"@, "gantt"@, 0);
    reveal_strlit("requirementDiagram");
    lemma_prefix_at("xychart"@, "requirementDiagram"@, 0);
    reveal_strlit("gitGraph");
    lemma_prefix_at("xychart"@, "gitGraph"@, 0);
    reveal_strlit("C4Context");
    lemma_prefix_at("xychart"@, "C4Context"@, 0);
    reveal_strlit("C4Container");
    lemma_prefix_at("xychart"@, "C4Container"@, 0);
    reveal_strlit("C4Component");
    lemma_prefix_at("xychart"@, "C4Component"@, 0);
    reveal_strlit("C4Dynamic");
    lemma_prefix_at("xychart"@, "C4Dynamic"@, 0);
    reveal_strlit("C4Deployment");
    lemma_prefix_at("xychart"@, "C4Deployment"@, 0);
    reveal_strlit("sankey");
    lemma_prefix_at("xychart"@, "sankey"@, 0);
    reveal_strlit("quadrantChart");
    lemma_prefix_at("xychart"@, "quadrantChart"@, 0);
    reveal_strlit("block");
    lemma_prefix_at("xychart"@, "block"@, 0);
    reveal_strlit("packet");
    lemma_prefix_at("xychart"@, "packet"@, 0);
    reveal_strlit("kanban");
    lemma_prefix_at("xychart"@, "kanban"@, 0);
    reveal_strlit("architecture");
    lemma_prefix_at("xychart"@, "architecture"@, 0);
    reveal_strlit("radar");
    lemma_prefix_at("xychart"@, "radar"@, 0);
    reveal_strlit("treemap");
    lemma_prefix_at("xychart"@, "treemap"@, 0);
    reveal_strlit("xychart");
    lemma_prefix_holds("xychart"@, "xychart"@);
}

/// The diagram types in the order of their names.
pub open spec fn kind_list() -> Seq<DiagramKind> {
    seq![
        DiagramKind::Flowchart, DiagramKind::Sequence, DiagramKind::Class, DiagramKind::State,
        DiagramKind::Er, DiagramKind::Pie, DiagramKind::Mindmap, DiagramKind::Journey, DiagramKind::Timeline,
        DiagramKind::Gantt, DiagramKind::Requirement, DiagramKind::GitGraph, DiagramKind::C4, DiagramKind::Sankey,
        DiagramKind::Quadrant, DiagramKind::Block, DiagramKind::Packet, DiagramKind::Kanban,
        DiagramKind::Architecture, DiagramKind::Radar, DiagramKind::Treemap, DiagramKind::XYChart,
    ]
}

proof fn lemma_names_detect()
    ensures
        forall|i: int| 0 <= i < 22 ==> detect(#[trigger] kind_names()[i]) == Some(kind_list()[i]),
{
    lemma_detect_name_0();
    lemma_detect_name_1();
    lemma_detect_name_2();
    lemma_detect_name_3();
    lemma_detect_name_4();
    lemma_detect_name_5();
    lemma_detect_name_6();
    lemma_detect_name_7();
    lemma_detect_name_8();
    lemma_detect_name_9();
    lemma_detect_name_10();
    lemma_detect_name_11();
    lemma_detect_name_12();
    lemma_detect_name_13();
    lemma_detect_name_14();
    lemma_detect_name_15();
    lemma_detect_name_16();
    lemma_detect_name_17();
    lemma_detect_name_18();
    lemma_detect_name_19();
    lemma_detect_name_20();
    lemma_detect_name_21();
    let l = kind_list();
    let ns = kind_names();
    assert(ns[0] == "flowchart"@); assert(ns[1] == "sequenceDiagram"@); assert(ns[2] == "classDiagram"@);
    assert(ns[3] == "stateDiagram-v2"@); assert(ns[4] == "erDiagram"@); assert(ns[5] == "pie"@);
    assert(ns[6] == "mindmap"@); assert(ns[7] == "journey"@); assert(ns[8] == "timeline"@);
    assert(ns[9] == "gantt"@); assert(ns[10] == "requirementDiagram"@); assert(ns[11] == "gitGraph"@);
    assert(ns[12] == "C4Context"@); assert(ns[13] == "sankey"@); assert(ns[14] == "quadrantChart"@);
    assert(ns[15] == "block"@); assert(ns[16] == "packet"@); assert(ns[17] == "kanban"@);
    assert(ns[18] == "architecture"@); assert(ns[19] == "radar"@); assert(ns[20] == "treemap"@);
    assert(ns[21] == "xychart"@);
}

proof fn lemma_kind_list_distinct()
    ensures
        kind_list().no_duplicates(),
        forall|k: DiagramKind| kind_list().contains(k),
{
    let l = kind_list();
    assert forall|a: int, b: int| 0 <= a < l.len() && 0 <= b < l.len() && a != b implies l[a] != l[b] by {
    }
    assert forall|k: DiagramKind| l.contains(k) by {
        let i: int = match k {
            DiagramKind::Flowchart => 0, DiagramKind::Sequence => 1, DiagramKind::Class => 2, DiagramKind::State => 3,
            DiagramKind::Er => 4, DiagramKind::Pie => 5, DiagramKind::Mindmap => 6, DiagramKind::Journey => 7,
            DiagramKind::Timeline => 8, DiagramKind::Gantt => 9, DiagramKind::Requirement => 10, DiagramKind::GitGraph => 11,
            DiagramKind::C4 => 12, DiagramKind::Sankey => 13, DiagramKind::Quadrant => 14, DiagramKind::Block => 15,
            DiagramKind::Packet => 16, DiagramKind::Kanban => 17, DiagramKind::Architecture => 18, DiagramKind::Radar => 19,
            DiagramKind::Treemap => 20, DiagramKind::XYChart => 21,
        };
        assert(l[i] == k);
    }
}

/// Law: the names of all diagram types name them one to one. There are 22
/// names; detecting each name gives the type at the same place, and every
/// type occurs exactly once.
pub proof fn law_names_detect_kinds()
    ensures
        kind_names().len() == 22,
        kind_list().len() == 22,
        forall|i: int| 0 <= i < 22 ==> detect(#[trigger] kind_names()[i]) == Some(kind_list()[i]),
        kind_list().no_duplicates(),
        kind_names().no_duplicates(),
        forall|k: DiagramKind| kind_list().contains(k),
{
    lemma_names_detect();
    lemma_kind_list_distinct();
    let l = kind_list();
    let ns = kind_names();
    assert forall|a: int, b: int| 0 <= a < ns.len() && 0 <= b < ns.len() && a != b implies ns[a] != ns[b] by {
        if ns[a] == ns[b] {
            assert(detect(ns[a]) == Some(l[a]));
            assert(detect(ns[b]) == Some(l[b]));
        }
    }
}

} // verus!
