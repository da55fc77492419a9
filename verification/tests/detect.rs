use mermaid_canvas::detect::detect_diagram_kind;
use mermaid_canvas::diagram::DiagramKind;

#[test]
fn test_detect_flowchart() {
    assert_eq!(detect_diagram_kind("flowchart TD\n    A --> B"), Some(DiagramKind::Flowchart));
    assert_eq!(detect_diagram_kind("graph LR\n    A --> B"), Some(DiagramKind::Flowchart));
}

#[test]
fn test_detect_class() {
    assert_eq!(detect_diagram_kind("classDiagram\n    Animal <|-- Dog"), Some(DiagramKind::Class));
}

#[test]
fn test_detect_state() {
    assert_eq!(detect_diagram_kind("stateDiagram-v2\n    [*] --> Active"), Some(DiagramKind::State));
}

#[test]
fn test_detect_sequence() {
    assert_eq!(detect_diagram_kind("sequenceDiagram\n    A->>B: hello"), Some(DiagramKind::Sequence));
}

#[test]
fn test_detect_all_types() {
    assert_eq!(detect_diagram_kind("erDiagram\n  A ||--o{ B"), Some(DiagramKind::Er));
    assert_eq!(detect_diagram_kind("pie title test\n  \"A\" : 1"), Some(DiagramKind::Pie));
    assert_eq!(detect_diagram_kind("mindmap\n  root"), Some(DiagramKind::Mindmap));
    assert_eq!(detect_diagram_kind("journey\n  title test"), Some(DiagramKind::Journey));
    assert_eq!(detect_diagram_kind("gantt\n  title test"), Some(DiagramKind::Gantt));
    assert_eq!(detect_diagram_kind("gitGraph\n  commit"), Some(DiagramKind::GitGraph));
    assert_eq!(detect_diagram_kind("C4Context\n  title test"), Some(DiagramKind::C4));
    assert_eq!(detect_diagram_kind("sankey\n  A,B,10"), Some(DiagramKind::Sankey));
    assert_eq!(detect_diagram_kind("quadrantChart\n  title test"), Some(DiagramKind::Quadrant));
    assert_eq!(detect_diagram_kind("xychart\n  title test"), Some(DiagramKind::XYChart));
    assert_eq!(detect_diagram_kind("timeline\n  title test"), Some(DiagramKind::Timeline));
    assert_eq!(detect_diagram_kind("requirementDiagram\n  test"), Some(DiagramKind::Requirement));
    assert_eq!(detect_diagram_kind("packet\n  title test"), Some(DiagramKind::Packet));
    assert_eq!(detect_diagram_kind("kanban\n  todo"), Some(DiagramKind::Kanban));
    assert_eq!(detect_diagram_kind("architecture\n  test"), Some(DiagramKind::Architecture));
    assert_eq!(detect_diagram_kind("radar\n  title test"), Some(DiagramKind::Radar));
    assert_eq!(detect_diagram_kind("treemap\n  title test"), Some(DiagramKind::Treemap));
    assert_eq!(detect_diagram_kind("block\n  test"), Some(DiagramKind::Block));
}

#[test]
fn test_detect_unknown() {
    assert_eq!(detect_diagram_kind("something random"), None);
    assert_eq!(detect_diagram_kind(""), None);
}

#[test]
fn test_detect_with_frontmatter() {
    let input = "---\ntitle: My Diagram\nauthor: test\n---\nflowchart TD\n    A --> B";
    assert_eq!(detect_diagram_kind(input), Some(DiagramKind::Flowchart));
    let input2 = "---\nconfig: true\n---\nclassDiagram\n    A <|-- B";
    assert_eq!(detect_diagram_kind(input2), Some(DiagramKind::Class));
    let input3 = "---\ntitle: My State\n---\nstateDiagram-v2\n    [*] --> S";
    assert_eq!(detect_diagram_kind(input3), Some(DiagramKind::State));
}

#[test]
fn detect_unterminated_frontmatter_falls_back_to_first_line() {
    assert_eq!(detect_diagram_kind("---\nflowchart TD"), None);
    assert_eq!(detect_diagram_kind("  classDiagram  \n"), Some(DiagramKind::Class));
}

#[test]
fn all_names_lists_every_kind() {
    let names = DiagramKind::all_names();
    assert_eq!(names.len(), 22);
    assert_eq!(names[0], "flowchart");
    assert_eq!(names[21], "xychart");
}
