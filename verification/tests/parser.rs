use mermaid_canvas::parser::{parse_mermaid, try_parse_mermaid};
use mermaid_canvas::diagram::DiagramKind;
use mermaid_canvas::error::CoreError;

#[test]
fn mermaid_dispatches_on_the_header() {
    assert_eq!(parse_mermaid("flowchart LR\nA --> B").unwrap().kind, DiagramKind::Flowchart);
    assert_eq!(parse_mermaid("sequenceDiagram\nA->>B: x").unwrap().kind, DiagramKind::Sequence);
    assert_eq!(parse_mermaid("classDiagram\nclass A").unwrap().kind, DiagramKind::Class);
    assert_eq!(parse_mermaid("stateDiagram-v2\n[*] --> S").unwrap().kind, DiagramKind::State);
    assert_eq!(parse_mermaid("erDiagram\nA ||--o{ B : r").unwrap().kind, DiagramKind::Er);
    assert_eq!(parse_mermaid("requirementDiagram\nrequirement r").unwrap().kind, DiagramKind::Requirement);
    assert_eq!(parse_mermaid("packet\n0-7: a").unwrap().kind, DiagramKind::Packet);
    assert_eq!(parse_mermaid("---\ntitle: t\n---\nerDiagram\nA").unwrap().kind, DiagramKind::Er);
}

#[test]
fn mermaid_unknown_type_is_a_parse_error() {
    match parse_mermaid("something random") {
        Err(CoreError::ParseError { source }) => assert_eq!(source, "无法识别图表类型"),
        other => panic!("unexpected {:?}", other),
    }
}

#[test]
fn mermaid_type_without_parser_is_named_in_the_error() {
    match parse_mermaid("pie title test\n\"A\" : 1") {
        Err(CoreError::ParseError { source }) => assert_eq!(source, "图表类型 Pie 尚未实现"),
        other => panic!("unexpected {:?}", other),
    }
    match parse_mermaid("xychart-beta\n") {
        Err(CoreError::ParseError { source }) => assert_eq!(source, "图表类型 XYChart 尚未实现"),
        other => panic!("unexpected {:?}", other),
    }
}

#[test]
fn try_parse_mermaid_refuses_only_unreadable_flowcharts() {
    assert!(try_parse_mermaid("flowchart TD\n    A[/]").is_none());
    match try_parse_mermaid("flowchart TD\n    A --> B") {
        Some(Ok(ast)) => assert_eq!(ast.kind, DiagramKind::Flowchart),
        _ => panic!("expected a parsed flowchart"),
    }
    match try_parse_mermaid("pie\n    \"a\" : 1") {
        Some(Err(CoreError::ParseError { .. })) => {}
        _ => panic!("expected an unsupported-type error"),
    }
    match try_parse_mermaid("nothing here") {
        Some(Err(CoreError::ParseError { .. })) => {}
        _ => panic!("expected an unknown-type error"),
    }
}
