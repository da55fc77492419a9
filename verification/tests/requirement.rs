use mermaid_canvas::requirement::parse_requirement;
use mermaid_canvas::diagram::{DiagramKind, EdgeArrowhead};

#[test]
fn test_simple_requirement() {
    let input = "requirementDiagram\n    requirement test_req";
    let ast = parse_requirement(input).unwrap();
    assert_eq!(ast.kind, DiagramKind::Requirement);
    assert_eq!(ast.node_count(), 1);
    assert!(ast.contains_node("test_req"));
}

#[test]
fn test_requirement_with_attributes() {
    let input = "\
requirementDiagram
    requirement test_req {
        id: 1
        text: the test text
        risk: high
    }";
    let ast = parse_requirement(input).unwrap();
    let node = ast.node("test_req").unwrap();
    assert!(node.label.contains("<<Requirement>>"));
    assert!(node.label.contains("ID: 1"));
    assert!(node.label.contains("Text: the test text"));
}

#[test]
fn test_relation_traces() {
    let input = "\
requirementDiagram
    requirement req1
    requirement req2
    req1 -traces-> req2";
    let ast = parse_requirement(input).unwrap();
    assert_eq!(ast.edge_count(), 1);
    assert_eq!(ast.edges[0].label.as_deref(), Some("traces"));
    assert!(ast.edges[0].directed);
}

#[test]
fn test_relation_contains() {
    let input = "\
requirementDiagram
    requirement parent
    requirement child
    parent -contains-> child";
    let ast = parse_requirement(input).unwrap();
    assert_eq!(ast.edge_count(), 1);
    assert_eq!(ast.edges[0].label.as_deref(), Some("contains"));
}

#[test]
fn test_element() {
    let input = "\
requirementDiagram
    element my_element";
    let ast = parse_requirement(input).unwrap();
    assert_eq!(ast.node_count(), 1);
    assert!(ast.node("my_element").unwrap().label.contains("<<Element>>"));
}

#[test]
fn test_backward_relation() {
    let input = "\
requirementDiagram
    requirement A
    requirement B
    B <-derives- A";
    let ast = parse_requirement(input).unwrap();
    assert_eq!(ast.edge_count(), 1);
    assert_eq!(ast.edges[0].from, "A");
    assert_eq!(ast.edges[0].to, "B");
    assert_eq!(ast.edges[0].label.as_deref(), Some("derives"));
}

#[test]
fn requirement_full_label_and_attribute_keys() {
    let input = "requirementDiagram\nfunctionalRequirement r1 {\nverifyMethod: \"test\"\ndocRef: x\ncolour: red\nnote\n}";
    let ast = parse_requirement(input).unwrap();
    assert_eq!(
        ast.node("r1").unwrap().label,
        "<<Functional Requirement>>\nr1\nVerification: test\nDoc Ref: x\ncolour: red\nnote"
    );
}

#[test]
fn requirement_unknown_relation_type_is_no_edge() {
    let ast = parse_requirement("requirementDiagram\na -likes-> b\nc -satisfies-> d").unwrap();
    assert_eq!(ast.edge_count(), 1);
    assert_eq!(ast.edges[0].arrow_end, Some(EdgeArrowhead::Arrow));
    assert_eq!(ast.node("c").unwrap().label, "c");
    assert!(!ast.contains_node("a"));
}
