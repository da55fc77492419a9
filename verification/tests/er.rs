use mermaid_canvas::er::parse_er;
use mermaid_canvas::diagram::{DiagramKind, Direction, EdgeStyle, NodeShape};

#[test]
fn test_simple_entity() {
    let input = "erDiagram\n    Customer";
    let ast = parse_er(input).unwrap();
    assert_eq!(ast.kind, DiagramKind::Er);
    assert_eq!(ast.node_count(), 1);
    assert!(ast.contains_node("Customer"));
}

#[test]
fn test_entity_with_attributes() {
    let input = "erDiagram\n    Customer {\n        string name\n        int age\n    }";
    let ast = parse_er(input).unwrap();
    let node = ast.node("Customer").unwrap();
    assert!(node.label.contains("name"));
    assert!(node.label.contains("age"));
}

#[test]
fn test_relation() {
    let input = "erDiagram\n    Customer ||--o{ Order : places";
    let ast = parse_er(input).unwrap();
    assert_eq!(ast.edge_count(), 1);
    let edge = &ast.edges[0];
    assert_eq!(edge.from, "Customer");
    assert_eq!(edge.to, "Order");
    assert!(!edge.directed);
    assert_eq!(edge.label.as_deref(), Some("places"));
}

#[test]
fn test_relation_cardinality() {
    let input = "erDiagram\n    CAR ||--o{ PERSON : drives";
    let ast = parse_er(input).unwrap();
    assert_eq!(ast.edge_count(), 1);
}

#[test]
fn test_multiple_entities_and_relations() {
    let input = "\
erDiagram
    Customer ||--o{ Order : places
    Order ||--|{ LineItem : contains
    Customer {
        string name
    }
    Order {
        int id
    }";
    let ast = parse_er(input).unwrap();
    assert_eq!(ast.node_count(), 3);
    assert_eq!(ast.edge_count(), 2);
    assert!(ast.node("Customer").unwrap().label.contains("name"));
    assert!(ast.node("Order").unwrap().label.contains("id"));
}

#[test]
fn er_label_is_name_rule_and_attributes() {
    let ast = parse_er("erDiagram\nCustomer {\nstring name\nint age }").unwrap();
    assert_eq!(ast.node("Customer").unwrap().label, "Customer\n---\nstring name\nint age");
    assert_eq!(ast.node("Customer").unwrap().shape, NodeShape::RoundRect);
}

#[test]
fn er_cardinalities_label_an_unlabelled_relation() {
    let ast = parse_er("erDiagram\nA ||..o{ B\nC }|--o| D\nE --|| F").unwrap();
    assert_eq!(ast.edges[0].label.as_deref(), Some("1 : 0..*"));
    assert_eq!(ast.edges[0].style, EdgeStyle::Dotted);
    assert_eq!(ast.edges[1].label.as_deref(), Some("1..* : 0..1"));
    assert_eq!(ast.edges[2].label.as_deref(), Some("1"));
}

#[test]
fn er_direction_and_quoted_names() {
    let ast = parse_er("erDiagram\ndirection LR\n\"Big Entity\"\ndirection XY").unwrap();
    assert_eq!(ast.direction, Direction::LeftToRight);
    assert!(ast.contains_node("Big Entity"));
    assert!(ast.contains_node("direction XY"));
}
