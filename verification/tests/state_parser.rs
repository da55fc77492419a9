use mermaid_canvas::state_parser::parse_state;
use mermaid_canvas::diagram::{DiagramKind, NodeShape, Direction};

#[test]
fn test_simple_transition() {
    let input = "stateDiagram-v2\n    Idle --> Running : start\n    Running --> Idle : stop\n";
    let ast = parse_state(input).unwrap();
    assert_eq!(ast.kind, DiagramKind::State);
    assert_eq!(ast.edge_count(), 2);
    assert_eq!(ast.node_count(), 2);
    assert!(ast.contains_node("Idle"));
    assert!(ast.contains_node("Running"));
    let edge = &ast.edges[0];
    assert_eq!(edge.from, "Idle");
    assert_eq!(edge.to, "Running");
    assert_eq!(edge.label.as_deref(), Some("start"));
}

#[test]
fn test_start_end_states() {
    let input = "stateDiagram-v2\n    [*] --> Idle\n    Idle --> Running\n    Running --> [*]\n";
    let ast = parse_state(input).unwrap();
    assert_eq!(ast.edge_count(), 3);
    assert_eq!(ast.node_count(), 4);
    let start_id = "__start_root__";
    assert!(ast.contains_node(start_id));
    assert_eq!(ast.node(start_id).unwrap().shape, NodeShape::Circle);
    assert!(ast.node(start_id).unwrap().label.is_empty());
    let end_id = "__end_root__";
    assert!(ast.contains_node(end_id));
    assert_eq!(ast.node(end_id).unwrap().shape, NodeShape::DoubleCircle);
    assert!(ast.node(end_id).unwrap().label.is_empty());
    assert_eq!(ast.edges[0].from, start_id);
    assert_eq!(ast.edges[0].to, "Idle");
    assert_eq!(ast.edges[2].from, "Running");
    assert_eq!(ast.edges[2].to, end_id);
}

#[test]
fn test_composite_state() {
    let input = "stateDiagram-v2\n    state \"Active\" as active {\n        Idle --> Running\n    }\n";
    let ast = parse_state(input).unwrap();
    assert_eq!(ast.subgraphs.len(), 1);
    let sg = &ast.subgraphs[0];
    assert_eq!(sg.id, "active");
    assert_eq!(sg.label, "Active");
    assert!(sg.nodes.contains(&"Idle".to_string()));
    assert!(sg.nodes.contains(&"Running".to_string()));
    assert_eq!(ast.edge_count(), 1);
}

#[test]
fn test_fork_join() {
    let input = "stateDiagram-v2\n    state fork_state <<fork>>\n    state join_state <<join>>\n    Idle --> fork_state\n    fork_state --> Running\n    Running --> join_state\n    join_state --> Done\n";
    let ast = parse_state(input).unwrap();
    assert_eq!(ast.node("fork_state").unwrap().shape, NodeShape::Rectangle);
    assert_eq!(ast.node("join_state").unwrap().shape, NodeShape::Rectangle);
}

#[test]
fn test_choice() {
    let input = "stateDiagram-v2\n    state choice_state <<choice>>\n    Idle --> choice_state\n    choice_state --> Running : yes\n    choice_state --> Stopped : no\n";
    let ast = parse_state(input).unwrap();
    assert_eq!(ast.node("choice_state").unwrap().shape, NodeShape::Diamond);
}

#[test]
fn state_test_notes() {
    let input = "stateDiagram-v2\n    Idle\n    note left of Idle: Initial state\n";
    let ast = parse_state(input).unwrap();
    assert!(ast.contains_node("Idle"));
    assert!(ast.contains_node("__note_left_Idle__"));
    assert_eq!(ast.node("__note_left_Idle__").unwrap().label, "Initial state");
}

#[test]
fn test_description() {
    let input = "stateDiagram-v2\n    Idle : Waiting for input\n    Running : Processing data\n";
    let ast = parse_state(input).unwrap();
    assert!(ast.node("Idle").unwrap().label.contains("Waiting for input"));
    assert!(ast.node("Running").unwrap().label.contains("Processing data"));
}

#[test]
fn test_direction() {
    let input = "stateDiagram-v2\n    direction LR\n    A --> B\n";
    let ast = parse_state(input).unwrap();
    assert_eq!(ast.direction, Direction::LeftToRight);
}

#[test]
fn test_bidirectional_arrow() {
    let input = "stateDiagram-v2\n    A <-> B\n";
    let ast = parse_state(input).unwrap();
    assert_eq!(ast.edge_count(), 1);
    let edge = &ast.edges[0];
    assert!(edge.directed);
    assert!(edge.arrow_start.is_some());
    assert!(edge.arrow_end.is_some());
}

#[test]
fn test_state_alias() {
    let input = "stateDiagram-v2\n    state \"Waiting\" as W\n    state \"Running\" as R\n    W --> R\n";
    let ast = parse_state(input).unwrap();
    assert_eq!(ast.node("W").unwrap().label, "Waiting");
    assert_eq!(ast.node("R").unwrap().label, "Running");
}

#[test]
fn state_test_comments_and_blank_lines() {
    let input = "stateDiagram-v2\n    %% This is a comment\n    A --> B\n\n    %% Another comment\n    B --> C\n";
    let ast = parse_state(input).unwrap();
    assert_eq!(ast.edge_count(), 2);
}

#[test]
fn test_backward_arrow() {
    let input = "stateDiagram-v2\n    A <-- B\n";
    let ast = parse_state(input).unwrap();
    assert_eq!(ast.edge_count(), 1);
    let edge = &ast.edges[0];
    assert_eq!(edge.from, "A");
    assert_eq!(edge.to, "B");
    assert!(edge.arrow_start.is_some());
}

#[test]
fn state_inline_composite_body() {
    let input = "stateDiagram-v2\n    state Outer { A --> B } \n    C --> D\n";
    let ast = parse_state(input).unwrap();
    assert_eq!(ast.subgraphs.len(), 1);
    assert_eq!(ast.subgraphs[0].id, "Outer");
    assert_eq!(ast.subgraphs[0].nodes, vec!["A".to_string(), "B".to_string()]);
    assert_eq!(ast.node("A").unwrap().subgraph, Some(0));
    assert_eq!(ast.node("C").unwrap().subgraph, None);
    assert_eq!(ast.edge_count(), 2);
}

#[test]
fn state_description_label_layout() {
    let input = "stateDiagram-v2\n    state \"Busy\" as B\n    B : first\n    B : second\n";
    let ast = parse_state(input).unwrap();
    assert_eq!(ast.node("B").unwrap().label, "Busy");
    let input2 = "stateDiagram-v2\n    B : first\n    B : second\n";
    let ast2 = parse_state(input2).unwrap();
    assert_eq!(ast2.node("B").unwrap().label, "B\n---\nfirst");
}

#[test]
fn state_scoped_start_states() {
    let input = "stateDiagram-v2\n    state Box {\n        [*] --> Inner\n    }\n    [*] --> Box\n";
    let ast = parse_state(input).unwrap();
    assert!(ast.contains_node("__start_Box__"));
    assert!(ast.contains_node("__start_root__"));
}

#[test]
fn state_semicolon_statements() {
    let input = "stateDiagram-v2\n    A --> B; B --> C\n";
    let ast = parse_state(input).unwrap();
    assert_eq!(ast.edge_count(), 2);
    assert_eq!(ast.node_order(), vec!["A".to_string(), "B".to_string(), "C".to_string()]);
}
