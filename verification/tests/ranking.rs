use std::collections::HashMap;
use mermaid_canvas::ranking::{order_nodes, group_ranks_by_subgraph};
use mermaid_canvas::diagram::{DiagramEdge, EdgeStyle};

fn make_edge(from: &str, to: &str) -> DiagramEdge {
    DiagramEdge {
        from: from.to_string(),
        to: to.to_string(),
        label: None,
        start_label: None,
        end_label: None,
        directed: true,
        arrow_start: None,
        arrow_end: None,
        start_decoration: None,
        end_decoration: None,
        style: EdgeStyle::Solid,
    }
}

fn names(v: &[&str]) -> Vec<String> {
    v.iter().map(|s| s.to_string()).collect()
}

#[test]
fn test_order_nodes_reduces_crossings() {
    let mut ranks = vec![
        vec!["A".to_string(), "B".to_string()],
        vec!["C".to_string(), "D".to_string()],
    ];
    let edges = vec![make_edge("A", "D"), make_edge("B", "C")];
    let rank_map = HashMap::from([
        ("A".to_string(), 0),
        ("B".to_string(), 0),
        ("C".to_string(), 1),
        ("D".to_string(), 1),
    ]);
    order_nodes(&mut ranks, &edges, 4, &rank_map);
    let valid = (ranks[0] == ["A", "B"] && ranks[1] == ["D", "C"])
        || (ranks[0] == ["B", "A"] && ranks[1] == ["C", "D"]);
    assert!(valid, "Expected crossing-free ordering, got {:?} / {:?}", ranks[0], ranks[1]);
}

#[test]
fn test_order_nodes_single_rank() {
    let mut ranks = vec![vec!["A".to_string()]];
    let edges: Vec<DiagramEdge> = vec![];
    let rank_map = HashMap::from([("A".to_string(), 0)]);
    order_nodes(&mut ranks, &edges, 4, &rank_map);
    assert_eq!(ranks[0], vec!["A"], "Single node should remain unchanged");
}

#[test]
fn order_nodes_uses_mean_positions_and_keeps_ties_stable() {
    // X's predecessors sit at 0 and 2 (mean 1), Y's at 1, Z has none (keeps index 2).
    let mut ranks = vec![names(&["P", "Q", "R"]), names(&["X", "Y", "Z"])];
    let edges = vec![make_edge("P", "X"), make_edge("R", "X"), make_edge("Q", "Y"), make_edge("Z", "Z")];
    order_nodes(&mut ranks, &edges, 1, &HashMap::new());
    assert_eq!(ranks[1], names(&["X", "Y", "Z"]));
    assert_eq!(ranks[0], names(&["P", "Q", "R"]));
}

#[test]
fn order_nodes_bottom_up_pass_sorts_upper_ranks() {
    let mut ranks = vec![names(&["A", "B"]), names(&["C", "D"])];
    let edges = vec![make_edge("A", "D"), make_edge("B", "C")];
    order_nodes(&mut ranks, &edges, 0, &HashMap::new());
    assert_eq!(ranks, vec![names(&["A", "B"]), names(&["C", "D"])]);
    // Already free of crossings: a top-down and a bottom-up pass keep both ranks.
    let mut ranks2 = vec![names(&["B", "A"]), names(&["C", "D"])];
    order_nodes(&mut ranks2, &edges, 2, &HashMap::new());
    assert_eq!(ranks2[1], names(&["C", "D"]));
    assert_eq!(ranks2[0], names(&["B", "A"]));
}

use mermaid_canvas::layering::assign_ranks;
use mermaid_canvas::diagram::{DiagramAst, DiagramKind, DiagramNode, NodeShape, NodeStyle};

fn make_node(id: &str, label: &str) -> DiagramNode {
    DiagramNode {
        id: id.to_string(),
        label: label.to_string(),
        shape: NodeShape::RoundRect,
        style: NodeStyle { fill: None, stroke: None, stroke_width: None, color: None },
        link: None,
        subgraph: None,
    }
}

#[test]
fn test_empty_ast() {
    let ast = DiagramAst::new(DiagramKind::Flowchart);
    let (ranks, rank_map) = assign_ranks(&ast);
    assert!(ranks.is_empty());
    assert!(rank_map.is_empty());
}

#[test]
fn test_single_node() {
    let mut ast = DiagramAst::new(DiagramKind::Flowchart);
    ast.add_node(make_node("A", "Node A"));
    let (ranks, rank_map) = assign_ranks(&ast);
    assert_eq!(ranks.len(), 1);
    assert_eq!(ranks[0], vec!["A"]);
    assert_eq!(rank_map.get("A"), Some(0));
}

#[test]
fn test_linear_chain() {
    let mut ast = DiagramAst::new(DiagramKind::Flowchart);
    ast.add_node(make_node("A", "A"));
    ast.add_node(make_node("B", "B"));
    ast.add_node(make_node("C", "C"));
    ast.add_edge(make_edge("A", "B"));
    ast.add_edge(make_edge("B", "C"));
    let (ranks, rank_map) = assign_ranks(&ast);
    assert_eq!(ranks.len(), 3);
    assert_eq!(rank_map.get("A"), Some(0));
    assert_eq!(rank_map.get("B"), Some(1));
    assert_eq!(rank_map.get("C"), Some(2));
}

#[test]
fn test_diamond_shape() {
    let mut ast = DiagramAst::new(DiagramKind::Flowchart);
    ast.add_node(make_node("A", "A"));
    ast.add_node(make_node("B", "B"));
    ast.add_node(make_node("C", "C"));
    ast.add_node(make_node("D", "D"));
    ast.add_edge(make_edge("A", "B"));
    ast.add_edge(make_edge("A", "C"));
    ast.add_edge(make_edge("B", "D"));
    ast.add_edge(make_edge("C", "D"));
    let (_ranks, rank_map) = assign_ranks(&ast);
    assert_eq!(rank_map.get("A"), Some(0));
    assert_eq!(rank_map.get("D"), Some(2));
    assert!(rank_map.get("B") == Some(1) || rank_map.get("C") == Some(1));
}

#[test]
fn test_20_node_linear_chain() {
    let mut ast = DiagramAst::new(DiagramKind::Flowchart);
    for i in 0..20 {
        let id = format!("N{}", i);
        ast.add_node(make_node(&id, &id));
    }
    for i in 0..19 {
        ast.add_edge(make_edge(&format!("N{}", i), &format!("N{}", i + 1)));
    }
    let (ranks, rank_map) = assign_ranks(&ast);
    assert_eq!(ranks.len(), 20, "20-node linear chain should produce 20 ranks");
    assert_eq!(rank_map.get("N0"), Some(0));
    assert_eq!(rank_map.get("N19"), Some(19));
}

#[test]
fn test_wide_graph_one_source_to_10_targets() {
    let mut ast = DiagramAst::new(DiagramKind::Flowchart);
    ast.add_node(make_node("S", "Source"));
    for i in 0..10 {
        let id = format!("T{}", i);
        ast.add_node(make_node(&id, &id));
        ast.add_edge(make_edge("S", &id));
    }
    let (ranks, rank_map) = assign_ranks(&ast);
    assert_eq!(rank_map.get("S"), Some(0), "Source should be at rank 0");
    for i in 0..10 {
        let id = format!("T{}", i);
        assert_eq!(rank_map.get(&id), Some(1), "Target {} should be at rank 1", id);
    }
    assert_eq!(ranks.len(), 2, "Should have exactly 2 ranks");
    assert_eq!(ranks[1].len(), 10, "Rank 1 should contain all 10 targets");
}

#[test]
fn test_disconnected_components() {
    let mut ast = DiagramAst::new(DiagramKind::Flowchart);
    ast.add_node(make_node("A", "A"));
    ast.add_node(make_node("B", "B"));
    ast.add_edge(make_edge("A", "B"));
    ast.add_node(make_node("C", "C"));
    ast.add_node(make_node("D", "D"));
    ast.add_edge(make_edge("C", "D"));
    let (ranks, rank_map) = assign_ranks(&ast);
    assert_eq!(rank_map.get("A"), Some(0));
    assert_eq!(rank_map.get("C"), Some(0));
    assert_eq!(rank_map.get("B"), Some(1));
    assert_eq!(rank_map.get("D"), Some(1));
    assert_eq!(ranks.len(), 2);
    assert_eq!(ranks[0].len(), 2, "Rank 0 should have 2 sources");
    assert_eq!(ranks[1].len(), 2, "Rank 1 should have 2 targets");
}

#[test]
fn test_back_edges_no_panic() {
    let mut ast = DiagramAst::new(DiagramKind::Flowchart);
    ast.add_node(make_node("A", "A"));
    ast.add_node(make_node("B", "B"));
    ast.add_node(make_node("C", "C"));
    ast.add_node(make_node("D", "D"));
    ast.add_edge(make_edge("A", "B"));
    ast.add_edge(make_edge("B", "C"));
    ast.add_edge(make_edge("C", "D"));
    ast.add_edge(make_edge("D", "A"));
    let (ranks, rank_map) = assign_ranks(&ast);
    assert_eq!(rank_map.len(), 4, "All 4 nodes should be ranked");
    assert!(!ranks.is_empty(), "Should produce at least one rank");
}

#[test]
fn test_empty_ast_complex() {
    let ast = DiagramAst::new(DiagramKind::Flowchart);
    let (ranks, rank_map) = assign_ranks(&ast);
    assert!(ranks.is_empty());
    assert!(rank_map.is_empty());
}

#[test]
fn test_complex_diamond_with_extra_branches() {
    let mut ast = DiagramAst::new(DiagramKind::Flowchart);
    for id in &["A", "B", "C", "D", "E", "F"] {
        ast.add_node(make_node(id, id));
    }
    ast.add_edge(make_edge("A", "B"));
    ast.add_edge(make_edge("A", "C"));
    ast.add_edge(make_edge("B", "D"));
    ast.add_edge(make_edge("C", "D"));
    ast.add_edge(make_edge("B", "E"));
    ast.add_edge(make_edge("C", "F"));
    let (ranks, rank_map) = assign_ranks(&ast);
    assert_eq!(rank_map.get("A"), Some(0), "A should be at rank 0");
    assert_eq!(rank_map.get("D"), Some(2), "D should be at rank 2");
    assert!(rank_map.get("B") == Some(1) && rank_map.get("C") == Some(1), "B and C should be at rank 1");
    assert!(rank_map.get("E") == Some(2) && rank_map.get("F") == Some(2), "E and F should be at rank 2");
    assert!(ranks.len() >= 3, "Should have at least 3 ranks");
}

#[test]
fn ranks_of_a_cycle_reached_from_the_first_node() {
    // No node lacks a predecessor: the walk starts at A; closing the cycle raises A.
    let mut ast = DiagramAst::new(DiagramKind::Flowchart);
    for id in &["A", "B", "C", "D"] {
        ast.add_node(make_node(id, id));
    }
    ast.add_edge(make_edge("A", "B"));
    ast.add_edge(make_edge("B", "C"));
    ast.add_edge(make_edge("C", "D"));
    ast.add_edge(make_edge("D", "A"));
    let (ranks, rank_map) = assign_ranks(&ast);
    assert_eq!(ranks, vec![vec!["B".to_string()], vec!["C".to_string()], vec!["D".to_string()], vec!["A".to_string()]]);
    assert_eq!(rank_map.get("A"), Some(3));
    assert_eq!(rank_map.get("B"), Some(0));
}

#[test]
fn ranks_fall_back_to_index_for_a_node_waiting_on_a_cycle() {
    // S -> X, X <-> Y: X waits on Y forever; X and Y keep their indices 1 and 2.
    let mut ast = DiagramAst::new(DiagramKind::Flowchart);
    for id in &["S", "X", "Y"] {
        ast.add_node(make_node(id, id));
    }
    ast.add_edge(make_edge("S", "X"));
    ast.add_edge(make_edge("X", "Y"));
    ast.add_edge(make_edge("Y", "X"));
    ast.add_edge(make_edge("Z", "S"));
    let (ranks, rank_map) = assign_ranks(&ast);
    assert_eq!(rank_map.get("S"), Some(0));
    assert_eq!(rank_map.get("X"), Some(1));
    assert_eq!(rank_map.get("Y"), Some(2));
    assert_eq!(ranks.len(), 3);
}

fn make_subgraph(id: &str, nodes: &[&str]) -> mermaid_canvas::diagram::Subgraph {
    mermaid_canvas::diagram::Subgraph {
        id: id.to_string(),
        label: id.to_string(),
        direction: None,
        nodes: names(nodes),
        style: mermaid_canvas::diagram::NodeStyle { fill: None, stroke: None, stroke_width: None, color: None },
    }
}

#[test]
fn grouping_puts_subgraph_members_side_by_side() {
    let mut ast = DiagramAst::new(DiagramKind::Flowchart);
    ast.add_subgraph(make_subgraph("one", &["B", "D"]));
    ast.add_subgraph(make_subgraph("two", &["A", "B"]));
    let mut ranks = vec![names(&["A", "C", "D", "B", "E"]), names(&["F"])];
    group_ranks_by_subgraph(&mut ranks, &ast);
    // B and D take key 0, A key 1, C and E no subgraph: stable within each key.
    assert_eq!(ranks[0], names(&["D", "B", "A", "C", "E"]));
    assert_eq!(ranks[1], names(&["F"]));
}

#[test]
fn grouping_without_subgraphs_changes_nothing() {
    let ast = DiagramAst::new(DiagramKind::Flowchart);
    let mut ranks = vec![names(&["B", "A"])];
    group_ranks_by_subgraph(&mut ranks, &ast);
    assert_eq!(ranks[0], names(&["B", "A"]));
}

#[test]
fn state_diagram_cycle_members_keep_source_order() {
    // The back edge Transition --> Ready must not lift Ready below Transition.
    let src = "stateDiagram-v2\n\
               [*] --> Loading\n\
               Loading --> Ready : mounted\n\
               Ready --> Transition : interact\n\
               Transition --> Ready\n\
               Ready --> [*]";
    let ast = mermaid_canvas::parser::parse_mermaid(src).expect("parse state diagram");
    let (_ranks, rank_map) = assign_ranks(&ast);
    let ready = rank_map.get("Ready").expect("Ready ranked");
    let transition = rank_map.get("Transition").expect("Transition ranked");
    let loading = rank_map.get("Loading").expect("Loading ranked");
    assert!(loading < ready, "Loading ({loading}) must rank above Ready ({ready})");
    assert!(ready < transition, "Ready ({ready}) must rank above Transition ({transition})");
}

#[test]
fn ranks_follow_the_longest_path_on_acyclic_graphs() {
    let src = "flowchart TD\n    A --> B\n    A --> C\n    B --> D\n    C --> E\n    E --> D\n    A --> D";
    let ast = mermaid_canvas::parser::parse_mermaid(src).expect("parse");
    let (ranks, rank_map) = assign_ranks(&ast);
    assert_eq!(rank_map.get("A"), Some(0));
    assert_eq!(rank_map.get("B"), Some(1));
    assert_eq!(rank_map.get("C"), Some(1));
    assert_eq!(rank_map.get("E"), Some(2));
    assert_eq!(rank_map.get("D"), Some(3));
    assert_eq!(ranks.len(), 4);
}

#[test]
fn ranks_partition_nodes_in_declaration_order() {
    let mut ast = DiagramAst::new(DiagramKind::Flowchart);
    for id in ["D", "A", "C", "B", "E"] {
        ast.add_node(make_node(id, id));
    }
    ast.add_edge(make_edge("A", "C"));
    ast.add_edge(make_edge("B", "C"));
    ast.add_edge(make_edge("C", "E"));
    let (ranks, rank_map) = assign_ranks(&ast);
    assert_eq!(ranks, vec![names(&["D", "A", "B"]), names(&["C"]), names(&["E"])]);
    for id in ["D", "A", "C", "B", "E"] {
        let r = rank_map.get(id).unwrap();
        let holding: Vec<usize> = (0..ranks.len()).filter(|k| ranks[*k].iter().any(|x| x == id)).collect();
        assert_eq!(holding, vec![r]);
    }
}
