use mermaid_canvas::flowchart_parser::{parse_flowchart, parse_direction_token, flowchart_readable, try_parse_flowchart};
use mermaid_canvas::diagram::{DiagramKind, NodeShape, EdgeStyle, Direction, EdgeDecoration, EdgeArrowhead};

#[test]
fn test_parse_direction() {
    assert_eq!(parse_direction_token("TD"), Direction::TopDown);
    assert_eq!(parse_direction_token("TB"), Direction::TopDown);
    assert_eq!(parse_direction_token("LR"), Direction::LeftToRight);
    assert_eq!(parse_direction_token("RL"), Direction::RightToLeft);
    assert_eq!(parse_direction_token("BT"), Direction::BottomUp);
}

#[test]
fn test_parse_simple_flowchart() {
    let input = "flowchart LR\n    A --> B\n    B --> C";
    let ast = parse_flowchart(input).unwrap();
    assert_eq!(ast.kind, DiagramKind::Flowchart);
    assert_eq!(ast.direction, Direction::LeftToRight);
    assert_eq!(ast.node_count(), 3);
    assert_eq!(ast.edge_count(), 2);
}

#[test]
fn test_parse_flowchart_with_label() {
    let input = "flowchart TD\n    A -->|yes| B";
    let ast = parse_flowchart(input).unwrap();
    assert_eq!(ast.edge_count(), 1);
    let edge = &ast.edges[0];
    assert_eq!(edge.label.as_deref(), Some("yes"));
    assert!(edge.directed);
}

#[test]
fn test_node_shapes() {
    let input = "flowchart TD\n    A[Rectangle]\n    B(RoundRect)\n    C{Diamond}\n    D((Circle))\n    E(((DoubleCircle)))\n    F[[Subroutine]]\n    G[(Cylinder)]\n    H[/Parallelogram/]\n    I[\\Trapezoid\\]\n    J([Stadium])";
    let ast = parse_flowchart(input).unwrap();
    assert_eq!(ast.node("A").unwrap().shape, NodeShape::Rectangle);
    assert_eq!(ast.node("B").unwrap().shape, NodeShape::RoundRect);
    assert_eq!(ast.node("C").unwrap().shape, NodeShape::Diamond);
    assert_eq!(ast.node("D").unwrap().shape, NodeShape::Circle);
    assert_eq!(ast.node("E").unwrap().shape, NodeShape::DoubleCircle);
    assert_eq!(ast.node("F").unwrap().shape, NodeShape::Subroutine);
    assert_eq!(ast.node("G").unwrap().shape, NodeShape::Cylinder);
    assert_eq!(ast.node("H").unwrap().shape, NodeShape::Parallelogram);
    assert_eq!(ast.node("I").unwrap().shape, NodeShape::Trapezoid);
    assert_eq!(ast.node("J").unwrap().shape, NodeShape::Stadium);
}

#[test]
fn test_node_labels() {
    let input = "flowchart TD\n    A[My Label]\n    B(Round Box)\n    C{Decision?}";
    let ast = parse_flowchart(input).unwrap();
    assert_eq!(ast.node("A").unwrap().label, "My Label");
    assert_eq!(ast.node("B").unwrap().label, "Round Box");
    assert_eq!(ast.node("C").unwrap().label, "Decision?");
}

#[test]
fn test_subgraph() {
    let input = "flowchart TD\n    subgraph sg1 [My Group]\n        A --> B\n    end\n    B --> C";
    let ast = parse_flowchart(input).unwrap();
    assert_eq!(ast.subgraphs.len(), 1);
    assert_eq!(ast.subgraphs[0].label, "My Group");
    assert!(ast.subgraphs[0].nodes.contains(&"A".to_string()));
    assert!(ast.subgraphs[0].nodes.contains(&"B".to_string()));
    assert_eq!(ast.edge_count(), 2);
}

#[test]
fn test_class_def() {
    let input = "flowchart TD\n    classDef red fill:#f00,stroke:#333,stroke-width:2px\n    A[Red Node]:::red\n    A --> B";
    let ast = parse_flowchart(input).unwrap();
    let node_a = ast.node("A").unwrap();
    assert_eq!(node_a.style.fill.as_deref(), Some("#f00"));
    assert_eq!(node_a.style.stroke.as_deref(), Some("#333"));
    assert_eq!(node_a.style.stroke_width.as_deref(), Some("2"));
}

#[test]
fn test_style_directive() {
    let input = "flowchart TD\n    A[Node]\n    style A fill:#0f0,stroke:#000";
    let ast = parse_flowchart(input).unwrap();
    let node_a = ast.node("A").unwrap();
    assert_eq!(node_a.style.fill.as_deref(), Some("#0f0"));
    assert_eq!(node_a.style.stroke.as_deref(), Some("#000"));
}

#[test]
fn test_bidirectional_edge() {
    let input = "flowchart LR\n    A <--> B";
    let ast = parse_flowchart(input).unwrap();
    assert_eq!(ast.edge_count(), 1);
    let edge = &ast.edges[0];
    assert!(edge.directed);
    assert!(edge.arrow_start.is_some());
    assert!(edge.arrow_end.is_some());
}

#[test]
fn test_thick_edge() {
    let input = "flowchart LR\n    A ==> B";
    let ast = parse_flowchart(input).unwrap();
    assert_eq!(ast.edges[0].style, EdgeStyle::Thick);
}

#[test]
fn test_dotted_edge() {
    let input = "flowchart LR\n    A -.->|optional| B";
    let ast = parse_flowchart(input).unwrap();
    assert_eq!(ast.edges[0].style, EdgeStyle::Dotted);
    assert_eq!(ast.edges[0].label.as_deref(), Some("optional"));
}

#[test]
fn test_edge_with_node_shapes() {
    let input = "flowchart LR\n    A[Start] -->|go| B{Choice?}";
    let ast = parse_flowchart(input).unwrap();
    assert_eq!(ast.node("A").unwrap().shape, NodeShape::Rectangle);
    assert_eq!(ast.node("B").unwrap().shape, NodeShape::Diamond);
    assert_eq!(ast.node("A").unwrap().label, "Start");
    assert_eq!(ast.node("B").unwrap().label, "Choice?");
}

#[test]
fn test_hexagon() {
    let input = "flowchart TD\n    A{{Hex Label}}";
    let ast = parse_flowchart(input).unwrap();
    assert_eq!(ast.node("A").unwrap().shape, NodeShape::Hexagon);
    assert_eq!(ast.node("A").unwrap().label, "Hex Label");
}

#[test]
fn test_asymmetric() {
    let input = "flowchart TD\n    A>Asymmetric]";
    let ast = parse_flowchart(input).unwrap();
    assert_eq!(ast.node("A").unwrap().shape, NodeShape::Asymmetric);
    assert_eq!(ast.node("A").unwrap().label, "Asymmetric");
}

#[test]
fn test_graph_keyword() {
    let input = "graph TB\n    A --> B";
    let ast = parse_flowchart(input).unwrap();
    assert_eq!(ast.kind, DiagramKind::Flowchart);
    assert_eq!(ast.direction, Direction::TopDown);
    assert_eq!(ast.edge_count(), 1);
}

#[test]
fn test_undirected_edge() {
    let input = "flowchart LR\n    A --- B";
    let ast = parse_flowchart(input).unwrap();
    assert_eq!(ast.edge_count(), 1);
    assert!(!ast.edges[0].directed);
}

#[test]
fn test_click_directive() {
    let input = "flowchart TD\n    A[Click Me]\n    click A https://example.com";
    let ast = parse_flowchart(input).unwrap();
    let node = ast.node("A").unwrap();
    assert!(node.link.is_some());
    assert_eq!(node.link.as_ref().unwrap().url, "https://example.com");
    assert_eq!(node.link.as_ref().unwrap().target, "_blank");
}

#[test]
fn test_multi_source_edge() {
    let input = "flowchart TD\n    A & B --> C";
    let ast = parse_flowchart(input).unwrap();
    assert_eq!(ast.edge_count(), 2);
    assert!(ast.edges.iter().any(|e| e.from == "A" && e.to == "C"));
    assert!(ast.edges.iter().any(|e| e.from == "B" && e.to == "C"));
}

#[test]
fn test_nested_subgraph() {
    let input = "flowchart TD\n    subgraph outer [Outer]\n        subgraph inner [Inner]\n            A --> B\n        end\n    end";
    let ast = parse_flowchart(input).unwrap();
    assert_eq!(ast.subgraphs.len(), 2);
}

#[test]
fn test_empty_input_after_header() {
    let input = "flowchart TD";
    let ast = parse_flowchart(input).unwrap();
    assert_eq!(ast.node_count(), 0);
    assert_eq!(ast.edge_count(), 0);
}

#[test]
fn test_very_long_label() {
    let long_label = "A".repeat(250);
    let input = format!("flowchart TD\n    Node[{}]", long_label);
    let ast = parse_flowchart(&input).unwrap();
    assert_eq!(ast.node_count(), 1);
    let node = ast.node("Node").unwrap();
    assert_eq!(node.label.len(), 250);
}

#[test]
fn test_special_chars_in_label() {
    let input = "flowchart TD\n    A -->|hello <world>| B";
    let ast = parse_flowchart(input).unwrap();
    assert_eq!(ast.edge_count(), 1);
    assert_eq!(ast.edges[0].label.as_deref(), Some("hello <world>"));
}

#[test]
fn test_unicode_labels() {
    let input = "flowchart TD\n    A[日本語]\n    B[中文标签]\n    A --> B";
    let ast = parse_flowchart(input).unwrap();
    assert_eq!(ast.node_count(), 2);
    assert_eq!(ast.node("A").unwrap().label, "日本語");
    assert_eq!(ast.node("B").unwrap().label, "中文标签");
    assert_eq!(ast.edge_count(), 1);
}

#[test]
fn test_multiple_edges_from_same_source() {
    let input = "flowchart TD\n    A --> B\n    A --> C\n    A --> D";
    let ast = parse_flowchart(input).unwrap();
    assert_eq!(ast.node_count(), 4);
    assert_eq!(ast.edge_count(), 3);
    let from_a: Vec<_> = ast.edges.iter().filter(|e| e.from == "A").collect();
    assert_eq!(from_a.len(), 3);
}

#[test]
fn flowchart_test_self_loop() {
    let input = "flowchart TD\n    A --> A";
    let ast = parse_flowchart(input).unwrap();
    assert_eq!(ast.node_count(), 1);
    assert!(ast.edge_count() <= 1);
}

#[test]
fn test_node_with_only_id() {
    let input = "flowchart TD\n    A\n    B";
    let ast = parse_flowchart(input).unwrap();
    assert_eq!(ast.node_count(), 2);
    assert_eq!(ast.node("A").unwrap().label, "A");
    assert_eq!(ast.node("B").unwrap().label, "B");
}

#[test]
fn test_comments_mixed_in() {
    let input = "flowchart TD\n%% comment\n    A --> B\n    %% another comment";
    let ast = parse_flowchart(input).unwrap();
    assert_eq!(ast.node_count(), 2);
    assert_eq!(ast.edge_count(), 1);
}

#[test]
fn test_frontmatter_input() {
    let input = "---\ntitle: test\n---\nflowchart TD\n    A --> B";
    let ast = parse_flowchart(input).unwrap();
    assert_eq!(ast.kind, DiagramKind::Flowchart);
    assert_eq!(ast.title.as_deref(), Some("test"));
    assert_eq!(ast.node_count(), 2);
    assert!(ast.edges.iter().any(|e| e.from == "A" && e.to == "B"));
}

#[test]
fn test_cjk_labels_in_edge_lines_do_not_panic() {
    let input = "flowchart TD\n  开始[启动] --> 结束[完成]";
    let ast = parse_flowchart(input).unwrap();
    assert_eq!(ast.node_count(), 2);
    assert_eq!(ast.node("开始").unwrap().label, "启动");
    assert_eq!(ast.node("结束").unwrap().label, "完成");
    assert_eq!(ast.edge_count(), 1);
    assert_eq!(ast.edges[0].from, "开始");
    assert_eq!(ast.edges[0].to, "结束");
}

#[test]
fn test_cjk_pipe_label_edge_line() {
    let input = "flowchart LR\n  开始[启动] -->|是| 判定{判断}";
    let ast = parse_flowchart(input).unwrap();
    assert_eq!(ast.edge_count(), 1);
    assert_eq!(ast.edges[0].label.as_deref(), Some("是"));
    assert_eq!(ast.node("判定").unwrap().shape, NodeShape::Diamond);
}

#[test]
fn test_cjk_mixed_ascii_labels_in_edges() {
    let input = "flowchart TD\n  A[数据源] --> B[(数据库缓存)]";
    let ast = parse_flowchart(input).unwrap();
    assert_eq!(ast.edge_count(), 1);
    assert_eq!(ast.node("A").unwrap().label, "数据源");
    assert_eq!(ast.node("B").unwrap().label, "数据库缓存");
    assert_eq!(ast.node("B").unwrap().shape, NodeShape::Cylinder);
}

#[test]
fn test_link_style_dasharray_dashed() {
    let input = "flowchart LR\n    A --> B\n    B --> C\n    linkStyle 0 stroke-dasharray:6 4";
    let ast = parse_flowchart(input).unwrap();
    assert_eq!(ast.edges[0].style, EdgeStyle::Dashed);
    assert_eq!(ast.edges[1].style, EdgeStyle::Solid);
}

#[test]
fn test_link_style_short_dasharray_dotted() {
    let input = "flowchart LR\n    A --> B\n    linkStyle 0 stroke-dasharray:2 2";
    let ast = parse_flowchart(input).unwrap();
    assert_eq!(ast.edges[0].style, EdgeStyle::Dotted);
}

#[test]
fn test_link_style_default_width_thick() {
    let input = "flowchart LR\n    A --> B\n    B --> C\n    linkStyle default stroke-width:4px";
    let ast = parse_flowchart(input).unwrap();
    assert!(ast.edges.iter().all(|e| e.style == EdgeStyle::Thick));
}

#[test]
fn test_link_style_multiple_indices() {
    let input = "flowchart LR\n    A --> B\n    B --> C\n    C --> A\n    linkStyle 0,2 stroke-dasharray:6 4";
    let ast = parse_flowchart(input).unwrap();
    assert_eq!(ast.edges[0].style, EdgeStyle::Dashed);
    assert_eq!(ast.edges[1].style, EdgeStyle::Solid);
    assert_eq!(ast.edges[2].style, EdgeStyle::Dashed);
}

#[test]
fn flowchart_test_title_directive_sets_ast_title() {
    let input = "flowchart TD\n    title 我的流程\n    A --> B";
    let ast = parse_flowchart(input).unwrap();
    assert_eq!(ast.title.as_deref(), Some("我的流程"));
    assert_eq!(ast.edge_count(), 1);
}

#[test]
fn flowchart_unreadable_shape_is_detected() {
    assert!(!flowchart_readable("flowchart TD\n    A[/]"));
    assert!(!flowchart_readable("flowchart TD\n    A[/] --> B"));
    assert!(!flowchart_readable("flowchart TD\n    A[\\]"));
    assert!(try_parse_flowchart("flowchart TD\n    A[/]").is_none());
    assert!(flowchart_readable("flowchart TD\n    A[/x/] --> B"));
    let ast = try_parse_flowchart("flowchart TD\n    A[/x/] --> B").expect("readable");
    assert_eq!(ast.node_count(), 2);
}

#[test]
fn flowchart_decorations_and_chains() {
    let ast = parse_flowchart("flowchart LR\n    A o--o B\n    C x--x D").unwrap();
    assert_eq!(ast.edges[0].start_decoration, Some(EdgeDecoration::Circle));
    assert_eq!(ast.edges[0].end_decoration, Some(EdgeDecoration::Circle));
    assert_eq!(ast.edges[1].start_decoration, Some(EdgeDecoration::Cross));
    assert_eq!(ast.edges[1].end_decoration, Some(EdgeDecoration::Cross));
}

#[test]
fn flowchart_subgraph_direction_and_class_assignment() {
    let input = "flowchart TD\n    classDef hot fill:#f00\n    subgraph S\n        direction LR\n        X\n    end\n    class X hot\n    Y\n    class Y hot\n    Y --> Z";
    let ast = parse_flowchart(input).unwrap();
    assert_eq!(ast.subgraphs[0].id, "S");
    assert_eq!(ast.subgraphs[0].label, "S");
    assert_eq!(ast.subgraphs[0].direction, Some(Direction::LeftToRight));
    assert_eq!(ast.direction, Direction::TopDown);
    assert_eq!(ast.node("X").unwrap().style.fill, None);
    assert_eq!(ast.node("Y").unwrap().style.fill, None);
}

#[test]
fn flowchart_stroke_width_must_be_a_number() {
    let ast = parse_flowchart("flowchart TD\n    A\n    style A stroke-width:thick,color:#fff").unwrap();
    assert_eq!(ast.node("A").unwrap().style.stroke_width, None);
    assert_eq!(ast.node("A").unwrap().style.color.as_deref(), Some("#fff"));
    let ast = parse_flowchart("flowchart TD\n    A\n    style A stroke-width:1.5e0px").unwrap();
    assert_eq!(ast.node("A").unwrap().style.stroke_width.as_deref(), Some("1.5e0"));
}

#[test]
fn flowchart_link_style_thresholds() {
    let ast = parse_flowchart("flowchart LR\n    A --> B\n    linkStyle 0 stroke-dasharray:2.5 1").unwrap();
    assert_eq!(ast.edges[0].style, EdgeStyle::Dotted);
    let ast = parse_flowchart("flowchart LR\n    A --> B\n    linkStyle 0 stroke-dasharray:2.6 1").unwrap();
    assert_eq!(ast.edges[0].style, EdgeStyle::Dashed);
    let ast = parse_flowchart("flowchart LR\n    A --> B\n    linkStyle 0 stroke-width:2.4px").unwrap();
    assert_eq!(ast.edges[0].style, EdgeStyle::Solid);
    let ast = parse_flowchart("flowchart LR\n    A --> B\n    linkStyle 0 stroke-width:2.5").unwrap();
    assert_eq!(ast.edges[0].style, EdgeStyle::Thick);
}

#[test]
fn flowchart_edge_chain_gives_one_edge_per_arrow() {
    let ast = parse_flowchart("flowchart TD\n    A --> B --> C").unwrap();
    assert_eq!(ast.node_count(), 3);
    assert_eq!(ast.edge_count(), 2);
    assert_eq!((ast.edges[0].from.as_str(), ast.edges[0].to.as_str()), ("A", "B"));
    assert_eq!((ast.edges[1].from.as_str(), ast.edges[1].to.as_str()), ("B", "C"));
}

#[test]
fn flowchart_chain_keeps_labels_and_shapes() {
    let ast = parse_flowchart("flowchart LR\n    A[Start] -->|go| B{Check} -.-> C & D").unwrap();
    assert_eq!(ast.edge_count(), 3);
    assert_eq!(ast.edges[0].label.as_deref(), Some("go"));
    assert_eq!(ast.node("B").unwrap().shape, NodeShape::Diamond);
    assert_eq!(ast.edges[1].style, EdgeStyle::Dotted);
    assert_eq!(ast.edges[2].to, "D");
}

#[test]
fn flowchart_target_starting_with_o_is_a_node() {
    let ast = parse_flowchart("flowchart TD\n    A --> output").unwrap();
    assert!(ast.node("output").is_some());
    assert_eq!(ast.edge_count(), 1);
    assert_eq!(ast.edges[0].to, "output");
    assert_eq!(ast.edges[0].end_decoration, None);
    assert_eq!(ast.edges[0].arrow_end, Some(EdgeArrowhead::Arrow));
    let ast = parse_flowchart("flowchart TD\n    A --> xray").unwrap();
    assert_eq!(ast.edges[0].to, "xray");
}

#[test]
fn flowchart_spaced_mark_after_arrow_is_a_decoration() {
    let ast = parse_flowchart("flowchart TD\n    A --o B").unwrap();
    assert_eq!(ast.edges[0].to, "B");
    assert_eq!(ast.edges[0].end_decoration, Some(EdgeDecoration::Circle));
}

#[test]
fn flowchart_text_label_between_arrow_parts() {
    let ast = parse_flowchart("flowchart LR\n    A -- yes please --> B").unwrap();
    assert_eq!(ast.node_count(), 2);
    assert_eq!(ast.edge_count(), 1);
    assert_eq!((ast.edges[0].from.as_str(), ast.edges[0].to.as_str()), ("A", "B"));
    assert_eq!(ast.edges[0].label.as_deref(), Some("yes please"));
    assert!(ast.edges[0].directed);
    assert_eq!(ast.edges[0].arrow_end, Some(EdgeArrowhead::Arrow));
    assert_eq!(ast.edges[0].style, EdgeStyle::Solid);
}

#[test]
fn flowchart_text_label_keeps_dotted_and_thick_arrows() {
    let ast = parse_flowchart("flowchart LR\n    A -. maybe .-> B\n    C == sure ==> D").unwrap();
    assert_eq!(ast.edge_count(), 2);
    assert_eq!(ast.edges[0].label.as_deref(), Some("maybe"));
    assert_eq!(ast.edges[0].style, EdgeStyle::Dotted);
    assert_eq!(ast.edges[0].to, "B");
    assert_eq!(ast.edges[1].label.as_deref(), Some("sure"));
    assert_eq!(ast.edges[1].style, EdgeStyle::Thick);
    assert_eq!(ast.edges[1].to, "D");
}

#[test]
fn flowchart_text_label_then_chain() {
    let ast = parse_flowchart("flowchart LR\n    A -- go --> B --> C").unwrap();
    assert_eq!(ast.node_count(), 3);
    assert_eq!(ast.edge_count(), 2);
    assert_eq!((ast.edges[0].from.as_str(), ast.edges[0].to.as_str()), ("A", "B"));
    assert_eq!(ast.edges[0].label.as_deref(), Some("go"));
    assert_eq!((ast.edges[1].from.as_str(), ast.edges[1].to.as_str()), ("B", "C"));
    assert_eq!(ast.edges[1].label, None);
}

#[test]
fn flowchart_lone_open_arrow_is_an_undirected_edge() {
    let ast = parse_flowchart("flowchart LR\n    A -- B").unwrap();
    assert_eq!(ast.edge_count(), 1);
    assert_eq!(ast.edges[0].to, "B");
    assert!(!ast.edges[0].directed);
}
