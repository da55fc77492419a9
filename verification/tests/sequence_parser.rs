use mermaid_canvas::sequence_parser::parse_sequence;
use mermaid_canvas::diagram::{
    ControlBlockKind, DiagramKind, EdgeArrowhead, EdgeStyle, NodeShape, NotePosition,
};

#[test]
fn sequence_test_title_directive_sets_ast_title() {
    let input = "sequenceDiagram\n    title: 时序交互\n    participant A\n    A->>B: Hello";
    let ast = parse_sequence(input).unwrap();
    assert_eq!(ast.title.as_deref(), Some("时序交互"));
    assert_eq!(ast.edge_count(), 1);
}

#[test]
fn test_basic_participant_declaration() {
    let input = "sequenceDiagram\n    participant Alice\n    participant Bob\n    Alice->>Bob: Hello";
    let ast = parse_sequence(input).unwrap();
    assert_eq!(ast.kind, DiagramKind::Sequence);
    assert_eq!(ast.node_count(), 2);
    assert_eq!(ast.edge_count(), 1);
    let meta = ast.sequence_meta.as_ref().unwrap();
    assert_eq!(meta.participant_order.len(), 2);
    assert_eq!(meta.participant_order[0], "Alice");
    assert_eq!(meta.participant_order[1], "Bob");
}

#[test]
fn test_participant_with_alias() {
    let input = "sequenceDiagram\n    participant A as Alice\n    participant B as Bob\n    A->>B: Hi";
    let ast = parse_sequence(input).unwrap();
    assert_eq!(ast.node_count(), 2);
    assert!(ast.contains_node("A"));
    assert!(ast.contains_node("B"));
    let meta = ast.sequence_meta.as_ref().unwrap();
    assert_eq!(meta.alias("Alice"), Some(&"A".to_string()));
    assert_eq!(meta.alias("Bob"), Some(&"B".to_string()));
}

#[test]
fn test_actor_declaration() {
    let input = "sequenceDiagram\n    actor User\n    actor System\n    User->>System: Request";
    let ast = parse_sequence(input).unwrap();
    assert_eq!(ast.node("User").unwrap().shape, NodeShape::Circle);
    assert_eq!(ast.node("System").unwrap().shape, NodeShape::Circle);
}

#[test]
fn test_all_arrow_types() {
    let input = "sequenceDiagram\n\
        A->B: solid open\n\
        A-->B: dashed open\n\
        A->>B: solid arrow\n\
        A-->>B: dashed arrow\n\
        A-xB: solid cross\n\
        A--xB: dashed cross\n\
        A-)B: solid open2\n\
        A--)B: dashed open2\n\
        B<-A: reverse solid\n\
        B<--A: reverse dashed";
    let ast = parse_sequence(input).unwrap();
    assert_eq!(ast.edge_count(), 10);
    let edges = &ast.edges;
    assert_eq!(edges[2].arrow_end, Some(EdgeArrowhead::Arrow));
    assert_eq!(edges[2].style, EdgeStyle::Solid);
    assert_eq!(edges[3].arrow_end, Some(EdgeArrowhead::Arrow));
    assert_eq!(edges[3].style, EdgeStyle::Dashed);
    assert_eq!(edges[4].arrow_end, Some(EdgeArrowhead::Cross));
    assert_eq!(edges[5].arrow_end, Some(EdgeArrowhead::Cross));
    assert_eq!(edges[5].style, EdgeStyle::Dashed);
}

#[test]
fn test_bidirectional_arrows() {
    let input = "sequenceDiagram\n    A<<->>B: bidir solid\n    A<<-->>B: bidir dashed";
    let ast = parse_sequence(input).unwrap();
    assert_eq!(ast.edge_count(), 2);
    assert_eq!(ast.edges[0].arrow_start, Some(EdgeArrowhead::Arrow));
    assert_eq!(ast.edges[0].arrow_end, Some(EdgeArrowhead::Arrow));
    assert_eq!(ast.edges[1].style, EdgeStyle::Dashed);
}

#[test]
fn test_activation_deactivation() {
    let input = "sequenceDiagram\n\
        participant Server\n\
        Client->>Server: Request\n\
        activate Server\n\
        Server-->>Client: Response\n\
        deactivate Server";
    let ast = parse_sequence(input).unwrap();
    let meta = ast.sequence_meta.as_ref().unwrap();
    assert_eq!(meta.activations.len(), 1);
    assert_eq!(meta.activations[0].participant_id, "Server");
    assert_eq!(meta.activations[0].start_step, 1);
    assert_eq!(meta.activations[0].end_step, Some(2));
}

#[test]
fn test_plus_minus_notation() {
    let input = "sequenceDiagram\n\
        Client->>+Server: Request\n\
        Server->>+Database: Query\n\
        Database-->>-Server: Data\n\
        Server-->>-Client: Response";
    let ast = parse_sequence(input).unwrap();
    let meta = ast.sequence_meta.as_ref().unwrap();
    assert!(!meta.activations.is_empty());
    assert!(meta.activations.iter().any(|a| a.participant_id == "Server" && a.start_step == 0));
    assert!(meta.activations.iter().any(|a| a.participant_id == "Database" && a.start_step == 1));
}

#[test]
fn sequence_test_notes() {
    let input = "sequenceDiagram\n\
        participant Alice\n\
        participant Bob\n\
        Note left of Alice: Alice note\n\
        Note right of Bob: Bob note\n\
        Note over Alice,Bob: Shared note";
    let ast = parse_sequence(input).unwrap();
    let meta = ast.sequence_meta.as_ref().unwrap();
    assert_eq!(meta.notes.len(), 3);
    assert!(matches!(&meta.notes[0].position, NotePosition::LeftOf(id) if id == "Alice"));
    assert!(matches!(&meta.notes[1].position, NotePosition::RightOf(id) if id == "Bob"));
    assert!(matches!(&meta.notes[2].position, NotePosition::Over(names) if names.len() == 2));
}

#[test]
fn test_loop_block() {
    let input = "sequenceDiagram\n\
        participant A\n\
        participant B\n\
        loop Every 10 seconds\n\
            A->>B: Ping\n\
            B-->>A: Pong\n\
        end";
    let ast = parse_sequence(input).unwrap();
    let meta = ast.sequence_meta.as_ref().unwrap();
    assert_eq!(meta.control_blocks.len(), 1);
    assert_eq!(meta.control_blocks[0].kind, ControlBlockKind::Loop);
    assert_eq!(meta.control_blocks[0].label, "Every 10 seconds");
    assert_eq!(meta.control_blocks[0].start_step, 0);
    assert_eq!(meta.control_blocks[0].end_step, 2);
}

#[test]
fn test_alt_else_block() {
    let input = "sequenceDiagram\n\
        participant A\n\
        participant B\n\
        alt Condition 1\n\
            A->>B: Action 1\n\
        else Condition 2\n\
            A->>B: Action 2\n\
        end";
    let ast = parse_sequence(input).unwrap();
    let meta = ast.sequence_meta.as_ref().unwrap();
    assert_eq!(meta.control_blocks.len(), 1);
    assert_eq!(meta.control_blocks[0].kind, ControlBlockKind::Alt);
    assert_eq!(meta.control_blocks[0].groups.len(), 1);
    assert_eq!(meta.control_blocks[0].groups[0].0, "Condition 2");
}

#[test]
fn test_par_and_block() {
    let input = "sequenceDiagram\n\
        participant A\n\
        participant B\n\
        par Parallel tasks\n\
            A->>B: Task 1\n\
        and\n\
            B->>A: Task 2\n\
        end";
    let ast = parse_sequence(input).unwrap();
    let meta = ast.sequence_meta.as_ref().unwrap();
    assert_eq!(meta.control_blocks.len(), 1);
    assert_eq!(meta.control_blocks[0].kind, ControlBlockKind::Par);
    assert_eq!(meta.control_blocks[0].groups.len(), 1);
}

#[test]
fn test_rect_background() {
    let input = "sequenceDiagram\n\
        participant A\n\
        participant B\n\
        rect rgb(200, 150, 100)\n\
            A->>B: Message\n\
        end";
    let ast = parse_sequence(input).unwrap();
    let meta = ast.sequence_meta.as_ref().unwrap();
    assert_eq!(meta.rects.len(), 1);
    assert!(meta.rects[0].color.contains("rgb"));
}

#[test]
fn test_autonumber() {
    let input = "sequenceDiagram\n\
        autonumber\n\
        A->>B: First\n\
        B->>A: Second";
    let ast = parse_sequence(input).unwrap();
    let meta = ast.sequence_meta.as_ref().unwrap();
    assert!(meta.autonumber);
    assert_eq!(ast.edges[0].label.as_deref(), Some("1. First"));
    assert_eq!(ast.edges[1].label.as_deref(), Some("2. Second"));
}

#[test]
fn test_comments() {
    let input = "sequenceDiagram\n\
        %% This is a comment\n\
        participant A\n\
        %% Another comment\n\
        A->>B: Hello";
    let ast = parse_sequence(input).unwrap();
    assert_eq!(ast.node_count(), 2);
    assert_eq!(ast.edge_count(), 1);
}

#[test]
fn test_create_destroy() {
    let input = "sequenceDiagram\n\
        participant A\n\
        create participant B\n\
        A->>B: Initialize\n\
        B-->>A: Done\n\
        destroy B";
    let ast = parse_sequence(input).unwrap();
    assert!(ast.contains_node("B"));
}

#[test]
fn test_self_referencing_message() {
    let input = "sequenceDiagram\n\
        participant A\n\
        A->>A: Self call";
    let ast = parse_sequence(input).unwrap();
    assert_eq!(ast.edge_count(), 1);
    assert_eq!(ast.edges[0].from, "A");
    assert_eq!(ast.edges[0].to, "A");
}

#[test]
fn test_implicit_participant_creation() {
    let input = "sequenceDiagram\n\
        Alice->>Bob: Hello\n\
        Bob-->>Alice: Hi";
    let ast = parse_sequence(input).unwrap();
    assert_eq!(ast.node_count(), 2);
    assert_eq!(ast.edge_count(), 2);
    let meta = ast.sequence_meta.as_ref().unwrap();
    assert_eq!(meta.participant_order[0], "Alice");
    assert_eq!(meta.participant_order[1], "Bob");
}

#[test]
fn test_empty_sequence() {
    let input = "sequenceDiagram";
    let ast = parse_sequence(input).unwrap();
    assert_eq!(ast.node_count(), 0);
    assert_eq!(ast.edge_count(), 0);
}

#[test]
fn test_total_steps() {
    let input = "sequenceDiagram\n\
        A->>B: Msg1\n\
        B->>C: Msg2\n\
        C-->>A: Msg3";
    let ast = parse_sequence(input).unwrap();
    let meta = ast.sequence_meta.as_ref().unwrap();
    assert_eq!(meta.total_steps, 3);
}

#[test]
fn test_opt_block() {
    let input = "sequenceDiagram\n\
        opt Optional condition\n\
            A->>B: Maybe\n\
        end";
    let ast = parse_sequence(input).unwrap();
    let meta = ast.sequence_meta.as_ref().unwrap();
    assert_eq!(meta.control_blocks.len(), 1);
    assert_eq!(meta.control_blocks[0].kind, ControlBlockKind::Opt);
}

#[test]
fn test_critical_block() {
    let input = "sequenceDiagram\n\
        critical Critical section\n\
            A->>B: Important\n\
        option Fallback\n\
            A->>B: Alternative\n\
        end";
    let ast = parse_sequence(input).unwrap();
    let meta = ast.sequence_meta.as_ref().unwrap();
    assert_eq!(meta.control_blocks.len(), 1);
    assert_eq!(meta.control_blocks[0].kind, ControlBlockKind::Critical);
    assert_eq!(meta.control_blocks[0].groups.len(), 1);
}

#[test]
fn test_break_block() {
    let input = "sequenceDiagram\n\
        break Error condition\n\
            A->>B: Error msg\n\
        end";
    let ast = parse_sequence(input).unwrap();
    let meta = ast.sequence_meta.as_ref().unwrap();
    assert_eq!(meta.control_blocks.len(), 1);
    assert_eq!(meta.control_blocks[0].kind, ControlBlockKind::Break);
}

#[test]
fn sequence_unclosed_activation_and_block_close_at_last_step() {
    let input = "sequenceDiagram\n\
        loop Forever\n\
        A->>+B: Ping\n\
        rect rgba(0, 0, 0, 0.1)\n\
        B->>A: Pong";
    let ast = parse_sequence(input).unwrap();
    let meta = ast.sequence_meta.as_ref().unwrap();
    assert_eq!(meta.activations.len(), 1);
    assert_eq!(meta.activations[0].participant_id, "B");
    assert_eq!(meta.activations[0].start_step, 0);
    assert_eq!(meta.activations[0].end_step, Some(2));
    assert_eq!(meta.control_blocks.len(), 1);
    assert_eq!(meta.control_blocks[0].end_step, 2);
    assert_eq!(meta.rects.len(), 1);
    assert_eq!(meta.rects[0].color, "rgba(0, 0, 0, 0.1)");
    assert_eq!(meta.rects[0].start_step, 1);
    assert_eq!(meta.rects[0].end_step, 2);
    assert_eq!(meta.total_steps, 2);
}

#[test]
fn sequence_nested_activations_have_depths() {
    let input = "sequenceDiagram\n\
        activate A\n\
        activate A\n\
        A->>B: x\n\
        deactivate A";
    let ast = parse_sequence(input).unwrap();
    let meta = ast.sequence_meta.as_ref().unwrap();
    assert_eq!(meta.activations.len(), 2);
    assert_eq!(meta.activations[0].depth, 0);
    assert_eq!(meta.activations[1].depth, 1);
    assert_eq!(meta.activations[1].end_step, Some(1));
    assert_eq!(meta.activations[0].end_step, Some(1));
}

#[test]
fn sequence_reverse_arrow_swaps_ends_and_alias_resolves() {
    let input = "sequenceDiagram\n\
        participant S as Server\n\
        Server<--C: back\n\
        actor C";
    let ast = parse_sequence(input).unwrap();
    assert_eq!(ast.edges[0].from, "C");
    assert_eq!(ast.edges[0].to, "S");
    assert_eq!(ast.edges[0].arrow_start, Some(EdgeArrowhead::OpenTriangle));
    assert_eq!(ast.edges[0].arrow_end, None);
    let meta = ast.sequence_meta.as_ref().unwrap();
    assert_eq!(meta.actor_flag("C"), Some(true));
    assert_eq!(meta.actor_flag("S"), Some(false));
    assert_eq!(meta.actor_flag("Nobody"), None);
}

#[test]
fn sequence_lines_before_header_are_ignored() {
    let ast = parse_sequence("A->>B: early\nsequenceDiagram\nB->>C: late").unwrap();
    assert_eq!(ast.edge_count(), 1);
    assert_eq!(ast.edges[0].label.as_deref(), Some("late"));
}

#[test]
fn sequence_participant_named_like_a_branch_sends_messages() {
    let ast = parse_sequence("sequenceDiagram\n    andy->>bob: hi").unwrap();
    assert_eq!(ast.edge_count(), 1);
    assert_eq!(ast.edges[0].from, "andy");
    assert_eq!(ast.edges[0].to, "bob");
    assert_eq!(ast.edges[0].label.as_deref(), Some("hi"));
    assert_eq!(ast.node_count(), 2);
    let ast = parse_sequence("sequenceDiagram\n    par go\n    elsewhere->>optional: x\n    and then\n    end").unwrap();
    let meta = ast.sequence_meta.as_ref().unwrap();
    assert_eq!(ast.edge_count(), 1);
    assert_eq!(meta.control_blocks[0].groups.len(), 1);
    assert_eq!(meta.control_blocks[0].groups[0].0, "then");
}
