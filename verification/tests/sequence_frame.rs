use mermaid_canvas::sequence_parser::parse_sequence;
use mermaid_canvas::flowchart_parser::parse_flowchart;
use mermaid_canvas::sequence_frame::sequence_frame;

#[test]
fn frame_lists_columns_rows_boxes_and_lifelines() {
    let input = "sequenceDiagram\n    participant A as Alice\n    actor B\n    A->>+B: hi\n    B-->>-A: ok\n    A->>C: more\n    C->>C: self\n    actor D";
    let ast = parse_sequence(input).unwrap();
    let frame = sequence_frame(&ast).unwrap();
    let ids: Vec<&str> = frame.columns.iter().map(|c| c.id.as_str()).collect();
    assert_eq!(ids, vec!["A", "B", "C", "D"]);
    assert!(!frame.columns[0].is_actor);
    assert!(frame.columns[3].is_actor);
    assert_eq!(frame.total_steps, 4);
    assert_eq!(frame.messages.len(), 4);
    assert_eq!((frame.messages[0].from, frame.messages[0].to), (Some(0), Some(1)));
    assert_eq!((frame.messages[1].from, frame.messages[1].to), (Some(1), Some(0)));
    assert_eq!((frame.messages[2].from, frame.messages[2].to), (Some(0), Some(2)));
    assert!(!frame.messages[2].self_loop);
    assert!(frame.messages[3].self_loop);
    let meta = ast.sequence_meta.as_ref().unwrap();
    for c in &frame.columns {
        assert_eq!(c.is_actor, meta.actor_flag(&c.id).unwrap_or(false));
        assert_eq!(c.label, ast.node(&c.id).unwrap().label);
    }
    assert_eq!(frame.activations.len(), meta.activations.len());
    assert!(!frame.activations.is_empty());
    for (b, a) in frame.activations.iter().zip(meta.activations.iter()) {
        assert_eq!(b.id, format!("activation_{}_{}", a.participant_id, a.start_step));
        assert_eq!(b.column, Some(1));
        assert_eq!(Some(b.end_step), a.end_step);
    }
    let lines: Vec<(&str, &str)> = frame.lifelines.iter().map(|l| (l.from.as_str(), l.to.as_str())).collect();
    assert_eq!(lines, vec![("A", "A_lifeline_end"), ("B", "B_lifeline_end"), ("C", "C_lifeline_end"), ("D", "D_lifeline_end")]);
}

#[test]
fn frame_of_an_open_activation_runs_to_the_last_step() {
    let ast = parse_sequence("sequenceDiagram\n    activate A\n    A->>B: one\n    B->>A: two").unwrap();
    let frame = sequence_frame(&ast).unwrap();
    assert_eq!(frame.total_steps, 2);
    assert_eq!(frame.activations.len(), 1);
    assert_eq!(frame.activations[0].end_step, 2);
    assert_eq!(frame.activations[0].column, Some(0));
}

#[test]
fn frame_needs_sequence_data_and_participants() {
    let flow = parse_flowchart("flowchart TD\n    A --> B").unwrap();
    assert!(sequence_frame(&flow).is_none());
    let empty = parse_sequence("sequenceDiagram").unwrap();
    assert!(sequence_frame(&empty).is_none());
}
