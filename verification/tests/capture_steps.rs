use mermaid_canvas::flowchart_parser::{
    pipe_edge_exec, arrow_edge_exec, header_direction_exec, subgraph_heading_exec, opens_text_exec,
};
use mermaid_canvas::sequence_parser::{
    rect_color_exec, block_open_exec, branch_label_exec, created_name_exec, note_parts_exec,
    alias_parts_exec,
};
use mermaid_canvas::diagram::{ControlBlockKind, Direction, EdgeStyle, EdgeDecoration};

fn chars(s: &str) -> Vec<char> {
    s.chars().collect()
}

fn groups(gs: &[Option<&str>]) -> Vec<Option<Vec<char>>> {
    gs.iter().map(|g| g.map(chars)).collect()
}

fn text(v: &[char]) -> String {
    v.iter().collect()
}

#[test]
fn pipe_capture_gives_a_labelled_edge() {
    let gs = groups(&[Some("A -->|yes| B"), Some("A "), Some("-->"), Some(" yes "), Some(" B")]);
    let (left, label, right, meta) = pipe_edge_exec(&gs).unwrap().unwrap();
    assert_eq!(text(&left), "A");
    assert_eq!(label.map(|l| text(&l)), Some("yes".to_string()));
    assert_eq!(text(&right), "B");
    assert!(meta.directed);
    assert!(meta.arrow_end);
    assert_eq!(meta.style, EdgeStyle::Solid);
}

#[test]
fn pipe_capture_with_empty_label_is_refused() {
    let gs = groups(&[Some("A -->|| B"), Some("A"), Some("-->"), Some("  "), Some("B")]);
    assert!(pipe_edge_exec(&gs).is_none());
}

#[test]
fn arrow_capture_reads_a_spaced_decoration() {
    let gs = groups(&[Some("A --o C"), Some("A"), Some("--"), Some("o C")]);
    let (left, label, right, meta) = arrow_edge_exec(&gs).unwrap();
    assert_eq!(text(&left), "A");
    assert!(label.is_none());
    assert_eq!(text(&right), "C");
    assert_eq!(meta.end_decoration, Some(EdgeDecoration::Circle));
}

#[test]
fn arrow_capture_keeps_a_target_named_with_o() {
    let gs = groups(&[Some("A --> output"), Some("A"), Some("-->"), Some("output")]);
    let (_, _, right, meta) = arrow_edge_exec(&gs).unwrap();
    assert_eq!(text(&right), "output");
    assert_eq!(meta.end_decoration, None);
    assert!(meta.arrow_end);
}

#[test]
fn header_capture_names_the_direction() {
    let gs = groups(&[Some("graph LR"), Some("graph"), Some("LR")]);
    assert_eq!(header_direction_exec(&gs), Some(Direction::LeftToRight));
    let missing = groups(&[Some("graph"), Some("graph"), None]);
    assert_eq!(header_direction_exec(&missing), None);
}

#[test]
fn subgraph_capture_gives_id_and_label() {
    let gs = groups(&[Some("subgraph one [First]"), Some("one [First]")]);
    let (id, label) = subgraph_heading_exec(&gs);
    assert_eq!(id.map(|i| text(&i)), Some("one".to_string()));
    assert_eq!(text(&label), "First");
}

#[test]
fn sequence_captures_are_read_and_trimmed() {
    let rect = groups(&[Some("rect rgb(1, 2, 3)"), Some("rgb(1, 2, 3)")]);
    assert_eq!(text(&rect_color_exec(&rect)), "rgb(1, 2, 3)");

    let block = groups(&[Some("loop  every minute "), Some("loop"), Some(" every minute ")]);
    let (kind, label) = block_open_exec(&block).unwrap();
    assert_eq!(kind, ControlBlockKind::Loop);
    assert_eq!(text(&label), "every minute");

    let branch = groups(&[Some("else  no "), Some("else"), Some(" no ")]);
    assert_eq!(text(&branch_label_exec(&branch)), "no");
    let bare = groups(&[Some("and"), Some("and"), None]);
    assert_eq!(text(&branch_label_exec(&bare)), "");

    let create = groups(&[Some("create participant  Carl "), Some(" Carl ")]);
    assert_eq!(text(&created_name_exec(&create)), "Carl");

    let note = groups(&[Some("Note over A,B : hi "), Some("over"), Some("A,B "), Some(" hi ")]);
    let (pos, target, body) = note_parts_exec(&note);
    assert_eq!((text(&pos), text(&target), text(&body)), ("over".to_string(), "A,B".to_string(), "hi".to_string()));

    let alias = groups(&[Some("A as Alice "), Some("A"), Some("Alice ")]);
    let (name, alias_name) = alias_parts_exec(&alias);
    assert_eq!((text(&name), text(&alias_name)), ("A".to_string(), "Alice".to_string()));
}

#[test]
fn open_arrow_capture_is_recognised() {
    assert!(opens_text_exec(&groups(&[Some("A -- t"), Some("A"), Some(" -- "), Some("t")])));
    assert!(opens_text_exec(&groups(&[Some("A -. t"), Some("A"), Some("-."), Some("t")])));
    assert!(!opens_text_exec(&groups(&[Some("A --- t"), Some("A"), Some("---"), Some("t")])));
    assert!(!opens_text_exec(&groups(&[Some("A"), Some("A"), None, None])));
}
