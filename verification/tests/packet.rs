use mermaid_canvas::packet::parse_packet;
use mermaid_canvas::diagram::{DiagramKind, Direction};

#[test]
fn test_simple_packet() {
    let input = "\
packet
    title Simple
    0-3 : source
    4-7 : dest";
    let ast = parse_packet(input).unwrap();
    assert_eq!(ast.kind, DiagramKind::Packet);
    assert_eq!(ast.node_count(), 2);
    assert_eq!(ast.edge_count(), 1);
    assert!(ast.node("pkt_0").unwrap().label.contains("source"));
    assert!(ast.node("pkt_1").unwrap().label.contains("dest"));
}

#[test]
fn test_packet_sequential() {
    let input = "\
packet
    0-7 : header
    8-15 : payload
    16-23 : trailer";
    let ast = parse_packet(input).unwrap();
    assert_eq!(ast.node_count(), 3);
    assert_eq!(ast.edge_count(), 2);
    assert_eq!(ast.edges[0].from, "pkt_0");
    assert_eq!(ast.edges[0].to, "pkt_1");
    assert_eq!(ast.edges[1].from, "pkt_1");
    assert_eq!(ast.edges[1].to, "pkt_2");
}

#[test]
fn test_packet_no_label() {
    let input = "packet\n    0-7 :";
    let ast = parse_packet(input).unwrap();
    assert_eq!(ast.node_count(), 1);
    assert_eq!(ast.node("pkt_0").unwrap().label, "0-7");
}

#[test]
fn packet_fields_flow_left_to_right_with_quoted_labels() {
    let ast = parse_packet("packet-beta\n0-15: \"Source Port\"\nno colon here\n: skipped\n16-31: \"Dest\"").unwrap();
    assert_eq!(ast.direction, Direction::LeftToRight);
    assert_eq!(ast.node_count(), 2);
    assert_eq!(ast.node("pkt_0").unwrap().label, "0-15\nSource Port");
    assert_eq!(ast.node("pkt_1").unwrap().label, "16-31\nDest");
    assert!(!ast.edges[0].directed);
}

#[test]
fn packet_has_one_field_per_field_line() {
    let input = "packet-beta\n    title Frame\n    %% fields\n    0-7 : \"Source\"\n\n    8-15 :\n    no colon here\n    : empty range\n    16-31 : Data";
    let ast = parse_packet(input).unwrap();
    assert_eq!(ast.node_count(), 3);
    assert_eq!(ast.nodes[0].id, "pkt_0");
    assert_eq!(ast.nodes[0].label, "0-7\nSource");
    assert_eq!(ast.nodes[1].id, "pkt_1");
    assert_eq!(ast.nodes[1].label, "8-15");
    assert_eq!(ast.nodes[2].id, "pkt_2");
    assert_eq!(ast.nodes[2].label, "16-31\nData");
}
