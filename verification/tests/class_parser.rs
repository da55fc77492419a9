use mermaid_canvas::class::{
    is_class_stereotype, strip_quotes_str, split_class_body, parse_class_declaration,
    normalize_method_signature, edge_meta_from_token,
};
use mermaid_canvas::class_parser::parse_class;
use mermaid_canvas::diagram::{DiagramKind, NodeShape, EdgeArrowhead, EdgeDecoration, EdgeStyle, Direction};

#[test]
fn test_simple_class() {
    let input = "classDiagram\n    class Animal";
    let ast = parse_class(input).unwrap();
    assert_eq!(ast.kind, DiagramKind::Class);
    assert_eq!(ast.node_count(), 1);
    assert!(ast.contains_node("Animal"));
    assert_eq!(ast.node("Animal").unwrap().shape, NodeShape::Rectangle);
}

#[test]
fn test_class_with_label() {
    let input = "classDiagram\n    class Animal[\"Animal Class\"]";
    let ast = parse_class(input).unwrap();
    assert_eq!(ast.node_count(), 1);
    assert_eq!(ast.node("Animal").unwrap().label, "Animal Class");
}

#[test]
fn test_class_with_inline_body() {
    let input = "classDiagram\n    class Animal {\n        +String name\n        +void speak()\n    }";
    let ast = parse_class(input).unwrap();
    assert_eq!(ast.node_count(), 1);
    let label = &ast.node("Animal").unwrap().label;
    assert!(label.contains("Animal"));
    assert!(label.contains("+String name"));
    assert!(label.contains("+void speak()"));
}

#[test]
fn test_stereotype() {
    let input = "classDiagram\n    class Shape {\n        <<interface>>\n        +draw()\n    }";
    let ast = parse_class(input).unwrap();
    let label = &ast.node("Shape").unwrap().label;
    assert!(label.contains("<<interface>>"));
    assert!(label.contains("+draw()"));
}

#[test]
fn test_inheritance() {
    let input = "classDiagram\n    Animal <|-- Dog";
    let ast = parse_class(input).unwrap();
    assert_eq!(ast.node_count(), 2);
    assert_eq!(ast.edge_count(), 1);
    let edge = &ast.edges[0];
    assert_eq!(edge.from, "Animal");
    assert_eq!(edge.to, "Dog");
    assert!(edge.directed);
    assert_eq!(edge.arrow_start, Some(EdgeArrowhead::OpenTriangle));
}

#[test]
fn test_composition() {
    let input = "classDiagram\n    Engine *-- Car";
    let ast = parse_class(input).unwrap();
    assert_eq!(ast.edge_count(), 1);
    let edge = &ast.edges[0];
    assert_eq!(edge.arrow_start, Some(EdgeArrowhead::Diamond));
    assert_eq!(edge.style, EdgeStyle::Solid);
}

#[test]
fn test_aggregation() {
    let input = "classDiagram\n    Teacher o-- Course";
    let ast = parse_class(input).unwrap();
    let edge = &ast.edges[0];
    assert_eq!(edge.start_decoration, Some(EdgeDecoration::Circle));
}

#[test]
fn test_dependency() {
    let input = "classDiagram\n    UserService ..> Logger";
    let ast = parse_class(input).unwrap();
    let edge = &ast.edges[0];
    assert!(edge.directed);
    assert_eq!(edge.arrow_end, Some(EdgeArrowhead::Arrow));
    assert_eq!(edge.style, EdgeStyle::Dotted);
}

#[test]
fn test_realization() {
    let input = "classDiagram\n    Drawable ..|> Circle";
    let ast = parse_class(input).unwrap();
    let edge = &ast.edges[0];
    assert!(edge.directed);
    assert_eq!(edge.arrow_end, Some(EdgeArrowhead::OpenTriangle));
    assert_eq!(edge.style, EdgeStyle::Dotted);
}

#[test]
fn test_labeled_relation() {
    let input = "classDiagram\n    Animal <|-- Dog : extends";
    let ast = parse_class(input).unwrap();
    let edge = &ast.edges[0];
    assert_eq!(edge.label.as_deref(), Some("extends"));
}

#[test]
fn test_multiplicity_labels() {
    let input = "classDiagram\n    Author \"1\" --> \"many\" Book";
    let ast = parse_class(input).unwrap();
    let edge = &ast.edges[0];
    assert_eq!(edge.start_label.as_deref(), Some("1"));
    assert_eq!(edge.end_label.as_deref(), Some("many"));
}

#[test]
fn test_association() {
    let input = "classDiagram\n    Student --> Course";
    let ast = parse_class(input).unwrap();
    let edge = &ast.edges[0];
    assert!(edge.directed);
    assert_eq!(edge.arrow_end, Some(EdgeArrowhead::Arrow));
    assert_eq!(edge.style, EdgeStyle::Solid);
}

#[test]
fn test_solid_link() {
    let input = "classDiagram\n    A -- B";
    let ast = parse_class(input).unwrap();
    let edge = &ast.edges[0];
    assert!(!edge.directed);
    assert_eq!(edge.style, EdgeStyle::Solid);
}

#[test]
fn test_dotted_link() {
    let input = "classDiagram\n    A .. B";
    let ast = parse_class(input).unwrap();
    let edge = &ast.edges[0];
    assert!(!edge.directed);
    assert_eq!(edge.style, EdgeStyle::Dotted);
}

#[test]
fn test_standalone_member() {
    let input = "classDiagram\n    class Animal\n    Animal : +String name\n    Animal : +void speak()";
    let ast = parse_class(input).unwrap();
    let label = &ast.node("Animal").unwrap().label;
    assert!(label.contains("+String name"));
    assert!(label.contains("+void speak()"));
}

#[test]
fn test_direction_header() {
    let input = "classDiagram LR\n    A --> B";
    let ast = parse_class(input).unwrap();
    assert_eq!(ast.direction, Direction::LeftToRight);
}

#[test]
fn test_multiple_classes_and_relations() {
    let input = "classDiagram\n    class Animal {\n        +String name\n    }\n    class Dog\n    Animal <|-- Dog";
    let ast = parse_class(input).unwrap();
    assert_eq!(ast.node_count(), 2);
    assert_eq!(ast.edge_count(), 1);
    assert!(ast.node("Animal").unwrap().label.contains("+String name"));
}

#[test]
fn class_test_comments_and_blank_lines() {
    let input = "classDiagram\n    %% This is a comment\n\n    class Foo\n    %% Another comment\n    Foo --> Bar";
    let ast = parse_class(input).unwrap();
    assert_eq!(ast.node_count(), 2);
}

#[test]
fn test_class_with_semicolons() {
    let input = "classDiagram\n    class Person {\n        +String name; +int age\n    }";
    let ast = parse_class(input).unwrap();
    let label = &ast.node("Person").unwrap().label;
    assert!(label.contains("+String name"));
    assert!(label.contains("+int age"));
}

#[test]
fn test_reverse_relation_tokens() {
    let input = "classDiagram\n    Dog --|> Animal";
    let ast = parse_class(input).unwrap();
    let edge = &ast.edges[0];
    assert_eq!(edge.from, "Dog");
    assert_eq!(edge.to, "Animal");
    assert_eq!(edge.arrow_end, Some(EdgeArrowhead::OpenTriangle));
}

#[test]
fn test_method_return_type_normalization() {
    let input = "classDiagram\n    class Service {\n        +String getName()\n    }";
    let ast = parse_class(input).unwrap();
    let label = &ast.node("Service").unwrap().label;
    assert!(label.contains("getName()"));
}

#[test]
fn test_is_class_stereotype() {
    assert!(is_class_stereotype("<<interface>>"));
    assert!(is_class_stereotype("<<abstract>>"));
    assert!(!is_class_stereotype("<<>>"));
    assert!(!is_class_stereotype("interface"));
}

#[test]
fn test_strip_quotes() {
    assert_eq!(strip_quotes_str("\"hello\""), "hello");
    assert_eq!(strip_quotes_str("'hello'"), "hello");
    assert_eq!(strip_quotes_str("hello"), "hello");
}

#[test]
fn test_split_class_body() {
    let body = "+String name; +int age";
    let entries = split_class_body(body);
    assert_eq!(entries, vec!["+String name", "+int age"]);
}

#[test]
fn test_parse_class_declaration_simple() {
    let result = parse_class_declaration("Animal").unwrap();
    assert_eq!(result.0, "Animal");
    assert!(result.1.is_none());
    assert!(result.2.is_none());
    assert!(!result.3);
}

#[test]
fn test_parse_class_declaration_with_label() {
    let result = parse_class_declaration("Animal[\"My Animal\"]").unwrap();
    assert_eq!(result.0, "Animal");
    assert_eq!(result.1, Some("My Animal".to_string()));
}

#[test]
fn test_parse_class_declaration_with_body() {
    let result = parse_class_declaration("Animal { +String name }").unwrap();
    assert_eq!(result.0, "Animal");
    assert_eq!(result.2, Some("+String name".to_string()));
    assert!(!result.3);
}

#[test]
fn test_parse_class_declaration_open_body() {
    let result = parse_class_declaration("Animal {").unwrap();
    assert_eq!(result.0, "Animal");
    assert!(result.2.is_none());
    assert!(result.3);
}

#[test]
fn test_normalize_method_signature() {
    assert_eq!(normalize_method_signature("+foo()"), "+foo()");
    assert_eq!(normalize_method_signature("+foo() String"), "+foo() : String");
    assert_eq!(normalize_method_signature("+foo() : String"), "+foo() : String");
}

#[test]
fn test_edge_meta_solid_arrow() {
    let meta = edge_meta_from_token("-->");
    assert!(meta.directed);
    assert_eq!(meta.arrow_end, Some(EdgeArrowhead::Arrow));
    assert_eq!(meta.style, EdgeStyle::Solid);
}

#[test]
fn test_edge_meta_dotted_arrow() {
    let meta = edge_meta_from_token("..>");
    assert!(meta.directed);
    assert_eq!(meta.arrow_end, Some(EdgeArrowhead::Arrow));
    assert_eq!(meta.style, EdgeStyle::Dotted);
}

#[test]
fn test_edge_meta_inheritance() {
    let meta = edge_meta_from_token("<|--");
    assert!(meta.directed);
    assert_eq!(meta.arrow_start, Some(EdgeArrowhead::OpenTriangle));
    assert_eq!(meta.style, EdgeStyle::Solid);
}

#[test]
fn test_edge_meta_composition() {
    let meta = edge_meta_from_token("*--");
    assert_eq!(meta.arrow_start, Some(EdgeArrowhead::Diamond));
    assert_eq!(meta.style, EdgeStyle::Solid);
}

#[test]
fn class_full_label_layout() {
    let input = "classDiagram\n    class Service {\n        <<service>>\n        +int count\n        +String getName()\n    }";
    let ast = parse_class(input).unwrap();
    assert_eq!(
        ast.node("Service").unwrap().label,
        "<<service>>\nService\n---\n+int count\n---\n+String getName()"
    );
}

#[test]
fn quoted_class_name_keeps_only_identifier_characters() {
    let result = parse_class_declaration("\"My Class-2 类\"").unwrap();
    assert_eq!(result.0, "MyClass2类");
    assert_eq!(result.1, Some("My Class-2 类".to_string()));
}
