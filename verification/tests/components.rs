use mermaid_canvas::preset::StylePreset;
use mermaid_canvas::theme::{shape_slot, DefaultTheme, DarkTheme, ForestTheme, NordicTheme, CappuccinoTheme};
use mermaid_canvas::diagram::{NodeShape, EdgeStyle, DiagramKind};
use mermaid_canvas::decor::edge_style_decor;
use mermaid_canvas::layer::LayerKind;
use mermaid_canvas::cli::CliArgs;
use mermaid_canvas::component_error::ComponentError;
use mermaid_canvas::error::CoreError;
use mermaid_canvas::style::{TextAnchor, TextBaseline};
use mermaid_canvas::demo::DemoApp;
use mermaid_canvas::samples::{
    flowchart_sample, class_sample, state_sample, er_sample, requirement_sample, packet_sample,
    sequence_sample,
};
use mermaid_canvas::detect::detect_diagram_kind;

fn px(tenths: &Option<Vec<u32>>) -> Option<Vec<f64>> {
    tenths.as_ref().map(|v| v.iter().map(|t| *t as f64 / 10.0).collect())
}

#[test]
fn test_parse_all_four_and_fallbacks() {
    assert_eq!(StylePreset::parse(&None), StylePreset::Classic);
    assert_eq!(StylePreset::parse(&Some("classic".into())), StylePreset::Classic);
    assert_eq!(StylePreset::parse(&Some("signal-flow".into())), StylePreset::SignalFlow);
    assert_eq!(StylePreset::parse(&Some("blueprint".into())), StylePreset::Blueprint);
    assert_eq!(StylePreset::parse(&Some("editorial".into())), StylePreset::Editorial);
    assert_eq!(StylePreset::parse(&Some("unknown".into())), StylePreset::Classic, "unknown falls back to classic");
    assert_eq!(StylePreset::parse(&Some("".into())), StylePreset::Classic);
}

#[test]
fn preset_switches() {
    assert!(StylePreset::SignalFlow.edge_glow());
    assert!(!StylePreset::Classic.edge_glow());
    assert!(!StylePreset::Blueprint.edge_glow());
    assert!(StylePreset::SignalFlow.arrow_glow());
    assert!(StylePreset::SignalFlow.gradient_fill());
    assert!(StylePreset::Classic.gradient_fill());
    assert!(!StylePreset::Blueprint.gradient_fill());
    assert!(StylePreset::SignalFlow.gradient_hundredths() > StylePreset::Classic.gradient_hundredths());
    assert!(StylePreset::Classic.inset_highlight());
    assert!(!StylePreset::Blueprint.inset_highlight());
    assert!(StylePreset::SignalFlow.sigils() && StylePreset::Blueprint.sigils());
    assert!(!StylePreset::Classic.sigils() && !StylePreset::Editorial.sigils());
}

#[test]
fn test_shape_slot_mapping() {
    assert_eq!(shape_slot(&NodeShape::Rectangle), shape_slot(&NodeShape::RoundRect));
    assert_eq!(shape_slot(&NodeShape::Circle), shape_slot(&NodeShape::DoubleCircle));
    assert_ne!(shape_slot(&NodeShape::Rectangle), shape_slot(&NodeShape::Diamond));
    assert_ne!(shape_slot(&NodeShape::Diamond), shape_slot(&NodeShape::Circle));
    assert_ne!(shape_slot(&NodeShape::Cylinder), shape_slot(&NodeShape::Rectangle));
}

#[test]
fn test_theme_names() {
    assert_eq!(DefaultTheme.name(), "Default");
    assert_eq!(DarkTheme.name(), "Dark");
    assert_eq!(ForestTheme.name(), "Forest");
    assert_eq!(NordicTheme.name(), "Nordic");
    assert_eq!(CappuccinoTheme.name(), "Cappuccino");
}

#[test]
fn test_forest_theme_dark_background() {
    assert_eq!(ForestTheme.background_color(), "#1b2a1b");
}

#[test]
fn test_asymmetric_maps_to_external_slot() {
    assert_eq!(shape_slot(&NodeShape::Asymmetric), 6);
    assert_ne!(shape_slot(&NodeShape::Asymmetric), shape_slot(&NodeShape::Hexagon));
}

#[test]
fn test_all_themes_shape_based_coloring() {
    let fills: Vec<(&str, [&str; 4])> = vec![
        (DefaultTheme.background_color(), [DefaultTheme.node_fill_color(&NodeShape::Rectangle), DefaultTheme.node_fill_color(&NodeShape::Diamond), DefaultTheme.node_fill_color(&NodeShape::Circle), DefaultTheme.node_fill_color(&NodeShape::RoundRect)]),
        (DarkTheme.background_color(), [DarkTheme.node_fill_color(&NodeShape::Rectangle), DarkTheme.node_fill_color(&NodeShape::Diamond), DarkTheme.node_fill_color(&NodeShape::Circle), DarkTheme.node_fill_color(&NodeShape::RoundRect)]),
        (ForestTheme.background_color(), [ForestTheme.node_fill_color(&NodeShape::Rectangle), ForestTheme.node_fill_color(&NodeShape::Diamond), ForestTheme.node_fill_color(&NodeShape::Circle), ForestTheme.node_fill_color(&NodeShape::RoundRect)]),
        (NordicTheme.background_color(), [NordicTheme.node_fill_color(&NodeShape::Rectangle), NordicTheme.node_fill_color(&NodeShape::Diamond), NordicTheme.node_fill_color(&NodeShape::Circle), NordicTheme.node_fill_color(&NodeShape::RoundRect)]),
        (CappuccinoTheme.background_color(), [CappuccinoTheme.node_fill_color(&NodeShape::Rectangle), CappuccinoTheme.node_fill_color(&NodeShape::Diamond), CappuccinoTheme.node_fill_color(&NodeShape::Circle), CappuccinoTheme.node_fill_color(&NodeShape::RoundRect)]),
    ];
    for (bg, [rect, diamond, circle, round]) in fills {
        assert_ne!(rect, diamond);
        assert_ne!(rect, circle);
        assert_eq!(rect, round);
        assert_ne!(bg, rect);
    }
    assert_eq!(DefaultTheme.node_fill_color(&NodeShape::Asymmetric), "#d8d8e8");
}

#[test]
fn test_edge_style_decor_mapping() {
    let solid = edge_style_decor(EdgeStyle::Solid);
    assert!(solid.dash_tenths.is_none() && solid.line_cap.is_none() && solid.stroke_width_tenths.is_none());
    assert_eq!(px(&edge_style_decor(EdgeStyle::Dashed).dash_tenths), Some(vec![6.0, 4.0]));
    let dotted = edge_style_decor(EdgeStyle::Dotted);
    assert_eq!(px(&dotted.dash_tenths), Some(vec![2.0, 3.0]));
    assert_eq!(dotted.line_cap.as_deref(), Some("round"));
    assert_eq!(edge_style_decor(EdgeStyle::Thick).stroke_width_tenths.map(|t| t as f64 / 10.0), Some(2.5));
}

#[test]
fn layer_kinds_in_order() {
    let kinds = LayerKind::all_standard_kinds();
    assert_eq!(kinds.len(), 7);
    for (i, k) in kinds.iter().enumerate() {
        assert_eq!(k.default_z_index() as usize, i);
    }
    assert_eq!(LayerKind::Title.default_z_index(), 5);
}

#[test]
fn cli_parse_from_options() {
    let args: Vec<String> = vec!["--theme", "dark", "--bogus", "--output", "out.png"].into_iter().map(String::from).collect();
    let cli = CliArgs::parse_from(&args);
    assert_eq!(cli.theme_name(), "dark");
    assert_eq!(cli.theme_arg(), Some("dark"));
    assert_eq!(cli.output.as_deref(), Some("out.png"));
    assert!(!cli.use_wasm());
    let none = CliArgs::parse_from(&[]);
    assert_eq!(none.theme_name(), "default");
    assert_eq!(none.theme_arg(), None);
    let trailing: Vec<String> = vec!["--wasm".to_string()];
    assert!(!CliArgs::parse_from(&trailing).use_wasm());
    let wasm: Vec<String> = vec!["--wasm".to_string(), "r.wasm".to_string(), "--theme".to_string()];
    let c = CliArgs::parse_from(&wasm);
    assert!(c.use_wasm());
    assert_eq!(c.theme, None);
}

#[test]
fn error_messages() {
    let e = ComponentError::ParseError { message: "bad".to_string(), line: Some(42) };
    assert_eq!(e.message(), "Parse error at line 42: bad");
    let e = ComponentError::ParseError { message: "bad".to_string(), line: None };
    assert_eq!(e.message(), "Parse error: bad");
    let e = ComponentError::UnsupportedDiagram { kind: "pie".to_string() };
    assert_eq!(e.message(), "Unsupported diagram type: pie");
    assert_eq!(CoreError::layout_error("x").message(), "Layout error: x");
    assert_eq!(CoreError::invalid_input("y").message(), "Invalid input: y");
}

#[test]
fn style_keywords() {
    assert_eq!(TextAnchor::Middle.as_str(), "middle");
    assert_eq!(TextBaseline::Alphabetic.as_str(), "alphabetic");
}

#[test]
fn demo_app_title() {
    let app = DemoApp::new("Demo", 800, 600);
    assert_eq!(app.title(), "Demo");
}

#[test]
fn samples_are_detected() {
    assert_eq!(detect_diagram_kind(flowchart_sample()), Some(DiagramKind::Flowchart));
    assert_eq!(detect_diagram_kind(class_sample()), Some(DiagramKind::Class));
    assert_eq!(detect_diagram_kind(state_sample()), Some(DiagramKind::State));
    assert_eq!(detect_diagram_kind(er_sample()), Some(DiagramKind::Er));
    assert_eq!(detect_diagram_kind(requirement_sample()), Some(DiagramKind::Requirement));
    assert_eq!(detect_diagram_kind(packet_sample()), Some(DiagramKind::Packet));
    assert_eq!(detect_diagram_kind(sequence_sample()), Some(DiagramKind::Sequence));
}
