//! Built-in themes: colours are assigned by node shape through seven semantic slots
//! (primary, secondary, accent, info, data, special, external).

use vstd::prelude::*;
use crate::diagram::NodeShape;
use crate::preset::StylePreset;

verus! {

/// Slot of a node shape: shapes of one semantic group share a colour.
pub open spec fn slot_of(shape: NodeShape) -> nat {
    match shape {
        NodeShape::Rectangle | NodeShape::RoundRect | NodeShape::Stadium => 0,
        NodeShape::Subroutine => 1,
        NodeShape::Diamond => 2,
        NodeShape::Circle | NodeShape::DoubleCircle => 3,
        NodeShape::Cylinder => 4,
        NodeShape::Hexagon | NodeShape::Parallelogram | NodeShape::Trapezoid => 5,
        NodeShape::Asymmetric => 6,
    }
}

/// The colour slot of a node shape.
pub fn shape_slot(shape: &NodeShape) -> (r: usize)
    ensures
        r == slot_of(*shape),
        r < 7,
{
    match shape {
        NodeShape::Rectangle | NodeShape::RoundRect | NodeShape::Stadium => 0,
        NodeShape::Subroutine => 1,
        NodeShape::Diamond => 2,
        NodeShape::Circle | NodeShape::DoubleCircle => 3,
        NodeShape::Cylinder => 4,
        NodeShape::Hexagon | NodeShape::Parallelogram | NodeShape::Trapezoid => 5,
        NodeShape::Asymmetric => 6,
    }
}

/// Font family shared by the built-in themes.
pub open spec fn builtin_font_family() -> Seq<char> {
    "sans-serif"@
}

/// The default light theme.
pub struct DefaultTheme;

/// Palette of the default theme, by slot.
pub open spec fn default_palette(slot: nat) -> Seq<char> {
    if slot == 0 {
        "#dae8fc"@
    } else if slot == 1 {
        "#e1d5e7"@
    } else if slot == 2 {
        "#fff2cc"@
    } else if slot == 3 {
        "#d5e8d4"@
    } else if slot == 4 {
        "#f8cecc"@
    } else if slot == 5 {
        "#fff2cc"@
    } else {
        "#d8d8e8"@
    }
}

impl DefaultTheme {
    /// Theme name.
    pub fn name(&self) -> (r: &'static str)
        ensures
            r@ == "Default"@,
    {
        "Default"
    }

    /// Background colour.
    pub fn background_color(&self) -> (r: &'static str)
        ensures
            r@ == "#ffffff"@,
    {
        "#ffffff"
    }

    /// Font family.
    pub fn font_family(&self) -> (r: &'static str)
        ensures
            r@ == builtin_font_family(),
    {
        "sans-serif"
    }

    /// Fill colour of a node: the palette colour of its shape's slot.
    pub fn node_fill_color(&self, shape: &NodeShape) -> (r: &'static str)
        ensures
            r@ == default_palette(slot_of(*shape)),
    {
        match shape_slot(shape) {
            0 => "#dae8fc",
            1 => "#e1d5e7",
            2 => "#fff2cc",
            3 => "#d5e8d4",
            4 => "#f8cecc",
            5 => "#fff2cc",
            _ => "#d8d8e8",
        }
    }

    /// Node border colour.
    pub fn node_stroke(&self) -> (r: &'static str)
        ensures
            r@ == "#6c8ebf"@,
    {
        "#6c8ebf"
    }

    /// Node border colour for a shape: the same for every shape.
    pub fn node_stroke_for(&self, shape: &NodeShape) -> (r: &'static str)
        ensures
            r@ == "#6c8ebf"@,
    {
        self.node_stroke()
    }

    /// Node text colour.
    pub fn node_text_color(&self) -> (r: &'static str)
        ensures
            r@ == "#333333"@,
    {
        "#333333"
    }

    /// Edge colour.
    pub fn edge_color(&self) -> (r: &'static str)
        ensures
            r@ == "#666666"@,
    {
        "#666666"
    }

    /// Background of edge labels.
    pub fn edge_label_background(&self) -> (r: &'static str)
        ensures
            r@ == "#ffffff"@,
    {
        "#ffffff"
    }

    /// Subgraph background.
    pub fn subgraph_background(&self) -> (r: &'static str)
        ensures
            r@ == "#f5f5f5"@,
    {
        "#f5f5f5"
    }

    /// Subgraph border.
    pub fn subgraph_border(&self) -> (r: &'static str)
        ensures
            r@ == "#cccccc"@,
    {
        "#cccccc"
    }

    /// Title colour.
    pub fn title_color(&self) -> (r: &'static str)
        ensures
            r@ == "#333333"@,
    {
        "#333333"
    }

    /// Style preset: `Classic`.
    pub fn style_preset(&self) -> (r: StylePreset)
        ensures
            r == StylePreset::Classic,
    {
        StylePreset::Classic
    }
}

/// The dark theme.
pub struct DarkTheme;

/// Palette of the dark theme, by slot.
pub open spec fn dark_palette(slot: nat) -> Seq<char> {
    if slot == 0 {
        "#7aa2f7"@
    } else if slot == 1 {
        "#bb9af7"@
    } else if slot == 2 {
        "#e0af68"@
    } else if slot == 3 {
        "#7dcfff"@
    } else if slot == 4 {
        "#9ece6a"@
    } else if slot == 5 {
        "#f7768e"@
    } else {
        "#c0caf5"@
    }
}

impl DarkTheme {
    /// Theme name.
    pub fn name(&self) -> (r: &'static str)
        ensures
            r@ == "Dark"@,
    {
        "Dark"
    }

    /// Background colour.
    pub fn background_color(&self) -> (r: &'static str)
        ensures
            r@ == "#1a1b26"@,
    {
        "#1a1b26"
    }

    /// Font family.
    pub fn font_family(&self) -> (r: &'static str)
        ensures
            r@ == builtin_font_family(),
    {
        "sans-serif"
    }

    /// Fill colour of a node: the palette colour of its shape's slot.
    pub fn node_fill_color(&self, shape: &NodeShape) -> (r: &'static str)
        ensures
            r@ == dark_palette(slot_of(*shape)),
    {
        match shape_slot(shape) {
            0 => "#7aa2f7",
            1 => "#bb9af7",
            2 => "#e0af68",
            3 => "#7dcfff",
            4 => "#9ece6a",
            5 => "#f7768e",
            _ => "#c0caf5",
        }
    }

    /// Node border colour.
    pub fn node_stroke(&self) -> (r: &'static str)
        ensures
            r@ == "#89b4fa"@,
    {
        "#89b4fa"
    }

    /// Node border colour for a shape: the same for every shape.
    pub fn node_stroke_for(&self, shape: &NodeShape) -> (r: &'static str)
        ensures
            r@ == "#89b4fa"@,
    {
        self.node_stroke()
    }

    /// Node text colour.
    pub fn node_text_color(&self) -> (r: &'static str)
        ensures
            r@ == "#c0caf5"@,
    {
        "#c0caf5"
    }

    /// Edge colour.
    pub fn edge_color(&self) -> (r: &'static str)
        ensures
            r@ == "#7c87b8"@,
    {
        "#7c87b8"
    }

    /// Background of edge labels.
    pub fn edge_label_background(&self) -> (r: &'static str)
        ensures
            r@ == "#1a1b26"@,
    {
        "#1a1b26"
    }

    /// Subgraph background.
    pub fn subgraph_background(&self) -> (r: &'static str)
        ensures
            r@ == "#16161e"@,
    {
        "#16161e"
    }

    /// Subgraph border.
    pub fn subgraph_border(&self) -> (r: &'static str)
        ensures
            r@ == "#3b4261"@,
    {
        "#3b4261"
    }

    /// Title colour.
    pub fn title_color(&self) -> (r: &'static str)
        ensures
            r@ == "#c0caf5"@,
    {
        "#c0caf5"
    }

    /// Style preset: `Classic`.
    pub fn style_preset(&self) -> (r: StylePreset)
        ensures
            r == StylePreset::Classic,
    {
        StylePreset::Classic
    }
}

/// The forest theme: dark green background, layered greens.
pub struct ForestTheme;

/// Palette of the forest theme, by slot.
pub open spec fn forest_palette(slot: nat) -> Seq<char> {
    if slot == 0 {
        "#2d5a27"@
    } else if slot == 1 {
        "#3a6b34"@
    } else if slot == 2 {
        "#4a7c3f"@
    } else if slot == 3 {
        "#1e4d2b"@
    } else if slot == 4 {
        "#5a3a27"@
    } else if slot == 5 {
        "#3a6b34"@
    } else {
        "#3d4a2d"@
    }
}

impl ForestTheme {
    /// Theme name.
    pub fn name(&self) -> (r: &'static str)
        ensures
            r@ == "Forest"@,
    {
        "Forest"
    }

    /// Background colour.
    pub fn background_color(&self) -> (r: &'static str)
        ensures
            r@ == "#1b2a1b"@,
    {
        "#1b2a1b"
    }

    /// Font family.
    pub fn font_family(&self) -> (r: &'static str)
        ensures
            r@ == builtin_font_family(),
    {
        "sans-serif"
    }

    /// Fill colour of a node: the palette colour of its shape's slot.
    pub fn node_fill_color(&self, shape: &NodeShape) -> (r: &'static str)
        ensures
            r@ == forest_palette(slot_of(*shape)),
    {
        match shape_slot(shape) {
            0 => "#2d5a27",
            1 => "#3a6b34",
            2 => "#4a7c3f",
            3 => "#1e4d2b",
            4 => "#5a3a27",
            5 => "#3a6b34",
            _ => "#3d4a2d",
        }
    }

    /// Node border colour.
    pub fn node_stroke(&self) -> (r: &'static str)
        ensures
            r@ == "#8bc34a"@,
    {
        "#8bc34a"
    }

    /// Node border colour for a shape: the same for every shape.
    pub fn node_stroke_for(&self, shape: &NodeShape) -> (r: &'static str)
        ensures
            r@ == "#8bc34a"@,
    {
        self.node_stroke()
    }

    /// Node text colour.
    pub fn node_text_color(&self) -> (r: &'static str)
        ensures
            r@ == "#e8f5e9"@,
    {
        "#e8f5e9"
    }

    /// Edge colour.
    pub fn edge_color(&self) -> (r: &'static str)
        ensures
            r@ == "#689f38"@,
    {
        "#689f38"
    }

    /// Background of edge labels.
    pub fn edge_label_background(&self) -> (r: &'static str)
        ensures
            r@ == "#1b2a1b"@,
    {
        "#1b2a1b"
    }

    /// Subgraph background.
    pub fn subgraph_background(&self) -> (r: &'static str)
        ensures
            r@ == "#0d1f0d"@,
    {
        "#0d1f0d"
    }

    /// Subgraph border.
    pub fn subgraph_border(&self) -> (r: &'static str)
        ensures
            r@ == "#558b2f"@,
    {
        "#558b2f"
    }

    /// Title colour.
    pub fn title_color(&self) -> (r: &'static str)
        ensures
            r@ == "#c5e1a5"@,
    {
        "#c5e1a5"
    }

    /// Style preset: `Classic`.
    pub fn style_preset(&self) -> (r: StylePreset)
        ensures
            r == StylePreset::Classic,
    {
        StylePreset::Classic
    }
}

/// The nordic theme: cool grey-blue with a pale pink accent.
pub struct NordicTheme;

/// Palette of the nordic theme, by slot.
pub open spec fn nordic_palette(slot: nat) -> Seq<char> {
    if slot == 0 {
        "#dfe6ed"@
    } else if slot == 1 {
        "#e8edf2"@
    } else if slot == 2 {
        "#f0e6ec"@
    } else if slot == 3 {
        "#e2e8f0"@
    } else if slot == 4 {
        "#e0ddd8"@
    } else if slot == 5 {
        "#ede9e6"@
    } else {
        "#e4e4e0"@
    }
}

impl NordicTheme {
    /// Theme name.
    pub fn name(&self) -> (r: &'static str)
        ensures
            r@ == "Nordic"@,
    {
        "Nordic"
    }

    /// Background colour.
    pub fn background_color(&self) -> (r: &'static str)
        ensures
            r@ == "#f8f9fb"@,
    {
        "#f8f9fb"
    }

    /// Font family.
    pub fn font_family(&self) -> (r: &'static str)
        ensures
            r@ == builtin_font_family(),
    {
        "sans-serif"
    }

    /// Fill colour of a node: the palette colour of its shape's slot.
    pub fn node_fill_color(&self, shape: &NodeShape) -> (r: &'static str)
        ensures
            r@ == nordic_palette(slot_of(*shape)),
    {
        match shape_slot(shape) {
            0 => "#dfe6ed",
            1 => "#e8edf2",
            2 => "#f0e6ec",
            3 => "#e2e8f0",
            4 => "#e0ddd8",
            5 => "#ede9e6",
            _ => "#e4e4e0",
        }
    }

    /// Node border colour.
    pub fn node_stroke(&self) -> (r: &'static str)
        ensures
            r@ == "#8b9eb0"@,
    {
        "#8b9eb0"
    }

    /// Node border colour for a shape: the same for every shape.
    pub fn node_stroke_for(&self, shape: &NodeShape) -> (r: &'static str)
        ensures
            r@ == "#8b9eb0"@,
    {
        self.node_stroke()
    }

    /// Node text colour.
    pub fn node_text_color(&self) -> (r: &'static str)
        ensures
            r@ == "#3d4f5f"@,
    {
        "#3d4f5f"
    }

    /// Edge colour.
    pub fn edge_color(&self) -> (r: &'static str)
        ensures
            r@ == "#8b9eb0"@,
    {
        "#8b9eb0"
    }

    /// Background of edge labels.
    pub fn edge_label_background(&self) -> (r: &'static str)
        ensures
            r@ == "#f8f9fb"@,
    {
        "#f8f9fb"
    }

    /// Subgraph background.
    pub fn subgraph_background(&self) -> (r: &'static str)
        ensures
            r@ == "#eef1f5"@,
    {
        "#eef1f5"
    }

    /// Subgraph border.
    pub fn subgraph_border(&self) -> (r: &'static str)
        ensures
            r@ == "#8b9eb0"@,
    {
        "#8b9eb0"
    }

    /// Title colour.
    pub fn title_color(&self) -> (r: &'static str)
        ensures
            r@ == "#3d4f5f"@,
    {
        "#3d4f5f"
    }

    /// Style preset: `Classic`.
    pub fn style_preset(&self) -> (r: StylePreset)
        ensures
            r == StylePreset::Classic,
    {
        StylePreset::Classic
    }
}

/// The cappuccino theme: warm milk-coffee browns.
pub struct CappuccinoTheme;

/// Palette of the cappuccino theme, by slot.
pub open spec fn cappuccino_palette(slot: nat) -> Seq<char> {
    if slot == 0 {
        "#e8d5c4"@
    } else if slot == 1 {
        "#dcc8b4"@
    } else if slot == 2 {
        "#f0e0d0"@
    } else if slot == 3 {
        "#d4b896"@
    } else if slot == 4 {
        "#c9a882"@
    } else if slot == 5 {
        "#e0cdc0"@
    } else {
        "#d9cbbd"@
    }
}

impl CappuccinoTheme {
    /// Theme name.
    pub fn name(&self) -> (r: &'static str)
        ensures
            r@ == "Cappuccino"@,
    {
        "Cappuccino"
    }

    /// Background colour.
    pub fn background_color(&self) -> (r: &'static str)
        ensures
            r@ == "#faf6f1"@,
    {
        "#faf6f1"
    }

    /// Font family.
    pub fn font_family(&self) -> (r: &'static str)
        ensures
            r@ == builtin_font_family(),
    {
        "sans-serif"
    }

    /// Fill colour of a node: the palette colour of its shape's slot.
    pub fn node_fill_color(&self, shape: &NodeShape) -> (r: &'static str)
        ensures
            r@ == cappuccino_palette(slot_of(*shape)),
    {
        match shape_slot(shape) {
            0 => "#e8d5c4",
            1 => "#dcc8b4",
            2 => "#f0e0d0",
            3 => "#d4b896",
            4 => "#c9a882",
            5 => "#e0cdc0",
            _ => "#d9cbbd",
        }
    }

    /// Node border colour.
    pub fn node_stroke(&self) -> (r: &'static str)
        ensures
            r@ == "#8b6f4e"@,
    {
        "#8b6f4e"
    }

    /// Node border colour for a shape: the same for every shape.
    pub fn node_stroke_for(&self, shape: &NodeShape) -> (r: &'static str)
        ensures
            r@ == "#8b6f4e"@,
    {
        self.node_stroke()
    }

    /// Node text colour.
    pub fn node_text_color(&self) -> (r: &'static str)
        ensures
            r@ == "#3e2c1c"@,
    {
        "#3e2c1c"
    }

    /// Edge colour.
    pub fn edge_color(&self) -> (r: &'static str)
        ensures
            r@ == "#a08060"@,
    {
        "#a08060"
    }

    /// Background of edge labels.
    pub fn edge_label_background(&self) -> (r: &'static str)
        ensures
            r@ == "#faf6f1"@,
    {
        "#faf6f1"
    }

    /// Subgraph background.
    pub fn subgraph_background(&self) -> (r: &'static str)
        ensures
            r@ == "#f0e8de"@,
    {
        "#f0e8de"
    }

    /// Subgraph border.
    pub fn subgraph_border(&self) -> (r: &'static str)
        ensures
            r@ == "#c9a882"@,
    {
        "#c9a882"
    }

    /// Title colour.
    pub fn title_color(&self) -> (r: &'static str)
        ensures
            r@ == "#5d3a1a"@,
    {
        "#5d3a1a"
    }

    /// Style preset: `Classic`.
    pub fn style_preset(&self) -> (r: StylePreset)
        ensures
            r == StylePreset::Classic,
    {
        StylePreset::Classic
    }
}

/// Shapes of one semantic group share a slot, and so a colour in every theme.
pub proof fn lemma_slot_groups(a: NodeShape, b: NodeShape)
    ensures
        (slot_of(a) == slot_of(b)) <==> (
            a == b
            || ((a == NodeShape::Rectangle || a == NodeShape::RoundRect || a == NodeShape::Stadium)
                && (b == NodeShape::Rectangle || b == NodeShape::RoundRect || b == NodeShape::Stadium))
            || ((a == NodeShape::Circle || a == NodeShape::DoubleCircle)
                && (b == NodeShape::Circle || b == NodeShape::DoubleCircle))
            || ((a == NodeShape::Hexagon || a == NodeShape::Parallelogram || a == NodeShape::Trapezoid)
                && (b == NodeShape::Hexagon || b == NodeShape::Parallelogram || b == NodeShape::Trapezoid))
        ),
{
}

/// In every built-in theme, decisions and start/end nodes are coloured apart from
/// ordinary process nodes, and process nodes stand out from the background.
pub proof fn lemma_builtin_fills_distinguish_groups()
    ensures
        default_palette(slot_of(NodeShape::Rectangle)) != default_palette(slot_of(NodeShape::Diamond)),
        default_palette(slot_of(NodeShape::Rectangle)) != default_palette(slot_of(NodeShape::Circle)),
        default_palette(slot_of(NodeShape::Rectangle)) != "#ffffff"@,
        dark_palette(slot_of(NodeShape::Rectangle)) != dark_palette(slot_of(NodeShape::Diamond)),
        dark_palette(slot_of(NodeShape::Rectangle)) != dark_palette(slot_of(NodeShape::Circle)),
        dark_palette(slot_of(NodeShape::Rectangle)) != "#1a1b26"@,
        forest_palette(slot_of(NodeShape::Rectangle)) != forest_palette(slot_of(NodeShape::Diamond)),
        forest_palette(slot_of(NodeShape::Rectangle)) != forest_palette(slot_of(NodeShape::Circle)),
        forest_palette(slot_of(NodeShape::Rectangle)) != "#1b2a1b"@,
        nordic_palette(slot_of(NodeShape::Rectangle)) != nordic_palette(slot_of(NodeShape::Diamond)),
        nordic_palette(slot_of(NodeShape::Rectangle)) != nordic_palette(slot_of(NodeShape::Circle)),
        nordic_palette(slot_of(NodeShape::Rectangle)) != "#f8f9fb"@,
        cappuccino_palette(slot_of(NodeShape::Rectangle)) != cappuccino_palette(slot_of(NodeShape::Diamond)),
        cappuccino_palette(slot_of(NodeShape::Rectangle)) != cappuccino_palette(slot_of(NodeShape::Circle)),
        cappuccino_palette(slot_of(NodeShape::Rectangle)) != "#faf6f1"@,
{
    reveal_strlit("#1a1b26");
    reveal_strlit("#1b2a1b");
    reveal_strlit("#1e4d2b");
    reveal_strlit("#2d5a27");
    reveal_strlit("#4a7c3f");
    reveal_strlit("#7aa2f7");
    reveal_strlit("#7dcfff");
    reveal_strlit("#d4b896");
    reveal_strlit("#d5e8d4");
    reveal_strlit("#dae8fc");
    reveal_strlit("#dfe6ed");
    reveal_strlit("#e0af68");
    reveal_strlit("#e2e8f0");
    reveal_strlit("#e8d5c4");
    reveal_strlit("#f0e0d0");
    reveal_strlit("#f0e6ec");
    reveal_strlit("#f8f9fb");
    reveal_strlit("#faf6f1");
    reveal_strlit("#fff2cc");
    reveal_strlit("#ffffff");
    assert("#dae8fc"@[1] != "#fff2cc"@[1]);
    assert("#dae8fc"@[2] != "#d5e8d4"@[2]);
    assert("#dae8fc"@[1] != "#ffffff"@[1]);
    assert("#7aa2f7"@[1] != "#e0af68"@[1]);
    assert("#7aa2f7"@[2] != "#7dcfff"@[2]);
    assert("#7aa2f7"@[1] != "#1a1b26"@[1]);
    assert("#2d5a27"@[1] != "#4a7c3f"@[1]);
    assert("#2d5a27"@[1] != "#1e4d2b"@[1]);
    assert("#2d5a27"@[1] != "#1b2a1b"@[1]);
    assert("#dfe6ed"@[1] != "#f0e6ec"@[1]);
    assert("#dfe6ed"@[1] != "#e2e8f0"@[1]);
    assert("#dfe6ed"@[1] != "#f8f9fb"@[1]);
    assert("#e8d5c4"@[1] != "#f0e0d0"@[1]);
    assert("#e8d5c4"@[1] != "#d4b896"@[1]);
    assert("#e8d5c4"@[1] != "#faf6f1"@[1]);
}

} // verus!
