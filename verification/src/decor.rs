//! Line decoration of an edge by its line style. Lengths are in tenths of a pixel.

use vstd::prelude::*;
use crate::diagram::EdgeStyle;
use crate::text::{lit, chars_to_string};

verus! {

/// Stroke decoration of a line: dash pattern, line cap and width, each optional.
#[derive(Debug, Clone)]
pub struct LineDecor {
    pub dash_tenths: Option<Vec<u32>>,
    pub line_cap: Option<String>,
    pub stroke_width_tenths: Option<u32>,
}

/// Dash pattern (tenths of a pixel) of a line style.
pub open spec fn dash_of(style: EdgeStyle) -> Option<Seq<u32>> {
    match style {
        EdgeStyle::Dashed => Some(seq![60u32, 40u32]),
        EdgeStyle::Dotted => Some(seq![20u32, 30u32]),
        _ => None,
    }
}

/// Line cap of a line style.
pub open spec fn cap_of(style: EdgeStyle) -> Option<Seq<char>> {
    match style {
        EdgeStyle::Dotted => Some("round"@),
        _ => None,
    }
}

/// Stroke width (tenths of a pixel) of a line style, where it sets one.
pub open spec fn width_of(style: EdgeStyle) -> Option<u32> {
    match style {
        EdgeStyle::Thick => Some(25u32),
        _ => None,
    }
}

/// Decoration for a line style: dashed 6/4 px, dotted 2/3 px with round caps,
/// thick 2.5 px wide; solid lines carry none.
pub fn edge_style_decor(style: EdgeStyle) -> (r: LineDecor)
    ensures
        match r.dash_tenths {
            Some(d) => dash_of(style) == Some(d@),
            None => dash_of(style) is None,
        },
        crate::diagram::opt_view(r.line_cap) == cap_of(style),
        r.stroke_width_tenths == width_of(style),
{
    match style {
        EdgeStyle::Solid => LineDecor { dash_tenths: None, line_cap: None, stroke_width_tenths: None },
        EdgeStyle::Dashed => {
            let mut d: Vec<u32> = Vec::new();
            d.push(60);
            d.push(40);
            assert(d@ =~= seq![60u32, 40u32]);
            LineDecor { dash_tenths: Some(d), line_cap: None, stroke_width_tenths: None }
        },
        EdgeStyle::Dotted => {
            let mut d: Vec<u32> = Vec::new();
            d.push(20);
            d.push(30);
            assert(d@ =~= seq![20u32, 30u32]);
            let cap = chars_to_string(&lit("round"));
            LineDecor { dash_tenths: Some(d), line_cap: Some(cap), stroke_width_tenths: None }
        },
        EdgeStyle::Thick => LineDecor { dash_tenths: None, line_cap: None, stroke_width_tenths: Some(25) },
    }
}

} // verus!
