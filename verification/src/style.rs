//! Style vocabulary of drawing commands that carries no geometry.

use vstd::prelude::*;

verus! {

/// Stroke of a shape: a colour, or no stroke at all.
#[derive(Clone, Debug)]
pub enum StrokeStyle {
    Color(String),
    NoStroke,
}

/// Font weight.
#[derive(Clone, Copy, Debug, PartialEq, Eq, Structural)]
pub enum FontWeight {
    Normal,
    Bold,
    Number(u16),
}

/// Font style.
#[derive(Clone, Copy, Debug, PartialEq, Eq, Structural)]
pub enum FontStyle {
    Normal,
    Italic,
}

/// Horizontal text anchor.
#[derive(Clone, Copy, Debug, PartialEq, Eq, Structural)]
pub enum TextAnchor {
    Start,
    Middle,
    End,
}

/// Vertical text baseline.
#[derive(Clone, Copy, Debug, PartialEq, Eq, Structural)]
pub enum TextBaseline {
    Top,
    Middle,
    Bottom,
    Alphabetic,
}

impl TextAnchor {
    /// Canvas keyword of the anchor.
    pub fn as_str(&self) -> (r: &'static str)
        ensures
            r@ == match *self {
                TextAnchor::Start => "start"@,
                TextAnchor::Middle => "middle"@,
                TextAnchor::End => "end"@,
            },
    {
        match self {
            TextAnchor::Start => "start",
            TextAnchor::Middle => "middle",
            TextAnchor::End => "end",
        }
    }
}

impl TextBaseline {
    /// Canvas keyword of the baseline.
    pub fn as_str(&self) -> (r: &'static str)
        ensures
            r@ == match *self {
                TextBaseline::Top => "top"@,
                TextBaseline::Middle => "middle"@,
                TextBaseline::Bottom => "bottom"@,
                TextBaseline::Alphabetic => "alphabetic"@,
            },
    {
        match self {
            TextBaseline::Top => "top",
            TextBaseline::Middle => "middle",
            TextBaseline::Bottom => "bottom",
            TextBaseline::Alphabetic => "alphabetic",
        }
    }
}

/// Result of a hit test: the region and its series.
#[derive(Debug, Clone, PartialEq, Eq, Structural)]
pub struct HitResult {
    pub index: usize,
    pub series: Option<usize>,
}

} // verus!
