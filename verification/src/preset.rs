//! Morphology presets: which decorations a style preset switches on.
//! Colours never come from a preset; they come from the theme slots.

use vstd::prelude::*;
use crate::text::{string_chars, chars_eq, lit};

verus! {

/// Style preset named by a theme's `style-preset` string.
#[derive(Clone, Copy, Debug, PartialEq, Eq, Hash, Structural)]
pub enum StylePreset {
    Classic,
    SignalFlow,
    Blueprint,
    Editorial,
}

impl Default for StylePreset {
    fn default() -> (r: Self)
        ensures
            r == StylePreset::Classic,
    {
        StylePreset::Classic
    }
}

/// The preset a `style-preset` string names; absent or unknown names give `Classic`.
pub open spec fn preset_named(s: Option<Seq<char>>) -> StylePreset {
    match s {
        Some(t) => if t == "signal-flow"@ {
            StylePreset::SignalFlow
        } else if t == "blueprint"@ {
            StylePreset::Blueprint
        } else if t == "editorial"@ {
            StylePreset::Editorial
        } else {
            StylePreset::Classic
        },
        None => StylePreset::Classic,
    }
}

/// Strength of the vertical gradient of node fills, in hundredths (0: flat fill).
pub open spec fn gradient_hundredths(p: StylePreset) -> nat {
    match p {
        StylePreset::SignalFlow => 10,
        StylePreset::Classic => 5,
        StylePreset::Editorial => 6,
        StylePreset::Blueprint => 0,
    }
}

impl StylePreset {
    /// Parses a `style-preset` string.
    pub fn parse(s: &Option<String>) -> (r: Self)
        ensures
            r == preset_named(crate::diagram::opt_view(*s)),
    {
        match s {
            Some(t) => {
                let v = string_chars(t);
                if chars_eq(&v, &lit("signal-flow")) {
                    StylePreset::SignalFlow
                } else if chars_eq(&v, &lit("blueprint")) {
                    StylePreset::Blueprint
                } else if chars_eq(&v, &lit("editorial")) {
                    StylePreset::Editorial
                } else {
                    StylePreset::Classic
                }
            },
            None => StylePreset::Classic,
        }
    }

    /// Edges glow (drawn with several translucent wider strokes).
    pub fn edge_glow(&self) -> (r: bool)
        ensures
            r == (*self == StylePreset::SignalFlow),
    {
        match self {
            StylePreset::SignalFlow => true,
            _ => false,
        }
    }

    /// Arrowheads glow.
    pub fn arrow_glow(&self) -> (r: bool)
        ensures
            r == (*self == StylePreset::SignalFlow),
    {
        match self {
            StylePreset::SignalFlow => true,
            _ => false,
        }
    }

    /// Strength of the node fill gradient, in hundredths.
    pub fn gradient_hundredths(&self) -> (r: u32)
        ensures
            r == gradient_hundredths(*self),
    {
        match self {
            StylePreset::SignalFlow => 10,
            StylePreset::Classic => 5,
            StylePreset::Editorial => 6,
            StylePreset::Blueprint => 0,
        }
    }

    /// Node fills carry a vertical gradient: exactly when its strength is positive.
    pub fn gradient_fill(&self) -> (r: bool)
        ensures
            r == (gradient_hundredths(*self) > 0),
            r == (*self != StylePreset::Blueprint),
    {
        self.gradient_hundredths() > 0
    }

    /// Nodes get a one-pixel inner highlight.
    pub fn inset_highlight(&self) -> (r: bool)
        ensures
            r == (*self != StylePreset::Blueprint),
    {
        match self {
            StylePreset::Blueprint => false,
            _ => true,
        }
    }

    /// Nodes carry semantic sigils.
    pub fn sigils(&self) -> (r: bool)
        ensures
            r == (*self == StylePreset::SignalFlow || *self == StylePreset::Blueprint),
    {
        match self {
            StylePreset::SignalFlow | StylePreset::Blueprint => true,
            _ => false,
        }
    }
}

} // verus!
