//! Errors of the rendering component.

use vstd::prelude::*;
use crate::text::{lit, str_chars, string_chars, chars_to_string, append_chars, decimal, decimal_exec};

verus! {

/// Errors of the rendering component.
#[derive(Debug, Clone)]
pub enum ComponentError {
    ParseError { message: String, line: Option<u32> },
    LayoutError { reason: String },
    RenderError { reason: String },
    UnsupportedDiagram { kind: String },
}

/// Text of a component error, as it is displayed.
pub open spec fn component_message(e: ComponentError) -> Seq<char> {
    match e {
        ComponentError::ParseError { message, line } => match line {
            Some(l) => "Parse error at line "@ + decimal(l as nat) + ": "@ + message@,
            None => "Parse error: "@ + message@,
        },
        ComponentError::LayoutError { reason } => "Layout error: "@ + reason@,
        ComponentError::RenderError { reason } => "Render error: "@ + reason@,
        ComponentError::UnsupportedDiagram { kind } => "Unsupported diagram type: "@ + kind@,
    }
}

impl ComponentError {
    /// The displayed text of the error.
    pub fn message(&self) -> (r: String)
        ensures
            r@ == component_message(*self),
    {
        let mut v: Vec<char>;
        match self {
            ComponentError::ParseError { message, line } => match line {
                Some(l) => {
                    v = lit("Parse error at line ");
                    let d = decimal_exec(*l);
                    append_chars(&mut v, &d);
                    append_chars(&mut v, &lit(": "));
                    append_chars(&mut v, &string_chars(message));
                },
                None => {
                    v = lit("Parse error: ");
                    append_chars(&mut v, &string_chars(message));
                },
            },
            ComponentError::LayoutError { reason } => {
                v = lit("Layout error: ");
                append_chars(&mut v, &string_chars(reason));
            },
            ComponentError::RenderError { reason } => {
                v = lit("Render error: ");
                append_chars(&mut v, &string_chars(reason));
            },
            ComponentError::UnsupportedDiagram { kind } => {
                v = lit("Unsupported diagram type: ");
                append_chars(&mut v, &string_chars(kind));
            },
        }
        chars_to_string(&v)
    }
}

} // verus!
