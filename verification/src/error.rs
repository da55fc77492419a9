//! Error type of the parsers.

use vstd::prelude::*;
use crate::text::{lit, str_chars, chars_to_string, append_chars};

verus! {

/// Errors of the diagram core.
#[derive(Debug, Clone)]
pub enum CoreError {
    ParseError { source: String },
    LayoutError { reason: String },
    RenderError { reason: String },
    InvalidInput { reason: String },
}

/// Text of an error, as it is displayed.
pub open spec fn error_message(e: CoreError) -> Seq<char> {
    match e {
        CoreError::ParseError { source } => "Parse error: "@ + source@,
        CoreError::LayoutError { reason } => "Layout error: "@ + reason@,
        CoreError::RenderError { reason } => "Render error: "@ + reason@,
        CoreError::InvalidInput { reason } => "Invalid input: "@ + reason@,
    }
}

fn owned(s: &str) -> (r: String)
    ensures
        r@ == s@,
{
    let v = str_chars(s);
    chars_to_string(&v)
}

impl CoreError {
    /// A parse error.
    pub fn parse_error(source: &str) -> (r: Self)
        ensures
            r matches CoreError::ParseError { source: s } && s@ == source@,
    {
        CoreError::ParseError { source: owned(source) }
    }

    /// A layout error.
    pub fn layout_error(reason: &str) -> (r: Self)
        ensures
            r matches CoreError::LayoutError { reason: s } && s@ == reason@,
    {
        CoreError::LayoutError { reason: owned(reason) }
    }

    /// A render error.
    pub fn render_error(reason: &str) -> (r: Self)
        ensures
            r matches CoreError::RenderError { reason: s } && s@ == reason@,
    {
        CoreError::RenderError { reason: owned(reason) }
    }

    /// An invalid-input error.
    pub fn invalid_input(reason: &str) -> (r: Self)
        ensures
            r matches CoreError::InvalidInput { reason: s } && s@ == reason@,
    {
        CoreError::InvalidInput { reason: owned(reason) }
    }

    /// The displayed text of the error.
    pub fn message(&self) -> (r: String)
        ensures
            r@ == error_message(*self),
    {
        let (prefix, body) = match self {
            CoreError::ParseError { source } => (lit("Parse error: "), source),
            CoreError::LayoutError { reason } => (lit("Layout error: "), reason),
            CoreError::RenderError { reason } => (lit("Render error: "), reason),
            CoreError::InvalidInput { reason } => (lit("Invalid input: "), reason),
        };
        let mut v = prefix;
        let b = str_chars(body.as_str());
        append_chars(&mut v, &b);
        chars_to_string(&v)
    }
}

} // verus!
