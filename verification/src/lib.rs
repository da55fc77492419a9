//! Mermaid diagram source parsing, themes and layout decisions, verified with Verus.

#![allow(unused_imports)]

pub mod text;
pub mod diagram;
pub mod convert;
pub mod model;
pub mod error;
pub mod detect;
pub mod syntax;
pub mod class;
pub mod class_parser;
pub mod preset;
pub mod theme;
pub mod layer;
pub mod style;
pub mod component_error;
pub mod cli;
pub mod samples;
pub mod demo;
pub mod decor;
pub mod state;
pub mod state_parser;
pub mod pattern;
pub mod numeric;
pub mod flowchart;
pub mod flowchart_parser;
pub mod sequence;
pub mod sequence_parser;
pub mod sequence_frame;
pub mod er;
pub mod requirement;
pub mod packet;
pub mod parser;
pub mod ranking;
pub mod layering;
pub mod color;
