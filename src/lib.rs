//! A parser for a small language that declares expected environment variables, and the
//! resolution of those declarations against environment values into typed configuration.
//!
//! The pipeline: `tokenizer` turns source text into tokens, `ast` builds the document,
//! `transformers` and `program` resolve it, and `display_syntax` renders diagnostics.

pub mod ast;
pub mod conversions;
pub mod coverage;
pub mod display_syntax;
pub mod errors;
pub mod program;
pub mod span;
pub mod span_bounds;
pub mod syntax_error;
pub mod text;
pub mod tokenizer;
pub mod transformers;
