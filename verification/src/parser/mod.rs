//! The parser's view of source text.

pub mod bytes;
pub mod internals;
pub mod rules;
pub mod tokens;
