//! Diagnostic tools that read a chunk without running it.

pub mod disassembler;
pub mod text;
