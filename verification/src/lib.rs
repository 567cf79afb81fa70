//! A small bytecode virtual machine: chunks of byte code with their
//! constant pool and line table, a disassembler that renders a chunk as
//! text, and an interpreter that runs a chunk until it halts or faults.
//! Beside it stand the first pieces of the parser for the language that
//! is to be compiled to such chunks: spans that keep track of where a
//! piece of source text stands.

pub mod parser;
pub mod tools;
pub mod vm;
