//! A stack-based bytecode compiler and virtual machine for a small
//! dynamically typed expression language with global variables, `print`
//! statements and expression statements.
//!
//! The pipeline is: source text -> [`scanner`] -> [`compiler`] -> a
//! [`chunk::Chunk`] of bytecode -> [`vm`]. Numbers are IEEE-754 binary64
//! values; the library handles them as opaque bit patterns and asks a
//! numeric helper, supplied by the caller, for arithmetic, comparison,
//! parsing and formatting.

pub mod chunk;
pub mod compiler;
pub mod scanner;
pub mod text;
pub mod value;
pub mod vm;
