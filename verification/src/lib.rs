//! A single-pass bytecode compiler and stack-based virtual machine for a
//! small expression/statement language: a scanner producing tokens, a
//! precedence-climbing parser that emits bytecode directly, a compact
//! bytecode-plus-constant-pool container, and a fetch-decode-execute
//! interpreter over a bounded value stack and a global-variable table.

pub mod chunk;
pub mod compiler;
pub mod err;
pub mod laws;
pub mod memory;
pub mod rules;
pub mod scanner;
pub mod text;
pub mod value;
pub mod vm;
