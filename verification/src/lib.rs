//! A small single-pass compiler: source text is lexed, parsed by
//! precedence climbing, and lowered directly to textual assembly for a
//! 32-bit RISC-style register machine.
//!
//! Every stage is specified by a mathematical model (spec functions over
//! sequences) and the executable stage is proved equal to its model.

pub mod expr;
pub mod lex;
pub mod parse;
pub mod riscv;
pub mod symtab;
pub mod codegen;
pub mod laws;
pub mod tc;
pub mod render;
