//! Execution core of a small Lua-like scripting language: a lexer, a
//! single-pass compiler that emits compact bytecode, and a register-based
//! virtual machine that runs it against a tagged value model with
//! size-tiered strings and shared tables.

pub mod bytecode;
pub mod error;
pub mod lex;
pub mod parse;
pub mod value;
pub mod vm;
