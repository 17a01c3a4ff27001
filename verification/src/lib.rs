//! A small scripting language: a lexer and a one-pass compiler to the
//! instructions of a stack machine, and the machine that runs them.
//! Input and output are left to the host, which answers the machine's
//! requests between steps.
pub mod consts;
pub mod errors;
pub mod types;
pub mod text;
pub mod num;
pub mod value;
pub mod show;
pub mod relate;
pub mod iter;
pub mod arith;
pub mod index;
pub mod lexer;
pub mod op;
pub mod vm;
pub mod format;
pub mod semantics;
pub mod machine;
pub mod builtins;
pub mod scope;
pub mod compiler;
pub mod laws;
