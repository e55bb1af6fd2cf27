//! Compiler and runtime core of a small dynamically typed scripting language.
//!
//! A syntax tree is lowered by [`bytecode`] into a flat instruction stream,
//! which [`vm`] executes on an operand stack.
pub mod common;
pub mod bytecode;
pub mod vm;
pub mod parser;
pub mod opcode;
pub mod syntax;
pub mod evaluation;
