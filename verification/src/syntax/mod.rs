//! Source text: its tokens, and the expressions and statements that they
//! spell.
pub mod token;
pub mod lexer;
pub mod tree;
pub mod error;
pub mod parse;
