//! Front end of a small expression-oriented language: a byte-level lexer
//! and a Pratt parser producing a closed syntax tree.

pub mod token;
pub mod lexer;
pub mod ast;
pub mod precedence;
pub mod grammar;
pub mod parser;
pub mod laws;
