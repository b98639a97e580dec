//! Front end of a small imperative language: a tokenizer and a parser that
//! builds a syntax tree, both with contracts that Verus proves.

pub mod ast;
pub mod grammar;
pub mod laws;
pub mod lexer;
pub mod parser;
pub mod precedence;
pub mod progress;
pub mod stream;
pub mod text;
pub mod tokens;
