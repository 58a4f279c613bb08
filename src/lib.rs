//! A tokenizer and recursive-descent parser for a small imperative
//! expression language. The syntax tree lives in an arena of nodes.

pub mod arith;
pub mod ast;
pub mod lexer;
pub mod model;
pub mod parser;
pub mod printer;
pub mod text;
pub mod token;
pub mod types;
