//! A small line-oriented scripting language: a tokenizer, a precedence-climbing
//! expression parser with a statement parser on top, and a tree-walking
//! evaluator over named variables and a value stack.

pub mod token;
pub mod lexer;
pub mod ast;
pub mod parser;
pub mod value;
pub mod env;
pub mod interpreter;
pub mod laws;
pub mod canonical;
pub mod text;
