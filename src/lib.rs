//! Evaluation core of a small dynamically typed scripting language: a scanner,
//! a binding-power expression parser, a tree-walking evaluator and a statement
//! executor over a stack of lexical scopes.

pub mod error;
pub mod number;
pub mod token;
pub mod tree;
pub mod value;
pub mod statement;
pub mod eval;
pub mod parser;
pub mod scanner;
pub mod laws;
pub mod printer;
pub mod text;
