//! A small interpreted language: a lexer that turns source text into tokens,
//! a recursive-descent parser that builds statement trees, and a tree-walking
//! evaluator over scoped variable frames. Every stage carries a functional
//! specification: lexing and parsing are specified by recursive functions over
//! character and token sequences, and execution by a fuel-indexed big-step
//! semantics.

pub mod errors;
pub mod interpreter;
pub mod lexer;
pub mod parser;
pub mod text;
pub mod value;
pub mod variables;
