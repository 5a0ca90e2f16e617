//! A minimal interpreter for a Lisp-like expression language: source text
//! is tokenized, parsed into a nested-list syntax tree, and evaluated
//! against a chained lexical environment.  Every stage carries a contract
//! stated over a mathematical model of the values, and the evaluator is
//! proved to follow a specification-level interpreter exactly.

pub mod env;
pub mod eval;
pub mod laws;
pub mod lexer;
pub mod object;
pub mod parser;
