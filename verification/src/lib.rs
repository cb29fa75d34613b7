//! Front end and evaluator for a small, dynamically typed, C-family
//! scripting language: a lexer that turns source text into tokens, a
//! recursive-descent parser that builds an abstract syntax tree, a
//! debug printer for that tree, and a tree-walking interpreter with
//! lexical scoping, closures and first-class functions.

pub mod ast;
pub mod error;
pub mod function;
pub mod interpreter;
pub mod laws;
pub mod lexer;
pub mod numeric;
pub mod object;
pub mod parser;
pub mod scope;
pub mod text;
pub mod token;
