//! The abstract syntax tree: expression and statement variants, and the
//! debug printer that renders them in parenthesized prefix form.

pub mod expr;
pub mod printer;
pub mod stmt;
