//! An expression-language engine: a backtracking parser from one line of
//! calculator text to a syntax tree, a value model of complex scalars and
//! lists, and an evaluator over an environment of variables and functions.

pub mod complex;
pub mod eval;
pub mod parser;
pub mod text;
pub mod value;
