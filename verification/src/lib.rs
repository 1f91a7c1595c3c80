//! The runtime core of a small dynamically typed scripting language:
//! a lexer, a recursive-descent parser with precedence climbing, and a
//! tree-walking evaluator over a lexically scoped environment stack.

pub mod ast;
pub mod lexer;
pub mod scanner;
pub mod interpreter;
pub mod laws;
pub mod text;
