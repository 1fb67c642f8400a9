//! A tree-walking evaluator for a small dynamically typed, C-like scripting
//! language: variables, block scoping, conditionals with else-if chains,
//! logical short-circuiting, and arithmetic/string expressions.
//!
//! The pipeline runs source text through the [`scanner::Scanner`] to a token
//! sequence, through the [`parser::Parser`] to a statement tree, and through
//! the [`interpreter::Interpreter`], which walks the tree against a chain of
//! lexically scoped environment frames and accumulates the program's output.
//! Every stage reports failure as a line-numbered [`diag::Diag`] value; the
//! shell around the library decides how to show it and whether to go on.
//!
//! Runtime numbers are exact rationals ([`num::Num`]): every numeric literal,
//! and every sum, difference, product, quotient and integral power of such
//! numbers, is represented without rounding. A result that does not fit the
//! representation is reported as a diagnostic rather than silently rounded.

pub mod diag;
pub mod environment;
pub mod interpreter;
pub mod num;
pub mod parser;
pub mod scanner;
pub mod syntax;
pub mod text;
pub mod token;
pub mod token_type;
pub mod value;
