//! A verified evaluator for a small Lisp-family expression language:
//! parenthesized prefix expressions over numbers, strings, symbols and nested
//! lists, with a fixed set of special forms and primitive operators.
//!
//! Numbers are double-precision floating point values, carried as their
//! canonical decimal rendering; the floating-point operations themselves are
//! performed by trusted wrappers and named by uninterpreted spec functions,
//! while the parser, the environment model and the evaluator's dispatch are
//! verified against a mathematical interpreter.

pub mod environment;
pub mod errors;
pub mod laws;
pub mod numerics;
pub mod parse;
pub mod process;
pub mod semantics;
pub mod value;
