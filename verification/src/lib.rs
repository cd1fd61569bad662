//! A small ahead-of-call compiler front end for a tiny scripting language.
//!
//! The crate parses source text into an abstract syntax tree, then
//! translates the tree into per-function intermediate code in static
//! single-assignment form, ready for a native code-generation backend.
//! An evaluator gives the intermediate code its meaning, so compiled
//! units can be executed directly or handed to a backend.

pub mod ast;
pub mod ir;
pub mod parser;
pub mod translate;
pub mod eval;
pub mod laws;

pub use ast::BinaryOp;
pub use ast::Expr;
