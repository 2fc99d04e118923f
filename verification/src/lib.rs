//! A small interpreter for a subset of the WebAssembly text format (WAT):
//! folded `i32` instructions, `if` expressions and function calls.

pub mod ast;
pub mod eval;
pub mod laws;
pub mod number;
pub mod parse;
pub mod sexpr;
pub mod syntax_laws;
pub mod text;

pub use ast::{Expr, Function, Module};
pub use sexpr::SNode;
