//! An arithmetic expression language: a parser from text to syntax trees, and
//! an evaluator of trees against an environment of `i32` variables.
use vstd::prelude::*;

pub mod ast;
pub mod evaler;
pub mod grammar;
pub mod laws;
pub mod parser;

pub use ast::{BinOp, Expr, Ident, Number, Term};
pub use evaler::{EvalError, Evaler};
pub use parser::{
    parse, parse_addition, parse_assignment, parse_identifier, parse_number, parse_primary,
    parse_unary, SyntaxError,
};

verus! {

} // verus!
