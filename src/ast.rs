use vstd::prelude::*;

pub mod expr;
pub mod ident;
pub mod number;

pub use expr::{BinOp, Expr, Term};
pub use ident::Ident;
pub use number::Number;

verus! {

} // verus!
