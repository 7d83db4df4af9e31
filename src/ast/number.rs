use vstd::prelude::*;

use crate::ast::expr::{Expr, Term};

verus! {

/// A numeric literal of the language.
#[derive(Debug, PartialEq, Eq)]
pub enum Number {
    I32(i32),
}

impl Number {
    /// The integer that the literal denotes.
    pub open spec fn value(&self) -> i32 {
        match self {
            Number::I32(v) => *v,
        }
    }

    /// Wraps the literal into a tree node.
    pub fn to_expr(self) -> (r: Expr)
        ensures
            r == Expr::Number(Box::new(self)),
            r.term() == Term::Lit(self.value()),
    {
        Expr::Number(Box::new(self))
    }

    pub fn eval(&self) -> (r: i32)
        ensures
            r == self.value(),
    {
        match self {
            Number::I32(val) => *val,
        }
    }
}

} // verus!
