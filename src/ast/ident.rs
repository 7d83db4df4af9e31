use vstd::prelude::*;

use crate::ast::expr::{Expr, Term};

verus! {

/// The name of a variable.
#[derive(Debug, PartialEq, Eq, Hash)]
pub struct Ident(String);

impl Ident {
    /// The characters of the name.
    pub closed spec fn name(&self) -> Seq<char> {
        self.0@
    }

    pub fn new(str: String) -> (r: Self)
        ensures
            r.name() == str@,
    {
        Ident(str)
    }

    /// Wraps the name into a variable reference.
    pub fn to_expr_var(self) -> (r: Expr)
        ensures
            r == Expr::Var(Box::new(self)),
            r.term() == Term::Var(self.name()),
    {
        Expr::Var(Box::new(self))
    }

    pub fn to_string(&self) -> (r: String)
        ensures
            r@ == self.name(),
    {
        self.0.clone()
    }
}

} // verus!
