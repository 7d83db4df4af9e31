use vstd::prelude::*;

use crate::ast::ident::Ident;
use crate::ast::number::Number;

verus! {

/// A syntax tree. Every node owns its children.
#[derive(Debug, PartialEq)]
pub enum Expr {
    Number(Box<Number>),
    Minus(Box<Expr>),
    Add { left: Box<Expr>, right: Box<Expr> },
    Sub { left: Box<Expr>, right: Box<Expr> },
    Mul { left: Box<Expr>, right: Box<Expr> },
    Div { left: Box<Expr>, right: Box<Expr> },
    Var(Box<Ident>),
    Assign { left: Box<Expr>, right: Box<Expr> },
}

/// The mathematical shape of a syntax tree: what contracts speak of.
pub enum Term {
    Lit(i32),
    Var(Seq<char>),
    Neg(Box<Term>),
    Bin(BinOp, Box<Term>, Box<Term>),
    Assign(Box<Term>, Box<Term>),
}

/// The four arithmetic operators.
#[derive(Debug, Clone, Copy, PartialEq, Eq, Structural)]
pub enum BinOp {
    Add,
    Sub,
    Mul,
    Div,
}

impl Expr {
    /// The tree's shape, with literals as integers and names as characters.
    pub open spec fn term(&self) -> Term
        decreases self,
    {
        match self {
            Expr::Number(n) => Term::Lit(n.value()),
            Expr::Minus(e) => Term::Neg(Box::new(e.term())),
            Expr::Add { left, right } => Term::Bin(
                BinOp::Add,
                Box::new(left.term()),
                Box::new(right.term()),
            ),
            Expr::Sub { left, right } => Term::Bin(
                BinOp::Sub,
                Box::new(left.term()),
                Box::new(right.term()),
            ),
            Expr::Mul { left, right } => Term::Bin(
                BinOp::Mul,
                Box::new(left.term()),
                Box::new(right.term()),
            ),
            Expr::Div { left, right } => Term::Bin(
                BinOp::Div,
                Box::new(left.term()),
                Box::new(right.term()),
            ),
            Expr::Var(id) => Term::Var(id.name()),
            Expr::Assign { left, right } => Term::Assign(
                Box::new(left.term()),
                Box::new(right.term()),
            ),
        }
    }
}

} // verus!
