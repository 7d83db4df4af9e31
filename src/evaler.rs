use vstd::prelude::*;

use crate::ast::expr::{BinOp, Expr, Term};
use crate::ast::ident::Ident;

verus! {

/// What went wrong in an evaluation, as contracts speak of it.
pub enum Fault {
    Undefined(Seq<char>),
    NotAssignable(Seq<char>),
    DivisionByZero,
    Overflow,
}

/// An error met while evaluating a tree.
#[derive(Debug, PartialEq, Eq)]
pub enum EvalError {
    /// A variable was read that holds no value.
    NotDefinedVariable(String),
    /// The left side of an assignment is not a variable; holds the kind of node it is.
    CannotAssign(String),
    /// A division had zero on its right.
    DivisionByZero,
    /// A result does not fit in an `i32`.
    Overflow,
}

impl EvalError {
    pub open spec fn fault(&self) -> Fault {
        match self {
            EvalError::NotDefinedVariable(s) => Fault::Undefined(s@),
            EvalError::CannotAssign(s) => Fault::NotAssignable(s@),
            EvalError::DivisionByZero => Fault::DivisionByZero,
            EvalError::Overflow => Fault::Overflow,
        }
    }
}

/// The result of an evaluation, with the error replaced by its model.
pub open spec fn outcome(r: Result<i32, EvalError>) -> Result<i32, Fault> {
    match r {
        Ok(v) => Ok(v),
        Err(e) => Err(e.fault()),
    }
}

/// `v` as an `i32`, or an overflow where it does not fit.
pub open spec fn fit(v: int) -> Result<i32, Fault> {
    if i32::MIN <= v <= i32::MAX {
        Ok(v as i32)
    } else {
        Err(Fault::Overflow)
    }
}

pub open spec fn abs(v: int) -> int {
    if v < 0 {
        -v
    } else {
        v
    }
}

/// Division that truncates toward zero.
pub open spec fn trunc_div(a: int, b: int) -> int {
    if (a < 0) == (b < 0) {
        abs(a) / abs(b)
    } else {
        -(abs(a) / abs(b))
    }
}

/// One arithmetic step on two values.
pub open spec fn apply(op: BinOp, a: i32, b: i32) -> Result<i32, Fault> {
    match op {
        BinOp::Add => fit(a + b),
        BinOp::Sub => fit(a - b),
        BinOp::Mul => fit(a * b),
        BinOp::Div => if b == 0 {
            Err(Fault::DivisionByZero)
        } else {
            fit(trunc_div(a as int, b as int))
        },
    }
}

/// The kind of a node, as reported when it stands left of `=`.
pub open spec fn kind_name(t: Term) -> Seq<char> {
    match t {
        Term::Lit(_) => "Number"@,
        Term::Var(_) => "Var"@,
        Term::Neg(_) => "Minus"@,
        Term::Bin(BinOp::Add, _, _) => "Add"@,
        Term::Bin(BinOp::Sub, _, _) => "Sub"@,
        Term::Bin(BinOp::Mul, _, _) => "Mul"@,
        Term::Bin(BinOp::Div, _, _) => "Div"@,
        Term::Assign(_, _) => "Assign"@,
    }
}

/// Evaluates `t` left to right in `env`: the result, and the environment
/// afterwards. The first error stops the walk; assignments made before it stay.
pub open spec fn eval_term(t: Term, env: Map<Seq<char>, i32>) -> (Result<i32, Fault>, Map<
    Seq<char>,
    i32,
>)
    decreases t,
{
    match t {
        Term::Lit(v) => (Ok(v), env),
        Term::Var(n) => if env.contains_key(n) {
            (Ok(env[n]), env)
        } else {
            (Err(Fault::Undefined(n)), env)
        },
        Term::Neg(e) => {
            let (r, env1) = eval_term(*e, env);
            match r {
                Ok(v) => (fit(-v), env1),
                Err(f) => (Err(f), env1),
            }
        },
        Term::Bin(op, l, r) => {
            let (a, env1) = eval_term(*l, env);
            match a {
                Err(f) => (Err(f), env1),
                Ok(x) => {
                    let (b, env2) = eval_term(*r, env1);
                    match b {
                        Err(f) => (Err(f), env2),
                        Ok(y) => (apply(op, x, y), env2),
                    }
                },
            }
        },
        Term::Assign(target, value) => {
            let (r, env1) = eval_term(*value, env);
            match r {
                Err(f) => (Err(f), env1),
                Ok(v) => match *target {
                    Term::Var(n) => (Ok(v), env1.insert(n, v)),
                    other => (Err(Fault::NotAssignable(kind_name(other))), env1),
                },
            }
        },
    }
}

/// One step of arithmetic, checked.
fn apply_op(op: BinOp, a: i32, b: i32) -> (r: Result<i32, EvalError>)
    ensures
        outcome(r) == apply(op, a, b),
{
    match op {
        BinOp::Add => match a.checked_add(b) {
            Some(v) => Ok(v),
            None => Err(EvalError::Overflow),
        },
        BinOp::Sub => match a.checked_sub(b) {
            Some(v) => Ok(v),
            None => Err(EvalError::Overflow),
        },
        BinOp::Mul => match a.checked_mul(b) {
            Some(v) => Ok(v),
            None => Err(EvalError::Overflow),
        },
        BinOp::Div => {
            if b == 0 {
                Err(EvalError::DivisionByZero)
            } else {
                match a.checked_div(b) {
                    Some(v) => Ok(v),
                    None => Err(EvalError::Overflow),
                }
            }
        },
    }
}

/// The kind name of a node, as text.
fn kind_of(e: &Expr) -> (r: String)
    ensures
        r@ == kind_name(e.term()),
{
    proof {
        reveal_strlit("Number");
        reveal_strlit("Var");
        reveal_strlit("Minus");
        reveal_strlit("Add");
        reveal_strlit("Sub");
        reveal_strlit("Mul");
        reveal_strlit("Div");
        reveal_strlit("Assign");
    }
    match e {
        Expr::Number(_) => "Number".to_owned(),
        Expr::Var(_) => "Var".to_owned(),
        Expr::Minus(_) => "Minus".to_owned(),
        Expr::Add { .. } => "Add".to_owned(),
        Expr::Sub { .. } => "Sub".to_owned(),
        Expr::Mul { .. } => "Mul".to_owned(),
        Expr::Div { .. } => "Div".to_owned(),
        Expr::Assign { .. } => "Assign".to_owned(),
    }
}

/// Evaluates trees against an environment of variables that lasts from one
/// evaluation to the next.
pub struct Evaler {
    names: Vec<String>,
    values: Vec<i32>,
    env: Ghost<Map<Seq<char>, i32>>,
}

impl Evaler {
    /// The environment: each variable's current value.
    pub closed spec fn env(&self) -> Map<Seq<char>, i32> {
        self.env@
    }

    /// The stored names are distinct, and the environment maps each to its value.
    pub closed spec fn wf(&self) -> bool {
        &&& self.names.len() == self.values.len()
        &&& forall|i: int, j: int|
            0 <= i < j < self.names.len() ==> self.names[i]@ != self.names[j]@
        &&& forall|k: Seq<char>|
            self.env@.contains_key(k) <==> exists|i: int|
                0 <= i < self.names.len() && self.names[i]@ == k
        &&& forall|i: int|
            0 <= i < self.names.len() ==> self.env@[#[trigger] self.names[i]@] == self.values[i]
    }

    /// A fresh environment, in which `x` holds 7.
    pub fn new() -> (r: Self)
        ensures
            r.wf(),
            r.env() == Map::<Seq<char>, i32>::empty().insert("x"@, 7),
    {
        proof {
            reveal_strlit("x");
        }
        let r = Evaler {
            names: vec!["x".to_owned()],
            values: vec![7],
            env: Ghost(Map::empty().insert("x"@, 7)),
        };
        assert(r.names[0]@ == "x"@);
        r
    }

    /// Where `name` is stored, if anywhere.
    fn position(&self, name: &String) -> (r: Option<usize>)
        requires
            self.wf(),
        ensures
            match r {
                Some(i) => i < self.names.len() && self.names[i as int]@ == name@,
                None => !self.env().contains_key(name@),
            },
    {
        let mut i: usize = 0;
        while i < self.names.len()
            invariant
                self.wf(),
                i <= self.names.len(),
                forall|j: int| 0 <= j < i ==> self.names[j]@ != name@,
            decreases self.names.len() - i,
        {
            if self.names[i] == *name {
                return Some(i);
            }
            i = i + 1;
        }
        None
    }

    fn lookup(&self, id: &Ident) -> (r: Result<i32, EvalError>)
        requires
            self.wf(),
        ensures
            outcome(r) == eval_term(Term::Var(id.name()), self.env()).0,
    {
        let name = id.to_string();
        match self.position(&name) {
            Some(i) => Ok(self.values[i]),
            None => Err(EvalError::NotDefinedVariable(name)),
        }
    }

    fn store(&mut self, id: &Ident, v: i32)
        requires
            old(self).wf(),
        ensures
            final(self).wf(),
            final(self).env() == old(self).env().insert(id.name(), v),
    {
        let name = id.to_string();
        let ghost k = name@;
        match self.position(&name) {
            Some(i) => {
                self.values.set(i, v);
                self.env = Ghost(self.env@.insert(k, v));
                assert forall|j: int| 0 <= j < self.names.len() implies self.env@[
                    #[trigger] self.names[j]@] == self.values[j] by {
                    if j != i {
                        assert(self.names[j]@ != self.names[i as int]@);
                    }
                }
                assert forall|q: Seq<char>|
                    self.env@.contains_key(q) implies exists|j: int|
                        0 <= j < self.names.len() && self.names[j]@ == q by {
                    if q == k {
                        assert(self.names[i as int]@ == q);
                    } else {
                        assert(old(self).env@.contains_key(q));
                    }
                }
            },
            None => {
                self.names.push(name);
                self.values.push(v);
                self.env = Ghost(self.env@.insert(k, v));
                let ghost n = self.names.len() - 1;
                assert(self.names[n]@ == k);
                assert forall|a: int, b: int|
                    0 <= a < b < self.names.len() implies self.names[a]@ != self.names[b]@ by {
                    if b == n {
                        assert(old(self).env().contains_key(self.names[a]@));
                    }
                }
                assert forall|q: Seq<char>|
                    self.env@.contains_key(q) implies exists|j: int|
                        0 <= j < self.names.len() && self.names[j]@ == q by {
                    if q == k {
                        assert(self.names[n]@ == q);
                    } else {
                        assert(old(self).env@.contains_key(q));
                        let j = choose|j: int|
                            0 <= j < old(self).names.len() && old(self).names[j]@ == q;
                        assert(0 <= j < old(self).names.len() && old(self).names[j]@ == q);
                        assert(self.names[j] == old(self).names[j]);
                        assert(0 <= j < self.names.len() && self.names[j]@ == q);
                    }
                }
                assert forall|j: int| 0 <= j < self.names.len() implies self.env@[
                    #[trigger] self.names[j]@] == self.values[j] by {
                    if j < n {
                        assert(old(self).env().contains_key(self.names[j]@));
                    }
                }
            },
        }
    }

    /// Evaluates `expr` left to right, storing what its assignments assign.
    pub fn eval(&mut self, expr: &Expr) -> (r: Result<i32, EvalError>)
        requires
            old(self).wf(),
        ensures
            final(self).wf(),
            (outcome(r), final(self).env()) == eval_term(expr.term(), old(self).env()),
        decreases expr,
    {
        let (op, left, right) = match expr {
            Expr::Add { left, right } => (BinOp::Add, left, right),
            Expr::Sub { left, right } => (BinOp::Sub, left, right),
            Expr::Mul { left, right } => (BinOp::Mul, left, right),
            Expr::Div { left, right } => (BinOp::Div, left, right),
            Expr::Number(val) => {
                return Ok(val.eval());
            },
            Expr::Var(ident) => {
                return self.lookup(ident);
            },
            Expr::Minus(val) => {
                return match self.eval(val) {
                    Ok(v) => {
                        if v == i32::MIN {
                            Err(EvalError::Overflow)
                        } else {
                            Ok(-v)
                        }
                    },
                    Err(e) => Err(e),
                };
            },
            Expr::Assign { left, right } => {
                let v = match self.eval(right) {
                    Ok(v) => v,
                    Err(e) => {
                        return Err(e);
                    },
                };
                let ghost env1 = self.env();
                return match &**left {
                    Expr::Var(ident) => {
                        assert(left.term() == Term::Var(ident.name()));
                        self.store(ident, v);
                        Ok(v)
                    },
                    other => {
                        assert(left.term() == other.term());
                        assert(!(other.term() is Var));
                        Err(EvalError::CannotAssign(kind_of(other)))
                    },
                };
            },
        };
        let a = match self.eval(left) {
            Ok(a) => a,
            Err(e) => {
                return Err(e);
            },
        };
        let b = match self.eval(right) {
            Ok(b) => b,
            Err(e) => {
                return Err(e);
            },
        };
        apply_op(op, a, b)
    }
}

} // verus!
