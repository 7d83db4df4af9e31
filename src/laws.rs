//! Laws that relate the parser and the evaluator.
use vstd::prelude::*;
use vstd::string::StringSliceAdditionalSpecFns;

use crate::ast::expr::{BinOp, Term};
use crate::evaler::{eval_term, fit};
use crate::grammar::{
    add_tail, addition, after_blanks, assignment, blanks_end, digits_end, digits_value,
    is_digit, mul_tail, multiplication, number, number_token, primary, syntax, unary,
};

verus! {

/// The decimal digits of `n`, without leading zeros.
pub open spec fn decimal(n: nat) -> Seq<u8>
    decreases n,
{
    if n < 10 {
        seq![(48 + n) as u8]
    } else {
        decimal(n / 10).push((48 + n % 10) as u8)
    }
}

/// `v` written as a literal, with `-` before it where it is negative.
pub open spec fn numeral(v: int) -> Seq<u8> {
    if v < 0 {
        seq![45u8] + decimal((-v) as nat)
    } else {
        decimal(v as nat)
    }
}

/// The tree of `numeral(v)`.
pub open spec fn numeral_term(v: int) -> Term {
    if v < 0 {
        Term::Neg(Box::new(Term::Lit((-v) as i32)))
    } else {
        Term::Lit(v as i32)
    }
}

/// The byte that writes `op`.
pub open spec fn op_byte(op: BinOp) -> u8 {
    match op {
        BinOp::Add => 43,
        BinOp::Sub => 45,
        BinOp::Mul => 42,
        BinOp::Div => 47,
    }
}

/// The line `a op b`, with one blank on each side of the operator.
pub open spec fn binary_line(a: int, op: BinOp, b: int) -> Seq<u8> {
    numeral(a) + seq![32u8, op_byte(op), 32u8] + numeral(b)
}

proof fn lemma_decimal(n: nat)
    ensures
        decimal(n).len() >= 1,
        forall|j: int| 0 <= j < decimal(n).len() ==> is_digit(#[trigger] decimal(n)[j]),
        digits_value(decimal(n)) == n,
    decreases n,
{
    let d = decimal(n);
    if n >= 10 {
        lemma_decimal(n / 10);
        assert(d.drop_last() =~= decimal(n / 10));
        assert(d.last() == (48 + n % 10) as u8);
        assert(d.last() - 48 == n % 10);
        assert(digits_value(d.drop_last()) == n / 10);
        assert(digits_value(d) == 10 * digits_value(d.drop_last()) + (d.last() - 48));
        assert(n == 10 * (n / 10) + n % 10);
    } else {
        assert(d.drop_last() =~= Seq::<u8>::empty());
        assert(d.last() - 48 == n);
        assert(digits_value(d) == 10 * digits_value(d.drop_last()) + (d.last() - 48));
    }
}

proof fn lemma_digits_end(b: Seq<u8>, k: int, e: int)
    requires
        0 <= k <= e <= b.len(),
        forall|j: int| k <= j < e ==> is_digit(b[j]),
        e == b.len() || !is_digit(b[e]),
    ensures
        digits_end(b, k) == e,
    decreases e - k,
{
    if k < e {
        lemma_digits_end(b, k + 1, e);
    }
}

/// `unary` reads `numeral(v)` at `s`, the first position after blanks from `p`.
proof fn lemma_operand(b: Seq<u8>, p: int, s: int, v: int)
    requires
        i32::MIN < v <= i32::MAX,
        0 <= p <= s,
        after_blanks(b, p) == s,
        s + numeral(v).len() <= b.len(),
        b.subrange(s, s + numeral(v).len()) == numeral(v),
        s + numeral(v).len() == b.len() || !is_digit(b[s + numeral(v).len()]),
    ensures
        unary(b, p) == Some((numeral_term(v), s + numeral(v).len())),
{
    let m: nat = if v < 0 {
        (-v) as nat
    } else {
        v as nat
    };
    lemma_decimal(m);
    let d = decimal(m);
    let k = if v < 0 {
        s + 1
    } else {
        s
    };
    let e = k + d.len();
    assert(e == s + numeral(v).len());
    assert forall|j: int| k <= j < e implies is_digit(b[j]) by {
        assert(b[j] == b.subrange(s, e)[j - s]);
        assert(b[j] == d[j - k]);
    }
    assert(b[k] == d[0]) by {
        assert(b[k] == b.subrange(s, e)[k - s]);
    }
    lemma_digits_end(b, k, e);
    assert(b.subrange(k, e) =~= d) by {
        assert forall|j: int| 0 <= j < d.len() implies b.subrange(k, e)[j] == d[j] by {
            assert(b.subrange(k, e)[j] == b[k + j]);
            assert(b[k + j] == b.subrange(s, e)[k + j - s]);
        }
    }
    assert(number(b, k) == Some((Term::Lit(m as i32), e)));
    assert(blanks_end(b, k) == k);
    assert(after_blanks(b, k) == k);
    assert(number_token(b, k) == Some((Term::Lit(m as i32), e)));
    if v < 0 {
        assert(b[s] == 45) by {
            assert(b[s] == b.subrange(s, e)[0]);
        }
        assert(primary(b, k) == Some((Term::Lit(m as i32), e)));
    } else {
        assert(number_token(b, p) == Some((Term::Lit(m as i32), e)));
        assert(primary(b, p) == Some((Term::Lit(m as i32), e)));
    }
}

/// Where each part of `binary_line(a, op, b)` stands.
proof fn lemma_line_layout(a: int, op: BinOp, b: int)
    requires
        a > i32::MIN,
        b > i32::MIN,
    ensures
        ({
            let na = numeral(a);
            let nb = numeral(b);
            let line = binary_line(a, op, b);
            let e1 = na.len() as int;
            &&& na.len() >= 1
            &&& nb.len() >= 1
            &&& line.len() == e1 + 3 + nb.len()
            &&& line[e1] == 32 && line[e1 + 1] == op_byte(op) && line[e1 + 2] == 32
            &&& line[e1 + 3] == nb[0]
            &&& line[0] == na[0]
            &&& line.subrange(0, e1) == na
            &&& line.subrange(e1 + 3, line.len() as int) == nb
            &&& (na[0] == 45 || is_digit(na[0]))
            &&& (nb[0] == 45 || is_digit(nb[0]))
        }),
{
    let na = numeral(a);
    let nb = numeral(b);
    let line = binary_line(a, op, b);
    let e1 = na.len() as int;
    let len = line.len() as int;
    let ma: nat = if a < 0 {
        (-a) as nat
    } else {
        a as nat
    };
    let mb: nat = if b < 0 {
        (-b) as nat
    } else {
        b as nat
    };
    lemma_decimal(ma);
    lemma_decimal(mb);
    assert(na[0] == 45 || is_digit(na[0])) by {
        if a >= 0 {
            assert(is_digit(decimal(ma)[0]));
        }
    }
    assert(nb[0] == 45 || is_digit(nb[0])) by {
        if b >= 0 {
            assert(is_digit(decimal(mb)[0]));
        }
    }
    assert(line.subrange(0, e1) =~= na);
    assert(line.subrange(e1 + 3, len) =~= nb);
}

/// What `numeral(v)` evaluates to, in any environment.
proof fn lemma_numeral_value(v: int, env: Map<Seq<char>, i32>)
    requires
        i32::MIN < v <= i32::MAX,
    ensures
        eval_term(numeral_term(v), env) == (Ok::<i32, crate::evaler::Fault>(v as i32), env),
{
    if v < 0 {
        assert(eval_term(Term::Lit((-v) as i32), env) == (
            Ok::<i32, crate::evaler::Fault>((-v) as i32),
            env,
        ));
    }
}

/// An assignment that succeeds yields the value of its right side, and the
/// variable then reads that value.
pub proof fn assignment_persists(n: Seq<char>, value: Term, env: Map<Seq<char>, i32>)
    ensures
        ({
            let (r, after) = eval_term(Term::Assign(Box::new(Term::Var(n)), Box::new(value)), env);
            &&& r == eval_term(value, env).0
            &&& r is Ok ==> eval_term(Term::Var(n), after) == (r, after)
        }),
{
}

/// Parsing is a function of the text: equal texts give the same tree, or
/// both give a syntax error.
pub proof fn parse_depends_on_text_alone(s1: &str, s2: &str)
    requires
        s1@ == s2@,
    ensures
        syntax(s1.spec_bytes()) == syntax(s2.spec_bytes()),
{
}

/// For all `i32` values `a` and `b` but `i32::MIN` (whose digits exceed the
/// largest literal), the line `a + b`, `a - b` or `a * b` parses to that
/// operation on the two numerals, and evaluates in any environment to the
/// exact sum, difference or product where it fits in `i32`, and to an
/// overflow where it does not. The environment is left as it was.
pub proof fn arithmetic_lines(a: i32, op: BinOp, b: i32, env: Map<Seq<char>, i32>)
    requires
        a > i32::MIN,
        b > i32::MIN,
        op != BinOp::Div,
    ensures
        syntax(binary_line(a as int, op, b as int)) == Some(
            Term::Bin(op, Box::new(numeral_term(a as int)), Box::new(numeral_term(b as int))),
        ),
        eval_term(
            Term::Bin(op, Box::new(numeral_term(a as int)), Box::new(numeral_term(b as int))),
            env,
        ) == (
            match op {
                BinOp::Add => fit(a + b),
                BinOp::Sub => fit(a - b),
                _ => fit(a * b),
            },
            env,
        ),
{
    let na = numeral(a as int);
    let nb = numeral(b as int);
    let line = binary_line(a as int, op, b as int);
    let e1 = na.len() as int;
    let len = line.len() as int;
    let ta = numeral_term(a as int);
    let tb = numeral_term(b as int);
    lemma_line_layout(a as int, op, b as int);
    assert(blanks_end(line, 0) == 0);
    lemma_operand(line, 0, 0, a as int);
    assert(blanks_end(line, e1 + 1) == e1 + 1);
    assert(blanks_end(line, e1) == e1 + 1);
    assert(after_blanks(line, e1) == e1 + 1);
    assert(blanks_end(line, e1 + 3) == e1 + 3) by {
        assert(line[e1 + 3] == nb[0]);
    }
    assert(blanks_end(line, e1 + 2) == e1 + 3);
    lemma_operand(line, e1 + 2, e1 + 3, b as int);
    assert(after_blanks(line, len) == len);
    let whole = Term::Bin(op, Box::new(ta), Box::new(tb));
    assert(mul_tail(line, len, tb) == Some((tb, len)));
    assert(add_tail(line, len, whole) == Some((whole, len)));
    assert(mul_tail(line, len, whole) == Some((whole, len)));
    if op == BinOp::Mul {
        assert(mul_tail(line, e1, ta) == Some((whole, len)));
        assert(multiplication(line, 0) == Some((whole, len)));
        assert(addition(line, 0) == Some((whole, len)));
    } else {
        assert(mul_tail(line, e1, ta) == Some((ta, e1)));
        assert(multiplication(line, 0) == Some((ta, e1)));
        assert(multiplication(line, e1 + 2) == Some((tb, len)));
        assert(add_tail(line, e1, ta) == Some((whole, len)));
        assert(addition(line, 0) == Some((whole, len)));
    }
    assert(assignment(line, 0) == Some((whole, len)));
    lemma_numeral_value(a as int, env);
    lemma_numeral_value(b as int, env);
}

} // verus!
