//! The grammar of the language, over the bytes of a line, as spec functions.
//!
//! ```text
//! expr       = assignment
//! assignment = addition ( "=" assignment )?
//! addition   = multiplication ( ( "+" | "-" ) multiplication )*
//! multiplication = unary ( ( "*" | "/" ) unary )*
//! unary      = "-" primary | primary
//! primary    = "(" expr ")" | number | identifier
//! number     = [0-9]+
//! identifier = [a-zA-Z_] [0-9a-zA-Z_]*
//! ```
//!
//! Blanks may stand before every token. Each rule reads from a position and
//! yields the tree it matched and the position after it, or nothing. The
//! operator sequences fold to the left. The tests of the form
//! `p <= q <= b.len()` on a position that a rule returned make the decrease of
//! each recursive call plain; the parser, whose rules are proved to move
//! forward, meets each of them wherever it reaches one.
use vstd::prelude::*;
use vstd::utf8::decode_utf8;

use crate::ast::expr::{BinOp, Term};

verus! {

/// Space, tab, line feed or carriage return.
pub open spec fn is_blank(c: u8) -> bool {
    c == 32 || c == 9 || c == 10 || c == 13
}

pub open spec fn is_digit(c: u8) -> bool {
    48 <= c <= 57
}

/// A byte that may begin an identifier: an ASCII letter or `_`.
pub open spec fn is_word_start(c: u8) -> bool {
    65 <= c <= 90 || 97 <= c <= 122 || c == 95
}

/// A byte that may continue an identifier.
pub open spec fn is_word(c: u8) -> bool {
    is_word_start(c) || is_digit(c)
}

/// The first position at or after `p` that holds no blank.
pub open spec fn blanks_end(b: Seq<u8>, p: int) -> int
    decreases b.len() - p,
{
    if 0 <= p < b.len() && is_blank(b[p]) {
        blanks_end(b, p + 1)
    } else {
        p
    }
}

/// `blanks_end`, kept between `p` and the end.
pub open spec fn after_blanks(b: Seq<u8>, p: int) -> int {
    let q = blanks_end(b, p);
    if p <= q <= b.len() {
        q
    } else {
        p
    }
}

/// The first position at or after `p` that holds no digit.
pub open spec fn digits_end(b: Seq<u8>, p: int) -> int
    decreases b.len() - p,
{
    if 0 <= p < b.len() && is_digit(b[p]) {
        digits_end(b, p + 1)
    } else {
        p
    }
}

/// The first position at or after `p` that holds no byte of an identifier.
pub open spec fn word_end(b: Seq<u8>, p: int) -> int
    decreases b.len() - p,
{
    if 0 <= p < b.len() && is_word(b[p]) {
        word_end(b, p + 1)
    } else {
        p
    }
}

/// The number that a run of decimal digits writes.
pub open spec fn digits_value(d: Seq<u8>) -> int
    decreases d.len(),
{
    if d.len() == 0 {
        0
    } else {
        10 * digits_value(d.drop_last()) + (d.last() - 48)
    }
}

/// Position `q` holds the byte `c`.
pub open spec fn byte_at(b: Seq<u8>, q: int, c: u8) -> bool {
    0 <= q < b.len() && b[q] == c
}

/// `number`, at the first digit `t`: no match where the value exceeds `i32`.
pub open spec fn number(b: Seq<u8>, t: int) -> Option<(Term, int)> {
    let e = digits_end(b, t);
    let v = digits_value(b.subrange(t, e));
    if v <= i32::MAX {
        Some((Term::Lit(v as i32), e))
    } else {
        None
    }
}

/// `number`, blanks first.
pub open spec fn number_token(b: Seq<u8>, p: int) -> Option<(Term, int)> {
    let t = after_blanks(b, p);
    if 0 <= t < b.len() && is_digit(b[t]) {
        number(b, t)
    } else {
        None
    }
}

/// `identifier`, blanks first. The name is the text of its bytes.
pub open spec fn identifier_token(b: Seq<u8>, p: int) -> Option<(Term, int)> {
    let t = after_blanks(b, p);
    if 0 <= t < b.len() && is_word_start(b[t]) {
        let e = word_end(b, t + 1);
        Some((Term::Var(decode_utf8(b.subrange(t, e))), e))
    } else {
        None
    }
}

/// `primary`: a parenthesised expression, else a number, else an identifier.
pub open spec fn primary(b: Seq<u8>, p: int) -> Option<(Term, int)>
    decreases b.len() - p, 1nat,
{
    let t = after_blanks(b, p);
    if byte_at(b, t, 40) {
        match assignment(b, t + 1) {
            Some((e, r)) => {
                let u = after_blanks(b, r);
                if byte_at(b, u, 41) {
                    Some((e, u + 1))
                } else {
                    None
                }
            },
            None => None,
        }
    } else {
        match number_token(b, p) {
            Some(x) => Some(x),
            None => identifier_token(b, p),
        }
    }
}

/// `unary`: at most one `-` before a primary.
pub open spec fn unary(b: Seq<u8>, p: int) -> Option<(Term, int)>
    decreases b.len() - p, 2nat,
{
    let t = after_blanks(b, p);
    if byte_at(b, t, 45) {
        match primary(b, t + 1) {
            Some((e, r)) => Some((Term::Neg(Box::new(e)), r)),
            None => None,
        }
    } else {
        primary(b, p)
    }
}

/// The operator of `multiplication` at `t`, if any.
pub open spec fn mul_op(b: Seq<u8>, t: int) -> Option<BinOp> {
    if byte_at(b, t, 42) {
        Some(BinOp::Mul)
    } else if byte_at(b, t, 47) {
        Some(BinOp::Div)
    } else {
        None
    }
}

/// The operator of `addition` at `t`, if any.
pub open spec fn add_op(b: Seq<u8>, t: int) -> Option<BinOp> {
    if byte_at(b, t, 43) {
        Some(BinOp::Add)
    } else if byte_at(b, t, 45) {
        Some(BinOp::Sub)
    } else {
        None
    }
}

/// The `( ("*" | "/") unary )*` part from `p`, folded onto `acc`.
pub open spec fn mul_tail(b: Seq<u8>, p: int, acc: Term) -> Option<(Term, int)>
    decreases b.len() - p, 3nat,
{
    let t = after_blanks(b, p);
    match mul_op(b, t) {
        Some(op) => match unary(b, t + 1) {
            Some((right, r)) => if t + 1 <= r <= b.len() {
                mul_tail(b, r, Term::Bin(op, Box::new(acc), Box::new(right)))
            } else {
                None
            },
            None => Some((acc, p)),
        },
        None => Some((acc, p)),
    }
}

/// `multiplication`.
pub open spec fn multiplication(b: Seq<u8>, p: int) -> Option<(Term, int)>
    decreases b.len() - p, 4nat,
{
    match unary(b, p) {
        Some((head, q)) => if p <= q <= b.len() {
            mul_tail(b, q, head)
        } else {
            None
        },
        None => None,
    }
}

/// The `( ("+" | "-") multiplication )*` part from `p`, folded onto `acc`.
pub open spec fn add_tail(b: Seq<u8>, p: int, acc: Term) -> Option<(Term, int)>
    decreases b.len() - p, 5nat,
{
    let t = after_blanks(b, p);
    match add_op(b, t) {
        Some(op) => match multiplication(b, t + 1) {
            Some((right, r)) => if t + 1 <= r <= b.len() {
                add_tail(b, r, Term::Bin(op, Box::new(acc), Box::new(right)))
            } else {
                None
            },
            None => Some((acc, p)),
        },
        None => Some((acc, p)),
    }
}

/// `addition`.
pub open spec fn addition(b: Seq<u8>, p: int) -> Option<(Term, int)>
    decreases b.len() - p, 6nat,
{
    match multiplication(b, p) {
        Some((head, q)) => if p <= q <= b.len() {
            add_tail(b, q, head)
        } else {
            None
        },
        None => None,
    }
}

/// `assignment`, which is also `expr`: right-associative, and any left side
/// is taken.
pub open spec fn assignment(b: Seq<u8>, p: int) -> Option<(Term, int)>
    decreases b.len() - p, 7nat,
{
    match addition(b, p) {
        Some((left, q)) => {
            let t = after_blanks(b, q);
            if p <= q && byte_at(b, t, 61) {
                match assignment(b, t + 1) {
                    Some((right, r)) => Some((Term::Assign(Box::new(left), Box::new(right)), r)),
                    None => Some((left, q)),
                }
            } else {
                Some((left, q))
            }
        },
        None => None,
    }
}

/// The tree of a whole line: an expression, then only blanks.
pub open spec fn syntax(b: Seq<u8>) -> Option<Term> {
    match assignment(b, 0) {
        Some((e, q)) => if after_blanks(b, q) == b.len() {
            Some(e)
        } else {
            None
        },
        None => None,
    }
}

} // verus!
