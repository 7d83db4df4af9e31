use vstd::prelude::*;
use vstd::string::StringSliceAdditionalSpecFns;
use vstd::utf8::*;

use crate::ast::expr::{BinOp, Expr, Term};
use crate::ast::ident::Ident;
use crate::ast::number::Number;
use crate::grammar::{
    add_tail, addition, after_blanks, assignment, blanks_end, digits_end, digits_value,
    identifier_token, is_digit, is_word, mul_tail, multiplication, number_token, primary, syntax,
    unary, word_end,
};

verus! {

broadcast use encode_utf8_valid_utf8, encode_utf8_decode_utf8;

/// The line is not one expression of the grammar.
#[derive(Debug, Clone, Copy, PartialEq, Eq, Structural)]
pub struct SyntaxError;

/// In valid UTF-8, the byte after an ASCII byte begins a character.
proof fn lemma_after_ascii(b: Seq<u8>, q: int)
    requires
        valid_utf8(b),
        0 < q < b.len(),
        b[q - 1] < 128,
    ensures
        !is_continuation_byte(b[q]),
    decreases b.len(),
{
    let w = length_of_first_scalar(b);
    let rest = pop_first_scalar(b);
    assert(rest.len() == b.len() - w);
    if q - 1 < w {
        assert(w == 1);
        assert(rest[0] == b[q]);
        assert(valid_utf8(rest));
        assert(valid_first_scalar(rest));
    } else {
        assert(rest[q - w - 1] == b[q - 1]);
        assert(rest[q - w] == b[q]);
        lemma_after_ascii(rest, q - w);
    }
}

/// What a rule's result says of the spec rule `spec` read from `p` in `b`:
/// the same tree and end, reached by moving forward past an ASCII byte.
pub open spec fn matches_rule(
    r: Option<(Expr, usize)>,
    spec: Option<(Term, int)>,
    p: int,
    b: Seq<u8>,
) -> bool {
    match r {
        Some((e, q)) => spec == Some((e.term(), q as int)) && p < q <= b.len() && b[q - 1] < 128,
        None => spec is None,
    }
}

/// What a prefix parser's result says of the spec rule `spec` read from the
/// start of `b`: the tree it matched, and the text after it.
pub open spec fn prefix_result<'a>(
    b: Seq<u8>,
    spec: Option<(Term, int)>,
    r: Result<(&'a str, Expr), SyntaxError>,
) -> bool {
    match r {
        Ok((rest, e)) => {
            let q = b.len() - rest.spec_bytes().len();
            &&& spec == Some((e.term(), q))
            &&& rest.spec_bytes() == b.subrange(q, b.len() as int)
        },
        Err(_) => spec is None,
    }
}

/// Parses a whole line: one expression, then only blanks.
pub fn parse(input: &str) -> (r: Result<Expr, SyntaxError>)
    ensures
        match r {
            Ok(e) => syntax(input.spec_bytes()) == Some(e.term()),
            Err(_) => syntax(input.spec_bytes()) is None,
        },
{
    let b = input.as_bytes();
    match assignment_at(input, b, 0) {
        Some((e, q)) => {
            if skip_blanks(b, q) == b.len() {
                Ok(e)
            } else {
                Err(SyntaxError)
            }
        },
        None => Err(SyntaxError),
    }
}

/// `assignment` (that is, `expr`) at the start of `input`, with the text after it.
pub fn parse_assignment(input: &str) -> (r: Result<(&str, Expr), SyntaxError>)
    ensures
        prefix_result(input.spec_bytes(), assignment(input.spec_bytes(), 0), r),
{
    let b = input.as_bytes();
    finish(input, assignment_at(input, b, 0))
}

/// `addition` at the start of `input`, with the text after it.
pub fn parse_addition(input: &str) -> (r: Result<(&str, Expr), SyntaxError>)
    ensures
        prefix_result(input.spec_bytes(), addition(input.spec_bytes(), 0), r),
{
    let b = input.as_bytes();
    finish(input, addition_at(input, b, 0))
}

/// `unary` at the start of `input`, with the text after it.
pub fn parse_unary(input: &str) -> (r: Result<(&str, Expr), SyntaxError>)
    ensures
        prefix_result(input.spec_bytes(), unary(input.spec_bytes(), 0), r),
{
    let b = input.as_bytes();
    finish(input, unary_at(input, b, 0))
}

/// `primary` at the start of `input`, with the text after it.
pub fn parse_primary(input: &str) -> (r: Result<(&str, Expr), SyntaxError>)
    ensures
        prefix_result(input.spec_bytes(), primary(input.spec_bytes(), 0), r),
{
    let b = input.as_bytes();
    finish(input, primary_at(input, b, 0))
}

/// `number` at the start of `input`, with the text after it.
pub fn parse_number(input: &str) -> (r: Result<(&str, Expr), SyntaxError>)
    ensures
        prefix_result(input.spec_bytes(), number_token(input.spec_bytes(), 0), r),
{
    let b = input.as_bytes();
    finish(input, number_token_at(b, 0))
}

/// `identifier` at the start of `input`, with the text after it.
pub fn parse_identifier(input: &str) -> (r: Result<(&str, Expr), SyntaxError>)
    ensures
        prefix_result(input.spec_bytes(), identifier_token(input.spec_bytes(), 0), r),
{
    let b = input.as_bytes();
    finish(input, identifier_token_at(input, b, 0))
}

/// The matched tree and the text after position `q`.
fn finish<'a>(input: &'a str, r: Option<(Expr, usize)>) -> (res: Result<(&'a str, Expr), SyntaxError>)
    requires
        r matches Some((_, q)) ==> 0 < q <= input.spec_bytes().len() && input.spec_bytes()[q
            - 1] < 128,
    ensures
        match r {
            Some((e, q)) => res matches Ok((rest, e2)) && e2 == e && rest.spec_bytes()
                == input.spec_bytes().subrange(q as int, input.spec_bytes().len() as int),
            None => res is Err,
        },
{
    match r {
        Some((e, q)) => {
            let ghost b = input.spec_bytes();
            proof {
                if q < b.len() {
                    lemma_after_ascii(b, q as int);
                    is_char_boundary_iff_not_is_continuation_byte(b, q as int);
                } else {
                    is_char_boundary_start_end_of_seq(b);
                }
            }
            let (_, rest) = input.split_at(q);
            Ok((rest, e))
        },
        None => Err(SyntaxError),
    }
}

fn skip_blanks(b: &[u8], p: usize) -> (q: usize)
    requires
        p <= b@.len(),
    ensures
        q as int == after_blanks(b@, p as int),
        p <= q <= b@.len(),
{
    let mut i = p;
    while i < b.len() && (b[i] == 32 || b[i] == 9 || b[i] == 10 || b[i] == 13)
        invariant
            p <= i <= b@.len(),
            blanks_end(b@, i as int) == blanks_end(b@, p as int),
        decreases b.len() - i,
    {
        i = i + 1;
    }
    i
}

fn skip_word(b: &[u8], p: usize) -> (q: usize)
    requires
        p <= b@.len(),
    ensures
        q as int == word_end(b@, p as int),
        p <= q <= b@.len(),
        forall|j: int| p <= j < q ==> is_word(b@[j]),
{
    let mut i = p;
    while i < b.len() && (is_word_byte(b[i]))
        invariant
            p <= i <= b@.len(),
            word_end(b@, i as int) == word_end(b@, p as int),
            forall|j: int| p <= j < i ==> is_word(b@[j]),
        decreases b.len() - i,
    {
        i = i + 1;
    }
    i
}

fn is_word_byte(c: u8) -> (r: bool)
    ensures
        r == is_word(c),
{
    (65 <= c && c <= 90) || (97 <= c && c <= 122) || c == 95 || (48 <= c && c <= 57)
}

proof fn lemma_digits_nonneg(d: Seq<u8>)
    requires
        forall|j: int| 0 <= j < d.len() ==> is_digit(d[j]),
    ensures
        digits_value(d) >= 0,
    decreases d.len(),
{
    if d.len() > 0 {
        lemma_digits_nonneg(d.drop_last());
    }
}

/// `number`, blanks first.
fn number_token_at(b: &[u8], p: usize) -> (r: Option<(Expr, usize)>)
    requires
        p <= b@.len(),
    ensures
        matches_rule(r, number_token(b@, p as int), p as int, b@),
{
    let t = skip_blanks(b, p);
    if !(t < b.len() && 48 <= b[t] && b[t] <= 57) {
        return None;
    }
    let mut i = t;
    let mut acc: i32 = 0;
    let mut overflow = false;
    while i < b.len() && 48 <= b[i] && b[i] <= 57
        invariant
            t <= i <= b@.len(),
            digits_end(b@, i as int) == digits_end(b@, t as int),
            forall|j: int| t <= j < i ==> is_digit(b@[j]),
            !overflow ==> acc as int == digits_value(b@.subrange(t as int, i as int)),
            overflow ==> digits_value(b@.subrange(t as int, i as int)) > i32::MAX,
        decreases b.len() - i,
    {
        let ghost before = b@.subrange(t as int, i as int);
        let ghost after = b@.subrange(t as int, i + 1);
        assert(after.drop_last() =~= before);
        proof {
            lemma_digits_nonneg(before);
        }
        if !overflow {
            match acc.checked_mul(10) {
                Some(m) => match m.checked_add((b[i] - 48) as i32) {
                    Some(v) => {
                        acc = v;
                    },
                    None => {
                        overflow = true;
                    },
                },
                None => {
                    overflow = true;
                },
            }
        }
        i = i + 1;
    }
    if overflow {
        None
    } else {
        Some((Number::I32(acc).to_expr(), i))
    }
}

/// `identifier`, blanks first.
fn identifier_token_at(input: &str, b: &[u8], p: usize) -> (r: Option<(Expr, usize)>)
    requires
        b@ == input.spec_bytes(),
        p <= b@.len(),
    ensures
        matches_rule(r, identifier_token(b@, p as int), p as int, b@),
{
    let t = skip_blanks(b, p);
    if !(t < b.len() && ((65 <= b[t] && b[t] <= 90) || (97 <= b[t] && b[t] <= 122) || b[t] == 95)) {
        return None;
    }
    let n = b.len();
    let e = skip_word(b, t + 1);
    proof {
        is_char_boundary_iff_not_is_continuation_byte(b@, t as int);
    }
    let (_, rest) = input.split_at(t);
    let ghost rb = rest.spec_bytes();
    assert(rb =~= b@.subrange(t as int, b@.len() as int));
    proof {
        if e - t < rb.len() {
            assert(is_word(b@[e - 1]));
            lemma_after_ascii(b@, e as int);
            is_char_boundary_iff_not_is_continuation_byte(rb, e - t);
        } else {
            is_char_boundary_start_end_of_seq(rb);
        }
    }
    let (word, _) = rest.split_at(e - t);
    assert(word.spec_bytes() =~= b@.subrange(t as int, e as int));
    let name = word.to_owned();
    assert(decode_utf8(word.spec_bytes()) == word@);
    Some((Ident::new(name).to_expr_var(), e))
}

/// `primary`.
fn primary_at(input: &str, b: &[u8], p: usize) -> (r: Option<(Expr, usize)>)
    requires
        b@ == input.spec_bytes(),
        p <= b@.len(),
    ensures
        matches_rule(r, primary(b@, p as int), p as int, b@),
    decreases b@.len() - p, 1nat,
{
    let t = skip_blanks(b, p);
    if t < b.len() && b[t] == 40 {
        match assignment_at(input, b, t + 1) {
            Some((e, r)) => {
                let u = skip_blanks(b, r);
                if u < b.len() && b[u] == 41 {
                    Some((e, u + 1))
                } else {
                    None
                }
            },
            None => None,
        }
    } else {
        match number_token_at(b, p) {
            Some(x) => Some(x),
            None => identifier_token_at(input, b, p),
        }
    }
}

/// `unary`.
fn unary_at(input: &str, b: &[u8], p: usize) -> (r: Option<(Expr, usize)>)
    requires
        b@ == input.spec_bytes(),
        p <= b@.len(),
    ensures
        matches_rule(r, unary(b@, p as int), p as int, b@),
    decreases b@.len() - p, 2nat,
{
    let t = skip_blanks(b, p);
    if t < b.len() && b[t] == 45 {
        match primary_at(input, b, t + 1) {
            Some((e, r)) => Some((Expr::Minus(Box::new(e)), r)),
            None => None,
        }
    } else {
        primary_at(input, b, p)
    }
}

/// The node for `left op right`.
fn binary(op: BinOp, left: Expr, right: Expr) -> (r: Expr)
    ensures
        r.term() == Term::Bin(op, Box::new(left.term()), Box::new(right.term())),
{
    match op {
        BinOp::Add => Expr::Add { left: Box::new(left), right: Box::new(right) },
        BinOp::Sub => Expr::Sub { left: Box::new(left), right: Box::new(right) },
        BinOp::Mul => Expr::Mul { left: Box::new(left), right: Box::new(right) },
        BinOp::Div => Expr::Div { left: Box::new(left), right: Box::new(right) },
    }
}

/// `multiplication`.
fn multiplication_at(input: &str, b: &[u8], p: usize) -> (r: Option<(Expr, usize)>)
    requires
        b@ == input.spec_bytes(),
        p <= b@.len(),
    ensures
        matches_rule(r, multiplication(b@, p as int), p as int, b@),
    decreases b@.len() - p, 4nat,
{
    let (mut acc, mut q) = match unary_at(input, b, p) {
        Some(x) => x,
        None => {
            return None;
        },
    };
    loop
        invariant
            b@ == input.spec_bytes(),
            p < q <= b@.len(),
            b@[q - 1] < 128,
            mul_tail(b@, q as int, acc.term()) == multiplication(b@, p as int),
        decreases b@.len() - q,
    {
        let t = skip_blanks(b, q);
        let op = if t < b.len() && b[t] == 42 {
            BinOp::Mul
        } else if t < b.len() && b[t] == 47 {
            BinOp::Div
        } else {
            return Some((acc, q));
        };
        match unary_at(input, b, t + 1) {
            Some((right, r)) => {
                acc = binary(op, acc, right);
                q = r;
            },
            None => {
                return Some((acc, q));
            },
        }
    }
}

/// `addition`.
fn addition_at(input: &str, b: &[u8], p: usize) -> (r: Option<(Expr, usize)>)
    requires
        b@ == input.spec_bytes(),
        p <= b@.len(),
    ensures
        matches_rule(r, addition(b@, p as int), p as int, b@),
    decreases b@.len() - p, 6nat,
{
    let (mut acc, mut q) = match multiplication_at(input, b, p) {
        Some(x) => x,
        None => {
            return None;
        },
    };
    loop
        invariant
            b@ == input.spec_bytes(),
            p < q <= b@.len(),
            b@[q - 1] < 128,
            add_tail(b@, q as int, acc.term()) == addition(b@, p as int),
        decreases b@.len() - q,
    {
        let t = skip_blanks(b, q);
        let op = if t < b.len() && b[t] == 43 {
            BinOp::Add
        } else if t < b.len() && b[t] == 45 {
            BinOp::Sub
        } else {
            return Some((acc, q));
        };
        match multiplication_at(input, b, t + 1) {
            Some((right, r)) => {
                acc = binary(op, acc, right);
                q = r;
            },
            None => {
                return Some((acc, q));
            },
        }
    }
}

/// `assignment`.
fn assignment_at(input: &str, b: &[u8], p: usize) -> (r: Option<(Expr, usize)>)
    requires
        b@ == input.spec_bytes(),
        p <= b@.len(),
    ensures
        matches_rule(r, assignment(b@, p as int), p as int, b@),
    decreases b@.len() - p, 7nat,
{
    let (left, q) = match addition_at(input, b, p) {
        Some(x) => x,
        None => {
            return None;
        },
    };
    let t = skip_blanks(b, q);
    if t < b.len() && b[t] == 61 {
        match assignment_at(input, b, t + 1) {
            Some((right, r)) => Some((Expr::Assign { left: Box::new(left), right: Box::new(right) }, r)),
            None => Some((left, q)),
        }
    } else {
        Some((left, q))
    }
}

} // verus!
