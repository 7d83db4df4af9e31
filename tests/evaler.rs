use calc::{EvalError, Evaler, Expr, Ident, Number};

fn eval_fresh(expr: &Expr) -> Result<i32, EvalError> {
    Evaler::new().eval(expr)
}

fn bin(make: fn(Box<Expr>, Box<Expr>) -> Expr, a: i32, b: i32) -> Expr {
    make(
        Box::new(Number::I32(a).to_expr()),
        Box::new(Number::I32(b).to_expr()),
    )
}

#[test]
fn evaler_eval_number() {
    assert_eq!(eval_fresh(&Expr::Number(Box::new(Number::I32(7)))), Ok(7));
}

#[test]
fn eval_minus() {
    assert_eq!(
        eval_fresh(&Expr::Minus(Box::new(Number::I32(7).to_expr()))),
        Ok(-7)
    );
}

#[test]
fn eval_add() {
    assert_eq!(
        eval_fresh(&Expr::Add {
            left: Box::new(Number::I32(5).to_expr()),
            right: Box::new(Number::I32(2).to_expr())
        }),
        Ok(7)
    );
}

#[test]
fn eval_sub() {
    assert_eq!(
        eval_fresh(&Expr::Sub {
            left: Box::new(Number::I32(5).to_expr()),
            right: Box::new(Number::I32(2).to_expr())
        }),
        Ok(3)
    );
}

#[test]
fn eval_mul() {
    assert_eq!(
        eval_fresh(&Expr::Mul {
            left: Box::new(Number::I32(2).to_expr()),
            right: Box::new(Number::I32(5).to_expr())
        }),
        Ok(10)
    );
}

#[test]
fn eval_div() {
    assert_eq!(
        eval_fresh(&Expr::Div {
            left: Box::new(Number::I32(6).to_expr()),
            right: Box::new(Number::I32(2).to_expr())
        }),
        Ok(3)
    );
}

#[test]
fn eval_var() {
    assert_eq!(eval_fresh(&Ident::new("x".to_string()).to_expr_var()), Ok(7));
    assert_eq!(
        eval_fresh(&Ident::new("y".to_string()).to_expr_var()),
        Err(EvalError::NotDefinedVariable("y".to_string()))
    );
}

#[test]
fn eval_division_by_zero_is_an_error() {
    let e = bin(|left, right| Expr::Div { left, right }, 7, 0);
    assert_eq!(eval_fresh(&e), Err(EvalError::DivisionByZero));
}

#[test]
fn eval_overflow_is_an_error() {
    let add = bin(|left, right| Expr::Add { left, right }, i32::MAX, 1);
    assert_eq!(eval_fresh(&add), Err(EvalError::Overflow));
    let sub = bin(|left, right| Expr::Sub { left, right }, i32::MIN, 1);
    assert_eq!(eval_fresh(&sub), Err(EvalError::Overflow));
    let mul = bin(|left, right| Expr::Mul { left, right }, 65536, 65536);
    assert_eq!(eval_fresh(&mul), Err(EvalError::Overflow));
    let div = bin(|left, right| Expr::Div { left, right }, i32::MIN, -1);
    assert_eq!(eval_fresh(&div), Err(EvalError::Overflow));
    let neg = Expr::Minus(Box::new(Number::I32(i32::MIN).to_expr()));
    assert_eq!(eval_fresh(&neg), Err(EvalError::Overflow));
}

#[test]
fn eval_extreme_values_that_fit() {
    let add = bin(|left, right| Expr::Add { left, right }, i32::MAX - 1, 1);
    assert_eq!(eval_fresh(&add), Ok(i32::MAX));
    let div = bin(|left, right| Expr::Div { left, right }, i32::MIN, 1);
    assert_eq!(eval_fresh(&div), Ok(i32::MIN));
    let neg = Expr::Minus(Box::new(Number::I32(i32::MAX).to_expr()));
    assert_eq!(eval_fresh(&neg), Ok(-i32::MAX));
}

#[test]
fn eval_division_truncates_toward_zero() {
    let cases = [(7, 2, 3), (-7, 2, -3), (7, -2, -3), (-7, -2, 3), (1, 3, 0)];
    for (a, b, q) in cases {
        let e = bin(|left, right| Expr::Div { left, right }, a, b);
        assert_eq!(eval_fresh(&e), Ok(q));
    }
}

#[test]
fn eval_assign_to_non_variable_names_its_kind() {
    let e = Expr::Assign {
        left: Box::new(Number::I32(7).to_expr()),
        right: Box::new(Number::I32(3).to_expr()),
    };
    assert_eq!(
        eval_fresh(&e),
        Err(EvalError::CannotAssign("Number".to_string()))
    );
}

#[test]
fn eval_assign_stores_and_returns() {
    let mut ev = Evaler::new();
    let e = Expr::Assign {
        left: Box::new(Ident::new("z".to_string()).to_expr_var()),
        right: Box::new(Number::I32(-4).to_expr()),
    };
    assert_eq!(ev.eval(&e), Ok(-4));
    assert_eq!(ev.eval(&Ident::new("z".to_string()).to_expr_var()), Ok(-4));
    assert_eq!(ev.eval(&Ident::new("x".to_string()).to_expr_var()), Ok(7));
}
