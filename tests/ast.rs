use calc::{Expr, Ident, Number};

#[test]
fn ident_to_expr_var() {
    assert_eq!(
        Ident::new("abc".to_string()).to_expr_var(),
        Expr::Var(Box::new(Ident::new("abc".to_string())))
    );
}

#[test]
fn number_to_expr() {
    assert_eq!(
        Number::I32(7).to_expr(),
        Expr::Number(Box::new(Number::I32(7)))
    );
}

#[test]
fn number_eval_number() {
    assert_eq!(Number::I32(7).eval(), 7);
}

#[test]
fn ident_to_string_gives_name() {
    assert_eq!(Ident::new("_abc012".to_string()).to_string(), "_abc012");
}
