use calc::{parse, EvalError, Evaler, Expr, Number, SyntaxError};

#[derive(Debug, PartialEq)]
enum Outcome {
    Value(i32),
    Syntax,
    Eval(EvalError),
}

fn run(ev: &mut Evaler, line: &str) -> Outcome {
    match parse(line) {
        Ok(e) => match ev.eval(&e) {
            Ok(v) => Outcome::Value(v),
            Err(err) => Outcome::Eval(err),
        },
        Err(SyntaxError) => Outcome::Syntax,
    }
}

fn run_fresh(line: &str) -> Outcome {
    run(&mut Evaler::new(), line)
}

#[test]
fn sum_difference_product() {
    assert_eq!(run_fresh("3 + 4"), Outcome::Value(7));
    assert_eq!(run_fresh("3 - 4"), Outcome::Value(-1));
    assert_eq!(run_fresh("3 * 4"), Outcome::Value(12));
    for (a, b) in [(0, 0), (12, 30), (-5, 9), (46340, 46340), (-100, -7)] {
        assert_eq!(run_fresh(&format!("{} + {}", a, b)), Outcome::Value(a + b));
        assert_eq!(run_fresh(&format!("{} - {}", a, b)), Outcome::Value(a - b));
        assert_eq!(run_fresh(&format!("{} * {}", a, b)), Outcome::Value(a * b));
    }
}

#[test]
fn subtraction_is_left_associative() {
    assert_eq!(run_fresh("3 - 4 - 5"), Outcome::Value(-6));
    assert_eq!(run_fresh("100 / 10 / 5"), Outcome::Value(2));
}

#[test]
fn precedence_and_parentheses() {
    assert_eq!(run_fresh("3 + 4 * 5"), Outcome::Value(23));
    assert_eq!(run_fresh("(3 + 4) * 5"), Outcome::Value(35));
}

#[test]
fn negation_needs_parentheses_to_repeat() {
    assert_eq!(run_fresh("- (- 3)"), Outcome::Value(3));
    assert_eq!(run_fresh("- - 3"), Outcome::Syntax);
}

#[test]
fn division_truncates() {
    assert_eq!(run_fresh("7 / 2"), Outcome::Value(3));
    assert_eq!(run_fresh("-7 / 2"), Outcome::Value(-3));
    assert_eq!(run_fresh("7 / 0"), Outcome::Eval(EvalError::DivisionByZero));
}

#[test]
fn undefined_variable() {
    assert_eq!(
        run_fresh("y"),
        Outcome::Eval(EvalError::NotDefinedVariable("y".to_string()))
    );
}

#[test]
fn preseeded_x() {
    assert_eq!(run_fresh("x"), Outcome::Value(7));
}

#[test]
fn assignment_persists() {
    let mut ev = Evaler::new();
    assert_eq!(run(&mut ev, "x = 42"), Outcome::Value(42));
    assert_eq!(run(&mut ev, "x"), Outcome::Value(42));
}

#[test]
fn nested_assignment() {
    let mut ev = Evaler::new();
    assert_eq!(run(&mut ev, "x = 1 + (y = 7) * 2"), Outcome::Value(15));
    assert_eq!(run(&mut ev, "y"), Outcome::Value(7));
    assert_eq!(run(&mut ev, "x"), Outcome::Value(15));
}

#[test]
fn invalid_assignment_target() {
    assert!(matches!(
        run_fresh("7 = 3"),
        Outcome::Eval(EvalError::CannotAssign(_))
    ));
}

#[test]
fn value_is_evaluated_before_target_is_checked() {
    let mut ev = Evaler::new();
    assert_eq!(
        run(&mut ev, "7 = (w = 3)"),
        Outcome::Eval(EvalError::CannotAssign("Number".to_string()))
    );
    assert_eq!(run(&mut ev, "w"), Outcome::Value(3));
    assert_eq!(
        run(&mut ev, "7 = q"),
        Outcome::Eval(EvalError::NotDefinedVariable("q".to_string()))
    );
}

#[test]
fn failed_line_keeps_earlier_assignments() {
    let mut ev = Evaler::new();
    assert_eq!(
        run(&mut ev, "(a = 5) + b"),
        Outcome::Eval(EvalError::NotDefinedVariable("b".to_string()))
    );
    assert_eq!(run(&mut ev, "a"), Outcome::Value(5));
}

#[test]
fn parsing_twice_gives_equal_trees() {
    for line in ["x = 1 + (y = 7) * 2", "3 - 4 - 5", "- (a / 2)"] {
        assert_eq!(parse(line), parse(line));
    }
}

#[test]
fn whole_line_must_be_consumed() {
    assert_eq!(run_fresh("3 4"), Outcome::Syntax);
    assert_eq!(run_fresh("3 +"), Outcome::Syntax);
    assert_eq!(run_fresh(""), Outcome::Syntax);
    assert_eq!(run_fresh("  12\t\r\n"), Outcome::Value(12));
    assert_eq!(run_fresh("é"), Outcome::Syntax);
    assert_eq!(run_fresh("2147483648"), Outcome::Syntax);
}

#[test]
fn parse_builds_tree() {
    assert_eq!(
        parse(" 2*y "),
        Ok(Expr::Mul {
            left: Box::new(Number::I32(2).to_expr()),
            right: Box::new(calc::Ident::new("y".to_string()).to_expr_var())
        })
    );
}
