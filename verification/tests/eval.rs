use math_parser::{Bindings, MathEvalError, Op};

#[derive(Clone, Copy, PartialEq, Debug)]
struct F64(f64);

impl math_parser::Numeric for F64 {
    fn plus(self, rhs: F64) -> F64 {
        F64(self.0 + rhs.0)
    }

    fn minus(self, rhs: F64) -> F64 {
        F64(self.0 - rhs.0)
    }

    fn times(self, rhs: F64) -> F64 {
        F64(self.0 * rhs.0)
    }

    fn divided_by(self, rhs: F64) -> F64 {
        F64(self.0 / rhs.0)
    }

    fn negated(self) -> F64 {
        F64(-self.0)
    }

    fn equals(self, rhs: F64) -> bool {
        self.0 == rhs.0
    }

    fn default_value() -> F64 {
        F64(0.0)
    }

    fn parse_text(s: &str) -> Option<F64> {
        s.parse::<f64>().ok().map(F64)
    }
}

struct Abs;

impl math_parser::UnaryFn<F64> for Abs {
    fn apply(&self, x: F64) -> F64 {
        F64(x.0.abs())
    }
}

struct NoFun;

impl math_parser::UnaryFn<i64> for NoFun {
    fn apply(&self, x: i64) -> i64 {
        x
    }
}

#[test]
fn variable_and_function_resolution() {
    let expr: Op<F64> = "-abs(12 - 13 * 4) + A".parse().expect("should parse");
    let mut vars: Bindings<F64> = Bindings::new();
    vars.insert("A", F64(32.0));
    let mut funs: Bindings<Abs> = Bindings::new();
    funs.insert("abs", Abs);
    let r = expr.eval(Some(&vars), Some(&funs));
    assert_eq!(r, Ok(F64(-8.0)));
}

#[test]
fn missing_variable_fails() {
    let expr: Op<i64> = "X + 1".parse().expect("should parse");
    let no_tables = expr.eval::<NoFun>(None, None);
    assert_eq!(no_tables, Err(MathEvalError::Variable("X".to_string())));

    let mut vars: Bindings<i64> = Bindings::new();
    vars.insert("Y", 7);
    let wrong_table = expr.eval::<NoFun>(Some(&vars), None);
    assert_eq!(wrong_table, Err(MathEvalError::Variable("X".to_string())));

    vars.insert("X", 2);
    assert_eq!(expr.eval::<NoFun>(Some(&vars), None), Ok(3));
}

#[test]
fn missing_function_fails() {
    let expr: Op<i64> = "f(1) + 2".parse().expect("should parse");
    let r = expr.eval::<NoFun>(None, None);
    assert_eq!(r, Err(MathEvalError::Function("f".to_string())));

    let mut funs: Bindings<NoFun> = Bindings::new();
    funs.insert("g", NoFun);
    let wrong = expr.eval(None, Some(&funs));
    assert_eq!(wrong, Err(MathEvalError::Function("f".to_string())));

    funs.insert("f", NoFun);
    assert_eq!(expr.eval(None, Some(&funs)), Ok(3));
}

#[test]
fn first_unresolved_name_wins() {
    // Depth-first, left-to-right: the left subtree's missing name is the one
    // reported even when more are missing further right.
    let expr: Op<i64> = "A + B".parse().expect("should parse");
    let r = expr.eval::<NoFun>(None, None);
    assert_eq!(r, Err(MathEvalError::Variable("A".to_string())));
}

#[test]
fn idempotent_re_evaluation() {
    let expr: Op<F64> = "-abs(2 - 6) / K".parse().expect("should parse");
    let mut vars: Bindings<F64> = Bindings::new();
    vars.insert("K", F64(8.0));
    let mut funs: Bindings<Abs> = Bindings::new();
    funs.insert("abs", Abs);
    let first = expr.eval(Some(&vars), Some(&funs));
    let second = expr.eval(Some(&vars), Some(&funs));
    assert_eq!(first, second);
    assert_eq!(first, Ok(F64(-0.5)));
}

#[test]
fn rebinding_changes_the_result() {
    // The tree stores names, never resolved values: the same parsed formula
    // tracks the table handed to each evaluation.
    let expr: Op<i64> = "A * 2".parse().expect("should parse");
    let mut vars: Bindings<i64> = Bindings::new();
    vars.insert("A", 3);
    assert_eq!(expr.eval::<NoFun>(Some(&vars), None), Ok(6));
    vars.insert("A", 5);
    assert_eq!(expr.eval::<NoFun>(Some(&vars), None), Ok(10));
}

#[test]
fn integer_division_truncates() {
    let expr: Op<i64> = "(0 - 7) / 2".parse().expect("should parse");
    assert_eq!(expr.eval::<NoFun>(None, None), Ok(-3));
    let pos: Op<i64> = "7 / 2".parse().expect("should parse");
    assert_eq!(pos.eval::<NoFun>(None, None), Ok(3));
}

#[test]
fn float_division_by_zero_follows_the_type() {
    let expr: Op<F64> = "1 / 0".parse().expect("should parse");
    let mut funs: Bindings<Abs> = Bindings::new();
    funs.insert("abs", Abs);
    let r = expr.eval(None, Some(&funs)).expect("should evaluate");
    assert!(r.0.is_infinite() && r.0 > 0.0);
}

#[test]
fn unparsable_number_becomes_a_variable() {
    // A fragment that fails to parse as the scalar type and is not a call is
    // a variable reference; that holds of a literal too large for the type.
    let expr: Op<i64> = "9223372036854775808".parse().expect("should parse");
    let r = expr.eval::<NoFun>(None, None);
    assert_eq!(
        r,
        Err(MathEvalError::Variable("9223372036854775808".to_string()))
    );
}

#[test]
fn error_messages_name_the_culprit() {
    let parse_err: Result<Op<i64>, _> = "(1 + 2".parse();
    let e = parse_err.expect_err("should fail");
    assert_eq!(e.message(), "mismatched number of brackets");

    let expr: Op<i64> = "X".parse().expect("should parse");
    let e = expr.eval::<NoFun>(None, None).expect_err("should fail");
    assert_eq!(e.message(), "no variable found: X");

    let expr: Op<i64> = "f(1)".parse().expect("should parse");
    let e = expr.eval::<NoFun>(None, None).expect_err("should fail");
    assert_eq!(e.message(), "no function found: f");
}
