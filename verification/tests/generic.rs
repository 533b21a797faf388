use math_parser::Numeric;
use math_parser::Op;

#[derive(Clone, Copy, PartialEq, Debug)]
struct F64(f64);

impl math_parser::Numeric for F64 {
    fn plus(self, rhs: F64) -> F64 {
        F64(self.0 + rhs.0)
    }

    fn minus(self, rhs: F64) -> F64 {
        F64(self.0 - rhs.0)
    }

    fn times(self, rhs: F64) -> F64 {
        F64(self.0 * rhs.0)
    }

    fn divided_by(self, rhs: F64) -> F64 {
        F64(self.0 / rhs.0)
    }

    fn negated(self) -> F64 {
        F64(-self.0)
    }

    fn equals(self, rhs: F64) -> bool {
        self.0 == rhs.0
    }

    fn default_value() -> F64 {
        F64(0.0)
    }

    fn parse_text(s: &str) -> Option<F64> {
        s.parse::<f64>().ok().map(F64)
    }
}

struct NoF64;

impl math_parser::UnaryFn<F64> for NoF64 {
    fn apply(&self, x: F64) -> F64 {
        x
    }
}

struct NoI64;

impl math_parser::UnaryFn<i64> for NoI64 {
    fn apply(&self, x: i64) -> i64 {
        x
    }
}

struct NoI32;

impl math_parser::UnaryFn<i32> for NoI32 {
    fn apply(&self, x: i32) -> i32 {
        x
    }
}

struct NoIsize;

impl math_parser::UnaryFn<isize> for NoIsize {
    fn apply(&self, x: isize) -> isize {
        x
    }
}

#[test]
fn one_text_many_scalar_types() {
    let text = "2 - 3 + 4 * 3 / 3";
    let as_i64: Op<i64> = text.parse().expect("should parse");
    assert_eq!(as_i64.eval::<NoI64>(None, None), Ok(3));
    let as_i32: Op<i32> = text.parse().expect("should parse");
    assert_eq!(as_i32.eval::<NoI32>(None, None), Ok(3));
    let as_isize: Op<isize> = text.parse().expect("should parse");
    assert_eq!(as_isize.eval::<NoIsize>(None, None), Ok(3));
    let as_f64: Op<F64> = text.parse().expect("should parse");
    assert_eq!(as_f64.eval::<NoF64>(None, None), Ok(F64(3.0)));
}

#[test]
fn division_semantics_follow_the_type() {
    let text = "7 / 2";
    let as_i64: Op<i64> = text.parse().expect("should parse");
    assert_eq!(as_i64.eval::<NoI64>(None, None), Ok(3));
    let as_i32: Op<i32> = text.parse().expect("should parse");
    assert_eq!(as_i32.eval::<NoI32>(None, None), Ok(3));
    let as_f64: Op<F64> = text.parse().expect("should parse");
    assert_eq!(as_f64.eval::<NoF64>(None, None), Ok(F64(3.5)));
}

#[test]
fn fractional_literals_only_parse_where_the_type_has_them() {
    let text = "1.5 * 2";
    let as_f64: Op<F64> = text.parse().expect("should parse");
    assert_eq!(as_f64.eval::<NoF64>(None, None), Ok(F64(3.0)));
    // For an integer type the fragment `1.5` is no literal, so it becomes a
    // variable reference and evaluation without a binding for it fails.
    let as_i64: Op<i64> = text.parse().expect("should parse");
    assert_eq!(
        as_i64.eval::<NoI64>(None, None),
        Err(math_parser::MathEvalError::Variable("1.5".to_string()))
    );
}

#[test]
fn integer_parsing_bounds_follow_the_type() {
    let text = "2147483648";
    let as_i64: Op<i64> = text.parse().expect("should parse");
    assert_eq!(as_i64.eval::<NoI64>(None, None), Ok(2147483648));
    // One past i32::MAX is no i32 literal.
    let as_i32: Op<i32> = text.parse().expect("should parse");
    assert_eq!(
        as_i32.eval::<NoI32>(None, None),
        Err(math_parser::MathEvalError::Variable("2147483648".to_string()))
    );
}

#[test]
fn numeric_capability_basics() {
    assert!(3i64.equals(3));
    assert!(!3i64.equals(4));
    assert_eq!(<i64 as Numeric>::default_value(), 0);
    assert_eq!(<i64 as Numeric>::parse_text("42"), Some(42));
    assert_eq!(<i64 as Numeric>::parse_text("007"), Some(7));
    assert_eq!(<i64 as Numeric>::parse_text("4x2"), None);
    assert_eq!(<i64 as Numeric>::parse_text(""), None);
    assert_eq!(<i64 as Numeric>::parse_text("9223372036854775807"), Some(i64::MAX));
    assert_eq!(<i64 as Numeric>::parse_text("9223372036854775808"), None);
    assert_eq!(<i32 as Numeric>::parse_text("2147483647"), Some(i32::MAX));
    assert_eq!(<i32 as Numeric>::parse_text("2147483648"), None);
    assert_eq!(3i64.plus(4), 7);
    assert_eq!(3i64.minus(4), -1);
    assert_eq!(3i64.times(4), 12);
    assert_eq!((-7i64).divided_by(2), -3);
    assert_eq!(7i64.divided_by(-2), -3);
    assert_eq!(7i64.negated(), -7);
}
