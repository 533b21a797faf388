use math_parser::{MathParseError, Op, Token, tokenise};

struct NoFun;

impl math_parser::UnaryFn<i64> for NoFun {
    fn apply(&self, x: i64) -> i64 {
        x
    }
}

struct AbsI;

impl math_parser::UnaryFn<i64> for AbsI {
    fn apply(&self, x: i64) -> i64 {
        x.abs()
    }
}

fn eval_i64(text: &str) -> Result<i64, math_parser::MathEvalError> {
    let e: Op<i64> = text.parse().expect("should parse");
    e.eval::<NoFun>(None, None)
}

#[test]
fn lexer_splits_fragments() {
    let frags = tokenise("1 +  2*(ab)");
    let expected: Vec<String> = ["1", "+", "2", "*", "(", "ab", ")"]
        .iter()
        .map(|s| s.to_string())
        .collect();
    assert_eq!(frags, expected);
}

#[test]
fn lexer_splits_on_whitespace() {
    let frags = tokenise("1 2");
    let expected: Vec<String> = ["1", "2"].iter().map(|s| s.to_string()).collect();
    assert_eq!(frags, expected);
}

#[test]
fn round_trip_precedence() {
    assert_eq!(eval_i64("2 - 3 + 4 * 3 / 3"), Ok(3));
    assert_eq!(eval_i64("((2 - 3) + ((4 * 3) / 3))"), Ok(3));
}

#[test]
fn bracket_override() {
    assert_eq!(eval_i64("(2 - 3 + 4) * 3 / 3"), Ok(3));
}

#[test]
fn unbalanced_brackets_fail() {
    let unclosed: Result<Op<i64>, _> = "(1 + 2".parse();
    assert!(matches!(unclosed, Err(MathParseError::Bracket)));
    let unopened: Result<Op<i64>, _> = "1 + 2)".parse();
    assert!(matches!(unopened, Err(MathParseError::Bracket)));
    let extra_close: Result<Op<i64>, _> = "(1 + 2))".parse();
    assert!(matches!(extra_close, Err(MathParseError::Bracket)));
}

#[test]
fn nested_brackets_parse() {
    assert_eq!(eval_i64("((1))"), Ok(1));
    assert_eq!(eval_i64("((2 + 3)) * 2"), Ok(10));
}

#[test]
fn malformed_expression_fails() {
    let double_op: Result<Op<i64>, _> = "1 + + 2".parse();
    assert!(matches!(double_op, Err(MathParseError::Expression)));
    let two_operands: Result<Op<i64>, _> = "1 2".parse();
    assert!(matches!(two_operands, Err(MathParseError::Expression)));
}

#[test]
fn empty_input_fails() {
    let empty: Result<Op<i64>, _> = "".parse();
    assert!(matches!(empty, Err(MathParseError::Expression)));
    let blank: Result<Op<i64>, _> = "   ".parse();
    assert!(matches!(blank, Err(MathParseError::Expression)));
}

#[test]
fn unary_minus_at_group_start() {
    assert_eq!(eval_i64("-5"), Ok(-5));
    assert_eq!(eval_i64("-(2 + 3)"), Ok(-5));
    assert_eq!(eval_i64("1 + (-2)"), Ok(-1));
}

#[test]
fn unary_minus_after_operator_is_rejected() {
    // A `-` that is not the first fragment of its group is the subtraction
    // marker, so a negative literal right after a binary operator does not
    // parse as a negation.
    let after_sub: Result<Op<i64>, _> = "3 - -2".parse();
    assert!(matches!(after_sub, Err(MathParseError::Expression)));
    let after_add: Result<Op<i64>, _> = "1 + -2".parse();
    assert!(matches!(after_add, Err(MathParseError::Expression)));
}

#[test]
fn dangling_operator_fails() {
    let trailing: Result<Op<i64>, _> = "1 +".parse();
    assert!(matches!(trailing, Err(MathParseError::Expression)));
    let leading: Result<Op<i64>, _> = "* 2".parse();
    assert!(matches!(leading, Err(MathParseError::Expression)));
    let lone_minus: Result<Op<i64>, _> = "-".parse();
    assert!(matches!(lone_minus, Err(MathParseError::Expression)));
}

#[test]
fn token_builder_reads_one_segment() {
    let frags = tokenise("5 + x");
    let built = Token::<i64>::parse_segment(&frags, 0, 0, true);
    match built {
        Ok((Token::Val(v), next)) => {
            assert_eq!(v, 5);
            assert_eq!(next, 1);
        },
        _ => panic!("expected a literal value"),
    }
}

#[test]
fn validator_rejects_adjacent_operands() {
    let toks = vec![Token::<i64>::Val(1), Token::<i64>::Val(2)];
    assert!(matches!(
        Token::validate_inner(&toks),
        Err(MathParseError::Expression)
    ));
    let good = vec![Token::<i64>::Val(1), Token::<i64>::Add, Token::<i64>::Val(2)];
    assert!(Token::validate_inner(&good).is_ok());
}

#[test]
fn precedence_binds_multiplication_first() {
    assert_eq!(eval_i64("2 + 3 * 4"), Ok(14));
    assert_eq!(eval_i64("2 * 3 + 4"), Ok(10));
    assert_eq!(eval_i64("20 - 2 * 3 - 4"), Ok(10));
    assert_eq!(eval_i64("100 / 5 / 2"), Ok(10));
}

#[test]
fn nested_structures_evaluate() {
    assert_eq!(eval_i64("2 * (3 + 4) * 5"), Ok(70));
    assert_eq!(eval_i64("((1 + 2) * (3 + 4))"), Ok(21));
    assert_eq!(eval_i64("1 - (2 - (3 - 4))"), Ok(-2));
    assert_eq!(eval_i64("2 * 3 * 4"), Ok(24));
}

#[test]
fn function_calls_take_compound_arguments() {
    let expr: Op<i64> = "abs(1 - 2 * 3) + abs(abs(0 - 5))".parse().expect("should parse");
    let mut funs: math_parser::Bindings<AbsI> = math_parser::Bindings::new();
    funs.insert("abs", AbsI);
    assert_eq!(expr.eval(None, Some(&funs)), Ok(10));
}
