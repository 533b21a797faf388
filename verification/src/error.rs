use vstd::prelude::*;
use vstd::string::StrSliceExecFns;
use vstd::string::StringExecFns;

verus! {

/// Errors reported while turning text into an expression tree.
#[derive(Debug, Clone, PartialEq, Eq)]
pub enum MathParseError {
    /// A numeric literal failed to parse as the scalar type; carries the text.
    Number(String),
    /// Unbalanced parentheses: a closing bracket with no opening one, or an
    /// opening bracket still unclosed at the end of the input.
    Bracket,
    /// Malformed operand/operator alternation: two consecutive operands, a
    /// leading or trailing operator, or an empty group.
    Expression,
}

/// Errors reported while evaluating an expression tree.
#[derive(Debug, Clone, PartialEq, Eq)]
pub enum MathEvalError {
    /// The named variable has no binding in the supplied table.
    Variable(String),
    /// The named function has no binding in the supplied table.
    Function(String),
}

/// Mathematical model of `MathParseError`: names are sequences of characters.
pub enum ParseErrorModel {
    Number(Seq<char>),
    Bracket,
    Expression,
}

/// Mathematical model of `MathEvalError`.
pub enum EvalErrorModel {
    Variable(Seq<char>),
    Function(Seq<char>),
}

/// The description `MathParseError::message` returns.
pub open spec fn parse_error_message(e: ParseErrorModel) -> Seq<char> {
    match e {
        ParseErrorModel::Number(t) => "failed to parse token as number: "@ + t,
        ParseErrorModel::Bracket => "mismatched number of brackets"@,
        ParseErrorModel::Expression => "malformed operand/operator alternation"@,
    }
}

/// The description `MathEvalError::message` returns.
pub open spec fn eval_error_message(e: EvalErrorModel) -> Seq<char> {
    match e {
        EvalErrorModel::Variable(t) => "no variable found: "@ + t,
        EvalErrorModel::Function(t) => "no function found: "@ + t,
    }
}

impl MathParseError {
    /// A human-readable description, standing in for `Display`, which a
    /// verified type cannot implement.
    pub fn message(&self) -> (r: String)
        ensures
            r@ == parse_error_message(self@),
    {
        match self {
            MathParseError::Number(t) => "failed to parse token as number: ".to_owned().concat(
                t.as_str(),
            ),
            MathParseError::Bracket => "mismatched number of brackets".to_owned(),
            MathParseError::Expression => "malformed operand/operator alternation".to_owned(),
        }
    }
}

impl MathEvalError {
    /// A human-readable description, standing in for `Display`, which a
    /// verified type cannot implement.
    pub fn message(&self) -> (r: String)
        ensures
            r@ == eval_error_message(self@),
    {
        match self {
            MathEvalError::Variable(t) => "no variable found: ".to_owned().concat(t.as_str()),
            MathEvalError::Function(t) => "no function found: ".to_owned().concat(t.as_str()),
        }
    }
}

impl View for MathParseError {
    type V = ParseErrorModel;

    open spec fn view(&self) -> ParseErrorModel {
        match self {
            MathParseError::Number(s) => ParseErrorModel::Number(s@),
            MathParseError::Bracket => ParseErrorModel::Bracket,
            MathParseError::Expression => ParseErrorModel::Expression,
        }
    }
}

impl View for MathEvalError {
    type V = EvalErrorModel;

    open spec fn view(&self) -> EvalErrorModel {
        match self {
            MathEvalError::Variable(s) => EvalErrorModel::Variable(s@),
            MathEvalError::Function(s) => EvalErrorModel::Function(s@),
        }
    }
}

} // verus!
