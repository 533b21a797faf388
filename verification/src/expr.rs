use crate::error::{EvalErrorModel, MathEvalError, MathParseError, ParseErrorModel};
use crate::numeric::Numeric;
use crate::table::Bindings;
use crate::token::{
    clean_operand, lemma_toks_model_index, lemma_toks_model_len, parse_m, tok_model, toks_model,
    TokModel, Token,
};
use core::str::FromStr;
use vstd::prelude::*;

verus! {

/// A named unary scalar function a caller binds in a function table. The
/// implementor supplies the executable function together with its spec-level
/// twin; the evaluator's contract is stated over the twin.
pub trait UnaryFn<T: Numeric>: Sized {
    /// What `apply` returns; unspecified unless the implementor overrides it.
    open spec fn apply_spec(&self, x: T) -> T {
        arbitrary()
    }

    fn apply(&self, x: T) -> (r: T)
        ensures
            r == self.apply_spec(x),
    ;
}

/// A table binding variable names to scalar values.
pub type Variables<T> = Bindings<T>;

/// A table binding function names to unary functions.
pub type Functions<F> = Bindings<F>;

/// The persisted, public expression tree: a literal constant, a variable
/// reference, a named unary function application, a negation, or one of the
/// four binary operations. It owns its children exclusively and is immutable
/// after construction; evaluation never changes it.
#[derive(Debug)]
pub enum Op<T: Numeric> {
    Val(T),
    Var(String),
    Fun(String, Box<Op<T>>),
    Neg(Box<Op<T>>),
    Add(Box<Op<T>>, Box<Op<T>>),
    Sub(Box<Op<T>>, Box<Op<T>>),
    Mul(Box<Op<T>>, Box<Op<T>>),
    Div(Box<Op<T>>, Box<Op<T>>),
}

/// Mathematical model of `Op`.
pub enum OpModel<T> {
    Val(T),
    Var(Seq<char>),
    Fun(Seq<char>, Box<OpModel<T>>),
    Neg(Box<OpModel<T>>),
    Add(Box<OpModel<T>>, Box<OpModel<T>>),
    Sub(Box<OpModel<T>>, Box<OpModel<T>>),
    Mul(Box<OpModel<T>>, Box<OpModel<T>>),
    Div(Box<OpModel<T>>, Box<OpModel<T>>),
}

pub open spec fn op_model<T: Numeric>(o: Op<T>) -> OpModel<T>
    decreases o,
{
    match o {
        Op::Val(x) => OpModel::Val(x),
        Op::Var(n) => OpModel::Var(n@),
        Op::Fun(n, a) => OpModel::Fun(n@, Box::new(op_model(*a))),
        Op::Neg(a) => OpModel::Neg(Box::new(op_model(*a))),
        Op::Add(a, b) => OpModel::Add(Box::new(op_model(*a)), Box::new(op_model(*b))),
        Op::Sub(a, b) => OpModel::Sub(Box::new(op_model(*a)), Box::new(op_model(*b))),
        Op::Mul(a, b) => OpModel::Mul(Box::new(op_model(*a)), Box::new(op_model(*b))),
        Op::Div(a, b) => OpModel::Div(Box::new(op_model(*a)), Box::new(op_model(*b))),
    }
}

impl<T: Numeric> View for Op<T> {
    type V = OpModel<T>;

    open spec fn view(&self) -> OpModel<T> {
        op_model(*self)
    }
}

/// Whether an optional table binds a name.
pub open spec fn binds<V>(table: Option<Map<Seq<char>, V>>, n: Seq<char>) -> bool {
    match table {
        Some(m) => m.contains_key(n),
        None => false,
    }
}

/// What evaluating an expression against the given tables yields: the scalar
/// it denotes, or the first unresolvable name met in a depth-first,
/// left-to-right walk. The arithmetic is the scalar type's own, through the
/// spec twins of its operations.
pub open spec fn eval_m<T: Numeric, F: UnaryFn<T>>(
    e: OpModel<T>,
    vars: Option<Map<Seq<char>, T>>,
    funs: Option<Map<Seq<char>, F>>,
) -> Result<T, EvalErrorModel>
    decreases e,
{
    match e {
        OpModel::Val(a) => Ok(a),
        OpModel::Var(n) => if binds(vars, n) {
            Ok(vars.unwrap()[n])
        } else {
            Err(EvalErrorModel::Variable(n))
        },
        OpModel::Fun(n, a) => match eval_m(*a, vars, funs) {
            Ok(x) => if binds(funs, n) {
                Ok(funs.unwrap()[n].apply_spec(x))
            } else {
                Err(EvalErrorModel::Function(n))
            },
            Err(er) => Err(er),
        },
        OpModel::Neg(a) => match eval_m(*a, vars, funs) {
            Ok(x) => Ok(x.neg_spec()),
            Err(er) => Err(er),
        },
        OpModel::Add(a, b) => match (eval_m(*a, vars, funs), eval_m(*b, vars, funs)) {
            (Ok(x), Ok(y)) => Ok(x.add_spec(y)),
            (Err(er), _) => Err(er),
            (_, Err(er)) => Err(er),
        },
        OpModel::Sub(a, b) => match (eval_m(*a, vars, funs), eval_m(*b, vars, funs)) {
            (Ok(x), Ok(y)) => Ok(x.sub_spec(y)),
            (Err(er), _) => Err(er),
            (_, Err(er)) => Err(er),
        },
        OpModel::Mul(a, b) => match (eval_m(*a, vars, funs), eval_m(*b, vars, funs)) {
            (Ok(x), Ok(y)) => Ok(x.mul_spec(y)),
            (Err(er), _) => Err(er),
            (_, Err(er)) => Err(er),
        },
        OpModel::Div(a, b) => match (eval_m(*a, vars, funs), eval_m(*b, vars, funs)) {
            (Ok(x), Ok(y)) => Ok(x.div_spec(y)),
            (Err(er), _) => Err(er),
            (_, Err(er)) => Err(er),
        },
    }
}

/// Whether evaluation stays inside the scalar type's own domain: every
/// arithmetic operation actually reached is defined on its operands (for
/// machine integers: no overflow, no division by zero). Short-circuiting is
/// respected: what an error cuts off is not reached.
pub open spec fn eval_defined<T: Numeric, F: UnaryFn<T>>(
    e: OpModel<T>,
    vars: Option<Map<Seq<char>, T>>,
    funs: Option<Map<Seq<char>, F>>,
) -> bool
    decreases e,
{
    match e {
        OpModel::Val(_) => true,
        OpModel::Var(_) => true,
        OpModel::Fun(_, a) => eval_defined(*a, vars, funs),
        OpModel::Neg(a) => eval_defined(*a, vars, funs) && (match eval_m(*a, vars, funs) {
            Ok(x) => x.neg_ok(),
            Err(_) => true,
        }),
        OpModel::Add(a, b) => eval_defined(*a, vars, funs) && (match eval_m(*a, vars, funs) {
            Ok(x) => eval_defined(*b, vars, funs) && (match eval_m(*b, vars, funs) {
                Ok(y) => x.add_ok(y),
                Err(_) => true,
            }),
            Err(_) => true,
        }),
        OpModel::Sub(a, b) => eval_defined(*a, vars, funs) && (match eval_m(*a, vars, funs) {
            Ok(x) => eval_defined(*b, vars, funs) && (match eval_m(*b, vars, funs) {
                Ok(y) => x.sub_ok(y),
                Err(_) => true,
            }),
            Err(_) => true,
        }),
        OpModel::Mul(a, b) => eval_defined(*a, vars, funs) && (match eval_m(*a, vars, funs) {
            Ok(x) => eval_defined(*b, vars, funs) && (match eval_m(*b, vars, funs) {
                Ok(y) => x.mul_ok(y),
                Err(_) => true,
            }),
            Err(_) => true,
        }),
        OpModel::Div(a, b) => eval_defined(*a, vars, funs) && (match eval_m(*a, vars, funs) {
            Ok(x) => eval_defined(*b, vars, funs) && (match eval_m(*b, vars, funs) {
                Ok(y) => x.div_ok(y),
                Err(_) => true,
            }),
            Err(_) => true,
        }),
    }
}

/// The model of an optional borrowed table.
pub open spec fn table_model<V>(t: Option<&Bindings<V>>) -> Option<Map<Seq<char>, V>> {
    match t {
        Some(b) => Some(b@),
        None => None,
    }
}

impl<T: Numeric> Op<T> {
    /// Evaluates the tree against the caller's tables. The result is a pure
    /// function of the tree and the tables — re-evaluating with the same
    /// tables yields the same value — and evaluation fails exactly on the
    /// first variable or function name, in a depth-first left-to-right walk,
    /// that its table does not bind.
    pub fn eval<F: UnaryFn<T>>(
        &self,
        vars: Option<&Variables<T>>,
        funs: Option<&Functions<F>>,
    ) -> (r: Result<T, MathEvalError>)
        requires
            eval_defined(self@, table_model(vars), table_model(funs)),
        ensures
            (match r {
                Ok(v) => eval_m(self@, table_model(vars), table_model(funs)) == Ok::<
                    T,
                    EvalErrorModel,
                >(v),
                Err(e) => eval_m(self@, table_model(vars), table_model(funs)) == Err::<
                    T,
                    EvalErrorModel,
                >(e@),
            }),
        decreases *self,
    {
        match self {
            Op::Val(a) => Ok(*a),
            Op::Var(name) => match vars {
                Some(table) => match table.get(name.as_str()) {
                    Some(v) => Ok(*v),
                    None => Err(MathEvalError::Variable(name.clone())),
                },
                None => Err(MathEvalError::Variable(name.clone())),
            },
            Op::Fun(name, a) => match a.eval(vars, funs) {
                Ok(x) => match funs {
                    Some(table) => match table.get(name.as_str()) {
                        Some(f) => Ok(f.apply(x)),
                        None => Err(MathEvalError::Function(name.clone())),
                    },
                    None => Err(MathEvalError::Function(name.clone())),
                },
                Err(e) => Err(e),
            },
            Op::Neg(a) => match a.eval(vars, funs) {
                Ok(x) => Ok(x.negated()),
                Err(e) => Err(e),
            },
            Op::Add(a, b) => match a.eval(vars, funs) {
                Ok(x) => match b.eval(vars, funs) {
                    Ok(y) => Ok(x.plus(y)),
                    Err(e) => Err(e),
                },
                Err(e) => Err(e),
            },
            Op::Sub(a, b) => match a.eval(vars, funs) {
                Ok(x) => match b.eval(vars, funs) {
                    Ok(y) => Ok(x.minus(y)),
                    Err(e) => Err(e),
                },
                Err(e) => Err(e),
            },
            Op::Mul(a, b) => match a.eval(vars, funs) {
                Ok(x) => match b.eval(vars, funs) {
                    Ok(y) => Ok(x.times(y)),
                    Err(e) => Err(e),
                },
                Err(e) => Err(e),
            },
            Op::Div(a, b) => match a.eval(vars, funs) {
                Ok(x) => match b.eval(vars, funs) {
                    Ok(y) => Ok(x.divided_by(y)),
                    Err(e) => Err(e),
                },
                Err(e) => Err(e),
            },
        }
    }
}

/// What converting one fully resolved token to an expression yields. Only
/// values, variables, negations, function calls and three-element groups with
/// an operator in the middle are resolved; nothing else reaches this point.
pub open spec fn op_of_token<T: Numeric>(t: TokModel<T>) -> OpModel<T>
    decreases t,
{
    match t {
        TokModel::Val(x) => OpModel::Val(x),
        TokModel::Var(n) => OpModel::Var(n),
        TokModel::Neg(b) => OpModel::Neg(Box::new(op_of_token(*b))),
        TokModel::Fun(n, b) => OpModel::Fun(n, Box::new(op_of_token(*b))),
        TokModel::Seg(s) => if s.len() == 3 {
            match s[1] {
                TokModel::Add => OpModel::Add(
                    Box::new(op_of_token(s[0])),
                    Box::new(op_of_token(s[2])),
                ),
                TokModel::Sub => OpModel::Sub(
                    Box::new(op_of_token(s[0])),
                    Box::new(op_of_token(s[2])),
                ),
                TokModel::Mul => OpModel::Mul(
                    Box::new(op_of_token(s[0])),
                    Box::new(op_of_token(s[2])),
                ),
                TokModel::Div => OpModel::Div(
                    Box::new(op_of_token(s[0])),
                    Box::new(op_of_token(s[2])),
                ),
                _ => arbitrary(),
            }
        } else {
            arbitrary()
        },
        _ => arbitrary(),
    }
}

/// What parsing raw text to an expression yields.
pub open spec fn op_parse_m<T: Numeric>(text: Seq<char>) -> Result<OpModel<T>, ParseErrorModel> {
    match parse_m::<T>(text) {
        Ok(t) => Ok(op_of_token(t)),
        Err(e) => Err(e),
    }
}

impl<T: Numeric> Op<T> {
    /// Converts a fully resolved token tree into the expression tree. The
    /// parse pipeline proves its output resolved, so the conversion is total
    /// here: no group of another shape can reach it.
    pub fn from_tokens(t: &Token<T>) -> (r: Op<T>)
        requires
            clean_operand(t@),
        ensures
            r@ == op_of_token(t@),
        decreases *t,
    {
        broadcast use lemma_toks_model_len, lemma_toks_model_index;

        match t {
            Token::Val(x) => Op::Val(*x),
            Token::Var(n) => Op::Var(n.clone()),
            Token::Neg(b) => Op::Neg(Box::new(Self::from_tokens(&**b))),
            Token::Fun(n, b) => Op::Fun(n.clone(), Box::new(Self::from_tokens(&**b))),
            Token::Seg(v) => {
                proof {
                    assert(t@ == TokModel::Seg(toks_model(v@)));
                    assert(toks_model(v@).len() == 3);
                    assert(v@.len() == 3);
                    assert(toks_model(v@)[0] == tok_model(v@[0]));
                    assert(toks_model(v@)[1] == tok_model(v@[1]));
                    assert(toks_model(v@)[2] == tok_model(v@[2]));
                }
                let left = Box::new(Self::from_tokens(&v[0]));
                let right = Box::new(Self::from_tokens(&v[2]));
                match &v[1] {
                    Token::Add => Op::Add(left, right),
                    Token::Sub => Op::Sub(left, right),
                    Token::Mul => Op::Mul(left, right),
                    Token::Div => Op::Div(left, right),
                    _ => unreached(),
                }
            },
            _ => unreached(),
        }
    }

    /// Parses raw text into an expression tree: any string is accepted as
    /// input and yields either the tree reflecting standard precedence and
    /// bracketing, or the first parse error.
    pub fn parse(text: &str) -> (r: Result<Op<T>, MathParseError>)
        ensures
            (match r {
                Ok(o) => op_parse_m::<T>(text@) == Ok::<OpModel<T>, ParseErrorModel>(o@),
                Err(e) => op_parse_m::<T>(text@) == Err::<OpModel<T>, ParseErrorModel>(e@),
            }),
    {
        match Token::<T>::parse(text) {
            Ok(t) => Ok(Self::from_tokens(&t)),
            Err(e) => Err(e),
        }
    }
}

// ------------------------------------------------------------------
// Laws of evaluation
// ------------------------------------------------------------------
/// The variable names an expression references.
pub open spec fn var_names<T>(e: OpModel<T>) -> Set<Seq<char>>
    decreases e,
{
    match e {
        OpModel::Val(_) => Set::empty(),
        OpModel::Var(n) => Set::empty().insert(n),
        OpModel::Fun(_, a) => var_names(*a),
        OpModel::Neg(a) => var_names(*a),
        OpModel::Add(a, b) => var_names(*a) + var_names(*b),
        OpModel::Sub(a, b) => var_names(*a) + var_names(*b),
        OpModel::Mul(a, b) => var_names(*a) + var_names(*b),
        OpModel::Div(a, b) => var_names(*a) + var_names(*b),
    }
}

/// The function names an expression references.
pub open spec fn fun_names<T>(e: OpModel<T>) -> Set<Seq<char>>
    decreases e,
{
    match e {
        OpModel::Val(_) => Set::empty(),
        OpModel::Var(_) => Set::empty(),
        OpModel::Fun(n, a) => fun_names(*a).insert(n),
        OpModel::Neg(a) => fun_names(*a),
        OpModel::Add(a, b) => fun_names(*a) + fun_names(*b),
        OpModel::Sub(a, b) => fun_names(*a) + fun_names(*b),
        OpModel::Mul(a, b) => fun_names(*a) + fun_names(*b),
        OpModel::Div(a, b) => fun_names(*a) + fun_names(*b),
    }
}

/// Law: a successful evaluation resolves every name the expression holds, so
/// the tables bind every variable and every function it references.
pub proof fn lemma_eval_ok_binds_names<T: Numeric, F: UnaryFn<T>>(
    e: OpModel<T>,
    vars: Option<Map<Seq<char>, T>>,
    funs: Option<Map<Seq<char>, F>>,
)
    requires
        eval_m(e, vars, funs) is Ok,
    ensures
        forall|n: Seq<char>| var_names(e).contains(n) ==> binds(vars, n),
        forall|n: Seq<char>| fun_names(e).contains(n) ==> binds(funs, n),
    decreases e,
{
    match e {
        OpModel::Val(_) => {},
        OpModel::Var(_) => {},
        OpModel::Fun(_, a) => {
            lemma_eval_ok_binds_names(*a, vars, funs);
        },
        OpModel::Neg(a) => {
            lemma_eval_ok_binds_names(*a, vars, funs);
        },
        OpModel::Add(a, b) => {
            lemma_eval_ok_binds_names(*a, vars, funs);
            lemma_eval_ok_binds_names(*b, vars, funs);
        },
        OpModel::Sub(a, b) => {
            lemma_eval_ok_binds_names(*a, vars, funs);
            lemma_eval_ok_binds_names(*b, vars, funs);
        },
        OpModel::Mul(a, b) => {
            lemma_eval_ok_binds_names(*a, vars, funs);
            lemma_eval_ok_binds_names(*b, vars, funs);
        },
        OpModel::Div(a, b) => {
            lemma_eval_ok_binds_names(*a, vars, funs);
            lemma_eval_ok_binds_names(*b, vars, funs);
        },
    }
}

/// Law: evaluating an expression that references a variable its table does
/// not bind (or with no variable table at all) fails.
pub proof fn lemma_missing_variable_fails<T: Numeric, F: UnaryFn<T>>(
    e: OpModel<T>,
    vars: Option<Map<Seq<char>, T>>,
    funs: Option<Map<Seq<char>, F>>,
    n: Seq<char>,
)
    requires
        var_names(e).contains(n),
        !binds(vars, n),
    ensures
        eval_m(e, vars, funs) is Err,
{
    if eval_m(e, vars, funs) is Ok {
        lemma_eval_ok_binds_names(e, vars, funs);
    }
}

/// Law: evaluating an expression that references a function its table does
/// not bind (or with no function table at all) fails.
pub proof fn lemma_missing_function_fails<T: Numeric, F: UnaryFn<T>>(
    e: OpModel<T>,
    vars: Option<Map<Seq<char>, T>>,
    funs: Option<Map<Seq<char>, F>>,
    n: Seq<char>,
)
    requires
        fun_names(e).contains(n),
        !binds(funs, n),
    ensures
        eval_m(e, vars, funs) is Err,
{
    if eval_m(e, vars, funs) is Ok {
        lemma_eval_ok_binds_names(e, vars, funs);
    }
}

impl<T: Numeric> FromStr for Op<T> {
    type Err = MathParseError;

    fn from_str(s: &str) -> Result<Op<T>, MathParseError> {
        Op::parse(s)
    }
}

impl<T: Numeric> FromStr for Token<T> {
    type Err = MathParseError;

    fn from_str(s: &str) -> Result<Token<T>, MathParseError> {
        Token::parse(s)
    }
}

} // verus!
