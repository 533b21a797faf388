use crate::error::{MathParseError, ParseErrorModel};
use crate::numeric::Numeric;
use vstd::prelude::*;
use vstd::string::StrSliceExecFns;

verus! {

/// One syntactic unit during parsing, before operator precedence is resolved:
/// a literal value, a variable name, a named unary function applied to a
/// sub-expression, a unary negation, a parenthesised (or top-level) sequence
/// awaiting precedence resolution, or one of the four raw operator markers.
#[derive(Debug)]
pub enum Token<T: Numeric> {
    Seg(Vec<Token<T>>),
    Val(T),
    Neg(Box<Token<T>>),
    Var(String),
    Fun(String, Box<Token<T>>),
    Add,
    Sub,
    Mul,
    Div,
}

/// Mathematical model of `Token`: vectors become sequences and strings become
/// sequences of characters, so that the whole parsing pipeline can be stated
/// over pure values.
pub enum TokModel<T> {
    Seg(Seq<TokModel<T>>),
    Val(T),
    Neg(Box<TokModel<T>>),
    Var(Seq<char>),
    Fun(Seq<char>, Box<TokModel<T>>),
    Add,
    Sub,
    Mul,
    Div,
}

pub open spec fn tok_model<T: Numeric>(t: Token<T>) -> TokModel<T>
    decreases t,
{
    match t {
        Token::Seg(v) => TokModel::Seg(toks_model(v@)),
        Token::Val(x) => TokModel::Val(x),
        Token::Neg(b) => TokModel::Neg(Box::new(tok_model(*b))),
        Token::Var(s) => TokModel::Var(s@),
        Token::Fun(n, b) => TokModel::Fun(n@, Box::new(tok_model(*b))),
        Token::Add => TokModel::Add,
        Token::Sub => TokModel::Sub,
        Token::Mul => TokModel::Mul,
        Token::Div => TokModel::Div,
    }
}

pub open spec fn toks_model<T: Numeric>(s: Seq<Token<T>>) -> Seq<TokModel<T>>
    decreases s,
{
    if s.len() == 0 {
        Seq::empty()
    } else {
        seq![tok_model(s[0])] + toks_model(s.drop_first())
    }
}

pub broadcast proof fn lemma_toks_model_len<T: Numeric>(s: Seq<Token<T>>)
    ensures
        (#[trigger] toks_model(s)).len() == s.len(),
    decreases s,
{
    if s.len() > 0 {
        lemma_toks_model_len(s.drop_first());
    }
}

pub broadcast proof fn lemma_toks_model_index<T: Numeric>(s: Seq<Token<T>>, i: int)
    requires
        0 <= i < s.len(),
    ensures
        #[trigger] toks_model(s)[i] == tok_model(s[i]),
    decreases s,
{
    lemma_toks_model_len(s);
    if i > 0 {
        lemma_toks_model_index(s.drop_first(), i - 1);
    }
}

impl<T: Numeric> View for Token<T> {
    type V = TokModel<T>;

    open spec fn view(&self) -> TokModel<T> {
        tok_model(*self)
    }
}

/// An operator marker; everything else counts as an operand.
pub open spec fn is_op<T>(t: TokModel<T>) -> bool {
    t is Add || t is Sub || t is Mul || t is Div
}

// ------------------------------------------------------------------
// Lexer
// ------------------------------------------------------------------
/// The six characters the lexer splits on and emits as fragments of their own.
pub open spec fn is_special_char(c: char) -> bool {
    c == '+' || c == '-' || c == '*' || c == '/' || c == '(' || c == ')'
}

/// The fragments of the text from position `i` on, given the run of ordinary
/// characters `cur` read immediately before `i`: a maximal run of ordinary
/// characters forms one fragment, each special character is a fragment of its
/// own, and a space ends the current run without being emitted.
pub open spec fn lex_rec(s: Seq<char>, i: int, cur: Seq<char>) -> Seq<Seq<char>>
    decreases s.len() - i,
{
    let flushed: Seq<Seq<char>> = if cur.len() == 0 {
        seq![]
    } else {
        seq![cur]
    };
    if i < 0 || i >= s.len() {
        flushed
    } else if s[i] == ' ' {
        flushed + lex_rec(s, i + 1, seq![])
    } else if is_special_char(s[i]) {
        flushed + seq![seq![s[i]]] + lex_rec(s, i + 1, seq![])
    } else {
        lex_rec(s, i + 1, cur.push(s[i]))
    }
}

/// The fragment sequence of a whole text.
pub open spec fn lex_spec(s: Seq<char>) -> Seq<Seq<char>> {
    lex_rec(s, 0, seq![])
}

/// Splits raw text into fragments: maximal runs of ordinary characters
/// (candidate numbers or identifiers) and single operator or parenthesis
/// characters, with spaces acting as separators that are never emitted.
/// Any text lexes; errors can only arise in the later stages.
pub fn tokenise(s: &str) -> (r: Vec<String>)
    ensures
        r.deep_view() == lex_spec(s@),
{
    let n = s.unicode_len();
    let mut res: Vec<String> = Vec::new();
    let mut start: usize = 0;
    let mut i: usize = 0;
    proof {
        assert(s@.subrange(0, 0) =~= Seq::<char>::empty());
        assert(res.deep_view() + lex_rec(s@, 0, Seq::<char>::empty()) =~= lex_rec(
            s@,
            0,
            Seq::<char>::empty(),
        ));
    }
    while i < n
        invariant
            0 <= start <= i <= n == s@.len(),
            lex_spec(s@) == res.deep_view() + lex_rec(
                s@,
                i as int,
                s@.subrange(start as int, i as int),
            ),
        decreases n - i,
    {
        let c = s.get_char(i);
        let ghost cur = s@.subrange(start as int, i as int);
        if c == ' ' || c == '+' || c == '-' || c == '*' || c == '/' || c == '(' || c == ')' {
            if start < i {
                let frag = s.substring_char(start, i).to_owned();
                res.push(frag);
            }
            if c != ' ' {
                let op = s.substring_char(i, i + 1).to_owned();
                proof {
                    assert(op@ =~= seq![s@[i as int]]);
                }
                res.push(op);
            }
            start = i + 1;
        }
        proof {
            assert(s@.subrange(start as int, i + 1) =~= if c == ' ' || is_special_char(c) {
                Seq::<char>::empty()
            } else {
                cur.push(s@[i as int])
            });
        }
        i = i + 1;
    }
    if start < n {
        let frag = s.substring_char(start, n).to_owned();
        res.push(frag);
    }
    proof {
        assert(s@.subrange(start as int, n as int).len() == 0 ==> s@.subrange(
            start as int,
            n as int,
        ) =~= Seq::<char>::empty());
    }
    res
}

// ------------------------------------------------------------------
// Token builder
// ------------------------------------------------------------------
/// What building one token from the fragments at position `i` yields: the
/// token's model and the position of the first fragment after it, or a parse
/// error. `depth` counts the brackets currently open; `is_start` is whether
/// this is the first token of the group, where `-` means negation rather than
/// subtraction.
pub open spec fn seg_m<T: Numeric>(
    frags: Seq<Seq<char>>,
    i: int,
    depth: int,
    is_start: bool,
) -> Result<(TokModel<T>, int), ParseErrorModel>
    decreases frags.len() - i, 0int,
{
    if i < 0 || i >= frags.len() {
        Err(ParseErrorModel::Expression)
    } else {
        let f = frags[i];
        if f == seq!['('] {
            match items_m::<T>(frags, i + 1, depth + 1, true) {
                Ok((toks, j)) => Ok((TokModel::Seg(toks), j)),
                Err(e) => Err(e),
            }
        } else if f == seq![')'] {
            Err(ParseErrorModel::Expression)
        } else if f == seq!['+'] {
            Ok((TokModel::Add, i + 1))
        } else if f == seq!['-'] {
            if is_start {
                match seg_m::<T>(frags, i + 1, depth, false) {
                    Ok((t, j)) => Ok((TokModel::Neg(Box::new(t)), j)),
                    Err(e) => Err(e),
                }
            } else {
                Ok((TokModel::Sub, i + 1))
            }
        } else if f == seq!['*'] {
            Ok((TokModel::Mul, i + 1))
        } else if f == seq!['/'] {
            Ok((TokModel::Div, i + 1))
        } else {
            match T::parse_spec(f) {
                Some(v) => Ok((TokModel::Val(v), i + 1)),
                None => if i + 1 < frags.len() && frags[i + 1] == seq!['('] {
                    match items_m::<T>(frags, i + 2, depth + 1, true) {
                        Ok((toks, j)) => Ok(
                            (TokModel::Fun(f, Box::new(TokModel::Seg(toks))), j),
                        ),
                        Err(e) => Err(e),
                    }
                } else {
                    Ok((TokModel::Var(f), i + 1))
                },
            }
        }
    }
}

/// What building a whole group from position `i` on yields: the sequence of
/// token models up to the matching closing bracket (or the end of the input)
/// and the position after it. A closing bracket with no bracket open, and an
/// open bracket still unclosed at the end of the input, are bracket errors.
pub open spec fn items_m<T: Numeric>(
    frags: Seq<Seq<char>>,
    i: int,
    depth: int,
    is_start: bool,
) -> Result<(Seq<TokModel<T>>, int), ParseErrorModel>
    decreases frags.len() - i, 1int,
{
    if i < 0 {
        Err(ParseErrorModel::Expression)
    } else if i >= frags.len() {
        if depth > 0 {
            Err(ParseErrorModel::Bracket)
        } else {
            Ok((Seq::empty(), i))
        }
    } else if frags[i] == seq![')'] {
        if depth == 0 {
            Err(ParseErrorModel::Bracket)
        } else {
            Ok((Seq::empty(), i + 1))
        }
    } else {
        match seg_m::<T>(frags, i, depth, is_start) {
            Ok((t, j)) => {
                // A token always takes at least one fragment and never more
                // than remain; the bounds keep the recursion visibly
                // well-founded.
                let j2 = if j <= i || j > frags.len() {
                    i + 1
                } else {
                    j
                };
                match items_m::<T>(frags, j2, depth, false) {
                    Ok((rest, k)) => Ok((seq![t] + rest, k)),
                    Err(e) => Err(e),
                }
            },
            Err(e) => Err(e),
        }
    }
}

/// The model of one exec token-building outcome.
pub open spec fn seg_result_model<T: Numeric>(
    r: Result<(Token<T>, usize), MathParseError>,
) -> Result<(TokModel<T>, int), ParseErrorModel> {
    match r {
        Ok((t, j)) => Ok((t@, j as int)),
        Err(e) => Err(e@),
    }
}

/// The model of one exec group-building outcome.
pub open spec fn items_result_model<T: Numeric>(
    r: Result<(Vec<Token<T>>, usize), MathParseError>,
) -> Result<(Seq<TokModel<T>>, int), ParseErrorModel> {
    match r {
        Ok((v, j)) => Ok((toks_model(v@), j as int)),
        Err(e) => Err(e@),
    }
}

/// Prefixing already-built tokens onto the outcome of the rest of a group.
pub open spec fn items_prepend<T: Numeric>(
    pre: Seq<TokModel<T>>,
    r: Result<(Seq<TokModel<T>>, int), ParseErrorModel>,
) -> Result<(Seq<TokModel<T>>, int), ParseErrorModel> {
    match r {
        Ok((rest, k)) => Ok((pre + rest, k)),
        Err(e) => Err(e),
    }
}

proof fn lemma_toks_model_push<T: Numeric>(s: Seq<Token<T>>, x: Token<T>)
    ensures
        toks_model(s.push(x)) == toks_model(s).push(tok_model(x)),
{
    broadcast use lemma_toks_model_len, lemma_toks_model_index;

    assert(toks_model(s.push(x)) =~= toks_model(s).push(tok_model(x)));
}

/// Whether the fragment is the single character `c`.
fn is_single(f: &String, c: char) -> (r: bool)
    ensures
        r == (f@ == seq![c]),
{
    if f.as_str().unicode_len() == 1 {
        let c0 = f.as_str().get_char(0);
        proof {
            if c0 == c {
                assert(f@ =~= seq![c]);
            } else {
                assert(f@ != seq![c]) by {
                    assert(seq![c][0] == c);
                }
            }
        }
        c0 == c
    } else {
        proof {
            assert(seq![c].len() == 1);
        }
        false
    }
}

impl<T: Numeric> Token<T> {
    /// Builds one token from the fragment at `i`: a bracketed group, an
    /// operator marker, a negation if `-` opens the current group, a literal
    /// value, a function call, or a variable reference.
    pub fn parse_segment(frags: &Vec<String>, i: usize, depth: usize, is_start: bool) -> (r:
        Result<(Token<T>, usize), MathParseError>)
        requires
            i < frags@.len(),
            depth <= i,
        ensures
            seg_result_model(r) == seg_m::<T>(frags.deep_view(), i as int, depth as int, is_start),
            r matches Ok((t, j)) ==> i < j <= frags@.len(),
        decreases frags@.len() - i, 0int,
    {
        proof {
            assert(frags.deep_view()[i as int] == frags@[i as int]@);
        }
        let n = frags.len();
        let f = &frags[i];
        if is_single(f, '(') {
            match Self::parse_inner(frags, i + 1, depth + 1) {
                Ok((toks, j)) => Ok((Token::Seg(toks), j)),
                Err(e) => Err(e),
            }
        } else if is_single(f, ')') {
            Err(MathParseError::Expression)
        } else if is_single(f, '+') {
            Ok((Token::Add, i + 1))
        } else if is_single(f, '-') {
            if is_start {
                if i + 1 < frags.len() {
                    match Self::parse_segment(frags, i + 1, depth, false) {
                        Ok((t, j)) => Ok((Token::Neg(Box::new(t)), j)),
                        Err(e) => Err(e),
                    }
                } else {
                    Err(MathParseError::Expression)
                }
            } else {
                Ok((Token::Sub, i + 1))
            }
        } else if is_single(f, '*') {
            Ok((Token::Mul, i + 1))
        } else if is_single(f, '/') {
            Ok((Token::Div, i + 1))
        } else {
            match T::parse_text(f.as_str()) {
                Some(v) => Ok((Token::Val(v), i + 1)),
                None => {
                    proof {
                        if i + 1 < frags@.len() {
                            assert(frags.deep_view()[i + 1] == frags@[i + 1]@);
                        }
                    }
                    let next_is_open = if i + 1 < frags.len() {
                        is_single(&frags[i + 1], '(')
                    } else {
                        false
                    };
                    if next_is_open {
                        match Self::parse_inner(frags, i + 2, depth + 1) {
                            Ok((toks, j)) => {
                                let name = f.clone();
                                let arg = Box::new(Token::Seg(toks));
                                proof {
                                    if let Ok((toks_s, j_s)) = items_m::<T>(
                                        frags.deep_view(),
                                        i + 2,
                                        depth + 1,
                                        true,
                                    ) {
                                        assert(tok_model(*arg) == TokModel::Seg(toks_s));
                                        assert(tok_model(Token::Fun(name, arg)) == TokModel::Fun(
                                            name@,
                                            Box::new(TokModel::Seg(toks_s)),
                                        ));
                                    }
                                }
                                Ok((Token::Fun(name, arg), j))
                            },
                            Err(e) => Err(e),
                        }
                    } else {
                        Ok((Token::Var(f.clone()), i + 1))
                    }
                },
            }
        }
    }

    /// Builds the sequence of tokens of one group, from `i` up to the group's
    /// closing bracket or the end of the input.
    pub fn parse_inner(frags: &Vec<String>, i: usize, depth: usize) -> (r: Result<
        (Vec<Token<T>>, usize),
        MathParseError,
    >)
        requires
            i <= frags@.len(),
            depth <= i,
        ensures
            items_result_model(r) == items_m::<T>(frags.deep_view(), i as int, depth as int, true),
            r matches Ok((v, j)) ==> i <= j <= frags@.len(),
        decreases frags@.len() - i, 1int,
    {
        let ghost fm = frags.deep_view();
        let mut res: Vec<Token<T>> = Vec::new();
        let mut k = i;
        let mut is_start = true;
        proof {
            assert(toks_model(res@) =~= Seq::<TokModel<T>>::empty());
        }
        loop
            invariant
                i <= k <= frags@.len(),
                depth <= i,
                fm == frags.deep_view(),
                fm.len() == frags@.len(),
                items_m::<T>(fm, i as int, depth as int, true) == items_prepend(
                    toks_model(res@),
                    items_m::<T>(fm, k as int, depth as int, is_start),
                ),
            decreases frags@.len() - k,
        {
            if k == frags.len() {
                if depth > 0 {
                    return Err(MathParseError::Bracket);
                } else {
                    return Ok((res, k));
                }
            }
            proof {
                assert(fm[k as int] == frags@[k as int]@);
            }
            if is_single(&frags[k], ')') {
                if depth == 0 {
                    return Err(MathParseError::Bracket);
                } else {
                    proof {
                        assert(toks_model(res@) + Seq::<TokModel<T>>::empty() =~= toks_model(
                            res@,
                        ));
                    }
                    return Ok((res, k + 1));
                }
            }
            match Self::parse_segment(frags, k, depth, is_start) {
                Ok((t, j)) => {
                    proof {
                        lemma_toks_model_push(res@, t);
                        assert((toks_model(res@) + seq![t@]) =~= toks_model(res@).push(t@));
                        if let Ok((rest, m)) = items_m::<T>(fm, j as int, depth as int, false) {
                            assert((toks_model(res@) + (seq![t@] + rest)) =~= (toks_model(
                                res@,
                            ).push(t@) + rest));
                        }
                    }
                    res.push(t);
                    k = j;
                    is_start = false;
                },
                Err(e) => {
                    return Err(e);
                },
            }
        }
    }
}

// ------------------------------------------------------------------
// Validator
// ------------------------------------------------------------------
/// A well-formed operand: a value or a variable as it stands, a negation or a
/// function call whose sole argument is itself a well-formed operand, or a
/// group whose items alternate well; an operator marker is no operand.
pub open spec fn valid_operand<T>(t: TokModel<T>) -> bool
    decreases t,
{
    match t {
        TokModel::Val(_) => true,
        TokModel::Var(_) => true,
        TokModel::Neg(b) => valid_operand(*b),
        TokModel::Fun(_, b) => valid_operand(*b),
        TokModel::Seg(s) => valid_items(s, false),
        _ => false,
    }
}

/// A well-formed group tail: operands and operators strictly alternate,
/// beginning (when `prev_operand` is false) and ending with an operand; the
/// empty group is ill-formed.
pub open spec fn valid_items<T>(s: Seq<TokModel<T>>, prev_operand: bool) -> bool
    decreases s,
{
    if s.len() == 0 {
        prev_operand
    } else if is_op(s[0]) {
        prev_operand && valid_items(s.drop_first(), false)
    } else {
        !prev_operand && valid_operand(s[0]) && valid_items(s.drop_first(), true)
    }
}

impl<T: Numeric> Token<T> {
    /// Validates one token standing alone, as the sole argument of a negation
    /// or function call does.
    pub fn validate_single(t: &Token<T>) -> (r: Result<(), MathParseError>)
        ensures
            r is Ok <==> valid_operand(t@),
            r is Err ==> r == Err::<(), MathParseError>(MathParseError::Expression),
        decreases *t,
    {
        match t {
            Token::Val(_) => Ok(()),
            Token::Var(_) => Ok(()),
            Token::Neg(b) => Self::validate_single(&**b),
            Token::Fun(_, b) => Self::validate_single(&**b),
            Token::Seg(v) => Self::validate_inner(v),
            _ => Err(MathParseError::Expression),
        }
    }

    /// Walks a group's immediate children and enforces that operands and
    /// operators strictly alternate, starting and ending on an operand,
    /// validating nested groups, negations and function arguments as it goes.
    #[verifier::loop_isolation(false)]
    pub fn validate_inner(s: &Vec<Token<T>>) -> (r: Result<(), MathParseError>)
        ensures
            r is Ok <==> valid_items(toks_model(s@), false),
            r is Err ==> r == Err::<(), MathParseError>(MathParseError::Expression),
        decreases s@,
    {
        broadcast use lemma_toks_model_len, lemma_toks_model_index;

        let mut prev = false;
        let mut i: usize = 0;
        proof {
            assert(toks_model(s@).skip(0) =~= toks_model(s@));
        }
        while i < s.len()
            invariant
                0 <= i <= s@.len(),
                valid_items(toks_model(s@), false) <==> valid_items(
                    toks_model(s@).skip(i as int),
                    prev,
                ),
            decreases s@.len() - i,
        {
            let ghost rest = toks_model(s@).skip(i as int);
            proof {
                assert(rest.len() == s@.len() - i);
                assert(rest[0] == toks_model(s@)[i as int]);
                assert(rest.drop_first() =~= toks_model(s@).skip(i + 1));
            }
            let t = &s[i];
            match t {
                Token::Add | Token::Sub | Token::Mul | Token::Div => {
                    if !prev {
                        return Err(MathParseError::Expression);
                    }
                    prev = false;
                },
                _ => {
                    match Self::validate_single(t) {
                        Ok(_) => {},
                        Err(e) => {
                            return Err(e);
                        },
                    }
                    if prev {
                        return Err(MathParseError::Expression);
                    }
                    prev = true;
                },
            }
            i = i + 1;
        }
        proof {
            assert(toks_model(s@).skip(s@.len() as int) =~= Seq::<TokModel<T>>::empty());
        }
        if prev {
            Ok(())
        } else {
            Err(MathParseError::Expression)
        }
    }
}

// ------------------------------------------------------------------
// Precedence restructurer
// ------------------------------------------------------------------
/// A sequence of operator markers only, fit to drive one restructuring pass.
pub open spec fn all_op_items<T>(s: Seq<TokModel<T>>) -> bool {
    forall|i: int| 0 <= i < s.len() ==> is_op(#[trigger] s[i])
}

/// One restructuring pass over a single token: groups, negations and function
/// arguments are rewritten recursively; everything else passes through.
pub open spec fn fix_one<T: Numeric>(t: TokModel<T>, splits: Seq<TokModel<T>>) -> TokModel<T>
    decreases t, 0int,
{
    match t {
        TokModel::Seg(v) => TokModel::Seg(fix_rec(v, 0, Seq::empty(), splits)),
        TokModel::Neg(b) => TokModel::Neg(Box::new(fix_one(*b, splits))),
        TokModel::Fun(n, b) => TokModel::Fun(n, Box::new(fix_one(*b, splits))),
        _ => t,
    }
}

/// One restructuring pass over the items of a group, from position `i` on,
/// with `acc` the output built so far. An operator in the target set folds the
/// most recently emitted element and the (recursively rewritten) next element
/// into a three-element nested group; other operators pass through; operands
/// are rewritten recursively. An operator with nothing before it or nothing
/// after it cannot fold and passes through; a validated group never holds one.
pub open spec fn fix_rec<T: Numeric>(
    s: Seq<TokModel<T>>,
    i: int,
    acc: Seq<TokModel<T>>,
    splits: Seq<TokModel<T>>,
) -> Seq<TokModel<T>>
    decreases s, s.len() - i, 1int,
{
    if i < 0 || i >= s.len() {
        acc
    } else {
        let t = s[i];
        if is_op(t) {
            if splits.contains(t) && acc.len() > 0 && i + 1 < s.len() {
                fix_rec(
                    s,
                    i + 2,
                    acc.drop_last().push(
                        TokModel::Seg(seq![acc.last(), t, fix_one(s[i + 1], splits)]),
                    ),
                    splits,
                )
            } else {
                fix_rec(s, i + 1, acc.push(t), splits)
            }
        } else {
            fix_rec(s, i + 1, acc.push(fix_one(t, splits)), splits)
        }
    }
}

/// Whether two operator markers are the same marker.
fn op_marker_eq<T: Numeric>(a: &Token<T>, b: &Token<T>) -> (r: bool)
    requires
        is_op(a@) || is_op(b@),
    ensures
        r == (a@ == b@),
{
    match (a, b) {
        (Token::Add, Token::Add) => true,
        (Token::Sub, Token::Sub) => true,
        (Token::Mul, Token::Mul) => true,
        (Token::Div, Token::Div) => true,
        _ => false,
    }
}

/// Whether `t` is one of the operator markers of the current pass.
#[verifier::loop_isolation(false)]
fn in_splits<T: Numeric>(t: &Token<T>, splits: &Vec<Token<T>>) -> (r: bool)
    requires
        all_op_items(toks_model(splits@)),
    ensures
        r == toks_model(splits@).contains(t@),
{
    broadcast use lemma_toks_model_len, lemma_toks_model_index;

    let ghost spm = toks_model(splits@);
    let mut k: usize = 0;
    while k < splits.len()
        invariant
            0 <= k <= splits@.len(),
            forall|j: int| 0 <= j < k ==> spm[j] != t@,
        decreases splits@.len() - k,
    {
        proof {
            assert(spm[k as int] == tok_model(splits@[k as int]));
        }
        if op_marker_eq(&splits[k], t) {
            proof {
                assert(spm[k as int] == t@);
            }
            return true;
        }
        k = k + 1;
    }
    proof {
        assert(forall|j: int| 0 <= j < spm.len() ==> spm[j] != t@);
    }
    false
}

impl<T: Numeric> Token<T> {
    /// One restructuring pass over this token, rewriting every group it holds.
    pub fn fix_segment(self, splits: &Vec<Token<T>>) -> (r: Token<T>)
        requires
            all_op_items(toks_model(splits@)),
        ensures
            r@ == fix_one(self@, toks_model(splits@)),
        decreases self,
    {
        match self {
            Token::Seg(v) => Token::Seg(Self::fix_segments(v, splits)),
            Token::Neg(b) => Token::Neg(Box::new((*b).fix_segment(splits))),
            Token::Fun(name, b) => Token::Fun(name, Box::new((*b).fix_segment(splits))),
            other => other,
        }
    }

    /// One restructuring pass over the items of a group: folds every operator
    /// of the target set into a nested (left operand, operator, right operand)
    /// group, left to right, rewriting nested structure as it goes.
    #[verifier::loop_isolation(false)]
    pub fn fix_segments(s: Vec<Token<T>>, splits: &Vec<Token<T>>) -> (r: Vec<Token<T>>)
        requires
            all_op_items(toks_model(splits@)),
        ensures
            toks_model(r@) == fix_rec(toks_model(s@), 0, Seq::empty(), toks_model(splits@)),
        decreases s,
    {
        broadcast use lemma_toks_model_len, lemma_toks_model_index;

        let ghost s0 = s;
        let ghost sm = toks_model(s@);
        let ghost spm = toks_model(splits@);
        let mut input = s;
        let mut out: Vec<Token<T>> = Vec::new();
        let ghost k: int = 0;
        proof {
            assert(input@ =~= s0@.skip(0));
            assert(toks_model(out@) =~= Seq::<TokModel<T>>::empty());
        }
        while input.len() > 0
            invariant
                0 <= k <= sm.len(),
                sm.len() == s0@.len(),
                input@ == s0@.skip(k),
                fix_rec(sm, 0, Seq::empty(), spm) == fix_rec(sm, k, toks_model(out@), spm),
            decreases input@.len(),
        {
            proof {
                assert(input@[0] == s0@[k]);
                assert(sm[k] == tok_model(s0@[k]));
            }
            let t = input.remove(0);
            let is_operator = match &t {
                Token::Add | Token::Sub | Token::Mul | Token::Div => true,
                _ => false,
            };
            if is_operator {
                let folds = if out.len() > 0 && input.len() > 0 {
                    in_splits(&t, splits)
                } else {
                    false
                };
                if folds {
                    proof {
                        assert(input@[0] == s0@[k + 1]);
                        assert(sm[k + 1] == tok_model(s0@[k + 1]));
                        assert(toks_model(out@).len() == out@.len());
                    }
                    let ghost acc_m = toks_model(out@);
                    let ghost out_full = out@;
                    let left = match out.pop() {
                        Some(l) => l,
                        None => unreached(),
                    };
                    proof {
                        assert(out_full =~= out@.push(left));
                        lemma_toks_model_push(out@, left);
                        assert(acc_m == toks_model(out@).push(left@));
                        assert(acc_m.drop_last() =~= toks_model(out@));
                        assert(acc_m.last() == left@);
                    }
                    let right = input.remove(0);
                    let fixed_right = right.fix_segment(splits);
                    let mut trio: Vec<Token<T>> = Vec::new();
                    trio.push(left);
                    trio.push(t);
                    trio.push(fixed_right);
                    proof {
                        assert(toks_model(trio@) =~= seq![acc_m.last(), sm[k], fix_one(
                            sm[k + 1],
                            spm,
                        )]);
                    }
                    let ghost out_popped = out@;
                    out.push(Token::Seg(trio));
                    proof {
                        lemma_toks_model_push(out_popped, Token::Seg(trio));
                        assert(toks_model(out@) =~= acc_m.drop_last().push(
                            TokModel::Seg(seq![acc_m.last(), sm[k], fix_one(sm[k + 1], spm)]),
                        ));
                        k = k + 2;
                        assert(input@ =~= s0@.skip(k));
                    }
                } else {
                    let ghost out_m = toks_model(out@);
                    out.push(t);
                    proof {
                        assert(toks_model(out@) =~= out_m.push(sm[k]));
                        k = k + 1;
                        assert(input@ =~= s0@.skip(k));
                    }
                }
            } else {
                let fixed = t.fix_segment(splits);
                let ghost out_m = toks_model(out@);
                out.push(fixed);
                proof {
                    assert(toks_model(out@) =~= out_m.push(fix_one(sm[k], spm)));
                    k = k + 1;
                    assert(input@ =~= s0@.skip(k));
                }
            }
        }
        proof {
            assert(k == sm.len());
        }
        out
    }
}

// ------------------------------------------------------------------
// Cleanup
// ------------------------------------------------------------------
/// Collapses every surviving one-element group down to its sole element,
/// recursively, leaving nested groups of any other length to be rewritten
/// element by element.
pub open spec fn cleanup_m<T: Numeric>(t: TokModel<T>) -> TokModel<T>
    decreases t,
{
    match t {
        TokModel::Seg(s) => if s.len() == 1 {
            cleanup_m(s[0])
        } else {
            TokModel::Seg(cleanup_items(s))
        },
        TokModel::Neg(b) => TokModel::Neg(Box::new(cleanup_m(*b))),
        TokModel::Fun(n, b) => TokModel::Fun(n, Box::new(cleanup_m(*b))),
        _ => t,
    }
}

pub open spec fn cleanup_items<T: Numeric>(s: Seq<TokModel<T>>) -> Seq<TokModel<T>>
    decreases s,
{
    if s.len() == 0 {
        Seq::empty()
    } else {
        seq![cleanup_m(s[0])] + cleanup_items(s.drop_first())
    }
}

impl<T: Numeric> Token<T> {
    /// Collapses every surviving one-element group down to its sole element.
    #[verifier::loop_isolation(false)]
    pub fn cleanup(self) -> (r: Token<T>)
        ensures
            r@ == cleanup_m(self@),
        decreases self,
    {
        broadcast use lemma_toks_model_len, lemma_toks_model_index;

        match self {
            Token::Seg(v) => {
                let ghost vm = toks_model(v@);
                if v.len() == 1 {
                    let mut v = v;
                    let first = v.remove(0);
                    first.cleanup()
                } else {
                    let ghost v0 = v;
                    let mut input = v;
                    let mut out: Vec<Token<T>> = Vec::new();
                    let ghost k: int = 0;
                    proof {
                        assert(input@ =~= v0@.skip(0));
                        assert(vm.skip(0) =~= vm);
                        assert(toks_model(out@) + cleanup_items(vm) =~= cleanup_items(vm));
                    }
                    while input.len() > 0
                        invariant
                            0 <= k <= vm.len(),
                            vm.len() == v0@.len(),
                            input@ == v0@.skip(k),
                            cleanup_items(vm) == toks_model(out@) + cleanup_items(vm.skip(k)),
                        decreases input@.len(),
                    {
                        proof {
                            assert(input@[0] == v0@[k]);
                            assert(vm[k] == tok_model(v0@[k]));
                            assert(vm.skip(k)[0] == vm[k]);
                            assert(vm.skip(k).drop_first() =~= vm.skip(k + 1));
                        }
                        let t = input.remove(0);
                        let cleaned = t.cleanup();
                        let ghost out_m = toks_model(out@);
                        let ghost out_vec_before = out@;
                        out.push(cleaned);
                        proof {
                            lemma_toks_model_push(out_vec_before, cleaned);
                            assert(toks_model(out@) =~= out_m.push(cleanup_m(vm[k])));
                            k = k + 1;
                            assert(input@ =~= v0@.skip(k));
                            assert(out_m.push(cleanup_m(vm[k - 1])) + cleanup_items(vm.skip(k))
                                =~= out_m + cleanup_items(vm.skip(k - 1)));
                        }
                    }
                    proof {
                        assert(k == vm.len());
                        assert(cleanup_items(vm.skip(k)).len() == 0);
                        assert(toks_model(out@) =~= cleanup_items(vm));
                    }
                    Token::Seg(out)
                }
            },
            Token::Neg(b) => Token::Neg(Box::new((*b).cleanup())),
            Token::Fun(n, b) => Token::Fun(n, Box::new((*b).cleanup())),
            other => other,
        }
    }
}

// ------------------------------------------------------------------
// Shape of the restructured tokens
// ------------------------------------------------------------------
/// After the multiplicative pass: a token with no unfolded `*` or `/` left
/// anywhere in it.
pub open spec fn md_operand<T>(t: TokModel<T>) -> bool
    decreases t, 0int,
{
    match t {
        TokModel::Val(_) => true,
        TokModel::Var(_) => true,
        TokModel::Neg(b) => md_operand(*b),
        TokModel::Fun(_, b) => md_operand(*b),
        TokModel::Seg(s) => md_group(s),
        _ => false,
    }
}

/// A group after the multiplicative pass: either an alternation whose
/// operators are all `+` or `-`, or a folded three-element multiplicative
/// group.
pub open spec fn md_group<T>(s: Seq<TokModel<T>>) -> bool
    decreases s, 2int,
{
    md_run(s, false, true) || (s.len() == 3 && md_operand(s[0]) && (s[1] is Mul || s[1] is Div)
        && md_operand(s[2]))
}

/// An alternation read left to right, all operators `+` or `-` and all
/// operands free of unfolded `*`/`/`, taking the "was the previous item an
/// operand" state from `p0` to `p1`.
pub open spec fn md_run<T>(s: Seq<TokModel<T>>, p0: bool, p1: bool) -> bool
    decreases s, 1int,
{
    if s.len() == 0 {
        p0 == p1
    } else if is_op(s[0]) {
        (s[0] is Add || s[0] is Sub) && p0 && md_run(s.drop_first(), false, p1)
    } else {
        !p0 && md_operand(s[0]) && md_run(s.drop_first(), true, p1)
    }
}

/// After the additive pass: a token in which every group has been folded down
/// to one element or to (operand, operator, operand).
pub open spec fn resolved_operand<T>(t: TokModel<T>) -> bool
    decreases t, 1int,
{
    match t {
        TokModel::Val(_) => true,
        TokModel::Var(_) => true,
        TokModel::Neg(b) => resolved_operand(*b),
        TokModel::Fun(_, b) => resolved_operand(*b),
        TokModel::Seg(s) => (s.len() == 1 && resolved_operand(s[0])) || (s.len() == 3
            && resolved_operand(s[0]) && is_op(s[1]) && resolved_operand(s[2])),
        _ => false,
    }
}

/// After cleanup: as `resolved_operand`, but with every one-element group
/// collapsed away, so that each surviving group is exactly (operand,
/// operator, operand). This is the shape the expression builder consumes.
pub open spec fn clean_operand<T>(t: TokModel<T>) -> bool
    decreases t, 1int,
{
    match t {
        TokModel::Val(_) => true,
        TokModel::Var(_) => true,
        TokModel::Neg(b) => clean_operand(*b),
        TokModel::Fun(_, b) => clean_operand(*b),
        TokModel::Seg(s) => s.len() == 3 && clean_operand(s[0]) && is_op(s[1]) && clean_operand(
            s[2],
        ),
        _ => false,
    }
}

proof fn lemma_md_run_push_operand<T>(s: Seq<TokModel<T>>, x: TokModel<T>, p0: bool)
    requires
        md_run(s, p0, false),
        md_operand(x),
    ensures
        md_run(s.push(x), p0, true),
    decreases s.len(),
{
    if s.len() == 0 {
        assert(s.push(x)[0] == x);
        assert(s.push(x).drop_first() =~= Seq::<TokModel<T>>::empty());
        assert(md_run(Seq::<TokModel<T>>::empty(), true, true));
    } else {
        assert(s.push(x)[0] == s[0]);
        assert(s.push(x).drop_first() =~= s.drop_first().push(x));
        if is_op(s[0]) {
            lemma_md_run_push_operand(s.drop_first(), x, false);
        } else {
            lemma_md_run_push_operand(s.drop_first(), x, true);
        }
    }
}

proof fn lemma_md_run_push_op<T>(s: Seq<TokModel<T>>, x: TokModel<T>, p0: bool)
    requires
        md_run(s, p0, true),
        x is Add || x is Sub,
    ensures
        md_run(s.push(x), p0, false),
    decreases s.len(),
{
    if s.len() == 0 {
        assert(s.push(x)[0] == x);
        assert(s.push(x).drop_first() =~= Seq::<TokModel<T>>::empty());
        assert(md_run(Seq::<TokModel<T>>::empty(), false, false));
    } else {
        assert(s.push(x)[0] == s[0]);
        assert(s.push(x).drop_first() =~= s.drop_first().push(x));
        if is_op(s[0]) {
            lemma_md_run_push_op(s.drop_first(), x, false);
        } else {
            lemma_md_run_push_op(s.drop_first(), x, true);
        }
    }
}

proof fn lemma_md_run_last<T>(s: Seq<TokModel<T>>, p0: bool)
    requires
        md_run(s, p0, true),
        s.len() > 0,
    ensures
        md_operand(s.last()),
        md_run(s.drop_last(), p0, false),
    decreases s.len(),
{
    if s.len() == 1 {
        assert(s.drop_last() =~= Seq::<TokModel<T>>::empty());
        assert(s.last() == s[0]);
    } else {
        assert(s.drop_first().len() > 0);
        assert(s.last() == s.drop_first().last());
        assert(s.drop_last()[0] == s[0]);
        assert(s.drop_last().drop_first() =~= s.drop_first().drop_last());
        if is_op(s[0]) {
            lemma_md_run_last(s.drop_first(), false);
        } else {
            lemma_md_run_last(s.drop_first(), true);
        }
    }
}

/// The multiplicative pass takes a validated alternation to one whose only
/// unfolded operators are `+` and `-`.
proof fn lemma_fix_one_md<T: Numeric>(t: TokModel<T>)
    requires
        valid_operand(t),
    ensures
        md_operand(fix_one(t, muldiv_splits())),
    decreases t, 0int, 0int,
{
    match t {
        TokModel::Seg(v) => {
            assert(valid_items(v, false));
            assert(v.skip(0) =~= v);
            lemma_fix_md(v, 0, Seq::empty(), false);
            assert(fix_one(t, muldiv_splits()) == TokModel::Seg(
                fix_rec(v, 0, Seq::empty(), muldiv_splits::<T>()),
            ));
            assert(md_group(fix_rec(v, 0, Seq::empty(), muldiv_splits::<T>())));
        },
        TokModel::Neg(b) => {
            lemma_fix_one_md(*b);
        },
        TokModel::Fun(_, b) => {
            lemma_fix_one_md(*b);
        },
        _ => {},
    }
}

proof fn lemma_fix_md<T: Numeric>(s: Seq<TokModel<T>>, i: int, acc: Seq<TokModel<T>>, prev: bool)
    requires
        0 <= i <= s.len(),
        valid_items(s.skip(i), prev),
        md_run(acc, false, prev),
    ensures
        md_run(fix_rec(s, i, acc, muldiv_splits()), false, true),
    decreases s, s.len() - i, 1int,
{
    let splits = muldiv_splits::<T>();
    if i == s.len() {
        assert(s.skip(i).len() == 0);
    } else {
        let t = s[i];
        assert(s.skip(i)[0] == t);
        assert(s.skip(i).drop_first() =~= s.skip(i + 1));
        if is_op(t) {
            assert(valid_items(s.skip(i + 1), false));
            assert(s.skip(i + 1).len() > 0) by {
                if i + 1 == s.len() {
                    assert(s.skip(i + 1).len() == 0);
                }
            }
            assert(i + 1 < s.len());
            assert(s.skip(i + 1)[0] == s[i + 1]);
            assert(s.skip(i + 1).drop_first() =~= s.skip(i + 2));
            if t is Mul || t is Div {
                assert(splits.contains(t)) by {
                    if t is Mul {
                        assert(splits[0] == t);
                    } else {
                        assert(splits[1] == t);
                    }
                }
                lemma_md_run_last(acc, false);
                assert(!is_op(s[i + 1]));
                assert(valid_operand(s[i + 1]));
                assert(valid_items(s.skip(i + 2), true));
                lemma_fix_one_md(s[i + 1]);
                let trio = seq![acc.last(), t, fix_one(s[i + 1], splits)];
                assert(md_group(trio)) by {
                    assert(trio.len() == 3);
                    assert(trio[0] == acc.last());
                    assert(trio[1] == t);
                    assert(trio[2] == fix_one(s[i + 1], splits));
                }
                let acc2 = acc.drop_last().push(TokModel::Seg(trio));
                lemma_md_run_push_operand(acc.drop_last(), TokModel::Seg(trio), false);
                lemma_fix_md(s, i + 2, acc2, true);
            } else {
                assert(!splits.contains(t)) by {
                    assert(forall|j: int| 0 <= j < splits.len() ==> splits[j] != t) by {
                        assert(splits[0] == TokModel::<T>::Mul);
                        assert(splits[1] == TokModel::<T>::Div);
                    }
                }
                assert(t is Add || t is Sub);
                lemma_md_run_push_op(acc, t, false);
                lemma_fix_md(s, i + 1, acc.push(t), false);
            }
        } else {
            assert(valid_operand(t));
            assert(valid_items(s.skip(i + 1), true));
            lemma_fix_one_md(t);
            lemma_md_run_push_operand(acc, fix_one(t, splits), false);
            lemma_fix_md(s, i + 1, acc.push(fix_one(t, splits)), true);
        }
    }
}

/// The additive pass folds what the multiplicative pass left into a single
/// resolved element (or keeps a folded multiplicative trio at three).
proof fn lemma_fix_one_as<T: Numeric>(t: TokModel<T>)
    requires
        md_operand(t),
    ensures
        resolved_operand(fix_one(t, addsub_splits())),
    decreases t, 0int, 0int,
{
    let splits = addsub_splits::<T>();
    match t {
        TokModel::Seg(v) => {
            assert(md_group(v));
            if md_run(v, false, true) {
                assert(v.skip(0) =~= v);
                lemma_fix_as(v, 0, Seq::empty(), false);
                assert(fix_one(t, splits) == TokModel::Seg(fix_rec(v, 0, Seq::empty(), splits)));
            } else {
                assert(v.len() == 3 && md_operand(v[0]) && (v[1] is Mul || v[1] is Div)
                    && md_operand(v[2]));
                // A folded multiplicative trio: the pass walks its three
                // elements and rewrites the two operands in place.
                let x = v[0];
                let y = v[2];
                assert(!is_op(x) && !is_op(y));
                assert(!splits.contains(v[1])) by {
                    assert(forall|j: int| 0 <= j < splits.len() ==> splits[j] != v[1]) by {
                        assert(splits[0] == TokModel::<T>::Add);
                        assert(splits[1] == TokModel::<T>::Sub);
                    }
                }
                lemma_fix_one_as(x);
                lemma_fix_one_as(y);
                let a0 = Seq::<TokModel<T>>::empty();
                let a1 = a0.push(fix_one(x, splits));
                let a2 = a1.push(v[1]);
                let a3 = a2.push(fix_one(y, splits));
                assert(fix_rec(v, 0, a0, splits) == fix_rec(v, 1, a1, splits));
                assert(fix_rec(v, 1, a1, splits) == fix_rec(v, 2, a2, splits));
                assert(fix_rec(v, 2, a2, splits) == fix_rec(v, 3, a3, splits));
                assert(fix_rec(v, 3, a3, splits) == a3);
                assert(a3.len() == 3);
                assert(a3[0] == fix_one(x, splits));
                assert(a3[1] == v[1]);
                assert(a3[2] == fix_one(y, splits));
            }
        },
        TokModel::Neg(b) => {
            lemma_fix_one_as(*b);
        },
        TokModel::Fun(_, b) => {
            lemma_fix_one_as(*b);
        },
        _ => {},
    }
}

proof fn lemma_fix_as<T: Numeric>(s: Seq<TokModel<T>>, i: int, acc: Seq<TokModel<T>>, prev: bool)
    requires
        0 <= i <= s.len(),
        md_run(s.skip(i), prev, true),
        prev ==> acc.len() == 1 && resolved_operand(acc[0]),
        !prev ==> acc.len() == 0,
    ensures
        fix_rec(s, i, acc, addsub_splits()).len() == 1,
        resolved_operand(fix_rec(s, i, acc, addsub_splits())[0]),
    decreases s, s.len() - i, 1int,
{
    let splits = addsub_splits::<T>();
    if i == s.len() {
        assert(s.skip(i).len() == 0);
    } else {
        let t = s[i];
        assert(s.skip(i)[0] == t);
        assert(s.skip(i).drop_first() =~= s.skip(i + 1));
        if is_op(t) {
            assert(t is Add || t is Sub);
            assert(prev);
            assert(md_run(s.skip(i + 1), false, true));
            assert(s.skip(i + 1).len() > 0) by {
                if i + 1 == s.len() {
                    assert(s.skip(i + 1).len() == 0);
                }
            }
            assert(i + 1 < s.len());
            assert(s.skip(i + 1)[0] == s[i + 1]);
            assert(s.skip(i + 1).drop_first() =~= s.skip(i + 2));
            assert(!is_op(s[i + 1]));
            assert(md_operand(s[i + 1]));
            assert(md_run(s.skip(i + 2), true, true));
            assert(splits.contains(t)) by {
                if t is Add {
                    assert(splits[0] == t);
                } else {
                    assert(splits[1] == t);
                }
            }
            lemma_fix_one_as(s[i + 1]);
            let trio = seq![acc.last(), t, fix_one(s[i + 1], splits)];
            assert(acc.last() == acc[0]);
            assert(trio[0] == acc[0] && trio[1] == t && trio[2] == fix_one(s[i + 1], splits));
            let acc2 = acc.drop_last().push(TokModel::Seg(trio));
            assert(acc2.len() == 1);
            assert(acc2[0] == TokModel::Seg(trio));
            lemma_fix_as(s, i + 2, acc2, true);
        } else {
            assert(!prev);
            assert(md_operand(t));
            assert(md_run(s.skip(i + 1), true, true));
            lemma_fix_one_as(t);
            let acc2 = acc.push(fix_one(t, splits));
            assert(acc2.len() == 1);
            assert(acc2[0] == fix_one(t, splits));
            lemma_fix_as(s, i + 1, acc2, true);
        }
    }
}

/// Cleanup takes every resolved token to the clean shape: all surviving
/// groups have exactly three elements with an operator in the middle.
proof fn lemma_cleanup_resolved<T: Numeric>(t: TokModel<T>)
    requires
        resolved_operand(t),
    ensures
        clean_operand(cleanup_m(t)),
    decreases t,
{
    match t {
        TokModel::Seg(s) => {
            if s.len() == 1 {
                lemma_cleanup_resolved(s[0]);
            } else {
                let a = s[0];
                let op = s[1];
                let b = s[2];
                lemma_cleanup_resolved(a);
                lemma_cleanup_resolved(b);
                assert(s.drop_first()[0] == op);
                assert(s.drop_first().drop_first()[0] == b);
                assert(s.drop_first().drop_first().drop_first() =~= Seq::<TokModel<T>>::empty());
                assert(cleanup_items(Seq::<TokModel<T>>::empty()) =~= Seq::<TokModel<T>>::empty());
                assert(cleanup_items(s.drop_first().drop_first()) == seq![cleanup_m(b)]
                    + cleanup_items(s.drop_first().drop_first().drop_first()));
                assert(cleanup_items(s.drop_first()) == seq![cleanup_m(op)] + cleanup_items(
                    s.drop_first().drop_first(),
                ));
                let cleaned = cleanup_items(s);
                assert(cleaned == seq![cleanup_m(a)] + cleanup_items(s.drop_first()));
                assert(cleaned =~= seq![cleanup_m(a), cleanup_m(op), cleanup_m(b)]);
                assert(cleanup_m(op) == op);
            }
        },
        TokModel::Neg(b) => {
            lemma_cleanup_resolved(*b);
        },
        TokModel::Fun(_, b) => {
            lemma_cleanup_resolved(*b);
        },
        _ => {},
    }
}

// ------------------------------------------------------------------
// The whole parse pipeline
// ------------------------------------------------------------------
/// The multiplicative pass's target set.
pub open spec fn muldiv_splits<T>() -> Seq<TokModel<T>> {
    seq![TokModel::Mul, TokModel::Div]
}

/// The additive pass's target set.
pub open spec fn addsub_splits<T>() -> Seq<TokModel<T>> {
    seq![TokModel::Add, TokModel::Sub]
}

/// What parsing a whole text yields: lex, build tokens, validate the
/// alternation, resolve `*` and `/`, then `+` and `-`, and collapse the
/// one-element groups; or the first error on the way.
pub open spec fn parse_m<T: Numeric>(text: Seq<char>) -> Result<TokModel<T>, ParseErrorModel> {
    let frags = lex_spec(text);
    match items_m::<T>(frags, 0, 0, true) {
        Err(e) => Err(e),
        Ok((toks, _)) => if !valid_items(toks, false) {
            Err(ParseErrorModel::Expression)
        } else {
            let md = fix_rec(toks, 0, Seq::empty(), muldiv_splits());
            let ad = fix_rec(md, 0, Seq::empty(), addsub_splits());
            Ok(cleanup_m(TokModel::Seg(ad)))
        },
    }
}

impl<T: Numeric> Token<T> {
    /// Parses raw text into one fully resolved token tree: fragments are
    /// lexed, built into bracket-structured tokens, validated, restructured
    /// by precedence (multiplicative before additive, left to right), and
    /// collapsed.
    pub fn parse(text: &str) -> (r: Result<Token<T>, MathParseError>)
        ensures
            (match r {
                Ok(t) => parse_m::<T>(text@) == Ok::<TokModel<T>, ParseErrorModel>(t@),
                Err(e) => parse_m::<T>(text@) == Err::<TokModel<T>, ParseErrorModel>(e@),
            }),
            r matches Ok(t) ==> clean_operand(t@),
    {
        let frags = tokenise(text);
        let toks = match Self::parse_inner(&frags, 0, 0) {
            Ok((toks, _)) => toks,
            Err(e) => {
                return Err(e);
            },
        };
        match Self::validate_inner(&toks) {
            Ok(_) => {},
            Err(e) => {
                return Err(e);
            },
        }
        let muldiv: Vec<Token<T>> = vec![Token::Mul, Token::Div];
        let addsub: Vec<Token<T>> = vec![Token::Add, Token::Sub];
        proof {
            assert(toks_model(muldiv@) =~= muldiv_splits::<T>()) by {
                lemma_toks_model_len(muldiv@);
                lemma_toks_model_index(muldiv@, 0);
                lemma_toks_model_index(muldiv@, 1);
            }
            assert(toks_model(addsub@) =~= addsub_splits::<T>()) by {
                lemma_toks_model_len(addsub@);
                lemma_toks_model_index(addsub@, 0);
                lemma_toks_model_index(addsub@, 1);
            }
            assert(all_op_items(muldiv_splits::<T>()));
            assert(all_op_items(addsub_splits::<T>()));
        }
        proof {
            // A validated alternation keeps its shape through the two passes:
            // the multiplicative pass leaves only `+`/`-` unfolded, the
            // additive pass folds the rest down to a single resolved element,
            // and cleanup collapses the surviving one-element groups, so the
            // tree handed on has only groups of exactly three items.
            let tm = toks_model(toks@);
            assert(tm.skip(0) =~= tm);
            lemma_fix_md(tm, 0, Seq::empty(), false);
            let md = fix_rec(tm, 0, Seq::empty(), muldiv_splits::<T>());
            assert(md.skip(0) =~= md);
            lemma_fix_as(md, 0, Seq::empty(), false);
            let ad = fix_rec(md, 0, Seq::empty(), addsub_splits::<T>());
            assert(resolved_operand(TokModel::Seg(ad)));
            lemma_cleanup_resolved(TokModel::Seg(ad));
        }
        let toks = Self::fix_segments(toks, &muldiv);
        let toks = Self::fix_segments(toks, &addsub);
        Ok(Token::Seg(toks).cleanup())
    }
}

} // verus!
