//! Expressions: the tree that the parser builds, and how it is evaluated.

use crate::environment::{lookup, Environment, EvalError, EvalErrorView};
use crate::token::{Token, TokenKind, TokenView};
pub use crate::types::Number;
use crate::types::{
    after_number, after_operation, number_ahead, number_at, operation_ahead, operation_at,
    Operation, Value,
};
use vstd::pervasive::unreached;
use vstd::prelude::*;

verus! {

/// A name that stands for a value.
#[derive(Debug, PartialEq, Eq)]
pub struct Symbol(pub String);

impl Clone for Symbol {
    fn clone(&self) -> (r: Self)
        ensures
            r.0@ == self.0@,
    {
        Symbol(self.0.clone())
    }
}

/// An expression: a number literal, a name, or an operator with its two
/// operands.
#[derive(Debug, PartialEq, Eq)]
pub enum Expression {
    Number(Number),
    Symbol(Symbol),
    Binary(Box<BinaryExpression>),
}

/// An operator between two expressions.
#[derive(Debug, PartialEq, Eq)]
pub struct BinaryExpression {
    lhs: Expression,
    op: Token,
    rhs: Expression,
}

/// An [`Expression`] as contracts see it: with mathematical integers, and
/// names as sequences of characters.
pub enum ExprView {
    Number(int),
    Symbol(Seq<char>),
    Binary(Box<ExprView>, TokenView, Box<ExprView>),
}

impl View for Expression {
    type V = ExprView;

    open spec fn view(&self) -> ExprView {
        expression_view(*self)
    }
}

impl View for BinaryExpression {
    type V = ExprView;

    open spec fn view(&self) -> ExprView {
        binary_view(*self)
    }
}

/// The view of an expression.
pub open spec fn expression_view(e: Expression) -> ExprView
    decreases e,
{
    match e {
        Expression::Number(n) => ExprView::Number(n.0 as int),
        Expression::Symbol(s) => ExprView::Symbol(s.0@),
        Expression::Binary(b) => binary_view(*b),
    }
}

/// The view of an operator with its operands.
pub closed spec fn binary_view(b: BinaryExpression) -> ExprView
    decreases b,
{
    ExprView::Binary(Box::new(expression_view(b.lhs)), b.op@, Box::new(expression_view(b.rhs)))
}

/// An expression and its view are of the same variant.
pub proof fn lemma_view_variant(e: Expression)
    ensures
        e is Number <==> e@ is Number,
        e is Symbol <==> e@ is Symbol,
        e is Binary <==> e@ is Binary,
{
}

impl Clone for Expression {
    fn clone(&self) -> (r: Self)
        ensures
            r@ == self@,
        decreases self,
    {
        match self {
            Expression::Number(n) => Expression::Number(*n),
            Expression::Symbol(s) => Expression::Symbol(s.clone()),
            Expression::Binary(b) => Expression::Binary(
                Box::new(
                    BinaryExpression {
                        lhs: b.lhs.clone(),
                        op: b.op.clone(),
                        rhs: b.rhs.clone(),
                    },
                ),
            ),
        }
    }
}

impl Clone for BinaryExpression {
    fn clone(&self) -> (r: Self)
        ensures
            r@ == self@,
    {
        BinaryExpression { lhs: self.lhs.clone(), op: self.op.clone(), rhs: self.rhs.clone() }
    }
}

impl Expression {
    /// The expression that holds the number `n`.
    pub fn number(n: Number) -> (r: Self)
        ensures
            r@ == ExprView::Number(n.0 as int),
    {
        Expression::Number(n)
    }

    /// The expression that holds the name `name`.
    pub fn symbol(name: &str) -> (r: Self)
        ensures
            r@ == ExprView::Symbol(name@),
    {
        Expression::Symbol(Symbol(name.to_owned()))
    }

    /// The expression `lhs op rhs`.
    pub fn binary(lhs: Expression, op: Token, rhs: Expression) -> (r: Self)
        ensures
            r@ == ExprView::Binary(Box::new(lhs@), op@, Box::new(rhs@)),
    {
        Expression::Binary(Box::new(BinaryExpression::new(lhs, op, rhs)))
    }
}

impl BinaryExpression {
    /// The operator `op` between `lhs` and `rhs`.
    pub fn new(lhs: Expression, op: Token, rhs: Expression) -> (r: Self)
        ensures
            r@ == ExprView::Binary(Box::new(lhs@), op@, Box::new(rhs@)),
    {
        Self { lhs, op, rhs }
    }

    /// The left operand.
    pub fn get_lhs(&self) -> (r: &Expression)
        ensures
            self@ matches ExprView::Binary(lhs, _, _) && r@ == *lhs,
    {
        &self.lhs
    }

    /// The operator.
    pub fn get_op(&self) -> (r: &Token)
        ensures
            self@ matches ExprView::Binary(_, op, _) && r@ == op,
    {
        &self.op
    }

    /// The right operand.
    pub fn get_rhs(&self) -> (r: &Expression)
        ensures
            self@ matches ExprView::Binary(_, _, rhs) && r@ == *rhs,
    {
        &self.rhs
    }
}

/// Whether `kind` is one of the four arithmetic operators.
pub open spec fn is_arithmetic(kind: TokenKind) -> bool {
    kind == TokenKind::Plus || kind == TokenKind::Minus || kind == TokenKind::Mul || kind
        == TokenKind::Div
}

/// The absolute value of `a`.
pub open spec fn magnitude(a: int) -> int {
    if a < 0 {
        -a
    } else {
        a
    }
}

/// The quotient of `a` by `b`, rounded towards zero.
pub open spec fn quotient(a: int, b: int) -> int {
    if (a < 0) == (b < 0) {
        magnitude(a) / magnitude(b)
    } else {
        -(magnitude(a) / magnitude(b))
    }
}

/// What the operator of kind `kind` makes of `a` and `b`: their sum, their
/// difference, their product, or their quotient, which fails if `b` is zero.
pub open spec fn apply(kind: TokenKind, a: int, b: int) -> Result<int, EvalErrorView> {
    match kind {
        TokenKind::Plus => Ok(a + b),
        TokenKind::Minus => Ok(a - b),
        TokenKind::Mul => Ok(a * b),
        _ => if b == 0 {
            Err(EvalErrorView::DivisionByZero)
        } else {
            Ok(quotient(a, b))
        },
    }
}

/// The number that a value holds.
pub open spec fn number_of(v: Value) -> int {
    match v {
        Value::Number(n) => n.0 as int,
    }
}

/// What the expression `e` evaluates to in `env`. A name gives the value it
/// is bound to. Of an operator the left operand is evaluated first, then the
/// right one, then the operator is applied; the first failure is the
/// failure of the whole.
pub open spec fn value_of(e: ExprView, env: Map<Seq<char>, Value>) -> Result<int, EvalErrorView>
    decreases e,
{
    match e {
        ExprView::Number(n) => Ok(n),
        ExprView::Symbol(name) => match lookup(env, name) {
            Ok(v) => Ok(number_of(v)),
            Err(e) => Err(e),
        },
        ExprView::Binary(lhs, op, rhs) => match value_of(*lhs, env) {
            Err(e) => Err(e),
            Ok(a) => match value_of(*rhs, env) {
                Err(e) => Err(e),
                Ok(b) => apply(op.kind, a, b),
            },
        },
    }
}

/// Whether `n` is a value that a [`Number`] can hold.
pub open spec fn representable(n: int) -> bool {
    i64::MIN <= n <= i64::MAX
}

/// Whether `e` can be evaluated in `env` by the machine: its operators are
/// arithmetic ones, and every result that comes up on the way is
/// representable.
pub open spec fn in_range(e: ExprView, env: Map<Seq<char>, Value>) -> bool
    decreases e,
{
    match e {
        ExprView::Number(n) => representable(n),
        ExprView::Symbol(_) => true,
        ExprView::Binary(lhs, op, rhs) => {
            &&& is_arithmetic(op.kind)
            &&& in_range(*lhs, env)
            &&& value_of(*lhs, env) is Ok ==> in_range(*rhs, env)
            &&& value_of(e, env) matches Ok(v) ==> representable(v)
        },
    }
}

/// Whether the outcome of an evaluation is the one that `v` describes.
pub open spec fn evaluated(r: Result<Value, EvalError>, v: Result<int, EvalErrorView>) -> bool {
    match (r, v) {
        (Ok(value), Ok(n)) => number_of(value) == n,
        (Err(e), Err(expected)) => e@ == expected,
        _ => false,
    }
}

/// The token that stands for `op`.
pub open spec fn operator_token(op: Operation) -> TokenView {
    match op {
        Operation::Addition => TokenView { kind: TokenKind::Plus, value: seq!['+'] },
        Operation::Subtraction => TokenView { kind: TokenKind::Minus, value: seq!['-'] },
        Operation::Multiplication => TokenView { kind: TokenKind::Mul, value: seq!['*'] },
        Operation::Division => TokenView { kind: TokenKind::Div, value: seq!['/'] },
    }
}

/// Whether `s` starts with a number, the sign of an operation and a second
/// number, with optional white space before each.
pub open spec fn operation_on_numbers_ahead(s: Seq<char>) -> bool {
    &&& number_ahead(s)
    &&& operation_ahead(after_number(s))
    &&& number_ahead(after_operation(after_number(s)))
}

/// The expression that stands at the front of `s`: an operation on two
/// numbers.
pub open spec fn operation_on_numbers(s: Seq<char>) -> ExprView {
    ExprView::Binary(
        Box::new(ExprView::Number(number_at(s) as int)),
        operator_token(operation_at(after_number(s))),
        Box::new(ExprView::Number(number_at(after_operation(after_number(s))) as int)),
    )
}

/// What follows the expression at the front of `s`.
pub open spec fn after_operation_on_numbers(s: Seq<char>) -> Seq<char> {
    after_number(after_operation(after_number(s)))
}

impl Operation {
    /// The token that stands for the operation.
    pub fn token(&self) -> (r: Token)
        ensures
            r@ == operator_token(*self),
    {
        proof {
            reveal_strlit("+");
            reveal_strlit("-");
            reveal_strlit("*");
            reveal_strlit("/");
            assert("+"@ =~= seq!['+']);
            assert("-"@ =~= seq!['-']);
            assert("*"@ =~= seq!['*']);
            assert("/"@ =~= seq!['/']);
        }
        match self {
            Operation::Addition => Token::new(TokenKind::Plus, "+"),
            Operation::Subtraction => Token::new(TokenKind::Minus, "-"),
            Operation::Multiplication => Token::new(TokenKind::Mul, "*"),
            Operation::Division => Token::new(TokenKind::Div, "/"),
        }
    }
}

impl Expression {
    /// Reads an operation on two numbers from the front of `string`. Returns
    /// what follows it, and the expression; `None` if no such operation
    /// stands there.
    pub fn try_new(string: &str) -> (r: Option<(&str, Self)>)
        ensures
            r is Some <==> operation_on_numbers_ahead(string@),
            r is Some ==> r->Some_0.0@ == after_operation_on_numbers(string@) && r->Some_0.1@
                == operation_on_numbers(string@),
    {
        let (string, lhs) = match Number::try_new(string) {
            Some(read) => read,
            None => {
                return None;
            },
        };
        let (string, op) = match Operation::try_new(string) {
            Some(read) => read,
            None => {
                return None;
            },
        };
        let (string, rhs) = match Number::try_new(string) {
            Some(read) => read,
            None => {
                return None;
            },
        };
        Some(
            (
                string,
                Expression::binary(Expression::number(lhs), op.token(), Expression::number(rhs)),
            ),
        )
    }

    /// Reads an operation on two numbers from the front of `string`. Returns
    /// what follows it, and the expression.
    pub fn new(string: &str) -> (r: (&str, Self))
        requires
            operation_on_numbers_ahead(string@),
        ensures
            r.0@ == after_operation_on_numbers(string@),
            r.1@ == operation_on_numbers(string@),
    {
        match Expression::try_new(string) {
            Some(read) => read,
            None => unreached(),
        }
    }

    /// Evaluates the expression in `env`, if the machine can: returns `None`
    /// if an operator is no arithmetic one or a result is not representable.
    pub fn try_eval(&self, env: &Environment) -> (r: Option<Result<Value, EvalError>>)
        ensures
            r is Some <==> in_range(self@, env@),
            r is Some ==> evaluated(r->Some_0, value_of(self@, env@)),
        decreases self,
    {
        match self {
            Expression::Number(n) => Some(Ok(Value::Number(*n))),
            Expression::Symbol(s) => Some(env.get_binding(s.0.as_str())),
            Expression::Binary(b) => {
                let kind = *b.op.kind();
                if !is_arithmetic_kind(kind) {
                    return None;
                }
                let x = match b.lhs.try_eval(env) {
                    Some(Ok(Value::Number(n))) => n.0,
                    Some(Err(e)) => {
                        return Some(Err(e));
                    },
                    None => {
                        return None;
                    },
                };
                let y = match b.rhs.try_eval(env) {
                    Some(Ok(Value::Number(n))) => n.0,
                    Some(Err(e)) => {
                        return Some(Err(e));
                    },
                    None => {
                        return None;
                    },
                };
                let result = match kind {
                    TokenKind::Plus => x.checked_add(y),
                    TokenKind::Minus => x.checked_sub(y),
                    TokenKind::Mul => x.checked_mul(y),
                    _ => {
                        if y == 0 {
                            return Some(Err(EvalError::DivisionByZero));
                        }
                        x.checked_div(y)
                    },
                };
                match result {
                    Some(n) => Some(Ok(Value::Number(Number(n)))),
                    None => None,
                }
            },
        }
    }

    /// Evaluates the expression in `env`.
    pub fn eval(&self, env: &Environment) -> (r: Result<Value, EvalError>)
        requires
            in_range(self@, env@),
        ensures
            evaluated(r, value_of(self@, env@)),
    {
        match self.try_eval(env) {
            Some(r) => r,
            None => unreached(),
        }
    }
}

/// Tells whether `kind` is one of the four arithmetic operators.
pub fn is_arithmetic_kind(kind: TokenKind) -> (r: bool)
    ensures
        r == is_arithmetic(kind),
{
    match kind {
        TokenKind::Plus | TokenKind::Minus | TokenKind::Mul | TokenKind::Div => true,
        _ => false,
    }
}

} // verus!
