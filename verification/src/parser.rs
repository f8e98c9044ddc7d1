//! The parser: from tokens to statements, by precedence climbing.

use crate::expression::{is_arithmetic, is_arithmetic_kind, ExprView, Expression};
use crate::lexer::{lemma_lex_numbers, lex, parse_tokens, texts};
use crate::statement::{statement_views, ExpressionStatement, Statement};
use crate::token::{numbers_well_formed, token_views, LexError, Token, TokenKind, TokenView};
use crate::types::{decimal_value, is_number_literal, parse_decimal, Number};
use vstd::pervasive::unreached;
use vstd::prelude::*;

verus! {

/// How tightly a token binds what stands beside it. The levels, from the
/// loosest to the tightest: `Default`, `Assignment`, `Additive`,
/// `Multiplicative`, `Primary`.
#[derive(Clone, Copy, Debug, PartialEq, Eq, PartialOrd, Ord, Structural)]
pub enum BindingPower {
    Default,
    Assignment,
    Additive,
    Multiplicative,
    Primary,
}

impl BindingPower {
    /// The place of the level in the order: 0 for the loosest.
    pub open spec fn level(self) -> int {
        match self {
            BindingPower::Default => 0,
            BindingPower::Assignment => 1,
            BindingPower::Additive => 2,
            BindingPower::Multiplicative => 3,
            BindingPower::Primary => 4,
        }
    }

    /// Computes [`BindingPower::level`].
    pub fn rank(&self) -> (r: u8)
        ensures
            r == self.level(),
    {
        match self {
            BindingPower::Default => 0,
            BindingPower::Assignment => 1,
            BindingPower::Additive => 2,
            BindingPower::Multiplicative => 3,
            BindingPower::Primary => 4,
        }
    }

    /// Whether `self` binds more tightly than `other`.
    pub fn exceeds(&self, other: BindingPower) -> (r: bool)
        ensures
            r == (self.level() > other.level()),
    {
        self.rank() > other.rank()
    }
}

/// The table of binding powers: that of each kind of token that has one.
/// Literals bind tightest, then `*` and `/`, then `+` and `-`, then `=`.
pub open spec fn binding_power(kind: TokenKind) -> Option<BindingPower> {
    match kind {
        TokenKind::Number | TokenKind::Symbol => Some(BindingPower::Primary),
        TokenKind::Mul | TokenKind::Div => Some(BindingPower::Multiplicative),
        TokenKind::Plus | TokenKind::Minus => Some(BindingPower::Additive),
        TokenKind::Assignment => Some(BindingPower::Assignment),
        _ => None,
    }
}

/// Looks up the binding power of `kind`.
pub fn power_of(kind: TokenKind) -> (r: Option<BindingPower>)
    ensures
        r == binding_power(kind),
{
    match kind {
        TokenKind::Number | TokenKind::Symbol => Some(BindingPower::Primary),
        TokenKind::Mul | TokenKind::Div => Some(BindingPower::Multiplicative),
        TokenKind::Plus | TokenKind::Minus => Some(BindingPower::Additive),
        TokenKind::Assignment => Some(BindingPower::Assignment),
        _ => None,
    }
}

/// Tells whether a token of kind `kind` can stand between two operands:
/// the arithmetic operators can.
pub fn has_infix_handler(kind: TokenKind) -> (r: bool)
    ensures
        r == is_arithmetic(kind),
{
    is_arithmetic_kind(kind)
}

/// Why a token sequence is no program.
#[derive(Clone, Copy, Debug, PartialEq, Eq, Structural)]
pub enum ParseError {
    /// No expression can start with a token of this kind.
    NoPrefixHandler(TokenKind),
    /// A token of this kind binds, but cannot stand between two operands.
    NoInfixHandler(TokenKind),
    /// A token of this kind was expected, and something else was found.
    Expected(TokenKind),
    /// The tokens end where an expression should start.
    UnexpectedEnd,
}

/// A cursor into a token sequence.
#[derive(Debug, PartialEq, Eq)]
pub struct Parser {
    tokens: Vec<Token>,
    loc: usize,
}

/// A [`Parser`] as contracts see it: its tokens, and how many of them it has
/// consumed.
pub struct ParserView {
    pub tokens: Seq<TokenView>,
    pub loc: nat,
}

impl View for Parser {
    type V = ParserView;

    closed spec fn view(&self) -> ParserView {
        ParserView { tokens: token_views(self.tokens@), loc: self.loc as nat }
    }
}

impl Parser {
    /// What holds of every parser: the cursor stands within the tokens or at
    /// their end, and every number token holds a number literal.
    #[verifier::type_invariant]
    spec fn inv(self) -> bool {
        self.loc <= self.tokens@.len() && numbers_well_formed(token_views(self.tokens@))
    }

    /// A parser at the start of the tokens of `source`. Fails if the lexer
    /// does.
    pub fn new(source: Vec<String>) -> (r: Result<Self, LexError>)
        ensures
            match (r, lex(texts(source@))) {
                (Ok(parser), Ok(tokens)) => parser@ == (ParserView { tokens, loc: 0 }),
                (Err(e), Err(expected)) => e@ == expected,
                _ => false,
            },
    {
        let ghost lines = texts(source@);
        match parse_tokens(source) {
            Ok(tokens) => {
                proof {
                    lemma_lex_numbers(lines);
                }
                Ok(Self { tokens, loc: 0 })
            },
            Err(e) => Err(e),
        }
    }

    /// A parser at the start of `tokens`. Returns `None` if a number token
    /// holds something else than a number literal.
    pub fn from_tokens(tokens: Vec<Token>) -> (r: Option<Self>)
        ensures
            r is Some <==> numbers_well_formed(token_views(tokens@)),
            r is Some ==> r->Some_0@ == (ParserView { tokens: token_views(tokens@), loc: 0 }),
    {
        let mut i: usize = 0;
        while i < tokens.len()
            invariant
                i <= tokens@.len(),
                numbers_well_formed(token_views(tokens@).take(i as int)),
            decreases tokens@.len() - i,
        {
            let ghost views = token_views(tokens@);
            if *tokens[i].kind() == TokenKind::Number && parse_decimal(
                tokens[i].value().as_str(),
            ).is_none() {
                proof {
                    assert(views[i as int].kind == TokenKind::Number);
                }
                return None;
            }
            i = i + 1;
        }
        proof {
            assert(token_views(tokens@).take(i as int) == token_views(tokens@));
        }
        Some(Self { tokens, loc: 0 })
    }

    /// The number of tokens.
    pub fn len(&self) -> (r: usize)
        ensures
            r == self@.tokens.len(),
    {
        self.tokens.len()
    }

    /// The number of tokens consumed.
    pub fn position(&self) -> (r: usize)
        ensures
            r == self@.loc,
            r <= self@.tokens.len(),
    {
        proof {
            use_type_invariant(self);
        }
        self.loc
    }

    /// Consumes `index` tokens and returns the last of them.
    pub fn consume(&mut self, index: usize) -> (r: Token)
        requires
            index >= 1,
            old(self)@.loc + index <= old(self)@.tokens.len(),
        ensures
            final(self)@.tokens == old(self)@.tokens,
            final(self)@.loc == old(self)@.loc + index,
            r@ == old(self)@.tokens[old(self)@.loc + index - 1],
    {
        proof {
            use_type_invariant(&*self);
        }
        let n = self.tokens.len();
        self.loc = self.loc + index;
        self.tokens[self.loc - 1].clone()
    }

    /// The token that stands `offset` tokens after the cursor, if there is
    /// one. Consumes nothing.
    pub fn peek(&self, offset: usize) -> (r: Option<&Token>)
        ensures
            self@.loc + offset < self@.tokens.len() ==> r is Some && r->Some_0@
                == self@.tokens[self@.loc + offset],
            self@.loc + offset >= self@.tokens.len() ==> r is None,
    {
        proof {
            use_type_invariant(self);
        }
        if offset >= self.tokens.len() - self.loc {
            return None;
        }
        Some(&self.tokens[self.loc + offset])
    }

    /// Consumes the token at the cursor and returns it. Fails at the end of
    /// the tokens.
    pub fn advance(&mut self) -> (r: Result<Token, ParseError>)
        ensures
            final(self)@.tokens == old(self)@.tokens,
            old(self)@.loc < old(self)@.tokens.len() ==> r is Ok && r->Ok_0@ == old(
                self,
            )@.tokens[old(self)@.loc as int] && final(self)@.loc == old(self)@.loc + 1,
            old(self)@.loc >= old(self)@.tokens.len() ==> r == Err::<Token, ParseError>(
                ParseError::UnexpectedEnd,
            ) && final(self)@.loc == old(self)@.loc,
    {
        if self.loc < self.tokens.len() {
            Ok(self.consume(1))
        } else {
            Err(ParseError::UnexpectedEnd)
        }
    }

    /// Consumes the token at the cursor if it is of kind `kind`, and returns
    /// it. Fails, and consumes nothing, if it is of another kind or the
    /// tokens have ended.
    pub fn expect(&mut self, kind: TokenKind) -> (r: Result<Token, ParseError>)
        ensures
            final(self)@.tokens == old(self)@.tokens,
            old(self)@.loc < old(self)@.tokens.len() && old(self)@.tokens[old(
                self,
            )@.loc as int].kind == kind ==> r is Ok && r->Ok_0@ == old(self)@.tokens[old(
                self,
            )@.loc as int] && final(self)@.loc == old(self)@.loc + 1,
            !(old(self)@.loc < old(self)@.tokens.len() && old(self)@.tokens[old(
                self,
            )@.loc as int].kind == kind) ==> r == Err::<Token, ParseError>(
                ParseError::Expected(kind),
            ) && final(self)@.loc == old(self)@.loc,
    {
        let found = match self.peek(0) {
            Some(token) => *token.kind() == kind,
            None => false,
        };
        if found {
            Ok(self.consume(1))
        } else {
            Err(ParseError::Expected(kind))
        }
    }
}

/// How many of `len` tokens stand at or after position `pos`.
pub open spec fn left_over(len: nat, pos: nat) -> nat {
    if pos <= len {
        (len - pos) as nat
    } else {
        0
    }
}

/// The expression that the token at position `pos` is by itself: a number
/// token gives its number, a symbol token its name. No other token can start
/// an expression.
pub open spec fn prefix_at(tokens: Seq<TokenView>, pos: nat) -> Result<ExprView, ParseError> {
    if pos >= tokens.len() {
        Err(ParseError::UnexpectedEnd)
    } else {
        match tokens[pos as int].kind {
            TokenKind::Number => Ok(
                ExprView::Number(decimal_value(tokens[pos as int].value) as int),
            ),
            TokenKind::Symbol => Ok(ExprView::Symbol(tokens[pos as int].value)),
            kind => Err(ParseError::NoPrefixHandler(kind)),
        }
    }
}

/// The expression that starts at position `pos` and holds no operator that
/// binds as loosely as `min` or looser, outside its operands; with it, the
/// number of tokens it takes.
pub open spec fn expression_at(tokens: Seq<TokenView>, pos: nat, min: BindingPower) -> Result<
    (ExprView, nat),
    ParseError,
>
    decreases left_over(tokens.len(), pos), 1nat,
{
    match prefix_at(tokens, pos) {
        Err(e) => Err(e),
        Ok(left) => match climb(tokens, left, pos + 1, min) {
            Err(e) => Err(e),
            Ok((e, used)) => Ok((e, used + 1)),
        },
    }
}

/// Extends the expression `left`, which ends before position `pos`, by the
/// operators that follow it, as long as they bind more tightly than `min`.
/// The right operand of an operator is the expression that follows it and
/// binds more tightly than the operator itself; the operator with its two
/// operands is then extended in turn. A token that binds more tightly than
/// `min` and is no operator is an error. With the expression comes the
/// number of tokens taken from `pos` on.
pub open spec fn climb(
    tokens: Seq<TokenView>,
    left: ExprView,
    pos: nat,
    min: BindingPower,
) -> Result<(ExprView, nat), ParseError>
    decreases left_over(tokens.len(), pos), 0nat,
{
    if pos >= tokens.len() {
        Ok((left, 0))
    } else {
        let op = tokens[pos as int];
        match binding_power(op.kind) {
            None => Ok((left, 0)),
            Some(power) => if power.level() <= min.level() {
                Ok((left, 0))
            } else if !is_arithmetic(op.kind) {
                Err(ParseError::NoInfixHandler(op.kind))
            } else {
                match expression_at(tokens, pos + 1, power) {
                    Err(e) => Err(e),
                    Ok((right, used)) => match climb(
                        tokens,
                        ExprView::Binary(Box::new(left), op, Box::new(right)),
                        pos + 1 + used,
                        min,
                    ) {
                        Err(e) => Err(e),
                        Ok((e, more)) => Ok((e, 1 + used + more)),
                    },
                }
            },
        }
    }
}

/// The statement that starts at position `pos`; with it, the number of
/// tokens it takes. No kind of token starts a statement of its own, so every
/// statement is an expression, read with the loosest bound, and the
/// end-of-line token after it.
pub open spec fn statement_at(tokens: Seq<TokenView>, pos: nat) -> Result<
    (ExprView, nat),
    ParseError,
> {
    match expression_at(tokens, pos, BindingPower::Default) {
        Err(e) => Err(e),
        Ok((e, used)) => if pos + used < tokens.len() && tokens[pos + used as int].kind
            == TokenKind::EndOfLine {
            Ok((e, used + 1))
        } else {
            Err(ParseError::Expected(TokenKind::EndOfLine))
        },
    }
}

/// The statements from position `pos` up to the end-of-file token, or to the
/// end of the tokens if there is none.
pub open spec fn program_at(tokens: Seq<TokenView>, pos: nat) -> Result<Seq<ExprView>, ParseError>
    decreases left_over(tokens.len(), pos),
{
    if pos >= tokens.len() || tokens[pos as int].kind == TokenKind::EndOfFile {
        Ok(Seq::empty())
    } else {
        match statement_at(tokens, pos) {
            Err(e) => Err(e),
            Ok((first, used)) => match program_at(tokens, pos + used) {
                Err(e) => Err(e),
                Ok(rest) => Ok(seq![first] + rest),
            },
        }
    }
}

/// How tightly the operator at the top of `e` binds; a literal counts as
/// tighter than every operator.
pub open spec fn top_level(e: ExprView) -> int {
    match e {
        ExprView::Binary(_, op, _) => match binding_power(op.kind) {
            Some(power) => power.level(),
            None => 0,
        },
        _ => 5,
    }
}

/// How tightly the token at position `pos` binds; 0 if there is no token
/// there, or one without binding power.
pub open spec fn level_at(tokens: Seq<TokenView>, pos: nat) -> int {
    if pos < tokens.len() {
        match binding_power(tokens[pos as int].kind) {
            Some(power) => power.level(),
            None => 0,
        }
    } else {
        0
    }
}

/// Whether the operators of `e` are grouped by their binding power: each is
/// an arithmetic operator; what stands at the top of its right operand binds
/// more tightly than it; and what stands at the top of its left operand
/// binds at least as tightly. So of two operators that bind equally the left
/// one is applied first, and of two that bind differently the tighter one.
pub open spec fn well_grouped(e: ExprView) -> bool
    decreases e,
{
    match e {
        ExprView::Binary(lhs, op, rhs) => {
            &&& is_arithmetic(op.kind)
            &&& well_grouped(*lhs)
            &&& well_grouped(*rhs)
            &&& top_level(*lhs) >= top_level(e)
            &&& top_level(*rhs) > top_level(e)
        },
        _ => true,
    }
}

/// An expression read with the bound `min` is well grouped, binds more
/// tightly than `min` at its top, and ends before a token that binds no more
/// tightly than `min`.
pub proof fn lemma_expression_is_well_grouped(tokens: Seq<TokenView>, pos: nat, min: BindingPower)
    ensures
        expression_at(tokens, pos, min) matches Ok((e, used)) ==> well_grouped(e) && top_level(e)
            > min.level() && level_at(tokens, pos + used) <= min.level(),
    decreases left_over(tokens.len(), pos), 1nat,
{
    if let Ok(left) = prefix_at(tokens, pos) {
        lemma_climb_is_well_grouped(tokens, left, pos + 1, min);
    }
}

/// Extending a well-grouped expression keeps it well grouped, if the token
/// that follows it binds no more tightly than the operator at its top.
proof fn lemma_climb_is_well_grouped(
    tokens: Seq<TokenView>,
    left: ExprView,
    pos: nat,
    min: BindingPower,
)
    requires
        well_grouped(left),
        top_level(left) > min.level(),
        level_at(tokens, pos) <= top_level(left),
    ensures
        climb(tokens, left, pos, min) matches Ok((e, used)) ==> well_grouped(e) && top_level(e)
            > min.level() && level_at(tokens, pos + used) <= min.level(),
    decreases left_over(tokens.len(), pos), 0nat,
{
    if pos < tokens.len() {
        let op = tokens[pos as int];
        if let Some(power) = binding_power(op.kind) {
            if power.level() > min.level() && is_arithmetic(op.kind) {
                lemma_expression_is_well_grouped(tokens, pos + 1, power);
                if let Ok((right, used)) = expression_at(tokens, pos + 1, power) {
                    let joined = ExprView::Binary(Box::new(left), op, Box::new(right));
                    lemma_climb_is_well_grouped(tokens, joined, pos + 1 + used, min);
                }
            }
        }
    }
}

/// What an expression is made of: a literal, or an operator.
pub enum Item {
    Literal(ExprView),
    Operator(TokenView),
}

/// The literals and operators of `e`, from left to right.
pub open spec fn in_order(e: ExprView) -> Seq<Item>
    decreases e,
{
    match e {
        ExprView::Binary(lhs, op, rhs) => in_order(*lhs) + seq![Item::Operator(op)] + in_order(
            *rhs,
        ),
        _ => seq![Item::Literal(e)],
    }
}

/// What the token at position `pos` stands for in an expression: itself if
/// it is an arithmetic operator, else the literal that it gives.
pub open spec fn item_at(tokens: Seq<TokenView>, pos: nat) -> Item {
    if is_arithmetic(tokens[pos as int].kind) {
        Item::Operator(tokens[pos as int])
    } else {
        Item::Literal(prefix_at(tokens, pos)->Ok_0)
    }
}

/// What the tokens from position `from` up to position `to` stand for.
pub open spec fn items(tokens: Seq<TokenView>, from: nat, to: nat) -> Seq<Item> {
    Seq::new((to - from) as nat, |i: int| item_at(tokens, (from + i) as nat))
}

/// An expression is made of the tokens it was read from, in their order:
/// none is left out, none is moved.
pub proof fn lemma_expression_keeps_order(tokens: Seq<TokenView>, pos: nat, min: BindingPower)
    ensures
        expression_at(tokens, pos, min) matches Ok((e, used)) ==> pos + used <= tokens.len()
            && in_order(e) == items(tokens, pos, pos + used),
    decreases left_over(tokens.len(), pos), 1nat,
{
    if let Ok(left) = prefix_at(tokens, pos) {
        assert(in_order(left) =~= items(tokens, pos, pos + 1));
        lemma_climb_keeps_order(tokens, pos, left, pos + 1, min);
    }
}

/// Extending an expression that is made of the tokens from `start` on gives
/// one that is made of the tokens from `start` on.
proof fn lemma_climb_keeps_order(
    tokens: Seq<TokenView>,
    start: nat,
    left: ExprView,
    pos: nat,
    min: BindingPower,
)
    requires
        start <= pos <= tokens.len(),
        in_order(left) == items(tokens, start, pos),
    ensures
        climb(tokens, left, pos, min) matches Ok((e, used)) ==> pos + used <= tokens.len()
            && in_order(e) == items(tokens, start, pos + used),
    decreases left_over(tokens.len(), pos), 0nat,
{
    if pos < tokens.len() {
        let op = tokens[pos as int];
        if let Some(power) = binding_power(op.kind) {
            if power.level() > min.level() && is_arithmetic(op.kind) {
                lemma_expression_keeps_order(tokens, pos + 1, power);
                if let Ok((right, used)) = expression_at(tokens, pos + 1, power) {
                    let joined = ExprView::Binary(Box::new(left), op, Box::new(right));
                    let next = pos + 1 + used;
                    assert(in_order(joined) =~= items(tokens, start, next));
                    lemma_climb_keeps_order(tokens, start, joined, next, min);
                }
            }
        }
    }
}

/// Whether a token of kind `kind` can be part of an expression: the
/// literals and the arithmetic operators can.
pub open spec fn is_expression_token(kind: TokenKind) -> bool {
    kind == TokenKind::Number || kind == TokenKind::Symbol || is_arithmetic(kind)
}

/// An expression takes only literals and arithmetic operators.
pub proof fn lemma_expression_tokens(tokens: Seq<TokenView>, pos: nat, min: BindingPower)
    ensures
        expression_at(tokens, pos, min) matches Ok((e, used)) ==> pos + used <= tokens.len()
            && forall|i: int|
            pos <= i < pos + used ==> is_expression_token((#[trigger] tokens[i]).kind),
    decreases left_over(tokens.len(), pos), 1nat,
{
    if let Ok(left) = prefix_at(tokens, pos) {
        lemma_climb_tokens(tokens, left, pos + 1, min);
    }
}

/// Extending an expression takes only literals and arithmetic operators.
proof fn lemma_climb_tokens(tokens: Seq<TokenView>, left: ExprView, pos: nat, min: BindingPower)
    requires
        pos <= tokens.len(),
    ensures
        climb(tokens, left, pos, min) matches Ok((e, used)) ==> pos + used <= tokens.len()
            && forall|i: int|
            pos <= i < pos + used ==> is_expression_token((#[trigger] tokens[i]).kind),
    decreases left_over(tokens.len(), pos), 0nat,
{
    if pos < tokens.len() {
        let op = tokens[pos as int];
        if let Some(power) = binding_power(op.kind) {
            if power.level() > min.level() && is_arithmetic(op.kind) {
                lemma_expression_tokens(tokens, pos + 1, power);
                if let Ok((right, used)) = expression_at(tokens, pos + 1, power) {
                    let joined = ExprView::Binary(Box::new(left), op, Box::new(right));
                    lemma_climb_tokens(tokens, joined, pos + 1 + used, min);
                }
            }
        }
    }
}

/// A statement lies within the tokens and takes no end-of-file token.
pub proof fn lemma_statement_tokens(tokens: Seq<TokenView>, pos: nat)
    ensures
        statement_at(tokens, pos) matches Ok((e, used)) ==> used > 0 && pos + used
            <= tokens.len() && forall|i: int|
            pos <= i < pos + used ==> (#[trigger] tokens[i]).kind != TokenKind::EndOfFile,
{
    lemma_expression_tokens(tokens, pos, BindingPower::Default);
}

/// Whether the cursor of a parser has reached the end of the program: the
/// end-of-file token, or the end of the tokens.
pub open spec fn at_end(parser: ParserView) -> bool {
    parser.loc >= parser.tokens.len() || parser.tokens[parser.loc as int].kind
        == TokenKind::EndOfFile
}

/// Every statement of a parsed program is well grouped.
pub proof fn lemma_program_is_well_grouped(tokens: Seq<TokenView>, pos: nat)
    ensures
        program_at(tokens, pos) matches Ok(statements) ==> forall|i: int|
            0 <= i < statements.len() ==> well_grouped(#[trigger] statements[i]),
    decreases left_over(tokens.len(), pos),
{
    if pos < tokens.len() && tokens[pos as int].kind != TokenKind::EndOfFile {
        lemma_expression_is_well_grouped(tokens, pos, BindingPower::Default);
        if let Ok((first, used)) = statement_at(tokens, pos) {
            lemma_program_is_well_grouped(tokens, pos + used);
        }
    }
}

/// Whether the outcome of parsing an expression is the one that `v`
/// describes: the expression, and the cursor behind the tokens it took.
pub open spec fn parsed(
    r: Result<Expression, ParseError>,
    v: Result<(ExprView, nat), ParseError>,
    before: ParserView,
    after: ParserView,
) -> bool {
    &&& after.tokens == before.tokens
    &&& match (r, v) {
        (Ok(e), Ok((expected, used))) => e@ == expected && after.loc == before.loc + used,
        (Err(e), Err(expected)) => e == expected,
        _ => false,
    }
}

/// The handler of the tokens that can start an expression: turns the number
/// or symbol token at the cursor into a literal and consumes it. Fails, and
/// consumes nothing, at any other token and at the end of the tokens.
pub fn parse_literal(parser: &mut Parser) -> (r: Result<Expression, ParseError>)
    ensures
        final(parser)@.tokens == old(parser)@.tokens,
        match (r, prefix_at(old(parser)@.tokens, old(parser)@.loc)) {
            (Ok(e), Ok(expected)) => e@ == expected && final(parser)@.loc == old(parser)@.loc
                + 1,
            (Err(e), Err(expected)) => e == expected && final(parser)@.loc == old(parser)@.loc,
            _ => false,
        },
{
    proof {
        use_type_invariant(&*parser);
    }
    let literal = match parser.peek(0) {
        None => {
            return Err(ParseError::UnexpectedEnd);
        },
        Some(token) => match *token.kind() {
            TokenKind::Number => match parse_decimal(token.value().as_str()) {
                Some(n) => Expression::number(Number(n)),
                None => unreached(),
            },
            TokenKind::Symbol => Expression::symbol(token.value().as_str()),
            kind => {
                return Err(ParseError::NoPrefixHandler(kind));
            },
        },
    };
    parser.consume(1);
    Ok(literal)
}

/// The handler of the arithmetic operators: consumes the operator at the
/// cursor, parses the expression after it that binds more tightly than the
/// operator, and joins `left`, the operator and that expression.
pub fn parse_binary(parser: &mut Parser, left: Expression) -> (r: Result<Expression, ParseError>)
    requires
        old(parser)@.loc < old(parser)@.tokens.len(),
        is_arithmetic(old(parser)@.tokens[old(parser)@.loc as int].kind),
    ensures
        final(parser)@.tokens == old(parser)@.tokens,
        match (
            r,
            expression_at(
                old(parser)@.tokens,
                old(parser)@.loc + 1,
                binding_power(old(parser)@.tokens[old(parser)@.loc as int].kind)->Some_0,
            ),
        ) {
            (Ok(e), Ok((right, used))) => e@ == ExprView::Binary(
                Box::new(left@),
                old(parser)@.tokens[old(parser)@.loc as int],
                Box::new(right),
            ) && final(parser)@.loc == old(parser)@.loc + 1 + used,
            (Err(e), Err(expected)) => e == expected,
            _ => false,
        },
    decreases old(parser)@.tokens.len() - old(parser)@.loc,
{
    let op = parser.consume(1);
    let power = match power_of(*op.kind()) {
        Some(power) => power,
        None => unreached(),
    };
    match parse_expression(parser, power) {
        Ok(right) => Ok(Expression::binary(left, op, right)),
        Err(e) => Err(e),
    }
}

/// Parses the expression at the cursor that holds no operator binding as
/// loosely as `min` or looser, outside its operands, and moves the cursor
/// behind it: a literal, extended by each operator that follows and binds
/// more tightly than `min`.
pub fn parse_expression(parser: &mut Parser, min: BindingPower) -> (r: Result<
    Expression,
    ParseError,
>)
    ensures
        parsed(
            r,
            expression_at(old(parser)@.tokens, old(parser)@.loc, min),
            old(parser)@,
            final(parser)@,
        ),
        r matches Ok(e) ==> well_grouped(e@),
    decreases old(parser)@.tokens.len() - old(parser)@.loc,
{
    let ghost tokens = parser@.tokens;
    let ghost start = parser@.loc;
    let ghost goal = expression_at(tokens, start, min);
    let mut left = match parse_literal(parser) {
        Ok(literal) => literal,
        Err(e) => {
            return Err(e);
        },
    };
    let mut more = true;
    while more
        invariant
            parser@.tokens == tokens,
            tokens == old(parser)@.tokens,
            start == old(parser)@.loc,
            start < parser@.loc <= tokens.len(),
            goal == expression_at(tokens, start, min),
            more ==> goal == match climb(tokens, left@, parser@.loc, min) {
                Err(e) => Err::<(ExprView, nat), ParseError>(e),
                Ok((e, used)) => Ok((e, (used + parser@.loc - start) as nat)),
            },
            !more ==> goal == Ok::<(ExprView, nat), ParseError>(
                (left@, (parser@.loc - start) as nat),
            ),
        decreases tokens.len() - parser@.loc + (if more { 1int } else { 0int }),
    {
        let kind = match parser.peek(0) {
            None => None,
            Some(token) => Some(*token.kind()),
        };
        let power = match kind {
            None => None,
            Some(k) => power_of(k),
        };
        match (kind, power) {
            (Some(k), Some(p)) => {
                if !p.exceeds(min) {
                    more = false;
                } else if !has_infix_handler(k) {
                    return Err(ParseError::NoInfixHandler(k));
                } else {
                    left = match parse_binary(parser, left) {
                        Ok(joined) => joined,
                        Err(e) => {
                            return Err(e);
                        },
                    };
                    proof {
                        use_type_invariant(&*parser);
                    }
                }
            },
            _ => {
                more = false;
            },
        }
    }
    proof {
        lemma_expression_is_well_grouped(tokens, start, min);
    }
    Ok(left)
}

/// Parses the statement at the cursor: an expression, read with the loosest
/// bound, and the end-of-line token after it.
pub fn parse_statement(parser: &mut Parser) -> (r: Result<Statement, ParseError>)
    ensures
        final(parser)@.tokens == old(parser)@.tokens,
        match (r, statement_at(old(parser)@.tokens, old(parser)@.loc)) {
            (Ok(s), Ok((expected, used))) => s@ == expected && final(parser)@.loc == old(
                parser,
            )@.loc + used,
            (Err(e), Err(expected)) => e == expected,
            _ => false,
        },
        r matches Ok(s) ==> well_grouped(s@),
{
    let expression = match parse_expression(parser, BindingPower::Default) {
        Ok(e) => e,
        Err(e) => {
            return Err(e);
        },
    };
    match parser.expect(TokenKind::EndOfLine) {
        Ok(_) => Ok(Statement::Expr(ExpressionStatement::new(expression))),
        Err(e) => Err(e),
    }
}

/// Whether a parsed program is the one that `v` describes.
pub open spec fn program_matches(
    r: Result<Vec<Statement>, ParseError>,
    v: Result<Seq<ExprView>, ParseError>,
) -> bool {
    match (r, v) {
        (Ok(statements), Ok(expected)) => statement_views(statements@) == expected,
        (Err(e), Err(expected)) => e == expected,
        _ => false,
    }
}

/// Parses statements from the cursor on, until the cursor reaches the
/// end-of-file token or the end of the tokens. Fails on the first statement
/// that does.
pub fn parse_expressions(parser: &mut Parser) -> (r: Result<Vec<Statement>, ParseError>)
    ensures
        final(parser)@.tokens == old(parser)@.tokens,
        program_matches(r, program_at(old(parser)@.tokens, old(parser)@.loc)),
        r matches Ok(statements) ==> forall|i: int|
            0 <= i < statements@.len() ==> well_grouped(#[trigger] statements@[i]@),
        r is Ok ==> at_end(final(parser)@) && old(parser)@.loc <= final(parser)@.loc
            && forall|i: int|
            old(parser)@.loc <= i < final(parser)@.loc ==> (#[trigger] old(
                parser,
            )@.tokens[i]).kind != TokenKind::EndOfFile,
{
    let ghost tokens = parser@.tokens;
    let ghost goal = program_at(tokens, parser@.loc);
    let mut statements: Vec<Statement> = Vec::new();
    let mut more = true;
    proof {
        use_type_invariant(&*parser);
        assert(statement_views(statements@) =~= Seq::<ExprView>::empty());
    }
    while more
        invariant
            parser@.tokens == tokens,
            tokens == old(parser)@.tokens,
            goal == program_at(tokens, old(parser)@.loc),
            old(parser)@.loc <= parser@.loc <= tokens.len(),
            forall|i: int|
                old(parser)@.loc <= i < parser@.loc ==> (#[trigger] tokens[i]).kind
                    != TokenKind::EndOfFile,
            !more ==> at_end(parser@),
            more ==> goal == match program_at(tokens, parser@.loc) {
                Err(e) => Err::<Seq<ExprView>, ParseError>(e),
                Ok(rest) => Ok(statement_views(statements@) + rest),
            },
            !more ==> goal == Ok::<Seq<ExprView>, ParseError>(statement_views(statements@)),
        decreases tokens.len() - parser@.loc + (if more { 1int } else { 0int }),
    {
        let at_end = match parser.peek(0) {
            None => true,
            Some(token) => *token.kind() == TokenKind::EndOfFile,
        };
        if at_end {
            more = false;
        } else {
            let ghost done = statement_views(statements@);
            proof {
                lemma_statement_tokens(tokens, parser@.loc);
            }
            match parse_statement(parser) {
                Err(e) => {
                    return Err(e);
                },
                Ok(statement) => {
                    let ghost first = statement@;
                    statements.push(statement);
                    proof {
                        assert(statement_views(statements@) =~= done + seq![first]);
                        assert forall|rest: Seq<ExprView>|
                            done + (seq![first] + rest) == (done + seq![first]) + rest by {}
                    }
                },
            }
        }
    }
    proof {
        lemma_program_is_well_grouped(tokens, old(parser)@.loc);
        assert forall|i: int| 0 <= i < statements@.len() implies well_grouped(
            #[trigger] statements@[i]@,
        ) by {
            assert(statement_views(statements@)[i] == statements@[i]@);
        }
    }
    Ok(statements)
}

} // verus!
