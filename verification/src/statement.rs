//! Statements: what a program is made of.

use crate::expression::{ExprView, Expression};
use vstd::prelude::*;

verus! {

/// A statement. The language has one kind: an expression on a line of its
/// own.
#[derive(Debug, PartialEq, Eq)]
pub enum Statement {
    Expr(ExpressionStatement),
}

/// A sequence of statements.
#[derive(Debug, PartialEq, Eq)]
pub struct BlockStatement {
    pub body: Vec<Statement>,
}

/// An expression that stands as a statement.
#[derive(Debug, PartialEq, Eq)]
pub struct ExpressionStatement {
    pub expression: Expression,
}

impl Clone for ExpressionStatement {
    fn clone(&self) -> (r: Self)
        ensures
            r.expression@ == self.expression@,
    {
        Self { expression: self.expression.clone() }
    }
}

impl Clone for Statement {
    fn clone(&self) -> (r: Self)
        ensures
            r@ == self@,
    {
        match self {
            Statement::Expr(s) => Statement::Expr(s.clone()),
        }
    }
}

impl ExpressionStatement {
    /// The statement that holds `expression`.
    pub fn new(expression: Expression) -> (r: Self)
        ensures
            r.expression == expression,
    {
        Self { expression }
    }
}

impl View for Statement {
    type V = ExprView;

    /// A statement is seen as the expression it holds.
    open spec fn view(&self) -> ExprView {
        match self {
            Statement::Expr(s) => s.expression@,
        }
    }
}

/// The views of a sequence of statements, in order.
pub open spec fn statement_views(statements: Seq<Statement>) -> Seq<ExprView> {
    statements.map_values(|s: Statement| s@)
}

} // verus!
