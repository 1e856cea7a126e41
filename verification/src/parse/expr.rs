//! Expression trees and the runtime value model.
use vstd::prelude::*;

use crate::lex::token::{Token, TokenView};
use crate::{Located, LocatedView};

verus! {

/// A runtime value: one of the four literal kinds. A number is carried as
/// the bit pattern of the IEEE-754 double it denotes.
#[derive(Clone, Debug)]
pub enum Literal {
    Boolean(bool),
    Number(u64),
    Str(String),
    Nil,
}

/// The mathematical image of a runtime value.
pub enum LiteralView {
    Boolean(bool),
    Number(u64),
    Str(Seq<char>),
    Nil,
}

impl View for Literal {
    type V = LiteralView;

    open spec fn view(&self) -> LiteralView {
        match self {
            Literal::Boolean(b) => LiteralView::Boolean(*b),
            Literal::Number(n) => LiteralView::Number(*n),
            Literal::Str(s) => LiteralView::Str(s@),
            Literal::Nil => LiteralView::Nil,
        }
    }
}

/// Clones a runtime value; the copy has the same view.
pub fn clone_literal(l: &Literal) -> (r: Literal)
    ensures
        r@ == l@,
{
    match l {
        Literal::Boolean(b) => Literal::Boolean(*b),
        Literal::Number(n) => Literal::Number(*n),
        Literal::Str(s) => Literal::Str(s.clone()),
        Literal::Nil => Literal::Nil,
    }
}

/// An expression tree. Operator nodes keep the located token they were
/// parsed from, so runtime errors can name the operator's position;
/// variables keep their located name for the same reason.
#[derive(Debug)]
pub enum Expr {
    Binary(Box<Expr>, Located<Token>, Box<Expr>),
    Grouping(Box<Expr>),
    Literal(Literal),
    Unary(Located<Token>, Box<Expr>),
    Variable(Located<String>),
}

/// The mathematical image of an expression tree.
pub enum ExprView {
    Binary(Box<ExprView>, LocatedView<TokenView>, Box<ExprView>),
    Grouping(Box<ExprView>),
    Literal(LiteralView),
    Unary(LocatedView<TokenView>, Box<ExprView>),
    Variable(LocatedView<Seq<char>>),
}

/// The view of an expression tree, node by node.
pub open spec fn expr_view(e: Expr) -> ExprView
    decreases e,
{
    match e {
        Expr::Binary(l, op, r) => ExprView::Binary(
            Box::new(expr_view(*l)),
            op@,
            Box::new(expr_view(*r)),
        ),
        Expr::Grouping(inner) => ExprView::Grouping(Box::new(expr_view(*inner))),
        Expr::Literal(l) => ExprView::Literal(l@),
        Expr::Unary(op, inner) => ExprView::Unary(op@, Box::new(expr_view(*inner))),
        Expr::Variable(name) => ExprView::Variable(name@),
    }
}

impl View for Expr {
    type V = ExprView;

    open spec fn view(&self) -> ExprView {
        expr_view(*self)
    }
}

} // verus!
