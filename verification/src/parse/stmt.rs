//! Statement trees.
use vstd::prelude::*;

use super::expr::{expr_view, Expr, ExprView};
use crate::{Located, LocatedView};

verus! {

/// One statement: a bare expression, a `print`, or a `var` declaration
/// with its mandatory initializer.
#[derive(Debug)]
pub enum Stmt {
    Expression(Expr),
    Print(Expr),
    Var(Located<String>, Expr),
}

/// The mathematical image of a statement.
pub enum StmtView {
    Expression(ExprView),
    Print(ExprView),
    Var(LocatedView<Seq<char>>, ExprView),
}

impl View for Stmt {
    type V = StmtView;

    open spec fn view(&self) -> StmtView {
        match self {
            Stmt::Expression(e) => StmtView::Expression(expr_view(*e)),
            Stmt::Print(e) => StmtView::Print(expr_view(*e)),
            Stmt::Var(name, e) => StmtView::Var(name@, expr_view(*e)),
        }
    }
}

} // verus!
