//! Recursive-descent parsing with ascending precedence and error
//! recovery.
//!
//! The grammar and the recovery rule are written down once, as the spec
//! functions `sp_*` below; every parsing method of [`Parser`] is proved to
//! compute exactly what they say. A scanning error met while looking at
//! the stream is recorded into the error list and the slot skipped, so
//! the grammar only ever sees tokens.
use vstd::pervasive::arbitrary;
use vstd::prelude::*;

pub mod expr;
pub mod stmt;

use crate::error::Syntax;
use crate::lex::token::{Token, TokenView};
use crate::lex::{lex_all, LexItem, LexItemView, Lexer};
use crate::{Located, LocatedView, Position};
use expr::{Expr, ExprView, Literal, LiteralView};
use stmt::{Stmt, StmtView};

verus! {

/// `x` clamped into `[lo, hi]`; `lo` wins when the bounds cross.
pub open spec fn clamp(lo: int, x: int, hi: int) -> int {
    if (if x > lo {
        x
    } else {
        lo
    }) < hi {
        (if x > lo {
            x
        } else {
            lo
        })
    } else {
        hi
    }
}

/// The first slot at or past `i` that is not a scanning error, or the end
/// of the stream.
pub open spec fn sskip(items: Seq<LexItemView>, i: int) -> int
    decreases items.len() - i,
{
    if 0 <= i && i < items.len() && items[i] is Err {
        sskip(items, i + 1)
    } else {
        i
    }
}

/// The scanning errors sitting between `i` and the first token, in
/// stream order.
pub open spec fn serrs(items: Seq<LexItemView>, i: int) -> Seq<LocatedView<Syntax>>
    decreases items.len() - i,
{
    if 0 <= i && i < items.len() && items[i] is Err {
        seq![items[i]->Err_0] + serrs(items, i + 1)
    } else {
        Seq::empty()
    }
}

/// What `sskip` returns: an index between `i` and the end, sitting on a
/// token if not at the end, with only errors before it.
pub proof fn lemma_sskip(items: Seq<LexItemView>, i: int)
    requires
        0 <= i <= items.len(),
    ensures
        i <= sskip(items, i) <= items.len(),
        sskip(items, i) < items.len() ==> items[sskip(items, i)] is Ok,
    decreases items.len() - i,
{
    if i < items.len() && items[i] is Err {
        lemma_sskip(items, i + 1);
    }
}

/// The token in a stream slot known to hold one.
pub open spec fn item_tok(it: LexItemView) -> LocatedView<TokenView> {
    it->Ok_0
}

/// The outcome of one grammar production: its parse result, the index it
/// leaves the stream at, and the scanning errors it recorded on the way,
/// in order.
pub struct PRes<T> {
    pub r: Result<T, LocatedView<Syntax>>,
    pub next: int,
    pub errs: Seq<LocatedView<Syntax>>,
}

/// `primary := NUMBER | STRING | "true" | "false" | "nil" | "(" expression
/// ")" | IDENTIFIER`. Any other token is `ExpectedExpression` at that
/// token, without consuming it; a missing `)` is `UnclosedGrouping` at
/// the offending token or at the end of input.
#[verifier::opaque]
pub open spec fn sp_primary(items: Seq<LexItemView>, i: int) -> PRes<ExprView>
    decreases items.len() - i, 0int,
{
    if !(0 <= i && i <= items.len()) {
        arbitrary()
    } else {

    let hi = items.len() as int;
    let j = clamp(i, sskip(items, i), hi);
    let errs = serrs(items, i);
    if j >= hi {
        PRes {
            r: Err(LocatedView { pos: Position::Eof, value: Syntax::ExpectedExpression }),
            next: j,
            errs,
        }
    } else {
        let t = item_tok(items[j]);
        match t.value {
            TokenView::False => PRes {
                r: Ok(ExprView::Literal(LiteralView::Boolean(false))),
                next: j + 1,
                errs,
            },
            TokenView::True => PRes {
                r: Ok(ExprView::Literal(LiteralView::Boolean(true))),
                next: j + 1,
                errs,
            },
            TokenView::Nil => PRes { r: Ok(ExprView::Literal(LiteralView::Nil)), next: j + 1, errs },
            TokenView::Number(n) => PRes {
                r: Ok(ExprView::Literal(LiteralView::Number(n))),
                next: j + 1,
                errs,
            },
            TokenView::Str(sv) => PRes {
                r: Ok(ExprView::Literal(LiteralView::Str(sv))),
                next: j + 1,
                errs,
            },
            TokenView::Identifier(name) => PRes {
                r: Ok(ExprView::Variable(LocatedView { pos: t.pos, value: name })),
                next: j + 1,
                errs,
            },
            TokenView::LeftParen => {
                let inner = sp_expression(items, j + 1);
                match inner.r {
                    Err(e) => PRes {
                        r: Err(e),
                        next: clamp(j + 1, inner.next, hi),
                        errs: errs + inner.errs,
                    },
                    Ok(body) => {
                        let n2 = clamp(j + 1, inner.next, hi);
                        let k = clamp(n2, sskip(items, n2), hi);
                        let errs2 = errs + inner.errs + serrs(items, n2);
                        if k >= hi {
                            PRes {
                                r: Err(
                                    LocatedView {
                                        pos: Position::Eof,
                                        value: Syntax::UnclosedGrouping,
                                    },
                                ),
                                next: k,
                                errs: errs2,
                            }
                        } else if item_tok(items[k]).value == TokenView::RightParen {
                            PRes {
                                r: Ok(ExprView::Grouping(Box::new(body))),
                                next: k + 1,
                                errs: errs2,
                            }
                        } else {
                            PRes {
                                r: Err(
                                    LocatedView {
                                        pos: item_tok(items[k]).pos,
                                        value: Syntax::UnclosedGrouping,
                                    },
                                ),
                                next: k,
                                errs: errs2,
                            }
                        }
                    },
                }
            },
            _ => PRes {
                r: Err(LocatedView { pos: t.pos, value: Syntax::ExpectedExpression }),
                next: j,
                errs,
            },
        }
    }
    }
}

/// `unary := ("!" | "-") unary | primary`, right-associative.
#[verifier::opaque]
pub open spec fn sp_unary(items: Seq<LexItemView>, i: int) -> PRes<ExprView>
    decreases items.len() - i, 1int,
{
    if !(0 <= i && i <= items.len()) {
        arbitrary()
    } else {

    let hi = items.len() as int;
    let j = clamp(i, sskip(items, i), hi);
    let errs = serrs(items, i);
    if j < hi && (item_tok(items[j]).value == TokenView::Bang || item_tok(items[j]).value
        == TokenView::Minus) {
        let op = item_tok(items[j]);
        let inner = sp_unary(items, j + 1);
        match inner.r {
            Err(e) => PRes { r: Err(e), next: clamp(j + 1, inner.next, hi), errs: errs + inner.errs },
            Ok(x) => PRes {
                r: Ok(ExprView::Unary(op, Box::new(x))),
                next: clamp(j + 1, inner.next, hi),
                errs: errs + inner.errs,
            },
        }
    } else {
        let p = sp_primary(items, j);
        PRes { r: p.r, next: clamp(j, p.next, hi), errs: errs + p.errs }
    }
    }
}

/// The left-folding tail of `factor`: as long as a `/` or `*` follows,
/// parse one more unary operand and fold it into a `Binary` node on the
/// left.
#[verifier::opaque]
pub open spec fn sp_factor_more(items: Seq<LexItemView>, i: int, lhs: ExprView) -> PRes<ExprView>
    decreases items.len() - i, 2int,
{
    if !(0 <= i && i <= items.len()) {
        arbitrary()
    } else {

    let hi = items.len() as int;
    let j = clamp(i, sskip(items, i), hi);
    let errs = serrs(items, i);
    if j < hi && (item_tok(items[j]).value == TokenView::Slash || item_tok(items[j]).value
        == TokenView::Star) {
        let op = item_tok(items[j]);
        let b = sp_unary(items, j + 1);
        match b.r {
            Err(e) => PRes { r: Err(e), next: clamp(j + 1, b.next, hi), errs: errs + b.errs },
            Ok(rhs) => {
                let m = sp_factor_more(
                    items,
                    clamp(j + 1, b.next, hi),
                    ExprView::Binary(Box::new(lhs), op, Box::new(rhs)),
                );
                PRes { r: m.r, next: m.next, errs: errs + b.errs + m.errs }
            },
        }
    } else {
        PRes { r: Ok(lhs), next: j, errs }
    }
    }
}

/// `factor := unary (("/" | "*") unary)*`, left-associative.
#[verifier::opaque]
pub open spec fn sp_factor(items: Seq<LexItemView>, i: int) -> PRes<ExprView>
    decreases items.len() - i, 3int,
{
    if !(0 <= i && i <= items.len()) {
        arbitrary()
    } else {

    let hi = items.len() as int;
    let a = sp_unary(items, i);
    match a.r {
        Err(e) => a,
        Ok(lhs) => {
            let m = sp_factor_more(items, clamp(i, a.next, hi), lhs);
            PRes { r: m.r, next: m.next, errs: a.errs + m.errs }
        },
    }
    }
}

/// The left-folding tail of `term`: `-` and `+` operands folded in on the
/// left.
#[verifier::opaque]
pub open spec fn sp_term_more(items: Seq<LexItemView>, i: int, lhs: ExprView) -> PRes<ExprView>
    decreases items.len() - i, 4int,
{
    if !(0 <= i && i <= items.len()) {
        arbitrary()
    } else {

    let hi = items.len() as int;
    let j = clamp(i, sskip(items, i), hi);
    let errs = serrs(items, i);
    if j < hi && (item_tok(items[j]).value == TokenView::Minus || item_tok(items[j]).value
        == TokenView::Plus) {
        let op = item_tok(items[j]);
        let b = sp_factor(items, j + 1);
        match b.r {
            Err(e) => PRes { r: Err(e), next: clamp(j + 1, b.next, hi), errs: errs + b.errs },
            Ok(rhs) => {
                let m = sp_term_more(
                    items,
                    clamp(j + 1, b.next, hi),
                    ExprView::Binary(Box::new(lhs), op, Box::new(rhs)),
                );
                PRes { r: m.r, next: m.next, errs: errs + b.errs + m.errs }
            },
        }
    } else {
        PRes { r: Ok(lhs), next: j, errs }
    }
    }
}

/// `term := factor (("-" | "+") factor)*`, left-associative.
#[verifier::opaque]
pub open spec fn sp_term(items: Seq<LexItemView>, i: int) -> PRes<ExprView>
    decreases items.len() - i, 5int,
{
    if !(0 <= i && i <= items.len()) {
        arbitrary()
    } else {

    let hi = items.len() as int;
    let a = sp_factor(items, i);
    match a.r {
        Err(e) => a,
        Ok(lhs) => {
            let m = sp_term_more(items, clamp(i, a.next, hi), lhs);
            PRes { r: m.r, next: m.next, errs: a.errs + m.errs }
        },
    }
    }
}

/// The left-folding tail of `comparison`.
#[verifier::opaque]
pub open spec fn sp_cmp_more(items: Seq<LexItemView>, i: int, lhs: ExprView) -> PRes<ExprView>
    decreases items.len() - i, 6int,
{
    if !(0 <= i && i <= items.len()) {
        arbitrary()
    } else {

    let hi = items.len() as int;
    let j = clamp(i, sskip(items, i), hi);
    let errs = serrs(items, i);
    if j < hi && (item_tok(items[j]).value == TokenView::Greater || item_tok(items[j]).value
        == TokenView::GreaterEqual || item_tok(items[j]).value == TokenView::Less || item_tok(
        items[j],
    ).value == TokenView::LessEqual) {
        let op = item_tok(items[j]);
        let b = sp_term(items, j + 1);
        match b.r {
            Err(e) => PRes { r: Err(e), next: clamp(j + 1, b.next, hi), errs: errs + b.errs },
            Ok(rhs) => {
                let m = sp_cmp_more(
                    items,
                    clamp(j + 1, b.next, hi),
                    ExprView::Binary(Box::new(lhs), op, Box::new(rhs)),
                );
                PRes { r: m.r, next: m.next, errs: errs + b.errs + m.errs }
            },
        }
    } else {
        PRes { r: Ok(lhs), next: j, errs }
    }
    }
}

/// `comparison := term ((">" | ">=" | "<" | "<=") term)*`,
/// left-associative.
#[verifier::opaque]
pub open spec fn sp_comparison(items: Seq<LexItemView>, i: int) -> PRes<ExprView>
    decreases items.len() - i, 7int,
{
    if !(0 <= i && i <= items.len()) {
        arbitrary()
    } else {

    let hi = items.len() as int;
    let a = sp_term(items, i);
    match a.r {
        Err(e) => a,
        Ok(lhs) => {
            let m = sp_cmp_more(items, clamp(i, a.next, hi), lhs);
            PRes { r: m.r, next: m.next, errs: a.errs + m.errs }
        },
    }
    }
}

/// The left-folding tail of `equality`.
#[verifier::opaque]
pub open spec fn sp_eq_more(items: Seq<LexItemView>, i: int, lhs: ExprView) -> PRes<ExprView>
    decreases items.len() - i, 8int,
{
    if !(0 <= i && i <= items.len()) {
        arbitrary()
    } else {

    let hi = items.len() as int;
    let j = clamp(i, sskip(items, i), hi);
    let errs = serrs(items, i);
    if j < hi && (item_tok(items[j]).value == TokenView::BangEqual || item_tok(items[j]).value
        == TokenView::EqualEqual) {
        let op = item_tok(items[j]);
        let b = sp_comparison(items, j + 1);
        match b.r {
            Err(e) => PRes { r: Err(e), next: clamp(j + 1, b.next, hi), errs: errs + b.errs },
            Ok(rhs) => {
                let m = sp_eq_more(
                    items,
                    clamp(j + 1, b.next, hi),
                    ExprView::Binary(Box::new(lhs), op, Box::new(rhs)),
                );
                PRes { r: m.r, next: m.next, errs: errs + b.errs + m.errs }
            },
        }
    } else {
        PRes { r: Ok(lhs), next: j, errs }
    }
    }
}

/// `equality := comparison (("!=" | "==") comparison)*`,
/// left-associative.
#[verifier::opaque]
pub open spec fn sp_equality(items: Seq<LexItemView>, i: int) -> PRes<ExprView>
    decreases items.len() - i, 9int,
{
    if !(0 <= i && i <= items.len()) {
        arbitrary()
    } else {

    let hi = items.len() as int;
    let a = sp_comparison(items, i);
    match a.r {
        Err(e) => a,
        Ok(lhs) => {
            let m = sp_eq_more(items, clamp(i, a.next, hi), lhs);
            PRes { r: m.r, next: m.next, errs: a.errs + m.errs }
        },
    }
    }
}

/// `expression := equality`.
#[verifier::opaque]
pub open spec fn sp_expression(items: Seq<LexItemView>, i: int) -> PRes<ExprView>
    decreases items.len() - i, 10int,
{
    if !(0 <= i && i <= items.len()) {
        arbitrary()
    } else {

    sp_equality(items, i)
    }
}

/// The trailing `;` of a statement: consumed when present; its absence is
/// `UnterminatedExprStatement` at the next token, or at the end of input.
#[verifier::opaque]
pub open spec fn sp_terminator(items: Seq<LexItemView>, i: int) -> PRes<()>
    decreases items.len() - i, 0int,
{
    if !(0 <= i && i <= items.len()) {
        arbitrary()
    } else {

    let hi = items.len() as int;
    let j = clamp(i, sskip(items, i), hi);
    let errs = serrs(items, i);
    if j >= hi {
        PRes {
            r: Err(LocatedView { pos: Position::Eof, value: Syntax::UnterminatedExprStatement }),
            next: j,
            errs,
        }
    } else if item_tok(items[j]).value == TokenView::Semicolon {
        PRes { r: Ok(()), next: j + 1, errs }
    } else {
        PRes {
            r: Err(
                LocatedView {
                    pos: item_tok(items[j]).pos,
                    value: Syntax::UnterminatedExprStatement,
                },
            ),
            next: j,
            errs,
        }
    }
    }
}

/// A `print` statement, after its keyword: an expression and the
/// terminator.
#[verifier::opaque]
pub open spec fn sp_print_statement(items: Seq<LexItemView>, i: int) -> PRes<StmtView>
    decreases items.len() - i, 11int,
{
    if !(0 <= i && i <= items.len()) {
        arbitrary()
    } else {

    let hi = items.len() as int;
    let e = sp_expression(items, i);
    match e.r {
        Err(er) => PRes { r: Err(er), next: clamp(i, e.next, hi), errs: e.errs },
        Ok(body) => {
            let t = sp_terminator(items, clamp(i, e.next, hi));
            match t.r {
                Err(er) => PRes { r: Err(er), next: t.next, errs: e.errs + t.errs },
                Ok(_) => PRes { r: Ok(StmtView::Print(body)), next: t.next, errs: e.errs + t.errs },
            }
        },
    }
    }
}

/// An expression statement: an expression and the terminator.
#[verifier::opaque]
pub open spec fn sp_expression_statement(items: Seq<LexItemView>, i: int) -> PRes<StmtView>
    decreases items.len() - i, 11int,
{
    if !(0 <= i && i <= items.len()) {
        arbitrary()
    } else {

    let hi = items.len() as int;
    let e = sp_expression(items, i);
    match e.r {
        Err(er) => PRes { r: Err(er), next: clamp(i, e.next, hi), errs: e.errs },
        Ok(body) => {
            let t = sp_terminator(items, clamp(i, e.next, hi));
            match t.r {
                Err(er) => PRes { r: Err(er), next: t.next, errs: e.errs + t.errs },
                Ok(_) => PRes {
                    r: Ok(StmtView::Expression(body)),
                    next: t.next,
                    errs: e.errs + t.errs,
                },
            }
        },
    }
    }
}

/// A `var` declaration, after its keyword: a name, `=`, the mandatory
/// initializer, and the terminator. A missing name is
/// `ExpectedVariableName` at the offending token; a name not followed by
/// `=` is `InvalidAssignmentTarget` there.
#[verifier::opaque]
pub open spec fn sp_var_statement(items: Seq<LexItemView>, i: int) -> PRes<StmtView>
    decreases items.len() - i, 11int,
{
    if !(0 <= i && i <= items.len()) {
        arbitrary()
    } else {

    let hi = items.len() as int;
    let j = clamp(i, sskip(items, i), hi);
    let errs0 = serrs(items, i);
    if j >= hi {
        PRes {
            r: Err(LocatedView { pos: Position::Eof, value: Syntax::ExpectedVariableName }),
            next: j,
            errs: errs0,
        }
    } else {
        let t = item_tok(items[j]);
        match t.value {
            TokenView::Identifier(name) => {
                let k = clamp(j + 1, sskip(items, j + 1), hi);
                let errs1 = errs0 + serrs(items, j + 1);
                if k >= hi {
                    PRes {
                        r: Err(
                            LocatedView { pos: Position::Eof, value: Syntax::InvalidAssignmentTarget },
                        ),
                        next: k,
                        errs: errs1,
                    }
                } else if item_tok(items[k]).value == TokenView::Equal {
                    let e = sp_expression(items, k + 1);
                    match e.r {
                        Err(er) => PRes {
                            r: Err(er),
                            next: clamp(k + 1, e.next, hi),
                            errs: errs1 + e.errs,
                        },
                        Ok(body) => {
                            let tr = sp_terminator(items, clamp(k + 1, e.next, hi));
                            match tr.r {
                                Err(er) => PRes {
                                    r: Err(er),
                                    next: tr.next,
                                    errs: errs1 + e.errs + tr.errs,
                                },
                                Ok(_) => PRes {
                                    r: Ok(
                                        StmtView::Var(
                                            LocatedView { pos: t.pos, value: name },
                                            body,
                                        ),
                                    ),
                                    next: tr.next,
                                    errs: errs1 + e.errs + tr.errs,
                                },
                            }
                        },
                    }
                } else {
                    PRes {
                        r: Err(
                            LocatedView {
                                pos: item_tok(items[k]).pos,
                                value: Syntax::InvalidAssignmentTarget,
                            },
                        ),
                        next: k,
                        errs: errs1,
                    }
                }
            },
            _ => PRes {
                r: Err(LocatedView { pos: t.pos, value: Syntax::ExpectedVariableName }),
                next: j,
                errs: errs0,
            },
        }
    }
    }
}

/// `statement := "print" expression ";" | "var" IDENTIFIER "=" expression
/// ";" | expression ";"`.
#[verifier::opaque]
pub open spec fn sp_statement(items: Seq<LexItemView>, i: int) -> PRes<StmtView>
    decreases items.len() - i, 12int,
{
    if !(0 <= i && i <= items.len()) {
        arbitrary()
    } else {

    let hi = items.len() as int;
    let j = clamp(i, sskip(items, i), hi);
    let errs = serrs(items, i);
    if j < hi && item_tok(items[j]).value == TokenView::Print {
        let p = sp_print_statement(items, j + 1);
        PRes { r: p.r, next: clamp(j + 1, p.next, hi), errs: errs + p.errs }
    } else if j < hi && item_tok(items[j]).value == TokenView::Var {
        let p = sp_var_statement(items, j + 1);
        PRes { r: p.r, next: clamp(j + 1, p.next, hi), errs: errs + p.errs }
    } else {
        let p = sp_expression_statement(items, j);
        PRes { r: p.r, next: clamp(j, p.next, hi), errs: errs + p.errs }
    }
    }
}

/// Where synchronization stops after a parse error, and the scanning
/// errors it records on the way.
pub struct SyncRes {
    pub next: int,
    pub errs: Seq<LocatedView<Syntax>>,
}

/// Recovery: tokens are discarded up to, and not including, a
/// statement-starting keyword, or through a `;` inclusive.
#[verifier::opaque]
pub open spec fn sp_sync(items: Seq<LexItemView>, i: int) -> SyncRes
    decreases items.len() - i,
{
    if !(0 <= i && i <= items.len()) {
        arbitrary()
    } else {

    let hi = items.len() as int;
    let j = clamp(i, sskip(items, i), hi);
    let errs = serrs(items, i);
    if j >= hi {
        SyncRes { next: j, errs }
    } else {
        let t = item_tok(items[j]).value;
        if t == TokenView::Class || t == TokenView::Fun || t == TokenView::Var || t
            == TokenView::For || t == TokenView::If || t == TokenView::While || t
            == TokenView::Print || t == TokenView::Return {
            SyncRes { next: j, errs }
        } else if t == TokenView::Semicolon {
            SyncRes { next: j + 1, errs }
        } else {
            let rest = sp_sync(items, j + 1);
            SyncRes { next: rest.next, errs: errs + rest.errs }
        }
    }
    }
}

/// What one pull on the parser yields and records.
pub struct NextRes {
    pub item: Option<StmtView>,
    pub next: int,
    pub errs: Seq<LocatedView<Syntax>>,
}

/// One pull on the parser: the next statement, with every error met on
/// the way appended to the error list in order. A failed statement is
/// recorded, the stream synchronized — always past at least one token —
/// and parsing resumed; at the end of the stream, nothing.
#[verifier::opaque]
pub open spec fn sp_next(items: Seq<LexItemView>, i: int) -> NextRes
    decreases items.len() - i, 13int,
{
    if !(0 <= i && i <= items.len()) {
        arbitrary()
    } else {

    let hi = items.len() as int;
    let j = clamp(i, sskip(items, i), hi);
    let errs0 = serrs(items, i);
    if j >= hi {
        NextRes { item: None, next: j, errs: errs0 }
    } else {
        let st = sp_statement(items, j);
        match st.r {
            Ok(s) => NextRes { item: Some(s), next: clamp(j, st.next, hi), errs: errs0 + st.errs },
            Err(e) => {
                let sy = sp_sync(items, clamp(j, st.next, hi));
                let k = clamp(j + 1, sy.next, hi);
                let rest = sp_next(items, k);
                NextRes {
                    item: rest.item,
                    next: rest.next,
                    errs: errs0 + st.errs + seq![e] + sy.errs + rest.errs,
                }
            },
        }
    }
    }
}


/// Every production leaves the stream index between where it started and
/// the end.
#[verifier::rlimit(100)]
#[verifier::spinoff_prover]
pub proof fn lemma_b_primary(items: Seq<LexItemView>, i: int)
    requires
        0 <= i <= items.len(),
    ensures
        i <= sp_primary(items, i).next <= items.len(),
    decreases items.len() - i, 0int,
{
    reveal_with_fuel(sp_primary, 1);
    reveal_with_fuel(sp_expression, 1);
    lemma_sskip(items, i);
    let hi = items.len() as int;
    let j = clamp(i, sskip(items, i), hi);
    if j < hi && item_tok(items[j]).value is LeftParen {
        lemma_b_expression(items, j + 1);
        let inner = sp_expression(items, j + 1);
        if inner.r is Ok {
            let n2 = clamp(j + 1, inner.next, hi);
            lemma_sskip(items, n2);
        }
    }
}

/// As [`lemma_b_primary`], for `unary`.
pub proof fn lemma_b_unary(items: Seq<LexItemView>, i: int)
    requires
        0 <= i <= items.len(),
    ensures
        i <= sp_unary(items, i).next <= items.len(),
    decreases items.len() - i, 1int,
{
    reveal_with_fuel(sp_unary, 1);
    reveal_with_fuel(sp_primary, 1);
    lemma_sskip(items, i);
    let hi = items.len() as int;
    let j = clamp(i, sskip(items, i), hi);
    if j < hi && (item_tok(items[j]).value == TokenView::Bang || item_tok(items[j]).value
        == TokenView::Minus) {
        lemma_b_unary(items, j + 1);
    } else {
        lemma_b_primary(items, j);
    }
}

/// As [`lemma_b_primary`], for the tail of `factor`.
pub proof fn lemma_b_factor_more(items: Seq<LexItemView>, i: int, lhs: ExprView)
    requires
        0 <= i <= items.len(),
    ensures
        i <= sp_factor_more(items, i, lhs).next <= items.len(),
    decreases items.len() - i, 2int,
{
    reveal_with_fuel(sp_factor_more, 1);
    reveal_with_fuel(sp_unary, 1);
    lemma_sskip(items, i);
    let hi = items.len() as int;
    let j = clamp(i, sskip(items, i), hi);
    if j < hi && (item_tok(items[j]).value == TokenView::Slash || item_tok(items[j]).value
        == TokenView::Star) {
        let op = item_tok(items[j]);
        lemma_b_unary(items, j + 1);
        let b = sp_unary(items, j + 1);
        if b.r is Ok {
            lemma_b_factor_more(
                items,
                clamp(j + 1, b.next, hi),
                ExprView::Binary(Box::new(lhs), op, Box::new(b.r->Ok_0)),
            );
        }
    }
}

/// As [`lemma_b_primary`], for `factor`.
pub proof fn lemma_b_factor(items: Seq<LexItemView>, i: int)
    requires
        0 <= i <= items.len(),
    ensures
        i <= sp_factor(items, i).next <= items.len(),
    decreases items.len() - i, 3int,
{
    reveal_with_fuel(sp_factor, 1);
    reveal_with_fuel(sp_unary, 1);
    reveal_with_fuel(sp_factor_more, 1);
    lemma_b_unary(items, i);
    let hi = items.len() as int;
    let a = sp_unary(items, i);
    if a.r is Ok {
        lemma_b_factor_more(items, clamp(i, a.next, hi), a.r->Ok_0);
    }
}

/// As [`lemma_b_primary`], for the tail of `term`.
pub proof fn lemma_b_term_more(items: Seq<LexItemView>, i: int, lhs: ExprView)
    requires
        0 <= i <= items.len(),
    ensures
        i <= sp_term_more(items, i, lhs).next <= items.len(),
    decreases items.len() - i, 4int,
{
    reveal_with_fuel(sp_term_more, 1);
    reveal_with_fuel(sp_factor, 1);
    lemma_sskip(items, i);
    let hi = items.len() as int;
    let j = clamp(i, sskip(items, i), hi);
    if j < hi && (item_tok(items[j]).value == TokenView::Minus || item_tok(items[j]).value
        == TokenView::Plus) {
        let op = item_tok(items[j]);
        lemma_b_factor(items, j + 1);
        let b = sp_factor(items, j + 1);
        if b.r is Ok {
            lemma_b_term_more(
                items,
                clamp(j + 1, b.next, hi),
                ExprView::Binary(Box::new(lhs), op, Box::new(b.r->Ok_0)),
            );
        }
    }
}

/// As [`lemma_b_primary`], for `term`.
pub proof fn lemma_b_term(items: Seq<LexItemView>, i: int)
    requires
        0 <= i <= items.len(),
    ensures
        i <= sp_term(items, i).next <= items.len(),
    decreases items.len() - i, 5int,
{
    reveal_with_fuel(sp_term, 1);
    reveal_with_fuel(sp_factor, 1);
    reveal_with_fuel(sp_term_more, 1);
    lemma_b_factor(items, i);
    let hi = items.len() as int;
    let a = sp_factor(items, i);
    if a.r is Ok {
        lemma_b_term_more(items, clamp(i, a.next, hi), a.r->Ok_0);
    }
}

/// As [`lemma_b_primary`], for the tail of `comparison`.
pub proof fn lemma_b_cmp_more(items: Seq<LexItemView>, i: int, lhs: ExprView)
    requires
        0 <= i <= items.len(),
    ensures
        i <= sp_cmp_more(items, i, lhs).next <= items.len(),
    decreases items.len() - i, 6int,
{
    reveal_with_fuel(sp_cmp_more, 1);
    reveal_with_fuel(sp_term, 1);
    lemma_sskip(items, i);
    let hi = items.len() as int;
    let j = clamp(i, sskip(items, i), hi);
    if j < hi && (item_tok(items[j]).value == TokenView::Greater || item_tok(items[j]).value
        == TokenView::GreaterEqual || item_tok(items[j]).value == TokenView::Less || item_tok(
        items[j],
    ).value == TokenView::LessEqual) {
        let op = item_tok(items[j]);
        lemma_b_term(items, j + 1);
        let b = sp_term(items, j + 1);
        if b.r is Ok {
            lemma_b_cmp_more(
                items,
                clamp(j + 1, b.next, hi),
                ExprView::Binary(Box::new(lhs), op, Box::new(b.r->Ok_0)),
            );
        }
    }
}

/// As [`lemma_b_primary`], for `comparison`.
pub proof fn lemma_b_comparison(items: Seq<LexItemView>, i: int)
    requires
        0 <= i <= items.len(),
    ensures
        i <= sp_comparison(items, i).next <= items.len(),
    decreases items.len() - i, 7int,
{
    reveal_with_fuel(sp_comparison, 1);
    reveal_with_fuel(sp_term, 1);
    reveal_with_fuel(sp_cmp_more, 1);
    lemma_b_term(items, i);
    let hi = items.len() as int;
    let a = sp_term(items, i);
    if a.r is Ok {
        lemma_b_cmp_more(items, clamp(i, a.next, hi), a.r->Ok_0);
    }
}

/// As [`lemma_b_primary`], for the tail of `equality`.
pub proof fn lemma_b_eq_more(items: Seq<LexItemView>, i: int, lhs: ExprView)
    requires
        0 <= i <= items.len(),
    ensures
        i <= sp_eq_more(items, i, lhs).next <= items.len(),
    decreases items.len() - i, 8int,
{
    reveal_with_fuel(sp_eq_more, 1);
    reveal_with_fuel(sp_comparison, 1);
    lemma_sskip(items, i);
    let hi = items.len() as int;
    let j = clamp(i, sskip(items, i), hi);
    if j < hi && (item_tok(items[j]).value == TokenView::BangEqual || item_tok(items[j]).value
        == TokenView::EqualEqual) {
        let op = item_tok(items[j]);
        lemma_b_comparison(items, j + 1);
        let b = sp_comparison(items, j + 1);
        if b.r is Ok {
            lemma_b_eq_more(
                items,
                clamp(j + 1, b.next, hi),
                ExprView::Binary(Box::new(lhs), op, Box::new(b.r->Ok_0)),
            );
        }
    }
}

/// As [`lemma_b_primary`], for `equality`.
pub proof fn lemma_b_equality(items: Seq<LexItemView>, i: int)
    requires
        0 <= i <= items.len(),
    ensures
        i <= sp_equality(items, i).next <= items.len(),
    decreases items.len() - i, 9int,
{
    reveal_with_fuel(sp_equality, 1);
    reveal_with_fuel(sp_comparison, 1);
    reveal_with_fuel(sp_eq_more, 1);
    lemma_b_comparison(items, i);
    let hi = items.len() as int;
    let a = sp_comparison(items, i);
    if a.r is Ok {
        lemma_b_eq_more(items, clamp(i, a.next, hi), a.r->Ok_0);
    }
}

/// As [`lemma_b_primary`], for `expression`.
pub proof fn lemma_b_expression(items: Seq<LexItemView>, i: int)
    requires
        0 <= i <= items.len(),
    ensures
        i <= sp_expression(items, i).next <= items.len(),
    decreases items.len() - i, 10int,
{
    reveal_with_fuel(sp_expression, 1);
    reveal_with_fuel(sp_equality, 1);
    lemma_b_equality(items, i);
}

/// As [`lemma_b_primary`], for the statement terminator.
pub proof fn lemma_b_terminator(items: Seq<LexItemView>, i: int)
    requires
        0 <= i <= items.len(),
    ensures
        i <= sp_terminator(items, i).next <= items.len(),
    decreases items.len() - i, 0int,
{
    reveal_with_fuel(sp_terminator, 1);
    lemma_sskip(items, i);
}

/// As [`lemma_b_primary`], for `print` statements.
pub proof fn lemma_b_print_statement(items: Seq<LexItemView>, i: int)
    requires
        0 <= i <= items.len(),
    ensures
        i <= sp_print_statement(items, i).next <= items.len(),
    decreases items.len() - i, 11int,
{
    reveal_with_fuel(sp_print_statement, 1);
    reveal_with_fuel(sp_expression, 1);
    reveal_with_fuel(sp_terminator, 1);
    lemma_b_expression(items, i);
    let hi = items.len() as int;
    let e = sp_expression(items, i);
    if e.r is Ok {
        lemma_b_terminator(items, clamp(i, e.next, hi));
    }
}

/// As [`lemma_b_primary`], for expression statements.
pub proof fn lemma_b_expression_statement(items: Seq<LexItemView>, i: int)
    requires
        0 <= i <= items.len(),
    ensures
        i <= sp_expression_statement(items, i).next <= items.len(),
    decreases items.len() - i, 11int,
{
    reveal_with_fuel(sp_expression_statement, 1);
    reveal_with_fuel(sp_expression, 1);
    reveal_with_fuel(sp_terminator, 1);
    lemma_b_expression(items, i);
    let hi = items.len() as int;
    let e = sp_expression(items, i);
    if e.r is Ok {
        lemma_b_terminator(items, clamp(i, e.next, hi));
    }
}

/// As [`lemma_b_primary`], for `var` declarations.
pub proof fn lemma_b_var_statement(items: Seq<LexItemView>, i: int)
    requires
        0 <= i <= items.len(),
    ensures
        i <= sp_var_statement(items, i).next <= items.len(),
    decreases items.len() - i, 11int,
{
    reveal_with_fuel(sp_var_statement, 1);
    reveal_with_fuel(sp_expression, 1);
    reveal_with_fuel(sp_terminator, 1);
    lemma_sskip(items, i);
    let hi = items.len() as int;
    let j = clamp(i, sskip(items, i), hi);
    if j < hi && item_tok(items[j]).value is Identifier {
        lemma_sskip(items, j + 1);
        let k = clamp(j + 1, sskip(items, j + 1), hi);
        if k < hi && item_tok(items[k]).value == TokenView::Equal {
            lemma_b_expression(items, k + 1);
            let e = sp_expression(items, k + 1);
            if e.r is Ok {
                lemma_b_terminator(items, clamp(k + 1, e.next, hi));
            }
        }
    }
}

/// As [`lemma_b_primary`], for `statement`.
pub proof fn lemma_b_statement(items: Seq<LexItemView>, i: int)
    requires
        0 <= i <= items.len(),
    ensures
        i <= sp_statement(items, i).next <= items.len(),
    decreases items.len() - i, 12int,
{
    reveal_with_fuel(sp_statement, 1);
    reveal_with_fuel(sp_print_statement, 1);
    reveal_with_fuel(sp_var_statement, 1);
    reveal_with_fuel(sp_expression_statement, 1);
    lemma_sskip(items, i);
    let hi = items.len() as int;
    let j = clamp(i, sskip(items, i), hi);
    if j < hi && item_tok(items[j]).value == TokenView::Print {
        lemma_b_print_statement(items, j + 1);
    } else if j < hi && item_tok(items[j]).value == TokenView::Var {
        lemma_b_var_statement(items, j + 1);
    } else {
        lemma_b_expression_statement(items, j);
    }
}

/// As [`lemma_b_primary`], for synchronization.
pub proof fn lemma_b_sync(items: Seq<LexItemView>, i: int)
    requires
        0 <= i <= items.len(),
    ensures
        i <= sp_sync(items, i).next <= items.len(),
    decreases items.len() - i,
{
    reveal_with_fuel(sp_sync, 1);
    lemma_sskip(items, i);
    let hi = items.len() as int;
    let j = clamp(i, sskip(items, i), hi);
    if j < hi {
        let t = item_tok(items[j]).value;
        if t == TokenView::Class || t == TokenView::Fun || t == TokenView::Var || t
            == TokenView::For || t == TokenView::If || t == TokenView::While || t
            == TokenView::Print || t == TokenView::Return {
        } else if t == TokenView::Semicolon {
        } else {
            lemma_b_sync(items, j + 1);
        }
    }
}

/// Every expression a production yields is a tree the evaluator accepts:
/// unary nodes carry `!` or `-`, binary nodes one of the ten binary
/// operators.
pub proof fn lemma_wf_primary(items: Seq<LexItemView>, i: int)
    requires
        0 <= i <= items.len(),
    ensures
        match sp_primary(items, i).r {
            Ok(e) => crate::interpret::wf_expr(e),
            Err(_) => true,
        },
    decreases items.len() - i, 0int,
{
    reveal_with_fuel(sp_primary, 1);
    reveal_with_fuel(sp_expression, 1);
    lemma_sskip(items, i);
    let hi = items.len() as int;
    let j = clamp(i, sskip(items, i), hi);
    if j < hi && item_tok(items[j]).value is LeftParen {
        lemma_wf_expression(items, j + 1);
    }
}

/// As [`lemma_wf_primary`], for `unary`.
pub proof fn lemma_wf_unary(items: Seq<LexItemView>, i: int)
    requires
        0 <= i <= items.len(),
    ensures
        match sp_unary(items, i).r {
            Ok(e) => crate::interpret::wf_expr(e),
            Err(_) => true,
        },
    decreases items.len() - i, 1int,
{
    reveal_with_fuel(sp_unary, 1);
    reveal_with_fuel(sp_primary, 1);
    lemma_sskip(items, i);
    let hi = items.len() as int;
    let j = clamp(i, sskip(items, i), hi);
    if j < hi && (item_tok(items[j]).value == TokenView::Bang || item_tok(items[j]).value
        == TokenView::Minus) {
        lemma_wf_unary(items, j + 1);
    } else {
        lemma_wf_primary(items, j);
    }
}

/// As [`lemma_wf_primary`], for the tail of `factor`.
pub proof fn lemma_wf_factor_more(items: Seq<LexItemView>, i: int, lhs: ExprView)
    requires
        0 <= i <= items.len(),
        crate::interpret::wf_expr(lhs),
    ensures
        match sp_factor_more(items, i, lhs).r {
            Ok(e) => crate::interpret::wf_expr(e),
            Err(_) => true,
        },
    decreases items.len() - i, 2int,
{
    reveal_with_fuel(sp_factor_more, 1);
    reveal_with_fuel(sp_unary, 1);
    lemma_sskip(items, i);
    let hi = items.len() as int;
    let j = clamp(i, sskip(items, i), hi);
    if j < hi && (item_tok(items[j]).value == TokenView::Slash || item_tok(items[j]).value
        == TokenView::Star) {
        let op = item_tok(items[j]);
        lemma_b_unary(items, j + 1);
        lemma_wf_unary(items, j + 1);
        let b = sp_unary(items, j + 1);
        if b.r is Ok {
            lemma_wf_factor_more(
                items,
                clamp(j + 1, b.next, hi),
                ExprView::Binary(Box::new(lhs), op, Box::new(b.r->Ok_0)),
            );
        }
    }
}

/// As [`lemma_wf_primary`], for `factor`.
pub proof fn lemma_wf_factor(items: Seq<LexItemView>, i: int)
    requires
        0 <= i <= items.len(),
    ensures
        match sp_factor(items, i).r {
            Ok(e) => crate::interpret::wf_expr(e),
            Err(_) => true,
        },
    decreases items.len() - i, 3int,
{
    reveal_with_fuel(sp_factor, 1);
    reveal_with_fuel(sp_unary, 1);
    reveal_with_fuel(sp_factor_more, 1);
    lemma_b_unary(items, i);
    lemma_wf_unary(items, i);
    let hi = items.len() as int;
    let a = sp_unary(items, i);
    if a.r is Ok {
        lemma_wf_factor_more(items, clamp(i, a.next, hi), a.r->Ok_0);
    }
}

/// As [`lemma_wf_primary`], for the tail of `term`.
pub proof fn lemma_wf_term_more(items: Seq<LexItemView>, i: int, lhs: ExprView)
    requires
        0 <= i <= items.len(),
        crate::interpret::wf_expr(lhs),
    ensures
        match sp_term_more(items, i, lhs).r {
            Ok(e) => crate::interpret::wf_expr(e),
            Err(_) => true,
        },
    decreases items.len() - i, 4int,
{
    reveal_with_fuel(sp_term_more, 1);
    reveal_with_fuel(sp_factor, 1);
    lemma_sskip(items, i);
    let hi = items.len() as int;
    let j = clamp(i, sskip(items, i), hi);
    if j < hi && (item_tok(items[j]).value == TokenView::Minus || item_tok(items[j]).value
        == TokenView::Plus) {
        let op = item_tok(items[j]);
        lemma_b_factor(items, j + 1);
        lemma_wf_factor(items, j + 1);
        let b = sp_factor(items, j + 1);
        if b.r is Ok {
            lemma_wf_term_more(
                items,
                clamp(j + 1, b.next, hi),
                ExprView::Binary(Box::new(lhs), op, Box::new(b.r->Ok_0)),
            );
        }
    }
}

/// As [`lemma_wf_primary`], for `term`.
pub proof fn lemma_wf_term(items: Seq<LexItemView>, i: int)
    requires
        0 <= i <= items.len(),
    ensures
        match sp_term(items, i).r {
            Ok(e) => crate::interpret::wf_expr(e),
            Err(_) => true,
        },
    decreases items.len() - i, 5int,
{
    reveal_with_fuel(sp_term, 1);
    reveal_with_fuel(sp_factor, 1);
    reveal_with_fuel(sp_term_more, 1);
    lemma_b_factor(items, i);
    lemma_wf_factor(items, i);
    let hi = items.len() as int;
    let a = sp_factor(items, i);
    if a.r is Ok {
        lemma_wf_term_more(items, clamp(i, a.next, hi), a.r->Ok_0);
    }
}

/// As [`lemma_wf_primary`], for the tail of `comparison`.
pub proof fn lemma_wf_cmp_more(items: Seq<LexItemView>, i: int, lhs: ExprView)
    requires
        0 <= i <= items.len(),
        crate::interpret::wf_expr(lhs),
    ensures
        match sp_cmp_more(items, i, lhs).r {
            Ok(e) => crate::interpret::wf_expr(e),
            Err(_) => true,
        },
    decreases items.len() - i, 6int,
{
    reveal_with_fuel(sp_cmp_more, 1);
    reveal_with_fuel(sp_term, 1);
    lemma_sskip(items, i);
    let hi = items.len() as int;
    let j = clamp(i, sskip(items, i), hi);
    if j < hi && (item_tok(items[j]).value == TokenView::Greater || item_tok(items[j]).value
        == TokenView::GreaterEqual || item_tok(items[j]).value == TokenView::Less || item_tok(
        items[j],
    ).value == TokenView::LessEqual) {
        let op = item_tok(items[j]);
        lemma_b_term(items, j + 1);
        lemma_wf_term(items, j + 1);
        let b = sp_term(items, j + 1);
        if b.r is Ok {
            lemma_wf_cmp_more(
                items,
                clamp(j + 1, b.next, hi),
                ExprView::Binary(Box::new(lhs), op, Box::new(b.r->Ok_0)),
            );
        }
    }
}

/// As [`lemma_wf_primary`], for `comparison`.
pub proof fn lemma_wf_comparison(items: Seq<LexItemView>, i: int)
    requires
        0 <= i <= items.len(),
    ensures
        match sp_comparison(items, i).r {
            Ok(e) => crate::interpret::wf_expr(e),
            Err(_) => true,
        },
    decreases items.len() - i, 7int,
{
    reveal_with_fuel(sp_comparison, 1);
    reveal_with_fuel(sp_term, 1);
    reveal_with_fuel(sp_cmp_more, 1);
    lemma_b_term(items, i);
    lemma_wf_term(items, i);
    let hi = items.len() as int;
    let a = sp_term(items, i);
    if a.r is Ok {
        lemma_wf_cmp_more(items, clamp(i, a.next, hi), a.r->Ok_0);
    }
}

/// As [`lemma_wf_primary`], for the tail of `equality`.
pub proof fn lemma_wf_eq_more(items: Seq<LexItemView>, i: int, lhs: ExprView)
    requires
        0 <= i <= items.len(),
        crate::interpret::wf_expr(lhs),
    ensures
        match sp_eq_more(items, i, lhs).r {
            Ok(e) => crate::interpret::wf_expr(e),
            Err(_) => true,
        },
    decreases items.len() - i, 8int,
{
    reveal_with_fuel(sp_eq_more, 1);
    reveal_with_fuel(sp_comparison, 1);
    lemma_sskip(items, i);
    let hi = items.len() as int;
    let j = clamp(i, sskip(items, i), hi);
    if j < hi && (item_tok(items[j]).value == TokenView::BangEqual || item_tok(items[j]).value
        == TokenView::EqualEqual) {
        let op = item_tok(items[j]);
        lemma_b_comparison(items, j + 1);
        lemma_wf_comparison(items, j + 1);
        let b = sp_comparison(items, j + 1);
        if b.r is Ok {
            lemma_wf_eq_more(
                items,
                clamp(j + 1, b.next, hi),
                ExprView::Binary(Box::new(lhs), op, Box::new(b.r->Ok_0)),
            );
        }
    }
}

/// As [`lemma_wf_primary`], for `equality`.
pub proof fn lemma_wf_equality(items: Seq<LexItemView>, i: int)
    requires
        0 <= i <= items.len(),
    ensures
        match sp_equality(items, i).r {
            Ok(e) => crate::interpret::wf_expr(e),
            Err(_) => true,
        },
    decreases items.len() - i, 9int,
{
    reveal_with_fuel(sp_equality, 1);
    reveal_with_fuel(sp_comparison, 1);
    reveal_with_fuel(sp_eq_more, 1);
    lemma_b_comparison(items, i);
    lemma_wf_comparison(items, i);
    let hi = items.len() as int;
    let a = sp_comparison(items, i);
    if a.r is Ok {
        lemma_wf_eq_more(items, clamp(i, a.next, hi), a.r->Ok_0);
    }
}

/// As [`lemma_wf_primary`], for `expression`.
pub proof fn lemma_wf_expression(items: Seq<LexItemView>, i: int)
    requires
        0 <= i <= items.len(),
    ensures
        match sp_expression(items, i).r {
            Ok(e) => crate::interpret::wf_expr(e),
            Err(_) => true,
        },
    decreases items.len() - i, 10int,
{
    reveal_with_fuel(sp_expression, 1);
    reveal_with_fuel(sp_equality, 1);
    lemma_wf_equality(items, i);
}

/// As [`lemma_wf_primary`], for `print` statements.
pub proof fn lemma_wf_print_statement(items: Seq<LexItemView>, i: int)
    requires
        0 <= i <= items.len(),
    ensures
        match sp_print_statement(items, i).r {
            Ok(s) => crate::interpret::wf_stmt(s),
            Err(_) => true,
        },
    decreases items.len() - i, 11int,
{
    reveal_with_fuel(sp_print_statement, 1);
    reveal_with_fuel(sp_expression, 1);
    reveal_with_fuel(sp_terminator, 1);
    lemma_wf_expression(items, i);
}

/// As [`lemma_wf_primary`], for expression statements.
pub proof fn lemma_wf_expression_statement(items: Seq<LexItemView>, i: int)
    requires
        0 <= i <= items.len(),
    ensures
        match sp_expression_statement(items, i).r {
            Ok(s) => crate::interpret::wf_stmt(s),
            Err(_) => true,
        },
    decreases items.len() - i, 11int,
{
    reveal_with_fuel(sp_expression_statement, 1);
    reveal_with_fuel(sp_expression, 1);
    reveal_with_fuel(sp_terminator, 1);
    lemma_wf_expression(items, i);
}

/// As [`lemma_wf_primary`], for `var` declarations.
pub proof fn lemma_wf_var_statement(items: Seq<LexItemView>, i: int)
    requires
        0 <= i <= items.len(),
    ensures
        match sp_var_statement(items, i).r {
            Ok(s) => crate::interpret::wf_stmt(s),
            Err(_) => true,
        },
    decreases items.len() - i, 11int,
{
    reveal_with_fuel(sp_var_statement, 1);
    reveal_with_fuel(sp_expression, 1);
    reveal_with_fuel(sp_terminator, 1);
    lemma_sskip(items, i);
    let hi = items.len() as int;
    let j = clamp(i, sskip(items, i), hi);
    if j < hi && item_tok(items[j]).value is Identifier {
        lemma_sskip(items, j + 1);
        let k = clamp(j + 1, sskip(items, j + 1), hi);
        if k < hi && item_tok(items[k]).value == TokenView::Equal {
            lemma_wf_expression(items, k + 1);
        }
    }
}

/// Every statement the parser yields is one the evaluator accepts.
pub proof fn lemma_wf_statement(items: Seq<LexItemView>, i: int)
    requires
        0 <= i <= items.len(),
    ensures
        match sp_statement(items, i).r {
            Ok(s) => crate::interpret::wf_stmt(s),
            Err(_) => true,
        },
    decreases items.len() - i, 12int,
{
    reveal_with_fuel(sp_statement, 1);
    reveal_with_fuel(sp_print_statement, 1);
    reveal_with_fuel(sp_var_statement, 1);
    reveal_with_fuel(sp_expression_statement, 1);
    lemma_sskip(items, i);
    let hi = items.len() as int;
    let j = clamp(i, sskip(items, i), hi);
    if j < hi && item_tok(items[j]).value == TokenView::Print {
        lemma_wf_print_statement(items, j + 1);
    } else if j < hi && item_tok(items[j]).value == TokenView::Var {
        lemma_wf_var_statement(items, j + 1);
    } else {
        lemma_wf_expression_statement(items, j);
    }
}

/// Sequence concatenation is associative.
pub proof fn lemma_seq_assoc<T>(a: Seq<T>, b: Seq<T>, c: Seq<T>)
    ensures
        (a + b) + c =~= a + (b + c),
{
}

/// The view of one stream slot.
pub open spec fn one_item_view(it: LexItem) -> LexItemView {
    match it {
        Ok(t) => Ok(t@),
        Err(e) => Err(e@),
    }
}

/// The view of a whole stream.
pub open spec fn items_view(items: Seq<LexItem>) -> Seq<LexItemView> {
    items.map_values(|it: LexItem| one_item_view(it))
}

/// The view of a recorded error list.
pub open spec fn errors_view(errors: Seq<Located<Syntax>>) -> Seq<LocatedView<Syntax>> {
    errors.map_values(|e: Located<Syntax>| e@)
}

/// The view of a parse result for an expression.
pub open spec fn expr_result_view(r: Result<Expr, Located<Syntax>>) -> Result<
    ExprView,
    LocatedView<Syntax>,
> {
    match r {
        Ok(e) => Ok(e@),
        Err(x) => Err(x@),
    }
}

/// The view of a parse result for a statement.
pub open spec fn stmt_result_view(r: Result<Stmt, Located<Syntax>>) -> Result<
    StmtView,
    LocatedView<Syntax>,
> {
    match r {
        Ok(s) => Ok(s@),
        Err(x) => Err(x@),
    }
}

/// Clones a token; the copy has the same view.
fn clone_token(t: &Token) -> (r: Token)
    ensures
        r@ == t@,
{
    match t {
        Token::LeftParen => Token::LeftParen,
        Token::RightParen => Token::RightParen,
        Token::LeftBrace => Token::LeftBrace,
        Token::RightBrace => Token::RightBrace,
        Token::Comma => Token::Comma,
        Token::Dot => Token::Dot,
        Token::Minus => Token::Minus,
        Token::Plus => Token::Plus,
        Token::Semicolon => Token::Semicolon,
        Token::Slash => Token::Slash,
        Token::Star => Token::Star,
        Token::Bang => Token::Bang,
        Token::BangEqual => Token::BangEqual,
        Token::Equal => Token::Equal,
        Token::EqualEqual => Token::EqualEqual,
        Token::Greater => Token::Greater,
        Token::GreaterEqual => Token::GreaterEqual,
        Token::Less => Token::Less,
        Token::LessEqual => Token::LessEqual,
        Token::Str(s) => Token::Str(s.clone()),
        Token::Number(n) => Token::Number(*n),
        Token::Identifier(s) => Token::Identifier(s.clone()),
        Token::And => Token::And,
        Token::Class => Token::Class,
        Token::Else => Token::Else,
        Token::False => Token::False,
        Token::Fun => Token::Fun,
        Token::For => Token::For,
        Token::If => Token::If,
        Token::Nil => Token::Nil,
        Token::Or => Token::Or,
        Token::Print => Token::Print,
        Token::Return => Token::Return,
        Token::Super => Token::Super,
        Token::This => Token::This,
        Token::True => Token::True,
        Token::Var => Token::Var,
        Token::While => Token::While,
    }
}

/// Clones a located token; the copy has the same view.
fn clone_located_token(t: &Located<Token>) -> (r: Located<Token>)
    ensures
        r@ == t@,
{
    t.co_locate(clone_token(t.value()))
}

/// The parser: the scanned stream, a reading position in it, and the
/// syntax errors recorded so far — scanning errors skipped over and parse
/// errors alike, in the order they were met.
pub struct Parser {
    items: Vec<LexItem>,
    pos: usize,
    errors: Vec<Located<Syntax>>,
}

impl Parser {
    /// The stream being parsed.
    pub closed spec fn spec_items(&self) -> Seq<LexItemView> {
        items_view(self.items@)
    }

    /// The current position in the stream.
    pub closed spec fn spec_pos(&self) -> int {
        self.pos as int
    }

    /// The errors recorded so far.
    pub closed spec fn spec_errors(&self) -> Seq<LocatedView<Syntax>> {
        errors_view(self.errors@)
    }

    /// The position is inside the stream.
    pub closed spec fn wf(&self) -> bool {
        self.pos <= self.items@.len() && self.items@.len() < usize::MAX
    }

    /// Drains the scanner and stands ready at the first element: the
    /// stream is exactly everything the scanner yields.
    #[verifier::loop_isolation(false)]
    pub fn new(tokens: Lexer) -> (r: Self)
        requires
            tokens.wf(),
        ensures
            r.wf(),
            r.spec_pos() == 0,
            r.spec_errors() == Seq::<LocatedView<Syntax>>::empty(),
            r.spec_items() == lex_all(tokens.spec_chars(), tokens.spec_cursor()),
    {
        let ghost s = tokens.spec_chars();
        let ghost c0 = tokens.spec_cursor();
        proof {
            tokens.lemma_wf_bounds();
        }
        let mut tokens = tokens;
        let mut items: Vec<LexItem> = Vec::new();
        loop
            invariant
                tokens.wf(),
                tokens.spec_chars() == s,
                0 <= c0.i <= tokens.spec_cursor().i <= s.len(),
                s.len() < usize::MAX,
                items@.len() <= tokens.spec_cursor().i - c0.i,
                lex_all(s, c0) == items_view(items@) + lex_all(s, tokens.spec_cursor()),
            decreases s.len() - tokens.spec_cursor().i,
        {
            let ghost cur = tokens.spec_cursor();
            proof {
                crate::lex::lemma_lex_progress(s, cur);
            }
            match tokens.next() {
                None => {
                    proof {
                        assert(lex_all(s, cur) =~= Seq::<LexItemView>::empty());
                        assert(items_view(items@) + lex_all(s, cur) =~= items_view(items@));
                    }
                    let r = Parser { items, pos: 0, errors: Vec::new() };
                    proof {
                        assert(r.spec_errors() =~= Seq::<LocatedView<Syntax>>::empty());
                        assert(r.spec_items() =~= lex_all(s, c0));
                    }
                    return r;
                },
                Some(it) => {
                    let ghost itv = one_item_view(it);
                    let ghost before = items@;
                    items.push(it);
                    proof {
                        assert(items_view(items@) =~= items_view(before).push(itv));
                        assert(lex_all(s, cur) =~= seq![itv] + lex_all(s, tokens.spec_cursor()));
                        assert(items_view(items@) + lex_all(s, tokens.spec_cursor()) =~= lex_all(
                            s,
                            c0,
                        ));
                    }
                },
            }
        }
    }

    /// The syntax errors recorded so far, in order.
    pub fn errors(&self) -> (r: &Vec<Located<Syntax>>)
        ensures
            errors_view(r@) == self.spec_errors(),
    {
        &self.errors
    }

    /// Records one error.
    fn error(&mut self, error: Located<Syntax>)
        ensures
            final(self).spec_errors() == old(self).spec_errors().push(error@),
            final(self).spec_items() == old(self).spec_items(),
            final(self).spec_pos() == old(self).spec_pos(),
            final(self).wf() == old(self).wf(),
    {
        let ghost ev = error@;
        self.errors.push(error);
        proof {
            assert(self.spec_errors() =~= old(self).spec_errors().push(ev));
        }
    }

    /// Skips to the next token, recording the scanning errors passed
    /// over, and hands a copy of it back without consuming it; nothing at
    /// the end of the stream.
    #[verifier::loop_isolation(false)]
    fn peek_token(&mut self) -> (r: Option<Located<Token>>)
        requires
            old(self).wf(),
        ensures
            final(self).wf(),
            final(self).spec_items() == old(self).spec_items(),
            final(self).spec_pos() == sskip(old(self).spec_items(), old(self).spec_pos()),
            final(self).spec_errors() == old(self).spec_errors() + serrs(
                old(self).spec_items(),
                old(self).spec_pos(),
            ),
            ({
                let items = old(self).spec_items();
                let j = sskip(items, old(self).spec_pos());
                if j < items.len() {
                    r matches Some(t) && items[j] == Ok::<
                        LocatedView<TokenView>,
                        LocatedView<Syntax>,
                    >(t@)
                } else {
                    r is None
                }
            }),
    {
        let ghost items = self.spec_items();
        let ghost i0 = self.spec_pos();
        loop
            invariant
                self.wf(),
                self.spec_items() == items,
                i0 <= self.spec_pos() <= items.len(),
                sskip(items, i0) == sskip(items, self.spec_pos()),
                old(self).spec_errors() + serrs(items, i0) =~= self.spec_errors() + serrs(
                    items,
                    self.spec_pos(),
                ),
            decreases items.len() - self.spec_pos(),
        {
            if self.pos >= self.items.len() {
                proof {
                    assert(serrs(items, self.spec_pos()) =~= Seq::<LocatedView<Syntax>>::empty());
                    assert(self.spec_errors() =~= old(self).spec_errors() + serrs(items, i0));
                }
                return None;
            }
            let ghost cur = self.spec_pos();
            let ghost errs_before = self.spec_errors();
            match &self.items[self.pos] {
                Ok(t) => {
                    let c = clone_located_token(t);
                    proof {
                        assert(items[cur] == Ok::<LocatedView<TokenView>, LocatedView<Syntax>>(
                            c@,
                        ));
                        assert(serrs(items, cur) =~= Seq::<LocatedView<Syntax>>::empty());
                        assert(self.spec_errors() =~= old(self).spec_errors() + serrs(items, i0));
                    }
                    return Some(c);
                },
                Err(e) => {
                    let err = *e;
                    let ghost ev = err@;
                    proof {
                        assert(items[cur] is Err && items[cur]->Err_0 == ev);
                    }
                    self.errors.push(err);
                    self.pos = self.pos + 1;
                    proof {
                        assert(self.spec_errors() =~= errs_before.push(ev));
                        assert(serrs(items, cur) =~= seq![ev] + serrs(items, cur + 1));
                        assert(errs_before.push(ev) + serrs(items, cur + 1) =~= errs_before + serrs(
                            items,
                            cur,
                        ));
                        assert(old(self).spec_errors() + serrs(items, i0) =~= self.spec_errors()
                            + serrs(items, self.spec_pos()));
                    }
                },
            }
        }
    }

    /// `primary`: a literal, a variable, or a parenthesized expression,
    /// exactly as [`sp_primary`] says.
    #[verifier::rlimit(100)]
    #[verifier::spinoff_prover]
    fn primary(&mut self) -> (r: Result<Expr, Located<Syntax>>)
        requires
            old(self).wf(),
        ensures
            final(self).wf(),
            final(self).spec_items() == old(self).spec_items(),
            ({
                let res = sp_primary(old(self).spec_items(), old(self).spec_pos());
                &&& final(self).spec_pos() == res.next
                &&& final(self).spec_errors() == old(self).spec_errors() + res.errs
                &&& expr_result_view(r) == res.r
            }),
        decreases self.spec_items().len() - self.spec_pos(), 0int,
    {
        proof {
            reveal_with_fuel(sp_primary, 1);
            reveal_with_fuel(sp_expression, 1);
        }
        let ghost items = self.spec_items();
        let ghost i0 = self.spec_pos();
        proof {
            lemma_sskip(items, i0);
        }
        let pk = self.peek_token();
        let ghost j = self.spec_pos();
        match pk {
            None => Err(Located::at_eof(Syntax::ExpectedExpression)),
            Some(t) => {
                match t.value() {
                    Token::False => {
                        self.advance();
                        Ok(Expr::Literal(Literal::Boolean(false)))
                    },
                    Token::True => {
                        self.advance();
                        Ok(Expr::Literal(Literal::Boolean(true)))
                    },
                    Token::Nil => {
                        self.advance();
                        Ok(Expr::Literal(Literal::Nil))
                    },
                    Token::Number(n) => {
                        let nv = *n;
                        self.advance();
                        Ok(Expr::Literal(Literal::Number(nv)))
                    },
                    Token::Str(sx) => {
                        let sv = sx.clone();
                        self.advance();
                        Ok(Expr::Literal(Literal::Str(sv)))
                    },
                    Token::Identifier(nm) => {
                        let nv = nm.clone();
                        self.advance();
                        Ok(Expr::Variable(t.co_locate(nv)))
                    },
                    Token::LeftParen => {
                        self.advance();
                        let inner = self.expression();
                        proof {
                            lemma_b_expression(items, j + 1);
                        }
                        match inner {
                            Err(e) => {
                                proof {
                                    assert(self.spec_errors() =~= old(self).spec_errors() + (serrs(
                                        items,
                                        i0,
                                    ) + sp_expression(items, j + 1).errs));
                                }
                                Err(e)
                            },
                            Ok(body) => {
                                let ghost n2 = self.spec_pos();
                                proof {
                                    lemma_sskip(items, n2);
                                }
                                let pk2 = self.peek_token();
                                let ghost k = self.spec_pos();
                                proof {
                                    assert(self.spec_errors() =~= old(self).spec_errors() + ((serrs(
                                        items,
                                        i0,
                                    ) + sp_expression(items, j + 1).errs) + serrs(items, n2)));
                                }
                                match pk2 {
                                    None => Err(Located::at_eof(Syntax::UnclosedGrouping)),
                                    Some(t2) => {
                                        if matches!(t2.value(), Token::RightParen) {
                                            self.advance();
                                            Ok(Expr::Grouping(Box::new(body)))
                                        } else {
                                            Err(t2.co_locate(Syntax::UnclosedGrouping))
                                        }
                                    },
                                }
                            },
                        }
                    },
                    _ => Err(t.co_locate(Syntax::ExpectedExpression)),
                }
            },
        }
    }

    /// `unary`: a chain of `!`/`-` and then a `primary`, exactly as
    /// [`sp_unary`] says.
    #[verifier::rlimit(100)]
    fn unary(&mut self) -> (r: Result<Expr, Located<Syntax>>)
        requires
            old(self).wf(),
        ensures
            final(self).wf(),
            final(self).spec_items() == old(self).spec_items(),
            ({
                let res = sp_unary(old(self).spec_items(), old(self).spec_pos());
                &&& final(self).spec_pos() == res.next
                &&& final(self).spec_errors() == old(self).spec_errors() + res.errs
                &&& expr_result_view(r) == res.r
            }),
        decreases self.spec_items().len() - self.spec_pos(), 1int,
    {
        proof {
            reveal_with_fuel(sp_unary, 1);
            reveal_with_fuel(sp_primary, 1);
        }
        let ghost items = self.spec_items();
        let ghost i0 = self.spec_pos();
        proof {
            lemma_sskip(items, i0);
        }
        let pk = self.peek_token();
        let ghost j = self.spec_pos();
        match pk {
            Some(t) => {
                if matches!(t.value(), Token::Bang | Token::Minus) {
                    self.advance();
                    let inner = self.unary();
                    proof {
                        lemma_b_unary(items, j + 1);
                        assert(self.spec_errors() =~= old(self).spec_errors() + (serrs(items, i0)
                            + sp_unary(items, j + 1).errs));
                    }
                    match inner {
                        Err(e) => Err(e),
                        Ok(x) => Ok(Expr::Unary(t, Box::new(x))),
                    }
                } else {
                    let p = self.primary();
                    proof {
                        lemma_b_primary(items, j);
                        assert(self.spec_errors() =~= old(self).spec_errors() + (serrs(items, i0)
                            + sp_primary(items, j).errs));
                    }
                    p
                }
            },
            None => {
                let p = self.primary();
                proof {
                    lemma_b_primary(items, j);
                    assert(self.spec_errors() =~= old(self).spec_errors() + (serrs(items, i0)
                        + sp_primary(items, j).errs));
                }
                p
            },
        }
    }

    /// The tail of `factor`, exactly as [`sp_factor_more`] says.
    #[verifier::rlimit(100)]
    fn factor_more(&mut self, lhs: Expr) -> (r: Result<Expr, Located<Syntax>>)
        requires
            old(self).wf(),
        ensures
            final(self).wf(),
            final(self).spec_items() == old(self).spec_items(),
            ({
                let res = sp_factor_more(old(self).spec_items(), old(self).spec_pos(), lhs@);
                &&& final(self).spec_pos() == res.next
                &&& final(self).spec_errors() == old(self).spec_errors() + res.errs
                &&& expr_result_view(r) == res.r
            }),
        decreases self.spec_items().len() - self.spec_pos(), 2int,
    {
        proof {
            reveal_with_fuel(sp_factor_more, 1);
            reveal_with_fuel(sp_unary, 1);
        }
        let ghost items = self.spec_items();
        let ghost i0 = self.spec_pos();
        proof {
            lemma_sskip(items, i0);
        }
        let pk = self.peek_token();
        let ghost j = self.spec_pos();
        match pk {
            Some(t) => {
                if matches!(t.value(), Token::Slash | Token::Star) {
                    self.advance();
                    let b = self.unary();
                    proof {
                        lemma_b_unary(items, j + 1);
                    }
                    match b {
                        Err(e) => {
                            proof {
                                assert(self.spec_errors() =~= old(self).spec_errors() + (serrs(
                                    items,
                                    i0,
                                ) + sp_unary(items, j + 1).errs));
                            }
                            Err(e)
                        },
                        Ok(rhs) => {
                            let folded = Expr::Binary(Box::new(lhs), t, Box::new(rhs));
                            let ghost mid = self.spec_pos();
                            let m = self.factor_more(folded);
                            proof {
                                assert(self.spec_errors() =~= old(self).spec_errors()
                                    + sp_factor_more(items, i0, lhs@).errs);
                            }
                            m
                        },
                    }
                } else {
                    Ok(lhs)
                }
            },
            None => Ok(lhs),
        }
    }

    /// `factor`, exactly as [`sp_factor`] says.
    #[verifier::rlimit(100)]
    fn factor(&mut self) -> (r: Result<Expr, Located<Syntax>>)
        requires
            old(self).wf(),
        ensures
            final(self).wf(),
            final(self).spec_items() == old(self).spec_items(),
            ({
                let res = sp_factor(old(self).spec_items(), old(self).spec_pos());
                &&& final(self).spec_pos() == res.next
                &&& final(self).spec_errors() == old(self).spec_errors() + res.errs
                &&& expr_result_view(r) == res.r
            }),
        decreases self.spec_items().len() - self.spec_pos(), 3int,
    {
        proof {
            reveal_with_fuel(sp_factor, 1);
            reveal_with_fuel(sp_unary, 1);
            reveal_with_fuel(sp_factor_more, 1);
        }
        let ghost items = self.spec_items();
        let ghost i0 = self.spec_pos();
        let a = self.unary();
        proof {
            lemma_b_unary(items, i0);
        }
        match a {
            Err(e) => Err(e),
            Ok(lhs) => {
                let ghost mid = self.spec_pos();
                let m = self.factor_more(lhs);
                proof {
                    assert(self.spec_errors() =~= old(self).spec_errors() + (sp_unary(
                        items,
                        i0,
                    ).errs + sp_factor_more(items, mid, sp_unary(items, i0).r->Ok_0).errs));
                }
                m
            },
        }
    }

    /// The tail of `term`, exactly as [`sp_term_more`] says.
    #[verifier::rlimit(100)]
    #[verifier::spinoff_prover]
    fn term_more(&mut self, lhs: Expr) -> (r: Result<Expr, Located<Syntax>>)
        requires
            old(self).wf(),
        ensures
            final(self).wf(),
            final(self).spec_items() == old(self).spec_items(),
            ({
                let res = sp_term_more(old(self).spec_items(), old(self).spec_pos(), lhs@);
                &&& final(self).spec_pos() == res.next
                &&& final(self).spec_errors() == old(self).spec_errors() + res.errs
                &&& expr_result_view(r) == res.r
            }),
        decreases self.spec_items().len() - self.spec_pos(), 4int,
    {
        proof {
            reveal_with_fuel(sp_term_more, 1);
            reveal_with_fuel(sp_factor, 1);
        }
        let ghost items = self.spec_items();
        let ghost i0 = self.spec_pos();
        proof {
            lemma_sskip(items, i0);
        }
        let pk = self.peek_token();
        let ghost j = self.spec_pos();
        match pk {
            Some(t) => {
                if matches!(t.value(), Token::Minus | Token::Plus) {
                    self.advance();
                    let b = self.factor();
                    proof {
                        lemma_b_factor(items, j + 1);
                    }
                    match b {
                        Err(e) => {
                            proof {
                                assert(self.spec_errors() =~= old(self).spec_errors() + (serrs(
                                    items,
                                    i0,
                                ) + sp_factor(items, j + 1).errs));
                            }
                            Err(e)
                        },
                        Ok(rhs) => {
                            let folded = Expr::Binary(Box::new(lhs), t, Box::new(rhs));
                            let ghost mid = self.spec_pos();
                            let m = self.term_more(folded);
                            proof {
                                assert(self.spec_errors() =~= old(self).spec_errors()
                                    + sp_term_more(items, i0, lhs@).errs);
                            }
                            m
                        },
                    }
                } else {
                    Ok(lhs)
                }
            },
            None => Ok(lhs),
        }
    }

    /// `term`, exactly as [`sp_term`] says.
    #[verifier::rlimit(100)]
    fn term(&mut self) -> (r: Result<Expr, Located<Syntax>>)
        requires
            old(self).wf(),
        ensures
            final(self).wf(),
            final(self).spec_items() == old(self).spec_items(),
            ({
                let res = sp_term(old(self).spec_items(), old(self).spec_pos());
                &&& final(self).spec_pos() == res.next
                &&& final(self).spec_errors() == old(self).spec_errors() + res.errs
                &&& expr_result_view(r) == res.r
            }),
        decreases self.spec_items().len() - self.spec_pos(), 5int,
    {
        proof {
            reveal_with_fuel(sp_term, 1);
            reveal_with_fuel(sp_factor, 1);
            reveal_with_fuel(sp_term_more, 1);
        }
        let ghost items = self.spec_items();
        let ghost i0 = self.spec_pos();
        let a = self.factor();
        proof {
            lemma_b_factor(items, i0);
        }
        match a {
            Err(e) => Err(e),
            Ok(lhs) => {
                let ghost mid = self.spec_pos();
                let m = self.term_more(lhs);
                proof {
                    assert(self.spec_errors() =~= old(self).spec_errors() + (sp_factor(
                        items,
                        i0,
                    ).errs + sp_term_more(items, mid, sp_factor(items, i0).r->Ok_0).errs));
                }
                m
            },
        }
    }

    /// The tail of `comparison`, exactly as [`sp_cmp_more`] says.
    #[verifier::rlimit(100)]
    #[verifier::spinoff_prover]
    fn comparison_more(&mut self, lhs: Expr) -> (r: Result<Expr, Located<Syntax>>)
        requires
            old(self).wf(),
        ensures
            final(self).wf(),
            final(self).spec_items() == old(self).spec_items(),
            ({
                let res = sp_cmp_more(old(self).spec_items(), old(self).spec_pos(), lhs@);
                &&& final(self).spec_pos() == res.next
                &&& final(self).spec_errors() == old(self).spec_errors() + res.errs
                &&& expr_result_view(r) == res.r
            }),
        decreases self.spec_items().len() - self.spec_pos(), 6int,
    {
        proof {
            reveal_with_fuel(sp_cmp_more, 1);
            reveal_with_fuel(sp_term, 1);
        }
        let ghost items = self.spec_items();
        let ghost i0 = self.spec_pos();
        proof {
            lemma_sskip(items, i0);
        }
        let pk = self.peek_token();
        let ghost j = self.spec_pos();
        match pk {
            Some(t) => {
                if matches!(
                    t.value(),
                    Token::Greater | Token::GreaterEqual | Token::Less | Token::LessEqual
                ) {
                    self.advance();
                    let b = self.term();
                    proof {
                        lemma_b_term(items, j + 1);
                    }
                    match b {
                        Err(e) => {
                            proof {
                                assert(self.spec_errors() =~= old(self).spec_errors() + (serrs(
                                    items,
                                    i0,
                                ) + sp_term(items, j + 1).errs));
                            }
                            Err(e)
                        },
                        Ok(rhs) => {
                            let folded = Expr::Binary(Box::new(lhs), t, Box::new(rhs));
                            let ghost mid = self.spec_pos();
                            let m = self.comparison_more(folded);
                            proof {
                                assert(self.spec_errors() =~= old(self).spec_errors() + sp_cmp_more(
                                    items,
                                    i0,
                                    lhs@,
                                ).errs);
                            }
                            m
                        },
                    }
                } else {
                    Ok(lhs)
                }
            },
            None => Ok(lhs),
        }
    }

    /// `comparison`, exactly as [`sp_comparison`] says.
    #[verifier::rlimit(100)]
    #[verifier::spinoff_prover]
    fn comparison(&mut self) -> (r: Result<Expr, Located<Syntax>>)
        requires
            old(self).wf(),
        ensures
            final(self).wf(),
            final(self).spec_items() == old(self).spec_items(),
            ({
                let res = sp_comparison(old(self).spec_items(), old(self).spec_pos());
                &&& final(self).spec_pos() == res.next
                &&& final(self).spec_errors() == old(self).spec_errors() + res.errs
                &&& expr_result_view(r) == res.r
            }),
        decreases self.spec_items().len() - self.spec_pos(), 7int,
    {
        proof {
            reveal_with_fuel(sp_comparison, 1);
            reveal_with_fuel(sp_term, 1);
            reveal_with_fuel(sp_cmp_more, 1);
        }
        let ghost items = self.spec_items();
        let ghost i0 = self.spec_pos();
        let a = self.term();
        proof {
            lemma_b_term(items, i0);
        }
        match a {
            Err(e) => Err(e),
            Ok(lhs) => {
                let ghost mid = self.spec_pos();
                let m = self.comparison_more(lhs);
                proof {
                    assert(self.spec_errors() =~= old(self).spec_errors() + (sp_term(
                        items,
                        i0,
                    ).errs + sp_cmp_more(items, mid, sp_term(items, i0).r->Ok_0).errs));
                }
                m
            },
        }
    }

    /// The tail of `equality`, exactly as [`sp_eq_more`] says.
    #[verifier::rlimit(100)]
    #[verifier::spinoff_prover]
    fn equality_more(&mut self, lhs: Expr) -> (r: Result<Expr, Located<Syntax>>)
        requires
            old(self).wf(),
        ensures
            final(self).wf(),
            final(self).spec_items() == old(self).spec_items(),
            ({
                let res = sp_eq_more(old(self).spec_items(), old(self).spec_pos(), lhs@);
                &&& final(self).spec_pos() == res.next
                &&& final(self).spec_errors() == old(self).spec_errors() + res.errs
                &&& expr_result_view(r) == res.r
            }),
        decreases self.spec_items().len() - self.spec_pos(), 8int,
    {
        proof {
            reveal_with_fuel(sp_eq_more, 1);
            reveal_with_fuel(sp_comparison, 1);
        }
        let ghost items = self.spec_items();
        let ghost i0 = self.spec_pos();
        proof {
            lemma_sskip(items, i0);
        }
        let pk = self.peek_token();
        let ghost j = self.spec_pos();
        match pk {
            Some(t) => {
                if matches!(t.value(), Token::BangEqual | Token::EqualEqual) {
                    self.advance();
                    let b = self.comparison();
                    proof {
                        lemma_b_comparison(items, j + 1);
                    }
                    match b {
                        Err(e) => {
                            proof {
                                assert(self.spec_errors() =~= old(self).spec_errors() + (serrs(
                                    items,
                                    i0,
                                ) + sp_comparison(items, j + 1).errs));
                            }
                            Err(e)
                        },
                        Ok(rhs) => {
                            let folded = Expr::Binary(Box::new(lhs), t, Box::new(rhs));
                            let ghost mid = self.spec_pos();
                            let m = self.equality_more(folded);
                            proof {
                                assert(self.spec_errors() =~= old(self).spec_errors() + sp_eq_more(
                                    items,
                                    i0,
                                    lhs@,
                                ).errs);
                            }
                            m
                        },
                    }
                } else {
                    Ok(lhs)
                }
            },
            None => Ok(lhs),
        }
    }

    /// `equality`, exactly as [`sp_equality`] says.
    #[verifier::rlimit(100)]
    fn equality(&mut self) -> (r: Result<Expr, Located<Syntax>>)
        requires
            old(self).wf(),
        ensures
            final(self).wf(),
            final(self).spec_items() == old(self).spec_items(),
            ({
                let res = sp_equality(old(self).spec_items(), old(self).spec_pos());
                &&& final(self).spec_pos() == res.next
                &&& final(self).spec_errors() == old(self).spec_errors() + res.errs
                &&& expr_result_view(r) == res.r
            }),
        decreases self.spec_items().len() - self.spec_pos(), 9int,
    {
        let ghost items = self.spec_items();
        let ghost i0 = self.spec_pos();
        proof {
            assert(sp_equality(items, i0) == ({
                let aa = sp_comparison(items, i0);
                match aa.r {
                    Err(e) => aa,
                    Ok(lhs0) => {
                        let m = sp_eq_more(
                            items,
                            clamp(i0, aa.next, items.len() as int),
                            lhs0,
                        );
                        PRes { r: m.r, next: m.next, errs: aa.errs + m.errs }
                    },
                }
            })) by {
                reveal_with_fuel(sp_equality, 1);
                reveal_with_fuel(sp_comparison, 1);
                reveal_with_fuel(sp_eq_more, 1);
            };
        }
        let a = self.comparison();
        proof {
            lemma_b_comparison(items, i0);
        }
        match a {
            Err(e) => Err(e),
            Ok(lhs) => {
                let ghost mid = self.spec_pos();
                let m = self.equality_more(lhs);
                proof {
                    lemma_seq_assoc(
                        old(self).spec_errors(),
                        sp_comparison(items, i0).errs,
                        sp_eq_more(items, mid, sp_comparison(items, i0).r->Ok_0).errs,
                    );
                }
                m
            },
        }
    }

    /// `expression`, exactly as [`sp_expression`] says.
    fn expression(&mut self) -> (r: Result<Expr, Located<Syntax>>)
        requires
            old(self).wf(),
        ensures
            final(self).wf(),
            final(self).spec_items() == old(self).spec_items(),
            ({
                let res = sp_expression(old(self).spec_items(), old(self).spec_pos());
                &&& final(self).spec_pos() == res.next
                &&& final(self).spec_errors() == old(self).spec_errors() + res.errs
                &&& expr_result_view(r) == res.r
            }),
        decreases self.spec_items().len() - self.spec_pos(), 10int,
    {
        proof {
            reveal_with_fuel(sp_expression, 1);
            reveal_with_fuel(sp_equality, 1);
        }
        self.equality()
    }

    /// The trailing `;` of a statement, exactly as [`sp_terminator`]
    /// says.
    #[verifier::rlimit(100)]
    fn terminator(&mut self) -> (r: Result<(), Located<Syntax>>)
        requires
            old(self).wf(),
        ensures
            final(self).wf(),
            final(self).spec_items() == old(self).spec_items(),
            ({
                let res = sp_terminator(old(self).spec_items(), old(self).spec_pos());
                &&& final(self).spec_pos() == res.next
                &&& final(self).spec_errors() == old(self).spec_errors() + res.errs
                &&& (match r {
                    Ok(_) => res.r is Ok,
                    Err(e) => res.r == Err::<(), LocatedView<Syntax>>(e@),
                })
            }),
        decreases self.spec_items().len() - self.spec_pos(), 0int,
    {
        proof {
            reveal_with_fuel(sp_terminator, 1);
        }
        let ghost items = self.spec_items();
        let ghost i0 = self.spec_pos();
        proof {
            lemma_sskip(items, i0);
        }
        let pk = self.peek_token();
        match pk {
            None => Err(Located::at_eof(Syntax::UnterminatedExprStatement)),
            Some(t) => {
                if matches!(t.value(), Token::Semicolon) {
                    self.advance();
                    Ok(())
                } else {
                    Err(t.co_locate(Syntax::UnterminatedExprStatement))
                }
            },
        }
    }

    /// A `print` statement after its keyword, exactly as
    /// [`sp_print_statement`] says.
    #[verifier::rlimit(100)]
    fn print_statement(&mut self) -> (r: Result<Stmt, Located<Syntax>>)
        requires
            old(self).wf(),
        ensures
            final(self).wf(),
            final(self).spec_items() == old(self).spec_items(),
            ({
                let res = sp_print_statement(old(self).spec_items(), old(self).spec_pos());
                &&& final(self).spec_pos() == res.next
                &&& final(self).spec_errors() == old(self).spec_errors() + res.errs
                &&& stmt_result_view(r) == res.r
            }),
        decreases self.spec_items().len() - self.spec_pos(), 11int,
    {
        proof {
            reveal_with_fuel(sp_print_statement, 1);
            reveal_with_fuel(sp_expression, 1);
            reveal_with_fuel(sp_terminator, 1);
        }
        let ghost items = self.spec_items();
        let ghost i0 = self.spec_pos();
        let e = self.expression();
        proof {
            lemma_b_expression(items, i0);
        }
        match e {
            Err(er) => Err(er),
            Ok(body) => {
                let ghost mid = self.spec_pos();
                let tr = self.terminator();
                proof {
                    lemma_seq_assoc(
                        old(self).spec_errors(),
                        sp_expression(items, i0).errs,
                        sp_terminator(items, mid).errs,
                    );
                }
                match tr {
                    Err(er) => Err(er),
                    Ok(_) => Ok(Stmt::Print(body)),
                }
            },
        }
    }

    /// An expression statement, exactly as [`sp_expression_statement`]
    /// says.
    #[verifier::rlimit(100)]
    fn expression_statement(&mut self) -> (r: Result<Stmt, Located<Syntax>>)
        requires
            old(self).wf(),
        ensures
            final(self).wf(),
            final(self).spec_items() == old(self).spec_items(),
            ({
                let res = sp_expression_statement(old(self).spec_items(), old(self).spec_pos());
                &&& final(self).spec_pos() == res.next
                &&& final(self).spec_errors() == old(self).spec_errors() + res.errs
                &&& stmt_result_view(r) == res.r
            }),
        decreases self.spec_items().len() - self.spec_pos(), 11int,
    {
        proof {
            reveal_with_fuel(sp_expression_statement, 1);
            reveal_with_fuel(sp_expression, 1);
            reveal_with_fuel(sp_terminator, 1);
        }
        let ghost items = self.spec_items();
        let ghost i0 = self.spec_pos();
        let e = self.expression();
        proof {
            lemma_b_expression(items, i0);
        }
        match e {
            Err(er) => Err(er),
            Ok(body) => {
                let ghost mid = self.spec_pos();
                let tr = self.terminator();
                proof {
                    lemma_seq_assoc(
                        old(self).spec_errors(),
                        sp_expression(items, i0).errs,
                        sp_terminator(items, mid).errs,
                    );
                }
                match tr {
                    Err(er) => Err(er),
                    Ok(_) => Ok(Stmt::Expression(body)),
                }
            },
        }
    }

    /// A `var` declaration after its keyword, exactly as
    /// [`sp_var_statement`] says.
    #[verifier::rlimit(100)]
    #[verifier::spinoff_prover]
    fn var_statement(&mut self) -> (r: Result<Stmt, Located<Syntax>>)
        requires
            old(self).wf(),
        ensures
            final(self).wf(),
            final(self).spec_items() == old(self).spec_items(),
            ({
                let res = sp_var_statement(old(self).spec_items(), old(self).spec_pos());
                &&& final(self).spec_pos() == res.next
                &&& final(self).spec_errors() == old(self).spec_errors() + res.errs
                &&& stmt_result_view(r) == res.r
            }),
        decreases self.spec_items().len() - self.spec_pos(), 11int,
    {
        proof {
            reveal_with_fuel(sp_var_statement, 1);
            reveal_with_fuel(sp_expression, 1);
            reveal_with_fuel(sp_terminator, 1);
        }
        let ghost items = self.spec_items();
        let ghost i0 = self.spec_pos();
        proof {
            lemma_sskip(items, i0);
        }
        let pk = self.peek_token();
        let ghost j = self.spec_pos();
        match pk {
            None => Err(Located::at_eof(Syntax::ExpectedVariableName)),
            Some(t) => {
                match t.value() {
                    Token::Identifier(nm) => {
                        let name = t.co_locate(nm.clone());
                        self.advance();
                        proof {
                            lemma_sskip(items, j + 1);
                        }
                        let pk2 = self.peek_token();
                        let ghost k = self.spec_pos();
                        proof {
                            lemma_seq_assoc(
                                old(self).spec_errors(),
                                serrs(items, i0),
                                serrs(items, j + 1),
                            );
                        }
                        match pk2 {
                            None => Err(Located::at_eof(Syntax::InvalidAssignmentTarget)),
                            Some(t2) => {
                                if matches!(t2.value(), Token::Equal) {
                                    self.advance();
                                    let e = self.expression();
                                    proof {
                                        lemma_b_expression(items, k + 1);
                                        lemma_seq_assoc(
                                            old(self).spec_errors(),
                                            serrs(items, i0) + serrs(items, j + 1),
                                            sp_expression(items, k + 1).errs,
                                        );
                                    }
                                    match e {
                                        Err(er) => Err(er),
                                        Ok(body) => {
                                            let ghost mid = self.spec_pos();
                                            let tr = self.terminator();
                                            proof {
                                                lemma_seq_assoc(
                                                    old(self).spec_errors(),
                                                    (serrs(items, i0) + serrs(items, j + 1))
                                                        + sp_expression(items, k + 1).errs,
                                                    sp_terminator(items, mid).errs,
                                                );
                                            }
                                            match tr {
                                                Err(er) => Err(er),
                                                Ok(_) => Ok(Stmt::Var(name, body)),
                                            }
                                        },
                                    }
                                } else {
                                    Err(t2.co_locate(Syntax::InvalidAssignmentTarget))
                                }
                            },
                        }
                    },
                    _ => Err(t.co_locate(Syntax::ExpectedVariableName)),
                }
            },
        }
    }

    /// One statement of any form, exactly as [`sp_statement`] says.
    #[verifier::rlimit(100)]
    fn statement(&mut self) -> (r: Result<Stmt, Located<Syntax>>)
        requires
            old(self).wf(),
        ensures
            final(self).wf(),
            final(self).spec_items() == old(self).spec_items(),
            ({
                let res = sp_statement(old(self).spec_items(), old(self).spec_pos());
                &&& final(self).spec_pos() == res.next
                &&& final(self).spec_errors() == old(self).spec_errors() + res.errs
                &&& stmt_result_view(r) == res.r
            }),
        decreases self.spec_items().len() - self.spec_pos(), 12int,
    {
        proof {
            reveal_with_fuel(sp_statement, 1);
            reveal_with_fuel(sp_print_statement, 1);
            reveal_with_fuel(sp_var_statement, 1);
            reveal_with_fuel(sp_expression_statement, 1);
        }
        let ghost items = self.spec_items();
        let ghost i0 = self.spec_pos();
        proof {
            lemma_sskip(items, i0);
        }
        let pk = self.peek_token();
        let ghost j = self.spec_pos();
        match pk {
            Some(t) => {
                if matches!(t.value(), Token::Print) {
                    self.advance();
                    let p = self.print_statement();
                    proof {
                        lemma_b_print_statement(items, j + 1);
                        lemma_seq_assoc(
                            old(self).spec_errors(),
                            serrs(items, i0),
                            sp_print_statement(items, j + 1).errs,
                        );
                    }
                    p
                } else if matches!(t.value(), Token::Var) {
                    self.advance();
                    let p = self.var_statement();
                    proof {
                        lemma_b_var_statement(items, j + 1);
                        lemma_seq_assoc(
                            old(self).spec_errors(),
                            serrs(items, i0),
                            sp_var_statement(items, j + 1).errs,
                        );
                    }
                    p
                } else {
                    let p = self.expression_statement();
                    proof {
                        lemma_b_expression_statement(items, j);
                        lemma_seq_assoc(
                            old(self).spec_errors(),
                            serrs(items, i0),
                            sp_expression_statement(items, j).errs,
                        );
                    }
                    p
                }
            },
            None => {
                let p = self.expression_statement();
                proof {
                    lemma_b_expression_statement(items, j);
                    lemma_seq_assoc(
                        old(self).spec_errors(),
                        serrs(items, i0),
                        sp_expression_statement(items, j).errs,
                    );
                }
                p
            },
        }
    }

    /// Recovery after a parse error: discards tokens up to a safe
    /// statement boundary, exactly as [`sp_sync`] says.
    #[verifier::loop_isolation(false)]
    #[verifier::rlimit(100)]
    fn synchronyze(&mut self)
        requires
            old(self).wf(),
        ensures
            final(self).wf(),
            final(self).spec_items() == old(self).spec_items(),
            ({
                let res = sp_sync(old(self).spec_items(), old(self).spec_pos());
                &&& final(self).spec_pos() == res.next
                &&& final(self).spec_errors() == old(self).spec_errors() + res.errs
            }),
    {
        proof {
            reveal_with_fuel(sp_sync, 1);
        }
        let ghost items = self.spec_items();
        let ghost i0 = self.spec_pos();
        loop
            invariant
                self.wf(),
                self.spec_items() == items,
                0 <= i0 <= self.spec_pos() <= items.len(),
                sp_sync(items, i0).next == sp_sync(items, self.spec_pos()).next,
                old(self).spec_errors() + sp_sync(items, i0).errs =~= self.spec_errors() + sp_sync(
                    items,
                    self.spec_pos(),
                ).errs,
            decreases items.len() - self.spec_pos(),
        {
            let ghost cur = self.spec_pos();
            proof {
                lemma_sskip(items, cur);
            }
            let pk = self.peek_token();
            let ghost j = self.spec_pos();
            proof {
                assert(sp_sync(items, cur).next == sp_sync(items, j).next);
                assert(sp_sync(items, cur).errs =~= serrs(items, cur) + sp_sync(items, j).errs);
            }
            match pk {
                None => {
                    proof {
                        assert(sp_sync(items, j).errs =~= Seq::<LocatedView<Syntax>>::empty());
                        assert(self.spec_errors() =~= old(self).spec_errors() + sp_sync(
                            items,
                            i0,
                        ).errs);
                    }
                    return ;
                },
                Some(t) => {
                    if matches!(
                        t.value(),
                        Token::Class
                            | Token::Fun
                            | Token::Var
                            | Token::For
                            | Token::If
                            | Token::While
                            | Token::Print
                            | Token::Return
                    ) {
                        proof {
                            assert(sp_sync(items, j).errs =~= Seq::<LocatedView<Syntax>>::empty());
                            assert(self.spec_errors() =~= old(self).spec_errors() + sp_sync(
                                items,
                                i0,
                            ).errs);
                        }
                        return ;
                    } else if matches!(t.value(), Token::Semicolon) {
                        self.advance();
                        proof {
                            assert(sp_sync(items, j).errs =~= Seq::<LocatedView<Syntax>>::empty());
                            assert(self.spec_errors() =~= old(self).spec_errors() + sp_sync(
                                items,
                                i0,
                            ).errs);
                        }
                        return ;
                    } else {
                        self.advance();
                        proof {
                            assert(sp_sync(items, j).next == sp_sync(items, j + 1).next);
                            assert(sp_sync(items, j).errs =~= sp_sync(items, j + 1).errs);
                            assert(old(self).spec_errors() + sp_sync(items, i0).errs
                                =~= self.spec_errors() + sp_sync(items, self.spec_pos()).errs);
                        }
                    }
                },
            }
        }
    }

    /// One pull on the parser: the next statement, or nothing at the end
    /// of the stream, exactly as [`sp_next`] says. A failed statement is
    /// recorded, the stream synchronized, and parsing resumes.
    #[verifier::loop_isolation(false)]
    #[verifier::rlimit(100)]
    pub fn next(&mut self) -> (r: Option<Stmt>)
        requires
            old(self).wf(),
        ensures
            final(self).wf(),
            final(self).spec_items() == old(self).spec_items(),
            ({
                let res = sp_next(old(self).spec_items(), old(self).spec_pos());
                &&& final(self).spec_pos() == res.next
                &&& final(self).spec_errors() == old(self).spec_errors() + res.errs
                &&& (match r {
                    Some(s) => res.item == Some(s@) && crate::interpret::wf_stmt(s@),
                    None => res.item is None,
                })
            }),
    {
        proof {
            reveal_with_fuel(sp_next, 1);
        }
        let ghost items = self.spec_items();
        let ghost i0 = self.spec_pos();
        loop
            invariant
                self.wf(),
                self.spec_items() == items,
                0 <= i0 <= self.spec_pos() <= items.len(),
                sp_next(items, i0).item == sp_next(items, self.spec_pos()).item,
                sp_next(items, i0).next == sp_next(items, self.spec_pos()).next,
                old(self).spec_errors() + sp_next(items, i0).errs =~= self.spec_errors() + sp_next(
                    items,
                    self.spec_pos(),
                ).errs,
            decreases items.len() - self.spec_pos(),
        {
            let ghost cur = self.spec_pos();
            proof {
                lemma_sskip(items, cur);
            }
            let pk = self.peek_token();
            let mark = self.pos;
            let ghost j = self.spec_pos();
            proof {
                assert(sp_next(items, cur).item == sp_next(items, j).item);
                assert(sp_next(items, cur).next == sp_next(items, j).next);
                assert(sp_next(items, cur).errs =~= serrs(items, cur) + sp_next(items, j).errs);
            }
            match pk {
                None => {
                    proof {
                        assert(sp_next(items, j).errs =~= Seq::<LocatedView<Syntax>>::empty());
                        assert(self.spec_errors() =~= old(self).spec_errors() + sp_next(
                            items,
                            i0,
                        ).errs);
                    }
                    return None;
                },
                Some(_) => {
                    let st = self.statement();
                    proof {
                        lemma_b_statement(items, j);
                    }
                    match st {
                        Ok(s) => {
                            proof {
                                lemma_wf_statement(items, j);
                                assert(sp_next(items, j).errs =~= sp_statement(items, j).errs);
                                assert(self.spec_errors() =~= old(self).spec_errors() + sp_next(
                                    items,
                                    i0,
                                ).errs);
                            }
                            return Some(s);
                        },
                        Err(e) => {
                            let ghost ev = e@;
                            self.error(e);
                            let ghost after_st = self.spec_pos();
                            self.synchronyze();
                            proof {
                                lemma_b_sync(items, after_st);
                            }
                            if self.pos <= mark {
                                self.pos = mark + 1;
                            }
                            proof {
                                let sy = sp_sync(items, after_st);
                                let k = clamp(j + 1, sy.next, items.len() as int);
                                assert(self.spec_pos() == k);
                                assert(sp_next(items, j).item == sp_next(items, k).item);
                                assert(sp_next(items, j).next == sp_next(items, k).next);
                                assert(sp_next(items, j).errs =~= (sp_statement(items, j).errs
                                    + seq![ev] + sy.errs) + sp_next(items, k).errs);
                                assert(old(self).spec_errors() + sp_next(items, i0).errs
                                    =~= self.spec_errors() + sp_next(items, self.spec_pos()).errs);
                            }
                        },
                    }
                },
            }
        }
    }

    /// Consumes the token standing at the cursor.

    fn advance(&mut self)
        requires
            old(self).wf(),
            old(self).spec_pos() < old(self).spec_items().len(),
        ensures
            final(self).wf(),
            final(self).spec_items() == old(self).spec_items(),
            final(self).spec_pos() == old(self).spec_pos() + 1,
            final(self).spec_errors() == old(self).spec_errors(),
    {
        self.pos = self.pos + 1;
    }
}


} // verus!


