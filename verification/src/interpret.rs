//! Tree-walking evaluation over the variable environment.
//!
//! The evaluator's behaviour is specified by [`spec_eval`] and
//! [`spec_execute`]; [`Interpreter::evaluate`] and
//! [`Interpreter::execute`] are proved to compute exactly those.
use vstd::prelude::*;

pub mod environment;

use crate::error::{Runtime, RuntimeView};
use crate::lex::token::{Token, TokenView};
use crate::number::{add_bits, cmp_bits, div_bits, mul_bits, neg_bits, number_add, number_cmp,
    number_div, number_mul, number_neg, number_render, number_sub, render_bits, sub_bits};
use crate::parse::expr::{Expr, ExprView, Literal, LiteralView};
use crate::parse::stmt::{Stmt, StmtView};
use crate::{Located, LocatedView};
use environment::Environment;
use vstd::pervasive::unreached;
use vstd::string::StringExecFns;

verus! {

/// The variable bindings the evaluator runs against.
pub type Bindings = Map<Seq<char>, LiteralView>;

/// Truthiness: `Nil` is false, a boolean is itself, and every other
/// value — any number and any string — is true.
pub open spec fn truthy(v: LiteralView) -> bool {
    match v {
        LiteralView::Nil => false,
        LiteralView::Boolean(b) => b,
        _ => true,
    }
}

/// Equality by value: `Nil` equals only `Nil`, same-kind values compare
/// their payloads (numbers by IEEE-754 equality), and values of different
/// kinds are unequal — never an error.
pub open spec fn spec_equal(a: LiteralView, b: LiteralView) -> bool {
    match (a, b) {
        (LiteralView::Nil, LiteralView::Nil) => true,
        (LiteralView::Boolean(x), LiteralView::Boolean(y)) => x == y,
        (LiteralView::Number(x), LiteralView::Number(y)) => cmp_bits(x, y) == Some(0i8),
        (LiteralView::Str(x), LiteralView::Str(y)) => x == y,
        _ => false,
    }
}

/// A token that may stand as a binary operator in a parsed tree.
pub open spec fn is_binary_op(t: TokenView) -> bool {
    ||| t == TokenView::Greater
    ||| t == TokenView::GreaterEqual
    ||| t == TokenView::Less
    ||| t == TokenView::LessEqual
    ||| t == TokenView::Minus
    ||| t == TokenView::Plus
    ||| t == TokenView::Slash
    ||| t == TokenView::Star
    ||| t == TokenView::BangEqual
    ||| t == TokenView::EqualEqual
}

/// A tree the parser can produce: every unary node carries `-` or `!`,
/// and every binary node one of the ten binary operators.
pub open spec fn wf_expr(e: ExprView) -> bool
    decreases e,
{
    match e {
        ExprView::Binary(l, op, r) => wf_expr(*l) && is_binary_op(op.value) && wf_expr(*r),
        ExprView::Grouping(inner) => wf_expr(*inner),
        ExprView::Literal(_) => true,
        ExprView::Unary(op, inner) => (op.value == TokenView::Minus || op.value
            == TokenView::Bang) && wf_expr(*inner),
        ExprView::Variable(_) => true,
    }
}

/// A statement the parser can produce.
pub open spec fn wf_stmt(st: StmtView) -> bool {
    match st {
        StmtView::Expression(e) => wf_expr(e),
        StmtView::Print(e) => wf_expr(e),
        StmtView::Var(_, e) => wf_expr(e),
    }
}

/// Decides whether an expression tree is one the parser can produce;
/// the host checks this before asking for evaluation.
pub fn wf_expr_check(e: &Expr) -> (r: bool)
    ensures
        r == wf_expr(e@),
    decreases *e,
{
    match e {
        Expr::Binary(l, op, r2) => {
            let op_ok = matches!(
                op.value(),
                Token::Greater
                    | Token::GreaterEqual
                    | Token::Less
                    | Token::LessEqual
                    | Token::Minus
                    | Token::Plus
                    | Token::Slash
                    | Token::Star
                    | Token::BangEqual
                    | Token::EqualEqual
            );
            op_ok && wf_expr_check(l) && wf_expr_check(r2)
        },
        Expr::Grouping(inner) => wf_expr_check(inner),
        Expr::Literal(_) => true,
        Expr::Unary(op, inner) => {
            matches!(op.value(), Token::Minus | Token::Bang) && wf_expr_check(inner)
        },
        Expr::Variable(_) => true,
    }
}

/// Decides whether a statement is one the parser can produce.
pub fn wf_stmt_check(st: &Stmt) -> (r: bool)
    ensures
        r == wf_stmt(st@),
{
    match st {
        Stmt::Expression(e) => wf_expr_check(e),
        Stmt::Print(e) => wf_expr_check(e),
        Stmt::Var(_, e) => wf_expr_check(e),
    }
}

/// What a binary operator yields on two already-evaluated operands, or
/// the runtime error it fails with at position `pos`.
pub open spec fn spec_binary(
    op: TokenView,
    pos: crate::Position,
    a: LiteralView,
    b: LiteralView,
) -> Result<LiteralView, LocatedView<RuntimeView>> {
    if op == TokenView::BangEqual {
        Ok(LiteralView::Boolean(!spec_equal(a, b)))
    } else if op == TokenView::EqualEqual {
        Ok(LiteralView::Boolean(spec_equal(a, b)))
    } else if op == TokenView::Plus {
        match (a, b) {
            (LiteralView::Number(x), LiteralView::Number(y)) => Ok(
                LiteralView::Number(add_bits(x, y)),
            ),
            (LiteralView::Str(x), LiteralView::Str(y)) => Ok(LiteralView::Str(x + y)),
            _ => Err(LocatedView { pos, value: RuntimeView::ExpectedNumbersOrStrings }),
        }
    } else {
        match (a, b) {
            (LiteralView::Number(x), LiteralView::Number(y)) => {
                if op == TokenView::Greater {
                    Ok(LiteralView::Boolean(cmp_bits(x, y) == Some(1i8)))
                } else if op == TokenView::GreaterEqual {
                    Ok(LiteralView::Boolean(cmp_bits(x, y) == Some(1i8) || cmp_bits(x, y) == Some(0i8)))
                } else if op == TokenView::Less {
                    Ok(LiteralView::Boolean(cmp_bits(x, y) == Some((-1) as i8)))
                } else if op == TokenView::LessEqual {
                    Ok(LiteralView::Boolean(cmp_bits(x, y) == Some((-1) as i8) || cmp_bits(x, y) == Some(0i8)))
                } else if op == TokenView::Minus {
                    Ok(LiteralView::Number(sub_bits(x, y)))
                } else if op == TokenView::Slash {
                    Ok(LiteralView::Number(div_bits(x, y)))
                } else {
                    Ok(LiteralView::Number(mul_bits(x, y)))
                }
            },
            _ => Err(LocatedView { pos, value: RuntimeView::ExpectedNumbers }),
        }
    }
}

/// Evaluation of an expression against the given bindings: the value it
/// denotes, or the first runtime error met, located. Literals are
/// themselves; grouping is transparent; unary `-` negates a number and
/// rejects anything else; unary `!` negates truthiness; binary operators
/// evaluate left then right and dispatch on the operand kinds; a variable
/// is looked up by name.
pub open spec fn spec_eval(env: Bindings, e: ExprView) -> Result<
    LiteralView,
    LocatedView<RuntimeView>,
>
    decreases e,
{
    match e {
        ExprView::Literal(l) => Ok(l),
        ExprView::Grouping(inner) => spec_eval(env, *inner),
        ExprView::Unary(op, inner) => match spec_eval(env, *inner) {
            Err(er) => Err(er),
            Ok(v) => {
                if op.value == TokenView::Minus {
                    match v {
                        LiteralView::Number(n) => Ok(LiteralView::Number(neg_bits(n))),
                        _ => Err(LocatedView { pos: op.pos, value: RuntimeView::ExpectedNumbers }),
                    }
                } else {
                    Ok(LiteralView::Boolean(!truthy(v)))
                }
            },
        },
        ExprView::Binary(l, op, r) => match spec_eval(env, *l) {
            Err(er) => Err(er),
            Ok(a) => match spec_eval(env, *r) {
                Err(er) => Err(er),
                Ok(b) => spec_binary(op.value, op.pos, a, b),
            },
        },
        ExprView::Variable(name) => {
            if env.contains_key(name.value) {
                Ok(env[name.value])
            } else {
                Err(LocatedView { pos: name.pos, value: RuntimeView::UndefinedVariable(name.value) })
            }
        },
    }
}

/// The printed form of a value: booleans as `true`/`false`, a number by
/// its decimal rendering, a string verbatim, and `Nil` as `null`.
pub open spec fn spec_render_literal(v: LiteralView) -> Seq<char> {
    match v {
        LiteralView::Boolean(b) => if b {
            "true"@
        } else {
            "false"@
        },
        LiteralView::Number(n) => render_bits(n),
        LiteralView::Str(s) => s,
        LiteralView::Nil => "null"@,
    }
}

/// What executing one statement does to the bindings and the printed
/// output, or the runtime error that aborts it: an expression statement
/// evaluates and discards; `print` evaluates and appends one output line;
/// `var` evaluates the initializer and binds the name, overwriting any
/// earlier binding.
pub open spec fn spec_execute(env: Bindings, out: Seq<Seq<char>>, st: StmtView) -> Result<
    (Bindings, Seq<Seq<char>>),
    LocatedView<RuntimeView>,
> {
    match st {
        StmtView::Expression(e) => match spec_eval(env, e) {
            Ok(_) => Ok((env, out)),
            Err(er) => Err(er),
        },
        StmtView::Print(e) => match spec_eval(env, e) {
            Ok(v) => Ok((env, out.push(spec_render_literal(v)))),
            Err(er) => Err(er),
        },
        StmtView::Var(name, e) => match spec_eval(env, e) {
            Ok(v) => Ok((env.insert(name.value, v), out)),
            Err(er) => Err(er),
        },
    }
}

/// The view of an evaluation result.
pub open spec fn eval_result_view(r: Result<Literal, Located<Runtime>>) -> Result<
    LiteralView,
    LocatedView<RuntimeView>,
> {
    match r {
        Ok(l) => Ok(l@),
        Err(e) => Err(e@),
    }
}

/// Renders a value for printing.
pub fn render_literal(l: &Literal) -> (r: String)
    ensures
        r@ == spec_render_literal(l@),
{
    match l {
        Literal::Boolean(b) => {
            if *b {
                "true".to_owned()
            } else {
                "false".to_owned()
            }
        },
        Literal::Number(n) => number_render(*n),
        Literal::Str(s) => s.clone(),
        Literal::Nil => "null".to_owned(),
    }
}

/// The evaluator: owns the variable environment and the output produced
/// so far.
pub struct Interpreter {
    environment: Environment,
    output: Vec<String>,
}

impl Interpreter {
    /// The current variable bindings.
    pub closed spec fn spec_env(&self) -> Bindings {
        self.environment@
    }

    /// The lines printed so far, in order.
    pub closed spec fn spec_output(&self) -> Seq<Seq<char>> {
        self.output@.map_values(|s: String| s@)
    }

    /// A fresh evaluator: no bindings, no output.
    pub fn new() -> (r: Self)
        ensures
            r.spec_env() == Map::<Seq<char>, LiteralView>::empty(),
            r.spec_output() == Seq::<Seq<char>>::empty(),
    {
        let r = Self { environment: Environment::new(), output: Vec::new() };
        proof {
            assert(r.spec_output() =~= Seq::<Seq<char>>::empty());
        }
        r
    }

    /// The lines printed so far, in order.
    pub fn output(&self) -> (r: &Vec<String>)
        ensures
            r@.map_values(|s: String| s@) == self.spec_output(),
    {
        &self.output
    }

    /// Evaluates an expression against the current bindings: exactly what
    /// [`spec_eval`] says it denotes.
    pub fn evaluate(&self, expr: &Expr) -> (r: Result<Literal, Located<Runtime>>)
        requires
            wf_expr(expr@),
        ensures
            eval_result_view(r) == spec_eval(self.spec_env(), expr@),
        decreases *expr,
    {
        match expr {
            Expr::Literal(l) => Ok(crate::parse::expr::clone_literal(l)),
            Expr::Grouping(inner) => self.evaluate(inner),
            Expr::Unary(op, inner) => {
                let right = self.evaluate(inner)?;
                match op.value() {
                    Token::Minus => {
                        match right {
                            Literal::Number(n) => Ok(Literal::Number(number_neg(n))),
                            _ => Err(op.co_locate(Runtime::ExpectedNumbers)),
                        }
                    },
                    Token::Bang => {
                        let t = match right {
                            Literal::Nil => false,
                            Literal::Boolean(b) => b,
                            _ => true,
                        };
                        Ok(Literal::Boolean(!t))
                    },
                    _ => unreached(),
                }
            },
            Expr::Binary(l, op, r) => {
                let left = self.evaluate(l)?;
                let right = self.evaluate(r)?;
                match op.value() {
                    Token::BangEqual => Ok(Literal::Boolean(!equal_literal(&left, &right))),
                    Token::EqualEqual => Ok(Literal::Boolean(equal_literal(&left, &right))),
                    Token::Plus => {
                        match (left, right) {
                            (Literal::Number(a), Literal::Number(b)) => Ok(
                                Literal::Number(number_add(a, b)),
                            ),
                            (Literal::Str(a), Literal::Str(b)) => Ok(
                                Literal::Str(a.concat(b.as_str())),
                            ),
                            _ => Err(op.co_locate(Runtime::ExpectedNumbersOrStrings)),
                        }
                    },
                    Token::Greater => {
                        match (left, right) {
                            (Literal::Number(a), Literal::Number(b)) => {
                                let c = number_cmp(a, b);
                                let gt = match c {
                                    Some(v) => v == 1,
                                    None => false,
                                };
                                Ok(Literal::Boolean(gt))
                            },
                            _ => Err(op.co_locate(Runtime::ExpectedNumbers)),
                        }
                    },
                    Token::GreaterEqual => {
                        match (left, right) {
                            (Literal::Number(a), Literal::Number(b)) => {
                                let c = number_cmp(a, b);
                                let ge = match c {
                                    Some(v) => v == 1 || v == 0,
                                    None => false,
                                };
                                Ok(Literal::Boolean(ge))
                            },
                            _ => Err(op.co_locate(Runtime::ExpectedNumbers)),
                        }
                    },
                    Token::Less => {
                        match (left, right) {
                            (Literal::Number(a), Literal::Number(b)) => {
                                let c = number_cmp(a, b);
                                let lt = match c {
                                    Some(v) => v == -1,
                                    None => false,
                                };
                                Ok(Literal::Boolean(lt))
                            },
                            _ => Err(op.co_locate(Runtime::ExpectedNumbers)),
                        }
                    },
                    Token::LessEqual => {
                        match (left, right) {
                            (Literal::Number(a), Literal::Number(b)) => {
                                let c = number_cmp(a, b);
                                let le = match c {
                                    Some(v) => v == -1 || v == 0,
                                    None => false,
                                };
                                Ok(Literal::Boolean(le))
                            },
                            _ => Err(op.co_locate(Runtime::ExpectedNumbers)),
                        }
                    },
                    Token::Minus => {
                        match (left, right) {
                            (Literal::Number(a), Literal::Number(b)) => Ok(
                                Literal::Number(number_sub(a, b)),
                            ),
                            _ => Err(op.co_locate(Runtime::ExpectedNumbers)),
                        }
                    },
                    Token::Slash => {
                        match (left, right) {
                            (Literal::Number(a), Literal::Number(b)) => Ok(
                                Literal::Number(number_div(a, b)),
                            ),
                            _ => Err(op.co_locate(Runtime::ExpectedNumbers)),
                        }
                    },
                    Token::Star => {
                        match (left, right) {
                            (Literal::Number(a), Literal::Number(b)) => Ok(
                                Literal::Number(number_mul(a, b)),
                            ),
                            _ => Err(op.co_locate(Runtime::ExpectedNumbers)),
                        }
                    },
                    _ => unreached(),
                }
            },
            Expr::Variable(name) => self.environment.get(clone_located_name(name)),
        }
    }

    /// Executes one statement: exactly the state change and output
    /// [`spec_execute`] says, or its runtime error with the state
    /// unchanged.
    pub fn execute(&mut self, stmt: Stmt) -> (r: Result<(), Located<Runtime>>)
        requires
            wf_stmt(stmt@),
        ensures
            ({
                let outcome = spec_execute(old(self).spec_env(), old(self).spec_output(), stmt@);
                let env2 = final(self).spec_env();
                let out2 = final(self).spec_output();
                match outcome {
                    Ok(next) => r is Ok && env2 == next.0 && out2 == next.1,
                    Err(er) => (r matches Err(x) && x@ == er) && env2 == old(self).spec_env()
                        && out2 == old(self).spec_output(),
                }
            }),
    {
        match stmt {
            Stmt::Print(e) => {
                match self.evaluate(&e) {
                    Ok(v) => {
                        let line = render_literal(&v);
                        let ghost lv = line@;
                        self.output.push(line);
                        proof {
                            assert(self.spec_output() =~= old(self).spec_output().push(lv));
                        }
                        Ok(())
                    },
                    Err(er) => Err(er),
                }
            },
            Stmt::Expression(e) => {
                match self.evaluate(&e) {
                    Ok(_) => Ok(()),
                    Err(er) => Err(er),
                }
            },
            Stmt::Var(name, init) => {
                match self.evaluate(&init) {
                    Ok(v) => {
                        self.environment.define(name.value().clone(), v);
                        Ok(())
                    },
                    Err(er) => Err(er),
                }
            },
        }
    }
}

/// Logical not follows truthiness, and numbers are never falsy: `!nil`
/// evaluates to `true`, and `!n` evaluates to `false` for every number
/// `n`, zero included.
pub proof fn lemma_bang_truthiness(env: Bindings, op: LocatedView<TokenView>, n: u64)
    requires
        op.value == TokenView::Bang,
    ensures
        spec_eval(env, ExprView::Unary(op, Box::new(ExprView::Literal(LiteralView::Nil)))) == Ok::<
            LiteralView,
            LocatedView<RuntimeView>,
        >(LiteralView::Boolean(true)),
        spec_eval(env, ExprView::Unary(op, Box::new(ExprView::Literal(LiteralView::Number(n)))))
            == Ok::<LiteralView, LocatedView<RuntimeView>>(LiteralView::Boolean(false)),
{
    assert(spec_eval(env, ExprView::Literal(LiteralView::Nil)) == Ok::<
        LiteralView,
        LocatedView<RuntimeView>,
    >(LiteralView::Nil));
    assert(spec_eval(env, ExprView::Literal(LiteralView::Number(n))) == Ok::<
        LiteralView,
        LocatedView<RuntimeView>,
    >(LiteralView::Number(n)));
}

/// Equality is heterogeneous-safe: whenever both operands evaluate, an
/// `==` comparison evaluates to a boolean and never to an error; `nil`
/// equals only `nil`, and values of different kinds are simply unequal.
pub proof fn lemma_equality_heterogeneous(
    env: Bindings,
    l: ExprView,
    op: LocatedView<TokenView>,
    r: ExprView,
    a: LiteralView,
    b: LiteralView,
)
    requires
        op.value == TokenView::EqualEqual,
        spec_eval(env, l) == Ok::<LiteralView, LocatedView<RuntimeView>>(a),
        spec_eval(env, r) == Ok::<LiteralView, LocatedView<RuntimeView>>(b),
    ensures
        spec_eval(env, ExprView::Binary(Box::new(l), op, Box::new(r))) == Ok::<
            LiteralView,
            LocatedView<RuntimeView>,
        >(LiteralView::Boolean(spec_equal(a, b))),
        spec_equal(LiteralView::Nil, LiteralView::Nil),
        a is Nil && !(b is Nil) ==> !spec_equal(a, b),
        a is Number && b is Str ==> !spec_equal(a, b),
        a is Number && b is Boolean ==> !spec_equal(a, b),
        a is Str && b is Boolean ==> !spec_equal(a, b),
{
    assert(spec_eval(env, ExprView::Binary(Box::new(l), op, Box::new(r))) == spec_binary(
        op.value,
        op.pos,
        a,
        b,
    ));
}

/// `+` concatenates two strings; a string and a number do not add, and
/// fail with `ExpectedNumbersOrStrings` at the operator's position.
pub proof fn lemma_plus_strings(
    env: Bindings,
    op: LocatedView<TokenView>,
    x: Seq<char>,
    y: Seq<char>,
    n: u64,
)
    requires
        op.value == TokenView::Plus,
    ensures
        spec_eval(
            env,
            ExprView::Binary(
                Box::new(ExprView::Literal(LiteralView::Str(x))),
                op,
                Box::new(ExprView::Literal(LiteralView::Str(y))),
            ),
        ) == Ok::<LiteralView, LocatedView<RuntimeView>>(LiteralView::Str(x + y)),
        spec_eval(
            env,
            ExprView::Binary(
                Box::new(ExprView::Literal(LiteralView::Str(x))),
                op,
                Box::new(ExprView::Literal(LiteralView::Number(n))),
            ),
        ) == Err::<LiteralView, LocatedView<RuntimeView>>(
            LocatedView { pos: op.pos, value: RuntimeView::ExpectedNumbersOrStrings },
        ),
{
    assert(spec_eval(env, ExprView::Literal(LiteralView::Str(x))) == Ok::<
        LiteralView,
        LocatedView<RuntimeView>,
    >(LiteralView::Str(x)));
    assert(spec_eval(env, ExprView::Literal(LiteralView::Str(y))) == Ok::<
        LiteralView,
        LocatedView<RuntimeView>,
    >(LiteralView::Str(y)));
    assert(spec_eval(env, ExprView::Literal(LiteralView::Number(n))) == Ok::<
        LiteralView,
        LocatedView<RuntimeView>,
    >(LiteralView::Number(n)));
}

/// A variable is exactly its binding: with no binding for the name the
/// lookup fails with `UndefinedVariable` carrying that name, at the
/// variable's own position; with one, it yields the bound value.
pub proof fn lemma_variable_lookup(env: Bindings, name: LocatedView<Seq<char>>)
    ensures
        !env.contains_key(name.value) ==> spec_eval(env, ExprView::Variable(name)) == Err::<
            LiteralView,
            LocatedView<RuntimeView>,
        >(LocatedView { pos: name.pos, value: RuntimeView::UndefinedVariable(name.value) }),
        env.contains_key(name.value) ==> spec_eval(env, ExprView::Variable(name)) == Ok::<
            LiteralView,
            LocatedView<RuntimeView>,
        >(env[name.value]),
{
}

/// Compares two values as `==` does; never fails.
fn equal_literal(a: &Literal, b: &Literal) -> (r: bool)
    ensures
        r == spec_equal(a@, b@),
{
    match (a, b) {
        (Literal::Nil, Literal::Nil) => true,
        (Literal::Boolean(x), Literal::Boolean(y)) => *x == *y,
        (Literal::Number(x), Literal::Number(y)) => {
            let c = number_cmp(*x, *y);
            match c {
                Some(v) => v == 0,
                None => false,
            }
        },
        (Literal::Str(x), Literal::Str(y)) => *x == *y,
        _ => false,
    }
}

/// Clones a located variable name; the copy has the same view.
fn clone_located_name(n: &Located<String>) -> (r: Located<String>)
    ensures
        r.spec_pos() == n.spec_pos(),
        r.spec_value()@ == n.spec_value()@,
{
    n.co_locate(n.value().clone())
}

} // verus!
