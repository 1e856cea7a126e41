use lox_core::error::Runtime;
use lox_core::interpret::Interpreter;
use lox_core::lex::token::Token;
use lox_core::parse::expr::{Expr, Literal};
use lox_core::parse::stmt::Stmt;
use lox_core::Located;

fn num(v: f64) -> Expr {
    Expr::Literal(Literal::Number(v.to_bits()))
}

fn op(t: Token) -> Located<Token> {
    Located::at_coords(1, 1, t)
}

fn eval(e: &Expr) -> Literal {
    Interpreter::new().evaluate(e).unwrap()
}

#[test]
fn left_associative_subtraction() {
    // 1 - 2 - 3 groups as (1 - 2) - 3 and is -4, not 2
    let left = Expr::Binary(Box::new(num(1.0)), op(Token::Minus), Box::new(num(2.0)));
    let e = Expr::Binary(Box::new(left), op(Token::Minus), Box::new(num(3.0)));
    if let Literal::Number(n) = eval(&e) {
        assert_eq!(-4.0, f64::from_bits(n));
    } else {
        panic!()
    }
}

#[test]
fn bang_nil_is_true() {
    let e = Expr::Unary(op(Token::Bang), Box::new(Expr::Literal(Literal::Nil)));
    assert!(matches!(eval(&e), Literal::Boolean(true)));
}

#[test]
fn bang_zero_is_false() {
    // Number(0) is truthy, so !0 is false: numbers are never falsy
    let e = Expr::Unary(op(Token::Bang), Box::new(num(0.0)));
    assert!(matches!(eval(&e), Literal::Boolean(false)));
}

#[test]
fn equality_is_heterogeneous_safe() {
    let one_s = Expr::Literal(Literal::Str("1".to_string()));
    let e = Expr::Binary(Box::new(num(1.0)), op(Token::EqualEqual), Box::new(one_s));
    assert!(matches!(eval(&e), Literal::Boolean(false)));
    let e2 = Expr::Binary(
        Box::new(Expr::Literal(Literal::Nil)),
        op(Token::EqualEqual),
        Box::new(Expr::Literal(Literal::Nil)),
    );
    assert!(matches!(eval(&e2), Literal::Boolean(true)));
    let e3 = Expr::Binary(
        Box::new(Expr::Literal(Literal::Nil)),
        op(Token::EqualEqual),
        Box::new(Expr::Literal(Literal::Boolean(false))),
    );
    assert!(matches!(eval(&e3), Literal::Boolean(false)));
}

#[test]
fn string_concatenation() {
    let l = Expr::Literal(Literal::Str("foo".to_string()));
    let r = Expr::Literal(Literal::Str("bar".to_string()));
    let e = Expr::Binary(Box::new(l), op(Token::Plus), Box::new(r));
    if let Literal::Str(s) = eval(&e) {
        assert_eq!("foobar", s);
    } else {
        panic!()
    }
}

#[test]
fn string_plus_number_fails() {
    let l = Expr::Literal(Literal::Str("foo".to_string()));
    let e = Expr::Binary(Box::new(l), op(Token::Plus), Box::new(num(1.0)));
    let err = Interpreter::new().evaluate(&e).unwrap_err();
    assert!(matches!(err.value(), Runtime::ExpectedNumbersOrStrings));
}

#[test]
fn undefined_variable() {
    let e = Expr::Variable(Located::at_coords(2, 7, "x".to_string()));
    let err = Interpreter::new().evaluate(&e).unwrap_err();
    if let Runtime::UndefinedVariable(n) = err.value() {
        assert_eq!("x", n);
    } else {
        panic!()
    }
    assert_eq!(err.position(), lox_core::Position::Coords(2, 7));
}

#[test]
fn var_then_print_writes_one_line() {
    // var a = 5; print a;
    let mut i = Interpreter::new();
    let decl = Stmt::Var(Located::at_coords(1, 5, "a".to_string()), num(5.0));
    i.execute(decl).unwrap();
    let use_a = Stmt::Print(Expr::Variable(Located::at_coords(1, 18, "a".to_string())));
    i.execute(use_a).unwrap();
    assert_eq!(i.output().len(), 1);
    assert_eq!("5", i.output()[0]);
}

#[test]
fn comparisons_need_numbers() {
    let l = Expr::Literal(Literal::Str("a".to_string()));
    let e = Expr::Binary(Box::new(l), op(Token::Greater), Box::new(num(1.0)));
    let err = Interpreter::new().evaluate(&e).unwrap_err();
    assert!(matches!(err.value(), Runtime::ExpectedNumbers));
}

#[test]
fn division_and_rendering() {
    let e = Expr::Binary(Box::new(num(7.0)), op(Token::Slash), Box::new(num(2.0)));
    if let Literal::Number(n) = eval(&e) {
        assert_eq!(3.5, f64::from_bits(n));
    } else {
        panic!()
    }
}

#[test]
fn error_messages_render_with_positions() {
    let err = Located::at_coords(3, 4, Runtime::ExpectedNumbers);
    assert_eq!("3:4: operands must be numbers", lox_core::error::render_runtime_error(&err));
    let serr = Located::at_eof(lox_core::error::Syntax::UnterminatedExprStatement);
    assert_eq!(
        "eof: expected ';' at the end of statement",
        lox_core::error::render_syntax_error(&serr)
    );
}

#[test]
fn numeral_round_trip() {
    // lexing then rendering a numeral keeps its value
    let mut lx = lox_core::lex::Lexer::new("12.34");
    if let Token::Number(n) = lx.next().unwrap().unwrap().value() {
        let mut i = Interpreter::new();
        i.execute(Stmt::Print(Expr::Literal(Literal::Number(*n)))).unwrap();
        assert_eq!("12.34", i.output()[0]);
        let mut lx2 = lox_core::lex::Lexer::new(&i.output()[0].clone());
        if let Token::Number(n2) = lx2.next().unwrap().unwrap().value() {
            assert_eq!(*n, *n2);
        } else {
            panic!()
        }
    } else {
        panic!()
    }
}
