use lox_core::error::Syntax;
use lox_core::interpret::Interpreter;
use lox_core::lex::Lexer;
use lox_core::parse::stmt::Stmt;
use lox_core::parse::Parser;
use lox_core::Position;

#[test]
fn asd() {
    let mut p = Parser::new(Lexer::new("print (6; + print 5;"));
    println!("{:?}", p.next());
    println!("{:?}", p.errors());
    p.next();
    println!("{:?}", p.errors());
}

#[test]
fn missing_terminator_at_eof() {
    // parsing "print 1" with no trailing ';' yields UnterminatedExprStatement
    // positioned at end of input
    let mut p = Parser::new(Lexer::new("print 1"));
    assert!(p.next().is_none());
    let errs = p.errors();
    assert_eq!(1, errs.len());
    assert!(matches!(errs[0].value(), Syntax::UnterminatedExprStatement));
    assert_eq!(errs[0].position(), Position::Eof);
}

#[test]
fn recovery_after_bad_statement() {
    // "1 + ; print 2;" records one syntax error for the first statement and
    // still parses the print statement
    let mut p = Parser::new(Lexer::new("1 + ; print 2;"));
    let first = p.next();
    assert!(matches!(first, Some(Stmt::Print(_))));
    assert_eq!(1, p.errors().len());
    assert!(matches!(p.errors()[0].value(), Syntax::ExpectedExpression));
    assert!(p.next().is_none());
}

#[test]
fn end_to_end_var_and_print() {
    // source "var a = 5; print a;" runs without errors and writes exactly
    // one line: 5
    let mut p = Parser::new(Lexer::new("var a = 5; print a;"));
    let mut i = Interpreter::new();
    while let Some(stmt) = p.next() {
        i.execute(stmt).unwrap();
    }
    assert_eq!(0, p.errors().len());
    assert_eq!(1, i.output().len());
    assert_eq!("5", i.output()[0]);
}

#[test]
fn left_associative_parse_and_eval() {
    // "print 1 - 2 - 3;" evaluates to -4, not 2
    let mut p = Parser::new(Lexer::new("print 1 - 2 - 3;"));
    let mut i = Interpreter::new();
    while let Some(stmt) = p.next() {
        i.execute(stmt).unwrap();
    }
    assert_eq!("-4", i.output()[0]);
}

#[test]
fn unclosed_grouping() {
    let mut p = Parser::new(Lexer::new("(1 + 2"));
    assert!(p.next().is_none());
    assert!(p.errors().iter().any(|e| matches!(e.value(), Syntax::UnclosedGrouping)));
}

#[test]
fn var_requires_name() {
    let mut p = Parser::new(Lexer::new("var 5;"));
    assert!(p.next().is_none());
    assert!(matches!(p.errors()[0].value(), Syntax::ExpectedVariableName));
}

#[test]
fn var_requires_initializer() {
    let mut p = Parser::new(Lexer::new("var a;"));
    assert!(p.next().is_none());
    assert!(matches!(p.errors()[0].value(), Syntax::InvalidAssignmentTarget));
}

#[test]
fn lexing_error_is_recorded_and_skipped() {
    // a stray character never reaches the grammar; the statement around it
    // still parses
    let mut p = Parser::new(Lexer::new("print ` 1;"));
    let first = p.next();
    assert!(matches!(first, Some(Stmt::Print(_))));
    assert!(matches!(p.errors()[0].value(), Syntax::StrayCharacter('`')));
}

#[test]
fn grouping_changes_precedence() {
    let mut p = Parser::new(Lexer::new("print (1 + 2) * 3;"));
    let mut i = Interpreter::new();
    while let Some(stmt) = p.next() {
        i.execute(stmt).unwrap();
    }
    assert_eq!("9", i.output()[0]);
}
