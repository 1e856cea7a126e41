use lox_core::lex::token::Token;
use lox_core::lex::Lexer;
use lox_core::error::Syntax;

#[test]
fn left_paren() {
    assert!(matches!(
        Lexer::new("(").next().unwrap().unwrap().value(),
        Token::LeftParen
    ))
}

#[test]
fn right_paren() {
    assert!(matches!(
        Lexer::new(")").next().unwrap().unwrap().value(),
        Token::RightParen
    ))
}

#[test]
fn left_brace() {
    assert!(matches!(
        Lexer::new("{").next().unwrap().unwrap().value(),
        Token::LeftBrace
    ))
}

#[test]
fn right_brace() {
    assert!(matches!(
        Lexer::new("}").next().unwrap().unwrap().value(),
        Token::RightBrace
    ))
}

#[test]
fn comma() {
    assert!(matches!(
        Lexer::new(",").next().unwrap().unwrap().value(),
        Token::Comma
    ))
}

#[test]
fn dot() {
    assert!(matches!(
        Lexer::new(".").next().unwrap().unwrap().value(),
        Token::Dot
    ))
}

#[test]
fn minus() {
    assert!(matches!(
        Lexer::new("-").next().unwrap().unwrap().value(),
        Token::Minus
    ))
}

#[test]
fn plus() {
    assert!(matches!(
        Lexer::new("+").next().unwrap().unwrap().value(),
        Token::Plus
    ))
}

#[test]
fn semicolon() {
    assert!(matches!(
        Lexer::new(";").next().unwrap().unwrap().value(),
        Token::Semicolon
    ))
}

#[test]
fn slash() {
    assert!(matches!(
        Lexer::new("/").next().unwrap().unwrap().value(),
        Token::Slash
    ))
}

#[test]
fn star() {
    assert!(matches!(
        Lexer::new("*").next().unwrap().unwrap().value(),
        Token::Star
    ))
}

#[test]
fn bang() {
    assert!(matches!(
        Lexer::new("!").next().unwrap().unwrap().value(),
        Token::Bang
    ))
}

#[test]
fn bang_equal() {
    assert!(matches!(
        Lexer::new("!=").next().unwrap().unwrap().value(),
        Token::BangEqual
    ))
}

#[test]
fn equal() {
    assert!(matches!(
        Lexer::new("=").next().unwrap().unwrap().value(),
        Token::Equal
    ))
}

#[test]
fn equal_equal() {
    assert!(matches!(
        Lexer::new("==").next().unwrap().unwrap().value(),
        Token::EqualEqual
    ))
}

#[test]
fn greater() {
    assert!(matches!(
        Lexer::new(">").next().unwrap().unwrap().value(),
        Token::Greater
    ))
}

#[test]
fn greater_equal() {
    assert!(matches!(
        Lexer::new(">=").next().unwrap().unwrap().value(),
        Token::GreaterEqual
    ))
}

#[test]
fn less() {
    assert!(matches!(
        Lexer::new("<").next().unwrap().unwrap().value(),
        Token::Less
    ))
}

#[test]
fn less_equal() {
    assert!(matches!(
        Lexer::new("<=").next().unwrap().unwrap().value(),
        Token::LessEqual
    ))
}

#[test]
fn and() {
    assert!(matches!(
        Lexer::new("and").next().unwrap().unwrap().value(),
        Token::And
    ))
}

#[test]
fn class() {
    assert!(matches!(
        Lexer::new("class").next().unwrap().unwrap().value(),
        Token::Class
    ))
}

#[test]
fn kw_else() {
    assert!(matches!(
        Lexer::new("else").next().unwrap().unwrap().value(),
        Token::Else
    ))
}

#[test]
fn kw_false() {
    assert!(matches!(
        Lexer::new("false").next().unwrap().unwrap().value(),
        Token::False
    ))
}

#[test]
fn fun() {
    assert!(matches!(
        Lexer::new("fun").next().unwrap().unwrap().value(),
        Token::Fun
    ))
}

#[test]
fn kw_for() {
    assert!(matches!(
        Lexer::new("for").next().unwrap().unwrap().value(),
        Token::For
    ))
}

#[test]
fn kw_if() {
    assert!(matches!(
        Lexer::new("if").next().unwrap().unwrap().value(),
        Token::If
    ))
}

#[test]
fn nil() {
    assert!(matches!(
        Lexer::new("nil").next().unwrap().unwrap().value(),
        Token::Nil
    ))
}

#[test]
fn or() {
    assert!(matches!(
        Lexer::new("or").next().unwrap().unwrap().value(),
        Token::Or
    ))
}

#[test]
fn print() {
    assert!(matches!(
        Lexer::new("print").next().unwrap().unwrap().value(),
        Token::Print
    ))
}

#[test]
fn kw_return() {
    assert!(matches!(
        Lexer::new("return").next().unwrap().unwrap().value(),
        Token::Return
    ))
}

#[test]
fn ssuper() {
    assert!(matches!(
        Lexer::new("super").next().unwrap().unwrap().value(),
        Token::Super
    ))
}

#[test]
fn this() {
    assert!(matches!(
        Lexer::new("this").next().unwrap().unwrap().value(),
        Token::This
    ))
}

#[test]
fn kw_true() {
    assert!(matches!(
        Lexer::new("true").next().unwrap().unwrap().value(),
        Token::True
    ))
}

#[test]
fn kw_var() {
    assert!(matches!(
        Lexer::new("var").next().unwrap().unwrap().value(),
        Token::Var
    ))
}

#[test]
fn kw_while() {
    assert!(matches!(
        Lexer::new("while").next().unwrap().unwrap().value(),
        Token::While
    ))
}

#[test]
fn string() {
    if let Token::Str(s) = Lexer::new("\"AAAABBBB00001111\"").next().unwrap().unwrap().value() {
        assert_eq!("AAAABBBB00001111", s);
    } else {
        panic!()
    }
}

#[test]
fn number() {
    if let Token::Number(n) = Lexer::new("12.34").next().unwrap().unwrap().value() {
        assert_eq!(12.34, f64::from_bits(*n));
    } else {
        panic!()
    }
}

#[test]
fn comment() {
    assert!(matches!(Lexer::new("//").next(), None))
}

#[test]
fn unterminated_string() {
    assert!(matches!(
        Lexer::new("\"").next().unwrap().err().unwrap().value(),
        Syntax::UnterminatedString
    ))
}

#[test]
fn stray_character() {
    assert!(matches!(
        Lexer::new("`").next().unwrap().err().unwrap().value(),
        Syntax::StrayCharacter('`')
    ))
}

#[test]
fn comment_is_transparent() {
    let mut a = Lexer::new("1 // comment\n+ 2");
    let mut b = Lexer::new("1\n+ 2");
    loop {
        let x = a.next();
        let y = b.next();
        match (x, y) {
            (None, None) => break,
            (Some(Ok(t1)), Some(Ok(t2))) => {
                assert_eq!(t1.position(), t2.position());
                assert_eq!(format!("{:?}", t1.value()), format!("{:?}", t2.value()));
            },
            _ => panic!(),
        }
    }
}

#[test]
fn number_position_and_value() {
    let mut lx = Lexer::new("  3.5");
    let t = lx.next().unwrap().unwrap();
    assert_eq!(t.position(), lox_core::Position::Coords(1, 3));
    if let Token::Number(n) = t.value() {
        assert_eq!(3.5, f64::from_bits(*n));
    } else {
        panic!()
    }
}
