//! The closed set of tokens the lexer can produce.
use vstd::prelude::*;

verus! {

/// One token of the language: punctuation, an operator, a literal, an
/// identifier, or a reserved keyword. A number is carried as the bit
/// pattern of the IEEE-754 double it denotes.
#[derive(Clone, Debug)]
pub enum Token {
    LeftParen,
    RightParen,
    LeftBrace,
    RightBrace,
    Comma,
    Dot,
    Minus,
    Plus,
    Semicolon,
    Slash,
    Star,
    Bang,
    BangEqual,
    Equal,
    EqualEqual,
    Greater,
    GreaterEqual,
    Less,
    LessEqual,
    Str(String),
    Number(u64),
    Identifier(String),
    And,
    Class,
    Else,
    False,
    Fun,
    For,
    If,
    Nil,
    Or,
    Print,
    Return,
    Super,
    This,
    True,
    Var,
    While,
}

/// The mathematical image of a token, with text as a sequence of
/// characters.
pub enum TokenView {
    LeftParen,
    RightParen,
    LeftBrace,
    RightBrace,
    Comma,
    Dot,
    Minus,
    Plus,
    Semicolon,
    Slash,
    Star,
    Bang,
    BangEqual,
    Equal,
    EqualEqual,
    Greater,
    GreaterEqual,
    Less,
    LessEqual,
    Str(Seq<char>),
    Number(u64),
    Identifier(Seq<char>),
    And,
    Class,
    Else,
    False,
    Fun,
    For,
    If,
    Nil,
    Or,
    Print,
    Return,
    Super,
    This,
    True,
    Var,
    While,
}

impl View for Token {
    type V = TokenView;

    open spec fn view(&self) -> TokenView {
        match self {
            Token::LeftParen => TokenView::LeftParen,
            Token::RightParen => TokenView::RightParen,
            Token::LeftBrace => TokenView::LeftBrace,
            Token::RightBrace => TokenView::RightBrace,
            Token::Comma => TokenView::Comma,
            Token::Dot => TokenView::Dot,
            Token::Minus => TokenView::Minus,
            Token::Plus => TokenView::Plus,
            Token::Semicolon => TokenView::Semicolon,
            Token::Slash => TokenView::Slash,
            Token::Star => TokenView::Star,
            Token::Bang => TokenView::Bang,
            Token::BangEqual => TokenView::BangEqual,
            Token::Equal => TokenView::Equal,
            Token::EqualEqual => TokenView::EqualEqual,
            Token::Greater => TokenView::Greater,
            Token::GreaterEqual => TokenView::GreaterEqual,
            Token::Less => TokenView::Less,
            Token::LessEqual => TokenView::LessEqual,
            Token::Str(s) => TokenView::Str(s@),
            Token::Number(n) => TokenView::Number(*n),
            Token::Identifier(s) => TokenView::Identifier(s@),
            Token::And => TokenView::And,
            Token::Class => TokenView::Class,
            Token::Else => TokenView::Else,
            Token::False => TokenView::False,
            Token::Fun => TokenView::Fun,
            Token::For => TokenView::For,
            Token::If => TokenView::If,
            Token::Nil => TokenView::Nil,
            Token::Or => TokenView::Or,
            Token::Print => TokenView::Print,
            Token::Return => TokenView::Return,
            Token::Super => TokenView::Super,
            Token::This => TokenView::This,
            Token::True => TokenView::True,
            Token::Var => TokenView::Var,
            Token::While => TokenView::While,
        }
    }
}

/// The fixed keyword table: the token a word is reserved for, if any.
pub open spec fn spec_keyword(w: Seq<char>) -> Option<TokenView> {
    if w == "and"@ {
        Some(TokenView::And)
    } else if w == "class"@ {
        Some(TokenView::Class)
    } else if w == "else"@ {
        Some(TokenView::Else)
    } else if w == "false"@ {
        Some(TokenView::False)
    } else if w == "fun"@ {
        Some(TokenView::Fun)
    } else if w == "for"@ {
        Some(TokenView::For)
    } else if w == "if"@ {
        Some(TokenView::If)
    } else if w == "nil"@ {
        Some(TokenView::Nil)
    } else if w == "or"@ {
        Some(TokenView::Or)
    } else if w == "print"@ {
        Some(TokenView::Print)
    } else if w == "return"@ {
        Some(TokenView::Return)
    } else if w == "super"@ {
        Some(TokenView::Super)
    } else if w == "this"@ {
        Some(TokenView::This)
    } else if w == "true"@ {
        Some(TokenView::True)
    } else if w == "var"@ {
        Some(TokenView::Var)
    } else if w == "while"@ {
        Some(TokenView::While)
    } else {
        None
    }
}

/// The token a scanned word stands for: its reserved keyword, or an
/// identifier carrying the word itself.
pub open spec fn spec_word_token(w: Seq<char>) -> TokenView {
    match spec_keyword(w) {
        Some(t) => t,
        None => TokenView::Identifier(w),
    }
}

/// Resolves a scanned word against the keyword table.
pub fn word_token(w: String) -> (r: Token)
    ensures
        r@ == spec_word_token(w@),
{
    if w == "and".to_owned() {
        Token::And
    } else if w == "class".to_owned() {
        Token::Class
    } else if w == "else".to_owned() {
        Token::Else
    } else if w == "false".to_owned() {
        Token::False
    } else if w == "fun".to_owned() {
        Token::Fun
    } else if w == "for".to_owned() {
        Token::For
    } else if w == "if".to_owned() {
        Token::If
    } else if w == "nil".to_owned() {
        Token::Nil
    } else if w == "or".to_owned() {
        Token::Or
    } else if w == "print".to_owned() {
        Token::Print
    } else if w == "return".to_owned() {
        Token::Return
    } else if w == "super".to_owned() {
        Token::Super
    } else if w == "this".to_owned() {
        Token::This
    } else if w == "true".to_owned() {
        Token::True
    } else if w == "var".to_owned() {
        Token::Var
    } else if w == "while".to_owned() {
        Token::While
    } else {
        Token::Identifier(w)
    }
}

} // verus!
