//! The two error families of the language: syntax errors from the lexer and
//! parser, and runtime errors from the evaluator. They stay separate types.
use vstd::prelude::*;
use vstd::string::StringExecFns;

use crate::render::{decimal_string, push_char, spec_decimal};
use crate::{Located, Position};

verus! {

/// An error found while scanning or parsing. The parser records these and
/// recovers; it never aborts the whole parse.
#[derive(Clone, Copy, Debug)]
pub enum Syntax {
    UnterminatedString,
    StrayCharacter(char),
    ExpectedExpression,
    UnclosedGrouping,
    UnterminatedExprStatement,
    ExpectedVariableName,
    InvalidAssignmentTarget,
}

impl View for Syntax {
    type V = Syntax;

    open spec fn view(&self) -> Syntax {
        *self
    }
}

/// An error found while evaluating. The first one aborts the run.
#[derive(Clone, Debug)]
pub enum Runtime {
    ExpectedNumbers,
    ExpectedNumbersOrStrings,
    UndefinedVariable(String),
}

/// The mathematical image of a `Runtime` error, with text as a sequence of
/// characters.
pub enum RuntimeView {
    ExpectedNumbers,
    ExpectedNumbersOrStrings,
    UndefinedVariable(Seq<char>),
}

impl View for Runtime {
    type V = RuntimeView;

    open spec fn view(&self) -> RuntimeView {
        match self {
            Runtime::ExpectedNumbers => RuntimeView::ExpectedNumbers,
            Runtime::ExpectedNumbersOrStrings => RuntimeView::ExpectedNumbersOrStrings,
            Runtime::UndefinedVariable(s) => RuntimeView::UndefinedVariable(s@),
        }
    }
}

impl Syntax {
    /// The diagnostic text of this error.
    pub open spec fn spec_message(&self) -> Seq<char> {
        match self {
            Syntax::UnterminatedString => "expected '\"' at the end of string"@,
            Syntax::StrayCharacter(c) => "stray "@.push(*c) + " in program"@,
            Syntax::ExpectedExpression => "expected expression"@,
            Syntax::UnclosedGrouping => "expected ')' at the end of grouping expression"@,
            Syntax::UnterminatedExprStatement => "expected ';' at the end of statement"@,
            Syntax::ExpectedVariableName => "expected variable name"@,
            Syntax::InvalidAssignmentTarget => "invalid assignment target"@,
        }
    }

    /// Renders the diagnostic text of this error.
    pub fn message(&self) -> (r: String)
        ensures
            r@ == self.spec_message(),
    {
        match self {
            Syntax::UnterminatedString => "expected '\"' at the end of string".to_owned(),
            Syntax::StrayCharacter(c) => {
                let mut s = "stray ".to_owned();
                push_char(&mut s, *c);
                s.append(" in program");
                s
            },
            Syntax::ExpectedExpression => "expected expression".to_owned(),
            Syntax::UnclosedGrouping => "expected ')' at the end of grouping expression".to_owned(),
            Syntax::UnterminatedExprStatement => "expected ';' at the end of statement".to_owned(),
            Syntax::ExpectedVariableName => "expected variable name".to_owned(),
            Syntax::InvalidAssignmentTarget => "invalid assignment target".to_owned(),
        }
    }
}

impl Runtime {
    /// The diagnostic text of this error.
    pub open spec fn spec_message(&self) -> Seq<char> {
        match self {
            Runtime::ExpectedNumbers => "operands must be numbers"@,
            Runtime::ExpectedNumbersOrStrings => "operands must be either all numbers or all strings"@,
            Runtime::UndefinedVariable(s) => "variable '"@ + s@ + "' is not defined"@,
        }
    }

    /// Renders the diagnostic text of this error.
    pub fn message(&self) -> (r: String)
        ensures
            r@ == self.spec_message(),
    {
        match self {
            Runtime::ExpectedNumbers => "operands must be numbers".to_owned(),
            Runtime::ExpectedNumbersOrStrings => {
                "operands must be either all numbers or all strings".to_owned()
            },
            Runtime::UndefinedVariable(s) => {
                let mut r = "variable '".to_owned();
                r.append(s.as_str());
                r.append("' is not defined");
                r
            },
        }
    }
}

impl Position {
    /// The diagnostic text of a position: `row:col`, or `eof` at the end of
    /// input.
    pub open spec fn spec_render(&self) -> Seq<char> {
        match self {
            Position::Coords(row, col) => spec_decimal(*row as nat) + ":"@ + spec_decimal(
                *col as nat,
            ),
            Position::Eof => "eof"@,
        }
    }

    /// Renders a position as `row:col`, or `eof` at the end of input.
    pub fn render(&self) -> (r: String)
        ensures
            r@ == self.spec_render(),
    {
        match self {
            Position::Coords(row, col) => {
                let mut s = decimal_string(*row);
                s.append(":");
                let c = decimal_string(*col);
                s.append(c.as_str());
                s
            },
            Position::Eof => "eof".to_owned(),
        }
    }
}

/// The full diagnostic line for a located syntax error: the position, then
/// the message.
pub fn render_syntax_error(e: &Located<Syntax>) -> (r: String)
    ensures
        r@ == e.spec_pos().spec_render() + ": "@ + e.spec_value().spec_message(),
{
    let mut s = e.position().render();
    s.append(": ");
    let m = e.value().message();
    s.append(m.as_str());
    s
}

/// The full diagnostic line for a located runtime error: the position, then
/// the message.
pub fn render_runtime_error(e: &Located<Runtime>) -> (r: String)
    ensures
        r@ == e.spec_pos().spec_render() + ": "@ + e.spec_value().spec_message(),
{
    let mut s = e.position().render();
    s.append(": ");
    let m = e.value().message();
    s.append(m.as_str());
    s
}

} // verus!
