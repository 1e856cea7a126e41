//! Core of a small scripting language: a lexer that turns source text into
//! located tokens, a recursive-descent parser that builds statement and
//! expression trees with error recovery, and a tree-walking evaluator over a
//! single global variable environment.
//!
//! Every token, syntax error and runtime error carries its source position,
//! so diagnostics can always answer where a problem originated.
use vstd::prelude::*;

pub mod error;
pub mod interpret;
pub mod lex;
pub mod number;
pub mod parse;
pub mod render;

verus! {

/// A place in the source text: a 1-based row and column, or the end of input.
#[derive(Clone, Copy, Debug, PartialEq, Eq, Structural)]
pub enum Position {
    Coords(usize, usize),
    Eof,
}

/// A value paired with the source position it originated at.
///
/// Tokens, syntax errors and runtime errors are all `Located`; the position
/// is attached when the value is produced and never discarded afterwards.
#[derive(Clone, Copy, Debug)]
pub struct Located<T> {
    pos: Position,
    value: T,
}

/// The mathematical image of a `Located` value: the same position paired
/// with the view of the payload.
pub struct LocatedView<T> {
    pub pos: Position,
    pub value: T,
}

impl<T> Located<T> {
    /// The position this value was recorded at.
    pub closed spec fn spec_pos(&self) -> Position {
        self.pos
    }

    /// The payload carried at that position.
    pub closed spec fn spec_value(&self) -> T {
        self.value
    }

    /// Attaches a row/column position to a value.
    pub fn at_coords(row: usize, col: usize, value: T) -> (r: Self)
        ensures
            r.spec_pos() == Position::Coords(row, col),
            r.spec_value() == value,
    {
        Self { pos: Position::Coords(row, col), value }
    }

    /// Attaches the end-of-input position to a value.
    pub fn at_eof(value: T) -> (r: Self)
        ensures
            r.spec_pos() == Position::Eof,
            r.spec_value() == value,
    {
        Self { pos: Position::Eof, value }
    }

    /// Pairs another value with this one's position.
    pub fn co_locate<L>(&self, value: L) -> (r: Located<L>)
        ensures
            r.spec_pos() == self.spec_pos(),
            r.spec_value() == value,
    {
        Located { pos: self.pos, value }
    }

    /// The carried value.
    pub fn value(&self) -> (r: &T)
        ensures
            *r == self.spec_value(),
    {
        &self.value
    }

    /// The position, by itself.
    pub fn position(&self) -> (r: Position)
        ensures
            r == self.spec_pos(),
    {
        self.pos
    }
}

impl<T: View> View for Located<T> {
    type V = LocatedView<T::V>;

    open spec fn view(&self) -> LocatedView<T::V> {
        LocatedView { pos: self.spec_pos(), value: self.spec_value()@ }
    }
}

} // verus!
