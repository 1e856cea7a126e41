//! Lexical scanning: source text to a forward-only sequence of located
//! tokens or syntax errors.
//!
//! The scanner's behaviour is specified by [`lex_next`], a step function on
//! the source character sequence and a cursor; [`Lexer::next`] is proved to
//! take exactly that step. Whitespace and `//` line comments are skipped
//! transparently and never yield an element.
use vstd::prelude::*;
use vstd::string::StrSliceExecFns;
use vstd::string::StringExecFns;

pub mod token;

use crate::error::Syntax;
use crate::number::{from_decimal, number_from_decimal, plain_numeral};
use crate::render::push_char;
use crate::{Located, LocatedView, Position};
use token::{spec_word_token, word_token, Token, TokenView};

verus! {

/// Whether a character is classed as alphabetic, as `char::is_alphabetic`
/// decides it.
pub uninterp spec fn char_alphabetic(c: char) -> bool;

/// Whether a character is classed as alphanumeric, as
/// `char::is_alphanumeric` decides it.
pub uninterp spec fn char_alphanumeric(c: char) -> bool;

/// Whether a character is classed as whitespace, as `char::is_whitespace`
/// decides it.
pub uninterp spec fn char_whitespace(c: char) -> bool;

/// Relies on `char::is_alphabetic`. Its documentation states that every
/// alphabetic character is also alphanumeric.
#[verifier::external_body]
fn is_alphabetic_char(c: char) -> (r: bool)
    ensures
        r == char_alphabetic(c),
        r ==> char_alphanumeric(c),
{
    c.is_alphabetic()
}

/// Relies on `char::is_alphanumeric`.
#[verifier::external_body]
fn is_alphanumeric_char(c: char) -> (r: bool)
    ensures
        r == char_alphanumeric(c),
{
    c.is_alphanumeric()
}

/// Relies on `char::is_whitespace`.
#[verifier::external_body]
fn is_whitespace_char(c: char) -> (r: bool)
    ensures
        r == char_whitespace(c),
{
    c.is_whitespace()
}

/// An ASCII decimal digit. Only these begin and continue a number token.
pub open spec fn is_digit(c: char) -> bool {
    '0' <= c && c <= '9'
}

/// A character that may begin an identifier or keyword.
pub open spec fn is_word_start(c: char) -> bool {
    char_alphabetic(c) || c == '_'
}

/// A character that may continue an identifier or keyword.
pub open spec fn is_word_char(c: char) -> bool {
    char_alphanumeric(c) || c == '_'
}

fn is_digit_char(c: char) -> (r: bool)
    ensures
        r == is_digit(c),
{
    '0' <= c && c <= '9'
}

/// A reading position in the source: the index of the next character, and
/// the 1-based row and column that character sits at.
pub struct Cursor {
    pub i: int,
    pub row: int,
    pub col: int,
}

/// The cursor after consuming one character: a newline moves to the start
/// of the next row, anything else moves one column right.
pub open spec fn advance_one(c: Cursor, ch: char) -> Cursor {
    if ch == '\n' {
        Cursor { i: c.i + 1, row: c.row + 1, col: 1 }
    } else {
        Cursor { i: c.i + 1, row: c.row, col: c.col + 1 }
    }
}

/// The cursor after consuming every character up to index `j`.
pub open spec fn advance_to(s: Seq<char>, c: Cursor, j: int) -> Cursor
    decreases j - c.i,
{
    if c.i < j {
        advance_to(s, advance_one(c, s[c.i]), j)
    } else {
        c
    }
}

/// `advance_to` lands exactly on its target index.
pub proof fn lemma_advance_to_i(s: Seq<char>, c: Cursor, j: int)
    requires
        c.i <= j,
    ensures
        advance_to(s, c, j).i == j,
    decreases j - c.i,
{
    if c.i < j {
        lemma_advance_to_i(s, advance_one(c, s[c.i]), j);
    }
}

/// Extending the target of `advance_to` by one character is the same as
/// taking one more step afterwards.
pub proof fn lemma_advance_to_snoc(s: Seq<char>, c: Cursor, j: int)
    requires
        c.i <= j,
    ensures
        advance_to(s, c, j + 1) == advance_one(advance_to(s, c, j), s[j]),
    decreases j - c.i,
{
    if c.i < j {
        lemma_advance_to_snoc(s, advance_one(c, s[c.i]), j);
    } else {
        assert(advance_to(s, advance_one(c, s[c.i]), j + 1) == advance_one(c, s[c.i]));
    }
}

/// Advancing to an intermediate index and on to the target is the same as
/// advancing to the target at once.
pub proof fn lemma_advance_to_trans(s: Seq<char>, c: Cursor, m: int, j: int)
    requires
        c.i <= m <= j,
    ensures
        advance_to(s, c, j) == advance_to(s, advance_to(s, c, m), j),
    decreases m - c.i,
{
    if c.i < m {
        lemma_advance_to_trans(s, advance_one(c, s[c.i]), m, j);
    }
}

/// The end of the run of decimal digits starting at `i`.
pub open spec fn scan_digits(s: Seq<char>, i: int) -> int
    decreases s.len() - i,
{
    if 0 <= i && i < s.len() && is_digit(s[i]) {
        scan_digits(s, i + 1)
    } else {
        i
    }
}

/// What `scan_digits` returns: an in-bounds index, digits throughout the
/// run, and a non-digit (or the end of text) just past it.
pub proof fn lemma_scan_digits(s: Seq<char>, i: int)
    requires
        0 <= i <= s.len(),
    ensures
        i <= scan_digits(s, i) <= s.len(),
        forall|k: int| i <= k < scan_digits(s, i) ==> is_digit(#[trigger] s[k]),
        scan_digits(s, i) < s.len() ==> !is_digit(s[scan_digits(s, i)]),
    decreases s.len() - i,
{
    if i < s.len() && is_digit(s[i]) {
        lemma_scan_digits(s, i + 1);
    }
}

/// A digit run is pinned down by its endpoints.
pub proof fn lemma_scan_digits_is(s: Seq<char>, i: int, m: int)
    requires
        0 <= i <= m <= s.len(),
        forall|k: int| i <= k < m ==> is_digit(#[trigger] s[k]),
        m < s.len() ==> !is_digit(s[m]),
    ensures
        scan_digits(s, i) == m,
    decreases m - i,
{
    if i < m {
        lemma_scan_digits_is(s, i + 1, m);
    }
}

/// The index of the closing quote for a string body starting at `i`, or
/// the end of the text if there is none.
pub open spec fn scan_str(s: Seq<char>, i: int) -> int
    decreases s.len() - i,
{
    if 0 <= i && i < s.len() && s[i] != '"' {
        scan_str(s, i + 1)
    } else {
        i
    }
}

/// What `scan_str` returns: an in-bounds index, no quote inside the run,
/// and a quote (or the end of text) just past it.
pub proof fn lemma_scan_str(s: Seq<char>, i: int)
    requires
        0 <= i <= s.len(),
    ensures
        i <= scan_str(s, i) <= s.len(),
        forall|k: int| i <= k < scan_str(s, i) ==> (#[trigger] s[k]) != '"',
        scan_str(s, i) < s.len() ==> s[scan_str(s, i)] == '"',
    decreases s.len() - i,
{
    if i < s.len() && s[i] != '"' {
        lemma_scan_str(s, i + 1);
    }
}

/// A string body is pinned down by its endpoints.
pub proof fn lemma_scan_str_is(s: Seq<char>, i: int, m: int)
    requires
        0 <= i <= m <= s.len(),
        forall|k: int| i <= k < m ==> (#[trigger] s[k]) != '"',
        m < s.len() ==> s[m] == '"',
    ensures
        scan_str(s, i) == m,
    decreases m - i,
{
    if i < m {
        lemma_scan_str_is(s, i + 1, m);
    }
}

/// The end of the identifier or keyword run starting at `i`.
pub open spec fn scan_word(s: Seq<char>, i: int) -> int
    decreases s.len() - i,
{
    if 0 <= i && i < s.len() && is_word_char(s[i]) {
        scan_word(s, i + 1)
    } else {
        i
    }
}

/// What `scan_word` returns: an in-bounds index, word characters
/// throughout the run, and a non-word character (or the end of text) just
/// past it.
pub proof fn lemma_scan_word(s: Seq<char>, i: int)
    requires
        0 <= i <= s.len(),
    ensures
        i <= scan_word(s, i) <= s.len(),
        forall|k: int| i <= k < scan_word(s, i) ==> is_word_char(#[trigger] s[k]),
        scan_word(s, i) < s.len() ==> !is_word_char(s[scan_word(s, i)]),
    decreases s.len() - i,
{
    if i < s.len() && is_word_char(s[i]) {
        lemma_scan_word(s, i + 1);
    }
}

/// A word run is pinned down by its endpoints.
pub proof fn lemma_scan_word_is(s: Seq<char>, i: int, m: int)
    requires
        0 <= i <= m <= s.len(),
        forall|k: int| i <= k < m ==> is_word_char(#[trigger] s[k]),
        m < s.len() ==> !is_word_char(s[m]),
    ensures
        scan_word(s, i) == m,
    decreases m - i,
{
    if i < m {
        lemma_scan_word_is(s, i + 1, m);
    }
}

/// The source text with a tracked reading position.
pub struct Text {
    chars: Vec<char>,
    idx: usize,
    row: usize,
    col: usize,
}

impl Text {
    /// The whole text being read.
    pub closed spec fn spec_chars(&self) -> Seq<char> {
        self.chars@
    }

    /// The current reading position.
    pub closed spec fn spec_cursor(&self) -> Cursor {
        Cursor { i: self.idx as int, row: self.row as int, col: self.col as int }
    }

    /// The position is inside the text and the row and column are sound
    /// for it.
    pub closed spec fn wf(&self) -> bool {
        &&& self.idx <= self.chars@.len()
        &&& self.chars@.len() < usize::MAX
        &&& 1 <= self.row <= self.idx + 1
        &&& 1 <= self.col <= self.idx + 1
    }

    /// Starts reading the given text from row 1, column 1.
    pub fn new(s: &str) -> (r: Self)
        requires
            s@.len() < usize::MAX,
        ensures
            r.wf(),
            r.spec_chars() == s@,
            r.spec_cursor() == (Cursor { i: 0int, row: 1int, col: 1int }),
    {
        let n = s.unicode_len();
        let mut chars: Vec<char> = Vec::new();
        let mut k: usize = 0;
        while k < n
            invariant
                k <= n,
                n == s@.len(),
                chars@ == s@.take(k as int),
            decreases n - k,
        {
            chars.push(s.get_char(k));
            proof {
                assert(chars@ =~= s@.take(k + 1));
            }
            k += 1;
        }
        proof {
            assert(chars@ =~= s@);
        }
        Self { chars, idx: 0, row: 1, col: 1 }
    }

    /// The current row.
    pub fn row(&self) -> (r: usize)
        ensures
            r as int == self.spec_cursor().row,
    {
        self.row
    }

    /// The current column.
    pub fn col(&self) -> (r: usize)
        ensures
            r as int == self.spec_cursor().col,
    {
        self.col
    }

    /// The next character, if any, without consuming it.
    pub fn peek(&self) -> (r: Option<char>)
        ensures
            r == (if self.spec_cursor().i < self.spec_chars().len() {
                Some(self.spec_chars()[self.spec_cursor().i])
            } else {
                None::<char>
            }),
    {
        if self.idx < self.chars.len() {
            Some(self.chars[self.idx])
        } else {
            None
        }
    }

    /// The character after the next one, if any, without consuming
    /// anything.
    pub fn peek2(&self) -> (r: Option<char>)
        requires
            self.wf(),
        ensures
            r == (if self.spec_cursor().i + 1 < self.spec_chars().len() {
                Some(self.spec_chars()[self.spec_cursor().i + 1])
            } else {
                None::<char>
            }),
    {
        if self.idx + 1 < self.chars.len() {
            Some(self.chars[self.idx + 1])
        } else {
            None
        }
    }

    /// Consumes the next character, moving the row and column past it.
    pub fn next(&mut self) -> (r: Option<char>)
        requires
            old(self).wf(),
        ensures
            final(self).wf(),
            final(self).spec_chars() == old(self).spec_chars(),
            ({
                let c = old(self).spec_cursor();
                let s = old(self).spec_chars();
                if c.i < s.len() {
                    r == Some(s[c.i]) && final(self).spec_cursor() == advance_one(c, s[c.i])
                } else {
                    r is None && final(self).spec_cursor() == c
                }
            }),
    {
        if self.idx < self.chars.len() {
            let c = self.chars[self.idx];
            self.idx = self.idx + 1;
            if c == '\n' {
                self.row = self.row + 1;
                self.col = 1;
            } else {
                self.col = self.col + 1;
            }
            Some(c)
        } else {
            None
        }
    }
}

/// One element of the scanner's output.
pub type LexItem = Result<Located<Token>, Located<Syntax>>;

/// The mathematical image of one element of the scanner's output.
pub type LexItemView = Result<LocatedView<TokenView>, LocatedView<Syntax>>;

/// The view of one optional scanner element.
pub open spec fn item_view(r: Option<LexItem>) -> Option<LexItemView> {
    match r {
        None => None,
        Some(Ok(t)) => Some(Ok(t@)),
        Some(Err(e)) => Some(Err(e@)),
    }
}

/// What one pull on the scanner does: the element it yields (none at the
/// end of input) and the cursor it leaves behind.
pub struct LexStep {
    pub item: Option<LexItemView>,
    pub next: Cursor,
}

/// The source position a cursor stands at.
pub open spec fn at(c: Cursor) -> Position {
    Position::Coords(c.row as usize, c.col as usize)
}

pub open spec fn step_tok(t: TokenView, p: Position, n: Cursor) -> LexStep {
    LexStep { item: Some(Ok(LocatedView { pos: p, value: t })), next: n }
}

pub open spec fn step_err(e: Syntax, p: Position, n: Cursor) -> LexStep {
    LexStep { item: Some(Err(LocatedView { pos: p, value: e })), next: n }
}

/// One step of scanning from cursor `c`: the next token or error, with the
/// position of its first character, or nothing at the end of input.
///
/// This is the contract of [`Lexer::next`] and the single place the token
/// grammar is written down: one-character punctuation; two-character
/// operators merged by one character of lookahead; `//` comments discarded
/// to the end of the line; strings between quotes with no escapes; numbers
/// as a digit run with at most one fraction; words resolved against the
/// keyword table; whitespace skipped; anything else a stray character.
pub open spec fn lex_next(s: Seq<char>, c: Cursor) -> LexStep
    decreases s.len() - c.i, 1int,
{
    if !(0 <= c.i && c.i < s.len()) {
        LexStep { item: None, next: c }
    } else {
        let ch = s[c.i];
        let start = at(c);
        let c1 = advance_one(c, ch);
        if ch == '(' {
            step_tok(TokenView::LeftParen, start, c1)
        } else if ch == ')' {
            step_tok(TokenView::RightParen, start, c1)
        } else if ch == '{' {
            step_tok(TokenView::LeftBrace, start, c1)
        } else if ch == '}' {
            step_tok(TokenView::RightBrace, start, c1)
        } else if ch == ',' {
            step_tok(TokenView::Comma, start, c1)
        } else if ch == '.' {
            step_tok(TokenView::Dot, start, c1)
        } else if ch == '-' {
            step_tok(TokenView::Minus, start, c1)
        } else if ch == '+' {
            step_tok(TokenView::Plus, start, c1)
        } else if ch == ';' {
            step_tok(TokenView::Semicolon, start, c1)
        } else if ch == '*' {
            step_tok(TokenView::Star, start, c1)
        } else if ch == '/' {
            if c1.i < s.len() && s[c1.i] == '/' {
                lex_comment(s, advance_one(c1, s[c1.i]))
            } else {
                step_tok(TokenView::Slash, start, c1)
            }
        } else if ch == '!' {
            if c1.i < s.len() && s[c1.i] == '=' {
                step_tok(TokenView::BangEqual, start, advance_one(c1, '='))
            } else {
                step_tok(TokenView::Bang, start, c1)
            }
        } else if ch == '=' {
            if c1.i < s.len() && s[c1.i] == '=' {
                step_tok(TokenView::EqualEqual, start, advance_one(c1, '='))
            } else {
                step_tok(TokenView::Equal, start, c1)
            }
        } else if ch == '>' {
            if c1.i < s.len() && s[c1.i] == '=' {
                step_tok(TokenView::GreaterEqual, start, advance_one(c1, '='))
            } else {
                step_tok(TokenView::Greater, start, c1)
            }
        } else if ch == '<' {
            if c1.i < s.len() && s[c1.i] == '=' {
                step_tok(TokenView::LessEqual, start, advance_one(c1, '='))
            } else {
                step_tok(TokenView::Less, start, c1)
            }
        } else if ch == '"' {
            let j = scan_str(s, c.i + 1);
            if j < s.len() {
                step_tok(TokenView::Str(s.subrange(c.i + 1, j)), start, advance_to(s, c, j + 1))
            } else {
                LexStep {
                    item: Some(
                        Err(LocatedView { pos: Position::Eof, value: Syntax::UnterminatedString }),
                    ),
                    next: advance_to(s, c, s.len() as int),
                }
            }
        } else if is_digit(ch) {
            let j = scan_digits(s, c.i);
            let k = if j + 1 < s.len() && s[j] == '.' && is_digit(s[j + 1]) {
                scan_digits(s, j + 1)
            } else {
                j
            };
            step_tok(TokenView::Number(from_decimal(s.subrange(c.i, k))), start, advance_to(s, c, k))
        } else if is_word_start(ch) {
            let j = scan_word(s, c.i + 1);
            step_tok(spec_word_token(s.subrange(c.i, j)), start, advance_to(s, c, j))
        } else if char_whitespace(ch) {
            lex_next(s, c1)
        } else {
            step_err(Syntax::StrayCharacter(ch), start, c1)
        }
    }
}

/// Scanning inside a `//` comment: everything up to and including the next
/// newline is discarded, then scanning resumes.
pub open spec fn lex_comment(s: Seq<char>, c: Cursor) -> LexStep
    decreases s.len() - c.i, 0int,
{
    if !(0 <= c.i && c.i < s.len()) {
        LexStep { item: None, next: c }
    } else if s[c.i] == '\n' {
        lex_next(s, advance_one(c, s[c.i]))
    } else {
        lex_comment(s, advance_one(c, s[c.i]))
    }
}

/// Scanning moves forward: a step that yields an element consumes at least
/// one character, and a step that yields nothing reaches the end of input
/// or stands still there.
pub proof fn lemma_lex_progress(s: Seq<char>, c: Cursor)
    requires
        0 <= c.i <= s.len(),
    ensures
        ({
            let step = lex_next(s, c);
            &&& (step.item is Some ==> c.i < step.next.i <= s.len())
            &&& (step.item is None ==> step.next.i == s.len())
        }),
    decreases s.len() - c.i, 1int,
{
    if 0 <= c.i && c.i < s.len() {
        let ch = s[c.i];
        let c1 = advance_one(c, ch);
        if ch == '(' || ch == ')' || ch == '{' || ch == '}' || ch == ',' || ch == '.' || ch == '-'
            || ch == '+' || ch == ';' || ch == '*' {
        } else if ch == '/' {
            if c1.i < s.len() && s[c1.i] == '/' {
                lemma_lex_comment_progress(s, advance_one(c1, s[c1.i]));
            }
        } else if ch == '!' || ch == '=' || ch == '>' || ch == '<' {
        } else if ch == '"' {
            let j = scan_str(s, c.i + 1);
            lemma_scan_str(s, c.i + 1);
            if j < s.len() {
                lemma_advance_to_i(s, c, j + 1);
            } else {
                lemma_advance_to_i(s, c, s.len() as int);
            }
        } else if is_digit(ch) {
            let j = scan_digits(s, c.i);
            lemma_scan_digits(s, c.i);
            lemma_scan_digits(s, c.i + 1);
            assert(scan_digits(s, c.i) == scan_digits(s, c.i + 1));
            let k = if j + 1 < s.len() && s[j] == '.' && is_digit(s[j + 1]) {
                scan_digits(s, j + 1)
            } else {
                j
            };
            if j + 1 < s.len() && s[j] == '.' && is_digit(s[j + 1]) {
                lemma_scan_digits(s, j + 1);
            }
            lemma_advance_to_i(s, c, k);
        } else if is_word_start(ch) {
            let j = scan_word(s, c.i + 1);
            lemma_scan_word(s, c.i + 1);
            lemma_advance_to_i(s, c, j);
        } else if char_whitespace(ch) {
            lemma_lex_progress(s, c1);
        } else {
        }
    }
}

/// As [`lemma_lex_progress`], from inside a comment.
pub proof fn lemma_lex_comment_progress(s: Seq<char>, c: Cursor)
    requires
        0 <= c.i <= s.len(),
    ensures
        ({
            let step = lex_comment(s, c);
            &&& (step.item is Some ==> c.i < step.next.i <= s.len())
            &&& (step.item is None ==> step.next.i == s.len())
        }),
    decreases s.len() - c.i, 0int,
{
    if 0 <= c.i && c.i < s.len() {
        if s[c.i] == '\n' {
            lemma_lex_progress(s, advance_one(c, s[c.i]));
        } else {
            lemma_lex_comment_progress(s, advance_one(c, s[c.i]));
        }
    }
}

#[via_fn]
proof fn lex_all_decreases(s: Seq<char>, c: Cursor) {
    if 0 <= c.i && c.i <= s.len() {
        lemma_lex_progress(s, c);
    }
}

/// Everything the scanner yields from cursor `c` to the end of input, in
/// order.
pub open spec fn lex_all(s: Seq<char>, c: Cursor) -> Seq<LexItemView>
    decreases s.len() - c.i
        via lex_all_decreases
{
    if !(0 <= c.i && c.i <= s.len()) {
        Seq::empty()
    } else {
        let step = lex_next(s, c);
        match step.item {
            None => Seq::empty(),
            Some(it) => seq![it] + lex_all(s, step.next),
        }
    }
}

/// The scanner: pulls one located token or syntax error at a time from the
/// source text.
pub struct Lexer {
    row: usize,
    col: usize,
    source: Text,
}

impl Lexer {
    /// The scanner's reading position is sound.
    pub closed spec fn wf(&self) -> bool {
        self.source.wf()
    }

    /// The recorded start position of the token being scanned.
    pub closed spec fn spec_mark(&self) -> Position {
        Position::Coords(self.row, self.col)
    }

    /// The whole source text.
    pub closed spec fn spec_chars(&self) -> Seq<char> {
        self.source.spec_chars()
    }

    /// The current reading position.
    pub closed spec fn spec_cursor(&self) -> Cursor {
        self.source.spec_cursor()
    }

    /// What a sound scanner state guarantees about its text and cursor.
    pub proof fn lemma_wf_bounds(&self)
        requires
            self.wf(),
        ensures
            self.spec_chars().len() < usize::MAX,
            0 <= self.spec_cursor().i <= self.spec_chars().len(),
    {
    }

    /// Starts scanning the given source text.
    pub fn new(source: &str) -> (r: Self)
        requires
            source@.len() < usize::MAX,
        ensures
            r.wf(),
            r.spec_chars() == source@,
            r.spec_cursor() == (Cursor { i: 0int, row: 1int, col: 1int }),
    {
        Self { row: 1, col: 1, source: Text::new(source) }
    }

    /// A value located at the start of the token being scanned.
    fn located<T>(&self, data: T) -> (r: Located<T>)
        ensures
            r.spec_pos() == self.spec_mark(),
            r.spec_value() == data,
    {
        Located::at_coords(self.row, self.col, data)
    }

    /// A token located at the start of the token being scanned, as a
    /// scanner element.
    fn local_token(&self, token: Token) -> (r: LexItem)
        ensures
            r matches Ok(t) && t.spec_pos() == self.spec_mark() && t.spec_value() == token,
    {
        Ok(self.located(token))
    }

    /// An error located at the start of the token being scanned, as a
    /// scanner element.
    fn local_err(&self, err: Syntax) -> (r: LexItem)
        ensures
            r matches Err(e) && e.spec_pos() == self.spec_mark() && e.spec_value() == err,
    {
        Err(self.located(err))
    }

    /// Consumes the maximal run of digits at the cursor and hands it back.
    #[verifier::loop_isolation(false)]
    fn integer(&mut self) -> (r: String)
        requires
            old(self).wf(),
        ensures
            final(self).wf(),
            final(self).spec_chars() == old(self).spec_chars(),
            final(self).spec_mark() == old(self).spec_mark(),
            ({
                let s = old(self).spec_chars();
                let c = old(self).spec_cursor();
                let j = scan_digits(s, c.i);
                final(self).spec_cursor() == advance_to(s, c, j) && r@ == s.subrange(c.i, j)
            }),
    {
        let ghost s = self.spec_chars();
        let ghost c0 = self.spec_cursor();
        let mut r = String::new();
        proof {
            lemma_scan_digits(s, c0.i);
            assert(r@ =~= s.subrange(c0.i, c0.i));
        }
        loop
            invariant
                self.wf(),
                self.spec_chars() == s,
                self.spec_mark() == old(self).spec_mark(),
                c0.i <= self.spec_cursor().i <= s.len(),
                forall|k: int| c0.i <= k < self.spec_cursor().i ==> is_digit(#[trigger] s[k]),
                self.spec_cursor() == advance_to(s, c0, self.spec_cursor().i),
                r@ == s.subrange(c0.i, self.spec_cursor().i),
            decreases s.len() - self.spec_cursor().i,
        {
            let ghost cur = self.spec_cursor();
            match self.source.peek() {
                Some(ch) => {
                    if is_digit_char(ch) {
                        proof {
                            lemma_advance_to_snoc(s, c0, cur.i);
                        }
                        self.source.next();
                        push_char(&mut r, ch);
                        proof {
                            assert(r@ =~= s.subrange(c0.i, cur.i + 1));
                        }
                    } else {
                        proof {
                            lemma_scan_digits_is(s, c0.i, cur.i);
                        }
                        return r;
                    }
                },
                None => {
                    proof {
                        lemma_scan_digits_is(s, c0.i, cur.i);
                    }
                    return r;
                },
            }
        }
    }

    /// Consumes the maximal run of identifier characters at the cursor and
    /// hands it back.
    #[verifier::loop_isolation(false)]
    fn word(&mut self) -> (r: String)
        requires
            old(self).wf(),
        ensures
            final(self).wf(),
            final(self).spec_chars() == old(self).spec_chars(),
            final(self).spec_mark() == old(self).spec_mark(),
            ({
                let s = old(self).spec_chars();
                let c = old(self).spec_cursor();
                let j = scan_word(s, c.i);
                final(self).spec_cursor() == advance_to(s, c, j) && r@ == s.subrange(c.i, j)
            }),
    {
        let ghost s = self.spec_chars();
        let ghost c0 = self.spec_cursor();
        let mut r = String::new();
        proof {
            lemma_scan_word(s, c0.i);
            assert(r@ =~= s.subrange(c0.i, c0.i));
        }
        loop
            invariant
                self.wf(),
                self.spec_chars() == s,
                self.spec_mark() == old(self).spec_mark(),
                c0.i <= self.spec_cursor().i <= s.len(),
                forall|k: int| c0.i <= k < self.spec_cursor().i ==> is_word_char(#[trigger] s[k]),
                self.spec_cursor() == advance_to(s, c0, self.spec_cursor().i),
                r@ == s.subrange(c0.i, self.spec_cursor().i),
            decreases s.len() - self.spec_cursor().i,
        {
            let ghost cur = self.spec_cursor();
            match self.source.peek() {
                Some(ch) => {
                    let alnum = is_alphanumeric_char(ch);
                    if alnum || ch == '_' {
                        proof {
                            lemma_advance_to_snoc(s, c0, cur.i);
                        }
                        self.source.next();
                        push_char(&mut r, ch);
                        proof {
                            assert(r@ =~= s.subrange(c0.i, cur.i + 1));
                        }
                    } else {
                        proof {
                            lemma_scan_word_is(s, c0.i, cur.i);
                        }
                        return r;
                    }
                },
                None => {
                    proof {
                        lemma_scan_word_is(s, c0.i, cur.i);
                    }
                    return r;
                },
            }
        }
    }

    /// Consumes the body of a string literal: everything up to, but not
    /// including, the closing quote or the end of input.
    #[verifier::loop_isolation(false)]
    fn string_body(&mut self) -> (r: String)
        requires
            old(self).wf(),
        ensures
            final(self).wf(),
            final(self).spec_chars() == old(self).spec_chars(),
            final(self).spec_mark() == old(self).spec_mark(),
            ({
                let s = old(self).spec_chars();
                let c = old(self).spec_cursor();
                let j = scan_str(s, c.i);
                final(self).spec_cursor() == advance_to(s, c, j) && r@ == s.subrange(c.i, j)
            }),
    {
        let ghost s = self.spec_chars();
        let ghost c0 = self.spec_cursor();
        let mut r = String::new();
        proof {
            lemma_scan_str(s, c0.i);
            assert(r@ =~= s.subrange(c0.i, c0.i));
        }
        loop
            invariant
                self.wf(),
                self.spec_chars() == s,
                self.spec_mark() == old(self).spec_mark(),
                c0.i <= self.spec_cursor().i <= s.len(),
                forall|k: int| c0.i <= k < self.spec_cursor().i ==> (#[trigger] s[k]) != '"',
                self.spec_cursor() == advance_to(s, c0, self.spec_cursor().i),
                r@ == s.subrange(c0.i, self.spec_cursor().i),
            decreases s.len() - self.spec_cursor().i,
        {
            let ghost cur = self.spec_cursor();
            match self.source.peek() {
                Some(ch) => {
                    if ch != '"' {
                        proof {
                            lemma_advance_to_snoc(s, c0, cur.i);
                        }
                        self.source.next();
                        push_char(&mut r, ch);
                        proof {
                            assert(r@ =~= s.subrange(c0.i, cur.i + 1));
                        }
                    } else {
                        proof {
                            lemma_scan_str_is(s, c0.i, cur.i);
                        }
                        return r;
                    }
                },
                None => {
                    proof {
                        lemma_scan_str_is(s, c0.i, cur.i);
                    }
                    return r;
                },
            }
        }
    }

    /// Pulls the next token or syntax error, or nothing at the end of
    /// input: exactly the step [`lex_next`] describes from the current
    /// position.
    #[verifier::loop_isolation(false)]
    pub fn next(&mut self) -> (r: Option<LexItem>)
        requires
            old(self).wf(),
        ensures
            final(self).wf(),
            final(self).spec_chars() == old(self).spec_chars(),
            ({
                let step = lex_next(old(self).spec_chars(), old(self).spec_cursor());
                final(self).spec_cursor() == step.next && item_view(r) == step.item
            }),
    {
        let ghost s = self.spec_chars();
        let ghost c0 = self.spec_cursor();
        let mut in_comment: bool = false;
        loop
            invariant
                self.wf(),
                self.spec_chars() == s,
                (if in_comment {
                    lex_comment(s, self.spec_cursor())
                } else {
                    lex_next(s, self.spec_cursor())
                }) == lex_next(s, c0),
            decreases
                    s.len() - self.spec_cursor().i + (if in_comment {
                        1int
                    } else {
                        0int
                    }),
        {
            if in_comment {
                match self.source.next() {
                    None => {
                        return None;
                    },
                    Some(ch) => {
                        if ch == '\n' {
                            in_comment = false;
                        }
                    },
                }
            } else {
                self.row = self.source.row();
                self.col = self.source.col();
                let ghost c = self.spec_cursor();
                match self.source.peek() {
                    None => {
                        return None;
                    },
                    Some(ch) => {
                        if ch == '(' {
                            self.source.next();
                            return Some(self.local_token(Token::LeftParen));
                        } else if ch == ')' {
                            self.source.next();
                            return Some(self.local_token(Token::RightParen));
                        } else if ch == '{' {
                            self.source.next();
                            return Some(self.local_token(Token::LeftBrace));
                        } else if ch == '}' {
                            self.source.next();
                            return Some(self.local_token(Token::RightBrace));
                        } else if ch == ',' {
                            self.source.next();
                            return Some(self.local_token(Token::Comma));
                        } else if ch == '.' {
                            self.source.next();
                            return Some(self.local_token(Token::Dot));
                        } else if ch == '-' {
                            self.source.next();
                            return Some(self.local_token(Token::Minus));
                        } else if ch == '+' {
                            self.source.next();
                            return Some(self.local_token(Token::Plus));
                        } else if ch == ';' {
                            self.source.next();
                            return Some(self.local_token(Token::Semicolon));
                        } else if ch == '*' {
                            self.source.next();
                            return Some(self.local_token(Token::Star));
                        } else if ch == '/' {
                            self.source.next();
                            match self.source.peek() {
                                Some(c2) => {
                                    if c2 == '/' {
                                        self.source.next();
                                        in_comment = true;
                                    } else {
                                        return Some(self.local_token(Token::Slash));
                                    }
                                },
                                None => {
                                    return Some(self.local_token(Token::Slash));
                                },
                            }
                        } else if ch == '!' {
                            self.source.next();
                            match self.source.peek() {
                                Some(c2) => {
                                    if c2 == '=' {
                                        self.source.next();
                                        return Some(self.local_token(Token::BangEqual));
                                    } else {
                                        return Some(self.local_token(Token::Bang));
                                    }
                                },
                                None => {
                                    return Some(self.local_token(Token::Bang));
                                },
                            }
                        } else if ch == '=' {
                            self.source.next();
                            match self.source.peek() {
                                Some(c2) => {
                                    if c2 == '=' {
                                        self.source.next();
                                        return Some(self.local_token(Token::EqualEqual));
                                    } else {
                                        return Some(self.local_token(Token::Equal));
                                    }
                                },
                                None => {
                                    return Some(self.local_token(Token::Equal));
                                },
                            }
                        } else if ch == '>' {
                            self.source.next();
                            match self.source.peek() {
                                Some(c2) => {
                                    if c2 == '=' {
                                        self.source.next();
                                        return Some(self.local_token(Token::GreaterEqual));
                                    } else {
                                        return Some(self.local_token(Token::Greater));
                                    }
                                },
                                None => {
                                    return Some(self.local_token(Token::Greater));
                                },
                            }
                        } else if ch == '<' {
                            self.source.next();
                            match self.source.peek() {
                                Some(c2) => {
                                    if c2 == '=' {
                                        self.source.next();
                                        return Some(self.local_token(Token::LessEqual));
                                    } else {
                                        return Some(self.local_token(Token::Less));
                                    }
                                },
                                None => {
                                    return Some(self.local_token(Token::Less));
                                },
                            }
                        } else if ch == '"' {
                            self.source.next();
                            let ghost j = scan_str(s, c.i + 1);
                            proof {
                                lemma_scan_str(s, c.i + 1);
                                assert(advance_to(s, advance_one(c, s[c.i]), c.i + 1)
                                    == advance_one(c, s[c.i]));
                                assert(advance_to(s, c, c.i + 1) == advance_one(c, s[c.i]));
                            }
                            let body = self.string_body();
                            proof {
                                lemma_advance_to_trans(s, c, c.i + 1, j);
                                lemma_advance_to_i(s, c, j);
                            }
                            match self.source.next() {
                                Some(_) => {
                                    proof {
                                        lemma_advance_to_snoc(s, c, j);
                                    }
                                    return Some(self.local_token(Token::Str(body)));
                                },
                                None => {
                                    return Some(Err(Located::at_eof(Syntax::UnterminatedString)));
                                },
                            }
                        } else if is_digit_char(ch) {
                            let ghost j = scan_digits(s, c.i);
                            let mut numeral = self.integer();
                            proof {
                                lemma_scan_digits(s, c.i);
                                lemma_advance_to_i(s, c, j);
                            }
                            let ghost k = j;
                            let p1 = self.source.peek();
                            let p2 = self.source.peek2();
                            let mut fraction: bool = false;
                            match (p1, p2) {
                                (Some(d1), Some(d2)) => {
                                    if d1 == '.' && is_digit_char(d2) {
                                        fraction = true;
                                    }
                                },
                                _ => {},
                            }
                            if fraction {
                                let ghost k2 = scan_digits(s, j + 1);
                                proof {
                                    lemma_advance_to_snoc(s, c, j);
                                    lemma_scan_digits(s, j + 1);
                                    lemma_advance_to_trans(s, c, j + 1, k2);
                                }
                                self.source.next();
                                push_char(&mut numeral, '.');
                                let frac = self.integer();
                                numeral.append(frac.as_str());
                                proof {
                                    assert(numeral@ =~= s.subrange(c.i, k2));
                                }
                                let bits = number_from_decimal(&numeral);
                                return Some(self.local_token(Token::Number(bits)));
                            } else {
                                proof {
                                    assert(scan_digits(s, c.i) == scan_digits(s, c.i + 1));
                                    assert(j > c.i);
                                }
                                let bits = number_from_decimal(&numeral);
                                return Some(self.local_token(Token::Number(bits)));
                            }
                        } else {
                            let alpha = is_alphabetic_char(ch);
                            if alpha || ch == '_' {
                                self.source.next();
                                let mut w = String::new();
                                push_char(&mut w, ch);
                                let rest = self.word();
                                w.append(rest.as_str());
                                proof {
                                    lemma_scan_word(s, c.i + 1);
                                    assert(w@ =~= s.subrange(c.i, scan_word(s, c.i + 1)));
                                }
                                let t = word_token(w);
                                return Some(self.local_token(t));
                            } else if is_whitespace_char(ch) {
                                self.source.next();
                            } else {
                                self.source.next();
                                return Some(self.local_err(Syntax::StrayCharacter(ch)));
                            }
                        }
                    },
                }
            }
        }
    }
}

} // verus!
