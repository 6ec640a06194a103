//! The lexical grammar: the units that a source text falls into, and the
//! tokens and errors that they give.
//!
//! A source text is read from left to right as a row of units that leave no
//! gap. A unit is a token, something to pass over (blank space, a comment), or
//! a place where the text is wrong. Everything here is a definition over the
//! characters of the source; the scanner is proved to compute it.

use crate::chars::{continues_word, is_blank, is_digit, starts_word};
use crate::token::{GenericTokenView, LiteralView, TokenView};
use crate::token_kind::{word_kind, TokenKind};
use vstd::prelude::*;

verus! {

/// The line, counted from 1, on which position `pos` of `src` lies: one more
/// than the number of line feeds before `pos`.
pub open spec fn line_at(src: Seq<char>, pos: int) -> nat
    decreases pos,
{
    if pos <= 0 {
        1
    } else if src[pos - 1] == '\n' {
        line_at(src, pos - 1) + 1
    } else {
        line_at(src, pos - 1)
    }
}

/// The number of lines that `src` touches: the line of its end.
pub open spec fn line_count(src: Seq<char>) -> nat {
    line_at(src, src.len() as int)
}

/// The message of the error for a character that begins no unit.
pub open spec fn unexpected_character() -> Seq<char> {
    "Unexpected Character."@
}

/// The message of the error for a string that the input ends in.
pub open spec fn unterminated_string() -> Seq<char> {
    "Unterminated string."@
}

/// A stretch of like characters that is read as far as it goes.
pub enum Run {
    /// The rest of a line: everything but a line feed.
    Comment,
    /// The inside of a string: everything but a double quote.
    Text,
    /// Decimal digits.
    Digits,
    /// The characters of a word after its first.
    Word,
}

/// Whether `c` belongs to a run.
pub open spec fn in_run(run: Run, c: char) -> bool {
    match run {
        Run::Comment => c != '\n',
        Run::Text => c != '"',
        Run::Digits => is_digit(c),
        Run::Word => continues_word(c),
    }
}

/// Where the run that is read from position `from` ends: at the first
/// character from there on that does not belong to it, or at the end of `src`.
pub open spec fn run_end(src: Seq<char>, from: int, run: Run) -> int
    decreases src.len() - from,
{
    if 0 <= from < src.len() && in_run(run, src[from]) {
        run_end(src, from + 1, run)
    } else {
        from
    }
}

/// Whether the character at position `at` of `src` is there and is `c`.
pub open spec fn follows(src: Seq<char>, at: int, c: char) -> bool {
    0 <= at < src.len() && src[at] == c
}

/// The kind of the token that a punctuation character is, if it is one.
pub open spec fn punctuation(c: char) -> Option<TokenKind> {
    if c == '(' {
        Some(TokenKind::LeftParen)
    } else if c == ')' {
        Some(TokenKind::RightParen)
    } else if c == '{' {
        Some(TokenKind::LeftBrace)
    } else if c == '}' {
        Some(TokenKind::RightBrace)
    } else if c == ',' {
        Some(TokenKind::Comma)
    } else if c == '.' {
        Some(TokenKind::Dot)
    } else if c == '-' {
        Some(TokenKind::Minus)
    } else if c == '+' {
        Some(TokenKind::Plus)
    } else if c == ';' {
        Some(TokenKind::Semicolon)
    } else if c == '*' {
        Some(TokenKind::Star)
    } else {
        None
    }
}

/// The kind of the operator that begins with `c`, if one does: alone, or
/// with an equals sign behind it.
pub open spec fn operator(c: char, with_equals: bool) -> Option<TokenKind> {
    if c == '!' {
        Some(if with_equals { TokenKind::BangEqual } else { TokenKind::Bang })
    } else if c == '=' {
        Some(if with_equals { TokenKind::EqualEqual } else { TokenKind::Equal })
    } else if c == '<' {
        Some(if with_equals { TokenKind::LessEqual } else { TokenKind::Less })
    } else if c == '>' {
        Some(if with_equals { TokenKind::GreaterEqual } else { TokenKind::Greater })
    } else {
        None
    }
}

/// Where the number that begins at `start` ends: behind its digits, and behind
/// a fraction if a point and at least one digit follow them. A point with no
/// digit behind it is not part of the number.
pub open spec fn number_end(src: Seq<char>, start: int) -> int {
    let whole = run_end(src, start, Run::Digits);
    if follows(src, whole, '.') && whole + 1 < src.len() && is_digit(src[whole + 1]) {
        run_end(src, whole + 1, Run::Digits)
    } else {
        whole
    }
}

/// What a unit gives.
pub enum Lexed {
    /// A token of this kind.
    Token(TokenKind),
    /// Nothing: blank space or a comment.
    Nothing,
    /// An error with this message.
    Error(Seq<char>),
}

/// A unit, seen from its first character: where it ends and what it gives.
pub struct Unit {
    pub end: int,
    pub lexed: Lexed,
}

/// The unit that begins at position `start` of `src`.
pub open spec fn unit_at(src: Seq<char>, start: int) -> Unit
    recommends
        0 <= start < src.len(),
{
    let c = src[start];
    let next = start + 1;
    if punctuation(c) is Some {
        Unit { end: next, lexed: Lexed::Token(punctuation(c)->0) }
    } else if operator(c, false) is Some {
        // The longer operator is taken wherever it is there.
        let with_equals = follows(src, next, '=');
        Unit {
            end: if with_equals { next + 1 } else { next },
            lexed: Lexed::Token(operator(c, with_equals)->0),
        }
    } else if c == '/' {
        if follows(src, next, '/') {
            // A comment ends before the line feed, which is a unit of its own.
            Unit { end: run_end(src, next + 1, Run::Comment), lexed: Lexed::Nothing }
        } else {
            Unit { end: next, lexed: Lexed::Token(TokenKind::Slash) }
        }
    } else if is_blank(c) {
        Unit { end: next, lexed: Lexed::Nothing }
    } else if c == '"' {
        let close = run_end(src, next, Run::Text);
        if close < src.len() {
            Unit { end: close + 1, lexed: Lexed::Token(TokenKind::String) }
        } else {
            Unit { end: close, lexed: Lexed::Error(unterminated_string()) }
        }
    } else if is_digit(c) {
        Unit { end: number_end(src, start), lexed: Lexed::Token(TokenKind::Number) }
    } else if starts_word(c) {
        let end = run_end(src, next, Run::Word);
        Unit { end, lexed: Lexed::Token(word_kind(src.subrange(start, end))) }
    } else {
        Unit { end: next, lexed: Lexed::Error(unexpected_character()) }
    }
}

/// The value that a token of kind `kind` with the text `lexeme` carries: a
/// string its text between the quotes, a number its numeral, any other none.
pub open spec fn literal_of(kind: TokenKind, lexeme: Seq<char>) -> Option<LiteralView> {
    match kind {
        TokenKind::String => Some(LiteralView::Text(lexeme.subrange(1, lexeme.len() - 1))),
        TokenKind::Number => Some(LiteralView::Number(lexeme)),
        _ => None,
    }
}

/// The token of kind `kind` that spans the positions from `start` to `end`.
/// Its line is that of its first character.
pub open spec fn token_at(src: Seq<char>, start: int, end: int, kind: TokenKind) -> TokenView {
    let lexeme = src.subrange(start, end);
    GenericTokenView { kind, lexeme, literal: literal_of(kind, lexeme), line: line_at(src, start) }
}

/// The token that ends every sequence of tokens: it has no text and no
/// value, and the line of the end of the source.
pub open spec fn end_token(src: Seq<char>) -> TokenView {
    GenericTokenView {
        kind: TokenKind::Eof,
        lexeme: Seq::empty(),
        literal: None,
        line: line_count(src),
    }
}

/// An error as a mathematical value: the line on which it was found, and what
/// is wrong.
pub struct SyntaxErrorView {
    pub line: nat,
    pub message: Seq<char>,
}

/// The tokens, none or one, that the unit at `start` gives.
pub open spec fn unit_tokens(src: Seq<char>, start: int) -> Seq<TokenView> {
    let unit = unit_at(src, start);
    match unit.lexed {
        Lexed::Token(kind) => seq![token_at(src, start, unit.end, kind)],
        _ => Seq::empty(),
    }
}

/// The errors, none or one, that the unit at `start` gives. The line of an
/// error is the line on which the unit ends, where the error is found.
pub open spec fn unit_errors(src: Seq<char>, start: int) -> Seq<SyntaxErrorView> {
    let unit = unit_at(src, start);
    match unit.lexed {
        Lexed::Error(message) => seq![SyntaxErrorView { line: line_at(src, unit.end), message }],
        _ => Seq::empty(),
    }
}

/// The tokens of the units from position `pos` on, in their order.
pub open spec fn tokens_from(src: Seq<char>, pos: int) -> Seq<TokenView>
    decreases src.len() - pos,
{
    if 0 <= pos < src.len() {
        proof {
            lemma_unit_extent(src, pos);
        }
        unit_tokens(src, pos) + tokens_from(src, unit_at(src, pos).end)
    } else {
        Seq::empty()
    }
}

/// The errors of the units from position `pos` on, in their order.
pub open spec fn errors_from(src: Seq<char>, pos: int) -> Seq<SyntaxErrorView>
    decreases src.len() - pos,
{
    if 0 <= pos < src.len() {
        proof {
            lemma_unit_extent(src, pos);
        }
        unit_errors(src, pos) + errors_from(src, unit_at(src, pos).end)
    } else {
        Seq::empty()
    }
}

/// The outcome of a scan as a mathematical value: the tokens, or the errors.
pub type Scanned = Result<Seq<TokenView>, Seq<SyntaxErrorView>>;

/// What scanning `src` gives. Where no unit is in error: the tokens of all
/// units in their order, and the end token behind them. Otherwise the errors
/// of all units in their order, and no token.
pub open spec fn scan(src: Seq<char>) -> Scanned {
    let errors = errors_from(src, 0);
    if errors.len() == 0 {
        Ok(tokens_from(src, 0).push(end_token(src)))
    } else {
        Err(errors)
    }
}

/// A run ends at or behind the position it is read from and within the
/// source, holds only characters that belong to it, and stops for a character
/// that does not, or for the end of the source.
pub proof fn lemma_run_end(src: Seq<char>, from: int, run: Run)
    requires
        0 <= from <= src.len(),
    ensures
        from <= run_end(src, from, run) <= src.len(),
        forall|i: int| from <= i < run_end(src, from, run) ==> in_run(run, #[trigger] src[i]),
        run_end(src, from, run) < src.len() ==> !in_run(run, src[run_end(src, from, run)]),
    decreases src.len() - from,
{
    if from < src.len() && in_run(run, src[from]) {
        lemma_run_end(src, from + 1, run);
    }
}

/// A unit holds at least one character and ends within the source.
pub proof fn lemma_unit_extent(src: Seq<char>, start: int)
    requires
        0 <= start < src.len(),
    ensures
        start < unit_at(src, start).end <= src.len(),
{
    lemma_run_end(src, start + 1, Run::Text);
    lemma_run_end(src, start + 1, Run::Word);
    lemma_run_end(src, start, Run::Digits);
    if start + 2 <= src.len() {
        lemma_run_end(src, start + 2, Run::Comment);
    }
    let whole = run_end(src, start, Run::Digits);
    if whole + 1 <= src.len() {
        lemma_run_end(src, whole + 1, Run::Digits);
    }
}

/// The line grows with the position, by at most one for each character.
pub proof fn lemma_line_at_grows(src: Seq<char>, from: int, to: int)
    requires
        0 <= from <= to,
    ensures
        line_at(src, from) <= line_at(src, to) <= line_at(src, from) + (to - from),
    decreases to - from,
{
    if from < to {
        lemma_line_at_grows(src, from, to - 1);
    }
}

} // verus!
