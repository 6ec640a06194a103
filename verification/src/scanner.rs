//! The scanner: one pass over the source text, from left to right, that
//! computes what the lexical grammar defines.

use crate::chars::{
    is_blank, is_decimal_digit, is_digit, is_word_part, is_word_start, starts_word, string_of,
};
use crate::grammar::{
    end_token, errors_from, follows, lemma_line_at_grows, lemma_run_end, lemma_unit_extent,
    line_at, line_count, operator, punctuation, run_end, scan, tokens_from, unit_at, unit_errors,
    unit_tokens, Run, Scanned, SyntaxErrorView,
};
use crate::token::{GenericTokenView, Literal, Token, TokenView};
use crate::token_kind::{lookup, TokenKind};
use vstd::prelude::*;
use vstd::slice::slice_subrange;

verus! {

/// A place where the source text is wrong.
#[derive(Debug, PartialEq, Eq)]
pub struct SyntaxError {
    /// The line on which the error was found, counted from 1.
    pub line: u32,
    /// What is wrong.
    pub message: String,
}

impl DeepView for SyntaxError {
    type V = SyntaxErrorView;

    open spec fn deep_view(&self) -> SyntaxErrorView {
        SyntaxErrorView { line: self.line as nat, message: self.message@ }
    }
}

/// A scanner over one source text. It is made for the text and used up by
/// scanning it.
pub struct Scanner {
    source: Vec<char>,
    tokens: Vec<Token>,
    errors: Vec<SyntaxError>,
    start: usize,
    current: usize,
    line: u32,
}

/// The state of a scanner as a mathematical value.
pub struct ScannerState {
    /// The characters of the source text.
    pub source: Seq<char>,
    /// The tokens gathered so far.
    pub tokens: Seq<TokenView>,
    /// The errors gathered so far.
    pub errors: Seq<SyntaxErrorView>,
    /// The position at which the unit that is being read begins.
    pub start: int,
    /// The position of the cursor: of the next character to read.
    pub current: int,
    /// The line that the scanner counts, from 1.
    pub line: int,
}

impl ScannerState {
    /// The state in which a scanner for `source` begins: at the first
    /// character, on line 1, with nothing gathered.
    pub open spec fn initial(source: Seq<char>) -> ScannerState {
        ScannerState {
            source,
            tokens: Seq::empty(),
            errors: Seq::empty(),
            start: 0,
            current: 0,
            line: 1,
        }
    }

    /// The cursor lies within the source, behind the start of the unit that
    /// is being read, and the line is the line of the cursor.
    pub open spec fn in_step(self) -> bool {
        &&& 0 <= self.start <= self.current <= self.source.len()
        &&& self.line == line_at(self.source, self.current)
    }

    /// The tokens and errors so far are those of the units before `pos`.
    pub open spec fn done_to(self, pos: int) -> bool {
        &&& self.tokens + tokens_from(self.source, pos) == tokens_from(self.source, 0)
        &&& self.errors + errors_from(self.source, pos) == errors_from(self.source, 0)
    }

    /// This state with the cursor at `pos` and the line in step with it.
    spec fn at(self, pos: int) -> ScannerState {
        ScannerState { current: pos, line: line_at(self.source, pos) as int, ..self }
    }

    /// This state after the unit that begins at `start` has been read.
    spec fn after_unit(self) -> ScannerState {
        ScannerState {
            tokens: self.tokens + unit_tokens(self.source, self.start),
            errors: self.errors + unit_errors(self.source, self.start),
            ..self.at(unit_at(self.source, self.start).end)
        }
    }
}

impl View for Scanner {
    type V = ScannerState;

    closed spec fn view(&self) -> ScannerState {
        ScannerState {
            source: self.source@,
            tokens: self.tokens.deep_view(),
            errors: self.errors.deep_view(),
            start: self.start as int,
            current: self.current as int,
            line: self.line as int,
        }
    }
}

impl Scanner {
    /// The scanner stands between two units with its line in step, and what
    /// it has gathered is what the units behind it give.
    pub open spec fn well_formed(&self) -> bool {
        &&& self@.in_step()
        &&& self@.done_to(self@.current)
    }

    /// Makes a scanner for `source`: at its first character, on line 1, with
    /// no token and no error gathered.
    pub fn new(source: &str) -> (scanner: Self)
        ensures
            scanner@ == ScannerState::initial(source@),
            scanner.well_formed(),
    {
        let mut chars: Vec<char> = Vec::new();
        for c in it: source.chars()
            invariant
                chars@ == it.seq().take(it.index() as int),
        {
            chars.push(c);
        }
        let scanner = Self {
            source: chars,
            tokens: Vec::new(),
            errors: Vec::new(),
            start: 0,
            current: 0,
            line: 1,
        };
        assert(scanner@.source == source@);
        assert(scanner@.tokens =~= Seq::<TokenView>::empty());
        assert(scanner@.errors =~= Seq::<SyntaxErrorView>::empty());
        assert(scanner@.tokens + tokens_from(source@, 0) =~= tokens_from(source@, 0));
        assert(scanner@.errors + errors_from(source@, 0) =~= errors_from(source@, 0));
        scanner
    }

    /// Tests whether the lines of the source can be counted in 32 bits, which
    /// scanning asks for.
    pub fn lines_fit(&self) -> (fit: bool)
        ensures
            fit == (line_count(self@.source) <= u32::MAX),
    {
        let mut line_feeds: usize = 0;
        let mut at: usize = 0;
        while at < self.source.len()
            invariant
                at <= self.source.len(),
                line_feeds <= at,
                line_at(self.source@, at as int) == 1 + line_feeds,
            decreases self.source.len() - at,
        {
            if self.source[at] == '\n' {
                line_feeds += 1;
            }
            at += 1;
        }
        line_feeds < 0xffff_ffff
    }

    /// Scans the source: all its tokens and the end token behind them where
    /// it holds no error, otherwise all its errors.
    pub fn scan_tokens(self) -> (result: Result<Vec<Token>, Vec<SyntaxError>>)
        requires
            self.well_formed(),
            line_count(self@.source) <= u32::MAX,
        ensures
            scan(self@.source) == match result {
                Ok(tokens) => Scanned::Ok(tokens.deep_view()),
                Err(errors) => Scanned::Err(errors.deep_view()),
            },
    {
        let ghost src = self.source@;
        let mut scanner = self;
        while !scanner.is_at_end()
            invariant
                scanner.source@ == src,
                scanner@.in_step(),
                scanner@.done_to(scanner.current as int),
                line_count(src) <= u32::MAX,
            decreases src.len() - scanner.current,
        {
            scanner.start = scanner.current;
            let ghost before = scanner@;
            scanner.scan_token();
            proof {
                lemma_unit_extent(src, before.start);
                let end = scanner.current as int;
                assert(scanner@.tokens + tokens_from(src, end) =~= before.tokens
                    + tokens_from(src, before.start));
                assert(scanner@.errors + errors_from(src, end) =~= before.errors
                    + errors_from(src, before.start));
            }
        }

        let token = Token::new(TokenKind::Eof, String::new(), None, scanner.line);
        scanner.tokens.push(token);
        proof {
            assert(scanner@.errors =~= errors_from(src, 0));
            assert(scanner.tokens.deep_view() =~= tokens_from(src, 0).push(end_token(src)));
        }

        if !scanner.errors.is_empty() {
            Err(scanner.errors)
        } else {
            Ok(scanner.tokens)
        }
    }

    fn is_at_end(&self) -> (at_end: bool)
        ensures
            at_end == (self.current >= self.source.len()),
    {
        self.current >= self.source.len()
    }

    /// The character at the cursor; the null character at the end.
    fn peek(&self) -> (c: char)
        ensures
            c == if self.current < self.source.len() {
                self.source@[self.current as int]
            } else {
                '\0'
            },
    {
        if self.is_at_end() {
            '\0'
        } else {
            self.source[self.current]
        }
    }

    /// The character behind the one at the cursor; the null character where
    /// there is none.
    fn peek_next(&self) -> (c: char)
        ensures
            c == if self.current + 1 < self.source.len() {
                self.source@[self.current + 1]
            } else {
                '\0'
            },
    {
        if self.is_at_end() || self.current + 1 >= self.source.len() {
            '\0'
        } else {
            self.source[self.current + 1]
        }
    }

    /// Reads the unit that begins at the cursor.
    fn scan_token(&mut self)
        requires
            old(self)@.in_step(),
            old(self).start == old(self).current,
            old(self).current < old(self).source.len(),
            line_count(old(self).source@) <= u32::MAX,
        ensures
            final(self)@ == old(self)@.after_unit(),
    {
        let line = self.line;
        let character = self.advance();
        proof {
            lemma_line_at_grows(self.source@, self.current as int, self.source@.len() as int);
        }

        match character {
            '(' => self.add_token(TokenKind::LeftParen, None, line),
            ')' => self.add_token(TokenKind::RightParen, None, line),
            '{' => self.add_token(TokenKind::LeftBrace, None, line),
            '}' => self.add_token(TokenKind::RightBrace, None, line),
            ',' => self.add_token(TokenKind::Comma, None, line),
            '.' => self.add_token(TokenKind::Dot, None, line),
            '-' => self.add_token(TokenKind::Minus, None, line),
            '+' => self.add_token(TokenKind::Plus, None, line),
            ';' => self.add_token(TokenKind::Semicolon, None, line),
            '*' => self.add_token(TokenKind::Star, None, line),
            '!' => {
                let kind = if self.matches('=') {
                    TokenKind::BangEqual
                } else {
                    TokenKind::Bang
                };
                self.add_token(kind, None, line)
            },
            '=' => {
                let kind = if self.matches('=') {
                    TokenKind::EqualEqual
                } else {
                    TokenKind::Equal
                };
                self.add_token(kind, None, line)
            },
            '<' => {
                let kind = if self.matches('=') {
                    TokenKind::LessEqual
                } else {
                    TokenKind::Less
                };
                self.add_token(kind, None, line)
            },
            '>' => {
                let kind = if self.matches('=') {
                    TokenKind::GreaterEqual
                } else {
                    TokenKind::Greater
                };
                self.add_token(kind, None, line)
            },
            '/' => {
                if self.matches('/') {
                    self.advance_line()
                } else {
                    self.add_token(TokenKind::Slash, None, line)
                }
            },
            ' ' | '\r' | '\t' => (),
            '\n' => self.line += 1,
            '"' => {
                self.string(line);
                return ;
            },
            letter => {
                if is_decimal_digit(letter) {
                    self.number(line);
                    return ;
                } else if is_word_start(letter) {
                    self.identifier(line);
                    return ;
                } else {
                    self.add_error("Unexpected Character.".to_string())
                }
            },
        }
        proof {
            self.lemma_unit_read(old(self)@);
        }
    }

    /// Reads the character at the cursor. The line is left as it is: who
    /// reads a line feed counts it.
    fn advance(&mut self) -> (c: char)
        requires
            old(self).current < old(self).source.len(),
        ensures
            c == old(self).source@[old(self).current as int],
            final(self)@ == (ScannerState {
                current: old(self).current + 1,
                ..old(self)@
            }),
    {
        let character = self.source[self.current];
        self.current += 1;
        character
    }

    /// Reads the character at the cursor if it is `expected`. The line is
    /// left as it is.
    fn matches(&mut self, expected: char) -> (read: bool)
        ensures
            read == follows(old(self).source@, old(self).current as int, expected),
            final(self)@ == (ScannerState {
                current: if read {
                    old(self).current + 1
                } else {
                    old(self).current as int
                },
                ..old(self)@
            }),
    {
        if self.is_at_end() || self.source[self.current] != expected {
            false
        } else {
            self.current += 1;
            true
        }
    }

    /// Counts a line if the character at the cursor is a line feed, so that the
    /// line is that of the cursor once the character has been read.
    fn count_line(&mut self)
        requires
            old(self)@.in_step(),
            old(self).current < old(self).source.len(),
            line_count(old(self).source@) <= u32::MAX,
        ensures
            final(self)@ == (ScannerState {
                line: line_at(old(self).source@, old(self).current + 1) as int,
                ..old(self)@
            }),
    {
        proof {
            lemma_line_at_grows(self.source@, self.current + 1, self.source@.len() as int);
        }
        if self.peek() == '\n' {
            self.line += 1;
        }
    }

    /// Reads to the end of the line.
    fn advance_line(&mut self)
        requires
            old(self)@.in_step(),
            line_count(old(self).source@) <= u32::MAX,
        ensures
            final(self)@ == old(self)@.at(
                run_end(old(self).source@, old(self).current as int, Run::Comment),
            ),
    {
        while self.peek() != '\n' && !self.is_at_end()
            invariant
                self@.in_step(),
                line_count(self.source@) <= u32::MAX,
                self@ == old(self)@.at(self.current as int),
                run_end(self.source@, self.current as int, Run::Comment) == run_end(
                    old(self).source@,
                    old(self).current as int,
                    Run::Comment,
                ),
            decreases self.source@.len() - self.current,
        {
            self.advance();
        }
    }

    /// The text of the source from position `from` to position `to`.
    fn text(&self, from: usize, to: usize) -> (text: String)
        requires
            from <= to <= self.source.len(),
        ensures
            text@ == self.source@.subrange(from as int, to as int),
    {
        string_of(slice_subrange(self.source.as_slice(), from, to))
    }

    /// Adds the token of kind `kind` whose text lies between the start of the
    /// unit and the cursor.
    fn add_token(&mut self, kind: TokenKind, literal: Option<Literal>, line: u32)
        requires
            old(self).start <= old(self).current <= old(self).source.len(),
        ensures
            final(self)@ == (ScannerState {
                tokens: old(self)@.tokens.push(
                    GenericTokenView {
                        kind,
                        lexeme: old(self).source@.subrange(
                            old(self).start as int,
                            old(self).current as int,
                        ),
                        literal: literal.deep_view(),
                        line: line as nat,
                    },
                ),
                ..old(self)@
            }),
    {
        let text = self.text(self.start, self.current);
        let token = Token::new(kind, text, literal, line);
        self.tokens.push(token);
        assert(self.tokens.deep_view() =~= old(self).tokens.deep_view().push(token.deep_view()));
    }

    /// Adds an error at the line of the cursor.
    fn add_error(&mut self, message: String)
        ensures
            final(self)@ == (ScannerState {
                errors: old(self)@.errors.push(
                    SyntaxErrorView { line: old(self).line as nat, message: message@ },
                ),
                ..old(self)@
            }),
    {
        let error = SyntaxError { line: self.line, message };
        self.errors.push(error);
        assert(self.errors.deep_view() =~= old(self).errors.deep_view().push(error.deep_view()));
    }

    /// Reads a string whose opening quote has been read.
    fn string(&mut self, line: u32)
        requires
            old(self)@.in_step(),
            line_count(old(self).source@) <= u32::MAX,
            old(self).current == old(self).start + 1,
            old(self).source@[old(self).start as int] == '"',
            line == line_at(old(self).source@, old(self).start as int),
        ensures
            final(self)@ == old(self)@.after_unit(),
    {
        while self.peek() != '"' && !self.is_at_end()
            invariant
                self@.in_step(),
                line_count(self.source@) <= u32::MAX,
                self@ == old(self)@.at(self.current as int),
                run_end(self.source@, self.current as int, Run::Text) == run_end(
                    old(self).source@,
                    old(self).current as int,
                    Run::Text,
                ),
            decreases self.source@.len() - self.current,
        {
            self.count_line();
            self.advance();
        }

        if self.is_at_end() {
            self.add_error("Unterminated string.".to_string());
            proof {
                self.lemma_unit_read(old(self)@);
            }
            return ;
        }
        self.advance();
        proof {
            lemma_run_end(self.source@, old(self).current as int, Run::Text);
        }
        let literal = self.text(self.start + 1, self.current - 1);
        self.add_token(TokenKind::String, Some(Literal::Text(literal)), line);
        proof {
            let lexeme = self.source@.subrange(self.start as int, self.current as int);
            assert(literal@ =~= lexeme.subrange(1, lexeme.len() - 1));
            self.lemma_unit_read(old(self)@);
        }
    }

    /// Reads a number whose first digit has been read.
    fn number(&mut self, line: u32)
        requires
            old(self)@.in_step(),
            line_count(old(self).source@) <= u32::MAX,
            old(self).current == old(self).start + 1,
            is_digit(old(self).source@[old(self).start as int]),
            line == line_at(old(self).source@, old(self).start as int),
        ensures
            final(self)@ == old(self)@.after_unit(),
    {
        while is_decimal_digit(self.peek())
            invariant
                self@.in_step(),
                line_count(self.source@) <= u32::MAX,
                self@ == old(self)@.at(self.current as int),
                run_end(self.source@, self.current as int, Run::Digits) == run_end(
                    old(self).source@,
                    old(self).start as int,
                    Run::Digits,
                ),
            decreases self.source@.len() - self.current,
        {
            self.advance();
        }

        let ghost whole = self.current as int;
        if self.peek() == '.' && is_decimal_digit(self.peek_next()) {
            self.advance();

            while is_decimal_digit(self.peek())
                invariant
                    self@.in_step(),
                    line_count(self.source@) <= u32::MAX,
                    self@ == old(self)@.at(self.current as int),
                    run_end(self.source@, self.current as int, Run::Digits) == run_end(
                        old(self).source@,
                        whole + 1,
                        Run::Digits,
                    ),
                decreases self.source@.len() - self.current,
            {
                self.advance();
            }
        }

        let numeral = self.text(self.start, self.current);
        self.add_token(TokenKind::Number, Some(Literal::Number(numeral)), line);
        proof {
            self.lemma_unit_read(old(self)@);
        }
    }

    /// Reads a word whose first character has been read.
    fn identifier(&mut self, line: u32)
        requires
            old(self)@.in_step(),
            line_count(old(self).source@) <= u32::MAX,
            old(self).current == old(self).start + 1,
            begins_word_only(old(self).source@[old(self).start as int]),
            line == line_at(old(self).source@, old(self).start as int),
        ensures
            final(self)@ == old(self)@.after_unit(),
    {
        while !self.is_at_end() && is_word_part(self.peek())
            invariant
                self@.in_step(),
                line_count(self.source@) <= u32::MAX,
                self@ == old(self)@.at(self.current as int),
                run_end(self.source@, self.current as int, Run::Word) == run_end(
                    old(self).source@,
                    old(self).current as int,
                    Run::Word,
                ),
            decreases self.source@.len() - self.current,
        {
            // The line is kept in step whatever characters a word goes on with.
            self.count_line();
            self.advance();
        }

        let text = self.text(self.start, self.current);
        let kind = lookup(text.as_str());
        self.add_token(kind, None, line);
        proof {
            self.lemma_unit_read(old(self)@);
        }
    }

    /// A scanner that stands at the end of the unit it began with, with the
    /// line of that place, and has added to what it had what this unit gives,
    /// is in the state after the unit.
    proof fn lemma_unit_read(&self, before: ScannerState)
        requires
            self@.line == line_at(before.source, self@.current),
            self@.source == before.source,
            self@.start == before.start,
            self@.current == unit_at(before.source, before.start).end,
            self@.tokens =~= before.tokens + unit_tokens(before.source, before.start),
            self@.errors =~= before.errors + unit_errors(before.source, before.start),
        ensures
            self@ == before.after_unit(),
    {
    }
}

/// Whether a word, and no other unit, begins with `c`.
spec fn begins_word_only(c: char) -> bool {
    &&& punctuation(c) is None
    &&& operator(c, false) is None
    &&& c != '/'
    &&& !is_blank(c)
    &&& c != '"'
    &&& !is_digit(c)
    &&& starts_word(c)
}

} // verus!
