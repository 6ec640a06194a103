//! Tokens and the values they carry.

use crate::token_kind::TokenKind;
use std::fmt::Debug;
use vstd::prelude::*;

verus! {

/// The value of a literal token.
#[derive(Debug, PartialEq, Eq)]
pub enum Literal {
    /// The characters of a string literal, without its quotes.
    Text(String),
    /// The decimal numeral of a number literal, as it is written in the source:
    /// digits, with an optional fraction of a point and more digits.
    Number(String),
}

/// A `Literal` as a mathematical value.
pub enum LiteralView {
    Text(Seq<char>),
    Number(Seq<char>),
}

impl DeepView for Literal {
    type V = LiteralView;

    open spec fn deep_view(&self) -> LiteralView {
        match self {
            Literal::Text(text) => LiteralView::Text(text@),
            Literal::Number(numeral) => LiteralView::Number(numeral@),
        }
    }
}

/// A lexical unit of the source: its kind, the text it was read from, the
/// value it carries and the line on which it begins.
#[derive(Debug, PartialEq, Eq)]
pub struct GenericToken<T: Debug> {
    pub kind: TokenKind,
    pub lexeme: String,
    pub literal: T,
    pub line: u32,
}

/// A `GenericToken` as a mathematical value.
pub struct GenericTokenView<V> {
    pub kind: TokenKind,
    pub lexeme: Seq<char>,
    pub literal: V,
    pub line: nat,
}

impl<T: Debug + DeepView> DeepView for GenericToken<T> {
    type V = GenericTokenView<T::V>;

    open spec fn deep_view(&self) -> GenericTokenView<T::V> {
        GenericTokenView {
            kind: self.kind,
            lexeme: self.lexeme@,
            literal: self.literal.deep_view(),
            line: self.line as nat,
        }
    }
}

impl<T: Debug> GenericToken<T> {
    /// Makes a token of its four parts.
    pub fn new(kind: TokenKind, lexeme: String, literal: T, line: u32) -> (token: Self)
        ensures
            token.kind == kind,
            token.lexeme == lexeme,
            token.literal == literal,
            token.line == line,
    {
        Self { kind, lexeme, literal, line }
    }
}

/// The tokens that the scanner makes.
pub type Token = GenericToken<Option<Literal>>;

/// A `Token` as a mathematical value.
pub type TokenView = GenericTokenView<Option<LiteralView>>;

} // verus!
