//! The lexical categories of the language and its reserved words.

use vstd::prelude::*;
use vstd::string::StringSliceAdditionalSpecFns;
use vstd::utf8::encode_utf8_decode_utf8;

verus! {

/// The category of a token.
#[derive(Clone, Copy, Debug, PartialEq, Eq, Hash, Structural)]
pub enum TokenKind {
    // Punctuation of one character.
    LeftParen,
    RightParen,
    LeftBrace,
    RightBrace,
    Comma,
    Dot,
    Minus,
    Plus,
    Semicolon,
    Slash,
    Star,
    // Operators of one or two characters.
    Bang,
    BangEqual,
    Equal,
    EqualEqual,
    Greater,
    GreaterEqual,
    Less,
    LessEqual,
    // Literals.
    Identifier,
    String,
    Number,
    // Reserved words.
    And,
    Class,
    Else,
    False,
    Fun,
    For,
    If,
    Nil,
    Or,
    Print,
    Return,
    Super,
    This,
    True,
    Var,
    While,
    // The end of the input.
    Eof,
}

impl TokenKind {
    /// Whether this is the kind of one of the sixteen reserved words.
    pub open spec fn is_reserved_word(self) -> bool {
        match self {
            TokenKind::And
            | TokenKind::Class
            | TokenKind::Else
            | TokenKind::False
            | TokenKind::Fun
            | TokenKind::For
            | TokenKind::If
            | TokenKind::Nil
            | TokenKind::Or
            | TokenKind::Print
            | TokenKind::Return
            | TokenKind::Super
            | TokenKind::This
            | TokenKind::True
            | TokenKind::Var
            | TokenKind::While => true,
            _ => false,
        }
    }
}

/// The table of reserved words: the kind that belongs to a spelling, if the
/// spelling is reserved. The match is exact and distinguishes upper from lower
/// case.
pub open spec fn keyword(text: Seq<char>) -> Option<TokenKind> {
    if text == "and"@ {
        Some(TokenKind::And)
    } else if text == "class"@ {
        Some(TokenKind::Class)
    } else if text == "else"@ {
        Some(TokenKind::Else)
    } else if text == "false"@ {
        Some(TokenKind::False)
    } else if text == "fun"@ {
        Some(TokenKind::Fun)
    } else if text == "for"@ {
        Some(TokenKind::For)
    } else if text == "if"@ {
        Some(TokenKind::If)
    } else if text == "nil"@ {
        Some(TokenKind::Nil)
    } else if text == "or"@ {
        Some(TokenKind::Or)
    } else if text == "print"@ {
        Some(TokenKind::Print)
    } else if text == "return"@ {
        Some(TokenKind::Return)
    } else if text == "super"@ {
        Some(TokenKind::Super)
    } else if text == "this"@ {
        Some(TokenKind::This)
    } else if text == "true"@ {
        Some(TokenKind::True)
    } else if text == "var"@ {
        Some(TokenKind::Var)
    } else if text == "while"@ {
        Some(TokenKind::While)
    } else {
        None
    }
}

/// The kind of a word: that of the reserved word it spells, else `Identifier`.
pub open spec fn word_kind(text: Seq<char>) -> TokenKind {
    match keyword(text) {
        Some(kind) => kind,
        None => TokenKind::Identifier,
    }
}

/// Tests whether two strings hold the same characters in the same order, by
/// their bytes: two texts are the same exactly when their encodings are.
fn same_text(left: &str, right: &str) -> (same: bool)
    ensures
        same == (left@ == right@),
{
    let left_bytes = left.as_bytes();
    let right_bytes = right.as_bytes();
    proof {
        encode_utf8_decode_utf8(left@);
        encode_utf8_decode_utf8(right@);
    }
    if left_bytes.len() != right_bytes.len() {
        return false;
    }
    let mut at: usize = 0;
    while at < left_bytes.len()
        invariant
            left_bytes@ == left.spec_bytes(),
            right_bytes@ == right.spec_bytes(),
            left_bytes@.len() == right_bytes@.len(),
            at <= left_bytes@.len(),
            forall|i: int| 0 <= i < at ==> left_bytes@[i] == right_bytes@[i],
        decreases left_bytes@.len() - at,
    {
        if left_bytes[at] != right_bytes[at] {
            return false;
        }
        at += 1;
    }
    assert(left_bytes@ =~= right_bytes@);
    true
}

/// Looks a word up in the table of reserved words.
pub fn lookup(text: &str) -> (kind: TokenKind)
    ensures
        kind == word_kind(text@),
{
    if same_text(text, "and") {
        TokenKind::And
    } else if same_text(text, "class") {
        TokenKind::Class
    } else if same_text(text, "else") {
        TokenKind::Else
    } else if same_text(text, "false") {
        TokenKind::False
    } else if same_text(text, "fun") {
        TokenKind::Fun
    } else if same_text(text, "for") {
        TokenKind::For
    } else if same_text(text, "if") {
        TokenKind::If
    } else if same_text(text, "nil") {
        TokenKind::Nil
    } else if same_text(text, "or") {
        TokenKind::Or
    } else if same_text(text, "print") {
        TokenKind::Print
    } else if same_text(text, "return") {
        TokenKind::Return
    } else if same_text(text, "super") {
        TokenKind::Super
    } else if same_text(text, "this") {
        TokenKind::This
    } else if same_text(text, "true") {
        TokenKind::True
    } else if same_text(text, "var") {
        TokenKind::Var
    } else if same_text(text, "while") {
        TokenKind::While
    } else {
        TokenKind::Identifier
    }
}

/// A word is an identifier or a reserved word, and an identifier exactly when
/// its spelling is not in the table.
pub proof fn lemma_word_kind(text: Seq<char>)
    ensures
        word_kind(text) == TokenKind::Identifier || word_kind(text).is_reserved_word(),
        word_kind(text) == TokenKind::Identifier <==> keyword(text) is None,
{
}

} // verus!
