//! The classes of characters that the scanner tells apart.

use vstd::prelude::*;

verus! {

/// Whether `c` is one of the ten decimal digits.
pub open spec fn is_digit(c: char) -> bool {
    '0' <= c <= '9'
}

/// Whether `c` is a character that separates tokens and is otherwise ignored:
/// a space, a carriage return, a tab or a line feed.
pub open spec fn is_blank(c: char) -> bool {
    c == ' ' || c == '\r' || c == '\t' || c == '\n'
}

/// What `char::is_alphabetic` returns for `c`: whether `c` has the Unicode
/// property Alphabetic.
pub uninterp spec fn alphabetic(c: char) -> bool;

/// What `char::is_alphanumeric` returns for `c`: whether `c` is alphabetic
/// or belongs to one of the Unicode categories of numbers.
pub uninterp spec fn alphanumeric(c: char) -> bool;

/// Whether a word may begin with `c`.
pub open spec fn starts_word(c: char) -> bool {
    alphabetic(c) || c == '_'
}

/// Whether a word that has begun goes on with `c`.
pub open spec fn continues_word(c: char) -> bool {
    alphanumeric(c) || c == '_'
}

/// Calls `char::is_alphabetic`. The result is a function of the character
/// alone; nothing is claimed of which characters it holds for.
#[verifier::external_body]
fn char_is_alphabetic(c: char) -> (r: bool)
    ensures
        r == alphabetic(c),
{
    c.is_alphabetic()
}

/// Calls `char::is_alphanumeric`. The result is a function of the character
/// alone; nothing is claimed of which characters it holds for.
#[verifier::external_body]
fn char_is_alphanumeric(c: char) -> (r: bool)
    ensures
        r == alphanumeric(c),
{
    c.is_alphanumeric()
}

/// Calls `String::from_iter` on a slice of characters: the string that holds
/// these characters in this order.
#[verifier::external_body]
pub(crate) fn string_of(chars: &[char]) -> (text: String)
    ensures
        text@ == chars@,
{
    String::from_iter(chars)
}

/// Tests whether `c` is a decimal digit.
pub fn is_decimal_digit(c: char) -> (r: bool)
    ensures
        r == is_digit(c),
{
    '0' <= c && c <= '9'
}

/// Tests whether a word may begin with `c`: with a letter or an underscore.
pub fn is_word_start(c: char) -> (r: bool)
    ensures
        r == starts_word(c),
{
    char_is_alphabetic(c) || c == '_'
}

/// Tests whether a word goes on with `c`: with a letter, a digit or an
/// underscore.
pub fn is_word_part(c: char) -> (r: bool)
    ensures
        r == continues_word(c),
{
    char_is_alphanumeric(c) || c == '_'
}

} // verus!
