//! A scanner for a small dynamically typed scripting language: it turns source
//! text into tokens with their lines, or into the list of lexical errors.

pub mod chars;
pub mod grammar;
pub mod laws;
pub mod scanner;
pub mod token;
pub mod token_kind;
