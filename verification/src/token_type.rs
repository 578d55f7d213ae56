//! The kinds of tokens.

use vstd::prelude::*;

verus! {

/// The lexical category of a token.
#[derive(Debug, Clone, Copy, PartialEq, Eq, Structural)]
pub enum TokenType {
    // Single-character tokens.
    LeftParen,
    RightParen,
    LeftBrace,
    RightBrace,
    Comma,
    Dot,
    Minus,
    Plus,
    Semicolon,
    Slash,
    Star,
    // One or two character tokens.
    Bang,
    BangEqual,
    Equal,
    EqualEqual,
    Greater,
    GreaterEqual,
    Less,
    LessEqual,
    // Literals.
    Identifier,
    String,
    Number,
    // Keywords.
    And,
    Class,
    Else,
    False,
    For,
    Fun,
    If,
    Nil,
    Or,
    Print,
    Return,
    Super,
    This,
    True,
    Var,
    While,
    // Control.
    Eof,
    /// A character that starts no lexeme, or a string with no closing quote.
    Unknown,
}

impl TokenType {
    /// Whether this kind is one of the sixteen reserved words.
    pub open spec fn is_keyword(self) -> bool {
        self is And || self is Class || self is Else || self is False || self is For
            || self is Fun || self is If || self is Nil || self is Or || self is Print
            || self is Return || self is Super || self is This || self is True
            || self is Var || self is While
    }
}

} // verus!
