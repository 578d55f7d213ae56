//! Tokens: what a scan produces.

use crate::grammar::TokenView;
use crate::scanner::Literal;
use crate::token_type::TokenType;
use vstd::prelude::*;

verus! {

/// One classified unit of source text.
#[derive(Debug, PartialEq, Eq)]
pub struct Token {
    /// The lexical category.
    pub token_type: TokenType,
    /// The exact text of the source that made this token.
    pub lexeme: String,
    /// The decoded value, for string and number literals.
    pub literal: Literal,
    /// The 1-based line on which the token begins.
    pub line: usize,
}

impl View for Token {
    type V = TokenView;

    open spec fn view(&self) -> TokenView {
        TokenView {
            token_type: self.token_type,
            lexeme: self.lexeme@,
            literal: self.literal@,
            line: self.line as nat,
        }
    }
}

impl DeepView for Token {
    type V = TokenView;

    open spec fn deep_view(&self) -> TokenView {
        self@
    }
}

impl Token {
    /// A token made of the four given parts.
    pub fn new(token_type: TokenType, lexeme: String, literal: Literal, line: usize) -> (token:
        Self)
        ensures
            token.token_type == token_type,
            token.lexeme == lexeme,
            token.literal == literal,
            token.line == line,
    {
        Token { token_type, lexeme, literal, line }
    }
}

impl Clone for Token {
    fn clone(&self) -> (copy: Self)
        ensures
            copy == *self,
    {
        Token {
            token_type: self.token_type,
            lexeme: self.lexeme.clone(),
            literal: self.literal.clone(),
            line: self.line,
        }
    }
}

} // verus!
