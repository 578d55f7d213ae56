//! A scanner for the Lox scripting language: it turns source text into the
//! sequence of tokens that a parser reads.
//!
//! [`grammar`] says, as mathematics over sequences of characters, what the
//! tokens of a text are. [`scanner`] computes them, and is proved to compute
//! exactly those. [`lemmas`] proves what holds of every scan: it ends with
//! its only `Eof`, its lines never fall, and its lexemes together with the
//! blanks and comments between them are the text again. [`lox`] runs the
//! scanner for a program and collects the errors to show.

pub mod grammar;
pub mod lemmas;
pub mod lox;
pub mod scanner;
pub mod text;
pub mod token;
pub mod token_type;
