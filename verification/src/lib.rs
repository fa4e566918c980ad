//! A lexical analyzer for a small C-like toy language.
//!
//! The scanner makes a single left-to-right pass over the source bytes and
//! classifies them into typed tokens: arithmetic operators, relational
//! operators with one character of lookahead, delimiters, keywords,
//! identifiers and decimal number literals.  Whitespace and `#` line comments
//! are skipped.  The first unrecognized byte aborts the scan with an error.

pub mod laws;
pub mod model;
pub mod render;
pub mod scanner;
mod text;
pub mod token;

pub use scanner::lex;
pub use token::LexError;
pub use token::Token;
pub use token::TokenModel;
