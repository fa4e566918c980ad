//! The token vocabulary of the language, its mathematical model, and the
//! lexical error type.

use vstd::prelude::*;

verus! {

/// One lexical unit of the language.
///
/// `Num` carries the signed 32-bit value of a decimal literal; `Ident`
/// carries the exact source spelling of an identifier.  All other variants
/// are fixed symbols, keywords, or the `End` sentinel that closes every
/// successful scan.
#[derive(Debug, PartialEq, Eq)]
pub enum Token {
    Plus,
    Subtract,
    Multiply,
    Divide,
    Modulus,
    Assign,
    Num(i32),
    Ident(String),
    If,
    While,
    Read,
    Func,
    Return,
    Int,
    Break,
    Print,
    Else,
    Continue,
    End,
    LeftParen,
    RightParen,
    LeftCurly,
    RightCurly,
    LeftBracket,
    RightBracket,
    Comma,
    Semicolon,
    Less,
    LessEqual,
    Greater,
    GreaterEqual,
    Equality,
    NotEqual,
}

/// The mathematical image of a [`Token`]: payloads are unbounded integers
/// and character sequences, so contracts can speak of token sequences
/// without reference to heap values.
pub enum TokenModel {
    Plus,
    Subtract,
    Multiply,
    Divide,
    Modulus,
    Assign,
    Num(int),
    Ident(Seq<char>),
    If,
    While,
    Read,
    Func,
    Return,
    Int,
    Break,
    Print,
    Else,
    Continue,
    End,
    LeftParen,
    RightParen,
    LeftCurly,
    RightCurly,
    LeftBracket,
    RightBracket,
    Comma,
    Semicolon,
    Less,
    LessEqual,
    Greater,
    GreaterEqual,
    Equality,
    NotEqual,
}

impl View for Token {
    type V = TokenModel;

    open spec fn view(&self) -> TokenModel {
        match self {
            Token::Plus => TokenModel::Plus,
            Token::Subtract => TokenModel::Subtract,
            Token::Multiply => TokenModel::Multiply,
            Token::Divide => TokenModel::Divide,
            Token::Modulus => TokenModel::Modulus,
            Token::Assign => TokenModel::Assign,
            Token::Num(n) => TokenModel::Num(*n as int),
            Token::Ident(s) => TokenModel::Ident(s@),
            Token::If => TokenModel::If,
            Token::While => TokenModel::While,
            Token::Read => TokenModel::Read,
            Token::Func => TokenModel::Func,
            Token::Return => TokenModel::Return,
            Token::Int => TokenModel::Int,
            Token::Break => TokenModel::Break,
            Token::Print => TokenModel::Print,
            Token::Else => TokenModel::Else,
            Token::Continue => TokenModel::Continue,
            Token::End => TokenModel::End,
            Token::LeftParen => TokenModel::LeftParen,
            Token::RightParen => TokenModel::RightParen,
            Token::LeftCurly => TokenModel::LeftCurly,
            Token::RightCurly => TokenModel::RightCurly,
            Token::LeftBracket => TokenModel::LeftBracket,
            Token::RightBracket => TokenModel::RightBracket,
            Token::Comma => TokenModel::Comma,
            Token::Semicolon => TokenModel::Semicolon,
            Token::Less => TokenModel::Less,
            Token::LessEqual => TokenModel::LessEqual,
            Token::Greater => TokenModel::Greater,
            Token::GreaterEqual => TokenModel::GreaterEqual,
            Token::Equality => TokenModel::Equality,
            Token::NotEqual => TokenModel::NotEqual,
        }
    }
}

/// The views of a sequence of tokens, in order.
pub open spec fn token_views(ts: Seq<Token>) -> Seq<TokenModel> {
    ts.map_values(|t: Token| t@)
}

/// Appending one token appends its view.
pub proof fn lemma_token_views_push(ts: Seq<Token>, t: Token)
    ensures
        token_views(ts.push(t)) == token_views(ts) + seq![t@],
{
    assert(token_views(ts.push(t)) =~= token_views(ts) + seq![t@]);
}

/// No tokens, no views.
pub proof fn lemma_token_views_empty()
    ensures
        token_views(Seq::<Token>::empty()) == Seq::<TokenModel>::empty(),
{
    assert(token_views(Seq::<Token>::empty()) =~= Seq::<TokenModel>::empty());
}

/// A lexical error: either an input byte that starts no token, or a decimal
/// literal whose value does not fit in a signed 32-bit integer.
#[derive(Debug, Clone, Copy, PartialEq, Eq, Structural)]
pub enum LexError {
    /// The offending character, exactly as it stood in the source.
    UnrecognizedSymbol(char),
    /// A maximal digit run whose value exceeds `i32::MAX`.
    IntegerOverflow,
}

} // verus!
