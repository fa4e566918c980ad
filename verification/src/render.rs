//! Rendering tokens and lexical errors as text: the debug-style line form of
//! each token, and the scanner's human-readable error message.

use vstd::prelude::*;

use crate::text::push_char;
use crate::token::{LexError, Token, TokenModel};
use vstd::string::StringExecFns;

verus! {

/// The character of a single decimal digit.
pub open spec fn digit_char(d: int) -> char {
    ((d + 48) as u8) as char
}

/// The decimal digits of a non-negative number, most significant first.
pub open spec fn dec_digits(n: int) -> Seq<char>
    decreases n,
        when n >= 0
{
    if n < 10 {
        seq![digit_char(n)]
    } else {
        dec_digits(n / 10).push(digit_char(n % 10))
    }
}

/// The decimal rendering of a signed number: a leading minus sign on a
/// negative value, then the digits of its magnitude.
pub open spec fn dec_text(n: int) -> Seq<char> {
    if n < 0 {
        seq!['-'] + dec_digits(-n)
    } else {
        dec_digits(n)
    }
}

/// The one-line text of a token: the bare variant name for fixed symbols and
/// keywords, `Num(value)` for a number, `Ident("spelling")` for an
/// identifier.
pub open spec fn token_text(t: TokenModel) -> Seq<char> {
    match t {
        TokenModel::Plus => "Plus"@,
        TokenModel::Subtract => "Subtract"@,
        TokenModel::Multiply => "Multiply"@,
        TokenModel::Divide => "Divide"@,
        TokenModel::Modulus => "Modulus"@,
        TokenModel::Assign => "Assign"@,
        TokenModel::Num(n) => "Num("@ + dec_text(n) + ")"@,
        TokenModel::Ident(w) => "Ident(\""@ + w + "\")"@,
        TokenModel::If => "If"@,
        TokenModel::While => "While"@,
        TokenModel::Read => "Read"@,
        TokenModel::Func => "Func"@,
        TokenModel::Return => "Return"@,
        TokenModel::Int => "Int"@,
        TokenModel::Break => "Break"@,
        TokenModel::Print => "Print"@,
        TokenModel::Else => "Else"@,
        TokenModel::Continue => "Continue"@,
        TokenModel::End => "End"@,
        TokenModel::LeftParen => "LeftParen"@,
        TokenModel::RightParen => "RightParen"@,
        TokenModel::LeftCurly => "LeftCurly"@,
        TokenModel::RightCurly => "RightCurly"@,
        TokenModel::LeftBracket => "LeftBracket"@,
        TokenModel::RightBracket => "RightBracket"@,
        TokenModel::Comma => "Comma"@,
        TokenModel::Semicolon => "Semicolon"@,
        TokenModel::Less => "Less"@,
        TokenModel::LessEqual => "LessEqual"@,
        TokenModel::Greater => "Greater"@,
        TokenModel::GreaterEqual => "GreaterEqual"@,
        TokenModel::Equality => "Equality"@,
        TokenModel::NotEqual => "NotEqual"@,
    }
}

/// The message a lexical error carries to the user.
pub open spec fn error_text(e: LexError) -> Seq<char> {
    match e {
        LexError::UnrecognizedSymbol(c) => "Unrecognized symbol: '"@ + seq![c] + "'"@,
        LexError::IntegerOverflow => "Integer literal overflow"@,
    }
}

/// The character of a single decimal digit.
fn digit_to_char(d: u32) -> (c: char)
    requires
        d < 10,
    ensures
        c == digit_char(d as int),
{
    ((d as u8) + ('0' as u8)) as char
}

/// Appends the decimal digits of `m`, most significant first.
fn push_dec_digits(s: &mut String, m: u32)
    ensures
        final(s)@ == old(s)@ + dec_digits(m as int),
    decreases m,
{
    if m < 10 {
        push_char(s, digit_to_char(m));
        proof {
            assert(s@ =~= old(s)@ + dec_digits(m as int));
        }
    } else {
        push_dec_digits(s, m / 10);
        push_char(s, digit_to_char(m % 10));
        proof {
            assert(s@ =~= old(s)@ + dec_digits(m as int));
        }
    }
}

/// The decimal rendering of a signed 32-bit value.
fn int_text(n: i32) -> (r: String)
    ensures
        r@ == dec_text(n as int),
{
    let mut s = String::new();
    if n < 0 {
        push_char(&mut s, '-');
    }
    let wide: i64 = n as i64;
    let mag: u32 = if wide < 0 {
        (-wide) as u32
    } else {
        wide as u32
    };
    push_dec_digits(&mut s, mag);
    proof {
        if n < 0 {
            assert(s@ =~= seq!['-'] + dec_digits(-(n as int)));
        } else {
            assert(s@ =~= dec_digits(n as int));
        }
    }
    s
}

impl Token {
    /// The one-line text of this token, exactly as a token listing file
    /// records it.
    pub fn to_file_string(&self) -> (r: String)
        ensures
            r@ == token_text(self@),
    {
        match self {
            Token::Plus => "Plus".to_owned(),
            Token::Subtract => "Subtract".to_owned(),
            Token::Multiply => "Multiply".to_owned(),
            Token::Divide => "Divide".to_owned(),
            Token::Modulus => "Modulus".to_owned(),
            Token::Assign => "Assign".to_owned(),
            Token::Num(n) => {
                let mut s = "Num(".to_owned();
                let digits = int_text(*n);
                s.append(digits.as_str());
                s.append(")");
                s
            },
            Token::Ident(w) => {
                let mut s = "Ident(\"".to_owned();
                s.append(w.as_str());
                s.append("\")");
                s
            },
            Token::If => "If".to_owned(),
            Token::While => "While".to_owned(),
            Token::Read => "Read".to_owned(),
            Token::Func => "Func".to_owned(),
            Token::Return => "Return".to_owned(),
            Token::Int => "Int".to_owned(),
            Token::Break => "Break".to_owned(),
            Token::Print => "Print".to_owned(),
            Token::Else => "Else".to_owned(),
            Token::Continue => "Continue".to_owned(),
            Token::End => "End".to_owned(),
            Token::LeftParen => "LeftParen".to_owned(),
            Token::RightParen => "RightParen".to_owned(),
            Token::LeftCurly => "LeftCurly".to_owned(),
            Token::RightCurly => "RightCurly".to_owned(),
            Token::LeftBracket => "LeftBracket".to_owned(),
            Token::RightBracket => "RightBracket".to_owned(),
            Token::Comma => "Comma".to_owned(),
            Token::Semicolon => "Semicolon".to_owned(),
            Token::Less => "Less".to_owned(),
            Token::LessEqual => "LessEqual".to_owned(),
            Token::Greater => "Greater".to_owned(),
            Token::GreaterEqual => "GreaterEqual".to_owned(),
            Token::Equality => "Equality".to_owned(),
            Token::NotEqual => "NotEqual".to_owned(),
        }
    }
}

impl LexError {
    /// The human-readable message of this error, exactly as the scanner's
    /// caller prints it.
    pub fn message(&self) -> (r: String)
        ensures
            r@ == error_text(*self),
    {
        match self {
            LexError::UnrecognizedSymbol(c) => {
                let mut s = "Unrecognized symbol: '".to_owned();
                push_char(&mut s, *c);
                s.append("'");
                proof {
                    assert(s@ =~= error_text(*self));
                }
                s
            },
            LexError::IntegerOverflow => "Integer literal overflow".to_owned(),
        }
    }
}

} // verus!
