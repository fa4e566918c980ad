//! The mathematical model of the scan: a recursive specification that maps a
//! sequence of source bytes to the token sequence (or lexical error) that the
//! scanner must produce.

use vstd::prelude::*;

use crate::token::LexError;
use crate::token::TokenModel;

verus! {

/// An ASCII decimal digit.
pub open spec fn is_digit_byte(b: u8) -> bool {
    '0' as u8 <= b <= '9' as u8
}

/// An ASCII letter, either case.
pub open spec fn is_letter_byte(b: u8) -> bool {
    ('a' as u8 <= b <= 'z' as u8) || ('A' as u8 <= b <= 'Z' as u8)
}

/// A byte that may continue an identifier or keyword: a letter or a digit.
pub open spec fn is_word_byte(b: u8) -> bool {
    is_letter_byte(b) || is_digit_byte(b)
}

/// A byte the scanner skips without emitting a token.
pub open spec fn is_whitespace_byte(b: u8) -> bool {
    b == ' ' as u8 || b == '\n' as u8
}

/// The character a source byte stands for, read as a single code unit.
pub open spec fn byte_char(b: u8) -> char {
    b as char
}

/// The characters a run of source bytes stands for.
pub open spec fn chars_of(bs: Seq<u8>) -> Seq<char> {
    bs.map_values(|b: u8| byte_char(b))
}

/// The first position at or after `i` that does not hold a digit
/// (or the end of the input).
pub open spec fn digit_run_end(s: Seq<u8>, i: int) -> int
    decreases s.len() - i,
        when 0 <= i <= s.len()
{
    if i < s.len() && is_digit_byte(s[i]) {
        digit_run_end(s, i + 1)
    } else {
        i
    }
}

/// The first position at or after `i` that does not hold a word byte
/// (or the end of the input).
pub open spec fn word_run_end(s: Seq<u8>, i: int) -> int
    decreases s.len() - i,
        when 0 <= i <= s.len()
{
    if i < s.len() && is_word_byte(s[i]) {
        word_run_end(s, i + 1)
    } else {
        i
    }
}

/// The position just past the line comment that starts at or before `i`:
/// one past the first newline at or after `i`, or the end of the input if
/// no newline follows.
pub open spec fn comment_skip_end(s: Seq<u8>, i: int) -> int
    decreases s.len() - i,
        when 0 <= i <= s.len()
{
    if i < s.len() {
        if s[i] == '\n' as u8 {
            i + 1
        } else {
            comment_skip_end(s, i + 1)
        }
    } else {
        i
    }
}

/// The value of the decimal digit run `s[i..j]`, most significant digit
/// first.
pub open spec fn digits_value(s: Seq<u8>, i: int, j: int) -> int
    decreases j - i,
        when i <= j
{
    if i < j {
        digits_value(s, i, j - 1) * 10 + (s[j - 1] - '0' as u8)
    } else {
        0
    }
}

/// The reserved words of the language.
pub open spec fn is_keyword(w: Seq<char>) -> bool {
    ||| w == "func"@
    ||| w == "return"@
    ||| w == "int"@
    ||| w == "print"@
    ||| w == "read"@
    ||| w == "while"@
    ||| w == "if"@
    ||| w == "else"@
    ||| w == "break"@
    ||| w == "continue"@
}

/// The token a maximal letter-and-digit run stands for: the keyword token on
/// an exact match against the reserved word set, an identifier otherwise.
pub open spec fn classify_word(w: Seq<char>) -> TokenModel {
    if w == "func"@ {
        TokenModel::Func
    } else if w == "return"@ {
        TokenModel::Return
    } else if w == "int"@ {
        TokenModel::Int
    } else if w == "print"@ {
        TokenModel::Print
    } else if w == "read"@ {
        TokenModel::Read
    } else if w == "while"@ {
        TokenModel::While
    } else if w == "if"@ {
        TokenModel::If
    } else if w == "else"@ {
        TokenModel::Else
    } else if w == "break"@ {
        TokenModel::Break
    } else if w == "continue"@ {
        TokenModel::Continue
    } else {
        TokenModel::Ident(w)
    }
}

/// The fixed token a single punctuation or arithmetic byte stands for, if
/// any.  The bytes that take lookahead (`=`, `<`, `>`, `!`) are not here.
pub open spec fn punct_token(b: u8) -> Option<TokenModel> {
    if b == '+' as u8 {
        Some(TokenModel::Plus)
    } else if b == '-' as u8 {
        Some(TokenModel::Subtract)
    } else if b == '*' as u8 {
        Some(TokenModel::Multiply)
    } else if b == '/' as u8 {
        Some(TokenModel::Divide)
    } else if b == '%' as u8 {
        Some(TokenModel::Modulus)
    } else if b == '(' as u8 {
        Some(TokenModel::LeftParen)
    } else if b == ')' as u8 {
        Some(TokenModel::RightParen)
    } else if b == '{' as u8 {
        Some(TokenModel::LeftCurly)
    } else if b == '}' as u8 {
        Some(TokenModel::RightCurly)
    } else if b == '[' as u8 {
        Some(TokenModel::LeftBracket)
    } else if b == ']' as u8 {
        Some(TokenModel::RightBracket)
    } else if b == ',' as u8 {
        Some(TokenModel::Comma)
    } else if b == ';' as u8 {
        Some(TokenModel::Semicolon)
    } else {
        None
    }
}

/// Prepends already-emitted tokens to the outcome of scanning the rest of
/// the input; an error swallows every token emitted before it.
pub open spec fn with_prefix(
    pre: Seq<TokenModel>,
    r: Result<Seq<TokenModel>, LexError>,
) -> Result<Seq<TokenModel>, LexError> {
    match r {
        Ok(ts) => Ok(pre + ts),
        Err(e) => Err(e),
    }
}

/// The outcome of scanning `s` from position `i` to the end: the token
/// sequence emitted from there (closed by `End`), or the first lexical
/// error.
pub open spec fn spec_lex_from(s: Seq<u8>, i: int) -> Result<Seq<TokenModel>, LexError>
    decreases s.len() - i,
        when 0 <= i <= s.len()
        via spec_lex_from_decreases
{
    if i >= s.len() {
        Ok(seq![TokenModel::End])
    } else {
        let b = s[i];
        if is_whitespace_byte(b) {
            spec_lex_from(s, i + 1)
        } else if b == '#' as u8 {
            spec_lex_from(s, comment_skip_end(s, i))
        } else if is_digit_byte(b) {
            let j = digit_run_end(s, i);
            let v = digits_value(s, i, j);
            if v <= i32::MAX {
                with_prefix(seq![TokenModel::Num(v)], spec_lex_from(s, j))
            } else {
                Err(LexError::IntegerOverflow)
            }
        } else if is_letter_byte(b) {
            let j = word_run_end(s, i + 1);
            with_prefix(seq![classify_word(chars_of(s.subrange(i, j)))], spec_lex_from(s, j))
        } else if punct_token(b) is Some {
            with_prefix(seq![punct_token(b)->Some_0], spec_lex_from(s, i + 1))
        } else if b == '=' as u8 {
            if i + 1 < s.len() && s[i + 1] == '=' as u8 {
                with_prefix(seq![TokenModel::Equality], spec_lex_from(s, i + 2))
            } else {
                with_prefix(seq![TokenModel::Assign], spec_lex_from(s, i + 1))
            }
        } else if b == '<' as u8 {
            if i + 1 < s.len() && s[i + 1] == '=' as u8 {
                with_prefix(seq![TokenModel::LessEqual], spec_lex_from(s, i + 2))
            } else {
                with_prefix(seq![TokenModel::Less], spec_lex_from(s, i + 1))
            }
        } else if b == '>' as u8 {
            if i + 1 < s.len() && s[i + 1] == '=' as u8 {
                with_prefix(seq![TokenModel::GreaterEqual], spec_lex_from(s, i + 2))
            } else {
                with_prefix(seq![TokenModel::Greater], spec_lex_from(s, i + 1))
            }
        } else if b == '!' as u8 {
            if i + 1 < s.len() && s[i + 1] == '=' as u8 {
                with_prefix(seq![TokenModel::NotEqual], spec_lex_from(s, i + 2))
            } else {
                Err(LexError::UnrecognizedSymbol(byte_char(b)))
            }
        } else {
            Err(LexError::UnrecognizedSymbol(byte_char(b)))
        }
    }
}

#[via_fn]
proof fn spec_lex_from_decreases(s: Seq<u8>, i: int) {
    if 0 <= i <= s.len() && i < s.len() {
        lemma_comment_skip_end_bounds(s, i);
        lemma_digit_run_end_bounds(s, i);
        if is_digit_byte(s[i]) {
            assert(digit_run_end(s, i) == digit_run_end(s, i + 1));
            lemma_digit_run_end_bounds(s, i + 1);
        }
        if is_letter_byte(s[i]) {
            lemma_word_run_end_bounds(s, i + 1);
        }
    }
}

/// The outcome of scanning all of `s`.
pub open spec fn spec_lex(s: Seq<u8>) -> Result<Seq<TokenModel>, LexError> {
    spec_lex_from(s, 0)
}

/// A digit run never starts before its own start and never passes the end of
/// the input.
pub proof fn lemma_digit_run_end_bounds(s: Seq<u8>, i: int)
    requires
        0 <= i <= s.len(),
    ensures
        i <= digit_run_end(s, i) <= s.len(),
    decreases s.len() - i,
{
    if i < s.len() && is_digit_byte(s[i]) {
        lemma_digit_run_end_bounds(s, i + 1);
    }
}

/// A word run never starts before its own start and never passes the end of
/// the input.
pub proof fn lemma_word_run_end_bounds(s: Seq<u8>, i: int)
    requires
        0 <= i <= s.len(),
    ensures
        i <= word_run_end(s, i) <= s.len(),
    decreases s.len() - i,
{
    if i < s.len() && is_word_byte(s[i]) {
        lemma_word_run_end_bounds(s, i + 1);
    }
}

/// Skipping a comment always advances the cursor and never passes the end of
/// the input.
pub proof fn lemma_comment_skip_end_bounds(s: Seq<u8>, i: int)
    requires
        0 <= i <= s.len(),
    ensures
        i <= comment_skip_end(s, i) <= s.len(),
        i < s.len() ==> i + 1 <= comment_skip_end(s, i),
    decreases s.len() - i,
{
    if i < s.len() && s[i] != '\n' as u8 {
        lemma_comment_skip_end_bounds(s, i + 1);
    }
}

/// Maximal munch for number literals: the digit run starting at `i` covers
/// digits only, and it stops only at the end of the input or at the first
/// byte that is not a digit.
pub proof fn lemma_digit_run_maximal(s: Seq<u8>, i: int)
    requires
        0 <= i <= s.len(),
    ensures
        i <= digit_run_end(s, i) <= s.len(),
        forall|k: int| i <= k < digit_run_end(s, i) ==> is_digit_byte(s[k]),
        digit_run_end(s, i) < s.len() ==> !is_digit_byte(s[digit_run_end(s, i)]),
    decreases s.len() - i,
{
    if i < s.len() && is_digit_byte(s[i]) {
        lemma_digit_run_maximal(s, i + 1);
    }
}

/// Maximal munch for identifiers and keywords: the word run starting at `i`
/// covers letters and digits only, and it stops only at the end of the input
/// or at the first byte that can continue no word.
pub proof fn lemma_word_run_maximal(s: Seq<u8>, i: int)
    requires
        0 <= i <= s.len(),
    ensures
        i <= word_run_end(s, i) <= s.len(),
        forall|k: int| i <= k < word_run_end(s, i) ==> is_word_byte(s[k]),
        word_run_end(s, i) < s.len() ==> !is_word_byte(s[word_run_end(s, i)]),
    decreases s.len() - i,
{
    if i < s.len() && is_word_byte(s[i]) {
        lemma_word_run_maximal(s, i + 1);
    }
}

/// The value of a digit run is never negative.
pub proof fn lemma_digits_value_nonneg(s: Seq<u8>, i: int, j: int)
    requires
        i <= j,
        forall|k: int| i <= k < j ==> is_digit_byte(s[k]),
    ensures
        0 <= digits_value(s, i, j),
    decreases j - i,
{
    if i < j {
        lemma_digits_value_nonneg(s, i, j - 1);
    }
}

/// Reading more digits never shrinks the value: the value of a digit run is
/// at least the value of any of its prefixes.
pub proof fn lemma_digits_value_monotone(s: Seq<u8>, i: int, k: int, j: int)
    requires
        i <= k <= j,
        forall|l: int| i <= l < j ==> is_digit_byte(s[l]),
    ensures
        digits_value(s, i, k) <= digits_value(s, i, j),
    decreases j - k,
{
    if k < j {
        lemma_digits_value_monotone(s, i, k, j - 1);
        lemma_digits_value_nonneg(s, i, j - 1);
    }
}

/// Prepending two emitted token runs one after the other is the same as
/// prepending their concatenation.
pub proof fn lemma_with_prefix_assoc(
    a: Seq<TokenModel>,
    b: Seq<TokenModel>,
    r: Result<Seq<TokenModel>, LexError>,
)
    ensures
        with_prefix(a, with_prefix(b, r)) == with_prefix(a + b, r),
{
    match r {
        Ok(ts) => {
            assert(a + (b + ts) =~= (a + b) + ts);
        },
        Err(_) => {},
    }
}

/// Prepending no tokens changes nothing.
pub proof fn lemma_with_prefix_empty(r: Result<Seq<TokenModel>, LexError>)
    ensures
        with_prefix(Seq::<TokenModel>::empty(), r) == r,
{
    match r {
        Ok(ts) => {
            assert(Seq::<TokenModel>::empty() + ts =~= ts);
        },
        Err(_) => {},
    }
}

} // verus!
