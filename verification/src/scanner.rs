//! The scanner: a single verified left-to-right pass over the source bytes
//! that produces exactly the token sequence of the model in
//! [`crate::model`], or its first lexical error.

use vstd::prelude::*;

use crate::model::{
    chars_of, classify_word, comment_skip_end, digit_run_end, digits_value, is_digit_byte,
    is_letter_byte, is_word_byte, lemma_comment_skip_end_bounds, lemma_digit_run_end_bounds,
    lemma_digit_run_maximal, lemma_digits_value_monotone, lemma_with_prefix_assoc,
    lemma_with_prefix_empty, punct_token, spec_lex, spec_lex_from, with_prefix, word_run_end,
};
use crate::text::push_char;
use vstd::string::StringSliceAdditionalSpecFns;
use crate::token::{
    lemma_token_views_empty, lemma_token_views_push, token_views, LexError, Token, TokenModel,
};

verus! {

/// Whether the given byte is an ASCII decimal digit.
fn is_digit(b: u8) -> (r: bool)
    ensures
        r == is_digit_byte(b),
{
    '0' as u8 <= b && b <= '9' as u8
}

/// Whether the given byte is an ASCII letter.
fn is_letter(b: u8) -> (r: bool)
    ensures
        r == is_letter_byte(b),
{
    ('a' as u8 <= b && b <= 'z' as u8) || ('A' as u8 <= b && b <= 'Z' as u8)
}

/// Whether the given byte may continue an identifier or keyword.
fn is_word(b: u8) -> (r: bool)
    ensures
        r == is_word_byte(b),
{
    is_letter(b) || is_digit(b)
}

/// Advances from `start` over the maximal run of decimal digits.
fn digit_run(bytes: &[u8], start: usize) -> (j: usize)
    requires
        start <= bytes@.len(),
    ensures
        j == digit_run_end(bytes@, start as int),
        start <= j <= bytes@.len(),
{
    let n = bytes.len();
    let mut j = start;
    while j < n && is_digit(bytes[j])
        invariant
            start <= j <= n,
            n == bytes@.len(),
            digit_run_end(bytes@, start as int) == digit_run_end(bytes@, j as int),
        decreases n - j,
    {
        proof {
            assert(digit_run_end(bytes@, j as int) == digit_run_end(bytes@, j as int + 1));
        }
        j += 1;
    }
    proof {
        assert(digit_run_end(bytes@, j as int) == j);
    }
    j
}

/// Advances from `start` over the maximal run of letters and digits.
fn word_run(bytes: &[u8], start: usize) -> (j: usize)
    requires
        start <= bytes@.len(),
    ensures
        j == word_run_end(bytes@, start as int),
        start <= j <= bytes@.len(),
{
    let n = bytes.len();
    let mut j = start;
    while j < n && is_word(bytes[j])
        invariant
            start <= j <= n,
            n == bytes@.len(),
            word_run_end(bytes@, start as int) == word_run_end(bytes@, j as int),
        decreases n - j,
    {
        proof {
            assert(word_run_end(bytes@, j as int) == word_run_end(bytes@, j as int + 1));
        }
        j += 1;
    }
    proof {
        assert(word_run_end(bytes@, j as int) == j);
    }
    j
}

/// Advances from `start` to the position just past the next newline, or to
/// the end of the input if no newline follows.
fn comment_skip(bytes: &[u8], start: usize) -> (j: usize)
    requires
        start <= bytes@.len(),
    ensures
        j == comment_skip_end(bytes@, start as int),
        start <= j <= bytes@.len(),
{
    let n = bytes.len();
    let mut j = start;
    while j < n && bytes[j] != '\n' as u8
        invariant
            start <= j <= n,
            n == bytes@.len(),
            comment_skip_end(bytes@, start as int) == comment_skip_end(bytes@, j as int),
        decreases n - j,
    {
        proof {
            assert(comment_skip_end(bytes@, j as int) == comment_skip_end(bytes@, j as int + 1));
        }
        j += 1;
    }
    if j < n {
        j + 1
    } else {
        j
    }
}

/// Parses the decimal digit run `bytes[start..end]` as a signed 32-bit
/// value, reporting overflow as the explicit error the scan surfaces.
fn parse_number(bytes: &[u8], start: usize, end: usize) -> (r: Result<i32, LexError>)
    requires
        start < end <= bytes@.len(),
        forall|k: int| start <= k < end ==> is_digit_byte(bytes@[k]),
    ensures
        match r {
            Ok(v) => digits_value(bytes@, start as int, end as int) <= i32::MAX && v
                == digits_value(bytes@, start as int, end as int),
            Err(e) => digits_value(bytes@, start as int, end as int) > i32::MAX && e
                == LexError::IntegerOverflow,
        },
{
    let mut val: u32 = 0;
    let mut k = start;
    while k < end
        invariant
            start <= k <= end <= bytes@.len(),
            forall|l: int| start <= l < end ==> is_digit_byte(bytes@[l]),
            val == digits_value(bytes@, start as int, k as int),
            val <= 0x7fff_ffff,
        decreases end - k,
    {
        proof {
            assert(is_digit_byte(bytes@[k as int]));
        }
        let d = bytes[k] - '0' as u8;
        proof {
            assert(digits_value(bytes@, start as int, k as int + 1) == digits_value(
                bytes@,
                start as int,
                k as int,
            ) * 10 + d);
        }
        if val > 214748364 || (val == 214748364 && d > 7) {
            proof {
                lemma_digits_value_monotone(bytes@, start as int, k as int + 1, end as int);
            }
            return Err(LexError::IntegerOverflow);
        }
        val = val * 10 + (d as u32);
        k += 1;
    }
    Ok(val as i32)
}

/// Copies the source bytes `bytes[start..end]` into a fresh string, one
/// character per byte.
fn collect_word(bytes: &[u8], start: usize, end: usize) -> (w: String)
    requires
        start <= end <= bytes@.len(),
    ensures
        w@ == chars_of(bytes@.subrange(start as int, end as int)),
{
    let mut w = String::new();
    proof {
        assert(w@ =~= chars_of(bytes@.subrange(start as int, start as int)));
    }
    let mut k = start;
    while k < end
        invariant
            start <= k <= end <= bytes@.len(),
            w@ == chars_of(bytes@.subrange(start as int, k as int)),
        decreases end - k,
    {
        push_char(&mut w, bytes[k] as char);
        k += 1;
        proof {
            assert(w@ =~= chars_of(bytes@.subrange(start as int, k as int)));
        }
    }
    w
}

/// Emits the token a maximal letter-and-digit run stands for: the keyword
/// token on an exact match against the reserved word set, otherwise an
/// identifier with that exact spelling.
fn classify(word: String) -> (t: Token)
    ensures
        t@ == classify_word(word@),
{
    if word == "func".to_owned() {
        Token::Func
    } else if word == "return".to_owned() {
        Token::Return
    } else if word == "int".to_owned() {
        Token::Int
    } else if word == "print".to_owned() {
        Token::Print
    } else if word == "read".to_owned() {
        Token::Read
    } else if word == "while".to_owned() {
        Token::While
    } else if word == "if".to_owned() {
        Token::If
    } else if word == "else".to_owned() {
        Token::Else
    } else if word == "break".to_owned() {
        Token::Break
    } else if word == "continue".to_owned() {
        Token::Continue
    } else {
        Token::Ident(word)
    }
}

/// Emits the fixed token a single punctuation or arithmetic byte stands for,
/// if any.
fn punct(b: u8) -> (r: Option<Token>)
    ensures
        match r {
            Some(t) => punct_token(b) == Some(t@),
            None => punct_token(b) is None,
        },
{
    if b == '+' as u8 {
        Some(Token::Plus)
    } else if b == '-' as u8 {
        Some(Token::Subtract)
    } else if b == '*' as u8 {
        Some(Token::Multiply)
    } else if b == '/' as u8 {
        Some(Token::Divide)
    } else if b == '%' as u8 {
        Some(Token::Modulus)
    } else if b == '(' as u8 {
        Some(Token::LeftParen)
    } else if b == ')' as u8 {
        Some(Token::RightParen)
    } else if b == '{' as u8 {
        Some(Token::LeftCurly)
    } else if b == '}' as u8 {
        Some(Token::RightCurly)
    } else if b == '[' as u8 {
        Some(Token::LeftBracket)
    } else if b == ']' as u8 {
        Some(Token::RightBracket)
    } else if b == ',' as u8 {
        Some(Token::Comma)
    } else if b == ';' as u8 {
        Some(Token::Semicolon)
    } else {
        None
    }
}

/// Whether an executable scan outcome agrees with the model's: equal token
/// views on success, the very same error on failure.
pub open spec fn lex_models(
    r: Result<Vec<Token>, LexError>,
    m: Result<Seq<TokenModel>, LexError>,
) -> bool {
    match r {
        Ok(ts) => m == Ok::<Seq<TokenModel>, LexError>(token_views(ts@)),
        Err(e) => m == Err::<Seq<TokenModel>, LexError>(e),
    }
}

/// After a token is emitted, the tokens still owed are those of the rest of
/// the input.
proof fn lemma_emit_step(
    m: Result<Seq<TokenModel>, LexError>,
    ts: Seq<Token>,
    t: Token,
    cur: Result<Seq<TokenModel>, LexError>,
    rest: Result<Seq<TokenModel>, LexError>,
)
    requires
        m == with_prefix(token_views(ts), cur),
        cur == with_prefix(seq![t@], rest),
    ensures
        m == with_prefix(token_views(ts.push(t)), rest),
{
    lemma_token_views_push(ts, t);
    lemma_with_prefix_assoc(token_views(ts), seq![t@], rest);
}

/// Scans the whole source text in one left-to-right pass.
///
/// On success the result is the token sequence of every lexical unit in
/// source order, closed by exactly one `End`; the scan stops at the first
/// byte that starts no token, or at a decimal literal that does not fit a
/// signed 32-bit integer, and reports it.  The outcome is exactly the one
/// the model [`spec_lex`] gives to the source bytes.
pub fn lex(code: &str) -> (r: Result<Vec<Token>, LexError>)
    ensures
        lex_models(r, spec_lex(code.spec_bytes())),
{
    let bytes = code.as_bytes();
    let n = bytes.len();
    let mut tokens: Vec<Token> = Vec::new();
    let mut i: usize = 0;
    proof {
        lemma_token_views_empty();
        lemma_with_prefix_empty(spec_lex_from(bytes@, 0));
    }
    while i < n
        invariant
            bytes@ == code.spec_bytes(),
            n == bytes@.len(),
            i <= n,
            spec_lex(code.spec_bytes()) == with_prefix(
                token_views(tokens@),
                spec_lex_from(bytes@, i as int),
            ),
        decreases n - i,
    {
        let ghost s = bytes@;
        let ghost ii = i as int;
        let ghost pre = tokens@;
        let ghost m = spec_lex(code.spec_bytes());
        let b = bytes[i];
        if b == ' ' as u8 || b == '\n' as u8 {
            proof {
                assert(spec_lex_from(s, ii) == spec_lex_from(s, ii + 1));
            }
            i += 1;
        } else if b == '#' as u8 {
            let j = comment_skip(bytes, i);
            proof {
                lemma_comment_skip_end_bounds(s, ii);
                assert(spec_lex_from(s, ii) == spec_lex_from(s, j as int));
            }
            i = j;
        } else if is_digit(b) {
            let j = digit_run(bytes, i);
            proof {
                lemma_digit_run_maximal(s, ii);
                assert(digit_run_end(s, ii) == digit_run_end(s, ii + 1));
                lemma_digit_run_end_bounds(s, ii + 1);
            }
            match parse_number(bytes, i, j) {
                Ok(v) => {
                    let t = Token::Num(v);
                    proof {
                        assert(spec_lex_from(s, ii) == with_prefix(
                            seq![t@],
                            spec_lex_from(s, j as int),
                        ));
                        lemma_emit_step(m, pre, t, spec_lex_from(s, ii), spec_lex_from(s, j as int));
                    }
                    tokens.push(t);
                    i = j;
                },
                Err(e) => {
                    proof {
                        assert(spec_lex_from(s, ii) == Err::<Seq<TokenModel>, LexError>(e));
                    }
                    return Err(e);
                },
            }
        } else if is_letter(b) {
            let j = word_run(bytes, i + 1);
            let w = collect_word(bytes, i, j);
            let t = classify(w);
            proof {
                assert(spec_lex_from(s, ii) == with_prefix(seq![t@], spec_lex_from(s, j as int)));
                lemma_emit_step(m, pre, t, spec_lex_from(s, ii), spec_lex_from(s, j as int));
            }
            tokens.push(t);
            i = j;
        } else {
            match punct(b) {
                Some(t) => {
                    proof {
                        assert(spec_lex_from(s, ii) == with_prefix(
                            seq![t@],
                            spec_lex_from(s, ii + 1),
                        ));
                        lemma_emit_step(m, pre, t, spec_lex_from(s, ii), spec_lex_from(s, ii + 1));
                    }
                    tokens.push(t);
                    i += 1;
                },
                None => {
                    if b == '=' as u8 {
                        if i + 1 < n && bytes[i + 1] == '=' as u8 {
                            let t = Token::Equality;
                            proof {
                                assert(spec_lex_from(s, ii) == with_prefix(
                                    seq![t@],
                                    spec_lex_from(s, ii + 2),
                                ));
                                lemma_emit_step(
                                    m,
                                    pre,
                                    t,
                                    spec_lex_from(s, ii),
                                    spec_lex_from(s, ii + 2),
                                );
                            }
                            tokens.push(t);
                            i += 2;
                        } else {
                            let t = Token::Assign;
                            proof {
                                assert(spec_lex_from(s, ii) == with_prefix(
                                    seq![t@],
                                    spec_lex_from(s, ii + 1),
                                ));
                                lemma_emit_step(
                                    m,
                                    pre,
                                    t,
                                    spec_lex_from(s, ii),
                                    spec_lex_from(s, ii + 1),
                                );
                            }
                            tokens.push(t);
                            i += 1;
                        }
                    } else if b == '<' as u8 {
                        if i + 1 < n && bytes[i + 1] == '=' as u8 {
                            let t = Token::LessEqual;
                            proof {
                                assert(spec_lex_from(s, ii) == with_prefix(
                                    seq![t@],
                                    spec_lex_from(s, ii + 2),
                                ));
                                lemma_emit_step(
                                    m,
                                    pre,
                                    t,
                                    spec_lex_from(s, ii),
                                    spec_lex_from(s, ii + 2),
                                );
                            }
                            tokens.push(t);
                            i += 2;
                        } else {
                            let t = Token::Less;
                            proof {
                                assert(spec_lex_from(s, ii) == with_prefix(
                                    seq![t@],
                                    spec_lex_from(s, ii + 1),
                                ));
                                lemma_emit_step(
                                    m,
                                    pre,
                                    t,
                                    spec_lex_from(s, ii),
                                    spec_lex_from(s, ii + 1),
                                );
                            }
                            tokens.push(t);
                            i += 1;
                        }
                    } else if b == '>' as u8 {
                        if i + 1 < n && bytes[i + 1] == '=' as u8 {
                            let t = Token::GreaterEqual;
                            proof {
                                assert(spec_lex_from(s, ii) == with_prefix(
                                    seq![t@],
                                    spec_lex_from(s, ii + 2),
                                ));
                                lemma_emit_step(
                                    m,
                                    pre,
                                    t,
                                    spec_lex_from(s, ii),
                                    spec_lex_from(s, ii + 2),
                                );
                            }
                            tokens.push(t);
                            i += 2;
                        } else {
                            let t = Token::Greater;
                            proof {
                                assert(spec_lex_from(s, ii) == with_prefix(
                                    seq![t@],
                                    spec_lex_from(s, ii + 1),
                                ));
                                lemma_emit_step(
                                    m,
                                    pre,
                                    t,
                                    spec_lex_from(s, ii),
                                    spec_lex_from(s, ii + 1),
                                );
                            }
                            tokens.push(t);
                            i += 1;
                        }
                    } else if b == '!' as u8 && i + 1 < n && bytes[i + 1] == '=' as u8 {
                        let t = Token::NotEqual;
                        proof {
                            assert(spec_lex_from(s, ii) == with_prefix(
                                seq![t@],
                                spec_lex_from(s, ii + 2),
                            ));
                            lemma_emit_step(
                                m,
                                pre,
                                t,
                                spec_lex_from(s, ii),
                                spec_lex_from(s, ii + 2),
                            );
                        }
                        tokens.push(t);
                        i += 2;
                    } else {
                        let e = LexError::UnrecognizedSymbol(b as char);
                        proof {
                            assert(spec_lex_from(s, ii) == Err::<Seq<TokenModel>, LexError>(e));
                        }
                        return Err(e);
                    }
                },
            }
        }
    }
    let ghost pre = tokens@;
    let t = Token::End;
    proof {
        assert(spec_lex_from(bytes@, i as int) == Ok::<Seq<TokenModel>, LexError>(
            seq![TokenModel::End],
        ));
        lemma_token_views_push(pre, t);
    }
    tokens.push(t);
    Ok(tokens)
}

} // verus!
