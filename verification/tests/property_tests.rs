use lexer::lex;
use lexer::LexError;
use lexer::Token;

#[test]
fn empty_input_yields_end_only() {
    assert_eq!(lex("").unwrap(), vec![Token::End]);
}

#[test]
fn end_sentinel_is_last_and_unique() {
    let tokens = lex("func main() { print(42); }").unwrap();
    assert!(tokens.len() >= 1);
    assert_eq!(tokens.last(), Some(&Token::End));
    let mut ends = 0;
    for t in &tokens {
        if matches!(t, Token::End) {
            ends += 1;
        }
    }
    assert_eq!(ends, 1);
}

#[test]
fn rescanning_is_identical() {
    let source = "while (i <= 10) { sum = sum + i; i = i + 1; } # loop\n";
    let first = lex(source).unwrap();
    let second = lex(source).unwrap();
    assert_eq!(first, second);
}

#[test]
fn maximal_munch() {
    assert_eq!(
        lex("123abc").unwrap(),
        vec![Token::Num(123), Token::Ident("abc".to_string()), Token::End],
    );
}

#[test]
fn keyword_precedence() {
    assert_eq!(lex("if").unwrap(), vec![Token::If, Token::End]);
    assert_eq!(
        lex("iffy").unwrap(),
        vec![Token::Ident("iffy".to_string()), Token::End],
    );
}

#[test]
fn operator_lookahead() {
    assert_eq!(lex("<").unwrap(), vec![Token::Less, Token::End]);
    assert_eq!(lex("<=").unwrap(), vec![Token::LessEqual, Token::End]);
    assert_eq!(lex("=").unwrap(), vec![Token::Assign, Token::End]);
    assert_eq!(lex("==").unwrap(), vec![Token::Equality, Token::End]);
    assert_eq!(lex("!=").unwrap(), vec![Token::NotEqual, Token::End]);
    assert_eq!(lex("!").unwrap_err(), LexError::UnrecognizedSymbol('!'));
    assert_eq!(lex("!x").unwrap_err(), LexError::UnrecognizedSymbol('!'));
}

#[test]
fn comment_skipping() {
    assert_eq!(lex("# comment\n1").unwrap(), vec![Token::Num(1), Token::End]);
    assert_eq!(lex("1 # trailing comment").unwrap(), vec![Token::Num(1), Token::End]);
    assert_eq!(lex("#").unwrap(), vec![Token::End]);
}

#[test]
fn error_reporting() {
    assert_eq!(lex("$").unwrap_err(), LexError::UnrecognizedSymbol('$'));
    assert_eq!(lex("1 @ 2").unwrap_err(), LexError::UnrecognizedSymbol('@'));
    assert_eq!(lex("\t").unwrap_err(), LexError::UnrecognizedSymbol('\t'));
}

#[test]
fn keywords_are_case_sensitive() {
    assert_eq!(lex("If").unwrap(), vec![Token::Ident("If".to_string()), Token::End]);
    assert_eq!(
        lex("FUNC").unwrap(),
        vec![Token::Ident("FUNC".to_string()), Token::End],
    );
}

#[test]
fn whitespace_transparency() {
    let spaced = lex(" 1 + 2 ").unwrap();
    let tight = lex("1+2").unwrap();
    assert_eq!(spaced, vec![Token::Num(1), Token::Plus, Token::Num(2), Token::End]);
    assert_eq!(spaced, tight);
}

#[test]
fn number_overflow_is_reported() {
    assert_eq!(lex("2147483647").unwrap(), vec![Token::Num(2147483647), Token::End]);
    assert_eq!(lex("2147483648").unwrap_err(), LexError::IntegerOverflow);
    assert_eq!(lex("99999999999999999999").unwrap_err(), LexError::IntegerOverflow);
    assert_eq!(
        lex("0000002147483647").unwrap(),
        vec![Token::Num(2147483647), Token::End],
    );
}

#[test]
fn error_message_text() {
    assert_eq!(
        LexError::UnrecognizedSymbol('$').message(),
        "Unrecognized symbol: '$'",
    );
    assert_eq!(
        lex("1 @ 2").unwrap_err().message(),
        "Unrecognized symbol: '@'",
    );
    assert_eq!(LexError::IntegerOverflow.message(), "Integer literal overflow");
}

#[test]
fn token_file_strings() {
    assert_eq!(Token::Num(123).to_file_string(), "Num(123)");
    assert_eq!(Token::Num(0).to_file_string(), "Num(0)");
    assert_eq!(Token::Num(-5).to_file_string(), "Num(-5)");
    assert_eq!(Token::Num(i32::MIN).to_file_string(), "Num(-2147483648)");
    assert_eq!(
        Token::Ident("abc".to_string()).to_file_string(),
        "Ident(\"abc\")",
    );
    assert_eq!(Token::Plus.to_file_string(), "Plus");
    assert_eq!(Token::LeftParen.to_file_string(), "LeftParen");
    assert_eq!(Token::LessEqual.to_file_string(), "LessEqual");
    assert_eq!(Token::End.to_file_string(), "End");
    assert_eq!(Token::If.to_file_string(), "If");
}

#[test]
fn non_ascii_input_is_rejected() {
    assert!(matches!(lex("é"), Err(LexError::UnrecognizedSymbol(_))));
    assert!(matches!(lex("1 é 2"), Err(LexError::UnrecognizedSymbol(_))));
}
