use lexer::lex;
use lexer::Token;
use lexer::Token::{
    Assign, Break, Comma, Continue, Divide, Else, End, Equality, Func, Greater, GreaterEqual,
    Ident, If, Int, LeftBracket, LeftCurly, LeftParen, Less, LessEqual, Modulus, Multiply,
    NotEqual, Num, Plus, Print, Read, Return, RightBracket, RightCurly, RightParen, Semicolon,
    Subtract, While,
};

fn assert_lex_eq(input: &str, mut expected: Vec<Token>) {
    let tokens = lex(input).unwrap();
    expected.push(End);
    assert_eq!(tokens, expected, "Failed on input: {}", input);
}

#[test]
fn invalid_char_tests() {
    let invalid_char_list = vec!["\"", "$", "&", "?", "\'"];
    for invalid_char in invalid_char_list {
        assert!(matches!(lex(invalid_char), Err(_)));
    }
}

#[test]
fn simple_chars() {
    assert_lex_eq("(", vec![LeftParen]);
    assert_lex_eq("( 1", vec![LeftParen, Num(1)]);
    assert_lex_eq("1 (", vec![Num(1), LeftParen]);

    assert_lex_eq(")", vec![RightParen]);
    assert_lex_eq("{", vec![LeftCurly]);
    assert_lex_eq("}", vec![RightCurly]);
    assert_lex_eq("[", vec![LeftBracket]);
    assert_lex_eq("]", vec![RightBracket]);
    assert_lex_eq(",", vec![Comma]);
    assert_lex_eq(";", vec![Semicolon]);
    assert_lex_eq("+", vec![Plus]);
    assert_lex_eq("-", vec![Subtract]);
    assert_lex_eq("*", vec![Multiply]);
    assert_lex_eq("/", vec![Divide]);
    assert_lex_eq("%", vec![Modulus]);
}

#[test]
fn complex_chars() {
    assert_lex_eq("<", vec![Less]);
    assert_lex_eq("<=", vec![LessEqual]);
    assert_lex_eq(">", vec![Greater]);
    assert_lex_eq(">=", vec![GreaterEqual]);
    assert_lex_eq("=", vec![Assign]);
    assert_lex_eq("==", vec![Equality]);
    assert_lex_eq("!=", vec![NotEqual]);
}

#[test]
fn keywords() {
    assert_lex_eq("func", vec![Func]);
    assert_lex_eq("func 1", vec![Func, Num(1)]);
    assert_lex_eq("1 func", vec![Num(1), Func]);

    assert_lex_eq("return", vec![Return]);
    assert_lex_eq("int", vec![Int]);
    assert_lex_eq("print", vec![Print]);
    assert_lex_eq("read", vec![Read]);
    assert_lex_eq("while", vec![While]);
    assert_lex_eq("if", vec![If]);
    assert_lex_eq("else", vec![Else]);
    assert_lex_eq("break", vec![Break]);
    assert_lex_eq("continue", vec![Continue]);
}

#[test]
fn variable_names() {
    assert_lex_eq("myVariable", vec![Ident("myVariable".to_string())]);
    assert_lex_eq(" myVariable", vec![Ident("myVariable".to_string())]);
    assert_lex_eq("myVariable ", vec![Ident("myVariable".to_string())]);
    assert_lex_eq("my2Variable", vec![Ident("my2Variable".to_string())]);
    assert_lex_eq("123myVariable", vec![Num(123), Ident("myVariable".to_string())]);
    assert_lex_eq("myVariable123", vec![Ident("myVariable123".to_string())]);
}
