use fops::lexer::{lex_from_string, lex_line, LexError, Token, TokenType};
use fops::lexer::TokenType::{Control, Keyword, Number, StringLiteral, Symbol};
use fops::text::chars_of;

fn lex(line: &str) -> Vec<Token> {
    lex_line(&chars_of(line)).unwrap()
}

#[test]
fn test_string_assignment() {
    let line = "let foo=\"bar\";";
    let expected = vec![
        Token { token_type: Keyword, contents: "let".to_string() },
        Token { token_type: Symbol, contents: "foo".to_string() },
        Token { token_type: Control, contents: "=".to_string() },
        Token { token_type: StringLiteral, contents: "\"bar\"".to_string() },
        Token { token_type: Control, contents: ";".to_string() },
    ];

    assert_eq!(lex(line), expected);
}

#[test]
fn test_arithmetic_assignment() {
    let line = "let foo = (-500*bar)/10;";
    let expected = vec![
        Token { token_type: Keyword, contents: "let".to_string() },
        Token { token_type: Symbol, contents: "foo".to_string() },
        Token { token_type: Control, contents: "=".to_string() },
        Token { token_type: Control, contents: "(".to_string() },
        Token { token_type: Control, contents: "-".to_string() },
        Token { token_type: Number, contents: "500".to_string() },
        Token { token_type: Control, contents: "*".to_string() },
        Token { token_type: Symbol, contents: "bar".to_string() },
        Token { token_type: Control, contents: ")".to_string() },
        Token { token_type: Control, contents: "/".to_string() },
        Token { token_type: Number, contents: "10".to_string() },
        Token { token_type: Control, contents: ";".to_string() },
    ];

    assert_eq!(lex(line), expected);
}

#[test]
fn test_if_equality() {
    let line = "if foo==500{";
    let expected = vec![
        Token { token_type: Keyword, contents: "if".to_string() },
        Token { token_type: Symbol, contents: "foo".to_string() },
        Token { token_type: Control, contents: "==".to_string() },
        Token { token_type: Number, contents: "500".to_string() },
        Token { token_type: Control, contents: "{".to_string() },
    ];

    assert_eq!(lex(line), expected);
}

#[test]
fn lexer_test_inequality() {
    let line = "foo!=500";
    let expected = vec![
        Token { token_type: Symbol, contents: "foo".to_string() },
        Token { token_type: Control, contents: "!=".to_string() },
        Token { token_type: Number, contents: "500".to_string() },
    ];

    assert_eq!(lex(line), expected);
}

#[test]
fn lexer_splits_lines() {
    let tokens = lex_from_string("let a\nwhile b".to_string()).unwrap();
    let expected = vec![
        Token { token_type: Keyword, contents: "let".to_string() },
        Token { token_type: Symbol, contents: "a".to_string() },
        Token { token_type: Keyword, contents: "while".to_string() },
        Token { token_type: Symbol, contents: "b".to_string() },
    ];
    assert_eq!(Vec::from(tokens), expected);
}

#[test]
fn lexer_reports_illegal_character_position() {
    let err = lex_from_string("ok;\nab$".to_string()).unwrap_err();
    assert_eq!(
        err,
        LexError { ch: '$', line: 2, column: 3, scanning: TokenType::Symbol },
    );
}

#[test]
fn lexer_reports_illegal_digit_run() {
    let err = lex_from_string("12x".to_string()).unwrap_err();
    assert_eq!(
        err,
        LexError { ch: 'x', line: 1, column: 3, scanning: TokenType::Number },
    );
}

#[test]
fn lexer_keeps_multichar_operators_together() {
    let tokens = lex(">=<=");
    let expected = vec![Token { token_type: Control, contents: ">=<=".to_string() }];
    assert_eq!(tokens, expected);
}
