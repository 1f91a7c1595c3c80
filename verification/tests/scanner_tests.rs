use fops::scanner::Scanner;
use fops::scanner::TokenType;
use fops::scanner::TokenType::{
    TokenAmpAmp, TokenAsterisk, TokenBang, TokenBangEqual, TokenComma, TokenDot, TokenElse,
    TokenEqual, TokenEqualEqual, TokenFalse, TokenFun, TokenGreater, TokenGreaterEqual,
    TokenIdentifier, TokenIf, TokenLeftBrace, TokenLeftParen, TokenLess, TokenLessEqual, TokenLet,
    TokenMinus, TokenNumber, TokenPipePipe, TokenPlus, TokenRepeat, TokenReturn, TokenRightBrace,
    TokenRightParen, TokenSemicolon, TokenSlash, TokenString, TokenTrue, TokenWhile, EOF,
};

fn match_token(scanner: &mut Scanner, token_type: TokenType, line: usize) {
    let token = scanner.next();
    assert_eq!(token_type, token.token_type);
    assert_eq!(line, token.line, "Got unexpected line");
}

fn match_full_token(scanner: &mut Scanner, token_type: TokenType, contents: &str, line: usize) {
    let token = scanner.next();
    assert_eq!(token_type, token.token_type);
    assert_eq!(contents, token.string.as_str());
    assert_eq!(line, token.line, "Got unexpected line");
}

#[test]
fn blank_input() {
    let mut scanner = Scanner::new("");
    assert_eq!(scanner.next().token_type, EOF);
}

#[test]
fn single_character_tokens() {
    let source = "(){},.-+;/*";
    let mut scanner = Scanner::new(source);

    match_token(&mut scanner, TokenLeftParen, 1);
    match_token(&mut scanner, TokenRightParen, 1);
    match_token(&mut scanner, TokenLeftBrace, 1);
    match_token(&mut scanner, TokenRightBrace, 1);
    match_token(&mut scanner, TokenComma, 1);
    match_token(&mut scanner, TokenDot, 1);
    match_token(&mut scanner, TokenMinus, 1);
    match_token(&mut scanner, TokenPlus, 1);
    match_token(&mut scanner, TokenSemicolon, 1);
    match_token(&mut scanner, TokenSlash, 1);
    match_token(&mut scanner, TokenAsterisk, 1);
    assert_eq!(scanner.next().token_type, EOF);
}

#[test]
fn one_or_two_character_tokens() {
    let source = "! != = == < <= > >= && ||";
    let mut scanner = Scanner::new(source);

    match_token(&mut scanner, TokenBang, 1);
    match_token(&mut scanner, TokenBangEqual, 1);
    match_token(&mut scanner, TokenEqual, 1);
    match_token(&mut scanner, TokenEqualEqual, 1);
    match_token(&mut scanner, TokenLess, 1);
    match_token(&mut scanner, TokenLessEqual, 1);
    match_token(&mut scanner, TokenGreater, 1);
    match_token(&mut scanner, TokenGreaterEqual, 1);
    match_token(&mut scanner, TokenAmpAmp, 1);
    match_token(&mut scanner, TokenPipePipe, 1);
    assert_eq!(scanner.next().token_type, EOF);
}

#[test]
fn string_literals() {
    let source = "\"Hello,\nworld!\"\n\"Hello again!!\"";
    let mut scanner = Scanner::new(source);

    match_full_token(&mut scanner, TokenString, "\"Hello,\nworld!\"", 2);
    match_full_token(&mut scanner, TokenString, "\"Hello again!!\"", 3);
    assert_eq!(scanner.next().token_type, EOF);
}

#[test]
fn number_literals() {
    let source = "1 12 -13 5.55 -0.3";
    let mut scanner = Scanner::new(source);

    match_full_token(&mut scanner, TokenNumber, "1", 1);
    match_full_token(&mut scanner, TokenNumber, "12", 1);
    match_token(&mut scanner, TokenMinus, 1);
    match_full_token(&mut scanner, TokenNumber, "13", 1);
    match_full_token(&mut scanner, TokenNumber, "5.55", 1);
    match_token(&mut scanner, TokenMinus, 1);
    match_full_token(&mut scanner, TokenNumber, "0.3", 1);
    assert_eq!(scanner.next().token_type, EOF);
}

#[test]
fn identifiers() {
    let source = "foo bar funky lettuce";
    let mut scanner = Scanner::new(source);

    match_full_token(&mut scanner, TokenIdentifier, "foo", 1);
    match_full_token(&mut scanner, TokenIdentifier, "bar", 1);
    match_full_token(&mut scanner, TokenIdentifier, "funky", 1);
    match_full_token(&mut scanner, TokenIdentifier, "lettuce", 1);
    assert_eq!(scanner.next().token_type, EOF);
}

#[test]
fn keywords() {
    let source = "else false fun let if repeat return true while";
    let mut scanner = Scanner::new(source);

    match_full_token(&mut scanner, TokenElse, "else", 1);
    match_full_token(&mut scanner, TokenFalse, "false", 1);
    match_full_token(&mut scanner, TokenFun, "fun", 1);
    match_full_token(&mut scanner, TokenLet, "let", 1);
    match_full_token(&mut scanner, TokenIf, "if", 1);
    match_full_token(&mut scanner, TokenRepeat, "repeat", 1);
    match_full_token(&mut scanner, TokenReturn, "return", 1);
    match_full_token(&mut scanner, TokenTrue, "true", 1);
    match_full_token(&mut scanner, TokenWhile, "while", 1);
    assert_eq!(scanner.next().token_type, EOF);
}

#[test]
fn comments() {
    let source = "// ignored\n==//ignored again";
    let mut scanner = Scanner::new(source);

    match_token(&mut scanner, TokenEqualEqual, 2);
    assert_eq!(scanner.next().token_type, EOF);
}
