use io_lang::parser::Parser;
use io_lang::token::{Token, TokenKind};

#[test]
fn test_parse_function() {
    let tokens = vec![
        Token::new(TokenKind::Function, "fn", 0),
        Token::new(TokenKind::Identifier, "test", 0),
        Token::new(TokenKind::LeftParen, "(", 0),
        Token::new(TokenKind::RightParen, ")", 0),
        Token::new(TokenKind::LeftBrace, "{", 0),
        Token::new(TokenKind::RightBrace, "}", 0),
    ];

    let mut parser = Parser::new(tokens);
    let result = parser.parse_function();
    assert!(result.is_ok());
}

#[test]
fn test_parse_if_statement() {
    let tokens = vec![
        Token::new(TokenKind::If, "if", 0),
        Token::new(TokenKind::True, "true", 0),
        Token::new(TokenKind::LeftBrace, "{", 0),
        Token::new(TokenKind::RightBrace, "}", 0),
    ];

    let mut parser = Parser::new(tokens);
    let result = parser.parse_if_statement();
    assert!(result.is_ok());
}

#[test]
fn a_function_without_name_is_refused() {
    let tokens = vec![
        Token::new(TokenKind::Function, "fn", 0),
        Token::new(TokenKind::LeftParen, "(", 3),
    ];
    let mut parser = Parser::new(tokens);
    assert!(parser.parse_function().is_err());
}
