//! Tokens produced by the lexer and consumed by the parser.
use vstd::prelude::*;
use crate::text::to_owned_string;

verus! {

/// The kind of a token.
#[derive(Debug, Clone, Copy, PartialEq, Eq, Structural)]
pub enum TokenKind {
    Function,
    Let,
    Return,
    If,
    Else,
    While,
    For,
    Break,
    Continue,
    True,
    False,
    Identifier,
    Number,
    String,
    Plus,
    Minus,
    Star,
    Slash,
    Equal,
    EqualEqual,
    Bang,
    BangEqual,
    Less,
    LessEqual,
    Greater,
    GreaterEqual,
    LeftParen,
    RightParen,
    LeftBrace,
    RightBrace,
    LeftBracket,
    RightBracket,
    Comma,
    Dot,
    Semicolon,
    Colon,
    Arrow,
    And,
    Or,
    EOF,
}

/// A token: its kind, its text (the contents for a string literal) and the byte
/// offset in the source where it starts.
#[derive(Debug)]
pub struct Token {
    pub kind: TokenKind,
    pub value: String,
    pub position: usize,
}

impl Token {
    /// A token with the given kind, text and position.
    pub fn new(kind: TokenKind, value: &str, position: usize) -> (r: Self)
        ensures
            r.kind == kind,
            r.value@ == value@,
            r.position == position,
    {
        Token { kind, value: to_owned_string(value), position }
    }

    /// A copy of the token.
    pub fn duplicate(&self) -> (r: Self)
        ensures
            r.kind == self.kind,
            r.value@ == self.value@,
            r.position == self.position,
    {
        Token { kind: self.kind, value: self.value.clone(), position: self.position }
    }
}

} // verus!
