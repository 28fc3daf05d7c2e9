//! Tokens of the Lox source language, as the scanner produces them and the
//! compiler consumes them.
use vstd::prelude::*;

verus! {

/// The kind of a token. `Error` carries a scanner diagnostic in its lexeme;
/// `EOF` is the end-of-stream sentinel.
#[derive(Debug, Clone, Copy, PartialEq, Eq, Structural)]
pub enum TokenType {
    // Single character tokens.
    LeftParen,
    RightParen,
    LeftBrace,
    RightBrace,
    Comma,
    Dot,
    Minus,
    Plus,
    Semicolon,
    Slash,
    Star,
    // One or two character tokens.
    Bang,
    BangEqual,
    Equal,
    EqualEqual,
    Greater,
    GreaterEqual,
    Less,
    LessEqual,
    // Literals.
    Identifier,
    String,
    Number,
    // Keywords.
    And,
    Class,
    Else,
    False,
    For,
    Fun,
    If,
    Nil,
    Or,
    Print,
    Return,
    Super,
    This,
    True,
    Var,
    While,
    Error,
    EOF,
}

/// A token: its kind, its lexeme (the source bytes it covers; for an `Error`
/// token, the diagnostic text), and the line it starts on.
#[derive(Debug, Clone, PartialEq, Eq)]
pub struct Token {
    pub id: TokenType,
    pub lexeme: Vec<u8>,
    pub line: u32,
}

impl Token {
    /// Builds a token from its parts.
    pub fn new(id: TokenType, lexeme: Vec<u8>, line: u32) -> (r: Token)
        ensures
            r.id == id,
            r.lexeme == lexeme,
            r.line == line,
    {
        Token { id, lexeme, line }
    }

    /// The text of the token.
    pub fn extract(&self) -> (r: &Vec<u8>)
        ensures
            r == &self.lexeme,
    {
        &self.lexeme
    }
}

/// A scanner diagnostic: its message and the line it was raised on.
#[derive(Debug, Clone, PartialEq, Eq)]
pub struct ErrorToken {
    pub message: Vec<u8>,
    pub line: u32,
}

impl ErrorToken {
    /// Builds a diagnostic from its message and line.
    pub fn new(message: Vec<u8>, line: u32) -> (r: ErrorToken)
        ensures
            r.message == message,
            r.line == line,
    {
        ErrorToken { message, line }
    }
}

} // verus!
