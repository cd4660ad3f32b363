//! Tokens of the bytecode front end: a kind and a span of the source.
use vstd::prelude::*;
use crate::lexer::keywords::Keyword;

verus! {

/// A token: its kind, where its text starts in the source, its length and its line.
#[derive(Clone, Copy, Debug)]
pub struct Token {
    pub kind: TokenType,
    pub start: usize,
    pub length: usize,
    pub line: isize,
}

impl Token {
    /// A token of kind `kind` spanning `length` characters from `start`, on `line`.
    pub fn new(kind: TokenType, start: usize, length: usize, line: isize) -> (t: Token)
        ensures
            t == (Token { kind, start, length, line }),
    {
        Token { kind, start, length, line }
    }
}

impl Default for Token {
    /// The placeholder token: an error token of length 0 at the start, on line -1.
    fn default() -> (t: Token)
        ensures
            t == (Token { kind: TokenType::Error, start: 0, length: 0, line: -1isize }),
    {
        Self::new(TokenType::Error, 0, 0, -1)
    }
}

/// The kinds of tokens.
#[derive(Clone, Copy, Debug, PartialEq, Eq, Structural)]
pub enum TokenType {
    // Single-character tokens.
    LeftParen,
    RightParen,
    LeftBrace,
    RightBrace,
    Comma,
    Dot,
    Minus,
    Plus,
    Semicolon,
    Slash,
    Star,

    // One or two character tokens.
    Bang,
    BangEqual,
    Equal,
    EqualEqual,
    Greater,
    GreaterEqual,
    Less,
    LessEqual,

    // Literals.
    Identifier,
    String,
    Number,

    // Keywords.
    And,
    Class,
    Else,
    False,
    Fun,
    For,
    If,
    Nil,
    Or,
    Print,
    Return,
    Super,
    This,
    True,
    Var,
    While,

    Error,
    EoF,
}

/// The token kind of a reserved word.
pub open spec fn keyword_kind(k: Keyword) -> TokenType {
    match k {
        Keyword::And => TokenType::And,
        Keyword::Class => TokenType::Class,
        Keyword::Else => TokenType::Else,
        Keyword::False => TokenType::False,
        Keyword::For => TokenType::For,
        Keyword::Fun => TokenType::Fun,
        Keyword::If => TokenType::If,
        Keyword::Nil => TokenType::Nil,
        Keyword::Or => TokenType::Or,
        Keyword::Print => TokenType::Print,
        Keyword::Return => TokenType::Return,
        Keyword::Super => TokenType::Super,
        Keyword::This => TokenType::This,
        Keyword::True => TokenType::True,
        Keyword::Var => TokenType::Var,
        Keyword::While => TokenType::While,
    }
}

} // verus!
