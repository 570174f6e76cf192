//! Token records produced by the scanner, lexical errors, and their
//! mathematical models.

use vstd::prelude::*;

verus! {

/// The classification of a lexical token.
///
/// Literal kinds carry a decoded payload. A string literal carries the text
/// strictly between its quotes. A number literal carries its digit text
/// exactly as written in the source (digits, optionally a decimal point
/// followed by more digits); consumers that need a numeric value convert
/// that text to their preferred numeric representation. An identifier
/// carries its name.
#[derive(Debug, Clone, PartialEq)]
pub enum TokenKind {
    LeftParen,
    RightParen,
    LeftBrace,
    RightBrace,
    Comma,
    Dot,
    Minus,
    Plus,
    Semicolon,
    Star,
    Slash,
    Bang,
    BangEqual,
    Equal,
    EqualEqual,
    Less,
    LessEqual,
    Greater,
    GreaterEqual,
    StringT { value: String },
    Number { text: String },
    Identifier { name: String },
    And,
    Class,
    Else,
    False,
    For,
    Fun,
    If,
    Nil,
    Or,
    Print,
    Return,
    Super,
    This,
    True,
    Var,
    While,
    Eof,
}

/// The model of a token kind: literal payloads are character sequences.
pub enum SpecTokenKind {
    LeftParen,
    RightParen,
    LeftBrace,
    RightBrace,
    Comma,
    Dot,
    Minus,
    Plus,
    Semicolon,
    Star,
    Slash,
    Bang,
    BangEqual,
    Equal,
    EqualEqual,
    Less,
    LessEqual,
    Greater,
    GreaterEqual,
    StringT { value: Seq<char> },
    Number { text: Seq<char> },
    Identifier { name: Seq<char> },
    And,
    Class,
    Else,
    False,
    For,
    Fun,
    If,
    Nil,
    Or,
    Print,
    Return,
    Super,
    This,
    True,
    Var,
    While,
    Eof,
}

impl View for TokenKind {
    type V = SpecTokenKind;

    open spec fn view(&self) -> SpecTokenKind {
        match self {
            TokenKind::LeftParen => SpecTokenKind::LeftParen,
            TokenKind::RightParen => SpecTokenKind::RightParen,
            TokenKind::LeftBrace => SpecTokenKind::LeftBrace,
            TokenKind::RightBrace => SpecTokenKind::RightBrace,
            TokenKind::Comma => SpecTokenKind::Comma,
            TokenKind::Dot => SpecTokenKind::Dot,
            TokenKind::Minus => SpecTokenKind::Minus,
            TokenKind::Plus => SpecTokenKind::Plus,
            TokenKind::Semicolon => SpecTokenKind::Semicolon,
            TokenKind::Star => SpecTokenKind::Star,
            TokenKind::Slash => SpecTokenKind::Slash,
            TokenKind::Bang => SpecTokenKind::Bang,
            TokenKind::BangEqual => SpecTokenKind::BangEqual,
            TokenKind::Equal => SpecTokenKind::Equal,
            TokenKind::EqualEqual => SpecTokenKind::EqualEqual,
            TokenKind::Less => SpecTokenKind::Less,
            TokenKind::LessEqual => SpecTokenKind::LessEqual,
            TokenKind::Greater => SpecTokenKind::Greater,
            TokenKind::GreaterEqual => SpecTokenKind::GreaterEqual,
            TokenKind::StringT { value } => SpecTokenKind::StringT { value: value@ },
            TokenKind::Number { text } => SpecTokenKind::Number { text: text@ },
            TokenKind::Identifier { name } => SpecTokenKind::Identifier { name: name@ },
            TokenKind::And => SpecTokenKind::And,
            TokenKind::Class => SpecTokenKind::Class,
            TokenKind::Else => SpecTokenKind::Else,
            TokenKind::False => SpecTokenKind::False,
            TokenKind::For => SpecTokenKind::For,
            TokenKind::Fun => SpecTokenKind::Fun,
            TokenKind::If => SpecTokenKind::If,
            TokenKind::Nil => SpecTokenKind::Nil,
            TokenKind::Or => SpecTokenKind::Or,
            TokenKind::Print => SpecTokenKind::Print,
            TokenKind::Return => SpecTokenKind::Return,
            TokenKind::Super => SpecTokenKind::Super,
            TokenKind::This => SpecTokenKind::This,
            TokenKind::True => SpecTokenKind::True,
            TokenKind::Var => SpecTokenKind::Var,
            TokenKind::While => SpecTokenKind::While,
            TokenKind::Eof => SpecTokenKind::Eof,
        }
    }
}

/// An immutable token record: its kind, the exact source text that produced
/// it, and the 0-based source line on which it was completed.
#[derive(Debug, Clone, PartialEq)]
pub struct Token {
    pub token_type: TokenKind,
    pub lexeme: String,
    pub line: usize,
}

/// The model of a token: its kind, lexeme and line as mathematical values.
pub struct SpecToken {
    pub kind: SpecTokenKind,
    pub lexeme: Seq<char>,
    pub line: int,
}

impl View for Token {
    type V = SpecToken;

    open spec fn view(&self) -> SpecToken {
        SpecToken { kind: self.token_type@, lexeme: self.lexeme@, line: self.line as int }
    }
}

impl Token {
    /// Creates a token from its three attributes.
    pub fn new(token_type: TokenKind, lexeme: String, line: usize) -> (t: Token)
        ensures
            t@ == (SpecToken { kind: token_type@, lexeme: lexeme@, line: line as int }),
    {
        Token { token_type, lexeme, line }
    }
}

/// A lexical error found during a scan. Scanning continues past an error so
/// that one pass can surface several diagnostics; a scan that recorded any
/// error must not be treated as successful.
#[derive(Debug, Clone, PartialEq)]
pub enum LexError {
    /// End of input was reached inside a string literal. The line is the
    /// 0-based line on which the input ended.
    UnterminatedString { line: usize },
    /// A character matched no recognized lexical category.
    UnexpectedCharacter { ch: char, line: usize },
}

/// The model of a lexical error.
pub enum SpecError {
    UnterminatedString { line: int },
    UnexpectedCharacter { ch: char, line: int },
}

impl View for LexError {
    type V = SpecError;

    open spec fn view(&self) -> SpecError {
        match self {
            LexError::UnterminatedString { line } => (SpecError::UnterminatedString {
                line: *line as int,
            }),
            LexError::UnexpectedCharacter { ch, line } => (SpecError::UnexpectedCharacter {
                ch: *ch,
                line: *line as int,
            }),
        }
    }
}

} // verus!
