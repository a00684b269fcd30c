//! Tokens and their lexical categories.

use vstd::prelude::*;
use crate::object::{Object, ObjectV};

verus! {

/// Lexical category of a token.  `Identifier` carries the identifier's
/// spelling, since identifiers are otherwise indistinguishable at the type
/// level.  `Eof` is reserved for a parser that wants an explicit end marker;
/// the scanner itself never emits it.
#[derive(Debug, Clone, PartialEq, Eq)]
pub enum TokenType {
    LeftParen,
    RightParen,
    LeftBrace,
    RightBrace,
    Comma,
    Dot,
    Minus,
    Plus,
    Semicolon,
    Slash,
    Star,
    Bang,
    BangEqual,
    Equal,
    EqualEqual,
    Greater,
    GreaterEqual,
    Less,
    LessEqual,
    Identifier(Vec<u8>),
    String,
    Number,
    And,
    Class,
    Else,
    False,
    Fun,
    For,
    If,
    Nil,
    Or,
    Print,
    Return,
    Super,
    This,
    True,
    Var,
    While,
    Eof,
}

/// Ghost mirror of `TokenType` whose identifier payload is a sequence.
pub enum TokenKindV {
    LeftParen,
    RightParen,
    LeftBrace,
    RightBrace,
    Comma,
    Dot,
    Minus,
    Plus,
    Semicolon,
    Slash,
    Star,
    Bang,
    BangEqual,
    Equal,
    EqualEqual,
    Greater,
    GreaterEqual,
    Less,
    LessEqual,
    Identifier(Seq<u8>),
    String,
    Number,
    And,
    Class,
    Else,
    False,
    Fun,
    For,
    If,
    Nil,
    Or,
    Print,
    Return,
    Super,
    This,
    True,
    Var,
    While,
    Eof,
}

impl View for TokenType {
    type V = TokenKindV;

    open spec fn view(&self) -> TokenKindV {
        match self {
            TokenType::LeftParen => TokenKindV::LeftParen,
            TokenType::RightParen => TokenKindV::RightParen,
            TokenType::LeftBrace => TokenKindV::LeftBrace,
            TokenType::RightBrace => TokenKindV::RightBrace,
            TokenType::Comma => TokenKindV::Comma,
            TokenType::Dot => TokenKindV::Dot,
            TokenType::Minus => TokenKindV::Minus,
            TokenType::Plus => TokenKindV::Plus,
            TokenType::Semicolon => TokenKindV::Semicolon,
            TokenType::Slash => TokenKindV::Slash,
            TokenType::Star => TokenKindV::Star,
            TokenType::Bang => TokenKindV::Bang,
            TokenType::BangEqual => TokenKindV::BangEqual,
            TokenType::Equal => TokenKindV::Equal,
            TokenType::EqualEqual => TokenKindV::EqualEqual,
            TokenType::Greater => TokenKindV::Greater,
            TokenType::GreaterEqual => TokenKindV::GreaterEqual,
            TokenType::Less => TokenKindV::Less,
            TokenType::LessEqual => TokenKindV::LessEqual,
            TokenType::Identifier(s) => TokenKindV::Identifier(s@),
            TokenType::String => TokenKindV::String,
            TokenType::Number => TokenKindV::Number,
            TokenType::And => TokenKindV::And,
            TokenType::Class => TokenKindV::Class,
            TokenType::Else => TokenKindV::Else,
            TokenType::False => TokenKindV::False,
            TokenType::Fun => TokenKindV::Fun,
            TokenType::For => TokenKindV::For,
            TokenType::If => TokenKindV::If,
            TokenType::Nil => TokenKindV::Nil,
            TokenType::Or => TokenKindV::Or,
            TokenType::Print => TokenKindV::Print,
            TokenType::Return => TokenKindV::Return,
            TokenType::Super => TokenKindV::Super,
            TokenType::This => TokenKindV::This,
            TokenType::True => TokenKindV::True,
            TokenType::Var => TokenKindV::Var,
            TokenType::While => TokenKindV::While,
            TokenType::Eof => TokenKindV::Eof,
        }
    }
}

/// One reserved word of the language.
pub open spec fn is_keyword_kind(k: TokenKindV) -> bool {
    ||| k is And
    ||| k is Class
    ||| k is Else
    ||| k is False
    ||| k is Fun
    ||| k is For
    ||| k is If
    ||| k is Nil
    ||| k is Or
    ||| k is Print
    ||| k is Return
    ||| k is Super
    ||| k is This
    ||| k is True
    ||| k is Var
    ||| k is While
}

/// A classified, position-annotated unit of lexical output.
///
/// Positions: `line` is the 0-based line on which the token starts;
/// `[start, end)` is its byte range in the source; `col_start` is `start`
/// minus the baseline of the line the token starts on, and `col_end` is
/// `end` minus the baseline of the line the token ends on (the two baselines
/// differ only for a string literal that spans a line break).
#[derive(Debug, Clone, PartialEq, Eq)]
pub struct Token {
    pub kind: TokenType,
    pub lexeme: Vec<u8>,
    pub object: Object,
    pub line: usize,
    pub start: usize,
    pub end: usize,
    pub col_start: usize,
    pub col_end: usize,
}

/// Ghost mirror of `Token`.
#[verifier::ext_equal]
pub struct TokenV {
    pub kind: TokenKindV,
    pub lexeme: Seq<u8>,
    pub object: ObjectV,
    pub line: int,
    pub start: int,
    pub end: int,
    pub col_start: int,
    pub col_end: int,
}

impl View for Token {
    type V = TokenV;

    open spec fn view(&self) -> TokenV {
        TokenV {
            kind: self.kind@,
            lexeme: self.lexeme@,
            object: self.object@,
            line: self.line as int,
            start: self.start as int,
            end: self.end as int,
            col_start: self.col_start as int,
            col_end: self.col_end as int,
        }
    }
}

impl Token {
    /// Assembles a token from its parts.
    #[allow(clippy::too_many_arguments)]
    pub fn new(
        kind: TokenType,
        lexeme: Vec<u8>,
        object: Object,
        line: usize,
        start: usize,
        end: usize,
        col_start: usize,
        col_end: usize,
    ) -> (r: Token)
        ensures
            r@ == (TokenV {
                kind: kind@,
                lexeme: lexeme@,
                object: object@,
                line: line as int,
                start: start as int,
                end: end as int,
                col_start: col_start as int,
                col_end: col_end as int,
            }),
    {
        Token { kind, lexeme, object, line, start, end, col_start, col_end }
    }

    /// Surrenders the token's literal value.
    pub fn into_object(self) -> (r: Object)
        ensures
            r@ == self@.object,
    {
        self.object
    }
}

} // verus!
