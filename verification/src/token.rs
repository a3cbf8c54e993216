use vstd::prelude::*;

verus! {

/// The number of token kinds; the operator table has one row per kind.
pub const NUMBER: usize = 48;

/// The kinds of token the tokenizer produces. The position of a kind in
/// this list is its row in the operator table.
#[derive(Clone, Copy, Debug, PartialEq, Eq, Structural)]
pub enum TokenType {
    OParen,
    CParen,
    OBrace,
    CBrace,
    OBracket,
    CBracket,
    Period,
    Plus,
    Minus,
    Star,
    Slash,
    Percent,
    Comma,
    Colon,
    Semicolon,
    Equal,
    EqualEqual,
    Bang,
    BangEqual,
    Greater,
    GreaterEqual,
    Less,
    LessEqual,
    And,
    Or,
    Identifier,
    String,
    Number,
    True,
    False,
    Nil,
    If,
    Else,
    While,
    For,
    In,
    Break,
    Continue,
    Function,
    Return,
    Try,
    Catch,
    Throw,
    Import,
    NewLine,
    Comment,
    EOF,
    Unknown,
}

impl TokenType {
    /// The row of this kind in the operator table.
    pub open spec fn spec_row(self) -> nat {
        match self {
            TokenType::OParen => 0,
            TokenType::CParen => 1,
            TokenType::OBrace => 2,
            TokenType::CBrace => 3,
            TokenType::OBracket => 4,
            TokenType::CBracket => 5,
            TokenType::Period => 6,
            TokenType::Plus => 7,
            TokenType::Minus => 8,
            TokenType::Star => 9,
            TokenType::Slash => 10,
            TokenType::Percent => 11,
            TokenType::Comma => 12,
            TokenType::Colon => 13,
            TokenType::Semicolon => 14,
            TokenType::Equal => 15,
            TokenType::EqualEqual => 16,
            TokenType::Bang => 17,
            TokenType::BangEqual => 18,
            TokenType::Greater => 19,
            TokenType::GreaterEqual => 20,
            TokenType::Less => 21,
            TokenType::LessEqual => 22,
            TokenType::And => 23,
            TokenType::Or => 24,
            TokenType::Identifier => 25,
            TokenType::String => 26,
            TokenType::Number => 27,
            TokenType::True => 28,
            TokenType::False => 29,
            TokenType::Nil => 30,
            TokenType::If => 31,
            TokenType::Else => 32,
            TokenType::While => 33,
            TokenType::For => 34,
            TokenType::In => 35,
            TokenType::Break => 36,
            TokenType::Continue => 37,
            TokenType::Function => 38,
            TokenType::Return => 39,
            TokenType::Try => 40,
            TokenType::Catch => 41,
            TokenType::Throw => 42,
            TokenType::Import => 43,
            TokenType::NewLine => 44,
            TokenType::Comment => 45,
            TokenType::EOF => 46,
            TokenType::Unknown => 47,
        }
    }

    /// The row of this kind in the operator table.
    pub fn row(self) -> (r: usize)
        ensures
            r == self.spec_row(),
            r < NUMBER,
    {
        match self {
            TokenType::OParen => 0,
            TokenType::CParen => 1,
            TokenType::OBrace => 2,
            TokenType::CBrace => 3,
            TokenType::OBracket => 4,
            TokenType::CBracket => 5,
            TokenType::Period => 6,
            TokenType::Plus => 7,
            TokenType::Minus => 8,
            TokenType::Star => 9,
            TokenType::Slash => 10,
            TokenType::Percent => 11,
            TokenType::Comma => 12,
            TokenType::Colon => 13,
            TokenType::Semicolon => 14,
            TokenType::Equal => 15,
            TokenType::EqualEqual => 16,
            TokenType::Bang => 17,
            TokenType::BangEqual => 18,
            TokenType::Greater => 19,
            TokenType::GreaterEqual => 20,
            TokenType::Less => 21,
            TokenType::LessEqual => 22,
            TokenType::And => 23,
            TokenType::Or => 24,
            TokenType::Identifier => 25,
            TokenType::String => 26,
            TokenType::Number => 27,
            TokenType::True => 28,
            TokenType::False => 29,
            TokenType::Nil => 30,
            TokenType::If => 31,
            TokenType::Else => 32,
            TokenType::While => 33,
            TokenType::For => 34,
            TokenType::In => 35,
            TokenType::Break => 36,
            TokenType::Continue => 37,
            TokenType::Function => 38,
            TokenType::Return => 39,
            TokenType::Try => 40,
            TokenType::Catch => 41,
            TokenType::Throw => 42,
            TokenType::Import => 43,
            TokenType::NewLine => 44,
            TokenType::Comment => 45,
            TokenType::EOF => 46,
            TokenType::Unknown => 47,
        }
    }

    /// Kinds that only a failed scan produces; the tokenizer has already
    /// reported them, so the parser stops without a report of its own.
    pub open spec fn spec_is_invalid(self) -> bool {
        self == TokenType::Unknown
    }

    /// Whether this kind is one that only a failed scan produces.
    pub fn is_invalid(self) -> (b: bool)
        ensures
            b == self.spec_is_invalid(),
    {
        match self {
            TokenType::Unknown => true,
            _ => false,
        }
    }
}

/// A token: its kind, the span of its text in the source, and where it
/// starts (line and column).
#[derive(Clone, Copy, Debug, PartialEq, Eq, Structural)]
pub struct Token {
    pub typ: TokenType,
    pub start: usize,
    pub length: usize,
    pub line: usize,
    pub col: usize,
}

impl Token {
    /// The line and column at which the token starts.
    pub fn get_pos(&self) -> (r: (usize, usize))
        ensures
            r == (self.line, self.col),
    {
        (self.line, self.col)
    }
}

} // verus!
