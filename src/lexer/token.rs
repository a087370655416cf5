//! Tokens produced by the lexer, and their mathematical view.

use vstd::prelude::*;

verus! {

/// Every kind of token that the lexer can produce.
///
/// Payload-bearing kinds hold the decoded text of their literal; `Error`
/// holds a message explaining why the input could not be classified.
#[derive(Debug)]
pub enum TokenKind {
    // single char tokens
    OpenParen,
    CloseParen,
    OpenBracket,
    CloseBracket,
    OpenBrace,
    CloseBrace,
    Comma,
    Dot,
    Semicolon,
    // two or more char tokens
    And,
    Or,
    Range,
    RangeInclusive,
    // single or double char tokens
    Equal,
    EqualEqual,
    Bang,
    BangEqual,
    Greater,
    GreaterEqual,
    Less,
    LessEqual,
    Plus,
    PlusEqual,
    Minus,
    MinusEqual,
    Star,
    StarEqual,
    Slash,
    SlashEqual,
    // literals
    Str(String),
    Char(char),
    Int(String),
    Float(String),
    // identifiers
    Ident(String),
    // keywords
    Class,
    Else,
    False,
    For,
    Fun,
    If,
    Impls,
    Import,
    Match,
    Mut,
    Return,
    Trait,
    True,
    Let,
    While,
    Error(String),
    Eof,
}

/// The mathematical view of a [`TokenKind`]: text payloads become sequences
/// of characters.
pub enum KindModel {
    OpenParen,
    CloseParen,
    OpenBracket,
    CloseBracket,
    OpenBrace,
    CloseBrace,
    Comma,
    Dot,
    Semicolon,
    And,
    Or,
    Range,
    RangeInclusive,
    Equal,
    EqualEqual,
    Bang,
    BangEqual,
    Greater,
    GreaterEqual,
    Less,
    LessEqual,
    Plus,
    PlusEqual,
    Minus,
    MinusEqual,
    Star,
    StarEqual,
    Slash,
    SlashEqual,
    Str(Seq<char>),
    Char(char),
    Int(Seq<char>),
    Float(Seq<char>),
    Ident(Seq<char>),
    Class,
    Else,
    False,
    For,
    Fun,
    If,
    Impls,
    Import,
    Match,
    Mut,
    Return,
    Trait,
    True,
    Let,
    While,
    Error(Seq<char>),
    Eof,
}

impl View for TokenKind {
    type V = KindModel;

    open spec fn view(&self) -> KindModel {
        match self {
            TokenKind::OpenParen => KindModel::OpenParen,
            TokenKind::CloseParen => KindModel::CloseParen,
            TokenKind::OpenBracket => KindModel::OpenBracket,
            TokenKind::CloseBracket => KindModel::CloseBracket,
            TokenKind::OpenBrace => KindModel::OpenBrace,
            TokenKind::CloseBrace => KindModel::CloseBrace,
            TokenKind::Comma => KindModel::Comma,
            TokenKind::Dot => KindModel::Dot,
            TokenKind::Semicolon => KindModel::Semicolon,
            TokenKind::And => KindModel::And,
            TokenKind::Or => KindModel::Or,
            TokenKind::Range => KindModel::Range,
            TokenKind::RangeInclusive => KindModel::RangeInclusive,
            TokenKind::Equal => KindModel::Equal,
            TokenKind::EqualEqual => KindModel::EqualEqual,
            TokenKind::Bang => KindModel::Bang,
            TokenKind::BangEqual => KindModel::BangEqual,
            TokenKind::Greater => KindModel::Greater,
            TokenKind::GreaterEqual => KindModel::GreaterEqual,
            TokenKind::Less => KindModel::Less,
            TokenKind::LessEqual => KindModel::LessEqual,
            TokenKind::Plus => KindModel::Plus,
            TokenKind::PlusEqual => KindModel::PlusEqual,
            TokenKind::Minus => KindModel::Minus,
            TokenKind::MinusEqual => KindModel::MinusEqual,
            TokenKind::Star => KindModel::Star,
            TokenKind::StarEqual => KindModel::StarEqual,
            TokenKind::Slash => KindModel::Slash,
            TokenKind::SlashEqual => KindModel::SlashEqual,
            TokenKind::Str(s) => KindModel::Str(s@),
            TokenKind::Char(c) => KindModel::Char(*c),
            TokenKind::Int(s) => KindModel::Int(s@),
            TokenKind::Float(s) => KindModel::Float(s@),
            TokenKind::Ident(s) => KindModel::Ident(s@),
            TokenKind::Class => KindModel::Class,
            TokenKind::Else => KindModel::Else,
            TokenKind::False => KindModel::False,
            TokenKind::For => KindModel::For,
            TokenKind::Fun => KindModel::Fun,
            TokenKind::If => KindModel::If,
            TokenKind::Impls => KindModel::Impls,
            TokenKind::Import => KindModel::Import,
            TokenKind::Match => KindModel::Match,
            TokenKind::Mut => KindModel::Mut,
            TokenKind::Return => KindModel::Return,
            TokenKind::Trait => KindModel::Trait,
            TokenKind::True => KindModel::True,
            TokenKind::Let => KindModel::Let,
            TokenKind::While => KindModel::While,
            TokenKind::Error(s) => KindModel::Error(s@),
            TokenKind::Eof => KindModel::Eof,
        }
    }
}

impl PartialEq for TokenKind {
    fn eq(&self, other: &TokenKind) -> (r: bool) {
        self.same_kind(other)
    }
}

impl TokenKind {
    /// Whether the two kinds are the same, payloads included.
    pub fn same_kind(&self, other: &TokenKind) -> (r: bool)
        ensures
            r == (self@ == other@),
    {
        match (self, other) {
            (TokenKind::OpenParen, TokenKind::OpenParen) => true,
            (TokenKind::CloseParen, TokenKind::CloseParen) => true,
            (TokenKind::OpenBracket, TokenKind::OpenBracket) => true,
            (TokenKind::CloseBracket, TokenKind::CloseBracket) => true,
            (TokenKind::OpenBrace, TokenKind::OpenBrace) => true,
            (TokenKind::CloseBrace, TokenKind::CloseBrace) => true,
            (TokenKind::Comma, TokenKind::Comma) => true,
            (TokenKind::Dot, TokenKind::Dot) => true,
            (TokenKind::Semicolon, TokenKind::Semicolon) => true,
            (TokenKind::And, TokenKind::And) => true,
            (TokenKind::Or, TokenKind::Or) => true,
            (TokenKind::Range, TokenKind::Range) => true,
            (TokenKind::RangeInclusive, TokenKind::RangeInclusive) => true,
            (TokenKind::Equal, TokenKind::Equal) => true,
            (TokenKind::EqualEqual, TokenKind::EqualEqual) => true,
            (TokenKind::Bang, TokenKind::Bang) => true,
            (TokenKind::BangEqual, TokenKind::BangEqual) => true,
            (TokenKind::Greater, TokenKind::Greater) => true,
            (TokenKind::GreaterEqual, TokenKind::GreaterEqual) => true,
            (TokenKind::Less, TokenKind::Less) => true,
            (TokenKind::LessEqual, TokenKind::LessEqual) => true,
            (TokenKind::Plus, TokenKind::Plus) => true,
            (TokenKind::PlusEqual, TokenKind::PlusEqual) => true,
            (TokenKind::Minus, TokenKind::Minus) => true,
            (TokenKind::MinusEqual, TokenKind::MinusEqual) => true,
            (TokenKind::Star, TokenKind::Star) => true,
            (TokenKind::StarEqual, TokenKind::StarEqual) => true,
            (TokenKind::Slash, TokenKind::Slash) => true,
            (TokenKind::SlashEqual, TokenKind::SlashEqual) => true,
            (TokenKind::Class, TokenKind::Class) => true,
            (TokenKind::Else, TokenKind::Else) => true,
            (TokenKind::False, TokenKind::False) => true,
            (TokenKind::For, TokenKind::For) => true,
            (TokenKind::Fun, TokenKind::Fun) => true,
            (TokenKind::If, TokenKind::If) => true,
            (TokenKind::Impls, TokenKind::Impls) => true,
            (TokenKind::Import, TokenKind::Import) => true,
            (TokenKind::Match, TokenKind::Match) => true,
            (TokenKind::Mut, TokenKind::Mut) => true,
            (TokenKind::Return, TokenKind::Return) => true,
            (TokenKind::Trait, TokenKind::Trait) => true,
            (TokenKind::True, TokenKind::True) => true,
            (TokenKind::Let, TokenKind::Let) => true,
            (TokenKind::While, TokenKind::While) => true,
            (TokenKind::Eof, TokenKind::Eof) => true,
            (TokenKind::Str(a), TokenKind::Str(b)) => *a == *b,
            (TokenKind::Int(a), TokenKind::Int(b)) => *a == *b,
            (TokenKind::Float(a), TokenKind::Float(b)) => *a == *b,
            (TokenKind::Ident(a), TokenKind::Ident(b)) => *a == *b,
            (TokenKind::Error(a), TokenKind::Error(b)) => *a == *b,
            (TokenKind::Char(a), TokenKind::Char(b)) => *a == *b,
            _ => {
                assert(self@ != other@);
                false
            },
        }
    }
}

impl Eq for TokenKind {

}

impl vstd::std_specs::cmp::PartialEqSpecImpl for TokenKind {
    open spec fn obeys_eq_spec() -> bool {
        true
    }

    open spec fn eq_spec(&self, other: &TokenKind) -> bool {
        self@ == other@
    }
}

impl TokenKind {
    /// Whether this is the end-of-input marker.
    pub fn is_eof(&self) -> (r: bool)
        ensures
            r == (self@ == KindModel::Eof),
    {
        match self {
            TokenKind::Eof => true,
            _ => false,
        }
    }

    /// Whether this token reports a lexical failure.
    pub fn is_error(&self) -> (r: bool)
        ensures
            r == (self@ is Error),
    {
        match self {
            TokenKind::Error(_) => true,
            _ => false,
        }
    }
}

/// A classified lexeme with the line and column of its first character and
/// the half-open byte range `start..end` it covers in the source.
#[derive(Debug)]
pub struct Token {
    pub kind: TokenKind,
    pub line: u32,
    pub column: u32,
    pub start: usize,
    pub end: usize,
}

impl Token {
    /// Create a new token from its parts.
    pub fn new(kind: TokenKind, line: u32, column: u32, start: usize, end: usize) -> (r: Token)
        ensures
            r.kind == kind,
            r.line == line,
            r.column == column,
            r.start == start,
            r.end == end,
    {
        Token { kind, line, column, start, end }
    }
}

} // verus!
