//! Tokens produced by the scanner.
use crate::parser::node::Spanned;
use vstd::prelude::*;

verus! {

/// The kinds of token; `S` is the type that carries text.
#[derive(Debug, Clone, PartialEq)]
pub enum TokenKindOf<S> {
    LeftParen,
    RightParen,
    LeftBrace,
    RightBrace,
    Comma,
    Dot,
    Minus,
    Plus,
    Semicolon,
    Slash,
    Star,
    Bang,
    BangEqual,
    Equal,
    EqualEqual,
    Greater,
    GreaterEqual,
    Less,
    LessEqual,
    /// An identifier, with its text.
    Identifier(S),
    /// A string literal, with the text between the quotes.
    String(S),
    /// A number literal, with its digits as written.
    Number(S),
    And,
    Class,
    Else,
    False,
    Fun,
    For,
    If,
    Nil,
    Or,
    Print,
    Return,
    Super,
    This,
    True,
    Var,
    While,
}

/// A token kind as the scanner produces it.
pub type TokenKind = TokenKindOf<String>;

/// A token kind with its text as a sequence of chars.
pub type SpecTokenKind = TokenKindOf<Seq<char>>;

pub type Token = Spanned<TokenKind>;

impl View for TokenKindOf<String> {
    type V = SpecTokenKind;

    open spec fn view(&self) -> SpecTokenKind {
        match self {
            TokenKindOf::LeftParen => TokenKindOf::LeftParen,
            TokenKindOf::RightParen => TokenKindOf::RightParen,
            TokenKindOf::LeftBrace => TokenKindOf::LeftBrace,
            TokenKindOf::RightBrace => TokenKindOf::RightBrace,
            TokenKindOf::Comma => TokenKindOf::Comma,
            TokenKindOf::Dot => TokenKindOf::Dot,
            TokenKindOf::Minus => TokenKindOf::Minus,
            TokenKindOf::Plus => TokenKindOf::Plus,
            TokenKindOf::Semicolon => TokenKindOf::Semicolon,
            TokenKindOf::Slash => TokenKindOf::Slash,
            TokenKindOf::Star => TokenKindOf::Star,
            TokenKindOf::Bang => TokenKindOf::Bang,
            TokenKindOf::BangEqual => TokenKindOf::BangEqual,
            TokenKindOf::Equal => TokenKindOf::Equal,
            TokenKindOf::EqualEqual => TokenKindOf::EqualEqual,
            TokenKindOf::Greater => TokenKindOf::Greater,
            TokenKindOf::GreaterEqual => TokenKindOf::GreaterEqual,
            TokenKindOf::Less => TokenKindOf::Less,
            TokenKindOf::LessEqual => TokenKindOf::LessEqual,
            TokenKindOf::Identifier(s) => TokenKindOf::Identifier(s@),
            TokenKindOf::String(s) => TokenKindOf::String(s@),
            TokenKindOf::Number(s) => TokenKindOf::Number(s@),
            TokenKindOf::And => TokenKindOf::And,
            TokenKindOf::Class => TokenKindOf::Class,
            TokenKindOf::Else => TokenKindOf::Else,
            TokenKindOf::False => TokenKindOf::False,
            TokenKindOf::Fun => TokenKindOf::Fun,
            TokenKindOf::For => TokenKindOf::For,
            TokenKindOf::If => TokenKindOf::If,
            TokenKindOf::Nil => TokenKindOf::Nil,
            TokenKindOf::Or => TokenKindOf::Or,
            TokenKindOf::Print => TokenKindOf::Print,
            TokenKindOf::Return => TokenKindOf::Return,
            TokenKindOf::Super => TokenKindOf::Super,
            TokenKindOf::This => TokenKindOf::This,
            TokenKindOf::True => TokenKindOf::True,
            TokenKindOf::Var => TokenKindOf::Var,
            TokenKindOf::While => TokenKindOf::While,
        }
    }
}

} // verus!
