//! Lexical categories.
use vstd::prelude::*;
use crate::values::Value;

verus! {

#[derive(Debug)]
pub enum Token {
    /// `nil`, `true`, `false`, a number or a string.
    Literal(Value),
    Identifier(String),
    And,
    Break,
    Do,
    Else,
    Elseif,
    End,
    For,
    Function,
    Goto,
    If,
    In,
    Local,
    Not,
    Or,
    Repeat,
    Return,
    Then,
    Until,
    While,
    Plus,
    Minus,
    Star,
    ForwardSlash,
    Percent,
    Concatenation,
    Equals,
    NotEquals,
    LessThan,
    LessThanOrEqual,
    GreaterThan,
    GreaterThanOrEqual,
    Assign,
    LeftParens,
    RightParens,
    LeftCurlyBrace,
    RightCurlyBrace,
    LeftSquareBracket,
    RightSquareBracket,
    Comma,
    Semicolon,
    Period,
    Varargs,
    Pound,
}

impl Token {
    /// Whether two tokens are the same symbol or keyword.  Literals and
    /// names carry text and are never the same symbol.
    pub open spec fn same_symbol(&self, o: &Token) -> bool {
        !(*self is Literal) && !(*self is Identifier) && *self == *o
    }

    pub fn is(&self, o: &Token) -> (r: bool)
        ensures
            r == self.same_symbol(o),
    {
        match (self, o) {
            (Token::And, Token::And) => true,
            (Token::Break, Token::Break) => true,
            (Token::Do, Token::Do) => true,
            (Token::Else, Token::Else) => true,
            (Token::Elseif, Token::Elseif) => true,
            (Token::End, Token::End) => true,
            (Token::For, Token::For) => true,
            (Token::Function, Token::Function) => true,
            (Token::Goto, Token::Goto) => true,
            (Token::If, Token::If) => true,
            (Token::In, Token::In) => true,
            (Token::Local, Token::Local) => true,
            (Token::Not, Token::Not) => true,
            (Token::Or, Token::Or) => true,
            (Token::Repeat, Token::Repeat) => true,
            (Token::Return, Token::Return) => true,
            (Token::Then, Token::Then) => true,
            (Token::Until, Token::Until) => true,
            (Token::While, Token::While) => true,
            (Token::Plus, Token::Plus) => true,
            (Token::Minus, Token::Minus) => true,
            (Token::Star, Token::Star) => true,
            (Token::ForwardSlash, Token::ForwardSlash) => true,
            (Token::Percent, Token::Percent) => true,
            (Token::Concatenation, Token::Concatenation) => true,
            (Token::Equals, Token::Equals) => true,
            (Token::NotEquals, Token::NotEquals) => true,
            (Token::LessThan, Token::LessThan) => true,
            (Token::LessThanOrEqual, Token::LessThanOrEqual) => true,
            (Token::GreaterThan, Token::GreaterThan) => true,
            (Token::GreaterThanOrEqual, Token::GreaterThanOrEqual) => true,
            (Token::Assign, Token::Assign) => true,
            (Token::LeftParens, Token::LeftParens) => true,
            (Token::RightParens, Token::RightParens) => true,
            (Token::LeftCurlyBrace, Token::LeftCurlyBrace) => true,
            (Token::RightCurlyBrace, Token::RightCurlyBrace) => true,
            (Token::LeftSquareBracket, Token::LeftSquareBracket) => true,
            (Token::RightSquareBracket, Token::RightSquareBracket) => true,
            (Token::Comma, Token::Comma) => true,
            (Token::Semicolon, Token::Semicolon) => true,
            (Token::Period, Token::Period) => true,
            (Token::Varargs, Token::Varargs) => true,
            (Token::Pound, Token::Pound) => true,
            _ => false,
        }
    }
}

} // verus!
