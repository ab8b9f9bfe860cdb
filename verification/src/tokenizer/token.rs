//! Tokens and their mathematical model.
use vstd::prelude::*;
use vstd::std_specs::cmp::PartialEqSpecImpl;

verus! {

/// A lexical atom of the source language.
///
/// Two tokens compare equal with `==` when they are of the same kind; the
/// payload of a number or an identifier is not compared.
#[derive(Clone, Eq, Debug)]
pub enum Token {
    /// `+`
    Plus,
    /// `-`
    Minus,
    /// `*`
    Multiple,
    /// `/`
    Devide,
    /// `!`
    Not,
    /// `&&`
    And,
    /// `||`
    Or,
    /// `=`
    Assign,
    /// `==`
    Equal,
    /// `!=`
    NotEqual,
    /// `<`
    Less,
    /// `<=`
    LessEqual,
    /// `>`
    More,
    /// `>=`
    MoreEqual,
    /// `;`
    EndExpr,
    /// `(`
    LeftParen,
    /// `)`
    RightParen,
    /// `{`
    LeftBlock,
    /// `}`
    RightBlock,
    /// `return`
    Return,
    /// `if`
    If,
    /// `else`
    Else,
    /// `while`
    While,
    /// `for`
    For,
    /// A decimal integer literal.
    Number(isize),
    /// An identifier.
    Identity(String),
}

/// The mathematical model of a [`Token`]: the same kinds, with an
/// identifier's name as a sequence of characters.
pub enum SpecToken {
    Plus,
    Minus,
    Multiple,
    Devide,
    Not,
    And,
    Or,
    Assign,
    Equal,
    NotEqual,
    Less,
    LessEqual,
    More,
    MoreEqual,
    EndExpr,
    LeftParen,
    RightParen,
    LeftBlock,
    RightBlock,
    Return,
    If,
    Else,
    While,
    For,
    Number(isize),
    Identity(Seq<char>),
}

impl SpecToken {
    /// Whether two tokens are of the same kind, whatever their payload.
    pub open spec fn same_kind(self, other: SpecToken) -> bool {
        match (self, other) {
            (SpecToken::Plus, SpecToken::Plus) => true,
            (SpecToken::Minus, SpecToken::Minus) => true,
            (SpecToken::Multiple, SpecToken::Multiple) => true,
            (SpecToken::Devide, SpecToken::Devide) => true,
            (SpecToken::Not, SpecToken::Not) => true,
            (SpecToken::And, SpecToken::And) => true,
            (SpecToken::Or, SpecToken::Or) => true,
            (SpecToken::Assign, SpecToken::Assign) => true,
            (SpecToken::Equal, SpecToken::Equal) => true,
            (SpecToken::NotEqual, SpecToken::NotEqual) => true,
            (SpecToken::Less, SpecToken::Less) => true,
            (SpecToken::LessEqual, SpecToken::LessEqual) => true,
            (SpecToken::More, SpecToken::More) => true,
            (SpecToken::MoreEqual, SpecToken::MoreEqual) => true,
            (SpecToken::EndExpr, SpecToken::EndExpr) => true,
            (SpecToken::LeftParen, SpecToken::LeftParen) => true,
            (SpecToken::RightParen, SpecToken::RightParen) => true,
            (SpecToken::LeftBlock, SpecToken::LeftBlock) => true,
            (SpecToken::RightBlock, SpecToken::RightBlock) => true,
            (SpecToken::Return, SpecToken::Return) => true,
            (SpecToken::If, SpecToken::If) => true,
            (SpecToken::Else, SpecToken::Else) => true,
            (SpecToken::While, SpecToken::While) => true,
            (SpecToken::For, SpecToken::For) => true,
            (SpecToken::Number(_), SpecToken::Number(_)) => true,
            (SpecToken::Identity(_), SpecToken::Identity(_)) => true,
            _ => false,
        }
    }
}

impl View for Token {
    type V = SpecToken;

    open spec fn view(&self) -> SpecToken {
        match self {
            Token::Plus => SpecToken::Plus,
            Token::Minus => SpecToken::Minus,
            Token::Multiple => SpecToken::Multiple,
            Token::Devide => SpecToken::Devide,
            Token::Not => SpecToken::Not,
            Token::And => SpecToken::And,
            Token::Or => SpecToken::Or,
            Token::Assign => SpecToken::Assign,
            Token::Equal => SpecToken::Equal,
            Token::NotEqual => SpecToken::NotEqual,
            Token::Less => SpecToken::Less,
            Token::LessEqual => SpecToken::LessEqual,
            Token::More => SpecToken::More,
            Token::MoreEqual => SpecToken::MoreEqual,
            Token::EndExpr => SpecToken::EndExpr,
            Token::LeftParen => SpecToken::LeftParen,
            Token::RightParen => SpecToken::RightParen,
            Token::LeftBlock => SpecToken::LeftBlock,
            Token::RightBlock => SpecToken::RightBlock,
            Token::Return => SpecToken::Return,
            Token::If => SpecToken::If,
            Token::Else => SpecToken::Else,
            Token::While => SpecToken::While,
            Token::For => SpecToken::For,
            Token::Number(n) => SpecToken::Number(*n),
            Token::Identity(name) => SpecToken::Identity(name@),
        }
    }
}

impl DeepView for Token {
    type V = SpecToken;

    open spec fn deep_view(&self) -> SpecToken {
        self@
    }
}

impl Token {
    /// An identifier token named `s`.
    pub fn identity(s: &str) -> (t: Token)
        ensures
            t@ == SpecToken::Identity(s@),
    {
        Token::Identity(s.to_owned())
    }

    /// A number token of value `n`.
    pub fn number(n: isize) -> (t: Token)
        ensures
            t@ == SpecToken::Number(n),
    {
        Token::Number(n)
    }
}

impl PartialEq for Token {
    fn eq(&self, other: &Self) -> (r: bool) {
        match (self, other) {
            (Token::Plus, Token::Plus)
            | (Token::Minus, Token::Minus)
            | (Token::Multiple, Token::Multiple)
            | (Token::Devide, Token::Devide)
            | (Token::Not, Token::Not)
            | (Token::And, Token::And)
            | (Token::Or, Token::Or)
            | (Token::Assign, Token::Assign)
            | (Token::Equal, Token::Equal)
            | (Token::NotEqual, Token::NotEqual)
            | (Token::Less, Token::Less)
            | (Token::LessEqual, Token::LessEqual)
            | (Token::More, Token::More)
            | (Token::MoreEqual, Token::MoreEqual)
            | (Token::EndExpr, Token::EndExpr)
            | (Token::LeftParen, Token::LeftParen)
            | (Token::RightParen, Token::RightParen)
            | (Token::LeftBlock, Token::LeftBlock)
            | (Token::RightBlock, Token::RightBlock)
            | (Token::Return, Token::Return)
            | (Token::If, Token::If)
            | (Token::Else, Token::Else)
            | (Token::While, Token::While)
            | (Token::For, Token::For)
            | (Token::Number(_), Token::Number(_))
            | (Token::Identity(_), Token::Identity(_)) => true,
            _ => false,
        }
    }
}

impl PartialEqSpecImpl for Token {
    open spec fn obeys_eq_spec() -> bool {
        true
    }

    open spec fn eq_spec(&self, other: &Self) -> bool {
        self@.same_kind(other@)
    }
}

} // verus!
