//! Tokens: the lexical units of the language.
use vstd::prelude::*;

verus! {

/// One lexical unit. `S` is the type of the text an identifier or string
/// literal holds: a slice of the input (`&str`) at run time, and its
/// characters (`Seq<char>`) in specifications.
#[derive(PartialEq, Eq, Debug, Clone, Copy)]
pub enum Token<S> {
    // keywords
    If,
    Else,
    For,
    In,
    While,
    Let,
    Mut,
    Return,
    Fn,
    Struct,
    Enum,
    Flag,
    Switch,
    Case,
    Default,
    // punctuation
    Arrow,
    Semicolon,
    Comma,
    Colon,
    OpenParen,
    CloseParen,
    OpenSquare,
    CloseSquare,
    OpenCurly,
    CloseCurly,
    // assignment and compound assignment
    Equals,
    PlusEquals,
    MinusEquals,
    StarEquals,
    SlashEquals,
    PercentEquals,
    LessThanLessThanEquals,
    GreaterThanGreaterThanEquals,
    AndEquals,
    CaratEquals,
    PipeEquals,
    // logical and comparison
    Or,
    And,
    Not,
    EqualsEquals,
    BangEquals,
    LessThan,
    GreaterThan,
    LessThanEquals,
    GreaterThanEquals,
    // arithmetic and bitwise
    LessThanLessThan,
    GreaterThanGreaterThan,
    Plus,
    Minus,
    Star,
    Slash,
    Percent,
    Carat,
    Pipe,
    // member access and ranges
    Dot,
    DotDot,
    Tilde,
    Ampersand,
    // literals and names
    Ident(S),
    Int(i64),
    Str(S),
    CharLit(char),
    /// A character that starts no other token.
    Char(char),
}

/// A token as specifications see it.
pub type Tok = Token<Seq<char>>;

impl<S> Token<S> {
    /// Tokens that carry no text: keywords, punctuation and operators.
    pub open spec fn is_plain(self) -> bool {
        !(self is Ident) && !(self is Int) && !(self is Str) && !(self is CharLit) && !(self is Char)
    }
}

impl<'a> View for Token<&'a str> {
    type V = Tok;

    open spec fn view(&self) -> Tok {
        match *self {
            Token::Ident(s) => Token::Ident(s@),
            Token::Int(n) => Token::Int(n),
            Token::Str(s) => Token::Str(s@),
            Token::CharLit(c) => Token::CharLit(c),
            Token::Char(c) => Token::Char(c),
            Token::If => Token::If,
            Token::Else => Token::Else,
            Token::For => Token::For,
            Token::In => Token::In,
            Token::While => Token::While,
            Token::Let => Token::Let,
            Token::Mut => Token::Mut,
            Token::Return => Token::Return,
            Token::Fn => Token::Fn,
            Token::Struct => Token::Struct,
            Token::Enum => Token::Enum,
            Token::Flag => Token::Flag,
            Token::Switch => Token::Switch,
            Token::Case => Token::Case,
            Token::Default => Token::Default,
            Token::Arrow => Token::Arrow,
            Token::Semicolon => Token::Semicolon,
            Token::Comma => Token::Comma,
            Token::Colon => Token::Colon,
            Token::OpenParen => Token::OpenParen,
            Token::CloseParen => Token::CloseParen,
            Token::OpenSquare => Token::OpenSquare,
            Token::CloseSquare => Token::CloseSquare,
            Token::OpenCurly => Token::OpenCurly,
            Token::CloseCurly => Token::CloseCurly,
            Token::Equals => Token::Equals,
            Token::PlusEquals => Token::PlusEquals,
            Token::MinusEquals => Token::MinusEquals,
            Token::StarEquals => Token::StarEquals,
            Token::SlashEquals => Token::SlashEquals,
            Token::PercentEquals => Token::PercentEquals,
            Token::LessThanLessThanEquals => Token::LessThanLessThanEquals,
            Token::GreaterThanGreaterThanEquals => Token::GreaterThanGreaterThanEquals,
            Token::AndEquals => Token::AndEquals,
            Token::CaratEquals => Token::CaratEquals,
            Token::PipeEquals => Token::PipeEquals,
            Token::Or => Token::Or,
            Token::And => Token::And,
            Token::Not => Token::Not,
            Token::EqualsEquals => Token::EqualsEquals,
            Token::BangEquals => Token::BangEquals,
            Token::LessThan => Token::LessThan,
            Token::GreaterThan => Token::GreaterThan,
            Token::LessThanEquals => Token::LessThanEquals,
            Token::GreaterThanEquals => Token::GreaterThanEquals,
            Token::LessThanLessThan => Token::LessThanLessThan,
            Token::GreaterThanGreaterThan => Token::GreaterThanGreaterThan,
            Token::Plus => Token::Plus,
            Token::Minus => Token::Minus,
            Token::Star => Token::Star,
            Token::Slash => Token::Slash,
            Token::Percent => Token::Percent,
            Token::Carat => Token::Carat,
            Token::Pipe => Token::Pipe,
            Token::Dot => Token::Dot,
            Token::DotDot => Token::DotDot,
            Token::Tilde => Token::Tilde,
            Token::Ampersand => Token::Ampersand,
        }
    }
}

pub open spec fn opt_view<'a>(t: Option<Token<&'a str>>) -> Option<Tok> {
    match t {
        Some(t) => Some(t@),
        None => None,
    }
}

impl<'a> Token<&'a str> {
    /// Whether this token is the plain token `other`.
    pub fn same_as(&self, other: &Token<&'a str>) -> (r: bool)
        requires
            other.is_plain(),
        ensures
            r == (self@ == other@),
    {
        match (self, other) {
            (Token::If, Token::If) => true,
            (Token::Else, Token::Else) => true,
            (Token::For, Token::For) => true,
            (Token::In, Token::In) => true,
            (Token::While, Token::While) => true,
            (Token::Let, Token::Let) => true,
            (Token::Mut, Token::Mut) => true,
            (Token::Return, Token::Return) => true,
            (Token::Fn, Token::Fn) => true,
            (Token::Struct, Token::Struct) => true,
            (Token::Enum, Token::Enum) => true,
            (Token::Flag, Token::Flag) => true,
            (Token::Switch, Token::Switch) => true,
            (Token::Case, Token::Case) => true,
            (Token::Default, Token::Default) => true,
            (Token::Arrow, Token::Arrow) => true,
            (Token::Semicolon, Token::Semicolon) => true,
            (Token::Comma, Token::Comma) => true,
            (Token::Colon, Token::Colon) => true,
            (Token::OpenParen, Token::OpenParen) => true,
            (Token::CloseParen, Token::CloseParen) => true,
            (Token::OpenSquare, Token::OpenSquare) => true,
            (Token::CloseSquare, Token::CloseSquare) => true,
            (Token::OpenCurly, Token::OpenCurly) => true,
            (Token::CloseCurly, Token::CloseCurly) => true,
            (Token::Equals, Token::Equals) => true,
            (Token::PlusEquals, Token::PlusEquals) => true,
            (Token::MinusEquals, Token::MinusEquals) => true,
            (Token::StarEquals, Token::StarEquals) => true,
            (Token::SlashEquals, Token::SlashEquals) => true,
            (Token::PercentEquals, Token::PercentEquals) => true,
            (Token::LessThanLessThanEquals, Token::LessThanLessThanEquals) => true,
            (Token::GreaterThanGreaterThanEquals, Token::GreaterThanGreaterThanEquals) => true,
            (Token::AndEquals, Token::AndEquals) => true,
            (Token::CaratEquals, Token::CaratEquals) => true,
            (Token::PipeEquals, Token::PipeEquals) => true,
            (Token::Or, Token::Or) => true,
            (Token::And, Token::And) => true,
            (Token::Not, Token::Not) => true,
            (Token::EqualsEquals, Token::EqualsEquals) => true,
            (Token::BangEquals, Token::BangEquals) => true,
            (Token::LessThan, Token::LessThan) => true,
            (Token::GreaterThan, Token::GreaterThan) => true,
            (Token::LessThanEquals, Token::LessThanEquals) => true,
            (Token::GreaterThanEquals, Token::GreaterThanEquals) => true,
            (Token::LessThanLessThan, Token::LessThanLessThan) => true,
            (Token::GreaterThanGreaterThan, Token::GreaterThanGreaterThan) => true,
            (Token::Plus, Token::Plus) => true,
            (Token::Minus, Token::Minus) => true,
            (Token::Star, Token::Star) => true,
            (Token::Slash, Token::Slash) => true,
            (Token::Percent, Token::Percent) => true,
            (Token::Carat, Token::Carat) => true,
            (Token::Pipe, Token::Pipe) => true,
            (Token::Dot, Token::Dot) => true,
            (Token::DotDot, Token::DotDot) => true,
            (Token::Tilde, Token::Tilde) => true,
            (Token::Ampersand, Token::Ampersand) => true,
            _ => false,
        }
    }
}

} // verus!
