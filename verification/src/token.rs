//! Tokens: the closed set of lexeme kinds, each carried with its span.

use vstd::prelude::*;

use crate::span::Spanned;

verus! {

/// Every kind of token the lexer can produce: literals, identifiers,
/// keywords, operators, delimiters, end of file, and the three layout
/// markers.
#[derive(Debug, Clone, PartialEq)]
pub enum TokenKind {
    IntLiteral(u64),
    BoolLiteral(bool),
    Ident(String),
    Let,
    Mod,
    Not,
    Fn,
    U64,
    I64,
    Plus,
    Minus,
    Star,
    Slash,
    Equal,
    NotEqual,
    Less,
    LessEqual,
    Greater,
    GreaterEqual,
    And,
    Or,
    LParen,
    RParen,
    Comma,
    Dot,
    Colon,
    Eof,
    Arrow,
    Indent,
    Dedent,
    Newline,
}

/// The short display text of each token kind.
pub open spec fn token_kind_text(k: TokenKind) -> Seq<char> {
    match k {
        TokenKind::IntLiteral(_) => "integer literal"@,
        TokenKind::BoolLiteral(_) => "boolean literal"@,
        TokenKind::Ident(_) => "identifier"@,
        TokenKind::Let => "`let`"@,
        TokenKind::Mod => "`mod`"@,
        TokenKind::Not => "`not`"@,
        TokenKind::Fn => "`fn`"@,
        TokenKind::U64 => "u64"@,
        TokenKind::I64 => "i64"@,
        TokenKind::Plus => "`+`"@,
        TokenKind::Minus => "`-`"@,
        TokenKind::Star => "`*`"@,
        TokenKind::Slash => "`/`"@,
        TokenKind::Equal => "`=`"@,
        TokenKind::NotEqual => "`<>`"@,
        TokenKind::Less => "`<`"@,
        TokenKind::LessEqual => "`<=`"@,
        TokenKind::Greater => "`>`"@,
        TokenKind::GreaterEqual => "`>=`"@,
        TokenKind::And => "`&&`"@,
        TokenKind::Or => "`||`"@,
        TokenKind::LParen => "`(`"@,
        TokenKind::RParen => "`)`"@,
        TokenKind::Comma => "`,`"@,
        TokenKind::Dot => "`.`"@,
        TokenKind::Colon => "`:`"@,
        TokenKind::Eof => "end of file"@,
        TokenKind::Arrow => "`->`"@,
        TokenKind::Indent => "`indent`"@,
        TokenKind::Dedent => "dedent"@,
        TokenKind::Newline => "newline"@,
    }
}

/// Equality of token kinds: same variant and, for literals and
/// identifiers, the same payload (identifier text compared by
/// content).
pub open spec fn kind_eq(a: TokenKind, b: TokenKind) -> bool {
    match (a, b) {
        (TokenKind::IntLiteral(x), TokenKind::IntLiteral(y)) => x == y,
        (TokenKind::BoolLiteral(x), TokenKind::BoolLiteral(y)) => x == y,
        (TokenKind::Ident(x), TokenKind::Ident(y)) => x@ == y@,
        (TokenKind::Let, TokenKind::Let) => true,
        (TokenKind::Mod, TokenKind::Mod) => true,
        (TokenKind::Not, TokenKind::Not) => true,
        (TokenKind::Fn, TokenKind::Fn) => true,
        (TokenKind::U64, TokenKind::U64) => true,
        (TokenKind::I64, TokenKind::I64) => true,
        (TokenKind::Plus, TokenKind::Plus) => true,
        (TokenKind::Minus, TokenKind::Minus) => true,
        (TokenKind::Star, TokenKind::Star) => true,
        (TokenKind::Slash, TokenKind::Slash) => true,
        (TokenKind::Equal, TokenKind::Equal) => true,
        (TokenKind::NotEqual, TokenKind::NotEqual) => true,
        (TokenKind::Less, TokenKind::Less) => true,
        (TokenKind::LessEqual, TokenKind::LessEqual) => true,
        (TokenKind::Greater, TokenKind::Greater) => true,
        (TokenKind::GreaterEqual, TokenKind::GreaterEqual) => true,
        (TokenKind::And, TokenKind::And) => true,
        (TokenKind::Or, TokenKind::Or) => true,
        (TokenKind::LParen, TokenKind::LParen) => true,
        (TokenKind::RParen, TokenKind::RParen) => true,
        (TokenKind::Comma, TokenKind::Comma) => true,
        (TokenKind::Dot, TokenKind::Dot) => true,
        (TokenKind::Colon, TokenKind::Colon) => true,
        (TokenKind::Eof, TokenKind::Eof) => true,
        (TokenKind::Arrow, TokenKind::Arrow) => true,
        (TokenKind::Indent, TokenKind::Indent) => true,
        (TokenKind::Dedent, TokenKind::Dedent) => true,
        (TokenKind::Newline, TokenKind::Newline) => true,
        _ => false,
    }
}

impl TokenKind {
    /// The short display text of this token kind.
    pub fn describe(&self) -> (r: &'static str)
        ensures
            r@ == token_kind_text(*self),
    {
        match self {
            TokenKind::IntLiteral(_) => "integer literal",
            TokenKind::BoolLiteral(_) => "boolean literal",
            TokenKind::Ident(_) => "identifier",
            TokenKind::Let => "`let`",
            TokenKind::Mod => "`mod`",
            TokenKind::Not => "`not`",
            TokenKind::Fn => "`fn`",
            TokenKind::U64 => "u64",
            TokenKind::I64 => "i64",
            TokenKind::Plus => "`+`",
            TokenKind::Minus => "`-`",
            TokenKind::Star => "`*`",
            TokenKind::Slash => "`/`",
            TokenKind::Equal => "`=`",
            TokenKind::NotEqual => "`<>`",
            TokenKind::Less => "`<`",
            TokenKind::LessEqual => "`<=`",
            TokenKind::Greater => "`>`",
            TokenKind::GreaterEqual => "`>=`",
            TokenKind::And => "`&&`",
            TokenKind::Or => "`||`",
            TokenKind::LParen => "`(`",
            TokenKind::RParen => "`)`",
            TokenKind::Comma => "`,`",
            TokenKind::Dot => "`.`",
            TokenKind::Colon => "`:`",
            TokenKind::Eof => "end of file",
            TokenKind::Arrow => "`->`",
            TokenKind::Indent => "`indent`",
            TokenKind::Dedent => "dedent",
            TokenKind::Newline => "newline",
        }
    }

    /// An exact copy of this kind.
    pub fn duplicate(&self) -> (r: TokenKind)
        ensures
            r == *self,
    {
        match self {
            TokenKind::IntLiteral(x) => TokenKind::IntLiteral(*x),
            TokenKind::BoolLiteral(b) => TokenKind::BoolLiteral(*b),
            TokenKind::Ident(s) => TokenKind::Ident(s.clone()),
            TokenKind::Let => TokenKind::Let,
            TokenKind::Mod => TokenKind::Mod,
            TokenKind::Not => TokenKind::Not,
            TokenKind::Fn => TokenKind::Fn,
            TokenKind::U64 => TokenKind::U64,
            TokenKind::I64 => TokenKind::I64,
            TokenKind::Plus => TokenKind::Plus,
            TokenKind::Minus => TokenKind::Minus,
            TokenKind::Star => TokenKind::Star,
            TokenKind::Slash => TokenKind::Slash,
            TokenKind::Equal => TokenKind::Equal,
            TokenKind::NotEqual => TokenKind::NotEqual,
            TokenKind::Less => TokenKind::Less,
            TokenKind::LessEqual => TokenKind::LessEqual,
            TokenKind::Greater => TokenKind::Greater,
            TokenKind::GreaterEqual => TokenKind::GreaterEqual,
            TokenKind::And => TokenKind::And,
            TokenKind::Or => TokenKind::Or,
            TokenKind::LParen => TokenKind::LParen,
            TokenKind::RParen => TokenKind::RParen,
            TokenKind::Comma => TokenKind::Comma,
            TokenKind::Dot => TokenKind::Dot,
            TokenKind::Colon => TokenKind::Colon,
            TokenKind::Eof => TokenKind::Eof,
            TokenKind::Arrow => TokenKind::Arrow,
            TokenKind::Indent => TokenKind::Indent,
            TokenKind::Dedent => TokenKind::Dedent,
            TokenKind::Newline => TokenKind::Newline,
        }
    }

    /// Decide `kind_eq`.
    pub fn same_kind(&self, other: &TokenKind) -> (r: bool)
        ensures
            r == kind_eq(*self, *other),
    {
        match (self, other) {
            (TokenKind::IntLiteral(a), TokenKind::IntLiteral(b)) => a == b,
            (TokenKind::BoolLiteral(a), TokenKind::BoolLiteral(b)) => a == b,
            (TokenKind::Ident(a), TokenKind::Ident(b)) => a.eq(b),
            (TokenKind::Let, TokenKind::Let) => true,
            (TokenKind::Mod, TokenKind::Mod) => true,
            (TokenKind::Not, TokenKind::Not) => true,
            (TokenKind::Fn, TokenKind::Fn) => true,
            (TokenKind::U64, TokenKind::U64) => true,
            (TokenKind::I64, TokenKind::I64) => true,
            (TokenKind::Plus, TokenKind::Plus) => true,
            (TokenKind::Minus, TokenKind::Minus) => true,
            (TokenKind::Star, TokenKind::Star) => true,
            (TokenKind::Slash, TokenKind::Slash) => true,
            (TokenKind::Equal, TokenKind::Equal) => true,
            (TokenKind::NotEqual, TokenKind::NotEqual) => true,
            (TokenKind::Less, TokenKind::Less) => true,
            (TokenKind::LessEqual, TokenKind::LessEqual) => true,
            (TokenKind::Greater, TokenKind::Greater) => true,
            (TokenKind::GreaterEqual, TokenKind::GreaterEqual) => true,
            (TokenKind::And, TokenKind::And) => true,
            (TokenKind::Or, TokenKind::Or) => true,
            (TokenKind::LParen, TokenKind::LParen) => true,
            (TokenKind::RParen, TokenKind::RParen) => true,
            (TokenKind::Comma, TokenKind::Comma) => true,
            (TokenKind::Dot, TokenKind::Dot) => true,
            (TokenKind::Colon, TokenKind::Colon) => true,
            (TokenKind::Eof, TokenKind::Eof) => true,
            (TokenKind::Arrow, TokenKind::Arrow) => true,
            (TokenKind::Indent, TokenKind::Indent) => true,
            (TokenKind::Dedent, TokenKind::Dedent) => true,
            (TokenKind::Newline, TokenKind::Newline) => true,
            _ => false,
        }
    }
}

/// A token: a kind together with the span of text it was read from.
pub type Token = Spanned<TokenKind>;

} // verus!
