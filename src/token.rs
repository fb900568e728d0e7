//! Token kinds, spans and tokens.
use vstd::prelude::*;

verus! {

/// Every kind of token the tokenizer can produce.
#[derive(Clone, Copy, Debug, PartialEq, Eq, Structural)]
pub enum TokenKind {
    Check,
    Pop,
    Print,
    Push,
    SetKw,
    Ident,
    IntLit,
    StringLit,
    True,
    False,
    And,
    Not,
    Or,
    Newline,
    LeftParen,
    RightParen,
    Plus,
    Minus,
    Multiply,
    Divide,
    Less,
    Greater,
    LessEq,
    GreaterEq,
    NotEq,
    Equals,
    Whitespace,
    Error,
    Eof,
}

/// A half-open range of byte offsets into the source text.
#[derive(Clone, Copy, Debug, PartialEq, Eq, Structural)]
pub struct Span {
    pub start: usize,
    pub end: usize,
}

/// A token: its kind and where it stands in the source.
#[derive(Clone, Copy, Debug, PartialEq, Eq, Structural)]
pub struct Token {
    pub kind: TokenKind,
    pub span: Span,
}

/// The word used for a token kind in messages.
pub open spec fn kind_name(k: TokenKind) -> Seq<char> {
    match k {
        TokenKind::Check => "check"@,
        TokenKind::Pop => "pop"@,
        TokenKind::Print => "print"@,
        TokenKind::Push => "push"@,
        TokenKind::SetKw => "set"@,
        TokenKind::Ident => "identifier"@,
        TokenKind::IntLit => "integer literal"@,
        TokenKind::StringLit => "string literal"@,
        TokenKind::True => "true"@,
        TokenKind::False => "false"@,
        TokenKind::And => "and"@,
        TokenKind::Not => "not"@,
        TokenKind::Or => "or"@,
        TokenKind::Newline => "newline"@,
        TokenKind::LeftParen => "("@,
        TokenKind::RightParen => ")"@,
        TokenKind::Plus => "+"@,
        TokenKind::Minus => "-"@,
        TokenKind::Multiply => "*"@,
        TokenKind::Divide => "/"@,
        TokenKind::Less => "<"@,
        TokenKind::Greater => ">"@,
        TokenKind::LessEq => "<="@,
        TokenKind::GreaterEq => ">="@,
        TokenKind::NotEq => "!="@,
        TokenKind::Equals => "=="@,
        TokenKind::Whitespace => "whitespace"@,
        TokenKind::Error => "error"@,
        TokenKind::Eof => "EOF"@,
    }
}

/// Binding power of a prefix operator: unary minus, then `not`, which binds
/// tighter than every infix operator.
pub open spec fn prefix_power(k: TokenKind) -> Option<u8> {
    match k {
        TokenKind::Minus => Some(51u8),
        TokenKind::Not => Some(101u8),
        _ => None,
    }
}

/// Left and right binding powers of an infix operator, loosest first:
/// `or`, `and`, equality, relational, additive, multiplicative.
pub open spec fn infix_power(k: TokenKind) -> Option<(u8, u8)> {
    match k {
        TokenKind::Or => Some((1u8, 2u8)),
        TokenKind::And => Some((3u8, 4u8)),
        TokenKind::Equals | TokenKind::NotEq => Some((5u8, 6u8)),
        TokenKind::Less | TokenKind::Greater | TokenKind::LessEq | TokenKind::GreaterEq => Some(
            (7u8, 8u8),
        ),
        TokenKind::Plus | TokenKind::Minus => Some((9u8, 10u8)),
        TokenKind::Multiply | TokenKind::Divide => Some((11u8, 12u8)),
        _ => None,
    }
}

impl TokenKind {
    /// The word used for this kind in messages.
    pub fn name(&self) -> (r: &'static str)
        ensures
            r@ == kind_name(*self),
    {
        match self {
            TokenKind::Check => "check",
            TokenKind::Pop => "pop",
            TokenKind::Print => "print",
            TokenKind::Push => "push",
            TokenKind::SetKw => "set",
            TokenKind::Ident => "identifier",
            TokenKind::IntLit => "integer literal",
            TokenKind::StringLit => "string literal",
            TokenKind::True => "true",
            TokenKind::False => "false",
            TokenKind::And => "and",
            TokenKind::Not => "not",
            TokenKind::Or => "or",
            TokenKind::Newline => "newline",
            TokenKind::LeftParen => "(",
            TokenKind::RightParen => ")",
            TokenKind::Plus => "+",
            TokenKind::Minus => "-",
            TokenKind::Multiply => "*",
            TokenKind::Divide => "/",
            TokenKind::Less => "<",
            TokenKind::Greater => ">",
            TokenKind::LessEq => "<=",
            TokenKind::GreaterEq => ">=",
            TokenKind::NotEq => "!=",
            TokenKind::Equals => "==",
            TokenKind::Whitespace => "whitespace",
            TokenKind::Error => "error",
            TokenKind::Eof => "EOF",
        }
    }

    /// Binding power of this kind used as a prefix operator, if it is one.
    pub fn prefix_binding_power(&self) -> (r: Option<u8>)
        ensures
            r == prefix_power(*self),
    {
        match self {
            TokenKind::Minus => Some(51),
            TokenKind::Not => Some(101),
            _ => None,
        }
    }

    /// Left and right binding powers of this kind used as an infix operator,
    /// if it is one.
    pub fn infix_binding_power(&self) -> (r: Option<(u8, u8)>)
        ensures
            r == infix_power(*self),
    {
        match self {
            TokenKind::Or => Some((1, 2)),
            TokenKind::And => Some((3, 4)),
            TokenKind::Equals | TokenKind::NotEq => Some((5, 6)),
            TokenKind::Less | TokenKind::Greater | TokenKind::LessEq | TokenKind::GreaterEq => Some(
                (7, 8),
            ),
            TokenKind::Plus | TokenKind::Minus => Some((9, 10)),
            TokenKind::Multiply | TokenKind::Divide => Some((11, 12)),
            _ => None,
        }
    }
}

} // verus!
