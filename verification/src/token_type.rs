//! The closed set of lexical categories a token can carry.
use vstd::prelude::*;

verus! {

/// Classification tag of one lexical unit.
///
/// The set is flat and closed: structural symbols, operators, type
/// keywords, literal kinds, identifiers, control keywords, and the
/// diagnostic `Unknown` for a lexeme that matched no recognized pattern.
#[derive(Debug, Default, Clone, Copy, PartialEq, Eq, Hash, Structural)]
pub enum TokenType {
    #[default]
    Unknown,
    // Structural symbols.
    LeftParen,
    RightParen,
    LeftBrace,
    RightBrace,
    LeftSquareBracket,
    RightSquareBracket,
    Comma,
    Dot,
    Minus,
    Plus,
    Semicolon,
    Slash,
    Star,
    // Operators.
    Bang,
    BangEqual,
    Equal,
    EqualEqual,
    Greater,
    GreaterEqual,
    Less,
    LessEqual,
    And,
    Or,
    // Type keywords.
    Int,
    Float,
    String,
    Boolean,
    // Literals.
    Identifier,
    Str,
    Integer,
    Real,
    // Control keywords.
    If,
    Else,
    False,
    For,
    Fun,
    Nil,
    Print,
    Return,
    True,
    While,
}

} // verus!
