use vstd::prelude::*;

verus! {

/// The kind of a lexical token: fixed punctuation, one- or two-character
/// operators, literals, keywords, and the end-of-input marker that closes
/// every token sequence.
#[derive(Clone, Copy, PartialEq, Eq, Structural, Debug)]
pub enum TokenType {
    // Single-character tokens.
    LeftParen,
    RightParen,
    LeftBrace,
    RightBrace,
    Comma,
    Dot,
    Minus,
    Plus,
    Semicolon,
    Slash,
    Star,
    Caret,
    // One or two character tokens.
    Bang,
    BangEqual,
    Equal,
    EqualEqual,
    Greater,
    GreaterEqual,
    Less,
    LessEqual,
    // Literals.
    Identifier,
    String,
    Number,
    // Keywords. Several are reserved for unimplemented future features.
    And,
    Class,
    Else,
    False,
    For,
    From,
    Fun,
    If,
    Nil,
    Or,
    Print,
    Println,
    Return,
    Super,
    This,
    True,
    Until,
    Var,
    While,
    // End of input.
    EOF,
}

} // verus!
