//! Lexical tokens and their literal payloads.

use vstd::prelude::*;

use crate::num::Num;
use crate::token_type::TokenType;

verus! {

/// Ghost form of a literal payload: text as a character sequence, numbers as
/// exact rationals.
pub enum LitV {
    Absent,
    Str(Seq<char>),
    Num { n: int, d: int },
    True,
    False,
    Nil,
}

/// The literal payload a token carries: nothing for punctuation and
/// keywords, the inner text of a string literal, the exact value of a
/// numeric literal.
#[derive(Debug)]
pub enum Literal {
    Absent,
    Str(String),
    Num(Num),
    True,
    False,
    Nil,
}

impl View for Literal {
    type V = LitV;

    open spec fn view(&self) -> LitV {
        match self {
            Literal::Absent => LitV::Absent,
            Literal::Str(s) => LitV::Str(s@),
            Literal::Num(q) => LitV::Num { n: q.n as int, d: q.d as int },
            Literal::True => LitV::True,
            Literal::False => LitV::False,
            Literal::Nil => LitV::Nil,
        }
    }
}

/// Every number carried by a ghost literal has a positive denominator.
pub open spec fn litv_wf(l: LitV) -> bool {
    match l {
        LitV::Num { n, d } => 0 < d,
        _ => true,
    }
}

impl Literal {
    /// Every number carried by a literal has a positive denominator.
    pub open spec fn wf(&self) -> bool {
        litv_wf(self@)
    }
}

/// Every number carried by the ghost token has a positive denominator.
pub open spec fn tokv_wf(t: TokenV) -> bool {
    litv_wf(t.literal)
}

impl Clone for Literal {
    fn clone(&self) -> (r: Self)
        ensures
            r == *self,
    {
        match self {
            Literal::Absent => Literal::Absent,
            Literal::Str(s) => Literal::Str(s.clone()),
            Literal::Num(q) => Literal::Num(*q),
            Literal::True => Literal::True,
            Literal::False => Literal::False,
            Literal::Nil => Literal::Nil,
        }
    }
}

/// Ghost form of a token.
pub struct TokenV {
    pub kind: TokenType,
    pub lexeme: Seq<char>,
    pub literal: LitV,
    pub line: int,
}

/// A lexical token: its kind, the raw source substring it was scanned from,
/// an optional literal payload, and the line it was reported on. Immutable
/// once produced.
#[derive(Debug)]
pub struct Token {
    pub kind: TokenType,
    pub lexeme: String,
    pub literal: Literal,
    pub line: usize,
}

impl View for Token {
    type V = TokenV;

    open spec fn view(&self) -> TokenV {
        TokenV {
            kind: self.kind,
            lexeme: self.lexeme@,
            literal: self.literal@,
            line: self.line as int,
        }
    }
}

impl Token {
    /// Every number carried by the token has a positive denominator.
    pub open spec fn wf(&self) -> bool {
        self.literal.wf()
    }

    /// Builds a token from its parts.
    pub fn new(kind: TokenType, lexeme: String, literal: Literal, line: usize) -> (t: Token)
        ensures
            t@ == (TokenV { kind, lexeme: lexeme@, literal: literal@, line: line as int }),
            t.wf() == literal.wf(),
    {
        Token { kind, lexeme, literal, line }
    }
}

impl Clone for Token {
    fn clone(&self) -> (r: Self)
        ensures
            r == *self,
    {
        Token {
            kind: self.kind,
            lexeme: self.lexeme.clone(),
            literal: self.literal.clone(),
            line: self.line,
        }
    }
}

/// The ghost forms of a token sequence.
pub open spec fn toks_view(s: Seq<Token>) -> Seq<TokenV> {
    s.map_values(|t: Token| t@)
}

} // verus!
