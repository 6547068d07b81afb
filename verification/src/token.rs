use vstd::prelude::*;

verus! {

/// The closed set of lexical categories a token can carry.
///
/// `Illegal` marks a single unrecognized byte and `EOF` marks exhaustion of
/// the source; both are ordinary tokens, not errors. The seven keyword
/// variants are reserved identifier-shaped lexemes.
#[derive(PartialEq, Debug, Clone, Copy)]
pub enum TokenType {
    Illegal,
    EOF,
    Ident,
    Int,
    Assign,
    Plus,
    Minus,
    Bang,
    Star,
    Slash,
    LT,
    GT,
    EQ,
    NotEQ,
    Comma,
    Semicolon,
    LParen,
    RParen,
    LBrace,
    RBrace,
    Function,
    Let,
    True,
    False,
    If,
    Else,
    Return,
}

/// One lexical unit: its category and the exact text it was scanned from.
/// The text is empty exactly for the end-of-input sentinel.
#[derive(PartialEq, Debug)]
pub struct Token {
    pub token_type: TokenType,
    pub literal: String,
}

/// The character sequence that spells the given bytes, one character per
/// byte, with equal code points. On ASCII bytes this is exactly the source
/// text those bytes spell.
pub open spec fn chars_of(bs: Seq<u8>) -> Seq<char> {
    bs.map(|_i: int, b: u8| b as char)
}

} // verus!
