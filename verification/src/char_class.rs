//! Lexical categories of single bytes.

use vstd::prelude::*;

verus! {

/// The category of one input byte, which selects the rule that tokenizes it.
#[derive(Copy, Clone, Debug, PartialEq, Eq, Structural)]
pub enum CharClass {
    Digit,
    Letter,
    Plus,
    Minus,
    Aster,
    Slash,
    Lparen,
    Rparen,
    Equal,
    Lss,
    Gtr,
    Comma,
    Period,
    Semicolon,
    Colon,
    Other,
}

/// `b` is one of the ASCII digits `0` to `9`.
pub open spec fn is_digit(b: u8) -> bool {
    0x30 <= b <= 0x39
}

/// `b` is an ASCII letter, upper or lower case.
pub open spec fn is_letter(b: u8) -> bool {
    0x41 <= b <= 0x5a || 0x61 <= b <= 0x7a
}

/// The category of `b`. Every byte has exactly one; whatever is neither a
/// digit, a letter nor one of the thirteen punctuation bytes is `Other`.
pub open spec fn classify(b: u8) -> CharClass {
    if is_digit(b) {
        CharClass::Digit
    } else if is_letter(b) {
        CharClass::Letter
    } else if b == 0x2b {
        CharClass::Plus
    } else if b == 0x2d {
        CharClass::Minus
    } else if b == 0x2a {
        CharClass::Aster
    } else if b == 0x2f {
        CharClass::Slash
    } else if b == 0x28 {
        CharClass::Lparen
    } else if b == 0x29 {
        CharClass::Rparen
    } else if b == 0x3d {
        CharClass::Equal
    } else if b == 0x3c {
        CharClass::Lss
    } else if b == 0x3e {
        CharClass::Gtr
    } else if b == 0x2c {
        CharClass::Comma
    } else if b == 0x2e {
        CharClass::Period
    } else if b == 0x3b {
        CharClass::Semicolon
    } else if b == 0x3a {
        CharClass::Colon
    } else {
        CharClass::Other
    }
}

impl CharClass {
    /// Classifies one byte.
    pub fn from_u8(b: u8) -> (class: Self)
        ensures
            class == classify(b),
    {
        match b {
            0x30..=0x39 => CharClass::Digit,
            0x41..=0x5a | 0x61..=0x7a => CharClass::Letter,
            0x2b => CharClass::Plus,
            0x2d => CharClass::Minus,
            0x2a => CharClass::Aster,
            0x2f => CharClass::Slash,
            0x28 => CharClass::Lparen,
            0x29 => CharClass::Rparen,
            0x3d => CharClass::Equal,
            0x3c => CharClass::Lss,
            0x3e => CharClass::Gtr,
            0x2c => CharClass::Comma,
            0x2e => CharClass::Period,
            0x3b => CharClass::Semicolon,
            0x3a => CharClass::Colon,
            _ => CharClass::Other,
        }
    }

    /// Whether the category belongs to the language at all: everything but
    /// `Other`.
    pub fn is_reserved(&self) -> (reserved: bool)
        ensures
            reserved == !(*self is Other),
    {
        match self {
            CharClass::Other => false,
            _ => true,
        }
    }
}

} // verus!
