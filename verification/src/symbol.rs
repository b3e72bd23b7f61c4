//! Operators and punctuation.

use vstd::prelude::*;
use crate::char_class::CharClass;

verus! {

/// An operator or punctuation mark of the language.
#[derive(Copy, Clone, Debug, PartialEq, Eq, Structural)]
pub enum Symbol {
    Plus,
    Minus,
    Mult,
    Div,
    Lparen,
    Rparen,
    Equal,
    Lss,
    Gtr,
    NotEq,
    LssEq,
    GtrEq,
    Comma,
    Period,
    SemiColon,
    Assign,
}

/// The error of asking for the symbol of a byte category that has none.
#[derive(Copy, Clone, Debug, PartialEq, Eq, Structural)]
pub struct UndefinedSymbol;

impl UndefinedSymbol {
    /// A one-line description of the error.
    pub fn message(&self) -> (text: &'static str)
        ensures
            text@ == "Undefined symbol"@,
    {
        "Undefined symbol"
    }
}

/// The symbol that a single byte of category `class` stands for on its own.
/// Digits and letters start longer tokens, a colon is only the first half of
/// an assignment sign, and `Other` is no part of the language.
pub open spec fn symbol_of(class: CharClass) -> Option<Symbol> {
    match class {
        CharClass::Plus => Some(Symbol::Plus),
        CharClass::Minus => Some(Symbol::Minus),
        CharClass::Aster => Some(Symbol::Mult),
        CharClass::Slash => Some(Symbol::Div),
        CharClass::Lparen => Some(Symbol::Lparen),
        CharClass::Rparen => Some(Symbol::Rparen),
        CharClass::Equal => Some(Symbol::Equal),
        CharClass::Lss => Some(Symbol::Lss),
        CharClass::Gtr => Some(Symbol::Gtr),
        CharClass::Comma => Some(Symbol::Comma),
        CharClass::Period => Some(Symbol::Period),
        CharClass::Semicolon => Some(Symbol::SemiColon),
        CharClass::Digit | CharClass::Letter | CharClass::Colon | CharClass::Other => None,
    }
}

impl Symbol {
    /// The name under which the symbol is written out.
    pub open spec fn name(self) -> Seq<char> {
        match self {
            Symbol::Plus => "Plus"@,
            Symbol::Minus => "Minus"@,
            Symbol::Mult => "Mult"@,
            Symbol::Div => "Div"@,
            Symbol::Lparen => "Lparen"@,
            Symbol::Rparen => "Rparen"@,
            Symbol::Equal => "Equal"@,
            Symbol::Lss => "Lss"@,
            Symbol::Gtr => "Gtr"@,
            Symbol::NotEq => "NotEq"@,
            Symbol::LssEq => "LssEq"@,
            Symbol::GtrEq => "GtrEq"@,
            Symbol::Comma => "Comma"@,
            Symbol::Period => "Period"@,
            Symbol::SemiColon => "SemiColon"@,
            Symbol::Assign => "Assign"@,
        }
    }

    /// The name under which the symbol is written out.
    pub fn as_str(&self) -> (text: &'static str)
        ensures
            text@ == self.name(),
    {
        match self {
            Symbol::Plus => "Plus",
            Symbol::Minus => "Minus",
            Symbol::Mult => "Mult",
            Symbol::Div => "Div",
            Symbol::Lparen => "Lparen",
            Symbol::Rparen => "Rparen",
            Symbol::Equal => "Equal",
            Symbol::Lss => "Lss",
            Symbol::Gtr => "Gtr",
            Symbol::NotEq => "NotEq",
            Symbol::LssEq => "LssEq",
            Symbol::GtrEq => "GtrEq",
            Symbol::Comma => "Comma",
            Symbol::Period => "Period",
            Symbol::SemiColon => "SemiColon",
            Symbol::Assign => "Assign",
        }
    }

    /// The symbol that a single byte of category `class` stands for, or an
    /// error if the category has none.
    pub fn try_from(class: CharClass) -> (res: Result<Symbol, UndefinedSymbol>)
        ensures
            match symbol_of(class) {
                Some(symbol) => res == Ok::<Symbol, UndefinedSymbol>(symbol),
                None => res is Err,
            },
    {
        match class {
            CharClass::Plus => Ok(Symbol::Plus),
            CharClass::Minus => Ok(Symbol::Minus),
            CharClass::Aster => Ok(Symbol::Mult),
            CharClass::Slash => Ok(Symbol::Div),
            CharClass::Lparen => Ok(Symbol::Lparen),
            CharClass::Rparen => Ok(Symbol::Rparen),
            CharClass::Equal => Ok(Symbol::Equal),
            CharClass::Lss => Ok(Symbol::Lss),
            CharClass::Gtr => Ok(Symbol::Gtr),
            CharClass::Comma => Ok(Symbol::Comma),
            CharClass::Period => Ok(Symbol::Period),
            CharClass::Semicolon => Ok(Symbol::SemiColon),
            _ => Err(UndefinedSymbol),
        }
    }
}

} // verus!
