//! Reserved words.

use vstd::prelude::*;
use vstd::string::*;
use vstd::utf8::is_ascii_chars;
use crate::text::{ascii_text, lemma_ascii_text_matches, same_bytes};

verus! {

/// A reserved word of the language.
#[derive(Copy, Clone, Debug, PartialEq, Eq, Structural)]
pub enum Keyword {
    Begin,
    End,
    If,
    Then,
    While,
    Do,
    Ret,
    Func,
    Var,
    Const,
    Odd,
    Write,
    WriteLn,
}

/// The error of looking up a word that is not reserved.
#[derive(Copy, Clone, Debug, PartialEq, Eq, Structural)]
pub struct UndefinedKeywordError;

impl UndefinedKeywordError {
    /// A one-line description of the error.
    pub fn message(&self) -> (text: &'static str)
        ensures
            text@ == "Undefined keyword"@,
    {
        "Undefined keyword"
    }
}

/// The reserved word spelled `word`, if there is one.
pub open spec fn keyword_of(word: Seq<char>) -> Option<Keyword> {
    if word == Keyword::Begin.spelling() {
        Some(Keyword::Begin)
    } else if word == Keyword::End.spelling() {
        Some(Keyword::End)
    } else if word == Keyword::If.spelling() {
        Some(Keyword::If)
    } else if word == Keyword::Then.spelling() {
        Some(Keyword::Then)
    } else if word == Keyword::While.spelling() {
        Some(Keyword::While)
    } else if word == Keyword::Do.spelling() {
        Some(Keyword::Do)
    } else if word == Keyword::Ret.spelling() {
        Some(Keyword::Ret)
    } else if word == Keyword::Func.spelling() {
        Some(Keyword::Func)
    } else if word == Keyword::Var.spelling() {
        Some(Keyword::Var)
    } else if word == Keyword::Const.spelling() {
        Some(Keyword::Const)
    } else if word == Keyword::Odd.spelling() {
        Some(Keyword::Odd)
    } else if word == Keyword::Write.spelling() {
        Some(Keyword::Write)
    } else if word == Keyword::WriteLn.spelling() {
        Some(Keyword::WriteLn)
    } else {
        None
    }
}

/// Every reserved word is written in ASCII letters, and no two are written
/// alike.
pub proof fn lemma_spellings(a: Keyword, b: Keyword)
    ensures
        is_ascii_chars(a.spelling()),
        a.spelling() == b.spelling() ==> a == b,
{
    reveal_strlit("begin");
    reveal_strlit("end");
    reveal_strlit("if");
    reveal_strlit("then");
    reveal_strlit("while");
    reveal_strlit("do");
    reveal_strlit("return");
    reveal_strlit("function");
    reveal_strlit("var");
    reveal_strlit("const");
    reveal_strlit("odd");
    reveal_strlit("write");
    reveal_strlit("writeln");
    if a.spelling() == b.spelling() {
        assert(a.spelling()[0] == b.spelling()[0]);
        assert(a.spelling()[1] == b.spelling()[1]);
    }
}

/// Looking up the spelling of a reserved word finds that word.
pub proof fn lemma_keyword_of_spelling(keyword: Keyword)
    ensures
        keyword_of(keyword.spelling()) == Some(keyword),
{
    lemma_spellings(keyword, Keyword::Begin);
    lemma_spellings(keyword, Keyword::End);
    lemma_spellings(keyword, Keyword::If);
    lemma_spellings(keyword, Keyword::Then);
    lemma_spellings(keyword, Keyword::While);
    lemma_spellings(keyword, Keyword::Do);
    lemma_spellings(keyword, Keyword::Ret);
    lemma_spellings(keyword, Keyword::Func);
    lemma_spellings(keyword, Keyword::Var);
    lemma_spellings(keyword, Keyword::Const);
    lemma_spellings(keyword, Keyword::Odd);
    lemma_spellings(keyword, Keyword::Write);
    lemma_spellings(keyword, Keyword::WriteLn);
}

impl Keyword {
    /// The word as it is written in source text.
    pub open spec fn spelling(self) -> Seq<char> {
        match self {
            Keyword::Begin => "begin"@,
            Keyword::End => "end"@,
            Keyword::If => "if"@,
            Keyword::Then => "then"@,
            Keyword::While => "while"@,
            Keyword::Do => "do"@,
            Keyword::Ret => "return"@,
            Keyword::Func => "function"@,
            Keyword::Var => "var"@,
            Keyword::Const => "const"@,
            Keyword::Odd => "odd"@,
            Keyword::Write => "write"@,
            Keyword::WriteLn => "writeln"@,
        }
    }

    /// The word as it is written in source text.
    pub fn as_str(&self) -> (text: &'static str)
        ensures
            text@ == self.spelling(),
    {
        match self {
            Keyword::Begin => "begin",
            Keyword::End => "end",
            Keyword::If => "if",
            Keyword::Then => "then",
            Keyword::While => "while",
            Keyword::Do => "do",
            Keyword::Ret => "return",
            Keyword::Func => "function",
            Keyword::Var => "var",
            Keyword::Const => "const",
            Keyword::Odd => "odd",
            Keyword::Write => "write",
            Keyword::WriteLn => "writeln",
        }
    }

    /// Whether `word`, read as ASCII text, spells this reserved word.
    fn spells(&self, word: &[u8]) -> (same: bool)
        ensures
            same == (ascii_text(word@) == self.spelling()),
    {
        let text = self.as_str();
        proof {
            lemma_spellings(*self, *self);
            lemma_ascii_text_matches(word@, text);
        }
        same_bytes(word, text.as_bytes())
    }

    /// Looks `word` up among the reserved words, reading each byte as one
    /// character.
    pub fn lookup(word: &[u8]) -> (found: Option<Keyword>)
        ensures
            found == keyword_of(ascii_text(word@)),
    {
        if Keyword::Begin.spells(word) {
            Some(Keyword::Begin)
        } else if Keyword::End.spells(word) {
            Some(Keyword::End)
        } else if Keyword::If.spells(word) {
            Some(Keyword::If)
        } else if Keyword::Then.spells(word) {
            Some(Keyword::Then)
        } else if Keyword::While.spells(word) {
            Some(Keyword::While)
        } else if Keyword::Do.spells(word) {
            Some(Keyword::Do)
        } else if Keyword::Ret.spells(word) {
            Some(Keyword::Ret)
        } else if Keyword::Func.spells(word) {
            Some(Keyword::Func)
        } else if Keyword::Var.spells(word) {
            Some(Keyword::Var)
        } else if Keyword::Const.spells(word) {
            Some(Keyword::Const)
        } else if Keyword::Odd.spells(word) {
            Some(Keyword::Odd)
        } else if Keyword::Write.spells(word) {
            Some(Keyword::Write)
        } else if Keyword::WriteLn.spells(word) {
            Some(Keyword::WriteLn)
        } else {
            None
        }
    }

    /// The reserved word spelled `word`, or an error if `word` is not
    /// reserved.
    pub fn try_from(word: &str) -> (res: Result<Keyword, UndefinedKeywordError>)
        ensures
            match keyword_of(word@) {
                Some(keyword) => res == Ok::<Keyword, UndefinedKeywordError>(keyword),
                None => res is Err,
            },
    {
        if !word.is_ascii() {
            proof {
                if let Some(keyword) = keyword_of(word@) {
                    lemma_spellings(keyword, keyword);
                }
            }
            return Err(UndefinedKeywordError);
        }
        let bytes = word.as_bytes();
        proof {
            lemma_ascii_text_matches(bytes@, word);
        }
        match Keyword::lookup(bytes) {
            Some(keyword) => Ok(keyword),
            None => Err(UndefinedKeywordError),
        }
    }
}

} // verus!
