//! What the tokenizer reads at each offset of a source text, stated over the
//! bytes alone.

use vstd::prelude::*;
use crate::char_class::{classify, is_digit, is_letter, CharClass};
use crate::keyword::keyword_of;
use crate::symbol::{symbol_of, Symbol};
use crate::text::ascii_text;
use crate::tokenizer::{TokenizerError, TokenSpec};

verus! {

pub const SLASH: u8 = 0x2f;

pub const ASTERISK: u8 = 0x2a;

pub const EQUALS_SIGN: u8 = 0x3d;

pub const LESS_THAN: u8 = 0x3c;

pub const GREATER_THAN: u8 = 0x3e;

pub const DIGIT_ZERO: u8 = 0x30;

/// `b` separates tokens without being one: a space, a tab, a line feed, a
/// form feed or a carriage return.
pub open spec fn is_space(b: u8) -> bool {
    b == 0x20 || b == 0x09 || b == 0x0a || b == 0x0c || b == 0x0d
}

/// `b` may continue a word: a letter or a digit.
pub open spec fn is_word_byte(b: u8) -> bool {
    is_letter(b) || is_digit(b)
}

/// The byte at offset `at` of `source` exists and is `byte`.
pub open spec fn byte_is(source: Seq<u8>, at: nat, byte: u8) -> bool {
    at < source.len() && source[at as int] == byte
}

/// A comment starts at `at`: a slash followed by an asterisk.
pub open spec fn opens_comment(source: Seq<u8>, at: nat) -> bool {
    byte_is(source, at, SLASH) && byte_is(source, at + 1, ASTERISK)
}

/// A comment terminator stands at `at`: an asterisk followed by a slash.
pub open spec fn closes_comment(source: Seq<u8>, at: nat) -> bool {
    byte_is(source, at, ASTERISK) && byte_is(source, at + 1, SLASH)
}

/// The offset just behind the first comment terminator that starts at or
/// after `from`, if there is one.
pub open spec fn comment_end(source: Seq<u8>, from: nat) -> Option<nat>
    decreases source.len() - from,
{
    if from >= source.len() {
        None
    } else if closes_comment(source, from) {
        Some(from + 2)
    } else {
        comment_end(source, from + 1)
    }
}

/// The first offset at or after `from` that holds no digit.
pub open spec fn digits_end(source: Seq<u8>, from: nat) -> nat
    decreases source.len() - from,
{
    if from < source.len() && is_digit(source[from as int]) {
        digits_end(source, from + 1)
    } else {
        from
    }
}

/// The first offset at or after `from` that holds neither letter nor digit.
pub open spec fn word_end(source: Seq<u8>, from: nat) -> nat
    decreases source.len() - from,
{
    if from < source.len() && is_word_byte(source[from as int]) {
        word_end(source, from + 1)
    } else {
        from
    }
}

/// The number that the digits `digits` denote in base ten.
pub open spec fn decimal(digits: Seq<u8>) -> nat
    decreases digits.len(),
{
    if digits.len() == 0 {
        0
    } else {
        decimal(digits.drop_last()) * 10 + (digits.last() - DIGIT_ZERO) as nat
    }
}

/// The outcome of reading one token.
pub enum Scan {
    /// A token, which occupies the bytes from `start` up to `end`.
    Token { token: TokenSpec, start: nat, end: nat },
    /// Nothing but spaces and comments is left.
    End,
    /// What starts at `at` is no token.
    Fail { error: TokenizerError, at: nat },
}

/// The token that starts exactly at `at`, where `at` holds a byte that is
/// neither a space nor the start of a comment.
pub open spec fn token_at(source: Seq<u8>, at: nat) -> Scan
    recommends
        at < source.len(),
{
    match classify(source[at as int]) {
        CharClass::Digit => {
            let end = digits_end(source, at);
            let value = decimal(source.subrange(at as int, end as int));
            if value <= i32::MAX {
                Scan::Token { token: TokenSpec::Number(value as i32), start: at, end }
            } else {
                Scan::Fail { error: TokenizerError::UndefinedToken, at }
            }
        },
        CharClass::Letter => {
            let end = word_end(source, at);
            let word = ascii_text(source.subrange(at as int, end as int));
            match keyword_of(word) {
                Some(keyword) => Scan::Token { token: TokenSpec::Keyword(keyword), start: at, end },
                None => Scan::Token { token: TokenSpec::Identifier(word), start: at, end },
            }
        },
        CharClass::Colon => {
            if byte_is(source, at + 1, EQUALS_SIGN) {
                Scan::Token { token: TokenSpec::Symbol(Symbol::Assign), start: at, end: at + 2 }
            } else {
                Scan::Fail { error: TokenizerError::UndefinedToken, at }
            }
        },
        CharClass::Lss => {
            if byte_is(source, at + 1, EQUALS_SIGN) {
                Scan::Token { token: TokenSpec::Symbol(Symbol::LssEq), start: at, end: at + 2 }
            } else if byte_is(source, at + 1, GREATER_THAN) {
                Scan::Token { token: TokenSpec::Symbol(Symbol::NotEq), start: at, end: at + 2 }
            } else {
                Scan::Token { token: TokenSpec::Symbol(Symbol::Lss), start: at, end: at + 1 }
            }
        },
        CharClass::Gtr => {
            if byte_is(source, at + 1, EQUALS_SIGN) {
                Scan::Token { token: TokenSpec::Symbol(Symbol::GtrEq), start: at, end: at + 2 }
            } else {
                Scan::Token { token: TokenSpec::Symbol(Symbol::Gtr), start: at, end: at + 1 }
            }
        },
        class => match symbol_of(class) {
            Some(symbol) => Scan::Token {
                token: TokenSpec::Symbol(symbol),
                start: at,
                end: at + 1,
            },
            None => Scan::Fail { error: TokenizerError::UndefinedToken, at },
        },
    }
}

/// What the tokenizer reads when it starts at offset `from`: it passes over
/// spaces and comments and then reads the token that follows. A comment
/// without a terminator is a failure where the comment starts.
pub open spec fn scan(source: Seq<u8>, from: nat) -> Scan
    decreases source.len() - from,
{
    if from >= source.len() {
        Scan::End
    } else if is_space(source[from as int]) {
        scan(source, from + 1)
    } else if opens_comment(source, from) {
        match comment_end(source, from + 2) {
            Some(end) => {
                proof {
                    lemma_comment_end(source, from + 2);
                }
                scan(source, end)
            },
            None => Scan::Fail { error: TokenizerError::CommentNotTerminated, at: from },
        }
    } else {
        token_at(source, from)
    }
}

/// A comment terminator found after `from` ends behind `from` and within
/// `source`, a terminator stands right before that end, and none starts
/// between `from` and it. Where none is found, no terminator starts at or
/// after `from`.
pub proof fn lemma_comment_end(source: Seq<u8>, from: nat)
    ensures
        match comment_end(source, from) {
            Some(end) => {
                &&& from + 2 <= end <= source.len()
                &&& closes_comment(source, (end - 2) as nat)
                &&& forall|at: nat| from <= at < end - 2 ==> !closes_comment(source, at)
            },
            None => forall|at: nat| from <= at ==> !closes_comment(source, at),
        },
    decreases source.len() - from,
{
    if from < source.len() && !closes_comment(source, from) {
        lemma_comment_end(source, from + 1);
    }
}

/// A run of digits ends within `source`, holds digits only, and stops at a
/// byte that is no digit.
pub proof fn lemma_digits_end(source: Seq<u8>, from: nat)
    requires
        from <= source.len(),
    ensures
        from <= digits_end(source, from) <= source.len(),
        forall|at: int| from <= at < digits_end(source, from) ==> is_digit(source[at]),
        digits_end(source, from) < source.len() ==> !is_digit(
            source[digits_end(source, from) as int],
        ),
    decreases source.len() - from,
{
    if from < source.len() && is_digit(source[from as int]) {
        lemma_digits_end(source, from + 1);
    }
}

/// A word ends within `source`, holds letters and digits only, and stops at
/// a byte that is neither.
pub proof fn lemma_word_end(source: Seq<u8>, from: nat)
    requires
        from <= source.len(),
    ensures
        from <= word_end(source, from) <= source.len(),
        forall|at: int| from <= at < word_end(source, from) ==> is_word_byte(source[at]),
        word_end(source, from) < source.len() ==> !is_word_byte(
            source[word_end(source, from) as int],
        ),
    decreases source.len() - from,
{
    if from < source.len() && is_word_byte(source[from as int]) {
        lemma_word_end(source, from + 1);
    }
}

/// The bytes from offset `from` up to offset `to` are nothing but spaces and
/// whole comments.
pub open spec fn layout_between(source: Seq<u8>, from: nat, to: nat) -> bool
    decreases source.len() - from,
{
    if from >= to || from >= source.len() {
        from == to
    } else if is_space(source[from as int]) {
        layout_between(source, from + 1, to)
    } else if opens_comment(source, from) {
        match comment_end(source, from + 2) {
            Some(end) => {
                proof {
                    lemma_comment_end(source, from + 2);
                }
                layout_between(source, end, to)
            },
            None => false,
        }
    } else {
        false
    }
}

/// What reading passes over before a token, or before the end of the input,
/// is nothing but spaces and whole comments.
pub proof fn lemma_layout_before_token(source: Seq<u8>, from: nat)
    requires
        from <= source.len(),
    ensures
        match scan(source, from) {
            Scan::Token { start, .. } => layout_between(source, from, start),
            Scan::End => layout_between(source, from, source.len()),
            Scan::Fail { .. } => true,
        },
    decreases source.len() - from,
{
    if from >= source.len() {
    } else if is_space(source[from as int]) {
        lemma_layout_before_token(source, from + 1);
        lemma_scan_bounds(source, from + 1);
    } else if opens_comment(source, from) {
        lemma_comment_end(source, from + 2);
        if let Some(end) = comment_end(source, from + 2) {
            lemma_layout_before_token(source, end);
            lemma_scan_bounds(source, end);
        }
    } else {
        lemma_scan_bounds(source, from);
    }
}

/// The token that the bytes `text` make up when they are exactly the bytes
/// of one token.
pub open spec fn token_of(text: Seq<u8>) -> TokenSpec
    recommends
        text.len() > 0,
{
    match classify(text[0]) {
        CharClass::Digit => TokenSpec::Number(decimal(text) as i32),
        CharClass::Letter => match keyword_of(ascii_text(text)) {
            Some(keyword) => TokenSpec::Keyword(keyword),
            None => TokenSpec::Identifier(ascii_text(text)),
        },
        CharClass::Colon => TokenSpec::Symbol(Symbol::Assign),
        CharClass::Lss => {
            if text.len() == 1 {
                TokenSpec::Symbol(Symbol::Lss)
            } else if text[1] == EQUALS_SIGN {
                TokenSpec::Symbol(Symbol::LssEq)
            } else {
                TokenSpec::Symbol(Symbol::NotEq)
            }
        },
        CharClass::Gtr => {
            if text.len() == 1 {
                TokenSpec::Symbol(Symbol::Gtr)
            } else {
                TokenSpec::Symbol(Symbol::GtrEq)
            }
        },
        class => match symbol_of(class) {
            Some(symbol) => TokenSpec::Symbol(symbol),
            None => arbitrary(),
        },
    }
}

/// A token is determined by the bytes it occupies: whatever stands before
/// and behind them, the same bytes make up the same token.
pub proof fn lemma_token_of_text(source: Seq<u8>, from: nat)
    ensures
        scan(source, from) matches Scan::Token { token, start, end } ==> token == token_of(
            source.subrange(start as int, end as int),
        ),
    decreases source.len() - from,
{
    if from >= source.len() {
    } else if is_space(source[from as int]) {
        lemma_token_of_text(source, from + 1);
    } else if opens_comment(source, from) {
        lemma_comment_end(source, from + 2);
        if let Some(end) = comment_end(source, from + 2) {
            lemma_token_of_text(source, end);
        }
    } else {
        lemma_digits_end(source, from);
        lemma_word_end(source, from);
    }
}

/// A less-than sign with an equals sign right behind it is read as one
/// less-or-equal token, and with a greater-than sign right behind it as one
/// not-equal token. With anything else behind it, or at the end of the
/// input, it is read as a less-than token of one byte, so that reading goes
/// on with the byte behind it.
pub proof fn lemma_less_than(source: Seq<u8>, at: nat)
    requires
        byte_is(source, at, LESS_THAN),
    ensures
        scan(source, at) == if byte_is(source, at + 1, EQUALS_SIGN) {
            Scan::Token { token: TokenSpec::Symbol(Symbol::LssEq), start: at, end: at + 2 }
        } else if byte_is(source, at + 1, GREATER_THAN) {
            Scan::Token { token: TokenSpec::Symbol(Symbol::NotEq), start: at, end: at + 2 }
        } else {
            Scan::Token { token: TokenSpec::Symbol(Symbol::Lss), start: at, end: at + 1 }
        },
{
}

/// A comment that is opened and never closed is a failure at the place
/// where it opens, from wherever before it reading starts, as long as
/// nothing but spaces lies between.
pub proof fn lemma_unterminated_comment(source: Seq<u8>, from: nat, at: nat)
    requires
        from <= at,
        forall|k: int| from <= k < at ==> is_space(#[trigger] source[k]),
        opens_comment(source, at),
        forall|k: nat| at + 2 <= k ==> !closes_comment(source, k),
    ensures
        scan(source, from) == (Scan::Fail { error: TokenizerError::CommentNotTerminated, at }),
    decreases at - from,
{
    if from < at {
        lemma_unterminated_comment(source, from + 1, at);
    } else {
        lemma_comment_end(source, at + 2);
    }
}

/// A token lies within `source`, at or after the offset where reading began,
/// and is not empty; a failure lies at a byte of `source`, and is either an
/// undefined token or a comment that is not terminated.
pub proof fn lemma_scan_bounds(source: Seq<u8>, from: nat)
    ensures
        match scan(source, from) {
            Scan::Token { start, end, .. } => from <= start < end <= source.len(),
            Scan::End => true,
            Scan::Fail { error, at } => {
                &&& from <= at < source.len()
                &&& error == TokenizerError::UndefinedToken || error
                    == TokenizerError::CommentNotTerminated
            },
        },
    decreases source.len() - from,
{
    if from >= source.len() {
    } else if is_space(source[from as int]) {
        lemma_scan_bounds(source, from + 1);
    } else if opens_comment(source, from) {
        lemma_comment_end(source, from + 2);
        if let Some(end) = comment_end(source, from + 2) {
            lemma_scan_bounds(source, end);
        }
    } else {
        lemma_digits_end(source, from);
        lemma_word_end(source, from);
    }
}

} // verus!
