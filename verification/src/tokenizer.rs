//! The lexer: tokens, and the tokenizer that reads them from bytes.

use vstd::prelude::*;
use vstd::slice::slice_subrange;
use crate::char_class::{classify, CharClass};
use crate::keyword::Keyword;
use crate::position::{lemma_position_step, position_at, Position};
use crate::scan::{
    byte_is, comment_end, decimal, digits_end, is_space, lemma_comment_end, lemma_scan_bounds, scan,
    token_at, word_end, Scan, ASTERISK, DIGIT_ZERO, EQUALS_SIGN, GREATER_THAN, SLASH,
};
use crate::stream::{lemma_stream_step, tail_from, tokens_from, Tail};
use crate::symbol::Symbol;
use crate::text::text_of;

verus! {

/// The smallest lexical unit of the language.
#[derive(Debug, PartialEq, Eq)]
pub enum Token {
    Keyword(Keyword),
    Symbol(Symbol),
    Identifier(String),
    Number(i32),
}

/// A token as a mathematical value: an identifier is the sequence of its
/// characters.
pub enum TokenSpec {
    Keyword(Keyword),
    Symbol(Symbol),
    Identifier(Seq<char>),
    Number(i32),
}

impl View for Token {
    type V = TokenSpec;

    open spec fn view(&self) -> TokenSpec {
        match self {
            Token::Keyword(keyword) => TokenSpec::Keyword(*keyword),
            Token::Symbol(symbol) => TokenSpec::Symbol(*symbol),
            Token::Identifier(name) => TokenSpec::Identifier(name@),
            Token::Number(value) => TokenSpec::Number(*value),
        }
    }
}

impl Clone for Token {
    fn clone(&self) -> (copy: Token)
        ensures
            copy@ == self@,
    {
        match self {
            Token::Keyword(keyword) => Token::Keyword(*keyword),
            Token::Symbol(symbol) => Token::Symbol(*symbol),
            Token::Identifier(name) => Token::Identifier(name.clone()),
            Token::Number(value) => Token::Number(*value),
        }
    }
}

/// The tokens of `tokens` as mathematical values.
pub open spec fn token_views(tokens: Seq<Token>) -> Seq<TokenSpec> {
    tokens.map_values(|token: Token| token@)
}

/// Why the tokenizer returned no token.
#[derive(Copy, Clone, Debug, PartialEq, Eq, Structural)]
pub enum TokenizerError {
    /// The input is exhausted. This ends a token stream in the ordinary way.
    ReachedEOF,
    /// A byte, or a run of bytes, that is no token of the language.
    UndefinedToken,
    /// The input could not be read.
    CannotReadByte,
    /// A comment was opened and the input ended before it was closed.
    CommentNotTerminated,
}

impl TokenizerError {
    /// A one-line description of the error.
    pub fn message(&self) -> (text: &'static str)
        ensures
            text@ == match self {
                TokenizerError::ReachedEOF => "Error: Reached EOF"@,
                TokenizerError::UndefinedToken => "Error: Undefined token found"@,
                TokenizerError::CannotReadByte => "Error: Cannot read byte"@,
                TokenizerError::CommentNotTerminated => "Comment Not Terminated"@,
            },
    {
        match self {
            TokenizerError::ReachedEOF => "Error: Reached EOF",
            TokenizerError::UndefinedToken => "Error: Undefined token found",
            TokenizerError::CannotReadByte => "Error: Cannot read byte",
            TokenizerError::CommentNotTerminated => "Comment Not Terminated",
        }
    }
}

/// A tokenizer over the bytes of one source text. It hands out one token at
/// a time and keeps track of the place it has read up to. A byte that a
/// token did not use is never passed over: the cursor stays in front of it,
/// and the next call reads it again.
pub struct Tokenizer {
    input: Vec<u8>,
    cursor: Position,
    start: Position,
}

/// Whether `b` separates tokens without being one.
fn is_space_byte(b: u8) -> (space: bool)
    ensures
        space == is_space(b),
{
    b == 0x20 || b == 0x09 || b == 0x0a || b == 0x0c || b == 0x0d
}

impl Tokenizer {
    /// The bytes of the source text.
    pub closed spec fn source(&self) -> Seq<u8> {
        self.input@
    }

    /// The place up to which the source text has been read.
    pub closed spec fn cursor(&self) -> Position {
        self.cursor
    }

    /// The place where the token read last starts or, if the last call
    /// returned no token, the place where it gave up.
    pub closed spec fn token_start(&self) -> Position {
        self.start
    }

    /// Both places lie within the source text, and their lines and columns
    /// are those of their offsets.
    pub open spec fn wf(&self) -> bool {
        &&& self.source().len() <= usize::MAX
        &&& self.cursor().offset <= self.source().len()
        &&& self.cursor() == position_at(self.source(), self.cursor().offset as nat)
        &&& self.token_start().offset <= self.source().len()
        &&& self.token_start() == position_at(self.source(), self.token_start().offset as nat)
    }

    /// What a call that returned `res` and left the tokenizer as `self` has
    /// to do with the outcome `outcome`: the token is the one read, the
    /// cursor stands behind it and the token's start is recorded; at the end
    /// of the input the cursor stands at the end; after a failure it stands
    /// where the failure lies.
    pub open spec fn delivers(&self, res: Result<Token, TokenizerError>, outcome: Scan) -> bool {
        match outcome {
            Scan::Token { token, start, end } => {
                &&& res matches Ok(t)
                &&& t@ == token
                &&& self.cursor().offset == end
                &&& self.token_start().offset == start
            },
            Scan::End => {
                &&& res == Err::<Token, TokenizerError>(TokenizerError::ReachedEOF)
                &&& self.cursor().offset == self.source().len()
                &&& self.token_start().offset == self.source().len()
            },
            Scan::Fail { error, at } => {
                &&& res == Err::<Token, TokenizerError>(error)
                &&& self.cursor().offset == at
                &&& self.token_start().offset == at
            },
        }
    }

    /// A tokenizer at the start of `input`.
    pub fn new(input: Vec<u8>) -> (tokenizer: Tokenizer)
        ensures
            tokenizer.wf(),
            tokenizer.source() == input@,
            tokenizer.cursor().offset == 0,
            tokenizer.token_start().offset == 0,
    {
        // `len` is called for what it ensures: the length fits in `usize`.
        let _length: usize = input.len();
        Tokenizer { input, cursor: Position::origin(), start: Position::origin() }
    }

    /// The place up to which the source text has been read.
    pub fn position(&self) -> (place: Position)
        ensures
            place == self.cursor(),
    {
        self.cursor
    }

    /// The place where the token read last starts, or where the last call
    /// gave up.
    pub fn token_position(&self) -> (place: Position)
        ensures
            place == self.token_start(),
    {
        self.start
    }

    /// The byte `ahead` bytes behind the cursor, if the input reaches that
    /// far.
    fn peek(&self, ahead: usize) -> (byte: Option<u8>)
        requires
            self.wf(),
        ensures
            match byte {
                Some(b) => byte_is(self.source(), (self.cursor().offset + ahead) as nat, b),
                None => self.cursor().offset + ahead >= self.source().len(),
            },
    {
        if ahead < self.input.len() - self.cursor.offset {
            Some(self.input[self.cursor.offset + ahead])
        } else {
            None
        }
    }

    /// Moves the cursor over one byte.
    fn advance(&mut self)
        requires
            old(self).wf(),
            old(self).cursor().offset < old(self).source().len(),
        ensures
            final(self).wf(),
            final(self).source() == old(self).source(),
            final(self).token_start() == old(self).token_start(),
            final(self).cursor().offset == old(self).cursor().offset + 1,
    {
        proof {
            lemma_position_step(self.input@, self.cursor.offset as nat);
        }
        self.cursor = self.cursor.step(self.input[self.cursor.offset]);
    }

    /// Moves the cursor behind the next comment terminator and says whether
    /// there was one.
    fn skip_comment(&mut self) -> (closed: bool)
        requires
            old(self).wf(),
        ensures
            final(self).wf(),
            final(self).source() == old(self).source(),
            final(self).token_start() == old(self).token_start(),
            match comment_end(old(self).source(), old(self).cursor().offset as nat) {
                Some(end) => closed && final(self).cursor().offset == end,
                None => !closed,
            },
    {
        loop
            invariant
                self.wf(),
                self.source() == old(self).source(),
                self.token_start() == old(self).token_start(),
                comment_end(self.source(), old(self).cursor().offset as nat) == comment_end(
                    self.source(),
                    self.cursor().offset as nat,
                ),
            decreases self.source().len() - self.cursor().offset,
        {
            match self.peek(0) {
                None => {
                    return false;
                },
                Some(b) => {
                    if b == ASTERISK {
                        match self.peek(1) {
                            Some(SLASH) => {
                                self.advance();
                                self.advance();
                                return true;
                            },
                            _ => {},
                        }
                    }
                    self.advance();
                },
            }
        }
    }

    /// Passes over spaces and comments up to the first byte of a token.
    fn skip_layout(&mut self) -> (res: Result<(), TokenizerError>)
        requires
            old(self).wf(),
        ensures
            final(self).wf(),
            final(self).source() == old(self).source(),
            final(self).token_start() == final(self).cursor(),
            match res {
                Ok(_) => {
                    let at = final(self).cursor().offset as nat;
                    &&& at < final(self).source().len()
                    &&& scan(old(self).source(), old(self).cursor().offset as nat) == token_at(
                        final(self).source(),
                        at,
                    )
                },
                Err(error) => {
                    &&& !(scan(old(self).source(), old(self).cursor().offset as nat) is Token)
                    &&& final(self).delivers(
                        Err(error),
                        scan(old(self).source(), old(self).cursor().offset as nat),
                    )
                },
            },
    {
        loop
            invariant
                self.wf(),
                self.source() == old(self).source(),
                scan(self.source(), old(self).cursor().offset as nat) == scan(
                    self.source(),
                    self.cursor().offset as nat,
                ),
            decreases self.source().len() - self.cursor().offset,
        {
            match self.peek(0) {
                None => {
                    self.start = self.cursor;
                    return Err(TokenizerError::ReachedEOF);
                },
                Some(b) => {
                    if is_space_byte(b) {
                        self.advance();
                    } else {
                        let opens = b == SLASH && match self.peek(1) {
                            Some(ASTERISK) => true,
                            _ => false,
                        };
                        if opens {
                            let open = self.cursor;
                            self.advance();
                            self.advance();
                            proof {
                                lemma_comment_end(self.source(), self.cursor().offset as nat);
                            }
                            if !self.skip_comment() {
                                self.cursor = open;
                                self.start = open;
                                return Err(TokenizerError::CommentNotTerminated);
                            }
                        } else {
                            self.start = self.cursor;
                            return Ok(());
                        }
                    }
                },
            }
        }
    }

    /// Reads the number that starts at the cursor.
    fn read_number(&mut self) -> (res: Result<Token, TokenizerError>)
        requires
            old(self).wf(),
            old(self).token_start() == old(self).cursor(),
            old(self).cursor().offset < old(self).source().len(),
            classify(old(self).source()[old(self).cursor().offset as int]) is Digit,
        ensures
            final(self).wf(),
            final(self).source() == old(self).source(),
            final(self).delivers(
                res,
                token_at(old(self).source(), old(self).cursor().offset as nat),
            ),
    {
        let ghost from = self.cursor.offset as nat;
        let mut value: i32 = 0;
        let mut fits = true;
        loop
            invariant
                self.wf(),
                self.source() == old(self).source(),
                self.token_start() == old(self).cursor(),
                from == old(self).cursor().offset,
                from <= self.cursor().offset,
                digits_end(self.source(), from) == digits_end(
                    self.source(),
                    self.cursor().offset as nat,
                ),
                0 <= value,
                fits ==> value == decimal(
                    self.source().subrange(from as int, self.cursor().offset as int),
                ),
                !fits ==> decimal(
                    self.source().subrange(from as int, self.cursor().offset as int),
                ) > i32::MAX,
            ensures
                self.cursor().offset == digits_end(self.source(), from),
            decreases self.source().len() - self.cursor().offset,
        {
            let digit: u8 = match self.peek(0) {
                Some(b) => {
                    if CharClass::from_u8(b) == CharClass::Digit {
                        b - DIGIT_ZERO
                    } else {
                        break ;
                    }
                },
                None => {
                    break ;
                },
            };
            proof {
                let longer = self.source().subrange(from as int, self.cursor().offset + 1);
                assert(longer.drop_last() =~= self.source().subrange(
                    from as int,
                    self.cursor().offset as int,
                ));
            }
            if fits {
                let next: i64 = value as i64 * 10 + digit as i64;
                if next > i32::MAX as i64 {
                    fits = false;
                } else {
                    value = next as i32;
                }
            }
            self.advance();
        }
        if fits {
            Ok(Token::Number(value))
        } else {
            self.cursor = self.start;
            Err(TokenizerError::UndefinedToken)
        }
    }

    /// Reads the word that starts at the cursor: a reserved word or an
    /// identifier.
    fn read_word(&mut self) -> (token: Token)
        requires
            old(self).wf(),
            old(self).token_start() == old(self).cursor(),
            old(self).cursor().offset < old(self).source().len(),
            classify(old(self).source()[old(self).cursor().offset as int]) is Letter,
        ensures
            final(self).wf(),
            final(self).source() == old(self).source(),
            final(self).delivers(
                Ok(token),
                token_at(old(self).source(), old(self).cursor().offset as nat),
            ),
    {
        let from: usize = self.cursor.offset;
        loop
            invariant
                self.wf(),
                self.source() == old(self).source(),
                self.token_start() == old(self).cursor(),
                from == old(self).cursor().offset,
                from <= self.cursor().offset,
                word_end(self.source(), from as nat) == word_end(
                    self.source(),
                    self.cursor().offset as nat,
                ),
            ensures
                self.cursor().offset == word_end(self.source(), from as nat),
            decreases self.source().len() - self.cursor().offset,
        {
            match self.peek(0) {
                Some(b) => {
                    let class = CharClass::from_u8(b);
                    if class == CharClass::Letter || class == CharClass::Digit {
                        self.advance();
                    } else {
                        break ;
                    }
                },
                None => {
                    break ;
                },
            }
        }
        let word = slice_subrange(self.input.as_slice(), from, self.cursor.offset);
        match Keyword::lookup(word) {
            Some(keyword) => Token::Keyword(keyword),
            None => Token::Identifier(text_of(word)),
        }
    }

    /// Reads the operator or punctuation mark that starts at the cursor,
    /// whose first byte has the category `class`.
    fn read_symbol(&mut self, class: CharClass) -> (res: Result<Token, TokenizerError>)
        requires
            old(self).wf(),
            old(self).token_start() == old(self).cursor(),
            old(self).cursor().offset < old(self).source().len(),
            class == classify(old(self).source()[old(self).cursor().offset as int]),
            !(class is Digit),
            !(class is Letter),
        ensures
            final(self).wf(),
            final(self).source() == old(self).source(),
            final(self).delivers(
                res,
                token_at(old(self).source(), old(self).cursor().offset as nat),
            ),
    {
        let follower = self.peek(1);
        let (symbol, length): (Symbol, usize) = match class {
            CharClass::Colon => match follower {
                Some(EQUALS_SIGN) => (Symbol::Assign, 2),
                _ => {
                    return Err(TokenizerError::UndefinedToken);
                },
            },
            CharClass::Lss => match follower {
                Some(EQUALS_SIGN) => (Symbol::LssEq, 2),
                Some(GREATER_THAN) => (Symbol::NotEq, 2),
                _ => (Symbol::Lss, 1),
            },
            CharClass::Gtr => match follower {
                Some(EQUALS_SIGN) => (Symbol::GtrEq, 2),
                _ => (Symbol::Gtr, 1),
            },
            _ => match Symbol::try_from(class) {
                Ok(symbol) => (symbol, 1),
                Err(_) => {
                    return Err(TokenizerError::UndefinedToken);
                },
            },
        };
        self.advance();
        if length == 2 {
            self.advance();
        }
        Ok(Token::Symbol(symbol))
    }

    /// Reads the next token. Spaces and comments before it are passed over.
    /// At the end of the input the result is `ReachedEOF`; a byte that starts
    /// no token, a number too large for `i32` and a comment that is never
    /// closed are failures, after which the cursor stands where the failure
    /// lies.
    pub fn get_next_token(&mut self) -> (res: Result<Token, TokenizerError>)
        requires
            old(self).wf(),
        ensures
            final(self).wf(),
            final(self).source() == old(self).source(),
            final(self).delivers(res, scan(old(self).source(), old(self).cursor().offset as nat)),
            old(self).cursor().offset <= final(self).cursor().offset,
    {
        proof {
            lemma_scan_bounds(self.source(), self.cursor().offset as nat);
        }
        match self.skip_layout() {
            Err(error) => {
                return Err(error);
            },
            Ok(_) => {},
        }
        let class = CharClass::from_u8(self.input[self.cursor.offset]);
        match class {
            CharClass::Digit => self.read_number(),
            CharClass::Letter => Ok(self.read_word()),
            _ => self.read_symbol(class),
        }
    }


    /// Reads all the tokens that are left, up to the end of the input. The
    /// first failure is returned in place of the tokens.
    pub fn read_all(&mut self) -> (res: Result<Vec<Token>, TokenizerError>)
        requires
            old(self).wf(),
        ensures
            final(self).wf(),
            final(self).source() == old(self).source(),
            match tail_from(old(self).source(), old(self).cursor().offset as nat) {
                Tail::End => {
                    &&& res matches Ok(tokens)
                    &&& token_views(tokens@) == tokens_from(
                        old(self).source(),
                        old(self).cursor().offset as nat,
                    )
                    &&& final(self).cursor().offset == final(self).source().len()
                },
                Tail::Fail { error, at } => {
                    &&& res == Err::<Vec<Token>, TokenizerError>(error)
                    &&& final(self).cursor().offset == at
                },
            },
    {
        let ghost source = self.source();
        let ghost from = self.cursor().offset as nat;
        let mut tokens: Vec<Token> = Vec::new();
        loop
            invariant
                self.wf(),
                self.source() == source,
                source == old(self).source(),
                from == old(self).cursor().offset,
                tail_from(source, from) == tail_from(source, self.cursor().offset as nat),
                tokens_from(source, from) == token_views(tokens@) + tokens_from(
                    source,
                    self.cursor().offset as nat,
                ),
            decreases source.len() - self.cursor().offset,
        {
            let ghost before = self.cursor().offset as nat;
            proof {
                lemma_stream_step(source, before);
                lemma_scan_bounds(source, before);
            }
            match self.get_next_token() {
                Ok(token) => {
                    tokens.push(token);
                },
                Err(TokenizerError::ReachedEOF) => {
                    return Ok(tokens);
                },
                Err(error) => {
                    return Err(error);
                },
            }
        }
    }
}

} // verus!
