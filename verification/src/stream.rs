//! The token stream of a source text: what repeated reading yields from a
//! given offset on, up to the end of the input or the first failure.

use vstd::prelude::*;
use crate::scan::{
    closes_comment, is_space, lemma_scan_bounds, lemma_token_of_text, lemma_unterminated_comment,
    opens_comment, scan, token_of, Scan,
};
use crate::tokenizer::{TokenizerError, TokenSpec};

verus! {

/// A token together with the bytes it occupies, from `start` up to `end`.
pub struct Lexeme {
    pub token: TokenSpec,
    pub start: nat,
    pub end: nat,
}

/// How a token stream ends.
pub enum Tail {
    /// The input is exhausted.
    End,
    /// What starts at offset `at` is no token.
    Fail { error: TokenizerError, at: nat },
}

/// The tokens read from offset `from` on, each with its place, up to the end
/// of the input or the first failure.
pub open spec fn lexemes_from(source: Seq<u8>, from: nat) -> Seq<Lexeme>
    decreases source.len() - from,
{
    match scan(source, from) {
        Scan::Token { token, start, end } => {
            proof {
                lemma_scan_bounds(source, from);
            }
            seq![Lexeme { token, start, end }] + lexemes_from(source, end)
        },
        _ => Seq::empty(),
    }
}

/// How the token stream read from offset `from` on ends.
pub open spec fn tail_from(source: Seq<u8>, from: nat) -> Tail
    decreases source.len() - from,
{
    match scan(source, from) {
        Scan::Token { token, start, end } => {
            proof {
                lemma_scan_bounds(source, from);
            }
            tail_from(source, end)
        },
        Scan::End => Tail::End,
        Scan::Fail { error, at } => Tail::Fail { error, at },
    }
}

/// A token stream starts with the token read first and goes on with the
/// stream read from the end of that token; where no token is read, the
/// stream is empty and ends as that reading ends.
pub proof fn lemma_stream_step(source: Seq<u8>, from: nat)
    ensures
        match scan(source, from) {
            Scan::Token { token, start, end } => {
                let lexemes = lexemes_from(source, from);
                &&& lexemes.len() > 0
                &&& lexemes[0] == Lexeme { token, start, end }
                &&& lexemes.skip(1) == lexemes_from(source, end)
                &&& tail_from(source, from) == tail_from(source, end)
            },
            Scan::End => {
                &&& lexemes_from(source, from) == Seq::<Lexeme>::empty()
                &&& tail_from(source, from) == Tail::End
            },
            Scan::Fail { error, at } => {
                &&& lexemes_from(source, from) == Seq::<Lexeme>::empty()
                &&& tail_from(source, from) == Tail::Fail { error, at }
            },
        },
{
}

/// The tokens of `lexemes`, without their places.
pub open spec fn tokens_in(lexemes: Seq<Lexeme>) -> Seq<TokenSpec> {
    lexemes.map_values(|lexeme: Lexeme| lexeme.token)
}

/// The tokens read from offset `from` on, up to the end of the input or the
/// first failure.
pub open spec fn tokens_from(source: Seq<u8>, from: nat) -> Seq<TokenSpec> {
    tokens_in(lexemes_from(source, from))
}

/// The bytes of each token read from offset `from` on, in their order: the
/// source text without the spaces and comments between its tokens.
pub open spec fn texts_from(source: Seq<u8>, from: nat) -> Seq<Seq<u8>> {
    lexemes_from(source, from).map_values(
        |lexeme: Lexeme| source.subrange(lexeme.start as int, lexeme.end as int),
    )
}

/// The bytes of each token of a whole source text.
pub open spec fn texts(source: Seq<u8>) -> Seq<Seq<u8>> {
    texts_from(source, 0)
}

/// The tokens of a source text are determined by the bytes they occupy.
pub proof fn lemma_tokens_of_texts(source: Seq<u8>, from: nat)
    ensures
        tokens_from(source, from) == texts_from(source, from).map_values(
            |text: Seq<u8>| token_of(text),
        ),
    decreases source.len() - from,
{
    lemma_scan_bounds(source, from);
    lemma_stream_step(source, from);
    lemma_token_of_text(source, from);
    if let Scan::Token { token, start, end } = scan(source, from) {
        lemma_tokens_of_texts(source, end);
        assert(tokens_from(source, from) =~= seq![token] + tokens_from(source, end));
    }
}

/// Two source texts whose tokens occupy the same bytes in the same order
/// have the same tokens.
pub proof fn lemma_same_texts_same_tokens(a: Seq<u8>, b: Seq<u8>)
    requires
        texts(a) == texts(b),
    ensures
        tokens(a) == tokens(b),
{
    lemma_tokens_of_texts(a, 0);
    lemma_tokens_of_texts(b, 0);
}

/// A comment that is opened and never closed ends the token stream in a
/// failure at the place where it opens.
pub proof fn lemma_unterminated_comment_ends_stream(source: Seq<u8>, from: nat, at: nat)
    requires
        from <= at,
        forall|k: int| from <= k < at ==> is_space(#[trigger] source[k]),
        opens_comment(source, at),
        forall|k: nat| at + 2 <= k ==> !closes_comment(source, k),
    ensures
        tail_from(source, from) == (Tail::Fail {
            error: TokenizerError::CommentNotTerminated,
            at,
        }),
{
    lemma_unterminated_comment(source, from, at);
}

/// The tokens of a whole source text.
pub open spec fn tokens(source: Seq<u8>) -> Seq<TokenSpec> {
    tokens_from(source, 0)
}

/// How the token stream of a whole source text ends.
pub open spec fn tail(source: Seq<u8>) -> Tail {
    tail_from(source, 0)
}

} // verus!
