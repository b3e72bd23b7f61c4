//! Spaces and comments between tokens: putting one more in front of a token,
//! or behind the last token, changes neither the tokens nor the bytes they
//! occupy.

use vstd::prelude::*;
use crate::char_class::{classify, is_digit, CharClass};
use crate::scan::{
    closes_comment, comment_end, digits_end, is_space, is_word_byte, layout_between,
    lemma_comment_end, lemma_digits_end, lemma_layout_before_token, lemma_scan_bounds,
    lemma_word_end, opens_comment, scan, word_end, Scan, SLASH,
};
use crate::stream::{tail, tail_from, texts, texts_from};

verus! {

/// The bytes of `source` from offset `from` up to offset `to`.
pub open spec fn part(source: Seq<u8>, from: nat, to: nat) -> Seq<u8> {
    source.subrange(from as int, to as int)
}

/// `a` and `b` hold the same bytes before offset `upto`.
pub open spec fn agree_before(a: Seq<u8>, b: Seq<u8>, upto: nat) -> bool {
    &&& upto <= a.len()
    &&& upto <= b.len()
    &&& forall|i: int| 0 <= i < upto ==> a[i] == b[i]
}

/// What stands at offset `at` of `source`, if anything, continues no token
/// that ends there: it is a space or a slash.
pub open spec fn broken_at(source: Seq<u8>, at: nat) -> bool {
    at < source.len() ==> is_space(source[at as int]) || source[at as int] == SLASH
}

/// `a` from offset `from` on holds the same bytes as `b` from offset `onto`
/// on.
pub open spec fn aligned(a: Seq<u8>, from: nat, b: Seq<u8>, onto: nat) -> bool {
    &&& from <= a.len()
    &&& onto <= b.len()
    &&& a.len() - from == b.len() - onto
    &&& forall|i: int| from <= i < a.len() ==> #[trigger] a[i] == b[i - from + onto]
}

/// `outcome` with every offset moved on by `by`.
pub open spec fn moved(outcome: Scan, by: int) -> Scan {
    match outcome {
        Scan::Token { token, start, end } => Scan::Token {
            token,
            start: (start + by) as nat,
            end: (end + by) as nat,
        },
        Scan::End => Scan::End,
        Scan::Fail { error, at } => Scan::Fail { error, at: (at + by) as nat },
    }
}

/// A comment terminator that is found before offset `upto` is found there
/// in every text with the same bytes before `upto`.
pub proof fn lemma_comment_end_local(a: Seq<u8>, b: Seq<u8>, from: nat, upto: nat)
    requires
        agree_before(a, b, upto),
        comment_end(a, from) matches Some(end) && end <= upto,
    ensures
        comment_end(b, from) == comment_end(a, from),
    decreases a.len() - from,
{
    if !closes_comment(a, from) {
        lemma_comment_end(a, from + 1);
        lemma_comment_end_local(a, b, from + 1, upto);
    }
}

/// A run of digits that ends at or before offset `upto` ends at the same
/// offset in every text with the same bytes before `upto` in which no digit
/// stands at `upto`.
pub proof fn lemma_digits_end_local(a: Seq<u8>, b: Seq<u8>, from: nat, upto: nat)
    requires
        agree_before(a, b, upto),
        broken_at(b, upto),
        from <= digits_end(a, from) <= upto,
    ensures
        digits_end(b, from) == digits_end(a, from),
    decreases a.len() - from,
{
    if from < a.len() && is_digit(a[from as int]) {
        lemma_digits_end(a, from + 1);
        lemma_digits_end_local(a, b, from + 1, upto);
    }
}

/// A word that ends at or before offset `upto` ends at the same offset in
/// every text with the same bytes before `upto` in which neither letter nor
/// digit stands at `upto`.
pub proof fn lemma_word_end_local(a: Seq<u8>, b: Seq<u8>, from: nat, upto: nat)
    requires
        agree_before(a, b, upto),
        broken_at(b, upto),
        from <= word_end(a, from) <= upto,
    ensures
        word_end(b, from) == word_end(a, from),
    decreases a.len() - from,
{
    if from < a.len() && is_word_byte(a[from as int]) {
        lemma_word_end(a, from + 1);
        lemma_word_end_local(a, b, from + 1, upto);
    }
}

/// A token that ends at or before offset `upto` is read alike in every text
/// with the same bytes before `upto` in which a space or a slash stands at
/// `upto`, or nothing.
pub proof fn lemma_scan_local(a: Seq<u8>, b: Seq<u8>, from: nat, upto: nat)
    requires
        agree_before(a, b, upto),
        broken_at(b, upto),
        scan(a, from) matches Scan::Token { end, .. } && end <= upto,
    ensures
        scan(b, from) == scan(a, from),
    decreases a.len() - from,
{
    lemma_scan_bounds(a, from);
    if is_space(a[from as int]) {
        lemma_scan_local(a, b, from + 1, upto);
    } else if opens_comment(a, from) {
        lemma_comment_end(a, from + 2);
        let end = comment_end(a, from + 2)->Some_0;
        lemma_scan_bounds(a, end);
        lemma_comment_end_local(a, b, from + 2, upto);
        lemma_scan_local(a, b, end, upto);
    } else {
        match classify(a[from as int]) {
            CharClass::Digit => {
                lemma_digits_end_local(a, b, from, upto);
                let end = digits_end(a, from);
                assert(b.subrange(from as int, end as int) =~= a.subrange(from as int, end as int));
            },
            CharClass::Letter => {
                lemma_word_end_local(a, b, from, upto);
                let end = word_end(a, from);
                assert(b.subrange(from as int, end as int) =~= a.subrange(from as int, end as int));
            },
            _ => {},
        }
    }
}

/// Where two texts hold the same bytes from some offset of each on, a
/// comment terminator is found at the same distance in both.
pub proof fn lemma_comment_end_moved(a: Seq<u8>, from: nat, b: Seq<u8>, onto: nat, ahead: nat)
    requires
        aligned(a, from, b, onto),
        from + ahead <= a.len(),
    ensures
        comment_end(b, onto + ahead) == match comment_end(a, from + ahead) {
            Some(end) => Some((end - from + onto) as nat),
            None => None,
        },
    decreases a.len() - from - ahead,
{
    if from + ahead < a.len() {
        if !closes_comment(a, from + ahead) {
            lemma_comment_end_moved(a, from, b, onto, ahead + 1);
        }
    }
}

/// Where two texts hold the same bytes from some offset of each on, a run
/// of digits ends at the same distance in both.
pub proof fn lemma_digits_end_moved(a: Seq<u8>, from: nat, b: Seq<u8>, onto: nat, ahead: nat)
    requires
        aligned(a, from, b, onto),
        from + ahead <= a.len(),
    ensures
        digits_end(b, onto + ahead) == digits_end(a, from + ahead) - from + onto,
    decreases a.len() - from - ahead,
{
    if from + ahead < a.len() {
        if is_digit(a[(from + ahead) as int]) {
            lemma_digits_end_moved(a, from, b, onto, ahead + 1);
        }
    }
}

/// Where two texts hold the same bytes from some offset of each on, a word
/// ends at the same distance in both.
pub proof fn lemma_word_end_moved(a: Seq<u8>, from: nat, b: Seq<u8>, onto: nat, ahead: nat)
    requires
        aligned(a, from, b, onto),
        from + ahead <= a.len(),
    ensures
        word_end(b, onto + ahead) == word_end(a, from + ahead) - from + onto,
    decreases a.len() - from - ahead,
{
    if from + ahead < a.len() {
        if is_word_byte(a[(from + ahead) as int]) {
            lemma_word_end_moved(a, from, b, onto, ahead + 1);
        }
    }
}

/// Where two texts hold the same bytes from some offset of each on, the
/// same is read at the same distance in both.
pub proof fn lemma_scan_moved(a: Seq<u8>, from: nat, b: Seq<u8>, onto: nat, ahead: nat)
    requires
        aligned(a, from, b, onto),
        from + ahead <= a.len(),
    ensures
        scan(b, onto + ahead) == moved(scan(a, from + ahead), onto - from),
    decreases a.len() - from - ahead,
{
    let here = from + ahead;
    let there = onto + ahead;
    if here < a.len() {
        if is_space(a[here as int]) {
            lemma_scan_moved(a, from, b, onto, ahead + 1);
        } else if opens_comment(a, here) {
            lemma_comment_end_moved(a, from, b, onto, ahead + 2);
            lemma_comment_end(a, here + 2);
            if let Some(end) = comment_end(a, here + 2) {
                lemma_scan_moved(a, from, b, onto, (end - from) as nat);
            }
        } else {
            lemma_digits_end(a, here);
            lemma_word_end(a, here);
            lemma_digits_end_moved(a, from, b, onto, ahead);
            lemma_word_end_moved(a, from, b, onto, ahead);
            match classify(a[here as int]) {
                CharClass::Digit => {
                    let end = digits_end(a, here);
                    assert(b.subrange(there as int, end - from + onto) =~= a.subrange(
                        here as int,
                        end as int,
                    ));
                },
                CharClass::Letter => {
                    let end = word_end(a, here);
                    assert(b.subrange(there as int, end - from + onto) =~= a.subrange(
                        here as int,
                        end as int,
                    ));
                },
                _ => {},
            }
        }
    }
}

/// Where two texts hold the same bytes from some offset of each on, their
/// tokens from there on occupy the same bytes, and their token streams end
/// alike.
pub proof fn lemma_stream_moved(a: Seq<u8>, from: nat, b: Seq<u8>, onto: nat, ahead: nat)
    requires
        aligned(a, from, b, onto),
        from + ahead <= a.len(),
    ensures
        texts_from(b, onto + ahead) == texts_from(a, from + ahead),
        tail_from(b, onto + ahead) is End <==> tail_from(a, from + ahead) is End,
    decreases a.len() - from - ahead,
{
    let here = from + ahead;
    let there = onto + ahead;
    lemma_scan_moved(a, from, b, onto, ahead);
    lemma_scan_bounds(a, here);
    if let Scan::Token { token, start, end } = scan(a, here) {
        lemma_stream_moved(a, from, b, onto, (end - from) as nat);
        let first = a.subrange(start as int, end as int);
        let other = b.subrange(start - from + onto, end - from + onto);
        assert(other =~= first);
        assert(texts_from(b, there) =~= seq![other] + texts_from(b, (end - from + onto) as nat));
    }
}

/// `element` is one space, or one whole comment: the two bytes that open
/// it, the two that close it at its very end, and no terminator before.
pub open spec fn is_layout_element(element: Seq<u8>) -> bool {
    ||| element.len() == 1 && is_space(element[0])
    ||| opens_comment(element, 0) && comment_end(element, 2) == Some(element.len())
}

/// `source` with `element` put in at offset `at`.
pub open spec fn inserted(source: Seq<u8>, at: nat, element: Seq<u8>) -> Seq<u8> {
    source.subrange(0, at as int) + element + source.subrange(at as int, source.len() as int)
}

/// One of the tokens read from offset `from` on starts at offset `at`.
pub open spec fn starts_token(source: Seq<u8>, from: nat, at: nat) -> bool
    decreases source.len() - from,
{
    match scan(source, from) {
        Scan::Token { start, end, .. } => {
            proof {
                lemma_scan_bounds(source, from);
            }
            start == at || starts_token(source, end, at)
        },
        _ => false,
    }
}

/// A token that is read from `from` on starts at or behind `from`, within
/// the text.
pub proof fn lemma_starts_token_bound(source: Seq<u8>, from: nat, at: nat)
    requires
        starts_token(source, from, at),
    ensures
        from <= at < source.len(),
    decreases source.len() - from,
{
    lemma_scan_bounds(source, from);
    if let Scan::Token { start, end, .. } = scan(source, from) {
        if start != at {
            lemma_starts_token_bound(source, end, at);
        }
    }
}

/// What is nothing but spaces and whole comments in one text is passed over
/// in every text with the same bytes up to its end.
pub proof fn lemma_layout_skipped(a: Seq<u8>, b: Seq<u8>, from: nat, upto: nat)
    requires
        agree_before(a, b, upto),
        layout_between(a, from, upto),
    ensures
        from <= upto,
        scan(b, from) == scan(b, upto),
    decreases a.len() - from,
{
    if from < upto && from < a.len() {
        if is_space(a[from as int]) {
            lemma_layout_skipped(a, b, from + 1, upto);
        } else {
            lemma_comment_end(a, from + 2);
            let end = comment_end(a, from + 2)->Some_0;
            lemma_layout_skipped(a, b, end, upto);
            lemma_comment_end_local(a, b, from + 2, upto);
        }
    }
}

/// A layout element that stands in a text is passed over.
pub proof fn lemma_element_skipped(source: Seq<u8>, at: nat, element: Seq<u8>)
    requires
        is_layout_element(element),
        at + element.len() <= source.len(),
        part(source, at, at + element.len()) == element,
    ensures
        scan(source, at) == scan(source, at + element.len()),
{
    if !(element.len() == 1 && is_space(element[0])) {
        let rest = source.subrange(at as int, source.len() as int);
        lemma_comment_end_local(element, rest, 2, element.len());
        lemma_comment_end_moved(rest, 0, source, at, 2);
    }
}

/// A text with a layout element put in holds the same bytes before the
/// element, the element, and the same bytes behind it.
pub proof fn lemma_inserted(source: Seq<u8>, at: nat, element: Seq<u8>)
    requires
        at <= source.len(),
        is_layout_element(element),
    ensures
        inserted(source, at, element).len() == source.len() + element.len(),
        agree_before(source, inserted(source, at, element), at),
        broken_at(inserted(source, at, element), at),
        part(inserted(source, at, element), at, at + element.len()) == element,
        aligned(source, at, inserted(source, at, element), at + element.len()),
{
    let other = inserted(source, at, element);
    assert(part(other, at, at + element.len()) =~= element);
}

/// A space or a whole comment put in right in front of a token changes
/// neither the bytes that the tokens occupy nor the way the token stream
/// ends.
pub proof fn lemma_layout_before_a_token(
    source: Seq<u8>,
    from: nat,
    at: nat,
    element: Seq<u8>,
)
    requires
        is_layout_element(element),
        starts_token(source, from, at),
    ensures
        texts_from(inserted(source, at, element), from) == texts_from(source, from),
        tail_from(inserted(source, at, element), from) is End <==> tail_from(source, from) is End,
    decreases source.len() - from,
{
    let other = inserted(source, at, element);
    let by = element.len();
    lemma_starts_token_bound(source, from, at);
    lemma_inserted(source, at, element);
    lemma_scan_bounds(source, from);
    if let Scan::Token { token, start, end } = scan(source, from) {
        if start == at {
            lemma_layout_before_token(source, from);
            lemma_layout_skipped(source, other, from, at);
            lemma_layout_skipped(source, source, from, at);
            lemma_element_skipped(other, at, element);
            lemma_scan_moved(source, at, other, at + by, 0);
            lemma_stream_moved(source, at, other, at + by, (end - at) as nat);
            assert(part(other, at + by, end + by) =~= source.subrange(at as int, end as int));
            assert(texts_from(other, from) =~= seq![part(other, at + by, end + by)]
                + texts_from(other, end + by));
        } else {
            lemma_starts_token_bound(source, end, at);
            lemma_scan_local(source, other, from, at);
            lemma_layout_before_a_token(source, end, at, element);
            assert(other.subrange(start as int, end as int) =~= source.subrange(
                start as int,
                end as int,
            ));
            assert(texts_from(other, from) =~= seq![other.subrange(start as int, end as int)]
                + texts_from(other, end));
        }
    }
}

/// A space or a whole comment put behind everything in a text whose token
/// stream ends at the end of the input changes neither the bytes that the
/// tokens occupy nor the way the token stream ends.
pub proof fn lemma_layout_at_the_end(source: Seq<u8>, from: nat, element: Seq<u8>)
    requires
        is_layout_element(element),
        from <= source.len(),
        tail_from(source, from) is End,
    ensures
        texts_from(inserted(source, source.len(), element), from) == texts_from(source, from),
        tail_from(inserted(source, source.len(), element), from) is End,
    decreases source.len() - from,
{
    let at = source.len();
    let other = inserted(source, at, element);
    lemma_inserted(source, at, element);
    lemma_scan_bounds(source, from);
    match scan(source, from) {
        Scan::Token { token, start, end } => {
            lemma_scan_local(source, other, from, at);
            lemma_layout_at_the_end(source, end, element);
            assert(other.subrange(start as int, end as int) =~= source.subrange(
                start as int,
                end as int,
            ));
            assert(texts_from(other, from) =~= seq![other.subrange(start as int, end as int)]
                + texts_from(other, end));
        },
        _ => {
            lemma_layout_before_token(source, from);
            lemma_layout_skipped(source, other, from, at);
            lemma_element_skipped(other, at, element);
        },
    }
}

/// Two source texts differ in nothing but the spaces and comments between
/// their tokens: their tokens occupy the same bytes in the same order, and
/// both token streams end in the same way, at the end of the input or in a
/// failure. This holds of any two texts of which one is the other with
/// spaces and whole comments put in front of tokens or behind the last
/// token, and it does not hold where a space splits a token in two.
pub open spec fn same_but_for_layout(a: Seq<u8>, b: Seq<u8>) -> bool {
    &&& texts(a) == texts(b)
    &&& tail(a) is End <==> tail(b) is End
}

/// A text with a space or a whole comment put in right in front of one of
/// its tokens, or behind everything if its token stream ends at the end of
/// the input, differs from the text in nothing but layout.
pub proof fn lemma_layout_put_in(source: Seq<u8>, at: nat, element: Seq<u8>)
    requires
        is_layout_element(element),
        starts_token(source, 0, at) || (at == source.len() && tail(source) is End),
    ensures
        same_but_for_layout(source, inserted(source, at, element)),
{
    if starts_token(source, 0, at) {
        lemma_layout_before_a_token(source, 0, at, element);
    } else {
        lemma_layout_at_the_end(source, 0, element);
    }
}

} // verus!
