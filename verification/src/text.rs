//! Bytes read as ASCII text.

use vstd::prelude::*;
use vstd::string::*;
use vstd::utf8::is_ascii_chars;

verus! {

/// The characters that `bytes` stand for when each byte is one character.
pub open spec fn ascii_text(bytes: Seq<u8>) -> Seq<char> {
    Seq::new(bytes.len(), |i: int| bytes[i] as char)
}

/// Against an ASCII string, comparing bytes and comparing characters agree.
pub proof fn lemma_ascii_text_matches(bytes: Seq<u8>, word: &str)
    requires
        is_ascii_chars(word@),
    ensures
        (bytes == word.spec_bytes()) <==> (ascii_text(bytes) == word@),
{
    is_ascii_spec_bytes(word);
    let encoded = Seq::new(word@.len(), |i: int| word@[i] as u8);
    if bytes == encoded {
        assert(ascii_text(bytes) =~= word@);
    }
    if ascii_text(bytes) == word@ {
        assert(bytes =~= encoded);
    }
}

/// `String::push` of the standard library appends the one character to the
/// end of the string and changes nothing else.
pub assume_specification[ String::push ](text: &mut String, c: char)
    ensures
        final(text)@ == old(text)@.push(c),
;

/// The string whose characters are the bytes of `bytes`, one for one.
pub fn text_of(bytes: &[u8]) -> (text: String)
    ensures
        text@ == ascii_text(bytes@),
{
    let mut text = String::new();
    let mut i: usize = 0;
    while i < bytes.len()
        invariant
            i <= bytes.len(),
            text@ == ascii_text(bytes@.subrange(0, i as int)),
        decreases bytes.len() - i,
    {
        text.push(bytes[i] as char);
        i += 1;
    }
    text
}

/// Whether two byte slices hold the same bytes.
pub fn same_bytes(a: &[u8], b: &[u8]) -> (same: bool)
    ensures
        same == (a@ == b@),
{
    if a.len() != b.len() {
        return false;
    }
    let mut i: usize = 0;
    while i < a.len()
        invariant
            a.len() == b.len(),
            i <= a.len(),
            forall|j: int| 0 <= j < i ==> a@[j] == b@[j],
        decreases a.len() - i,
    {
        if a[i] != b[i] {
            return false;
        }
        i += 1;
    }
    assert(a@ =~= b@);
    true
}

} // verus!
