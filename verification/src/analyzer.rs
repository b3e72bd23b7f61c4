//! The whole front end in one call: from the bytes of a source text to its
//! syntax tree written out as text.

use vstd::prelude::*;
use crate::emitter::{emit, emitted};
use crate::parser::{parse_outcome, Parser, ParserError, ParserErrorSpec, DEFAULT_MAX_DEPTH};
use crate::tokenizer::Tokenizer;

verus! {

/// The front end as a whole.
pub struct Analyzer;

/// What analyzing `source` yields: the text that the syntax tree of `source`
/// is written out as, or the error that tells why `source` is no program.
pub open spec fn analysis(source: Seq<u8>) -> Result<Seq<char>, ParserErrorSpec> {
    match parse_outcome(source, 0, 0, DEFAULT_MAX_DEPTH as nat) {
        Ok(tree) => Ok(emitted(tree)),
        Err(error) => Err(error),
    }
}

impl Analyzer {
    /// Tokenizes and parses `source` and writes the syntax tree out as
    /// nested tagged text.
    pub fn run(source: Vec<u8>) -> (res: Result<String, ParserError>)
        ensures
            match analysis(source@) {
                Ok(text) => res matches Ok(written) && written@ == text,
                Err(error) => res matches Err(raised) && raised@ == error,
            },
    {
        let tokenizer = Tokenizer::new(source);
        let mut parser = Parser::new(tokenizer);
        match parser.parse() {
            Ok(tree) => Ok(emit(&tree)),
            Err(error) => Err(error),
        }
    }
}

} // verus!
