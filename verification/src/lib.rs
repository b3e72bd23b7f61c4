//! Front end for a small block-structured teaching language: a lexer over raw
//! bytes, a recursive-descent parser that builds a concrete syntax tree, and an
//! emitter that writes the tree as nested tagged text.

pub mod analyzer;
pub mod char_class;
pub mod derivation;
pub mod emitter;
pub mod grammar;
pub mod keyword;
pub mod layout;
pub mod parser;
pub mod position;
pub mod scan;
pub mod shape;
pub mod soundness;
pub mod stream;
pub mod symbol;
pub mod text;
pub mod tokenizer;
pub mod tree;
