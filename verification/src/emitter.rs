//! The tree emitter: a syntax tree written out as nested tagged text, one tag
//! to a line.
//!
//! A production is written as an opening tag that bears its name, its
//! children in their order, and the matching closing tag. A token is written
//! on one line: a tag named for the kind of token around the token's text.

use vstd::prelude::*;
use vstd::string::*;
use crate::scan::DIGIT_ZERO;
use crate::tokenizer::{Token, TokenSpec};
use crate::tree::{NodeSpec, Syntax, SyntaxNode, SyntaxSpec, SyntaxTree};

verus! {

/// The name of the tag for `syntax`: the name of the production, or the
/// kind of the token.
pub open spec fn tag_name(syntax: SyntaxSpec) -> Seq<char> {
    match syntax {
        SyntaxSpec::Program => "Program"@,
        SyntaxSpec::Block => "Block"@,
        SyntaxSpec::ConstDecl => "ConstDecl"@,
        SyntaxSpec::VarDecl => "VarDecl"@,
        SyntaxSpec::FuncDecl => "FuncDecl"@,
        SyntaxSpec::Statement => "Statement"@,
        SyntaxSpec::Condition => "Condition"@,
        SyntaxSpec::Expression => "Expression"@,
        SyntaxSpec::Term => "Term"@,
        SyntaxSpec::Factor => "Factor"@,
        SyntaxSpec::Token(TokenSpec::Keyword(_)) => "keyword"@,
        SyntaxSpec::Token(TokenSpec::Symbol(_)) => "symbol"@,
        SyntaxSpec::Token(TokenSpec::Identifier(_)) => "identifier"@,
        SyntaxSpec::Token(TokenSpec::Number(_)) => "number"@,
    }
}

/// The character for the digit `digit`.
pub open spec fn digit_char(digit: nat) -> char {
    (DIGIT_ZERO + digit) as char
}

/// `n` written in base ten, without leading zeros.
pub open spec fn digits_text(n: nat) -> Seq<char>
    decreases n,
{
    if n < 10 {
        seq![digit_char(n)]
    } else {
        digits_text(n / 10).push(digit_char(n % 10))
    }
}

/// `value` written in base ten, with a minus sign in front if it is
/// negative.
pub open spec fn number_text(value: int) -> Seq<char> {
    if value < 0 {
        seq!['-'] + digits_text((-value) as nat)
    } else {
        digits_text(value as nat)
    }
}

/// The text that stands for `token` in the output: a reserved word and an
/// identifier as they are spelled, a symbol by its name, a number in base
/// ten.
pub open spec fn token_text(token: TokenSpec) -> Seq<char> {
    match token {
        TokenSpec::Keyword(keyword) => keyword.spelling(),
        TokenSpec::Symbol(symbol) => symbol.name(),
        TokenSpec::Identifier(name) => name,
        TokenSpec::Number(value) => number_text(value as int),
    }
}

/// The line that opens the tag `name`.
pub open spec fn opening_line(name: Seq<char>) -> Seq<char> {
    "<"@ + name + ">\n"@
}

/// The line that closes the tag `name`.
pub open spec fn closing_line(name: Seq<char>) -> Seq<char> {
    "</"@ + name + ">\n"@
}

/// The line for a token: its text between the opening and the closing tag
/// `name`.
pub open spec fn token_line(name: Seq<char>, text: Seq<char>) -> Seq<char> {
    "<"@ + name + "> "@ + text + " </"@ + name + ">\n"@
}

/// The text that `nodes` are written out as, one behind the other.
pub open spec fn emitted_all(nodes: Seq<NodeSpec>) -> Seq<char>
    decreases nodes,
{
    if nodes.len() == 0 {
        Seq::empty()
    } else {
        emitted_all(nodes.drop_last()) + emitted(nodes.last())
    }
}

/// The text that the tree `node` is written out as.
pub open spec fn emitted(node: NodeSpec) -> Seq<char>
    decreases node,
{
    match node.syntax {
        SyntaxSpec::Token(token) => token_line(tag_name(node.syntax), token_text(token)),
        _ => opening_line(tag_name(node.syntax)) + emitted_all(node.children) + closing_line(
            tag_name(node.syntax),
        ),
    }
}

/// The name of the tag for `syntax`.
fn tag(syntax: &Syntax) -> (name: &'static str)
    ensures
        name@ == tag_name(syntax@),
{
    match syntax {
        Syntax::Program => "Program",
        Syntax::Block => "Block",
        Syntax::ConstDecl => "ConstDecl",
        Syntax::VarDecl => "VarDecl",
        Syntax::FuncDecl => "FuncDecl",
        Syntax::Statement => "Statement",
        Syntax::Condition => "Condition",
        Syntax::Expression => "Expression",
        Syntax::Term => "Term",
        Syntax::Factor => "Factor",
        Syntax::Token(Token::Keyword(_)) => "keyword",
        Syntax::Token(Token::Symbol(_)) => "symbol",
        Syntax::Token(Token::Identifier(_)) => "identifier",
        Syntax::Token(Token::Number(_)) => "number",
    }
}

/// Writes `n` in base ten to the end of `out`.
fn emit_digits(n: u32, out: &mut String)
    ensures
        final(out)@ == old(out)@ + digits_text(n as nat),
    decreases n,
{
    if n >= 10 {
        emit_digits(n / 10, out);
    }
    let digit: u8 = (n % 10) as u8;
    out.push((DIGIT_ZERO + digit) as char);
}

/// Writes `value` in base ten to the end of `out`.
fn emit_number(value: i32, out: &mut String)
    ensures
        final(out)@ == old(out)@ + number_text(value as int),
{
    if value < 0 {
        out.push('-');
        let magnitude: i64 = -(value as i64);
        emit_digits(magnitude as u32, out);
    } else {
        emit_digits(value as u32, out);
    }
}

/// Writes the text for `token` to the end of `out`.
fn emit_token_text(token: &Token, out: &mut String)
    ensures
        final(out)@ == old(out)@ + token_text(token@),
{
    match token {
        Token::Keyword(keyword) => out.append(keyword.as_str()),
        Token::Symbol(symbol) => out.append(symbol.as_str()),
        Token::Identifier(name) => out.append(name.as_str()),
        Token::Number(value) => emit_number(*value, out),
    }
}

/// Writes the tree below `node` to the end of `out`.
fn write_node(node: &SyntaxNode, out: &mut String)
    ensures
        final(out)@ == old(out)@ + emitted(node@),
    decreases node@,
{
    let syntax = node.get_ref_syntax();
    let name = tag(syntax);
    match syntax {
        Syntax::Token(token) => {
            out.append("<");
            out.append(name);
            out.append("> ");
            emit_token_text(token, out);
            out.append(" </");
            out.append(name);
            out.append(">\n");
        },
        _ => {
            out.append("<");
            out.append(name);
            out.append(">\n");
            let ghost opened = out@;
            let children = node.get_ref_children();
            let mut i: usize = 0;
            while i < children.len()
                invariant
                    i <= children.len(),
                    children@.len() == node@.children.len(),
                    forall|k: int|
                        0 <= k < children@.len() ==> (#[trigger] children@[k])@
                            == node@.children[k],
                    out@ == opened + emitted_all(node@.children.subrange(0, i as int)),
                decreases children.len() - i,
            {
                write_node(&children[i], out);
                assert(node@.children.subrange(0, i + 1).drop_last() =~= node@.children.subrange(
                    0,
                    i as int,
                ));
                i += 1;
            }
            assert(node@.children.subrange(0, i as int) =~= node@.children);
            out.append("</");
            out.append(name);
            out.append(">\n");
        },
    }
}

/// Writes the tree below `node` out as nested tagged text.
pub fn emit_node(node: &SyntaxNode) -> (text: String)
    ensures
        text@ == emitted(node@),
{
    let mut text = String::new();
    write_node(node, &mut text);
    text
}

/// Writes `tree` out as nested tagged text.
pub fn emit(tree: &SyntaxTree) -> (text: String)
    ensures
        text@ == emitted(tree@),
{
    emit_node(tree.get_ref_root())
}

} // verus!
