//! The grammar, as functions from a token sequence to the tree that the
//! parser builds or the fault at which it gives up.
//!
//! ```text
//! Program    := Block '.'
//! Block      := (ConstDecl | VarDecl | FuncDecl)* Statement
//! ConstDecl  := 'const' Ident '=' Number (',' Ident '=' Number)* ';'
//! VarDecl    := 'var' Ident (',' Ident)* ';'
//! FuncDecl   := 'function' Ident '(' (Ident (',' Ident)*)? ')' Block ';'
//! Statement  := Ident ':=' Expression
//!             | 'begin' Statement (';' Statement)* 'end'
//!             | 'if' Condition 'then' Statement
//!             | 'while' Condition 'do' Statement
//!             | 'return' Expression
//!             | 'write' Expression
//!             | 'writeln'
//!             | (nothing)
//! Condition  := 'odd' Expression | Expression RelOp Expression
//! Expression := ('+'|'-')? Term (('+'|'-') Term)*
//! Term       := Factor (('*'|'/') Factor)*
//! Factor     := Ident ('(' (Expression (',' Expression)*)? ')')?
//!             | Number
//!             | '(' Expression ')'
//! RelOp      := '=' | '<>' | '<' | '>' | '<=' | '>='
//! ```
//!
//! Every function takes the whole token sequence, the index `at` of the
//! token it starts with, and a depth: the number of nested productions that
//! may still be entered. A tree occupies as many tokens as it has leaves, so
//! what follows a tree `t` that starts at `at` stands at `at + t.width()`.

use vstd::prelude::*;
use crate::keyword::Keyword;
use crate::symbol::Symbol;
use crate::tokenizer::TokenSpec;
use crate::tree::{tokens_of, NodeSpec, SyntaxSpec};

verus! {

/// What the parser was looking for where it gave up.
#[derive(Copy, Clone, Debug, PartialEq, Eq, Structural)]
pub enum Expectation {
    /// This reserved word.
    Keyword(Keyword),
    /// This symbol.
    Symbol(Symbol),
    /// Any identifier.
    Identifier,
    /// Any number.
    Number,
    /// One of the six comparison operators.
    Relation,
    /// The start of a factor: an identifier, a number or an opening
    /// parenthesis.
    Factor,
    /// Nothing more: the program is complete.
    EndOfInput,
}

/// Why the parser gave up.
#[derive(Copy, Clone, Debug, PartialEq, Eq, Structural)]
pub enum FaultKind {
    /// The token at hand is not what the grammar asks for.
    Expected(Expectation),
    /// The productions are nested deeper than the parser was allowed to go.
    TooDeep,
}

/// Where and why the parser gave up: `at` is the index of the token at hand,
/// or the number of tokens if there is none left.
pub struct Fault {
    pub at: nat,
    pub kind: FaultKind,
}

/// A tree, or the fault that kept it from being built.
pub type Parsed = Result<NodeSpec, Fault>;

/// The children of a tree, or the fault that kept them from being built.
pub type ParsedList = Result<Seq<NodeSpec>, Fault>;

/// The number of tokens from index `at` on.
pub open spec fn remaining(tokens: Seq<TokenSpec>, at: nat) -> nat {
    if at <= tokens.len() {
        (tokens.len() - at) as nat
    } else {
        0
    }
}

/// The number of tokens at the leaves of `nodes`.
pub open spec fn span(nodes: Seq<NodeSpec>) -> nat {
    tokens_of(nodes).len()
}

/// The token at index `at` exists and is the reserved word `keyword`.
pub open spec fn is_keyword(tokens: Seq<TokenSpec>, at: nat, keyword: Keyword) -> bool {
    at < tokens.len() && tokens[at as int] == TokenSpec::Keyword(keyword)
}

/// The token at index `at` exists and is the symbol `symbol`.
pub open spec fn is_symbol(tokens: Seq<TokenSpec>, at: nat, symbol: Symbol) -> bool {
    at < tokens.len() && tokens[at as int] == TokenSpec::Symbol(symbol)
}

/// The token at index `at` exists and is an identifier.
pub open spec fn is_identifier(tokens: Seq<TokenSpec>, at: nat) -> bool {
    at < tokens.len() && tokens[at as int] is Identifier
}

/// The token at index `at` exists and is a number.
pub open spec fn is_number(tokens: Seq<TokenSpec>, at: nat) -> bool {
    at < tokens.len() && tokens[at as int] is Number
}

/// `symbol` compares two values.
pub open spec fn compares(symbol: Symbol) -> bool {
    symbol == Symbol::Equal || symbol == Symbol::NotEq || symbol == Symbol::Lss || symbol
        == Symbol::Gtr || symbol == Symbol::LssEq || symbol == Symbol::GtrEq
}

/// The token at index `at` exists and is a comparison operator.
pub open spec fn is_relation(tokens: Seq<TokenSpec>, at: nat) -> bool {
    at < tokens.len() && (tokens[at as int] matches TokenSpec::Symbol(symbol) && compares(symbol))
}

/// The token at index `at` exists and is `+` or `-`.
pub open spec fn is_additive(tokens: Seq<TokenSpec>, at: nat) -> bool {
    is_symbol(tokens, at, Symbol::Plus) || is_symbol(tokens, at, Symbol::Minus)
}

/// The token at index `at` exists and is `*` or `/`.
pub open spec fn is_multiplicative(tokens: Seq<TokenSpec>, at: nat) -> bool {
    is_symbol(tokens, at, Symbol::Mult) || is_symbol(tokens, at, Symbol::Div)
}

/// What stands at index `at` is what `expected` asks for.
pub open spec fn meets(tokens: Seq<TokenSpec>, at: nat, expected: Expectation) -> bool {
    match expected {
        Expectation::Keyword(keyword) => is_keyword(tokens, at, keyword),
        Expectation::Symbol(symbol) => is_symbol(tokens, at, symbol),
        Expectation::Identifier => is_identifier(tokens, at),
        Expectation::Number => is_number(tokens, at),
        Expectation::Relation => is_relation(tokens, at),
        Expectation::Factor => is_identifier(tokens, at) || is_number(tokens, at) || is_symbol(
            tokens,
            at,
            Symbol::Lparen,
        ),
        Expectation::EndOfInput => at >= tokens.len(),
    }
}

/// The leaf for the token at index `at`.
pub open spec fn leaf_at(tokens: Seq<TokenSpec>, at: nat) -> NodeSpec {
    NodeSpec::leaf(tokens[at as int])
}

/// A tree for a production.
pub open spec fn branch(syntax: SyntaxSpec, children: Seq<NodeSpec>) -> NodeSpec {
    NodeSpec { syntax, children }
}

/// The sequence of `first` and `second`.
pub open spec fn pair(first: NodeSpec, second: NodeSpec) -> Seq<NodeSpec> {
    Seq::empty().push(first).push(second)
}

/// The sequence of `first`, `second` and `third`.
pub open spec fn triple(first: NodeSpec, second: NodeSpec, third: NodeSpec) -> Seq<NodeSpec> {
    Seq::empty().push(first).push(second).push(third)
}

/// The sequence of `first`, `second`, `third` and `fourth`.
pub open spec fn quadruple(
    first: NodeSpec,
    second: NodeSpec,
    third: NodeSpec,
    fourth: NodeSpec,
) -> Seq<NodeSpec> {
    Seq::empty().push(first).push(second).push(third).push(fourth)
}

/// The fault of finding something else than `expected` at index `at`.
pub open spec fn unexpected(at: nat, expected: Expectation) -> Fault {
    Fault { at, kind: FaultKind::Expected(expected) }
}

/// The fault of entering one production too many at index `at`.
pub open spec fn too_deep(at: nat) -> Fault {
    Fault { at, kind: FaultKind::TooDeep }
}

/// The leaf for the token at index `at`, provided it is what `expected`
/// asks for.
pub open spec fn expect(tokens: Seq<TokenSpec>, at: nat, expected: Expectation) -> Parsed {
    if meets(tokens, at, expected) {
        Ok(leaf_at(tokens, at))
    } else {
        Err(unexpected(at, expected))
    }
}

/// A declaration: its reserved word, then what follows it.
pub open spec fn declaration(
    syntax: SyntaxSpec,
    keyword: TokenSpec,
    rest: Seq<NodeSpec>,
) -> NodeSpec {
    branch(syntax, seq![NodeSpec::leaf(keyword)] + rest)
}

/// The tree for a production over `kids`, where there is no fault.
pub open spec fn production(syntax: SyntaxSpec, kids: ParsedList) -> Parsed {
    match kids {
        Ok(kids) => Ok(branch(syntax, kids)),
        Err(fault) => Err(fault),
    }
}

/// If `part` is a fault, `whole` is the same fault.
pub open spec fn carries<A, B>(part: Result<A, Fault>, whole: Result<B, Fault>) -> bool {
    part matches Err(fault) ==> whole == Err::<B, Fault>(fault)
}

/// The declaration that `keyword` and `rest` make up, where there is no
/// fault.
pub open spec fn declared(syntax: SyntaxSpec, keyword: TokenSpec, rest: ParsedList) -> Parsed {
    match rest {
        Ok(rest) => Ok(declaration(syntax, keyword, rest)),
        Err(fault) => Err(fault),
    }
}

/// `Ident '=' Number (',' Ident '=' Number)* ';'` from index `at` on, added
/// to `kids`.
#[verifier::opaque]
pub open spec fn constants(tokens: Seq<TokenSpec>, at: nat, kids: Seq<NodeSpec>) -> ParsedList
    decreases remaining(tokens, at),
{
    match expect(tokens, at, Expectation::Identifier) {
        Err(fault) => Err(fault),
        Ok(name) => match expect(tokens, at + 1, Expectation::Symbol(Symbol::Equal)) {
            Err(fault) => Err(fault),
            Ok(equal) => match expect(tokens, at + 2, Expectation::Number) {
                Err(fault) => Err(fault),
                Ok(value) => {
                    let kids = kids.push(name).push(equal).push(value);
                    if is_symbol(tokens, at + 3, Symbol::Comma) {
                        constants(tokens, at + 4, kids.push(leaf_at(tokens, at + 3)))
                    } else {
                        match expect(tokens, at + 3, Expectation::Symbol(Symbol::SemiColon)) {
                            Err(fault) => Err(fault),
                            Ok(end) => Ok(kids.push(end)),
                        }
                    }
                },
            },
        },
    }
}

/// What follows the `const` at index `at` in a constant declaration.
pub open spec fn const_rest(tokens: Seq<TokenSpec>, at: nat, depth: nat) -> ParsedList {
    if depth == 0 {
        Err(too_deep(at))
    } else {
        constants(tokens, at + 1, Seq::empty())
    }
}

/// `Ident (',' Ident)* ';'` from index `at` on, added to `kids`.
#[verifier::opaque]
pub open spec fn variables(tokens: Seq<TokenSpec>, at: nat, kids: Seq<NodeSpec>) -> ParsedList
    decreases remaining(tokens, at),
{
    match expect(tokens, at, Expectation::Identifier) {
        Err(fault) => Err(fault),
        Ok(name) => {
            if is_symbol(tokens, at + 1, Symbol::Comma) {
                variables(tokens, at + 2, kids.push(name).push(leaf_at(tokens, at + 1)))
            } else {
                match expect(tokens, at + 1, Expectation::Symbol(Symbol::SemiColon)) {
                    Err(fault) => Err(fault),
                    Ok(end) => Ok(kids.push(name).push(end)),
                }
            }
        },
    }
}

/// What follows the `var` at index `at` in a variable declaration.
pub open spec fn var_rest(tokens: Seq<TokenSpec>, at: nat, depth: nat) -> ParsedList {
    if depth == 0 {
        Err(too_deep(at))
    } else {
        variables(tokens, at + 1, Seq::empty())
    }
}

/// `Ident (',' Ident)*` from index `at` on, added to `kids`.
#[verifier::opaque]
pub open spec fn names(tokens: Seq<TokenSpec>, at: nat, kids: Seq<NodeSpec>) -> ParsedList
    decreases remaining(tokens, at),
{
    match expect(tokens, at, Expectation::Identifier) {
        Err(fault) => Err(fault),
        Ok(name) => {
            if is_symbol(tokens, at + 1, Symbol::Comma) {
                names(tokens, at + 2, kids.push(name).push(leaf_at(tokens, at + 1)))
            } else {
                Ok(kids.push(name))
            }
        },
    }
}

/// `(Ident (',' Ident)*)?` from index `at` on, added to `kids`: the
/// parameters of a function, which may be none.
pub open spec fn parameters(tokens: Seq<TokenSpec>, at: nat, kids: Seq<NodeSpec>) -> ParsedList {
    if is_identifier(tokens, at) {
        names(tokens, at, kids)
    } else {
        Ok(kids)
    }
}

/// What follows the `function` at index `at` in a function declaration:
/// `Ident '(' (Ident (',' Ident)*)? ')' Block ';'`.
#[verifier::opaque]
pub open spec fn func_rest(tokens: Seq<TokenSpec>, at: nat, depth: nat) -> ParsedList
    decreases depth, remaining(tokens, at), 1nat,
{
    if depth == 0 {
        Err(too_deep(at))
    } else {
        match expect(tokens, at + 1, Expectation::Identifier) {
            Err(fault) => Err(fault),
            Ok(name) => match expect(tokens, at + 2, Expectation::Symbol(Symbol::Lparen)) {
                Err(fault) => Err(fault),
                Ok(open) => match parameters(tokens, at + 3, pair(name, open)) {
                    Err(fault) => Err(fault),
                    Ok(kids) => {
                        let close_at = at + 1 + span(kids);
                        match expect(tokens, close_at, Expectation::Symbol(Symbol::Rparen)) {
                            Err(fault) => Err(fault),
                            Ok(close) => match block(tokens, close_at + 1, (depth - 1) as nat) {
                                Err(fault) => Err(fault),
                                Ok(body) => match expect(
                                    tokens,
                                    close_at + 1 + body.width(),
                                    Expectation::Symbol(Symbol::SemiColon),
                                ) {
                                    Err(fault) => Err(fault),
                                    Ok(end) => Ok(kids.push(close).push(body).push(end)),
                                },
                            },
                        }
                    },
                },
            },
        }
    }
}

/// `(ConstDecl | VarDecl | FuncDecl)*` from index `at` on, added to `kids`.
/// Each declaration may be `inner` productions deep.
#[verifier::opaque]
pub open spec fn declarations(
    tokens: Seq<TokenSpec>,
    at: nat,
    inner: nat,
    kids: Seq<NodeSpec>,
) -> ParsedList
    decreases inner + 1, remaining(tokens, at), 0nat,
{
    if is_keyword(tokens, at, Keyword::Const) {
        match const_rest(tokens, at, inner) {
            Err(fault) => Err(fault),
            Ok(rest) => declarations(
                tokens,
                at + 1 + span(rest),
                inner,
                kids.push(declaration(SyntaxSpec::ConstDecl, tokens[at as int], rest)),
            ),
        }
    } else if is_keyword(tokens, at, Keyword::Var) {
        match var_rest(tokens, at, inner) {
            Err(fault) => Err(fault),
            Ok(rest) => declarations(
                tokens,
                at + 1 + span(rest),
                inner,
                kids.push(declaration(SyntaxSpec::VarDecl, tokens[at as int], rest)),
            ),
        }
    } else if is_keyword(tokens, at, Keyword::Func) {
        match func_rest(tokens, at, inner) {
            Err(fault) => Err(fault),
            Ok(rest) => declarations(
                tokens,
                at + 1 + span(rest),
                inner,
                kids.push(declaration(SyntaxSpec::FuncDecl, tokens[at as int], rest)),
            ),
        }
    } else {
        Ok(kids)
    }
}

/// `Block := (ConstDecl | VarDecl | FuncDecl)* Statement` from index `at`
/// on.
#[verifier::opaque]
pub open spec fn block(tokens: Seq<TokenSpec>, at: nat, depth: nat) -> Parsed
    decreases depth, remaining(tokens, at), 1nat,
{
    if depth == 0 {
        Err(too_deep(at))
    } else {
        match declarations(tokens, at, (depth - 1) as nat, Seq::empty()) {
            Err(fault) => Err(fault),
            Ok(kids) => match statement(tokens, at + span(kids), (depth - 1) as nat) {
                Err(fault) => Err(fault),
                Ok(body) => Ok(branch(SyntaxSpec::Block, kids.push(body))),
            },
        }
    }
}

/// `Statement (';' Statement)*` from index `at` on, added to `kids`. Each
/// statement may be `inner` productions deep.
#[verifier::opaque]
pub open spec fn sequence(
    tokens: Seq<TokenSpec>,
    at: nat,
    inner: nat,
    kids: Seq<NodeSpec>,
) -> ParsedList
    decreases inner + 1, remaining(tokens, at), 0nat,
{
    match statement(tokens, at, inner) {
        Err(fault) => Err(fault),
        Ok(first) => {
            let next = at + first.width();
            if is_symbol(tokens, next, Symbol::SemiColon) {
                sequence(tokens, next + 1, inner, kids.push(first).push(leaf_at(tokens, next)))
            } else {
                Ok(kids.push(first))
            }
        },
    }
}

/// `Statement` from index `at` on. Which form it has is decided by the token
/// at `at` alone; where that token starts none of the forms, the statement
/// is empty.
#[verifier::opaque]
pub open spec fn statement(tokens: Seq<TokenSpec>, at: nat, depth: nat) -> Parsed
    decreases depth, remaining(tokens, at), 1nat,
{
    if depth == 0 {
        Err(too_deep(at))
    } else if is_identifier(tokens, at) {
        match expect(tokens, at + 1, Expectation::Symbol(Symbol::Assign)) {
            Err(fault) => Err(fault),
            Ok(assign) => match expression(tokens, at + 2, (depth - 1) as nat) {
                Err(fault) => Err(fault),
                Ok(value) => Ok(
                    branch(SyntaxSpec::Statement, triple(leaf_at(tokens, at), assign, value)),
                ),
            },
        }
    } else if is_keyword(tokens, at, Keyword::Begin) {
        match sequence(tokens, at + 1, (depth - 1) as nat, seq![leaf_at(tokens, at)]) {
            Err(fault) => Err(fault),
            Ok(kids) => match expect(tokens, at + span(kids), Expectation::Keyword(Keyword::End)) {
                Err(fault) => Err(fault),
                Ok(end) => Ok(branch(SyntaxSpec::Statement, kids.push(end))),
            },
        }
    } else if is_keyword(tokens, at, Keyword::If) || is_keyword(tokens, at, Keyword::While) {
        let link = if is_keyword(tokens, at, Keyword::If) {
            Keyword::Then
        } else {
            Keyword::Do
        };
        match condition(tokens, at + 1, (depth - 1) as nat) {
            Err(fault) => Err(fault),
            Ok(test) => match expect(tokens, at + 1 + test.width(), Expectation::Keyword(link)) {
                Err(fault) => Err(fault),
                Ok(word) => match statement(tokens, at + 2 + test.width(), (depth - 1) as nat) {
                    Err(fault) => Err(fault),
                    Ok(body) => Ok(
                        branch(
                            SyntaxSpec::Statement,
                            quadruple(leaf_at(tokens, at), test, word, body),
                        ),
                    ),
                },
            },
        }
    } else if is_keyword(tokens, at, Keyword::Ret) || is_keyword(tokens, at, Keyword::Write) {
        match expression(tokens, at + 1, (depth - 1) as nat) {
            Err(fault) => Err(fault),
            Ok(value) => Ok(branch(SyntaxSpec::Statement, pair(leaf_at(tokens, at), value))),
        }
    } else if is_keyword(tokens, at, Keyword::WriteLn) {
        Ok(branch(SyntaxSpec::Statement, seq![leaf_at(tokens, at)]))
    } else {
        Ok(branch(SyntaxSpec::Statement, Seq::empty()))
    }
}

/// `Condition := 'odd' Expression | Expression RelOp Expression` from index
/// `at` on.
#[verifier::opaque]
pub open spec fn condition(tokens: Seq<TokenSpec>, at: nat, depth: nat) -> Parsed
    decreases depth, remaining(tokens, at), 1nat,
{
    if depth == 0 {
        Err(too_deep(at))
    } else if is_keyword(tokens, at, Keyword::Odd) {
        match expression(tokens, at + 1, (depth - 1) as nat) {
            Err(fault) => Err(fault),
            Ok(value) => Ok(branch(SyntaxSpec::Condition, pair(leaf_at(tokens, at), value))),
        }
    } else {
        match expression(tokens, at, (depth - 1) as nat) {
            Err(fault) => Err(fault),
            Ok(lhs) => match expect(tokens, at + lhs.width(), Expectation::Relation) {
                Err(fault) => Err(fault),
                Ok(relation) => match expression(tokens, at + lhs.width() + 1, (depth - 1) as nat) {
                    Err(fault) => Err(fault),
                    Ok(rhs) => Ok(branch(SyntaxSpec::Condition, triple(lhs, relation, rhs))),
                },
            },
        }
    }
}

/// `(('+'|'-') Term)*` from index `at` on, added to `kids`. Each term may be
/// `inner` productions deep.
#[verifier::opaque]
pub open spec fn terms(
    tokens: Seq<TokenSpec>,
    at: nat,
    inner: nat,
    kids: Seq<NodeSpec>,
) -> ParsedList
    decreases inner + 1, remaining(tokens, at), 0nat,
{
    if is_additive(tokens, at) {
        match term(tokens, at + 1, inner) {
            Err(fault) => Err(fault),
            Ok(next) => terms(
                tokens,
                at + 1 + next.width(),
                inner,
                kids.push(leaf_at(tokens, at)).push(next),
            ),
        }
    } else {
        Ok(kids)
    }
}

/// `Expression := ('+'|'-')? Term (('+'|'-') Term)*` from index `at` on. A
/// sign in front belongs to the expression, not to its first term.
#[verifier::opaque]
pub open spec fn expression(tokens: Seq<TokenSpec>, at: nat, depth: nat) -> Parsed
    decreases depth, remaining(tokens, at), 1nat,
{
    if depth == 0 {
        Err(too_deep(at))
    } else {
        let sign = if is_additive(tokens, at) {
            seq![leaf_at(tokens, at)]
        } else {
            Seq::empty()
        };
        match term(tokens, at + span(sign), (depth - 1) as nat) {
            Err(fault) => Err(fault),
            Ok(first) => match terms(
                tokens,
                at + span(sign) + first.width(),
                (depth - 1) as nat,
                sign.push(first),
            ) {
                Err(fault) => Err(fault),
                Ok(kids) => Ok(branch(SyntaxSpec::Expression, kids)),
            },
        }
    }
}

/// `(('*'|'/') Factor)*` from index `at` on, added to `kids`. Each factor
/// may be `inner` productions deep.
#[verifier::opaque]
pub open spec fn factors(
    tokens: Seq<TokenSpec>,
    at: nat,
    inner: nat,
    kids: Seq<NodeSpec>,
) -> ParsedList
    decreases inner + 1, remaining(tokens, at), 0nat,
{
    if is_multiplicative(tokens, at) {
        match factor(tokens, at + 1, inner) {
            Err(fault) => Err(fault),
            Ok(next) => factors(
                tokens,
                at + 1 + next.width(),
                inner,
                kids.push(leaf_at(tokens, at)).push(next),
            ),
        }
    } else {
        Ok(kids)
    }
}

/// `Term := Factor (('*'|'/') Factor)*` from index `at` on.
#[verifier::opaque]
pub open spec fn term(tokens: Seq<TokenSpec>, at: nat, depth: nat) -> Parsed
    decreases depth, remaining(tokens, at), 1nat,
{
    if depth == 0 {
        Err(too_deep(at))
    } else {
        match factor(tokens, at, (depth - 1) as nat) {
            Err(fault) => Err(fault),
            Ok(first) => match factors(
                tokens,
                at + first.width(),
                (depth - 1) as nat,
                seq![first],
            ) {
                Err(fault) => Err(fault),
                Ok(kids) => Ok(branch(SyntaxSpec::Term, kids)),
            },
        }
    }
}

/// `Expression (',' Expression)*` from index `at` on, added to `kids`. Each
/// expression may be `inner` productions deep.
#[verifier::opaque]
pub open spec fn arguments(
    tokens: Seq<TokenSpec>,
    at: nat,
    inner: nat,
    kids: Seq<NodeSpec>,
) -> ParsedList
    decreases inner + 1, remaining(tokens, at), 0nat,
{
    match expression(tokens, at, inner) {
        Err(fault) => Err(fault),
        Ok(first) => {
            let next = at + first.width();
            if is_symbol(tokens, next, Symbol::Comma) {
                arguments(tokens, next + 1, inner, kids.push(first).push(leaf_at(tokens, next)))
            } else {
                Ok(kids.push(first))
            }
        },
    }
}

/// `Factor` from index `at` on. An identifier with an opening parenthesis
/// right behind it is a call, whose argument list may be empty; any other
/// identifier is a factor by itself.
#[verifier::opaque]
pub open spec fn factor(tokens: Seq<TokenSpec>, at: nat, depth: nat) -> Parsed
    decreases depth, remaining(tokens, at), 1nat,
{
    if depth == 0 {
        Err(too_deep(at))
    } else if is_identifier(tokens, at) {
        if is_symbol(tokens, at + 1, Symbol::Lparen) {
            let head = pair(leaf_at(tokens, at), leaf_at(tokens, at + 1));
            if is_symbol(tokens, at + 2, Symbol::Rparen) {
                Ok(branch(SyntaxSpec::Factor, head.push(leaf_at(tokens, at + 2))))
            } else {
                match arguments(tokens, at + 2, (depth - 1) as nat, head) {
                    Err(fault) => Err(fault),
                    Ok(kids) => match expect(
                        tokens,
                        at + span(kids),
                        Expectation::Symbol(Symbol::Rparen),
                    ) {
                        Err(fault) => Err(fault),
                        Ok(close) => Ok(branch(SyntaxSpec::Factor, kids.push(close))),
                    },
                }
            }
        } else {
            Ok(branch(SyntaxSpec::Factor, seq![leaf_at(tokens, at)]))
        }
    } else if is_number(tokens, at) {
        Ok(branch(SyntaxSpec::Factor, seq![leaf_at(tokens, at)]))
    } else if is_symbol(tokens, at, Symbol::Lparen) {
        match expression(tokens, at + 1, (depth - 1) as nat) {
            Err(fault) => Err(fault),
            Ok(inside) => match expect(
                tokens,
                at + 1 + inside.width(),
                Expectation::Symbol(Symbol::Rparen),
            ) {
                Err(fault) => Err(fault),
                Ok(close) => Ok(
                    branch(SyntaxSpec::Factor, triple(leaf_at(tokens, at), inside, close)),
                ),
            },
        }
    } else {
        Err(unexpected(at, Expectation::Factor))
    }
}

/// `Program := Block '.'` from index `at` on.
pub open spec fn program(tokens: Seq<TokenSpec>, at: nat, depth: nat) -> Parsed {
    if depth == 0 {
        Err(too_deep(at))
    } else {
        match block(tokens, at, (depth - 1) as nat) {
            Err(fault) => Err(fault),
            Ok(body) => match expect(
                tokens,
                at + body.width(),
                Expectation::Symbol(Symbol::Period),
            ) {
                Err(fault) => Err(fault),
                Ok(period) => Ok(branch(SyntaxSpec::Program, pair(body, period))),
            },
        }
    }
}

/// A program from index `at` on that takes up all the tokens that are left.
pub open spec fn whole_program(tokens: Seq<TokenSpec>, at: nat, depth: nat) -> Parsed {
    match program(tokens, at, depth) {
        Err(fault) => Err(fault),
        Ok(tree) => expect_end(tokens, at + tree.width(), tree),
    }
}

/// `tree`, provided that no token stands at index `at`.
pub open spec fn expect_end(tokens: Seq<TokenSpec>, at: nat, tree: NodeSpec) -> Parsed {
    if meets(tokens, at, Expectation::EndOfInput) {
        Ok(tree)
    } else {
        Err(unexpected(at, Expectation::EndOfInput))
    }
}

} // verus!
