//! What holds of every tree that the grammar yields: at each of its nodes it
//! has the children that the production of that node asks for, its leaves
//! are the tokens it was made from, and it is no higher than productions
//! were allowed to nest.

use vstd::prelude::*;
use crate::derivation::{
    cover, lemma_cover_bound, lemma_cover_empty, lemma_cover_leaf, lemma_cover_push,
    lemma_declaration_spans, lemma_node_spans, lemma_spans, spans,
};
use crate::grammar::{
    arguments, block, branch, condition, const_rest, constants, declaration, declarations, expect,
    expression, factor, factors, func_rest, is_additive, is_identifier, is_keyword,
    is_multiplicative, is_number, is_symbol, leaf_at, names, pair, parameters, program, quadruple,
    remaining, sequence, span, statement, term, terms, triple, var_rest, variables, whole_program,
    Expectation,
};
use crate::keyword::Keyword;
use crate::shape::{
    all_conform, conforms, constant_role, has_shape, list_so_far, list_within, plays, Role,
};
use crate::symbol::Symbol;
use crate::tokenizer::TokenSpec;
use crate::tree::{NodeSpec, SyntaxSpec};

verus! {

/// The role that the leaf for an expected token plays.
pub open spec fn role_of(expected: Expectation) -> Role {
    match expected {
        Expectation::Keyword(keyword) => Role::Word(keyword),
        Expectation::Symbol(symbol) => Role::Mark(symbol),
        Expectation::Identifier => Role::Identifier,
        Expectation::Number => Role::Number,
        Expectation::Relation => Role::Relation,
        Expectation::Factor => Role::Identifier,
        Expectation::EndOfInput => Role::Identifier,
    }
}

/// `tree` stands for `syntax`, conforms to the grammar, is no higher than
/// `depth`, and its leaves are the tokens from index `at` on.
pub open spec fn sound(
    tree: NodeSpec,
    syntax: SyntaxSpec,
    tokens: Seq<TokenSpec>,
    at: nat,
    depth: nat,
) -> bool {
    &&& tree.syntax == syntax
    &&& conforms(tree)
    &&& spans(tree, tokens, at, depth)
}

/// `kids` all conform to the grammar, none is higher than `inner`, and their
/// leaves taken together are the tokens from index `from` on.
pub open spec fn sound_all(
    kids: Seq<NodeSpec>,
    tokens: Seq<TokenSpec>,
    from: nat,
    inner: nat,
) -> bool {
    &&& all_conform(kids)
    &&& cover(kids, tokens, from, inner)
}

/// No trees are sound.
pub proof fn lemma_sound_empty(tokens: Seq<TokenSpec>, from: nat, inner: nat)
    requires
        from <= tokens.len(),
    ensures
        sound_all(Seq::empty(), tokens, from, inner),
        span(Seq::<NodeSpec>::empty()) == 0,
{
    lemma_cover_empty(tokens, from, inner);
}

/// Sound trees stay sound with the leaf for the next token behind them.
pub proof fn lemma_sound_leaf(kids: Seq<NodeSpec>, tokens: Seq<TokenSpec>, from: nat, inner: nat)
    requires
        sound_all(kids, tokens, from, inner),
        from + span(kids) < tokens.len(),
    ensures
        sound_all(kids.push(leaf_at(tokens, from + span(kids))), tokens, from, inner),
        span(kids.push(leaf_at(tokens, from + span(kids)))) == span(kids) + 1,
{
    lemma_cover_leaf(kids, tokens, from, inner);
}

/// Sound trees stay sound with a sound tree for the next tokens behind
/// them.
pub proof fn lemma_sound_push(
    kids: Seq<NodeSpec>,
    last: NodeSpec,
    tokens: Seq<TokenSpec>,
    from: nat,
    inner: nat,
)
    requires
        sound_all(kids, tokens, from, inner),
        conforms(last),
        spans(last, tokens, from + span(kids), inner),
    ensures
        sound_all(kids.push(last), tokens, from, inner),
        span(kids.push(last)) == span(kids) + last.width(),
        from + span(kids.push(last)) <= tokens.len(),
{
    lemma_cover_push(kids, last, tokens, from, inner);
    lemma_cover_bound(kids.push(last), tokens, from, inner);
}

/// A production over sound children that has the shape the grammar gives
/// it is sound.
pub proof fn lemma_sound_node(
    syntax: SyntaxSpec,
    kids: Seq<NodeSpec>,
    tokens: Seq<TokenSpec>,
    from: nat,
    inner: nat,
)
    requires
        sound_all(kids, tokens, from, inner),
        !(syntax is Token),
        has_shape(branch(syntax, kids)),
    ensures
        sound(branch(syntax, kids), syntax, tokens, from, inner + 1),
        branch(syntax, kids).width() == span(kids),
{
    lemma_node_spans(syntax, kids, tokens, from, inner);
}

/// The leaf for an expected token plays the role of that token.
pub proof fn lemma_expected_plays(tokens: Seq<TokenSpec>, at: nat, expected: Expectation)
    requires
        !(expected is Factor),
        !(expected is EndOfInput),
    ensures
        expect(tokens, at, expected) matches Ok(leaf) ==> {
            &&& leaf == leaf_at(tokens, at)
            &&& plays(leaf, role_of(expected))
            &&& conforms(leaf)
            &&& at < tokens.len()
        },
{
}

/// A whole list stays one when a tree that is no part of it is put behind
/// it.
pub proof fn lemma_list_closed(
    kids: Seq<NodeSpec>,
    from: int,
    to: int,
    item: Role,
    separator: Role,
    last: NodeSpec,
)
    requires
        list_within(kids, from, to, item, separator),
    ensures
        list_within(kids.push(last), from, to, item, separator),
{
}

/// All conform when a tree that conforms is put in front of trees that
/// conform.
pub proof fn lemma_all_conform_behind(first: NodeSpec, kids: Seq<NodeSpec>)
    requires
        conforms(first),
        all_conform(kids),
    ensures
        all_conform(seq![first] + kids),
{
}

/// What follows the reserved word of a constant declaration is groups of an
/// identifier, an equals sign and a number, a comma behind each but the
/// last and a semicolon behind that; and it is sound.
pub proof fn lemma_constants(
    tokens: Seq<TokenSpec>,
    at: nat,
    kids: Seq<NodeSpec>,
    start: nat,
    inner: nat,
)
    requires
        kids.len() % 4 == 0,
        forall|j: int| 0 <= j < kids.len() ==> plays(#[trigger] kids[j], constant_role(j + 1, 0)),
        sound_all(kids, tokens, start, inner),
        at == start + span(kids),
    ensures
        constants(tokens, at, kids) matches Ok(out) ==> {
            &&& out.len() >= 4
            &&& out.len() % 4 == 0
            &&& forall|j: int|
                0 <= j < out.len() ==> plays(
                    #[trigger] out[j],
                    constant_role(j + 1, out.len() as int + 1),
                )
            &&& sound_all(out, tokens, start, inner)
        },
    decreases remaining(tokens, at),
{
    reveal(constants);
    if constants(tokens, at, kids) is Ok {
        let name = leaf_at(tokens, at);
        let equal = leaf_at(tokens, at + 1);
        let value = leaf_at(tokens, at + 2);
        let last = leaf_at(tokens, at + 3);
        let group = kids.push(name).push(equal).push(value);
        let grown = group.push(last);
        lemma_sound_leaf(kids, tokens, start, inner);
        lemma_sound_leaf(kids.push(name), tokens, start, inner);
        lemma_sound_leaf(kids.push(name).push(equal), tokens, start, inner);
        lemma_sound_leaf(group, tokens, start, inner);
        if is_symbol(tokens, at + 3, Symbol::Comma) {
            lemma_constants(tokens, at + 4, grown, start, inner);
        }
    }
}

/// A constant declaration is sound.
pub proof fn lemma_const_decl(tokens: Seq<TokenSpec>, at: nat, depth: nat)
    requires
        is_keyword(tokens, at, Keyword::Const),
    ensures
        const_rest(tokens, at, depth) matches Ok(rest) ==> {
            &&& sound(
                declaration(SyntaxSpec::ConstDecl, tokens[at as int], rest),
                SyntaxSpec::ConstDecl,
                tokens,
                at,
                depth,
            )
            &&& declaration(SyntaxSpec::ConstDecl, tokens[at as int], rest).width() == 1 + span(
                rest,
            )
        },
{
    if let Ok(rest) = const_rest(tokens, at, depth) {
        let inner = (depth - 1) as nat;
        lemma_sound_empty(tokens, at + 1, inner);
        lemma_constants(tokens, at + 1, Seq::empty(), at + 1, inner);
        let first = NodeSpec::leaf(tokens[at as int]);
        lemma_all_conform_behind(first, rest);
        lemma_declaration_spans(SyntaxSpec::ConstDecl, tokens, at, rest, inner);
    }
}

/// What follows the reserved word of a variable declaration is a list of
/// identifiers and a semicolon, and it is sound.
pub proof fn lemma_variables(
    tokens: Seq<TokenSpec>,
    at: nat,
    kids: Seq<NodeSpec>,
    start: nat,
    inner: nat,
)
    requires
        list_so_far(kids, 0, Role::Identifier, Role::Mark(Symbol::Comma)),
        sound_all(kids, tokens, start, inner),
        at == start + span(kids),
    ensures
        variables(tokens, at, kids) matches Ok(out) ==> {
            &&& out.len() >= 2
            &&& list_within(out, 0, out.len() - 1, Role::Identifier, Role::Mark(Symbol::Comma))
            &&& plays(out.last(), Role::Mark(Symbol::SemiColon))
            &&& sound_all(out, tokens, start, inner)
        },
    decreases remaining(tokens, at),
{
    reveal(variables);
    if variables(tokens, at, kids) is Ok {
        let name = leaf_at(tokens, at);
        let last = leaf_at(tokens, at + 1);
        lemma_sound_leaf(kids, tokens, start, inner);
        lemma_sound_leaf(kids.push(name), tokens, start, inner);
        if is_symbol(tokens, at + 1, Symbol::Comma) {
            lemma_variables(tokens, at + 2, kids.push(name).push(last), start, inner);
        }
    }
}

/// A variable declaration is sound.
pub proof fn lemma_var_decl(tokens: Seq<TokenSpec>, at: nat, depth: nat)
    requires
        is_keyword(tokens, at, Keyword::Var),
    ensures
        var_rest(tokens, at, depth) matches Ok(rest) ==> {
            &&& sound(
                declaration(SyntaxSpec::VarDecl, tokens[at as int], rest),
                SyntaxSpec::VarDecl,
                tokens,
                at,
                depth,
            )
            &&& declaration(SyntaxSpec::VarDecl, tokens[at as int], rest).width() == 1 + span(rest)
        },
{
    if let Ok(rest) = var_rest(tokens, at, depth) {
        let inner = (depth - 1) as nat;
        lemma_sound_empty(tokens, at + 1, inner);
        lemma_variables(tokens, at + 1, Seq::empty(), at + 1, inner);
        let first = NodeSpec::leaf(tokens[at as int]);
        lemma_all_conform_behind(first, rest);
        lemma_declaration_spans(SyntaxSpec::VarDecl, tokens, at, rest, inner);
    }
}

/// The names of parameters are a list of identifiers behind what stood
/// before them, and all is sound.
pub proof fn lemma_names(
    tokens: Seq<TokenSpec>,
    at: nat,
    kids: Seq<NodeSpec>,
    from: int,
    start: nat,
    inner: nat,
)
    requires
        list_so_far(kids, from, Role::Identifier, Role::Mark(Symbol::Comma)),
        sound_all(kids, tokens, start, inner),
        at == start + span(kids),
    ensures
        names(tokens, at, kids) matches Ok(out) ==> {
            &&& out.len() > kids.len()
            &&& list_within(
                out,
                from,
                out.len() as int,
                Role::Identifier,
                Role::Mark(Symbol::Comma),
            )
            &&& forall|i: int| 0 <= i < from ==> out[i] == kids[i]
            &&& sound_all(out, tokens, start, inner)
        },
    decreases remaining(tokens, at),
{
    reveal(names);
    if names(tokens, at, kids) is Ok {
        let name = leaf_at(tokens, at);
        let comma = leaf_at(tokens, at + 1);
        lemma_sound_leaf(kids, tokens, start, inner);
        if is_symbol(tokens, at + 1, Symbol::Comma) {
            lemma_sound_leaf(kids.push(name), tokens, start, inner);
            lemma_names(tokens, at + 2, kids.push(name).push(comma), from, start, inner);
        }
    }
}

/// A function declaration is sound.
pub proof fn lemma_func_decl(tokens: Seq<TokenSpec>, at: nat, depth: nat)
    requires
        is_keyword(tokens, at, Keyword::Func),
    ensures
        func_rest(tokens, at, depth) matches Ok(rest) ==> {
            &&& sound(
                declaration(SyntaxSpec::FuncDecl, tokens[at as int], rest),
                SyntaxSpec::FuncDecl,
                tokens,
                at,
                depth,
            )
            &&& declaration(SyntaxSpec::FuncDecl, tokens[at as int], rest).width() == 1 + span(rest)
        },
    decreases depth, remaining(tokens, at), 1nat,
{
    reveal(func_rest);
    reveal(block);
    if let Ok(rest) = func_rest(tokens, at, depth) {
        let inner = (depth - 1) as nat;
        let name = leaf_at(tokens, at + 1);
        let open = leaf_at(tokens, at + 2);
        let head = pair(name, open);
        lemma_sound_empty(tokens, at + 1, inner);
        lemma_sound_leaf(Seq::empty(), tokens, at + 1, inner);
        lemma_sound_leaf(Seq::empty().push(name), tokens, at + 1, inner);
        lemma_names(tokens, at + 3, head, 2, at + 1, inner);
        let kids = parameters(tokens, at + 3, head)->Ok_0;
        let close_at = at + 1 + span(kids);
        let close = leaf_at(tokens, close_at);
        lemma_sound_leaf(kids, tokens, at + 1, inner);
        lemma_block(tokens, close_at + 1, inner);
        let body = block(tokens, close_at + 1, inner)->Ok_0;
        lemma_sound_push(kids.push(close), body, tokens, at + 1, inner);
        lemma_sound_leaf(kids.push(close).push(body), tokens, at + 1, inner);
        let first = NodeSpec::leaf(tokens[at as int]);
        let all = seq![first] + rest;
        lemma_all_conform_behind(first, rest);
        lemma_declaration_spans(SyntaxSpec::FuncDecl, tokens, at, rest, inner);
    }
}

/// Declarations behind declarations are declarations, and all are sound.
pub proof fn lemma_declarations(
    tokens: Seq<TokenSpec>,
    at: nat,
    inner: nat,
    kids: Seq<NodeSpec>,
    start: nat,
)
    requires
        forall|i: int| 0 <= i < kids.len() ==> plays(#[trigger] kids[i], Role::Declaration),
        sound_all(kids, tokens, start, inner),
        at == start + span(kids),
    ensures
        declarations(tokens, at, inner, kids) matches Ok(out) ==> {
            &&& forall|i: int| 0 <= i < out.len() ==> plays(#[trigger] out[i], Role::Declaration)
            &&& sound_all(out, tokens, start, inner)
        },
    decreases inner + 1, remaining(tokens, at), 0nat,
{
    reveal(declarations);
    reveal(func_rest);
    if declarations(tokens, at, inner, kids) is Ok {
        if is_keyword(tokens, at, Keyword::Const) {
            lemma_const_decl(tokens, at, inner);
            let rest = const_rest(tokens, at, inner)->Ok_0;
            let next = declaration(SyntaxSpec::ConstDecl, tokens[at as int], rest);
            lemma_sound_push(kids, next, tokens, start, inner);
            lemma_declarations(tokens, at + 1 + span(rest), inner, kids.push(next), start);
        } else if is_keyword(tokens, at, Keyword::Var) {
            lemma_var_decl(tokens, at, inner);
            let rest = var_rest(tokens, at, inner)->Ok_0;
            let next = declaration(SyntaxSpec::VarDecl, tokens[at as int], rest);
            lemma_sound_push(kids, next, tokens, start, inner);
            lemma_declarations(tokens, at + 1 + span(rest), inner, kids.push(next), start);
        } else if is_keyword(tokens, at, Keyword::Func) {
            lemma_func_decl(tokens, at, inner);
            let rest = func_rest(tokens, at, inner)->Ok_0;
            let next = declaration(SyntaxSpec::FuncDecl, tokens[at as int], rest);
            lemma_sound_push(kids, next, tokens, start, inner);
            lemma_declarations(tokens, at + 1 + span(rest), inner, kids.push(next), start);
        }
    }
}

/// A block is sound.
pub proof fn lemma_block(tokens: Seq<TokenSpec>, at: nat, depth: nat)
    requires
        at <= tokens.len(),
    ensures
        block(tokens, at, depth) matches Ok(tree) ==> sound(
            tree,
            SyntaxSpec::Block,
            tokens,
            at,
            depth,
        ),
    decreases depth, remaining(tokens, at), 1nat,
{
    reveal(block);
    reveal(declarations);
    if let Ok(tree) = block(tokens, at, depth) {
        let inner = (depth - 1) as nat;
        lemma_sound_empty(tokens, at, inner);
        lemma_declarations(tokens, at, inner, Seq::empty(), at);
        let kids = declarations(tokens, at, inner, Seq::empty())->Ok_0;
        lemma_cover_bound(kids, tokens, at, inner);
        lemma_statement(tokens, at + span(kids), inner);
        let body = statement(tokens, at + span(kids), inner)->Ok_0;
        lemma_sound_push(kids, body, tokens, at, inner);
        let all = kids.push(body);
        lemma_sound_node(SyntaxSpec::Block, all, tokens, at, inner);
    }
}

/// Statements behind what stood before them are a list of statements with
/// semicolons between, and all are sound.
pub proof fn lemma_sequence(
    tokens: Seq<TokenSpec>,
    at: nat,
    inner: nat,
    kids: Seq<NodeSpec>,
    from: int,
    start: nat,
)
    requires
        list_so_far(kids, from, Role::Tree(SyntaxSpec::Statement), Role::Mark(Symbol::SemiColon)),
        sound_all(kids, tokens, start, inner),
        at == start + span(kids),
        at <= tokens.len(),
    ensures
        sequence(tokens, at, inner, kids) matches Ok(out) ==> {
            &&& out.len() > kids.len()
            &&& list_within(
                out,
                from,
                out.len() as int,
                Role::Tree(SyntaxSpec::Statement),
                Role::Mark(Symbol::SemiColon),
            )
            &&& forall|i: int| 0 <= i < from ==> out[i] == kids[i]
            &&& sound_all(out, tokens, start, inner)
        },
    decreases inner + 1, remaining(tokens, at), 0nat,
{
    reveal(sequence);
    reveal(statement);
    if sequence(tokens, at, inner, kids) is Ok {
        lemma_statement(tokens, at, inner);
        let first = statement(tokens, at, inner)->Ok_0;
        let next = at + first.width();
        let mark = leaf_at(tokens, next);
        lemma_sound_push(kids, first, tokens, start, inner);
        if is_symbol(tokens, next, Symbol::SemiColon) {
            lemma_sound_leaf(kids.push(first), tokens, start, inner);
            lemma_sequence(tokens, next + 1, inner, kids.push(first).push(mark), from, start);
        }
    }
}

/// An assignment is sound.
pub proof fn lemma_assignment(tokens: Seq<TokenSpec>, at: nat, depth: nat)
    requires
        depth > 0,
        is_identifier(tokens, at),
    ensures
        statement(tokens, at, depth) matches Ok(tree) ==> sound(
            tree,
            SyntaxSpec::Statement,
            tokens,
            at,
            depth,
        ),
    decreases depth, remaining(tokens, at), 0nat,
{
    reveal(statement);
    if let Ok(tree) = statement(tokens, at, depth) {
        let inner = (depth - 1) as nat;
        let first = leaf_at(tokens, at);
        lemma_sound_empty(tokens, at, inner);
        lemma_expression(tokens, at + 2, inner);
        let value = expression(tokens, at + 2, inner)->Ok_0;
        lemma_sound_leaf(Seq::empty(), tokens, at, inner);
        lemma_sound_leaf(Seq::empty().push(first), tokens, at, inner);
        lemma_sound_push(pair(first, leaf_at(tokens, at + 1)), value, tokens, at, inner);
        lemma_sound_node(
            SyntaxSpec::Statement,
            triple(first, leaf_at(tokens, at + 1), value),
            tokens,
            at,
            inner,
        );
    }
}

/// A compound statement is sound.
pub proof fn lemma_compound(tokens: Seq<TokenSpec>, at: nat, depth: nat)
    requires
        depth > 0,
        is_keyword(tokens, at, Keyword::Begin),
    ensures
        statement(tokens, at, depth) matches Ok(tree) ==> sound(
            tree,
            SyntaxSpec::Statement,
            tokens,
            at,
            depth,
        ),
    decreases depth, remaining(tokens, at), 0nat,
{
    reveal(statement);
    reveal(sequence);
    if let Ok(tree) = statement(tokens, at, depth) {
        let inner = (depth - 1) as nat;
        let first = leaf_at(tokens, at);
        lemma_sound_empty(tokens, at, inner);
        lemma_sound_leaf(Seq::empty(), tokens, at, inner);
        lemma_sequence(tokens, at + 1, inner, seq![first], 1, at);
        let kids = sequence(tokens, at + 1, inner, seq![first])->Ok_0;
        let end = leaf_at(tokens, at + span(kids));
        lemma_sound_leaf(kids, tokens, at, inner);
        lemma_sound_node(SyntaxSpec::Statement, kids.push(end), tokens, at, inner);
    }
}

/// A statement that a condition guards is sound.
pub proof fn lemma_guarded(tokens: Seq<TokenSpec>, at: nat, depth: nat)
    requires
        depth > 0,
        is_keyword(tokens, at, Keyword::If) || is_keyword(tokens, at, Keyword::While),
    ensures
        statement(tokens, at, depth) matches Ok(tree) ==> sound(
            tree,
            SyntaxSpec::Statement,
            tokens,
            at,
            depth,
        ),
    decreases depth, remaining(tokens, at), 0nat,
{
    reveal(statement);
    if let Ok(tree) = statement(tokens, at, depth) {
        let inner = (depth - 1) as nat;
        let first = leaf_at(tokens, at);
        lemma_sound_empty(tokens, at, inner);
        lemma_condition(tokens, at + 1, inner);
        let test = condition(tokens, at + 1, inner)->Ok_0;
        lemma_sound_leaf(Seq::empty(), tokens, at, inner);
        lemma_sound_push(seq![first], test, tokens, at, inner);
        let word = leaf_at(tokens, at + 1 + test.width());
        lemma_sound_leaf(pair(first, test), tokens, at, inner);
        lemma_statement(tokens, at + 2 + test.width(), inner);
        let body = statement(tokens, at + 2 + test.width(), inner)->Ok_0;
        lemma_sound_push(triple(first, test, word), body, tokens, at, inner);
        lemma_sound_node(
            SyntaxSpec::Statement,
            quadruple(first, test, word, body),
            tokens,
            at,
            inner,
        );
    }
}

/// A statement that hands on the value of an expression is sound.
pub proof fn lemma_output(tokens: Seq<TokenSpec>, at: nat, depth: nat)
    requires
        depth > 0,
        is_keyword(tokens, at, Keyword::Ret) || is_keyword(tokens, at, Keyword::Write),
    ensures
        statement(tokens, at, depth) matches Ok(tree) ==> sound(
            tree,
            SyntaxSpec::Statement,
            tokens,
            at,
            depth,
        ),
    decreases depth, remaining(tokens, at), 0nat,
{
    reveal(statement);
    if let Ok(tree) = statement(tokens, at, depth) {
        let inner = (depth - 1) as nat;
        let first = leaf_at(tokens, at);
        lemma_sound_empty(tokens, at, inner);
        lemma_expression(tokens, at + 1, inner);
        let value = expression(tokens, at + 1, inner)->Ok_0;
        lemma_sound_leaf(Seq::empty(), tokens, at, inner);
        lemma_sound_push(seq![first], value, tokens, at, inner);
        lemma_sound_node(SyntaxSpec::Statement, pair(first, value), tokens, at, inner);
    }
}

/// A statement is sound.
pub proof fn lemma_statement(tokens: Seq<TokenSpec>, at: nat, depth: nat)
    requires
        at <= tokens.len(),
    ensures
        statement(tokens, at, depth) matches Ok(tree) ==> sound(
            tree,
            SyntaxSpec::Statement,
            tokens,
            at,
            depth,
        ),
    decreases depth, remaining(tokens, at), 1nat,
{
    reveal(statement);
    if let Ok(tree) = statement(tokens, at, depth) {
        let inner = (depth - 1) as nat;
        if is_identifier(tokens, at) {
            lemma_assignment(tokens, at, depth);
        } else if is_keyword(tokens, at, Keyword::Begin) {
            lemma_compound(tokens, at, depth);
        } else if is_keyword(tokens, at, Keyword::If) || is_keyword(tokens, at, Keyword::While) {
            lemma_guarded(tokens, at, depth);
        } else if is_keyword(tokens, at, Keyword::Ret) || is_keyword(tokens, at, Keyword::Write) {
            lemma_output(tokens, at, depth);
        } else if is_keyword(tokens, at, Keyword::WriteLn) {
            lemma_sound_empty(tokens, at, inner);
            lemma_sound_leaf(Seq::empty(), tokens, at, inner);
            lemma_sound_node(SyntaxSpec::Statement, seq![leaf_at(tokens, at)], tokens, at, inner);
        } else {
            lemma_sound_empty(tokens, at, inner);
            lemma_sound_node(SyntaxSpec::Statement, Seq::empty(), tokens, at, inner);
        }
    }
}

/// A condition is sound.
pub proof fn lemma_condition(tokens: Seq<TokenSpec>, at: nat, depth: nat)
    requires
        at <= tokens.len(),
    ensures
        condition(tokens, at, depth) matches Ok(tree) ==> sound(
            tree,
            SyntaxSpec::Condition,
            tokens,
            at,
            depth,
        ),
    decreases depth, remaining(tokens, at), 1nat,
{
    reveal(condition);
    if let Ok(tree) = condition(tokens, at, depth) {
        let inner = (depth - 1) as nat;
        lemma_sound_empty(tokens, at, inner);
        if is_keyword(tokens, at, Keyword::Odd) {
            let first = leaf_at(tokens, at);
            lemma_expression(tokens, at + 1, inner);
            let value = expression(tokens, at + 1, inner)->Ok_0;
            lemma_sound_leaf(Seq::empty(), tokens, at, inner);
            lemma_sound_push(seq![first], value, tokens, at, inner);
            lemma_sound_node(SyntaxSpec::Condition, pair(first, value), tokens, at, inner);
        } else {
            lemma_expression(tokens, at, inner);
            let lhs = expression(tokens, at, inner)->Ok_0;
            lemma_sound_push(Seq::empty(), lhs, tokens, at, inner);
            let relation = leaf_at(tokens, at + lhs.width());
            lemma_sound_leaf(seq![lhs], tokens, at, inner);
            lemma_expression(tokens, at + lhs.width() + 1, inner);
            let rhs = expression(tokens, at + lhs.width() + 1, inner)->Ok_0;
            lemma_sound_push(pair(lhs, relation), rhs, tokens, at, inner);
            lemma_sound_node(SyntaxSpec::Condition, triple(lhs, relation, rhs), tokens, at, inner);
        }
    }
}

/// Terms behind a list of terms are a list of terms with signs between, and
/// all are sound.
pub proof fn lemma_terms(
    tokens: Seq<TokenSpec>,
    at: nat,
    inner: nat,
    kids: Seq<NodeSpec>,
    from: int,
    start: nat,
)
    requires
        list_within(kids, from, kids.len() as int, Role::Tree(SyntaxSpec::Term), Role::Additive),
        sound_all(kids, tokens, start, inner),
        at == start + span(kids),
    ensures
        terms(tokens, at, inner, kids) matches Ok(out) ==> {
            &&& list_within(
                out,
                from,
                out.len() as int,
                Role::Tree(SyntaxSpec::Term),
                Role::Additive,
            )
            &&& forall|i: int| 0 <= i < from ==> out[i] == kids[i]
            &&& sound_all(out, tokens, start, inner)
        },
    decreases inner + 1, remaining(tokens, at), 0nat,
{
    reveal(terms);
    reveal(term);
    if terms(tokens, at, inner, kids) is Ok {
        if is_additive(tokens, at) {
            lemma_term(tokens, at + 1, inner);
            let sign = leaf_at(tokens, at);
            let next = term(tokens, at + 1, inner)->Ok_0;
            lemma_sound_leaf(kids, tokens, start, inner);
            lemma_sound_push(kids.push(sign), next, tokens, start, inner);
            lemma_terms(
                tokens,
                at + 1 + next.width(),
                inner,
                kids.push(sign).push(next),
                from,
                start,
            );
        }
    }
}

/// An expression is sound.
pub proof fn lemma_expression(tokens: Seq<TokenSpec>, at: nat, depth: nat)
    requires
        at <= tokens.len(),
    ensures
        expression(tokens, at, depth) matches Ok(tree) ==> sound(
            tree,
            SyntaxSpec::Expression,
            tokens,
            at,
            depth,
        ),
    decreases depth, remaining(tokens, at), 1nat,
{
    reveal(expression);
    reveal(terms);
    reveal(term);
    if let Ok(tree) = expression(tokens, at, depth) {
        let inner = (depth - 1) as nat;
        let sign: Seq<NodeSpec> = if is_additive(tokens, at) {
            seq![leaf_at(tokens, at)]
        } else {
            Seq::empty()
        };
        let from = sign.len() as int;
        lemma_sound_empty(tokens, at, inner);
        if is_additive(tokens, at) {
            lemma_sound_leaf(Seq::empty(), tokens, at, inner);
        }
        lemma_term(tokens, at + span(sign), inner);
        let first = term(tokens, at + span(sign), inner)->Ok_0;
        lemma_sound_push(sign, first, tokens, at, inner);
        lemma_terms(tokens, at + span(sign) + first.width(), inner, sign.push(first), from, at);
        let kids = terms(tokens, at + span(sign) + first.width(), inner, sign.push(first))->Ok_0;
        lemma_sound_node(SyntaxSpec::Expression, kids, tokens, at, inner);
    }
}

/// Factors behind a list of factors are a list of factors with operators
/// between, and all are sound.
pub proof fn lemma_factors(
    tokens: Seq<TokenSpec>,
    at: nat,
    inner: nat,
    kids: Seq<NodeSpec>,
    start: nat,
)
    requires
        list_within(
            kids,
            0,
            kids.len() as int,
            Role::Tree(SyntaxSpec::Factor),
            Role::Multiplicative,
        ),
        sound_all(kids, tokens, start, inner),
        at == start + span(kids),
    ensures
        factors(tokens, at, inner, kids) matches Ok(out) ==> {
            &&& list_within(
                out,
                0,
                out.len() as int,
                Role::Tree(SyntaxSpec::Factor),
                Role::Multiplicative,
            )
            &&& sound_all(out, tokens, start, inner)
        },
    decreases inner + 1, remaining(tokens, at), 0nat,
{
    reveal(factors);
    reveal(factor);
    if factors(tokens, at, inner, kids) is Ok {
        if is_multiplicative(tokens, at) {
            lemma_factor(tokens, at + 1, inner);
            let operator = leaf_at(tokens, at);
            let next = factor(tokens, at + 1, inner)->Ok_0;
            lemma_sound_leaf(kids, tokens, start, inner);
            lemma_sound_push(kids.push(operator), next, tokens, start, inner);
            lemma_factors(
                tokens,
                at + 1 + next.width(),
                inner,
                kids.push(operator).push(next),
                start,
            );
        }
    }
}

/// A term is sound.
pub proof fn lemma_term(tokens: Seq<TokenSpec>, at: nat, depth: nat)
    requires
        at <= tokens.len(),
    ensures
        term(tokens, at, depth) matches Ok(tree) ==> sound(
            tree,
            SyntaxSpec::Term,
            tokens,
            at,
            depth,
        ),
    decreases depth, remaining(tokens, at), 1nat,
{
    reveal(term);
    reveal(factors);
    reveal(factor);
    if let Ok(tree) = term(tokens, at, depth) {
        let inner = (depth - 1) as nat;
        lemma_factor(tokens, at, inner);
        let first = factor(tokens, at, inner)->Ok_0;
        lemma_sound_empty(tokens, at, inner);
        lemma_sound_push(Seq::empty(), first, tokens, at, inner);
        lemma_factors(tokens, at + first.width(), inner, seq![first], at);
        let kids = factors(tokens, at + first.width(), inner, seq![first])->Ok_0;
        lemma_sound_node(SyntaxSpec::Term, kids, tokens, at, inner);
    }
}

/// Expressions behind what stood before them are a list of expressions with
/// commas between, and all are sound.
pub proof fn lemma_arguments(
    tokens: Seq<TokenSpec>,
    at: nat,
    inner: nat,
    kids: Seq<NodeSpec>,
    from: int,
    start: nat,
)
    requires
        list_so_far(kids, from, Role::Tree(SyntaxSpec::Expression), Role::Mark(Symbol::Comma)),
        sound_all(kids, tokens, start, inner),
        at == start + span(kids),
        at <= tokens.len(),
    ensures
        arguments(tokens, at, inner, kids) matches Ok(out) ==> {
            &&& out.len() > kids.len()
            &&& list_within(
                out,
                from,
                out.len() as int,
                Role::Tree(SyntaxSpec::Expression),
                Role::Mark(Symbol::Comma),
            )
            &&& forall|i: int| 0 <= i < from ==> out[i] == kids[i]
            &&& sound_all(out, tokens, start, inner)
        },
    decreases inner + 1, remaining(tokens, at), 0nat,
{
    reveal(arguments);
    reveal(expression);
    if arguments(tokens, at, inner, kids) is Ok {
        lemma_expression(tokens, at, inner);
        let first = expression(tokens, at, inner)->Ok_0;
        let next = at + first.width();
        let comma = leaf_at(tokens, next);
        lemma_sound_push(kids, first, tokens, start, inner);
        if is_symbol(tokens, next, Symbol::Comma) {
            lemma_sound_leaf(kids.push(first), tokens, start, inner);
            lemma_arguments(tokens, next + 1, inner, kids.push(first).push(comma), from, start);
        }
    }
}

/// A factor is sound.
pub proof fn lemma_factor(tokens: Seq<TokenSpec>, at: nat, depth: nat)
    requires
        at <= tokens.len(),
    ensures
        factor(tokens, at, depth) matches Ok(tree) ==> sound(
            tree,
            SyntaxSpec::Factor,
            tokens,
            at,
            depth,
        ),
    decreases depth, remaining(tokens, at), 1nat,
{
    reveal(factor);
    reveal(arguments);
    reveal(expression);
    if let Ok(tree) = factor(tokens, at, depth) {
        let inner = (depth - 1) as nat;
        let first = leaf_at(tokens, at);
        lemma_sound_empty(tokens, at, inner);
        lemma_sound_leaf(Seq::empty(), tokens, at, inner);
        if is_identifier(tokens, at) {
            if is_symbol(tokens, at + 1, Symbol::Lparen) {
                let open = leaf_at(tokens, at + 1);
                let head = pair(first, open);
                lemma_sound_leaf(seq![first], tokens, at, inner);
                if is_symbol(tokens, at + 2, Symbol::Rparen) {
                    lemma_sound_leaf(head, tokens, at, inner);
                    lemma_sound_node(
                        SyntaxSpec::Factor,
                        head.push(leaf_at(tokens, at + 2)),
                        tokens,
                        at,
                        inner,
                    );
                } else {
                    lemma_arguments(tokens, at + 2, inner, head, 2, at);
                    let kids = arguments(tokens, at + 2, inner, head)->Ok_0;
                    lemma_expected_plays(
                        tokens,
                        at + span(kids),
                        Expectation::Symbol(Symbol::Rparen),
                    );
                    let close = leaf_at(tokens, at + span(kids));
                    lemma_sound_leaf(kids, tokens, at, inner);
                    lemma_list_closed(
                        kids,
                        2,
                        kids.len() as int,
                        Role::Tree(SyntaxSpec::Expression),
                        Role::Mark(Symbol::Comma),
                        close,
                    );
                    let all = kids.push(close);
                    lemma_sound_node(SyntaxSpec::Factor, all, tokens, at, inner);
                }
            } else {
                lemma_sound_node(SyntaxSpec::Factor, seq![first], tokens, at, inner);
            }
        } else if is_number(tokens, at) {
            lemma_sound_node(SyntaxSpec::Factor, seq![first], tokens, at, inner);
        } else if is_symbol(tokens, at, Symbol::Lparen) {
            lemma_expression(tokens, at + 1, inner);
            let inside = expression(tokens, at + 1, inner)->Ok_0;
            lemma_sound_push(seq![first], inside, tokens, at, inner);
            lemma_expected_plays(
                tokens,
                at + 1 + inside.width(),
                Expectation::Symbol(Symbol::Rparen),
            );
            let close = leaf_at(tokens, at + 1 + inside.width());
            lemma_sound_leaf(pair(first, inside), tokens, at, inner);
            lemma_sound_node(SyntaxSpec::Factor, triple(first, inside, close), tokens, at, inner);
        }
    }
}

/// A program is sound: every tree that the grammar yields for a token
/// sequence conforms to the grammar, is no higher than productions were
/// allowed to nest, and its leaves are the tokens from where it starts on.
pub proof fn lemma_program(tokens: Seq<TokenSpec>, at: nat, depth: nat)
    requires
        at <= tokens.len(),
    ensures
        program(tokens, at, depth) matches Ok(tree) ==> sound(
            tree,
            SyntaxSpec::Program,
            tokens,
            at,
            depth,
        ),
{
    if let Ok(tree) = program(tokens, at, depth) {
        let inner = (depth - 1) as nat;
        lemma_block(tokens, at, inner);
        let body = block(tokens, at, inner)->Ok_0;
        lemma_sound_empty(tokens, at, inner);
        lemma_sound_push(Seq::empty(), body, tokens, at, inner);
        lemma_expected_plays(tokens, at + body.width(), Expectation::Symbol(Symbol::Period));
        let period = leaf_at(tokens, at + body.width());
        lemma_sound_leaf(seq![body], tokens, at, inner);
        lemma_sound_node(SyntaxSpec::Program, pair(body, period), tokens, at, inner);
    }
}

/// A whole program conforms to the grammar, is no higher than productions
/// were allowed to nest, and its leaves are exactly the tokens from where it
/// starts to the last.
pub proof fn lemma_whole_program(tokens: Seq<TokenSpec>, at: nat, depth: nat)
    requires
        at <= tokens.len(),
    ensures
        whole_program(tokens, at, depth) matches Ok(tree) ==> {
            &&& tree.syntax == SyntaxSpec::Program
            &&& conforms(tree)
            &&& tree.height() <= depth
            &&& tree.tokens() == tokens.skip(at as int)
        },
{
    lemma_program(tokens, at, depth);
    if let Ok(tree) = whole_program(tokens, at, depth) {
        lemma_spans(tree, tokens, at, depth);
    }
}

} // verus!
