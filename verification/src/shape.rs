//! The shape of syntax trees: which children a node has for each production
//! of the grammar, stated over the children alone, without regard to how a
//! tree was built.

use vstd::prelude::*;
use crate::grammar::compares;
use crate::keyword::Keyword;
use crate::symbol::Symbol;
use crate::tokenizer::TokenSpec;
use crate::tree::{NodeSpec, SyntaxSpec};

verus! {

/// What a child of a production may be.
pub enum Role {
    /// The leaf for this reserved word.
    Word(Keyword),
    /// The leaf for this symbol.
    Mark(Symbol),
    /// The leaf for any identifier.
    Identifier,
    /// The leaf for any number.
    Number,
    /// The leaf for one of the six comparison operators.
    Relation,
    /// The leaf for `+` or `-`.
    Additive,
    /// The leaf for `*` or `/`.
    Multiplicative,
    /// A constant, variable or function declaration.
    Declaration,
    /// A tree for this production.
    Tree(SyntaxSpec),
}

/// `node` is a leaf, and its token is `token`.
pub open spec fn is_leaf(node: NodeSpec, token: TokenSpec) -> bool {
    node == NodeSpec::leaf(token)
}

/// `node` is what `role` asks for.
pub open spec fn plays(node: NodeSpec, role: Role) -> bool {
    match role {
        Role::Word(keyword) => is_leaf(node, TokenSpec::Keyword(keyword)),
        Role::Mark(symbol) => is_leaf(node, TokenSpec::Symbol(symbol)),
        Role::Identifier => {
            &&& node.children.len() == 0
            &&& node.syntax matches SyntaxSpec::Token(TokenSpec::Identifier(_))
        },
        Role::Number => {
            &&& node.children.len() == 0
            &&& node.syntax matches SyntaxSpec::Token(TokenSpec::Number(_))
        },
        Role::Relation => {
            &&& node.children.len() == 0
            &&& node.syntax matches SyntaxSpec::Token(TokenSpec::Symbol(symbol))
            &&& compares(symbol)
        },
        Role::Additive => {
            ||| is_leaf(node, TokenSpec::Symbol(Symbol::Plus))
            ||| is_leaf(node, TokenSpec::Symbol(Symbol::Minus))
        },
        Role::Multiplicative => {
            ||| is_leaf(node, TokenSpec::Symbol(Symbol::Mult))
            ||| is_leaf(node, TokenSpec::Symbol(Symbol::Div))
        },
        Role::Declaration => {
            ||| node.syntax is ConstDecl
            ||| node.syntax is VarDecl
            ||| node.syntax is FuncDecl
        },
        Role::Tree(syntax) => node.syntax == syntax && !(syntax is Token),
    }
}

/// The role of the child at index `at` in a list that starts at index
/// `from` and takes turns between `item` and `separator`.
pub open spec fn turn(at: int, from: int, item: Role, separator: Role) -> Role {
    if (at - from) % 2 == 0 {
        item
    } else {
        separator
    }
}

/// The children from index `from` up to index `to` are a list of one or
/// more `item`s with a `separator` between each two: `item (separator
/// item)*`.
pub open spec fn list_within(
    kids: Seq<NodeSpec>,
    from: int,
    to: int,
    item: Role,
    separator: Role,
) -> bool {
    &&& 0 <= from < to <= kids.len()
    &&& (to - from) % 2 == 1
    &&& forall|i: int| from <= i < to ==> plays(#[trigger] kids[i], turn(i, from, item, separator))
}

/// The children from index `from` on are the start of such a list, up to
/// and including a separator: `(item separator)*`.
pub open spec fn list_so_far(kids: Seq<NodeSpec>, from: int, item: Role, separator: Role) -> bool {
    &&& 0 <= from <= kids.len()
    &&& (kids.len() - from) % 2 == 0
    &&& forall|i: int|
        from <= i < kids.len() ==> plays(#[trigger] kids[i], turn(i, from, item, separator))
}

/// The role of the child at index `at` of a constant declaration with `len`
/// children: behind the reserved word, groups of an identifier, an equals
/// sign, a number, and a comma or, at the very end, a semicolon.
pub open spec fn constant_role(at: int, len: int) -> Role {
    if at == 0 {
        Role::Word(Keyword::Const)
    } else if (at - 1) % 4 == 0 {
        Role::Identifier
    } else if (at - 1) % 4 == 1 {
        Role::Mark(Symbol::Equal)
    } else if (at - 1) % 4 == 2 {
        Role::Number
    } else if at == len - 1 {
        Role::Mark(Symbol::SemiColon)
    } else {
        Role::Mark(Symbol::Comma)
    }
}

/// `'const' Ident '=' Number (',' Ident '=' Number)* ';'`
pub open spec fn is_const_decl(kids: Seq<NodeSpec>) -> bool {
    &&& kids.len() >= 5
    &&& (kids.len() - 1) % 4 == 0
    &&& forall|i: int|
        0 <= i < kids.len() ==> plays(#[trigger] kids[i], constant_role(i, kids.len() as int))
}

/// `'var' Ident (',' Ident)* ';'`
pub open spec fn is_var_decl(kids: Seq<NodeSpec>) -> bool {
    &&& kids.len() >= 3
    &&& plays(kids[0], Role::Word(Keyword::Var))
    &&& list_within(kids, 1, kids.len() - 1, Role::Identifier, Role::Mark(Symbol::Comma))
    &&& plays(kids.last(), Role::Mark(Symbol::SemiColon))
}

/// `'function' Ident '(' (Ident (',' Ident)*)? ')' Block ';'`
pub open spec fn is_func_decl(kids: Seq<NodeSpec>) -> bool {
    &&& kids.len() >= 6
    &&& plays(kids[0], Role::Word(Keyword::Func))
    &&& plays(kids[1], Role::Identifier)
    &&& plays(kids[2], Role::Mark(Symbol::Lparen))
    &&& kids.len() == 6 || list_within(
        kids,
        3,
        kids.len() - 3,
        Role::Identifier,
        Role::Mark(Symbol::Comma),
    )
    &&& plays(kids[kids.len() - 3], Role::Mark(Symbol::Rparen))
    &&& plays(kids[kids.len() - 2], Role::Tree(SyntaxSpec::Block))
    &&& plays(kids[kids.len() - 1], Role::Mark(Symbol::SemiColon))
}

/// `(ConstDecl | VarDecl | FuncDecl)* Statement`
pub open spec fn is_block(kids: Seq<NodeSpec>) -> bool {
    &&& kids.len() >= 1
    &&& forall|i: int| 0 <= i < kids.len() - 1 ==> plays(#[trigger] kids[i], Role::Declaration)
    &&& plays(kids.last(), Role::Tree(SyntaxSpec::Statement))
}

/// One of the eight forms of a statement.
pub open spec fn is_statement(kids: Seq<NodeSpec>) -> bool {
    ||| kids.len() == 0
    ||| {
        &&& kids.len() == 1
        &&& plays(kids[0], Role::Word(Keyword::WriteLn))
    }
    ||| {
        &&& kids.len() == 2
        &&& plays(kids[0], Role::Word(Keyword::Ret)) || plays(kids[0], Role::Word(Keyword::Write))
        &&& plays(kids[1], Role::Tree(SyntaxSpec::Expression))
    }
    ||| {
        &&& kids.len() == 3
        &&& plays(kids[0], Role::Identifier)
        &&& plays(kids[1], Role::Mark(Symbol::Assign))
        &&& plays(kids[2], Role::Tree(SyntaxSpec::Expression))
    }
    ||| {
        &&& kids.len() == 4
        &&& plays(kids[0], Role::Word(Keyword::If))
        &&& plays(kids[1], Role::Tree(SyntaxSpec::Condition))
        &&& plays(kids[2], Role::Word(Keyword::Then))
        &&& plays(kids[3], Role::Tree(SyntaxSpec::Statement))
    }
    ||| {
        &&& kids.len() == 4
        &&& plays(kids[0], Role::Word(Keyword::While))
        &&& plays(kids[1], Role::Tree(SyntaxSpec::Condition))
        &&& plays(kids[2], Role::Word(Keyword::Do))
        &&& plays(kids[3], Role::Tree(SyntaxSpec::Statement))
    }
    ||| {
        &&& kids.len() >= 3
        &&& plays(kids[0], Role::Word(Keyword::Begin))
        &&& list_within(
            kids,
            1,
            kids.len() - 1,
            Role::Tree(SyntaxSpec::Statement),
            Role::Mark(Symbol::SemiColon),
        )
        &&& plays(kids.last(), Role::Word(Keyword::End))
    }
}

/// `'odd' Expression | Expression RelOp Expression`
pub open spec fn is_condition(kids: Seq<NodeSpec>) -> bool {
    ||| {
        &&& kids.len() == 2
        &&& plays(kids[0], Role::Word(Keyword::Odd))
        &&& plays(kids[1], Role::Tree(SyntaxSpec::Expression))
    }
    ||| {
        &&& kids.len() == 3
        &&& plays(kids[0], Role::Tree(SyntaxSpec::Expression))
        &&& plays(kids[1], Role::Relation)
        &&& plays(kids[2], Role::Tree(SyntaxSpec::Expression))
    }
}

/// `('+'|'-')? Term (('+'|'-') Term)*`
pub open spec fn is_expression(kids: Seq<NodeSpec>) -> bool {
    ||| list_within(kids, 0, kids.len() as int, Role::Tree(SyntaxSpec::Term), Role::Additive)
    ||| {
        &&& kids.len() >= 2
        &&& plays(kids[0], Role::Additive)
        &&& list_within(kids, 1, kids.len() as int, Role::Tree(SyntaxSpec::Term), Role::Additive)
    }
}

/// `Factor (('*'|'/') Factor)*`
pub open spec fn is_term(kids: Seq<NodeSpec>) -> bool {
    list_within(kids, 0, kids.len() as int, Role::Tree(SyntaxSpec::Factor), Role::Multiplicative)
}

/// `Ident | Number | '(' Expression ')' | Ident '(' ')' | Ident '('
/// Expression (',' Expression)* ')'`
pub open spec fn is_factor(kids: Seq<NodeSpec>) -> bool {
    ||| {
        &&& kids.len() == 1
        &&& plays(kids[0], Role::Identifier) || plays(kids[0], Role::Number)
    }
    ||| {
        &&& kids.len() == 3
        &&& plays(kids[0], Role::Mark(Symbol::Lparen))
        &&& plays(kids[1], Role::Tree(SyntaxSpec::Expression))
        &&& plays(kids[2], Role::Mark(Symbol::Rparen))
    }
    ||| {
        &&& kids.len() == 3
        &&& plays(kids[0], Role::Identifier)
        &&& plays(kids[1], Role::Mark(Symbol::Lparen))
        &&& plays(kids[2], Role::Mark(Symbol::Rparen))
    }
    ||| {
        &&& kids.len() >= 4
        &&& plays(kids[0], Role::Identifier)
        &&& plays(kids[1], Role::Mark(Symbol::Lparen))
        &&& list_within(
            kids,
            2,
            kids.len() - 1,
            Role::Tree(SyntaxSpec::Expression),
            Role::Mark(Symbol::Comma),
        )
        &&& plays(kids.last(), Role::Mark(Symbol::Rparen))
    }
}

/// `Block '.'`
pub open spec fn is_program(kids: Seq<NodeSpec>) -> bool {
    &&& kids.len() == 2
    &&& plays(kids[0], Role::Tree(SyntaxSpec::Block))
    &&& plays(kids[1], Role::Mark(Symbol::Period))
}

/// The children of `node` are those that the grammar gives to what `node`
/// stands for; a node that wraps a token has none.
pub open spec fn has_shape(node: NodeSpec) -> bool {
    match node.syntax {
        SyntaxSpec::Program => is_program(node.children),
        SyntaxSpec::Block => is_block(node.children),
        SyntaxSpec::ConstDecl => is_const_decl(node.children),
        SyntaxSpec::VarDecl => is_var_decl(node.children),
        SyntaxSpec::FuncDecl => is_func_decl(node.children),
        SyntaxSpec::Statement => is_statement(node.children),
        SyntaxSpec::Condition => is_condition(node.children),
        SyntaxSpec::Expression => is_expression(node.children),
        SyntaxSpec::Term => is_term(node.children),
        SyntaxSpec::Factor => is_factor(node.children),
        SyntaxSpec::Token(_) => node.children.len() == 0,
    }
}

/// Every node of the tree has the children that the grammar gives it.
pub open spec fn conforms(node: NodeSpec) -> bool
    decreases node,
{
    &&& has_shape(node)
    &&& forall|i: int| 0 <= i < node.children.len() ==> conforms(#[trigger] node.children[i])
}

/// All of `kids` conform to the grammar.
pub open spec fn all_conform(kids: Seq<NodeSpec>) -> bool {
    forall|i: int| 0 <= i < kids.len() ==> conforms(#[trigger] kids[i])
}

/// A tree that conforms to the grammar is well formed.
pub proof fn lemma_conforming_is_well_formed(node: NodeSpec)
    requires
        conforms(node),
    ensures
        node.well_formed(),
    decreases node,
{
    let kids = node.children;
    assert forall|i: int| 0 <= i < kids.len() implies (#[trigger] kids[i]).well_formed() by {
        lemma_conforming_is_well_formed(kids[i]);
    }
}

} // verus!
