//! Trees over a token sequence: which tokens the leaves of a tree are, how
//! high a tree is, and how both come about from the children of a node.

use vstd::prelude::*;
use crate::grammar::{branch, declaration, leaf_at, span};
use crate::tokenizer::TokenSpec;
use crate::tree::{height_over, tokens_of, NodeSpec, SyntaxSpec};

verus! {

/// The tokens from index `from` up to index `to`.
pub open spec fn between(tokens: Seq<TokenSpec>, from: nat, to: nat) -> Seq<TokenSpec> {
    tokens.subrange(from as int, to as int)
}

/// `tree` is no higher than `depth`, and its leaves are the tokens from
/// index `from` on, as many as it has leaves.
#[verifier::opaque]
pub open spec fn spans(tree: NodeSpec, tokens: Seq<TokenSpec>, from: nat, depth: nat) -> bool {
    &&& tree.height() <= depth
    &&& from + tree.width() <= tokens.len()
    &&& tree.tokens() == between(tokens, from, from + tree.width())
}

/// `kids` are each no higher than `inner`, and their leaves taken together
/// are the tokens from index `from` on.
#[verifier::opaque]
pub open spec fn cover(kids: Seq<NodeSpec>, tokens: Seq<TokenSpec>, from: nat, inner: nat) -> bool {
    &&& height_over(kids) <= inner + 1
    &&& from + span(kids) <= tokens.len()
    &&& tokens_of(kids) == between(tokens, from, from + span(kids))
}

/// The leaves of a sequence of trees with one more tree at its end.
pub proof fn lemma_tokens_of_push(kids: Seq<NodeSpec>, last: NodeSpec)
    ensures
        tokens_of(kids.push(last)) == tokens_of(kids) + last.tokens(),
        span(kids.push(last)) == span(kids) + last.width(),
{
    assert(kids.push(last).drop_last() =~= kids);
}

/// The height over a sequence of trees with one more tree at its end.
pub proof fn lemma_height_over_push(kids: Seq<NodeSpec>, last: NodeSpec)
    ensures
        height_over(kids.push(last)) == if height_over(kids) >= last.height() + 1 {
            height_over(kids)
        } else {
            last.height() + 1
        },
{
    assert(kids.push(last).drop_last() =~= kids);
}

/// The leaves of two sequences of trees, one behind the other.
pub proof fn lemma_tokens_of_concat(front: Seq<NodeSpec>, back: Seq<NodeSpec>)
    ensures
        tokens_of(front + back) == tokens_of(front) + tokens_of(back),
        span(front + back) == span(front) + span(back),
    decreases back.len(),
{
    if back.len() > 0 {
        lemma_tokens_of_concat(front, back.drop_last());
        assert((front + back).drop_last() =~= front + back.drop_last());
    }
}

/// The height over two sequences of trees, one behind the other.
pub proof fn lemma_height_over_concat(front: Seq<NodeSpec>, back: Seq<NodeSpec>)
    ensures
        height_over(front + back) == if height_over(front) >= height_over(back) {
            height_over(front)
        } else {
            height_over(back)
        },
    decreases back.len(),
{
    if back.len() > 0 {
        lemma_height_over_concat(front, back.drop_last());
        assert((front + back).drop_last() =~= front + back.drop_last());
    }
}

/// A leaf in front of a sequence of trees adds one token to their leaves.
pub proof fn lemma_span_behind_leaf(kids: Seq<NodeSpec>)
    requires
        kids.len() > 0,
        kids[0].syntax is Token,
    ensures
        span(kids) == 1 + span(kids.drop_first()),
        kids == seq![kids[0]] + kids.drop_first(),
{
    let first = seq![kids[0]];
    assert(first.drop_last() =~= Seq::<NodeSpec>::empty());
    assert(tokens_of(Seq::<NodeSpec>::empty()) =~= Seq::<TokenSpec>::empty());
    assert(tokens_of(first) =~= kids[0].tokens());
    assert(kids =~= first + kids.drop_first());
    lemma_tokens_of_concat(first, kids.drop_first());
}

/// A declaration has one leaf more than what follows its reserved word.
pub proof fn lemma_declaration_width(syntax: SyntaxSpec, keyword: TokenSpec, rest: Seq<NodeSpec>)
    requires
        !(syntax is Token),
    ensures
        declaration(syntax, keyword, rest).width() == 1 + span(rest),
{
    let kids = seq![NodeSpec::leaf(keyword)] + rest;
    assert(kids.drop_first() =~= rest);
    lemma_span_behind_leaf(kids);
}

/// No trees cover no tokens.
pub proof fn lemma_cover_empty(tokens: Seq<TokenSpec>, from: nat, inner: nat)
    requires
        from <= tokens.len(),
    ensures
        cover(Seq::empty(), tokens, from, inner),
        span(Seq::empty()) == 0,
{
    reveal(cover);
    assert(tokens_of(Seq::empty()) =~= between(tokens, from, from));
}

/// The leaf for a token spans that token.
pub proof fn lemma_leaf_spans(tokens: Seq<TokenSpec>, at: nat, depth: nat)
    requires
        at < tokens.len(),
    ensures
        spans(leaf_at(tokens, at), tokens, at, depth),
        leaf_at(tokens, at).width() == 1,
{
    reveal(spans);
    assert(leaf_at(tokens, at).tokens() =~= between(tokens, at, at + 1));
}

/// Trees that cover the tokens up to where `last` starts cover, with `last`
/// behind them, the tokens up to where `last` ends.
pub proof fn lemma_cover_push(
    kids: Seq<NodeSpec>,
    last: NodeSpec,
    tokens: Seq<TokenSpec>,
    from: nat,
    inner: nat,
)
    requires
        cover(kids, tokens, from, inner),
        spans(last, tokens, from + span(kids), inner),
    ensures
        cover(kids.push(last), tokens, from, inner),
        span(kids.push(last)) == span(kids) + last.width(),
{
    reveal(spans);
    reveal(cover);
    lemma_tokens_of_push(kids, last);
    lemma_height_over_push(kids, last);
    assert(tokens_of(kids.push(last)) =~= between(tokens, from, from + span(kids) + last.width()));
}

/// Trees that cover the tokens up to index `at` cover, with the leaf for the
/// token at `at` behind them, one token more.
pub proof fn lemma_cover_leaf(
    kids: Seq<NodeSpec>,
    tokens: Seq<TokenSpec>,
    from: nat,
    inner: nat,
)
    requires
        cover(kids, tokens, from, inner),
        from + span(kids) < tokens.len(),
    ensures
        cover(kids.push(leaf_at(tokens, from + span(kids))), tokens, from, inner),
        span(kids.push(leaf_at(tokens, from + span(kids)))) == span(kids) + 1,
{
    lemma_leaf_spans(tokens, from + span(kids), inner);
    lemma_cover_push(kids, leaf_at(tokens, from + span(kids)), tokens, from, inner);
}

/// A production over children that cover some tokens spans those tokens.
pub proof fn lemma_node_spans(
    syntax: SyntaxSpec,
    kids: Seq<NodeSpec>,
    tokens: Seq<TokenSpec>,
    from: nat,
    inner: nat,
)
    requires
        cover(kids, tokens, from, inner),
        !(syntax is Token),
    ensures
        spans(branch(syntax, kids), tokens, from, inner + 1),
        branch(syntax, kids).width() == span(kids),
{
    reveal(spans);
    reveal(cover);
}

/// A leaf has one token.
pub proof fn lemma_leaf_width(token: TokenSpec)
    ensures
        NodeSpec::leaf(token).width() == 1,
        NodeSpec::leaf(token).height() == 0,
{
}

/// A production has the leaves of its children.
pub proof fn lemma_branch_width(syntax: SyntaxSpec, kids: Seq<NodeSpec>)
    requires
        !(syntax is Token),
    ensures
        branch(syntax, kids).width() == span(kids),
{
}

/// A declaration spans the token of its reserved word and the tokens that
/// what follows the word covers.
pub proof fn lemma_declaration_spans(
    syntax: SyntaxSpec,
    tokens: Seq<TokenSpec>,
    at: nat,
    rest: Seq<NodeSpec>,
    inner: nat,
)
    requires
        !(syntax is Token),
        at < tokens.len(),
        cover(rest, tokens, at + 1, inner),
    ensures
        spans(declaration(syntax, tokens[at as int], rest), tokens, at, inner + 1),
        declaration(syntax, tokens[at as int], rest).width() == 1 + span(rest),
{
    reveal(spans);
    reveal(cover);
    let first = seq![leaf_at(tokens, at)];
    lemma_tokens_of_push(Seq::empty(), leaf_at(tokens, at));
    lemma_height_over_push(Seq::empty(), leaf_at(tokens, at));
    lemma_leaf_width(tokens[at as int]);
    lemma_tokens_of_concat(first, rest);
    lemma_height_over_concat(first, rest);
    assert(tokens_of(first + rest) =~= between(tokens, at, at + 1 + span(rest)));
}

/// Trees that cover tokens from index `from` on end within the tokens.
pub proof fn lemma_cover_bound(kids: Seq<NodeSpec>, tokens: Seq<TokenSpec>, from: nat, inner: nat)
    requires
        cover(kids, tokens, from, inner),
    ensures
        from + span(kids) <= tokens.len(),
{
    reveal(cover);
}

/// What it is for a tree to span tokens.
pub proof fn lemma_spans(tree: NodeSpec, tokens: Seq<TokenSpec>, from: nat, depth: nat)
    requires
        spans(tree, tokens, from, depth),
    ensures
        tree.height() <= depth,
        from + tree.width() <= tokens.len(),
        tree.tokens() == between(tokens, from, from + tree.width()),
{
    reveal(spans);
}

} // verus!
