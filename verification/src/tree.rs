//! The concrete syntax tree.

use vstd::prelude::*;
use crate::shape::conforms;
use crate::tokenizer::{token_views, Token, TokenSpec};

verus! {

/// What a node of the syntax tree stands for: one of the productions of the
/// grammar, or a single token.
#[derive(Clone, Debug, PartialEq, Eq)]
pub enum Syntax {
    Program,
    Block,
    ConstDecl,
    VarDecl,
    FuncDecl,
    Statement,
    Condition,
    Expression,
    Term,
    Factor,
    Token(Token),
}

/// `Syntax` as a mathematical value.
pub enum SyntaxSpec {
    Program,
    Block,
    ConstDecl,
    VarDecl,
    FuncDecl,
    Statement,
    Condition,
    Expression,
    Term,
    Factor,
    Token(TokenSpec),
}

impl View for Syntax {
    type V = SyntaxSpec;

    open spec fn view(&self) -> SyntaxSpec {
        match self {
            Syntax::Program => SyntaxSpec::Program,
            Syntax::Block => SyntaxSpec::Block,
            Syntax::ConstDecl => SyntaxSpec::ConstDecl,
            Syntax::VarDecl => SyntaxSpec::VarDecl,
            Syntax::FuncDecl => SyntaxSpec::FuncDecl,
            Syntax::Statement => SyntaxSpec::Statement,
            Syntax::Condition => SyntaxSpec::Condition,
            Syntax::Expression => SyntaxSpec::Expression,
            Syntax::Term => SyntaxSpec::Term,
            Syntax::Factor => SyntaxSpec::Factor,
            Syntax::Token(token) => SyntaxSpec::Token(token@),
        }
    }
}

/// A syntax tree as a mathematical value: what the node stands for and its
/// children from left to right.
pub struct NodeSpec {
    pub syntax: SyntaxSpec,
    pub children: Seq<NodeSpec>,
}

/// The tokens at the leaves of `nodes`, from left to right.
pub open spec fn tokens_of(nodes: Seq<NodeSpec>) -> Seq<TokenSpec>
    decreases nodes,
{
    if nodes.len() == 0 {
        Seq::empty()
    } else {
        tokens_of(nodes.drop_last()) + nodes.last().tokens()
    }
}

/// One more than the greatest height among `nodes`, or zero if there are
/// none.
pub open spec fn height_over(nodes: Seq<NodeSpec>) -> nat
    decreases nodes,
{
    if nodes.len() == 0 {
        0
    } else {
        let rest = height_over(nodes.drop_last());
        let last = nodes.last().height() + 1;
        if rest >= last {
            rest
        } else {
            last
        }
    }
}

impl NodeSpec {
    /// A node that wraps one token.
    pub open spec fn leaf(token: TokenSpec) -> NodeSpec {
        NodeSpec { syntax: SyntaxSpec::Token(token), children: Seq::empty() }
    }

    /// The tokens at the leaves of the tree, from left to right.
    pub open spec fn tokens(self) -> Seq<TokenSpec>
        decreases self,
    {
        match self.syntax {
            SyntaxSpec::Token(token) => seq![token],
            _ => tokens_of(self.children),
        }
    }

    /// The number of tokens at the leaves of the tree.
    pub open spec fn width(self) -> nat {
        self.tokens().len()
    }

    /// The number of nodes on the longest path from this node down to a
    /// leaf, this node not counted.
    pub open spec fn height(self) -> nat
        decreases self,
    {
        height_over(self.children)
    }

    /// A node that wraps a token has no children, a node that stands for any
    /// production but `Statement` has at least one child, and the same holds
    /// of all children.
    pub open spec fn well_formed(self) -> bool
        decreases self,
    {
        &&& self.syntax is Token ==> self.children.len() == 0
        &&& !(self.syntax is Token) && !(self.syntax is Statement) ==> self.children.len() > 0
        &&& forall|i: int|
            0 <= i < self.children.len() ==> (#[trigger] self.children[i]).well_formed()
    }
}

/// One node of the syntax tree. It owns its children.
#[derive(Debug, PartialEq, Eq)]
pub struct SyntaxNode {
    syntax: Syntax,
    children: Vec<SyntaxNode>,
}

impl View for SyntaxNode {
    type V = NodeSpec;

    closed spec fn view(&self) -> NodeSpec {
        self.model()
    }
}

impl SyntaxNode {
    /// The tree below this node as a mathematical value.
    closed spec fn model(&self) -> NodeSpec
        decreases self,
    {
        NodeSpec {
            syntax: self.syntax@,
            children: Seq::new(
                self.children@.len(),
                |i: int|
                    if 0 <= i < self.children@.len() {
                        self.children@[i].model()
                    } else {
                        arbitrary()
                    },
            ),
        }
    }

    /// A node without children.
    pub fn new(syntax: Syntax) -> (node: SyntaxNode)
        ensures
            node@ == (NodeSpec { syntax: syntax@, children: Seq::empty() }),
    {
        let node = SyntaxNode { syntax, children: Vec::new() };
        assert(node@.children =~= Seq::empty());
        node
    }

    /// What the node stands for.
    pub fn get_ref_syntax(&self) -> (syntax: &Syntax)
        ensures
            syntax@ == self@.syntax,
    {
        &self.syntax
    }

    /// Adds `child` behind the children that the node has.
    pub fn append_child(&mut self, child: SyntaxNode)
        ensures
            final(self)@ == (NodeSpec {
                syntax: old(self)@.syntax,
                children: old(self)@.children.push(child@),
            }),
    {
        self.children.push(child);
        assert(self@.children =~= old(self)@.children.push(child@));
    }

    /// Whether the node has any children.
    pub fn has_child(&self) -> (any: bool)
        ensures
            any == (self@.children.len() > 0),
    {
        !self.children.is_empty()
    }

    /// Adds the tokens at the leaves of the tree, from left to right, to the
    /// end of `out`.
    fn collect_leaves(&self, out: &mut Vec<Token>)
        ensures
            token_views(final(out)@) == token_views(old(out)@) + self@.tokens(),
        decreases self,
    {
        match &self.syntax {
            Syntax::Token(token) => {
                out.push(token.clone());
            },
            _ => {
                let mut i: usize = 0;
                while i < self.children.len()
                    invariant
                        i <= self.children.len(),
                        token_views(out@) == token_views(old(out)@) + tokens_of(
                            self@.children.subrange(0, i as int),
                        ),
                    decreases self.children.len() - i,
                {
                    self.children[i].collect_leaves(out);
                    assert(self@.children.subrange(0, i + 1).drop_last()
                        =~= self@.children.subrange(0, i as int));
                    i += 1;
                }
                assert(self@.children.subrange(0, i as int) =~= self@.children);
            },
        }
    }

    /// The tokens at the leaves of the tree, from left to right.
    pub fn leaves(&self) -> (tokens: Vec<Token>)
        ensures
            token_views(tokens@) == self@.tokens(),
    {
        let mut tokens: Vec<Token> = Vec::new();
        self.collect_leaves(&mut tokens);
        tokens
    }

    /// The children from left to right.
    pub fn get_ref_children(&self) -> (children: &Vec<SyntaxNode>)
        ensures
            children@.len() == self@.children.len(),
            forall|i: int|
                0 <= i < children@.len() ==> (#[trigger] children@[i])@ == self@.children[i],
    {
        &self.children
    }
}

/// A whole syntax tree. It owns its root, which stands for a program.
#[derive(Debug, PartialEq, Eq)]
pub struct SyntaxTree {
    root: SyntaxNode,
}

impl View for SyntaxTree {
    type V = NodeSpec;

    closed spec fn view(&self) -> NodeSpec {
        self.root@
    }
}

impl SyntaxTree {
    /// The root stands for a program, and every node has the children that
    /// the grammar gives it.
    pub open spec fn wf(&self) -> bool {
        &&& self@.syntax is Program
        &&& conforms(self@)
    }

    /// The tree below `root`.
    pub fn new(root: SyntaxNode) -> (tree: SyntaxTree)
        requires
            root@.syntax is Program,
            conforms(root@),
        ensures
            tree@ == root@,
            tree.wf(),
    {
        SyntaxTree { root }
    }

    /// The tokens at the leaves of the tree, from left to right.
    pub fn leaves(&self) -> (tokens: Vec<Token>)
        ensures
            token_views(tokens@) == self@.tokens(),
    {
        self.root.leaves()
    }

    /// The root of the tree.
    pub fn get_ref_root(&self) -> (root: &SyntaxNode)
        ensures
            root@ == self@,
    {
        &self.root
    }
}

} // verus!
