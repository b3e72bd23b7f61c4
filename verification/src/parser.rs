//! The recursive-descent parser.

use vstd::prelude::*;
use crate::derivation::{
    lemma_branch_width, lemma_declaration_width, lemma_leaf_width, lemma_span_behind_leaf,
    lemma_spans, lemma_tokens_of_push,
};
use crate::grammar::{
    arguments, block, branch, carries, condition, const_rest, constants, declaration, declarations,
    declared, expect, expression, factor, factors, func_rest, is_identifier, is_keyword, is_symbol,
    leaf_at, meets, names, parameters, production, program, sequence, span, statement, term, terms,
    var_rest, variables, whole_program, Expectation, Fault, FaultKind, Parsed,
};
use crate::keyword::Keyword;
use crate::layout::same_but_for_layout;
use crate::position::{position_at, Position};
use crate::scan::lemma_scan_bounds;
use crate::shape::{conforms, lemma_conforming_is_well_formed};
use crate::soundness::{lemma_program, lemma_whole_program};
use crate::stream::{
    lemma_same_texts_same_tokens, lemma_stream_step, lexemes_from, tail, tail_from, tokens,
    tokens_from, Lexeme, Tail,
};
use crate::symbol::Symbol;
use crate::tokenizer::{Token, Tokenizer, TokenizerError, TokenSpec};
use crate::tree::{NodeSpec, Syntax, SyntaxNode, SyntaxSpec, SyntaxTree};

verus! {

/// The depth to which productions may be nested unless the parser is told
/// otherwise.
pub const DEFAULT_MAX_DEPTH: usize = 512;

/// Why a source text is no program. Every error names the place where the
/// parser gave up.
#[derive(Debug, PartialEq, Eq)]
pub enum ParserError {
    /// The input ended where the grammar asks for `expected`.
    ReachedEOF { expected: Expectation, at: Position },
    /// The program is complete, and `found` stands behind it.
    ExpectedEOF { found: Token, at: Position },
    /// `found` stands where the grammar asks for `expected`.
    UnexpectedToken { expected: Expectation, found: Token, at: Position },
    /// The tokenizer failed on what starts at `at`.
    Lexical { error: TokenizerError, at: Position },
    /// At `at`, productions are nested deeper than the parser may go.
    TooDeep { at: Position },
}

/// `ParserError` as a mathematical value.
pub enum ParserErrorSpec {
    ReachedEOF { expected: Expectation, at: Position },
    ExpectedEOF { found: TokenSpec, at: Position },
    UnexpectedToken { expected: Expectation, found: TokenSpec, at: Position },
    Lexical { error: TokenizerError, at: Position },
    TooDeep { at: Position },
}

impl View for ParserError {
    type V = ParserErrorSpec;

    open spec fn view(&self) -> ParserErrorSpec {
        match self {
            ParserError::ReachedEOF { expected, at } => ParserErrorSpec::ReachedEOF {
                expected: *expected,
                at: *at,
            },
            ParserError::ExpectedEOF { found, at } => ParserErrorSpec::ExpectedEOF {
                found: found@,
                at: *at,
            },
            ParserError::UnexpectedToken {
                expected,
                found,
                at,
            } => ParserErrorSpec::UnexpectedToken { expected: *expected, found: found@, at: *at },
            ParserError::Lexical { error, at } => ParserErrorSpec::Lexical {
                error: *error,
                at: *at,
            },
            ParserError::TooDeep { at } => ParserErrorSpec::TooDeep { at: *at },
        }
    }
}

/// The error that the parser reports for `fault` when its tokens are those
/// read from offset `origin` of `source` on. Where a token stands at the
/// fault, the error names it and its place. Where none does, the tokens ran
/// out: if that is because the tokenizer failed, the error is that failure,
/// whatever the parser was looking for; otherwise the input has ended.
#[verifier::opaque]
pub open spec fn error_of(source: Seq<u8>, origin: nat, fault: Fault) -> ParserErrorSpec {
    let lexemes = lexemes_from(source, origin);
    if fault.at < lexemes.len() {
        let found = lexemes[fault.at as int];
        let at = position_at(source, found.start);
        match fault.kind {
            FaultKind::Expected(Expectation::EndOfInput) => ParserErrorSpec::ExpectedEOF {
                found: found.token,
                at,
            },
            FaultKind::Expected(expected) => ParserErrorSpec::UnexpectedToken {
                expected,
                found: found.token,
                at,
            },
            FaultKind::TooDeep => ParserErrorSpec::TooDeep { at },
        }
    } else {
        match tail_from(source, origin) {
            Tail::Fail { error, at } => ParserErrorSpec::Lexical {
                error,
                at: position_at(source, at),
            },
            Tail::End => {
                let at = position_at(source, source.len());
                match fault.kind {
                    FaultKind::Expected(expected) => ParserErrorSpec::ReachedEOF { expected, at },
                    FaultKind::TooDeep => ParserErrorSpec::TooDeep { at },
                }
            },
        }
    }
}

/// What parsing yields when the tokens are those read from offset `origin`
/// of `source` on, the first `at` of them are left out, and productions may
/// be nested `max_depth` deep: the tree of the program that the remaining
/// tokens make up, or the error that tells why they make up none. A failure
/// of the tokenizer is an error even where the tokens before it make up a
/// program.
pub open spec fn parse_outcome(source: Seq<u8>, origin: nat, at: nat, max_depth: nat) -> Result<
    NodeSpec,
    ParserErrorSpec,
> {
    match whole_program(tokens_from(source, origin), at, max_depth) {
        Err(fault) => Err(error_of(source, origin, fault)),
        Ok(tree) => match tail_from(source, origin) {
            Tail::End => Ok(tree),
            Tail::Fail { error, at } => Err(
                ParserErrorSpec::Lexical { error, at: position_at(source, at) },
            ),
        },
    }
}

/// The syntax tree of a program stands for a program, conforms to the
/// grammar at every node and is no higher than productions may be nested;
/// its leaves are exactly the tokens of the source text, in their order; and
/// the tokenizer has read the source text to its end.
pub proof fn lemma_tree_of_program(source: Seq<u8>, max_depth: nat)
    ensures
        parse_outcome(source, 0, 0, max_depth) matches Ok(tree) ==> {
            &&& tree.syntax is Program
            &&& conforms(tree)
            &&& tree.well_formed()
            &&& tree.height() <= max_depth
            &&& tree.tokens() == tokens(source)
            &&& tail(source) is End
        },
{
    lemma_whole_program(tokens(source), 0, max_depth);
    if let Ok(tree) = parse_outcome(source, 0, 0, max_depth) {
        lemma_conforming_is_well_formed(tree);
    }
}

/// Two source texts that differ in nothing but the spaces and comments
/// between their tokens are programs or not together, and if they are, they
/// have the same syntax tree.
pub proof fn lemma_layout_invariance(a: Seq<u8>, b: Seq<u8>, max_depth: nat)
    requires
        same_but_for_layout(a, b),
    ensures
        parse_outcome(a, 0, 0, max_depth) is Ok <==> parse_outcome(b, 0, 0, max_depth) is Ok,
        parse_outcome(a, 0, 0, max_depth) matches Ok(tree) ==> parse_outcome(b, 0, 0, max_depth)
            == Ok::<NodeSpec, ParserErrorSpec>(tree),
{
    lemma_same_texts_same_tokens(a, b);
}

/// The syntax tree of a source text depends on its tokens alone, not on the
/// bytes that spell them nor on where they stand.
pub proof fn lemma_tree_depends_on_tokens(a: Seq<u8>, b: Seq<u8>, max_depth: nat)
    requires
        tokens(a) == tokens(b),
        tail(a) is End,
        tail(b) is End,
    ensures
        parse_outcome(a, 0, 0, max_depth) is Ok <==> parse_outcome(b, 0, 0, max_depth) is Ok,
        parse_outcome(a, 0, 0, max_depth) matches Ok(tree) ==> parse_outcome(b, 0, 0, max_depth)
            == Ok::<NodeSpec, ParserErrorSpec>(tree),
{
}

/// A source text on which the tokenizer fails is no program, however far
/// the tokens before the failure go.
pub proof fn lemma_failure_is_an_error(source: Seq<u8>, origin: nat, at: nat, max_depth: nat)
    requires
        tail_from(source, origin) matches Tail::Fail { .. },
    ensures
        parse_outcome(source, origin, at, max_depth) is Err,
{
}

/// A parser over the tokens of one tokenizer. It looks one token ahead: the
/// token at hand is read as soon as the one before it is taken, and nothing
/// else reads from the tokenizer.
pub struct Parser {
    tokenizer: Tokenizer,
    current: Result<Token, TokenizerError>,
    max_depth: usize,
    origin: Ghost<nat>,
    consumed: Ghost<nat>,
}

impl Parser {
    /// The bytes of the source text.
    pub closed spec fn source(&self) -> Seq<u8> {
        self.tokenizer.source()
    }

    /// The offset from which the parser's tokens are read.
    pub closed spec fn origin(&self) -> nat {
        self.origin@
    }

    /// The number of tokens that the parser has taken so far.
    pub closed spec fn consumed(&self) -> nat {
        self.consumed@
    }

    /// The depth to which productions may be nested.
    pub closed spec fn max_depth(&self) -> usize {
        self.max_depth
    }

    /// The parser's tokens, taken or not.
    pub open spec fn tokens(&self) -> Seq<TokenSpec> {
        tokens_from(self.source(), self.origin())
    }

    /// The parser reads the same tokens under the same limit as `other`.
    pub open spec fn same_input(&self, other: &Parser) -> bool {
        &&& self.source() == other.source()
        &&& self.origin() == other.origin()
        &&& self.max_depth() == other.max_depth()
    }

    /// The token at hand is the first that has not been taken, and the
    /// tokenizer stands right behind it; if there is no token at hand, all
    /// have been taken, and what the tokenizer returned instead is how the
    /// token stream ends.
    #[verifier::opaque]
    pub closed spec fn wf(&self) -> bool {
        let source = self.tokenizer.source();
        let lexemes = lexemes_from(source, self.origin@);
        let taken = self.consumed@ as int;
        &&& self.tokenizer.wf()
        &&& match self.current {
            Ok(token) => {
                &&& taken < lexemes.len()
                &&& lexemes[taken] == Lexeme {
                    token: token@,
                    start: self.tokenizer.token_start().offset as nat,
                    end: self.tokenizer.cursor().offset as nat,
                }
                &&& lexemes_from(source, self.tokenizer.cursor().offset as nat) == lexemes.skip(
                    taken + 1,
                )
                &&& tail_from(source, self.tokenizer.cursor().offset as nat) == tail_from(
                    source,
                    self.origin@,
                )
            },
            Err(error) => {
                &&& taken == lexemes.len()
                &&& if error == TokenizerError::ReachedEOF {
                    &&& tail_from(source, self.origin@) == Tail::End
                    &&& self.tokenizer.token_start().offset == source.len()
                } else {
                    tail_from(source, self.origin@) == Tail::Fail {
                        error,
                        at: self.tokenizer.token_start().offset as nat,
                    }
                }
            },
        }
    }

    /// What a production owes its caller, where `self` is the parser behind
    /// the production, `before` the parser in front of it, `res` what the
    /// production returned and `expected` what the grammar yields from the
    /// first token that `before` had not taken: the same tree, with as many
    /// tokens taken as it has leaves, or the error for the same fault.
    spec fn produced(
        &self,
        before: &Parser,
        res: Result<SyntaxNode, ParserError>,
        expected: Parsed,
    ) -> bool {
        &&& self.wf()
        &&& self.same_input(before)
        &&& match expected {
            Ok(tree) => {
                &&& res matches Ok(built)
                &&& built@ == tree
                &&& self.consumed() == before.consumed() + tree.width()
            },
            Err(fault) => {
                &&& res matches Err(error)
                &&& error@ == error_of(before.source(), before.origin(), fault)
            },
        }
    }

    /// A parser over what `tokenizer` has not read yet, with the default
    /// limit on nesting.
    pub fn new(tokenizer: Tokenizer) -> (parser: Parser)
        requires
            tokenizer.wf(),
        ensures
            parser.wf(),
            parser.source() == tokenizer.source(),
            parser.origin() == tokenizer.cursor().offset,
            parser.consumed() == 0,
            parser.max_depth() == DEFAULT_MAX_DEPTH,
    {
        Parser::with_max_depth(tokenizer, DEFAULT_MAX_DEPTH)
    }

    /// A parser over what `tokenizer` has not read yet, in which productions
    /// may be nested `max_depth` deep.
    pub fn with_max_depth(tokenizer: Tokenizer, max_depth: usize) -> (parser: Parser)
        requires
            tokenizer.wf(),
        ensures
            parser.wf(),
            parser.source() == tokenizer.source(),
            parser.origin() == tokenizer.cursor().offset,
            parser.consumed() == 0,
            parser.max_depth() == max_depth,
    {
        let ghost origin = tokenizer.cursor().offset as nat;
        let mut tokenizer = tokenizer;
        let current = tokenizer.get_next_token();
        let parser = Parser {
            tokenizer,
            current,
            max_depth,
            origin: Ghost(origin),
            consumed: Ghost(0),
        };
        proof {
            reveal(Parser::wf);
            lemma_stream_step(parser.tokenizer.source(), origin);
            lemma_scan_bounds(parser.tokenizer.source(), origin);
        }
        parser
    }

    /// Parses the tokens that have not been taken as one program. The result
    /// is the tree that the grammar yields for them, and then its leaves are
    /// exactly those tokens; or it is the error for the first token that the
    /// grammar does not allow, for the end of the input where the grammar
    /// asks for more, for a token behind the program's final period, for a
    /// failure of the tokenizer, or for productions nested deeper than the
    /// parser's limit.
    pub fn parse(&mut self) -> (res: Result<SyntaxTree, ParserError>)
        requires
            old(self).wf(),
        ensures
            final(self).wf(),
            final(self).same_input(old(self)),
            match parse_outcome(
                old(self).source(),
                old(self).origin(),
                old(self).consumed(),
                old(self).max_depth() as nat,
            ) {
                Ok(tree) => {
                    &&& res matches Ok(built)
                    &&& built@ == tree
                    &&& final(self).consumed() == final(self).tokens().len()
                },
                Err(error) => {
                    &&& res matches Err(raised)
                    &&& raised@ == error
                },
            },
            res matches Ok(built) ==> {
                &&& built.wf()
                &&& built@.well_formed()
                &&& built@.height() <= old(self).max_depth()
                &&& built@.tokens() == old(self).tokens().skip(old(self).consumed() as int)
                &&& tail_from(old(self).source(), old(self).origin()) is End
            },
    {
        let ghost tokens = self.tokens();
        let ghost from = self.consumed();
        let root = self.parse_program(self.max_depth)?;
        proof {
            reveal(Parser::wf);
            reveal(error_of);
            old(self).lemma_within();
            lemma_program(tokens, from, self.max_depth as nat);
            lemma_spans(root@, tokens, from, self.max_depth as nat);
            lemma_conforming_is_well_formed(root@);
        }
        match &self.current {
            Err(TokenizerError::ReachedEOF) => {
                Ok(SyntaxTree::new(root))
            },
            _ => Err(self.fault(FaultKind::Expected(Expectation::EndOfInput))),
        }
    }

    /// Whether what stands at hand is what `expected` asks for.
    fn meets(&self, expected: Expectation) -> (met: bool)
        requires
            self.wf(),
        ensures
            met == meets(self.tokens(), self.consumed(), expected),
    {
        proof {
            reveal(Parser::wf);
        }
        match &self.current {
            Ok(token) => match expected {
                Expectation::Keyword(keyword) => match token {
                    Token::Keyword(found) => *found == keyword,
                    _ => false,
                },
                Expectation::Symbol(symbol) => match token {
                    Token::Symbol(found) => *found == symbol,
                    _ => false,
                },
                Expectation::Identifier => match token {
                    Token::Identifier(_) => true,
                    _ => false,
                },
                Expectation::Number => match token {
                    Token::Number(_) => true,
                    _ => false,
                },
                Expectation::Relation => match token {
                    Token::Symbol(found) => match found {
                        Symbol::Equal
                        | Symbol::NotEq
                        | Symbol::Lss
                        | Symbol::Gtr
                        | Symbol::LssEq
                        | Symbol::GtrEq => true,
                        _ => false,
                    },
                    _ => false,
                },
                Expectation::Factor => match token {
                    Token::Identifier(_) => true,
                    Token::Number(_) => true,
                    Token::Symbol(found) => *found == Symbol::Lparen,
                    _ => false,
                },
                Expectation::EndOfInput => false,
            },
            Err(_) => match expected {
                Expectation::EndOfInput => true,
                _ => false,
            },
        }
    }

    /// Whether the reserved word `keyword` stands at hand.
    fn at_keyword(&self, keyword: Keyword) -> (met: bool)
        requires
            self.wf(),
        ensures
            met == is_keyword(self.tokens(), self.consumed(), keyword),
    {
        self.meets(Expectation::Keyword(keyword))
    }

    /// Whether the symbol `symbol` stands at hand.
    fn at_symbol(&self, symbol: Symbol) -> (met: bool)
        requires
            self.wf(),
        ensures
            met == is_symbol(self.tokens(), self.consumed(), symbol),
    {
        self.meets(Expectation::Symbol(symbol))
    }

    /// The error for giving up at the token at hand.
    fn fault(&self, kind: FaultKind) -> (error: ParserError)
        requires
            self.wf(),
        ensures
            error@ == error_of(self.source(), self.origin(), Fault { at: self.consumed(), kind }),
    {
        proof {
            reveal(Parser::wf);
            reveal(error_of);
        }
        let at = self.tokenizer.token_position();
        match &self.current {
            Ok(token) => match kind {
                FaultKind::Expected(Expectation::EndOfInput) => ParserError::ExpectedEOF {
                    found: token.clone(),
                    at,
                },
                FaultKind::Expected(expected) => ParserError::UnexpectedToken {
                    expected,
                    found: token.clone(),
                    at,
                },
                FaultKind::TooDeep => ParserError::TooDeep { at },
            },
            Err(TokenizerError::ReachedEOF) => match kind {
                FaultKind::Expected(expected) => ParserError::ReachedEOF { expected, at },
                FaultKind::TooDeep => ParserError::TooDeep { at },
            },
            Err(error) => ParserError::Lexical { error: *error, at },
        }
    }

    /// Takes the token at hand, reads the next one, and returns the leaf for
    /// the token taken.
    fn parse_token(&mut self) -> (leaf: SyntaxNode)
        requires
            old(self).wf(),
            old(self).consumed() < old(self).tokens().len(),
        ensures
            final(self).wf(),
            final(self).same_input(old(self)),
            final(self).consumed() == old(self).consumed() + 1,
            leaf@ == leaf_at(old(self).tokens(), old(self).consumed()),
    {
        proof {
            reveal(Parser::wf);
        }
        let ghost source = self.tokenizer.source();
        let ghost lexemes = lexemes_from(source, self.origin@);
        let ghost taken = self.consumed@ as int;
        let ghost rest = lexemes_from(source, self.tokenizer.cursor().offset as nat);
        let mut token = self.tokenizer.get_next_token();
        core::mem::swap(&mut self.current, &mut token);
        self.consumed = Ghost((taken + 1) as nat);
        proof {
            lemma_stream_step(source, old(self).tokenizer.cursor().offset as nat);
            lemma_scan_bounds(source, old(self).tokenizer.cursor().offset as nat);
            if self.current is Ok {
                assert(rest.skip(1) =~= lexemes.skip(taken + 2));
            }
        }
        SyntaxNode::new(Syntax::Token(token.unwrap()))
    }

    /// Takes the token at hand, provided it is what `expected` asks for, and
    /// returns its leaf.
    fn parse_token_expect(&mut self, expected: Expectation) -> (res: Result<
        SyntaxNode,
        ParserError,
    >)
        requires
            old(self).wf(),
            expected != Expectation::EndOfInput,
        ensures
            final(self).wf(),
            final(self).same_input(old(self)),
            match expect(old(self).tokens(), old(self).consumed(), expected) {
                Ok(leaf) => {
                    &&& res matches Ok(built)
                    &&& built@ == leaf
                    &&& final(self).consumed() == old(self).consumed() + 1
                    &&& old(self).consumed() < old(self).tokens().len()
                },
                Err(fault) => {
                    &&& res matches Err(error)
                    &&& error@ == error_of(old(self).source(), old(self).origin(), fault)
                },
            },
    {
        if self.meets(expected) {
            Ok(self.parse_token())
        } else {
            Err(self.fault(FaultKind::Expected(expected)))
        }
    }

    /// No more tokens have been taken than there are.
    proof fn lemma_within(&self)
        requires
            self.wf(),
        ensures
            self.consumed() <= self.tokens().len(),
    {
        reveal(Parser::wf);
    }

    /// A node for the production `syntax` that starts at the token at hand,
    /// without children yet.
    fn start(&self, syntax: Syntax) -> (node: SyntaxNode)
        requires
            self.wf(),
        ensures
            node@ == branch(syntax@, Seq::empty()),
            self.drafting(node@, self.consumed()),
    {
        proof {
            self.lemma_within();
        }
        SyntaxNode::new(syntax)
    }

    /// `node` is under construction: the leaves of its children so far are as
    /// many as the tokens taken since index `from`.
    spec fn drafting(&self, node: NodeSpec, from: nat) -> bool {
        &&& self.consumed() == from + span(node.children)
        &&& self.consumed() <= self.tokens().len()
    }

    /// Takes the token at hand and makes its leaf the last child of `node`.
    fn take(&mut self, node: &mut SyntaxNode, Ghost(from): Ghost<nat>)
        requires
            old(self).wf(),
            old(self).consumed() < old(self).tokens().len(),
            old(self).drafting(old(node)@, from),
        ensures
            final(self).wf(),
            final(self).same_input(old(self)),
            final(self).consumed() == old(self).consumed() + 1,
            final(node)@ == branch(
                old(node)@.syntax,
                old(node)@.children.push(leaf_at(old(self).tokens(), old(self).consumed())),
            ),
            final(self).drafting(final(node)@, from),
            old(node)@.children.len() > 0 ==> final(node)@.children.drop_first() == old(
                node,
            )@.children.drop_first().push(leaf_at(old(self).tokens(), old(self).consumed())),
    {
        proof {
            lemma_tokens_of_push(node@.children, leaf_at(self.tokens(), self.consumed()));
            lemma_leaf_width(self.tokens()[self.consumed() as int]);
        }
        let leaf = self.parse_token();
        node.append_child(leaf);
    }

    /// Takes the token at hand, provided it is what `expected` asks for, and
    /// makes its leaf the last child of `node`.
    fn take_expected(
        &mut self,
        node: &mut SyntaxNode,
        expected: Expectation,
        Ghost(from): Ghost<nat>,
    ) -> (res: Result<(), ParserError>)
        requires
            old(self).wf(),
            expected != Expectation::EndOfInput,
            old(self).drafting(old(node)@, from),
        ensures
            final(self).wf(),
            final(self).same_input(old(self)),
            match expect(old(self).tokens(), old(self).consumed(), expected) {
                Ok(leaf) => {
                    &&& res is Ok
                    &&& final(self).consumed() == old(self).consumed() + 1
                    &&& final(node)@ == branch(old(node)@.syntax, old(node)@.children.push(leaf))
                    &&& final(self).drafting(final(node)@, from)
                    &&& old(node)@.children.len() > 0 ==> final(node)@.children.drop_first()
                        == old(node)@.children.drop_first().push(leaf)
                },
                Err(fault) => {
                    &&& res matches Err(error)
                    &&& error@ == error_of(old(self).source(), old(self).origin(), fault)
                },
            },
    {
        let leaf = self.parse_token_expect(expected)?;
        proof {
            self.lemma_within();
            lemma_tokens_of_push(node@.children, leaf@);
            lemma_leaf_width(old(self).tokens()[old(self).consumed() as int]);
        }
        node.append_child(leaf);
        Ok(())
    }

    /// Makes `child`, which a production has just returned, the last child of
    /// `node`.
    fn attach(
        &self,
        node: &mut SyntaxNode,
        child: SyntaxNode,
        Ghost(from): Ghost<nat>,
    )
        requires
            self.wf(),
            self.consumed() == from + span(old(node)@.children) + child@.width(),
        ensures
            final(node)@ == branch(old(node)@.syntax, old(node)@.children.push(child@)),
            self.drafting(final(node)@, from),
            old(node)@.children.len() > 0 ==> final(node)@.children.drop_first() == old(
                node,
            )@.children.drop_first().push(child@),
    {
        proof {
            self.lemma_within();
            lemma_tokens_of_push(node@.children, child@);
        }
        node.append_child(child);
    }

    /// Parses a constant declaration, whose `const` stands at hand.
    fn parse_const_decl(&mut self, depth: usize) -> (res: Result<SyntaxNode, ParserError>)
        requires
            old(self).wf(),
            is_keyword(old(self).tokens(), old(self).consumed(), Keyword::Const),
        ensures
            final(self).produced(
                old(self),
                res,
                declared(
                    SyntaxSpec::ConstDecl,
                    old(self).tokens()[old(self).consumed() as int],
                    const_rest(old(self).tokens(), old(self).consumed(), depth as nat),
                ),
            ),
    {
        proof {
            reveal(constants);
        }
        if depth == 0 {
            return Err(self.fault(FaultKind::TooDeep));
        }
        let ghost tokens = self.tokens();
        let ghost from = self.consumed();
        let ghost goal = constants(tokens, from + 1, Seq::empty());
        let mut node = self.start(Syntax::ConstDecl);
        self.take(&mut node, Ghost(from));
        assert(node@.children.drop_first() =~= Seq::empty());
        loop
            invariant_except_break
                goal == constants(tokens, self.consumed(), node@.children.drop_first()),
            invariant
                self.wf(),
                self.same_input(old(self)),
                tokens == old(self).tokens(),
                from == old(self).consumed(),
                depth > 0,
                goal == const_rest(tokens, from, depth as nat),
                node@.syntax == SyntaxSpec::ConstDecl,
                node@.children.len() > 0,
                node@.children[0] == leaf_at(tokens, from),
                self.drafting(node@, from),
            ensures
                goal == Ok::<Seq<NodeSpec>, Fault>(node@.children.drop_first()),
            decreases tokens.len() - self.consumed(),
        {
            proof {
                reveal(constants);
            }
            self.take_expected(&mut node, Expectation::Identifier, Ghost(from))?;
            self.take_expected(&mut node, Expectation::Symbol(Symbol::Equal), Ghost(from))?;
            self.take_expected(&mut node, Expectation::Number, Ghost(from))?;
            if self.at_symbol(Symbol::Comma) {
                self.take(&mut node, Ghost(from));
            } else {
                self.take_expected(&mut node, Expectation::Symbol(Symbol::SemiColon), Ghost(from))?;
                break ;
            }
        }
        proof {
            lemma_span_behind_leaf(node@.children);
            lemma_branch_width(SyntaxSpec::ConstDecl, node@.children);
        }
        Ok(node)
    }

    /// Parses a variable declaration, whose `var` stands at hand.
    fn parse_var_decl(&mut self, depth: usize) -> (res: Result<SyntaxNode, ParserError>)
        requires
            old(self).wf(),
            is_keyword(old(self).tokens(), old(self).consumed(), Keyword::Var),
        ensures
            final(self).produced(
                old(self),
                res,
                declared(
                    SyntaxSpec::VarDecl,
                    old(self).tokens()[old(self).consumed() as int],
                    var_rest(old(self).tokens(), old(self).consumed(), depth as nat),
                ),
            ),
    {
        proof {
            reveal(variables);
        }
        if depth == 0 {
            return Err(self.fault(FaultKind::TooDeep));
        }
        let ghost tokens = self.tokens();
        let ghost from = self.consumed();
        let ghost goal = variables(tokens, from + 1, Seq::empty());
        let mut node = self.start(Syntax::VarDecl);
        self.take(&mut node, Ghost(from));
        assert(node@.children.drop_first() =~= Seq::empty());
        loop
            invariant_except_break
                goal == variables(tokens, self.consumed(), node@.children.drop_first()),
            invariant
                self.wf(),
                self.same_input(old(self)),
                tokens == old(self).tokens(),
                from == old(self).consumed(),
                depth > 0,
                goal == var_rest(tokens, from, depth as nat),
                node@.syntax == SyntaxSpec::VarDecl,
                node@.children.len() > 0,
                node@.children[0] == leaf_at(tokens, from),
                self.drafting(node@, from),
            ensures
                goal == Ok::<Seq<NodeSpec>, Fault>(node@.children.drop_first()),
            decreases tokens.len() - self.consumed(),
        {
            proof {
                reveal(variables);
            }
            self.take_expected(&mut node, Expectation::Identifier, Ghost(from))?;
            if self.at_symbol(Symbol::Comma) {
                self.take(&mut node, Ghost(from));
            } else {
                self.take_expected(&mut node, Expectation::Symbol(Symbol::SemiColon), Ghost(from))?;
                break ;
            }
        }
        proof {
            lemma_span_behind_leaf(node@.children);
            lemma_branch_width(SyntaxSpec::VarDecl, node@.children);
        }
        Ok(node)
    }

    /// Parses a function declaration, whose `function` stands at hand.
    fn parse_func_decl(&mut self, depth: usize) -> (res: Result<SyntaxNode, ParserError>)
        requires
            old(self).wf(),
            is_keyword(old(self).tokens(), old(self).consumed(), Keyword::Func),
        ensures
            final(self).produced(
                old(self),
                res,
                declared(
                    SyntaxSpec::FuncDecl,
                    old(self).tokens()[old(self).consumed() as int],
                    func_rest(old(self).tokens(), old(self).consumed(), depth as nat),
                ),
            ),
        decreases depth, 1nat,
    {
        proof {
            reveal(func_rest);
            reveal(names);
            reveal(block);
        }
        if depth == 0 {
            return Err(self.fault(FaultKind::TooDeep));
        }
        let ghost tokens = self.tokens();
        let ghost from = self.consumed();
        let mut node = self.start(Syntax::FuncDecl);
        self.take(&mut node, Ghost(from));
        assert(node@.children.drop_first() =~= Seq::empty());
        self.take_expected(&mut node, Expectation::Identifier, Ghost(from))?;
        self.take_expected(&mut node, Expectation::Symbol(Symbol::Lparen), Ghost(from))?;
        let ghost head = node@.children.drop_first();
        let ghost goal = parameters(tokens, from + 3, head);
        if self.meets(Expectation::Identifier) {
            loop
                invariant_except_break
                    goal == names(tokens, self.consumed(), node@.children.drop_first()),
                invariant
                    self.wf(),
                    self.same_input(old(self)),
                    tokens == old(self).tokens(),
                    from == old(self).consumed(),
                    node@.syntax == SyntaxSpec::FuncDecl,
                    depth > 0,
                    carries(goal, func_rest(tokens, from, depth as nat)),
                    node@.children.len() > 0,
                    node@.children[0] == leaf_at(tokens, from),
                    self.drafting(node@, from),
                ensures
                    goal == Ok::<Seq<NodeSpec>, Fault>(node@.children.drop_first()),
                decreases tokens.len() - self.consumed(),
            {
                proof {
                    reveal(names);
                }
                self.take_expected(&mut node, Expectation::Identifier, Ghost(from))?;
                if self.at_symbol(Symbol::Comma) {
                    self.take(&mut node, Ghost(from));
                } else {
                    break ;
                }
            }
        }
        proof {
            lemma_span_behind_leaf(node@.children);
        }
        self.take_expected(&mut node, Expectation::Symbol(Symbol::Rparen), Ghost(from))?;
        let body = self.parse_block(depth - 1)?;
        self.attach(&mut node, body, Ghost(from));
        self.take_expected(&mut node, Expectation::Symbol(Symbol::SemiColon), Ghost(from))?;
        proof {
            lemma_span_behind_leaf(node@.children);
            lemma_branch_width(SyntaxSpec::FuncDecl, node@.children);
        }
        Ok(node)
    }

    /// Parses a block: its declarations, then its statement.
    fn parse_block(&mut self, depth: usize) -> (res: Result<SyntaxNode, ParserError>)
        requires
            old(self).wf(),
        ensures
            final(self).produced(
                old(self),
                res,
                block(old(self).tokens(), old(self).consumed(), depth as nat),
            ),
        decreases depth, 1nat,
    {
        proof {
            reveal(block);
            reveal(declarations);
            reveal(func_rest);
            reveal(statement);
        }
        if depth == 0 {
            return Err(self.fault(FaultKind::TooDeep));
        }
        let ghost tokens = self.tokens();
        let ghost from = self.consumed();
        let ghost inner = (depth - 1) as nat;
        let ghost goal = declarations(tokens, from, inner, Seq::empty());
        let mut node = self.start(Syntax::Block);
        loop
            invariant
                self.wf(),
                self.same_input(old(self)),
                tokens == old(self).tokens(),
                from == old(self).consumed(),
                depth > 0,
                inner == depth - 1,
                node@.syntax == SyntaxSpec::Block,
                carries(goal, block(tokens, from, depth as nat)),
                self.drafting(node@, from),
                goal == declarations(tokens, self.consumed(), inner, node@.children),
            ensures
                goal == Ok::<Seq<NodeSpec>, Fault>(node@.children),
            decreases tokens.len() - self.consumed(),
        {
            proof {
                reveal(declarations);
                reveal(func_rest);
            }
            let ghost at = self.consumed();
            if self.at_keyword(Keyword::Const) {
                let child = self.parse_const_decl(depth - 1)?;
                proof {
                    lemma_declaration_width(
                        SyntaxSpec::ConstDecl,
                        tokens[at as int],
                        const_rest(tokens, at, inner)->Ok_0,
                    );
                }
                self.attach(&mut node, child, Ghost(from));
            } else if self.at_keyword(Keyword::Var) {
                let child = self.parse_var_decl(depth - 1)?;
                proof {
                    lemma_declaration_width(
                        SyntaxSpec::VarDecl,
                        tokens[at as int],
                        var_rest(tokens, at, inner)->Ok_0,
                    );
                }
                self.attach(&mut node, child, Ghost(from));
            } else if self.at_keyword(Keyword::Func) {
                let child = self.parse_func_decl(depth - 1)?;
                proof {
                    lemma_declaration_width(
                        SyntaxSpec::FuncDecl,
                        tokens[at as int],
                        func_rest(tokens, at, inner)->Ok_0,
                    );
                }
                self.attach(&mut node, child, Ghost(from));
            } else {
                break ;
            }
        }
        let body = self.parse_statement(depth - 1)?;
        self.attach(&mut node, body, Ghost(from));
        proof {
            lemma_branch_width(SyntaxSpec::Block, node@.children);
        }
        Ok(node)
    }

    /// Parses a statement. The token at hand decides which form it has; where
    /// it starts none of the forms, the statement is empty and no token is
    /// taken.
    fn parse_statement(&mut self, depth: usize) -> (res: Result<SyntaxNode, ParserError>)
        requires
            old(self).wf(),
        ensures
            final(self).produced(
                old(self),
                res,
                statement(old(self).tokens(), old(self).consumed(), depth as nat),
            ),
        decreases depth, 1nat,
    {
        proof {
            reveal(statement);
        }
        if depth == 0 {
            return Err(self.fault(FaultKind::TooDeep));
        }
        if self.meets(Expectation::Identifier) {
            self.parse_assignment(depth)
        } else if self.at_keyword(Keyword::Begin) {
            self.parse_compound(depth)
        } else if self.at_keyword(Keyword::If) {
            self.parse_guarded(depth, Keyword::Then)
        } else if self.at_keyword(Keyword::While) {
            self.parse_guarded(depth, Keyword::Do)
        } else if self.at_keyword(Keyword::Ret) || self.at_keyword(Keyword::Write) {
            self.parse_output(depth)
        } else {
            let ghost from = self.consumed();
            let mut node = self.start(Syntax::Statement);
            if self.at_keyword(Keyword::WriteLn) {
                self.take(&mut node, Ghost(from));
            }
            proof {
                lemma_branch_width(SyntaxSpec::Statement, node@.children);
            }
            Ok(node)
        }
    }

    /// Parses an assignment, whose identifier stands at hand.
    fn parse_assignment(&mut self, depth: usize) -> (res: Result<SyntaxNode, ParserError>)
        requires
            old(self).wf(),
            depth > 0,
            is_identifier(old(self).tokens(), old(self).consumed()),
        ensures
            final(self).produced(
                old(self),
                res,
                statement(old(self).tokens(), old(self).consumed(), depth as nat),
            ),
        decreases depth, 0nat,
    {
        proof {
            reveal(statement);
            reveal(expression);
        }
        let ghost from = self.consumed();
        let mut node = self.start(Syntax::Statement);
        self.take(&mut node, Ghost(from));
        self.take_expected(&mut node, Expectation::Symbol(Symbol::Assign), Ghost(from))?;
        let value = self.parse_expression(depth - 1)?;
        self.attach(&mut node, value, Ghost(from));
        proof {
            lemma_branch_width(SyntaxSpec::Statement, node@.children);
        }
        Ok(node)
    }

    /// Parses a compound statement, whose `begin` stands at hand.
    fn parse_compound(&mut self, depth: usize) -> (res: Result<SyntaxNode, ParserError>)
        requires
            old(self).wf(),
            depth > 0,
            is_keyword(old(self).tokens(), old(self).consumed(), Keyword::Begin),
        ensures
            final(self).produced(
                old(self),
                res,
                statement(old(self).tokens(), old(self).consumed(), depth as nat),
            ),
        decreases depth, 0nat,
    {
        proof {
            reveal(statement);
            reveal(sequence);
        }
        let ghost tokens = self.tokens();
        let ghost from = self.consumed();
        let ghost inner = (depth - 1) as nat;
        let mut node = self.start(Syntax::Statement);
        self.take(&mut node, Ghost(from));
        let ghost goal = sequence(tokens, from + 1, inner, node@.children);
        loop
            invariant_except_break
                goal == sequence(tokens, self.consumed(), inner, node@.children),
            invariant
                self.wf(),
                self.same_input(old(self)),
                tokens == old(self).tokens(),
                from == old(self).consumed(),
                depth > 0,
                inner == depth - 1,
                node@.syntax == SyntaxSpec::Statement,
                carries(goal, statement(tokens, from, depth as nat)),
                self.drafting(node@, from),
            ensures
                goal == Ok::<Seq<NodeSpec>, Fault>(node@.children),
            decreases tokens.len() - self.consumed(),
        {
            proof {
                reveal(sequence);
                reveal(statement);
            }
            let next = self.parse_statement(depth - 1)?;
            self.attach(&mut node, next, Ghost(from));
            if self.at_symbol(Symbol::SemiColon) {
                self.take(&mut node, Ghost(from));
            } else {
                break ;
            }
        }
        self.take_expected(&mut node, Expectation::Keyword(Keyword::End), Ghost(from))?;
        proof {
            lemma_branch_width(SyntaxSpec::Statement, node@.children);
        }
        Ok(node)
    }

    /// Parses a statement that a condition guards: its `if` or `while`
    /// stands at hand, and `link` is the reserved word between the
    /// condition and the statement, `then` for the one and `do` for the
    /// other.
    fn parse_guarded(&mut self, depth: usize, link: Keyword) -> (res: Result<
        SyntaxNode,
        ParserError,
    >)
        requires
            old(self).wf(),
            depth > 0,
            is_keyword(old(self).tokens(), old(self).consumed(), Keyword::If) && link
                == Keyword::Then || is_keyword(
                old(self).tokens(),
                old(self).consumed(),
                Keyword::While,
            ) && link == Keyword::Do,
        ensures
            final(self).produced(
                old(self),
                res,
                statement(old(self).tokens(), old(self).consumed(), depth as nat),
            ),
        decreases depth, 0nat,
    {
        proof {
            reveal(statement);
            reveal(condition);
        }
        let ghost from = self.consumed();
        let mut node = self.start(Syntax::Statement);
        self.take(&mut node, Ghost(from));
        let test = self.parse_condition(depth - 1)?;
        self.attach(&mut node, test, Ghost(from));
        self.take_expected(&mut node, Expectation::Keyword(link), Ghost(from))?;
        let body = self.parse_statement(depth - 1)?;
        self.attach(&mut node, body, Ghost(from));
        proof {
            lemma_branch_width(SyntaxSpec::Statement, node@.children);
        }
        Ok(node)
    }

    /// Parses a statement that hands on the value of an expression, whose
    /// `return` or `write` stands at hand.
    fn parse_output(&mut self, depth: usize) -> (res: Result<SyntaxNode, ParserError>)
        requires
            old(self).wf(),
            depth > 0,
            is_keyword(old(self).tokens(), old(self).consumed(), Keyword::Ret) || is_keyword(
                old(self).tokens(),
                old(self).consumed(),
                Keyword::Write,
            ),
        ensures
            final(self).produced(
                old(self),
                res,
                statement(old(self).tokens(), old(self).consumed(), depth as nat),
            ),
        decreases depth, 0nat,
    {
        proof {
            reveal(statement);
            reveal(expression);
        }
        let ghost from = self.consumed();
        let mut node = self.start(Syntax::Statement);
        self.take(&mut node, Ghost(from));
        let value = self.parse_expression(depth - 1)?;
        self.attach(&mut node, value, Ghost(from));
        proof {
            lemma_branch_width(SyntaxSpec::Statement, node@.children);
        }
        Ok(node)
    }

    /// Parses a condition.
    fn parse_condition(&mut self, depth: usize) -> (res: Result<SyntaxNode, ParserError>)
        requires
            old(self).wf(),
        ensures
            final(self).produced(
                old(self),
                res,
                condition(old(self).tokens(), old(self).consumed(), depth as nat),
            ),
        decreases depth, 1nat,
    {
        proof {
            reveal(condition);
            reveal(expression);
        }
        if depth == 0 {
            return Err(self.fault(FaultKind::TooDeep));
        }
        let ghost from = self.consumed();
        let mut node = self.start(Syntax::Condition);
        if self.at_keyword(Keyword::Odd) {
            self.take(&mut node, Ghost(from));
            let value = self.parse_expression(depth - 1)?;
            self.attach(&mut node, value, Ghost(from));
        } else {
            let lhs = self.parse_expression(depth - 1)?;
            self.attach(&mut node, lhs, Ghost(from));
            self.take_expected(&mut node, Expectation::Relation, Ghost(from))?;
            let rhs = self.parse_expression(depth - 1)?;
            self.attach(&mut node, rhs, Ghost(from));
        }
        proof {
            lemma_branch_width(SyntaxSpec::Condition, node@.children);
        }
        Ok(node)
    }

    /// Parses an expression: an optional sign, a term, and further terms
    /// each behind a `+` or a `-`.
    fn parse_expression(&mut self, depth: usize) -> (res: Result<SyntaxNode, ParserError>)
        requires
            old(self).wf(),
        ensures
            final(self).produced(
                old(self),
                res,
                expression(old(self).tokens(), old(self).consumed(), depth as nat),
            ),
        decreases depth, 1nat,
    {
        proof {
            reveal(expression);
            reveal(terms);
            reveal(term);
        }
        if depth == 0 {
            return Err(self.fault(FaultKind::TooDeep));
        }
        let ghost tokens = self.tokens();
        let ghost from = self.consumed();
        let ghost inner = (depth - 1) as nat;
        let ghost goal = expression(tokens, from, depth as nat);
        let mut node = self.start(Syntax::Expression);
        if self.at_symbol(Symbol::Plus) || self.at_symbol(Symbol::Minus) {
            self.take(&mut node, Ghost(from));
        }
        let first = self.parse_term(depth - 1)?;
        self.attach(&mut node, first, Ghost(from));
        loop
            invariant
                self.wf(),
                self.same_input(old(self)),
                tokens == old(self).tokens(),
                from == old(self).consumed(),
                depth > 0,
                inner == depth - 1,
                node@.syntax == SyntaxSpec::Expression,
                goal == expression(tokens, from, depth as nat),
                node@.children.len() > 0,
                self.drafting(node@, from),
                goal == production(
                    SyntaxSpec::Expression,
                    terms(tokens, self.consumed(), inner, node@.children),
                ),
            ensures
                goal == Ok::<NodeSpec, Fault>(node@),
            decreases tokens.len() - self.consumed(),
        {
            proof {
                reveal(terms);
                reveal(term);
            }
            if self.at_symbol(Symbol::Plus) || self.at_symbol(Symbol::Minus) {
                self.take(&mut node, Ghost(from));
                let next = self.parse_term(depth - 1)?;
                self.attach(&mut node, next, Ghost(from));
            } else {
                break ;
            }
        }
        proof {
            lemma_branch_width(SyntaxSpec::Expression, node@.children);
        }
        Ok(node)
    }

    /// Parses a term: a factor, and further factors each behind a `*` or a
    /// `/`.
    fn parse_term(&mut self, depth: usize) -> (res: Result<SyntaxNode, ParserError>)
        requires
            old(self).wf(),
        ensures
            final(self).produced(
                old(self),
                res,
                term(old(self).tokens(), old(self).consumed(), depth as nat),
            ),
        decreases depth, 1nat,
    {
        proof {
            reveal(term);
            reveal(factors);
            reveal(factor);
        }
        if depth == 0 {
            return Err(self.fault(FaultKind::TooDeep));
        }
        let ghost tokens = self.tokens();
        let ghost from = self.consumed();
        let ghost inner = (depth - 1) as nat;
        let ghost goal = term(tokens, from, depth as nat);
        let mut node = self.start(Syntax::Term);
        let first = self.parse_factor(depth - 1)?;
        self.attach(&mut node, first, Ghost(from));
        loop
            invariant
                self.wf(),
                self.same_input(old(self)),
                tokens == old(self).tokens(),
                from == old(self).consumed(),
                depth > 0,
                inner == depth - 1,
                node@.syntax == SyntaxSpec::Term,
                goal == term(tokens, from, depth as nat),
                node@.children.len() > 0,
                self.drafting(node@, from),
                goal == production(
                    SyntaxSpec::Term,
                    factors(tokens, self.consumed(), inner, node@.children),
                ),
            ensures
                goal == Ok::<NodeSpec, Fault>(node@),
            decreases tokens.len() - self.consumed(),
        {
            proof {
                reveal(factors);
                reveal(factor);
            }
            if self.at_symbol(Symbol::Mult) || self.at_symbol(Symbol::Div) {
                self.take(&mut node, Ghost(from));
                let next = self.parse_factor(depth - 1)?;
                self.attach(&mut node, next, Ghost(from));
            } else {
                break ;
            }
        }
        proof {
            lemma_branch_width(SyntaxSpec::Term, node@.children);
        }
        Ok(node)
    }

    /// Parses a factor. An identifier is a call if an opening parenthesis
    /// stands right behind it, and a factor by itself if not.
    fn parse_factor(&mut self, depth: usize) -> (res: Result<SyntaxNode, ParserError>)
        requires
            old(self).wf(),
        ensures
            final(self).produced(
                old(self),
                res,
                factor(old(self).tokens(), old(self).consumed(), depth as nat),
            ),
        decreases depth, 1nat,
    {
        proof {
            reveal(factor);
            reveal(arguments);
            reveal(expression);
        }
        if depth == 0 {
            return Err(self.fault(FaultKind::TooDeep));
        }
        let ghost tokens = self.tokens();
        let ghost from = self.consumed();
        let ghost inner = (depth - 1) as nat;
        let mut node = self.start(Syntax::Factor);
        if self.meets(Expectation::Identifier) {
            self.take(&mut node, Ghost(from));
            if self.at_symbol(Symbol::Lparen) {
                self.take(&mut node, Ghost(from));
                if self.at_symbol(Symbol::Rparen) {
                    self.take(&mut node, Ghost(from));
                } else {
                    let ghost goal = arguments(tokens, from + 2, inner, node@.children);
                    loop
                        invariant_except_break
                            goal == arguments(tokens, self.consumed(), inner, node@.children),
                        invariant
                            self.wf(),
                            self.same_input(old(self)),
                            tokens == old(self).tokens(),
                            from == old(self).consumed(),
                            depth > 0,
                            inner == depth - 1,
                            node@.syntax == SyntaxSpec::Factor,
                            carries(goal, factor(tokens, from, depth as nat)),
                            self.drafting(node@, from),
                        ensures
                            goal == Ok::<Seq<NodeSpec>, Fault>(node@.children),
                        decreases tokens.len() - self.consumed(),
                    {
                        proof {
                            reveal(arguments);
                            reveal(expression);
                        }
                        let next = self.parse_expression(depth - 1)?;
                        self.attach(&mut node, next, Ghost(from));
                        if self.at_symbol(Symbol::Comma) {
                            self.take(&mut node, Ghost(from));
                        } else {
                            break ;
                        }
                    }
                    self.take_expected(
                        &mut node,
                        Expectation::Symbol(Symbol::Rparen),
                        Ghost(from),
                    )?;
                }
            }
        } else if self.meets(Expectation::Number) {
            self.take(&mut node, Ghost(from));
        } else if self.at_symbol(Symbol::Lparen) {
            self.take(&mut node, Ghost(from));
            let inside = self.parse_expression(depth - 1)?;
            self.attach(&mut node, inside, Ghost(from));
            self.take_expected(&mut node, Expectation::Symbol(Symbol::Rparen), Ghost(from))?;
        } else {
            return Err(self.fault(FaultKind::Expected(Expectation::Factor)));
        }
        proof {
            lemma_branch_width(SyntaxSpec::Factor, node@.children);
        }
        Ok(node)
    }

    /// Parses a program: a block and the period behind it.
    fn parse_program(&mut self, depth: usize) -> (res: Result<SyntaxNode, ParserError>)
        requires
            old(self).wf(),
        ensures
            final(self).produced(
                old(self),
                res,
                program(old(self).tokens(), old(self).consumed(), depth as nat),
            ),
    {
        if depth == 0 {
            return Err(self.fault(FaultKind::TooDeep));
        }
        let ghost from = self.consumed();
        let mut node = self.start(Syntax::Program);
        let body = self.parse_block(depth - 1)?;
        self.attach(&mut node, body, Ghost(from));
        self.take_expected(&mut node, Expectation::Symbol(Symbol::Period), Ghost(from))?;
        proof {
            lemma_branch_width(SyntaxSpec::Program, node@.children);
        }
        Ok(node)
    }
}

} // verus!
