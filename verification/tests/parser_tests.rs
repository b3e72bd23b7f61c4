use pl0dash_compiler::grammar::Expectation;
use pl0dash_compiler::keyword::Keyword;
use pl0dash_compiler::parser::{Parser, ParserError, DEFAULT_MAX_DEPTH};
use pl0dash_compiler::position::Position;
use pl0dash_compiler::symbol::Symbol;
use pl0dash_compiler::tokenizer::{Token, Tokenizer, TokenizerError};
use pl0dash_compiler::tree::{Syntax, SyntaxNode, SyntaxTree};

fn parse(source: &str) -> Result<SyntaxTree, ParserError> {
    Parser::new(Tokenizer::new(source.as_bytes().to_vec())).parse()
}

fn parse_within(source: &str, max_depth: usize) -> Result<SyntaxTree, ParserError> {
    Parser::with_max_depth(Tokenizer::new(source.as_bytes().to_vec()), max_depth).parse()
}

fn node(syntax: Syntax, children: Vec<SyntaxNode>) -> SyntaxNode {
    let mut n = SyntaxNode::new(syntax);
    for child in children {
        n.append_child(child);
    }
    n
}

fn kw(keyword: Keyword) -> SyntaxNode {
    SyntaxNode::new(Syntax::Token(Token::Keyword(keyword)))
}

fn sym(symbol: Symbol) -> SyntaxNode {
    SyntaxNode::new(Syntax::Token(Token::Symbol(symbol)))
}

fn id(name: &str) -> SyntaxNode {
    SyntaxNode::new(Syntax::Token(Token::Identifier(name.to_string())))
}

fn num(value: i32) -> SyntaxNode {
    SyntaxNode::new(Syntax::Token(Token::Number(value)))
}

fn factor(children: Vec<SyntaxNode>) -> SyntaxNode {
    node(Syntax::Factor, children)
}

fn term(children: Vec<SyntaxNode>) -> SyntaxNode {
    node(Syntax::Term, children)
}

fn expr(children: Vec<SyntaxNode>) -> SyntaxNode {
    node(Syntax::Expression, children)
}

fn stmt(children: Vec<SyntaxNode>) -> SyntaxNode {
    node(Syntax::Statement, children)
}

fn block(children: Vec<SyntaxNode>) -> SyntaxNode {
    node(Syntax::Block, children)
}

/// An expression that is one factor.
fn simple(leaf: SyntaxNode) -> SyntaxNode {
    expr(vec![term(vec![factor(vec![leaf])])])
}

/// A program whose block is one statement.
fn program_of(statement: SyntaxNode) -> SyntaxTree {
    SyntaxTree::new(node(Syntax::Program, vec![block(vec![statement]), sym(Symbol::Period)]))
}

fn at(offset: usize, line: usize, column: usize) -> Position {
    Position { offset, line, column }
}

#[test]
fn the_smallest_program_is_an_empty_statement() {
    assert_eq!(parse("."), Ok(program_of(stmt(vec![]))));
    assert_eq!(parse("  /* nothing to do */ .  "), Ok(program_of(stmt(vec![]))));
}

#[test]
fn bare_reference_is_a_factor_with_one_identifier() {
    let tree = parse("x := foo.").unwrap();
    assert_eq!(
        tree,
        program_of(stmt(vec![id("x"), sym(Symbol::Assign), simple(id("foo"))]))
    );
    let statement = &tree.get_ref_root().get_ref_children()[0].get_ref_children()[0];
    let expression = &statement.get_ref_children()[2];
    let factor = &expression.get_ref_children()[0].get_ref_children()[0];
    assert_eq!(factor.get_ref_syntax(), &Syntax::Factor);
    assert_eq!(factor.get_ref_children().len(), 1);
    assert_eq!(
        factor.get_ref_children()[0].get_ref_syntax(),
        &Syntax::Token(Token::Identifier("foo".to_string()))
    );
    assert!(!factor.get_ref_children()[0].has_child());
}

#[test]
fn call_without_arguments_has_no_expression_children() {
    let tree = parse("x := foo().").unwrap();
    let call = factor(vec![id("foo"), sym(Symbol::Lparen), sym(Symbol::Rparen)]);
    assert_eq!(
        tree,
        program_of(stmt(vec![id("x"), sym(Symbol::Assign), expr(vec![term(vec![call])])]))
    );
    let statement = &tree.get_ref_root().get_ref_children()[0].get_ref_children()[0];
    let found = &statement.get_ref_children()[2].get_ref_children()[0].get_ref_children()[0];
    assert_eq!(found.get_ref_children().len(), 3);
    for child in found.get_ref_children().iter() {
        assert_ne!(child.get_ref_syntax(), &Syntax::Expression);
    }
    assert_ne!(parse("x := foo().").unwrap(), parse("x := foo.").unwrap());
}

#[test]
fn call_with_arguments() {
    let call = factor(vec![
        id("f"),
        sym(Symbol::Lparen),
        simple(num(1)),
        sym(Symbol::Comma),
        simple(id("y")),
        sym(Symbol::Rparen),
    ]);
    assert_eq!(
        parse("x := f(1, y)."),
        Ok(program_of(stmt(vec![id("x"), sym(Symbol::Assign), expr(vec![term(vec![call])])])))
    );
}

#[test]
fn nested_structure() {
    let tree = parse("function f() var x; begin x := 1 end; write x.").unwrap();
    let inner_block = block(vec![
        node(Syntax::VarDecl, vec![kw(Keyword::Var), id("x"), sym(Symbol::SemiColon)]),
        stmt(vec![
            kw(Keyword::Begin),
            stmt(vec![id("x"), sym(Symbol::Assign), simple(num(1))]),
            kw(Keyword::End),
        ]),
    ]);
    let func = node(
        Syntax::FuncDecl,
        vec![
            kw(Keyword::Func),
            id("f"),
            sym(Symbol::Lparen),
            sym(Symbol::Rparen),
            inner_block,
            sym(Symbol::SemiColon),
        ],
    );
    let expected = SyntaxTree::new(node(
        Syntax::Program,
        vec![
            block(vec![func, stmt(vec![kw(Keyword::Write), simple(id("x"))])]),
            sym(Symbol::Period),
        ],
    ));
    assert_eq!(tree, expected);

    let root = tree.get_ref_root();
    assert_eq!(root.get_ref_syntax(), &Syntax::Program);
    assert_eq!(root.get_ref_children().len(), 2);
    let outer = &root.get_ref_children()[0];
    assert_eq!(outer.get_ref_syntax(), &Syntax::Block);
    assert_eq!(outer.get_ref_children()[0].get_ref_syntax(), &Syntax::FuncDecl);
    assert_eq!(outer.get_ref_children()[1].get_ref_syntax(), &Syntax::Statement);
    assert_eq!(
        outer.get_ref_children()[1].get_ref_children()[0].get_ref_syntax(),
        &Syntax::Token(Token::Keyword(Keyword::Write))
    );
    assert_eq!(
        root.get_ref_children()[1].get_ref_syntax(),
        &Syntax::Token(Token::Symbol(Symbol::Period))
    );
}

#[test]
fn semicolon_behind_the_parameters_ends_the_function() {
    // The block of `f` is then an empty statement, `var x;` belongs to the
    // program, and the semicolon behind `end` has no place.
    assert_eq!(
        parse("function f(); var x; begin x := 1 end; write x."),
        Err(ParserError::UnexpectedToken {
            expected: Expectation::Symbol(Symbol::Period),
            found: Token::Symbol(Symbol::SemiColon),
            at: at(37, 0, 37),
        })
    );
    let func = node(
        Syntax::FuncDecl,
        vec![
            kw(Keyword::Func),
            id("f"),
            sym(Symbol::Lparen),
            sym(Symbol::Rparen),
            block(vec![stmt(vec![])]),
            sym(Symbol::SemiColon),
        ],
    );
    let vars = node(Syntax::VarDecl, vec![kw(Keyword::Var), id("x"), sym(Symbol::SemiColon)]);
    let body = stmt(vec![
        kw(Keyword::Begin),
        stmt(vec![id("x"), sym(Symbol::Assign), simple(num(1))]),
        kw(Keyword::End),
    ]);
    assert_eq!(
        parse("function f(); var x; begin x := 1 end."),
        Ok(SyntaxTree::new(node(
            Syntax::Program,
            vec![block(vec![func, vars, body]), sym(Symbol::Period)],
        )))
    );
}

#[test]
fn constant_and_variable_declarations() {
    let consts = node(
        Syntax::ConstDecl,
        vec![
            kw(Keyword::Const),
            id("a"),
            sym(Symbol::Equal),
            num(1),
            sym(Symbol::Comma),
            id("b"),
            sym(Symbol::Equal),
            num(2),
            sym(Symbol::SemiColon),
        ],
    );
    let vars = node(
        Syntax::VarDecl,
        vec![kw(Keyword::Var), id("x"), sym(Symbol::Comma), id("y"), sym(Symbol::SemiColon)],
    );
    let expected = SyntaxTree::new(node(
        Syntax::Program,
        vec![block(vec![consts, vars, stmt(vec![])]), sym(Symbol::Period)],
    ));
    assert_eq!(parse("const a = 1, b = 2; var x, y; ."), Ok(expected));
}

#[test]
fn function_with_parameters() {
    let func = node(
        Syntax::FuncDecl,
        vec![
            kw(Keyword::Func),
            id("add"),
            sym(Symbol::Lparen),
            id("a"),
            sym(Symbol::Comma),
            id("b"),
            sym(Symbol::Rparen),
            block(vec![stmt(vec![
                kw(Keyword::Ret),
                expr(vec![
                    term(vec![factor(vec![id("a")])]),
                    sym(Symbol::Plus),
                    term(vec![factor(vec![id("b")])]),
                ]),
            ])]),
            sym(Symbol::SemiColon),
        ],
    );
    let expected = SyntaxTree::new(node(
        Syntax::Program,
        vec![block(vec![func, stmt(vec![])]), sym(Symbol::Period)],
    ));
    assert_eq!(parse("function add(a, b) return a + b; ."), Ok(expected));
}

#[test]
fn leading_sign_belongs_to_the_expression() {
    let value = expr(vec![
        sym(Symbol::Minus),
        term(vec![factor(vec![num(1)])]),
        sym(Symbol::Minus),
        term(vec![factor(vec![num(2)]), sym(Symbol::Mult), factor(vec![num(3)])]),
        sym(Symbol::Plus),
        term(vec![factor(vec![id("y")]), sym(Symbol::Div), factor(vec![num(4)])]),
    ]);
    assert_eq!(
        parse("x := -1 - 2 * 3 + y / 4."),
        Ok(program_of(stmt(vec![id("x"), sym(Symbol::Assign), value])))
    );
    let plus = expr(vec![sym(Symbol::Plus), term(vec![factor(vec![id("y")])])]);
    assert_eq!(
        parse("x := +y."),
        Ok(program_of(stmt(vec![id("x"), sym(Symbol::Assign), plus])))
    );
}

#[test]
fn sign_is_taken_once() {
    assert_eq!(
        parse("x := - - 1."),
        Err(ParserError::UnexpectedToken {
            expected: Expectation::Factor,
            found: Token::Symbol(Symbol::Minus),
            at: at(7, 0, 7),
        })
    );
}

#[test]
fn parenthesized_expression() {
    let inside = expr(vec![
        term(vec![factor(vec![num(1)])]),
        sym(Symbol::Plus),
        term(vec![factor(vec![num(2)])]),
    ]);
    let value = expr(vec![term(vec![
        factor(vec![sym(Symbol::Lparen), inside, sym(Symbol::Rparen)]),
        sym(Symbol::Mult),
        factor(vec![num(3)]),
    ])]);
    assert_eq!(
        parse("x := (1 + 2) * 3."),
        Ok(program_of(stmt(vec![id("x"), sym(Symbol::Assign), value])))
    );
}

#[test]
fn conditional_and_loop() {
    let test = node(
        Syntax::Condition,
        vec![simple(id("x")), sym(Symbol::LssEq), simple(num(10))],
    );
    let body = stmt(vec![id("x"), sym(Symbol::Assign), simple(num(0))]);
    assert_eq!(
        parse("if x <= 10 then x := 0."),
        Ok(program_of(stmt(vec![kw(Keyword::If), test, kw(Keyword::Then), body])))
    );
    let odd = node(Syntax::Condition, vec![kw(Keyword::Odd), simple(id("x"))]);
    assert_eq!(
        parse("while odd x do writeln."),
        Ok(program_of(stmt(vec![
            kw(Keyword::While),
            odd,
            kw(Keyword::Do),
            stmt(vec![kw(Keyword::WriteLn)]),
        ])))
    );
}

#[test]
fn every_relation_is_accepted() {
    let cases = [
        ("=", Symbol::Equal),
        ("<>", Symbol::NotEq),
        ("<", Symbol::Lss),
        (">", Symbol::Gtr),
        ("<=", Symbol::LssEq),
        (">=", Symbol::GtrEq),
    ];
    for (text, symbol) in cases.iter() {
        let source = format!("if a {} b then .", text);
        let test = node(Syntax::Condition, vec![simple(id("a")), sym(*symbol), simple(id("b"))]);
        assert_eq!(
            parse(&source),
            Ok(program_of(stmt(vec![kw(Keyword::If), test, kw(Keyword::Then), stmt(vec![])])))
        );
    }
}

#[test]
fn condition_needs_a_relation() {
    assert_eq!(
        parse("if a then ."),
        Err(ParserError::UnexpectedToken {
            expected: Expectation::Relation,
            found: Token::Keyword(Keyword::Then),
            at: at(5, 0, 5),
        })
    );
    assert_eq!(
        parse("if a , b then ."),
        Err(ParserError::UnexpectedToken {
            expected: Expectation::Relation,
            found: Token::Symbol(Symbol::Comma),
            at: at(5, 0, 5),
        })
    );
}

#[test]
fn compound_statement_with_empty_statements() {
    assert_eq!(
        parse("begin end."),
        Ok(program_of(stmt(vec![kw(Keyword::Begin), stmt(vec![]), kw(Keyword::End)])))
    );
    assert_eq!(
        parse("begin ; writeln ; end."),
        Ok(program_of(stmt(vec![
            kw(Keyword::Begin),
            stmt(vec![]),
            sym(Symbol::SemiColon),
            stmt(vec![kw(Keyword::WriteLn)]),
            sym(Symbol::SemiColon),
            stmt(vec![]),
            kw(Keyword::End),
        ])))
    );
}

#[test]
fn end_of_input_inside_a_production() {
    assert_eq!(
        parse(""),
        Err(ParserError::ReachedEOF {
            expected: Expectation::Symbol(Symbol::Period),
            at: at(0, 0, 0),
        })
    );
    assert_eq!(
        parse("x := 1"),
        Err(ParserError::ReachedEOF {
            expected: Expectation::Symbol(Symbol::Period),
            at: at(6, 0, 6),
        })
    );
    assert_eq!(
        parse("x :="),
        Err(ParserError::ReachedEOF { expected: Expectation::Factor, at: at(4, 0, 4) })
    );
    assert_eq!(
        parse("begin x := 1;\n"),
        Err(ParserError::ReachedEOF {
            expected: Expectation::Keyword(Keyword::End),
            at: at(14, 1, 0),
        })
    );
    assert_eq!(
        parse("var"),
        Err(ParserError::ReachedEOF { expected: Expectation::Identifier, at: at(3, 0, 3) })
    );
}

#[test]
fn token_behind_the_final_period() {
    assert_eq!(
        parse("x := 1. y"),
        Err(ParserError::ExpectedEOF { found: Token::Identifier("y".to_string()), at: at(8, 0, 8) })
    );
    assert_eq!(
        parse(".."),
        Err(ParserError::ExpectedEOF { found: Token::Symbol(Symbol::Period), at: at(1, 0, 1) })
    );
}

#[test]
fn unexpected_tokens() {
    assert_eq!(
        parse("x 1."),
        Err(ParserError::UnexpectedToken {
            expected: Expectation::Symbol(Symbol::Assign),
            found: Token::Number(1),
            at: at(2, 0, 2),
        })
    );
    assert_eq!(
        parse("x := ."),
        Err(ParserError::UnexpectedToken {
            expected: Expectation::Factor,
            found: Token::Symbol(Symbol::Period),
            at: at(5, 0, 5),
        })
    );
    assert_eq!(
        parse("const = 1; ."),
        Err(ParserError::UnexpectedToken {
            expected: Expectation::Identifier,
            found: Token::Symbol(Symbol::Equal),
            at: at(6, 0, 6),
        })
    );
    assert_eq!(
        parse("const a = b; ."),
        Err(ParserError::UnexpectedToken {
            expected: Expectation::Number,
            found: Token::Identifier("b".to_string()),
            at: at(10, 0, 10),
        })
    );
    assert_eq!(
        parse("var x\nbegin end."),
        Err(ParserError::UnexpectedToken {
            expected: Expectation::Symbol(Symbol::SemiColon),
            found: Token::Keyword(Keyword::Begin),
            at: at(6, 1, 0),
        })
    );
    assert_eq!(
        parse("if odd x do ."),
        Err(ParserError::UnexpectedToken {
            expected: Expectation::Keyword(Keyword::Then),
            found: Token::Keyword(Keyword::Do),
            at: at(9, 0, 9),
        })
    );
    assert_eq!(
        parse("x := (1 ."),
        Err(ParserError::UnexpectedToken {
            expected: Expectation::Symbol(Symbol::Rparen),
            found: Token::Symbol(Symbol::Period),
            at: at(8, 0, 8),
        })
    );
    assert_eq!(
        parse("end."),
        Err(ParserError::UnexpectedToken {
            expected: Expectation::Symbol(Symbol::Period),
            found: Token::Keyword(Keyword::End),
            at: at(0, 0, 0),
        })
    );
}

#[test]
fn comma_must_be_followed_by_another_item() {
    assert_eq!(
        parse("x := f(1,)."),
        Err(ParserError::UnexpectedToken {
            expected: Expectation::Factor,
            found: Token::Symbol(Symbol::Rparen),
            at: at(9, 0, 9),
        })
    );
    assert_eq!(
        parse("function f(a,) ; ."),
        Err(ParserError::UnexpectedToken {
            expected: Expectation::Identifier,
            found: Token::Symbol(Symbol::Rparen),
            at: at(13, 0, 13),
        })
    );
    assert_eq!(
        parse("var x, ; ."),
        Err(ParserError::UnexpectedToken {
            expected: Expectation::Identifier,
            found: Token::Symbol(Symbol::SemiColon),
            at: at(7, 0, 7),
        })
    );
}

#[test]
fn lexical_failures_name_their_place() {
    assert_eq!(
        parse("x := 1 $."),
        Err(ParserError::Lexical { error: TokenizerError::UndefinedToken, at: at(7, 0, 7) })
    );
    assert_eq!(
        parse("$"),
        Err(ParserError::Lexical { error: TokenizerError::UndefinedToken, at: at(0, 0, 0) })
    );
    assert_eq!(
        parse("x := 1.\n/* the end"),
        Err(ParserError::Lexical { error: TokenizerError::CommentNotTerminated, at: at(8, 1, 0) })
    );
    assert_eq!(
        parse("x : = 1."),
        Err(ParserError::Lexical { error: TokenizerError::UndefinedToken, at: at(2, 0, 2) })
    );
    assert_eq!(
        parse("x := 99999999999."),
        Err(ParserError::Lexical { error: TokenizerError::UndefinedToken, at: at(5, 0, 5) })
    );
}

#[test]
fn syntax_error_in_front_of_a_lexical_failure_wins() {
    assert_eq!(
        parse("x 1 $"),
        Err(ParserError::UnexpectedToken {
            expected: Expectation::Symbol(Symbol::Assign),
            found: Token::Number(1),
            at: at(2, 0, 2),
        })
    );
}

#[test]
fn nesting_is_limited() {
    assert_eq!(DEFAULT_MAX_DEPTH, 512);
    assert!(parse_within("x := 1.", 6).is_ok());
    assert_eq!(parse_within("x := 1.", 5), Err(ParserError::TooDeep { at: at(5, 0, 5) }));
    assert_eq!(parse_within("x := 1.", 0), Err(ParserError::TooDeep { at: at(0, 0, 0) }));
    assert_eq!(parse_within(".", 2), Err(ParserError::TooDeep { at: at(0, 0, 0) }));
    assert!(parse_within(".", 3).is_ok());
    assert_eq!(parse_within("", 2), Err(ParserError::TooDeep { at: at(0, 0, 0) }));
}

#[test]
fn deep_nesting_is_rejected_by_default() {
    let shallow = format!("x := {}1{}.", "(".repeat(100), ")".repeat(100));
    assert!(parse(&shallow).is_ok());
    let deep = format!("x := {}1{}.", "(".repeat(200), ")".repeat(200));
    match parse(&deep) {
        Err(ParserError::TooDeep { at }) => {
            assert_eq!(at.line, 0);
            // Program, Block and Statement take three levels, every
            // parenthesis three more: Expression, Term and Factor.
            assert_eq!(at.offset, 5 + (512 - 3) / 3);
        },
        other => panic!("{:?}", other),
    }
    let begins = format!("{} {}.", "begin ".repeat(600), "end ".repeat(600));
    assert!(matches!(parse(&begins), Err(ParserError::TooDeep { .. })));
}

#[test]
fn leaves_are_the_tokens_of_the_source() {
    let sources = [
        ".",
        "x := foo().",
        "function f() var x; begin x := 1 end; write x.",
        "const a = 1, b = 2;\nvar x, y;\nfunction g(p, q)\n  begin\n    if p <> q then return p * (q - 1);\n    while odd p do p := p / 2\n  end;\nbegin x := g(a, b) /* call */; y := -x + 2; writeln end.",
    ];
    for source in sources.iter() {
        let tree = parse(source).unwrap();
        let tokens = Tokenizer::new(source.as_bytes().to_vec()).read_all().unwrap();
        assert_eq!(tree.leaves(), tokens);
        assert_eq!(tree.get_ref_root().leaves(), tokens);
    }
}

#[test]
fn spaces_and_comments_do_not_change_the_tree() {
    let plain = "var x;begin x:=1;if x<=2 then write x*(x+1)end.";
    let spaced = "  var\tx ;\r\n\nbegin /* start */ x := 1 ;\n  if x <= 2 /**/ then\n    write x * ( x + 1 )\nend /* done\n */ .\n";
    assert_eq!(parse(plain).unwrap(), parse(spaced).unwrap());
    assert_eq!(parse("x:=foo."), parse("/* a */ x /* b */ := /* c */ foo /* d */ . /* e */"));
}

#[test]
fn a_space_inside_a_token_makes_two_tokens() {
    assert!(parse("x := 12.").is_ok());
    assert_eq!(
        parse("x := 1 2."),
        Err(ParserError::UnexpectedToken {
            expected: Expectation::Symbol(Symbol::Period),
            found: Token::Number(2),
            at: at(7, 0, 7),
        })
    );
    assert_eq!(
        parse("x : = 1."),
        Err(ParserError::Lexical { error: TokenizerError::UndefinedToken, at: at(2, 0, 2) })
    );
    assert_ne!(parse("if a <= b then ."), parse("if a < = b then ."));
}

#[test]
fn layout_in_front_of_any_token_keeps_the_tree() {
    let source = "var x;begin x:=1;if x<=2 then write f(x,-x)*(x+1)end.";
    let tokens = Tokenizer::new(source.as_bytes().to_vec()).read_all().unwrap();
    let tree = parse(source).unwrap();
    let mut starts: Vec<usize> = vec![];
    let mut tokenizer = Tokenizer::new(source.as_bytes().to_vec());
    while tokenizer.get_next_token().is_ok() {
        starts.push(tokenizer.token_position().offset);
    }
    assert_eq!(starts.len(), tokens.len());
    starts.push(source.len());
    for element in [" ", "\n", "\t", "/**/", "/* * / */", "/*/*/"].iter() {
        for start in starts.iter() {
            let changed = format!("{}{}{}", &source[..*start], element, &source[*start..]);
            assert_eq!(parse(&changed).as_ref(), Ok(&tree));
            let read = Tokenizer::new(changed.as_bytes().to_vec()).read_all();
            assert_eq!(read.as_ref(), Ok(&tokens));
        }
    }
}

#[test]
fn parser_starts_where_the_tokenizer_stands() {
    let mut tokenizer = Tokenizer::new(b"skipped x := 1.".to_vec());
    assert_eq!(tokenizer.get_next_token(), Ok(Token::Identifier("skipped".to_string())));
    let tree = Parser::new(tokenizer).parse().unwrap();
    assert_eq!(tree, program_of(stmt(vec![id("x"), sym(Symbol::Assign), simple(num(1))])));
}

#[test]
fn hand_built_nodes() {
    let mut n = SyntaxNode::new(Syntax::Term);
    assert!(!n.has_child());
    assert_eq!(n.get_ref_syntax(), &Syntax::Term);
    assert_eq!(n.get_ref_children().len(), 0);
    n.append_child(factor(vec![num(1)]));
    n.append_child(sym(Symbol::Mult));
    assert!(n.has_child());
    assert_eq!(n.get_ref_children().len(), 2);
    assert_eq!(n.get_ref_children()[0], factor(vec![num(1)]));
    assert_eq!(n.get_ref_children()[1], sym(Symbol::Mult));
    assert_eq!(n.leaves(), vec![Token::Number(1), Token::Symbol(Symbol::Mult)]);
}

#[test]
fn hand_built_tree() {
    let root = node(Syntax::Program, vec![block(vec![stmt(vec![])]), sym(Symbol::Period)]);
    let tree = SyntaxTree::new(root);
    assert_eq!(tree.get_ref_root().get_ref_syntax(), &Syntax::Program);
    assert_eq!(tree.get_ref_root().get_ref_children().len(), 2);
    assert_eq!(tree.leaves(), vec![Token::Symbol(Symbol::Period)]);
    assert_eq!(Ok(tree), parse("."));
}

#[test]
fn test_parse() {
    let sources = [
        "const max = 100;\nvar n, sum;\nbegin\n  n := 1; sum := 0;\n  while n <= max do\n    begin sum := sum + n; n := n + 1 end;\n  write sum; writeln\nend.\n",
        "function fact(n)\n  begin\n    if n = 0 then return 1;\n    return n * fact(n - 1)\n  end;\nbegin write fact(5); writeln end.\n",
        "function gcd(a, b)\n  var t;\n  begin\n    while b <> 0 do begin t := a - (a / b) * b; a := b; b := t end;\n    return a\n  end;\nwrite gcd(12, 18).\n",
    ];
    for source in sources.iter() {
        let tree = parse(source).unwrap();
        assert_eq!(tree.get_ref_root().get_ref_syntax(), &Syntax::Program);
        assert_eq!(tree.get_ref_root().get_ref_children().len(), 2);
    }
}
