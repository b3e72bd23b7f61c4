use pl0dash_compiler::analyzer::Analyzer;
use pl0dash_compiler::emitter::{emit, emit_node};
use pl0dash_compiler::grammar::Expectation;
use pl0dash_compiler::keyword::Keyword;
use pl0dash_compiler::parser::{Parser, ParserError};
use pl0dash_compiler::position::Position;
use pl0dash_compiler::symbol::Symbol;
use pl0dash_compiler::tokenizer::{Token, Tokenizer, TokenizerError};
use pl0dash_compiler::tree::{Syntax, SyntaxNode};

fn emit_source(source: &str) -> String {
    let tree = Parser::new(Tokenizer::new(source.as_bytes().to_vec())).parse().unwrap();
    emit(&tree)
}

fn emit_token(token: Token) -> String {
    emit_node(&SyntaxNode::new(Syntax::Token(token)))
}

#[test]
fn assignment_is_written_line_by_line() {
    let expected = "\
<Program>
<Block>
<Statement>
<identifier> x </identifier>
<symbol> Assign </symbol>
<Expression>
<Term>
<Factor>
<number> 1 </number>
</Factor>
</Term>
</Expression>
</Statement>
</Block>
<symbol> Period </symbol>
</Program>
";
    assert_eq!(emit_source("x := 1."), expected);
}

#[test]
fn empty_statement_is_an_empty_pair_of_tags() {
    assert_eq!(
        emit_source("."),
        "<Program>\n<Block>\n<Statement>\n</Statement>\n</Block>\n<symbol> Period </symbol>\n</Program>\n"
    );
}

#[test]
fn declarations_and_keywords_are_written_as_spelled() {
    let expected = "\
<Program>
<Block>
<ConstDecl>
<keyword> const </keyword>
<identifier> ten </identifier>
<symbol> Equal </symbol>
<number> 10 </number>
<symbol> SemiColon </symbol>
</ConstDecl>
<VarDecl>
<keyword> var </keyword>
<identifier> x </identifier>
<symbol> SemiColon </symbol>
</VarDecl>
<FuncDecl>
<keyword> function </keyword>
<identifier> f </identifier>
<symbol> Lparen </symbol>
<symbol> Rparen </symbol>
<Block>
<Statement>
<keyword> writeln </keyword>
</Statement>
</Block>
<symbol> SemiColon </symbol>
</FuncDecl>
<Statement>
<keyword> if </keyword>
<Condition>
<keyword> odd </keyword>
<Expression>
<Term>
<Factor>
<identifier> x </identifier>
</Factor>
</Term>
</Expression>
</Condition>
<keyword> then </keyword>
<Statement>
</Statement>
</Statement>
</Block>
<symbol> Period </symbol>
</Program>
";
    assert_eq!(emit_source("const ten = 10; var x; function f() writeln; if odd x then ."), expected);
}

#[test]
fn tokens_are_written_with_their_kind_and_text() {
    assert_eq!(emit_token(Token::Keyword(Keyword::Begin)), "<keyword> begin </keyword>\n");
    assert_eq!(emit_token(Token::Keyword(Keyword::Ret)), "<keyword> return </keyword>\n");
    assert_eq!(emit_token(Token::Keyword(Keyword::Func)), "<keyword> function </keyword>\n");
    assert_eq!(emit_token(Token::Symbol(Symbol::LssEq)), "<symbol> LssEq </symbol>\n");
    assert_eq!(emit_token(Token::Symbol(Symbol::NotEq)), "<symbol> NotEq </symbol>\n");
    assert_eq!(
        emit_token(Token::Identifier("counter1".to_string())),
        "<identifier> counter1 </identifier>\n"
    );
    assert_eq!(emit_token(Token::Identifier(String::new())), "<identifier>  </identifier>\n");
}

#[test]
fn numbers_are_written_in_base_ten() {
    assert_eq!(emit_token(Token::Number(0)), "<number> 0 </number>\n");
    assert_eq!(emit_token(Token::Number(7)), "<number> 7 </number>\n");
    assert_eq!(emit_token(Token::Number(10)), "<number> 10 </number>\n");
    assert_eq!(emit_token(Token::Number(1234567890)), "<number> 1234567890 </number>\n");
    assert_eq!(emit_token(Token::Number(2147483647)), "<number> 2147483647 </number>\n");
    assert_eq!(emit_token(Token::Number(-1)), "<number> -1 </number>\n");
    assert_eq!(emit_token(Token::Number(-40)), "<number> -40 </number>\n");
    assert_eq!(emit_token(Token::Number(i32::MIN)), "<number> -2147483648 </number>\n");
}

#[test]
fn leading_zeros_are_not_kept() {
    assert!(emit_source("x := 007.").contains("<number> 7 </number>\n"));
}

#[test]
fn every_opening_tag_has_its_closing_tag() {
    let text = emit_source(
        "function f(a) begin if a < 1 then return 0; return f(a - 1) + 1 end; write f(3).",
    );
    let mut open: Vec<String> = vec![];
    for line in text.lines() {
        if line.starts_with("</") {
            let name = &line[2..line.len() - 1];
            assert_eq!(open.pop(), Some(name.to_string()));
        } else if line.ends_with('>') && !line.contains(' ') {
            open.push(line[1..line.len() - 1].to_string());
        } else {
            let first = line.split(' ').next().unwrap();
            let last = line.split(' ').last().unwrap();
            assert_eq!(format!("</{}", &first[1..]), last);
        }
    }
    assert!(open.is_empty());
    assert!(text.ends_with("</Program>\n"));
}

#[test]
fn analyzer_runs_the_whole_front_end() {
    let source = "var x; begin x := 2; write x * x end.";
    assert_eq!(Analyzer::run(source.as_bytes().to_vec()), Ok(emit_source(source)));
    assert_eq!(
        Analyzer::run(b".".to_vec()),
        Ok("<Program>\n<Block>\n<Statement>\n</Statement>\n</Block>\n<symbol> Period </symbol>\n</Program>\n"
            .to_string())
    );
}

#[test]
fn analyzer_reports_errors() {
    assert_eq!(
        Analyzer::run(b"x := 1".to_vec()),
        Err(ParserError::ReachedEOF {
            expected: Expectation::Symbol(Symbol::Period),
            at: Position { offset: 6, line: 0, column: 6 },
        })
    );
    assert_eq!(
        Analyzer::run(b"x := 1 /* oops".to_vec()),
        Err(ParserError::Lexical {
            error: TokenizerError::CommentNotTerminated,
            at: Position { offset: 7, line: 0, column: 7 },
        })
    );
    assert_eq!(
        Analyzer::run(b"begin\n  x = 1\nend.".to_vec()),
        Err(ParserError::UnexpectedToken {
            expected: Expectation::Symbol(Symbol::Assign),
            found: Token::Symbol(Symbol::Equal),
            at: Position { offset: 10, line: 1, column: 4 },
        })
    );
}

#[test]
fn one_failure_does_not_affect_the_next_run() {
    assert!(Analyzer::run(b"x := $".to_vec()).is_err());
    assert!(Analyzer::run(b"x := 1.".to_vec()).is_ok());
    assert!(Analyzer::run(b"/*".to_vec()).is_err());
    assert!(Analyzer::run(b"x := 1.".to_vec()).is_ok());
}
