use pl0dash_compiler::keyword::Keyword;
use pl0dash_compiler::position::Position;
use pl0dash_compiler::symbol::Symbol;
use pl0dash_compiler::tokenizer::{Token, Tokenizer, TokenizerError};

fn tokenizer(source: &str) -> Tokenizer {
    Tokenizer::new(source.as_bytes().to_vec())
}

fn all_tokens(source: &str) -> Result<Vec<Token>, TokenizerError> {
    tokenizer(source).read_all()
}

fn ident(name: &str) -> Token {
    Token::Identifier(name.to_string())
}

#[test]
fn empty_input_is_exhausted_at_once() {
    let mut t = tokenizer("");
    assert_eq!(t.get_next_token(), Err(TokenizerError::ReachedEOF));
    assert_eq!(t.get_next_token(), Err(TokenizerError::ReachedEOF));
    assert_eq!(all_tokens(""), Ok(vec![]));
}

#[test]
fn whitespace_only_is_exhausted() {
    let mut t = tokenizer(" \t\r\n\x0c ");
    assert_eq!(t.get_next_token(), Err(TokenizerError::ReachedEOF));
    assert_eq!(t.position().offset, 6);
}

#[test]
fn last_token_is_not_read_twice() {
    let mut t = tokenizer("x");
    assert_eq!(t.get_next_token(), Ok(ident("x")));
    assert_eq!(t.get_next_token(), Err(TokenizerError::ReachedEOF));
}

#[test]
fn numbers_fold_their_digits() {
    assert_eq!(all_tokens("0"), Ok(vec![Token::Number(0)]));
    assert_eq!(all_tokens("42"), Ok(vec![Token::Number(42)]));
    assert_eq!(all_tokens("007"), Ok(vec![Token::Number(7)]));
    assert_eq!(all_tokens("1234567890"), Ok(vec![Token::Number(1234567890)]));
}

#[test]
fn largest_number_is_accepted() {
    assert_eq!(all_tokens("2147483647"), Ok(vec![Token::Number(2147483647)]));
    assert_eq!(all_tokens("0002147483647"), Ok(vec![Token::Number(2147483647)]));
}

#[test]
fn number_too_large_is_undefined() {
    assert_eq!(all_tokens("2147483648"), Err(TokenizerError::UndefinedToken));
    assert_eq!(all_tokens("99999999999999999999999"), Err(TokenizerError::UndefinedToken));
    let mut t = tokenizer("x 2147483648 y");
    assert_eq!(t.get_next_token(), Ok(ident("x")));
    assert_eq!(t.get_next_token(), Err(TokenizerError::UndefinedToken));
    assert_eq!(t.position(), Position { offset: 2, line: 0, column: 2 });
    assert_eq!(t.token_position(), Position { offset: 2, line: 0, column: 2 });
}

#[test]
fn number_stops_at_first_non_digit() {
    assert_eq!(all_tokens("123abc"), Ok(vec![Token::Number(123), ident("abc")]));
    assert_eq!(
        all_tokens("12+3"),
        Ok(vec![Token::Number(12), Token::Symbol(Symbol::Plus), Token::Number(3)])
    );
}

#[test]
fn words_are_keywords_or_identifiers() {
    assert_eq!(all_tokens("begin"), Ok(vec![Token::Keyword(Keyword::Begin)]));
    assert_eq!(all_tokens("beginx"), Ok(vec![ident("beginx")]));
    assert_eq!(all_tokens("Begin"), Ok(vec![ident("Begin")]));
    assert_eq!(all_tokens("x1y2"), Ok(vec![ident("x1y2")]));
    assert_eq!(all_tokens("writeln write"), Ok(vec![
        Token::Keyword(Keyword::WriteLn),
        Token::Keyword(Keyword::Write),
    ]));
}

#[test]
fn every_keyword_is_recognized() {
    assert_eq!(
        all_tokens("begin end if then while do return function var const odd write writeln"),
        Ok(vec![
            Token::Keyword(Keyword::Begin),
            Token::Keyword(Keyword::End),
            Token::Keyword(Keyword::If),
            Token::Keyword(Keyword::Then),
            Token::Keyword(Keyword::While),
            Token::Keyword(Keyword::Do),
            Token::Keyword(Keyword::Ret),
            Token::Keyword(Keyword::Func),
            Token::Keyword(Keyword::Var),
            Token::Keyword(Keyword::Const),
            Token::Keyword(Keyword::Odd),
            Token::Keyword(Keyword::Write),
            Token::Keyword(Keyword::WriteLn),
        ])
    );
}

#[test]
fn every_single_byte_symbol_is_recognized() {
    assert_eq!(
        all_tokens("+ - * / ( ) = < > , . ;"),
        Ok(vec![
            Token::Symbol(Symbol::Plus),
            Token::Symbol(Symbol::Minus),
            Token::Symbol(Symbol::Mult),
            Token::Symbol(Symbol::Div),
            Token::Symbol(Symbol::Lparen),
            Token::Symbol(Symbol::Rparen),
            Token::Symbol(Symbol::Equal),
            Token::Symbol(Symbol::Lss),
            Token::Symbol(Symbol::Gtr),
            Token::Symbol(Symbol::Comma),
            Token::Symbol(Symbol::Period),
            Token::Symbol(Symbol::SemiColon),
        ])
    );
}

#[test]
fn less_or_equal_is_one_token() {
    assert_eq!(all_tokens("<="), Ok(vec![Token::Symbol(Symbol::LssEq)]));
    assert_eq!(
        all_tokens("a<=b"),
        Ok(vec![ident("a"), Token::Symbol(Symbol::LssEq), ident("b")])
    );
}

#[test]
fn less_than_keeps_the_following_byte() {
    assert_eq!(all_tokens("<x"), Ok(vec![Token::Symbol(Symbol::Lss), ident("x")]));
    assert_eq!(all_tokens("<1"), Ok(vec![Token::Symbol(Symbol::Lss), Token::Number(1)]));
    assert_eq!(
        all_tokens("<("),
        Ok(vec![Token::Symbol(Symbol::Lss), Token::Symbol(Symbol::Lparen)])
    );
    assert_eq!(
        all_tokens("<<="),
        Ok(vec![Token::Symbol(Symbol::Lss), Token::Symbol(Symbol::LssEq)])
    );
    assert_eq!(all_tokens("<"), Ok(vec![Token::Symbol(Symbol::Lss)]));
    let mut t = tokenizer("<x");
    assert_eq!(t.get_next_token(), Ok(Token::Symbol(Symbol::Lss)));
    assert_eq!(t.position().offset, 1);
}

#[test]
fn other_compound_operators() {
    assert_eq!(all_tokens("<>"), Ok(vec![Token::Symbol(Symbol::NotEq)]));
    assert_eq!(all_tokens(">="), Ok(vec![Token::Symbol(Symbol::GtrEq)]));
    assert_eq!(all_tokens(":="), Ok(vec![Token::Symbol(Symbol::Assign)]));
    assert_eq!(all_tokens(">"), Ok(vec![Token::Symbol(Symbol::Gtr)]));
    assert_eq!(all_tokens(">x"), Ok(vec![Token::Symbol(Symbol::Gtr), ident("x")]));
    assert_eq!(
        all_tokens("><"),
        Ok(vec![Token::Symbol(Symbol::Gtr), Token::Symbol(Symbol::Lss)])
    );
    assert_eq!(
        all_tokens("=<"),
        Ok(vec![Token::Symbol(Symbol::Equal), Token::Symbol(Symbol::Lss)])
    );
    assert_eq!(
        all_tokens("< ="),
        Ok(vec![Token::Symbol(Symbol::Lss), Token::Symbol(Symbol::Equal)])
    );
}

#[test]
fn lone_colon_is_undefined() {
    assert_eq!(all_tokens(":"), Err(TokenizerError::UndefinedToken));
    assert_eq!(all_tokens(":x"), Err(TokenizerError::UndefinedToken));
    assert_eq!(all_tokens(": ="), Err(TokenizerError::UndefinedToken));
}

#[test]
fn bytes_outside_the_language_are_undefined() {
    assert_eq!(all_tokens("$"), Err(TokenizerError::UndefinedToken));
    assert_eq!(all_tokens("x # y"), Err(TokenizerError::UndefinedToken));
    assert_eq!(all_tokens("\0"), Err(TokenizerError::UndefinedToken));
    assert_eq!(all_tokens("\u{e9}"), Err(TokenizerError::UndefinedToken));
    let mut t = tokenizer("ab\n  $c");
    assert_eq!(t.get_next_token(), Ok(ident("ab")));
    assert_eq!(t.get_next_token(), Err(TokenizerError::UndefinedToken));
    assert_eq!(t.position(), Position { offset: 5, line: 1, column: 2 });
    assert_eq!(t.get_next_token(), Err(TokenizerError::UndefinedToken));
}

#[test]
fn comments_are_passed_over() {
    assert_eq!(all_tokens("/* nothing */"), Ok(vec![]));
    assert_eq!(all_tokens("/**/"), Ok(vec![]));
    assert_eq!(all_tokens("a/* b */c"), Ok(vec![ident("a"), ident("c")]));
    assert_eq!(all_tokens("a /* one */ /* two */ b"), Ok(vec![ident("a"), ident("b")]));
    assert_eq!(all_tokens("/* line\nbreak */ 1"), Ok(vec![Token::Number(1)]));
    assert_eq!(all_tokens("/* a ** b */ 1"), Ok(vec![Token::Number(1)]));
    assert_eq!(all_tokens("/***/ 1"), Ok(vec![Token::Number(1)]));
    assert_eq!(all_tokens("/* /* */ 1"), Ok(vec![Token::Number(1)]));
}

#[test]
fn slash_without_asterisk_is_division() {
    assert_eq!(
        all_tokens("a / b"),
        Ok(vec![ident("a"), Token::Symbol(Symbol::Div), ident("b")])
    );
    assert_eq!(all_tokens("/"), Ok(vec![Token::Symbol(Symbol::Div)]));
    assert_eq!(
        all_tokens("/ *"),
        Ok(vec![Token::Symbol(Symbol::Div), Token::Symbol(Symbol::Mult)])
    );
}

#[test]
fn unterminated_comment_is_an_error() {
    assert_eq!(all_tokens("/*"), Err(TokenizerError::CommentNotTerminated));
    assert_eq!(all_tokens("/* never closed"), Err(TokenizerError::CommentNotTerminated));
    assert_eq!(all_tokens("/*/"), Err(TokenizerError::CommentNotTerminated));
    assert_eq!(all_tokens("/* *"), Err(TokenizerError::CommentNotTerminated));
    assert_eq!(all_tokens("x := 1 /* oops"), Err(TokenizerError::CommentNotTerminated));
    assert_eq!(all_tokens("/* a */ /* b"), Err(TokenizerError::CommentNotTerminated));
}

#[test]
fn unterminated_comment_leaves_cursor_at_its_start() {
    let mut t = tokenizer("a\n /* b");
    assert_eq!(t.get_next_token(), Ok(ident("a")));
    assert_eq!(t.get_next_token(), Err(TokenizerError::CommentNotTerminated));
    assert_eq!(t.position(), Position { offset: 3, line: 1, column: 1 });
    assert_eq!(t.token_position(), Position { offset: 3, line: 1, column: 1 });
}

#[test]
fn positions_count_lines_and_columns_from_zero() {
    let mut t = tokenizer("var x;\n  x := 10\n.");
    assert_eq!(t.position(), Position { offset: 0, line: 0, column: 0 });
    assert_eq!(t.get_next_token(), Ok(Token::Keyword(Keyword::Var)));
    assert_eq!(t.token_position(), Position { offset: 0, line: 0, column: 0 });
    assert_eq!(t.position(), Position { offset: 3, line: 0, column: 3 });
    assert_eq!(t.get_next_token(), Ok(ident("x")));
    assert_eq!(t.token_position(), Position { offset: 4, line: 0, column: 4 });
    assert_eq!(t.get_next_token(), Ok(Token::Symbol(Symbol::SemiColon)));
    assert_eq!(t.get_next_token(), Ok(ident("x")));
    assert_eq!(t.token_position(), Position { offset: 9, line: 1, column: 2 });
    assert_eq!(t.get_next_token(), Ok(Token::Symbol(Symbol::Assign)));
    assert_eq!(t.token_position(), Position { offset: 11, line: 1, column: 4 });
    assert_eq!(t.position(), Position { offset: 13, line: 1, column: 6 });
    assert_eq!(t.get_next_token(), Ok(Token::Number(10)));
    assert_eq!(t.get_next_token(), Ok(Token::Symbol(Symbol::Period)));
    assert_eq!(t.token_position(), Position { offset: 17, line: 2, column: 0 });
    assert_eq!(t.get_next_token(), Err(TokenizerError::ReachedEOF));
    assert_eq!(t.token_position(), Position { offset: 18, line: 2, column: 1 });
}

#[test]
fn read_all_starts_where_the_cursor_stands() {
    let mut t = tokenizer("a b c");
    assert_eq!(t.get_next_token(), Ok(ident("a")));
    assert_eq!(t.read_all(), Ok(vec![ident("b"), ident("c")]));
    assert_eq!(t.read_all(), Ok(vec![]));
}

#[test]
fn token_clone_keeps_the_token() {
    let tokens = vec![
        Token::Keyword(Keyword::Odd),
        Token::Symbol(Symbol::NotEq),
        ident("name"),
        Token::Number(-5),
    ];
    for token in tokens.iter() {
        assert_eq!(&token.clone(), token);
    }
}

#[test]
fn test_export_xml() {
    let source = "const n = 10;\nvar x;\nbegin\n  x := n * 2; /* twice */\n  write x\nend.\n";
    let mut t = tokenizer(source);
    let mut lines: Vec<String> = vec![];
    lines.push("<tokens>".to_string());
    loop {
        match t.get_next_token() {
            Ok(Token::Keyword(kw)) => lines.push(format!("<keyword> {:?} </keyword>", kw)),
            Ok(Token::Symbol(sym)) => lines.push(format!("<symbol> {:?} </symbol>", sym)),
            Ok(Token::Identifier(s)) => lines.push(format!("<identifier> {} </identifier>", s)),
            Ok(Token::Number(i)) => lines.push(format!("<number> {} </number>", i)),
            Err(TokenizerError::ReachedEOF) => break,
            Err(e) => panic!("{:?}", e),
        }
    }
    lines.push("</tokens>".to_string());
    let expected = vec![
        "<tokens>",
        "<keyword> Const </keyword>",
        "<identifier> n </identifier>",
        "<symbol> Equal </symbol>",
        "<number> 10 </number>",
        "<symbol> SemiColon </symbol>",
        "<keyword> Var </keyword>",
        "<identifier> x </identifier>",
        "<symbol> SemiColon </symbol>",
        "<keyword> Begin </keyword>",
        "<identifier> x </identifier>",
        "<symbol> Assign </symbol>",
        "<identifier> n </identifier>",
        "<symbol> Mult </symbol>",
        "<number> 2 </number>",
        "<symbol> SemiColon </symbol>",
        "<keyword> Write </keyword>",
        "<identifier> x </identifier>",
        "<keyword> End </keyword>",
        "<symbol> Period </symbol>",
        "</tokens>",
    ];
    assert_eq!(lines, expected);
}

#[test]
fn error_messages() {
    assert_eq!(TokenizerError::ReachedEOF.message(), "Error: Reached EOF");
    assert_eq!(TokenizerError::UndefinedToken.message(), "Error: Undefined token found");
    assert_eq!(TokenizerError::CannotReadByte.message(), "Error: Cannot read byte");
    assert_eq!(TokenizerError::CommentNotTerminated.message(), "Comment Not Terminated");
}
