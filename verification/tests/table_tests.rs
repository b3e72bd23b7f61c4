use pl0dash_compiler::char_class::CharClass;
use pl0dash_compiler::keyword::{Keyword, UndefinedKeywordError};
use pl0dash_compiler::position::{Position, LINE_FEED};
use pl0dash_compiler::symbol::{Symbol, UndefinedSymbol};
use pl0dash_compiler::text::{same_bytes, text_of};

#[test]
fn digits_and_letters_are_classified() {
    for b in b'0'..=b'9' {
        assert_eq!(CharClass::from_u8(b), CharClass::Digit);
    }
    for b in b'a'..=b'z' {
        assert_eq!(CharClass::from_u8(b), CharClass::Letter);
    }
    for b in b'A'..=b'Z' {
        assert_eq!(CharClass::from_u8(b), CharClass::Letter);
    }
}

#[test]
fn punctuation_is_classified() {
    assert_eq!(CharClass::from_u8(b'+'), CharClass::Plus);
    assert_eq!(CharClass::from_u8(b'-'), CharClass::Minus);
    assert_eq!(CharClass::from_u8(b'*'), CharClass::Aster);
    assert_eq!(CharClass::from_u8(b'/'), CharClass::Slash);
    assert_eq!(CharClass::from_u8(b'('), CharClass::Lparen);
    assert_eq!(CharClass::from_u8(b')'), CharClass::Rparen);
    assert_eq!(CharClass::from_u8(b'='), CharClass::Equal);
    assert_eq!(CharClass::from_u8(b'<'), CharClass::Lss);
    assert_eq!(CharClass::from_u8(b'>'), CharClass::Gtr);
    assert_eq!(CharClass::from_u8(b','), CharClass::Comma);
    assert_eq!(CharClass::from_u8(b'.'), CharClass::Period);
    assert_eq!(CharClass::from_u8(b';'), CharClass::Semicolon);
    assert_eq!(CharClass::from_u8(b':'), CharClass::Colon);
}

#[test]
fn everything_else_is_other() {
    let mut others = 0;
    for b in 0..=255u8 {
        if CharClass::from_u8(b) == CharClass::Other {
            others += 1;
            assert!(!CharClass::from_u8(b).is_reserved());
        } else {
            assert!(CharClass::from_u8(b).is_reserved());
        }
    }
    assert_eq!(others, 256 - 10 - 52 - 13);
    assert_eq!(CharClass::from_u8(b' '), CharClass::Other);
    assert_eq!(CharClass::from_u8(b'\n'), CharClass::Other);
    assert_eq!(CharClass::from_u8(b'_'), CharClass::Other);
    assert_eq!(CharClass::from_u8(b'/' + 1), CharClass::Digit);
    assert_eq!(CharClass::from_u8(b'9' + 1), CharClass::Colon);
    assert_eq!(CharClass::from_u8(b'@'), CharClass::Other);
    assert_eq!(CharClass::from_u8(b'['), CharClass::Other);
    assert_eq!(CharClass::from_u8(b'`'), CharClass::Other);
    assert_eq!(CharClass::from_u8(b'{'), CharClass::Other);
    assert_eq!(CharClass::from_u8(0), CharClass::Other);
    assert_eq!(CharClass::from_u8(255), CharClass::Other);
}

#[test]
fn keywords_are_looked_up_by_spelling() {
    assert_eq!(Keyword::try_from("begin"), Ok(Keyword::Begin));
    assert_eq!(Keyword::try_from("end"), Ok(Keyword::End));
    assert_eq!(Keyword::try_from("if"), Ok(Keyword::If));
    assert_eq!(Keyword::try_from("then"), Ok(Keyword::Then));
    assert_eq!(Keyword::try_from("while"), Ok(Keyword::While));
    assert_eq!(Keyword::try_from("do"), Ok(Keyword::Do));
    assert_eq!(Keyword::try_from("return"), Ok(Keyword::Ret));
    assert_eq!(Keyword::try_from("function"), Ok(Keyword::Func));
    assert_eq!(Keyword::try_from("var"), Ok(Keyword::Var));
    assert_eq!(Keyword::try_from("const"), Ok(Keyword::Const));
    assert_eq!(Keyword::try_from("odd"), Ok(Keyword::Odd));
    assert_eq!(Keyword::try_from("write"), Ok(Keyword::Write));
    assert_eq!(Keyword::try_from("writeln"), Ok(Keyword::WriteLn));
}

#[test]
fn other_words_are_no_keywords() {
    assert_eq!(Keyword::try_from(""), Err(UndefinedKeywordError));
    assert_eq!(Keyword::try_from("Begin"), Err(UndefinedKeywordError));
    assert_eq!(Keyword::try_from("begi"), Err(UndefinedKeywordError));
    assert_eq!(Keyword::try_from("begins"), Err(UndefinedKeywordError));
    assert_eq!(Keyword::try_from("writel"), Err(UndefinedKeywordError));
    assert_eq!(Keyword::try_from("x"), Err(UndefinedKeywordError));
    assert_eq!(Keyword::try_from("d\u{f6}"), Err(UndefinedKeywordError));
    assert_eq!(Keyword::lookup(b"while"), Some(Keyword::While));
    assert_eq!(Keyword::lookup(b"whil\xe9"), None);
    assert_eq!(UndefinedKeywordError.message(), "Undefined keyword");
}

#[test]
fn keyword_spelling_round_trips() {
    let all = [
        Keyword::Begin,
        Keyword::End,
        Keyword::If,
        Keyword::Then,
        Keyword::While,
        Keyword::Do,
        Keyword::Ret,
        Keyword::Func,
        Keyword::Var,
        Keyword::Const,
        Keyword::Odd,
        Keyword::Write,
        Keyword::WriteLn,
    ];
    for keyword in all.iter() {
        assert_eq!(Keyword::try_from(keyword.as_str()), Ok(*keyword));
    }
}

#[test]
fn symbols_of_byte_categories() {
    assert_eq!(Symbol::try_from(CharClass::Plus), Ok(Symbol::Plus));
    assert_eq!(Symbol::try_from(CharClass::Minus), Ok(Symbol::Minus));
    assert_eq!(Symbol::try_from(CharClass::Aster), Ok(Symbol::Mult));
    assert_eq!(Symbol::try_from(CharClass::Slash), Ok(Symbol::Div));
    assert_eq!(Symbol::try_from(CharClass::Lparen), Ok(Symbol::Lparen));
    assert_eq!(Symbol::try_from(CharClass::Rparen), Ok(Symbol::Rparen));
    assert_eq!(Symbol::try_from(CharClass::Equal), Ok(Symbol::Equal));
    assert_eq!(Symbol::try_from(CharClass::Lss), Ok(Symbol::Lss));
    assert_eq!(Symbol::try_from(CharClass::Gtr), Ok(Symbol::Gtr));
    assert_eq!(Symbol::try_from(CharClass::Comma), Ok(Symbol::Comma));
    assert_eq!(Symbol::try_from(CharClass::Period), Ok(Symbol::Period));
    assert_eq!(Symbol::try_from(CharClass::Semicolon), Ok(Symbol::SemiColon));
}

#[test]
fn categories_without_a_symbol() {
    assert_eq!(Symbol::try_from(CharClass::Digit), Err(UndefinedSymbol));
    assert_eq!(Symbol::try_from(CharClass::Letter), Err(UndefinedSymbol));
    assert_eq!(Symbol::try_from(CharClass::Colon), Err(UndefinedSymbol));
    assert_eq!(Symbol::try_from(CharClass::Other), Err(UndefinedSymbol));
    assert_eq!(UndefinedSymbol.message(), "Undefined symbol");
}

#[test]
fn symbol_names() {
    assert_eq!(Symbol::Plus.as_str(), "Plus");
    assert_eq!(Symbol::Minus.as_str(), "Minus");
    assert_eq!(Symbol::Mult.as_str(), "Mult");
    assert_eq!(Symbol::Div.as_str(), "Div");
    assert_eq!(Symbol::Lparen.as_str(), "Lparen");
    assert_eq!(Symbol::Rparen.as_str(), "Rparen");
    assert_eq!(Symbol::Equal.as_str(), "Equal");
    assert_eq!(Symbol::Lss.as_str(), "Lss");
    assert_eq!(Symbol::Gtr.as_str(), "Gtr");
    assert_eq!(Symbol::NotEq.as_str(), "NotEq");
    assert_eq!(Symbol::LssEq.as_str(), "LssEq");
    assert_eq!(Symbol::GtrEq.as_str(), "GtrEq");
    assert_eq!(Symbol::Comma.as_str(), "Comma");
    assert_eq!(Symbol::Period.as_str(), "Period");
    assert_eq!(Symbol::SemiColon.as_str(), "SemiColon");
    assert_eq!(Symbol::Assign.as_str(), "Assign");
}

#[test]
fn bytes_become_characters_one_for_one() {
    assert_eq!(text_of(b""), "");
    assert_eq!(text_of(b"x"), "x");
    assert_eq!(text_of(b"Counter42"), "Counter42");
    assert_eq!(text_of(&[0x41, 0x7f, 0x00]), "A\u{7f}\u{0}");
    assert_eq!(text_of(&[0xe9]), "\u{e9}");
}

#[test]
fn byte_slices_are_compared_byte_by_byte() {
    assert!(same_bytes(b"", b""));
    assert!(same_bytes(b"begin", b"begin"));
    assert!(!same_bytes(b"begin", b"begun"));
    assert!(!same_bytes(b"begin", b"begi"));
    assert!(!same_bytes(b"", b"x"));
}

#[test]
fn places_step_over_bytes_and_lines() {
    let start = Position::origin();
    assert_eq!(start, Position { offset: 0, line: 0, column: 0 });
    let next = start.step(b'a');
    assert_eq!(next, Position { offset: 1, line: 0, column: 1 });
    let below = next.step(LINE_FEED);
    assert_eq!(below, Position { offset: 2, line: 1, column: 0 });
    assert_eq!(below.step(b'\r'), Position { offset: 3, line: 1, column: 1 });
}
