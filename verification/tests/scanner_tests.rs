use pseudocode::chars::CharClass;
use pseudocode::number::Decimal;
use pseudocode::scanner::{iter_tokens, scan, Location, Scanner, ScannerError, Token, TokenType};

fn scan_single_token(source: &str) -> Result<Token, ScannerError> {
    let mut scanner = Scanner::from_source(source);
    scanner.scan_next().unwrap()
}

fn scan_unfiltered(source: &str) -> Vec<Result<Token, ScannerError>> {
    let mut scanner = Scanner::from_source(source);
    let mut items = Vec::new();
    while let Some(item) = scanner.scan_next() {
        items.push(item);
    }
    items
}

fn real_value(type_: &TokenType) -> f64 {
    match type_ {
        TokenType::RealLiteral(d) => d.to_text().parse::<f64>().unwrap(),
        other => panic!("not a real literal: {:?}", other),
    }
}

fn kinds(source: &str) -> Vec<TokenType> {
    let (tokens, errors) = scan(source);
    assert!(errors.is_empty());
    tokens.into_iter().map(|t| t.type_).collect()
}

#[test]
fn keyword_token() -> Result<(), ScannerError> {
    assert_eq!(scan_single_token("DECLARE")?.type_, TokenType::Declare);
    assert_eq!(scan_single_token("ENDIF")?.type_, TokenType::EndIf);
    Ok(())
}

#[test]
fn symbol_tokens() -> Result<(), ScannerError> {
    assert_eq!(scan_single_token("(")?.type_, TokenType::LParen);
    assert_eq!(scan_single_token("<")?.type_, TokenType::Less);
    assert_eq!(scan_single_token("<=")?.type_, TokenType::LessEqual);
    assert_eq!(scan_single_token("<>")?.type_, TokenType::NotEqual);
    assert_eq!(scan_single_token("-")?.type_, TokenType::Minus);
    Ok(())
}

#[test]
fn identifier_token() -> Result<(), ScannerError> {
    assert_eq!(scan_single_token("foo")?.type_, TokenType::Identifier("foo".to_string()));
    Ok(())
}

#[test]
fn char_literal_token() -> Result<(), ScannerError> {
    assert_eq!(scan_single_token("'c'")?.type_, TokenType::CharLiteral('c'));
    assert_eq!(scan_single_token(r#"'"'"#)?.type_, TokenType::CharLiteral('"'));
    assert_eq!(scan_single_token(r"'\'")?.type_, TokenType::CharLiteral('\\'));
    Ok(())
}

#[test]
fn invalid_char_literal() {
    assert!(matches!(scan_single_token("''"), Err(ScannerError::InvalidCharLiteral(_))));
    assert!(matches!(scan_single_token("'abc'"), Err(ScannerError::InvalidCharLiteral(_))));
}

#[test]
fn string_literal_token() -> Result<(), ScannerError> {
    assert_eq!(
        scan_single_token(r#""hello world""#)?.type_,
        TokenType::StringLiteral("hello world".to_string())
    );
    assert_eq!(
        scan_single_token(r#""\n\r\b""#)?.type_,
        TokenType::StringLiteral(r"\n\r\b".to_string())
    );
    assert_eq!(scan_single_token(r#""\""#)?.type_, TokenType::StringLiteral(r"\".to_string()));
    Ok(())
}

#[test]
fn unterminated_string_literal() {
    assert!(matches!(
        scan_single_token(r#""hello"#),
        Err(ScannerError::UnterminatedString(_))
    ))
}

#[test]
fn integer_literal_token() -> Result<(), ScannerError> {
    assert_eq!(scan_single_token("42")?.type_, TokenType::IntegerLiteral(42));
    assert_eq!(scan_single_token("-5")?.type_, TokenType::IntegerLiteral(-5));
    Ok(())
}

#[test]
fn real_literal_token() -> Result<(), ScannerError> {
    assert_eq!(real_value(&scan_single_token("0.6")?.type_), 0.6);
    assert_eq!(real_value(&scan_single_token("13.0")?.type_), 13.0);
    assert_eq!(real_value(&scan_single_token("-2.5")?.type_), -2.5);
    Ok(())
}

#[test]
fn invalid_real_literal() {
    assert!(matches!(scan_single_token("2."), Err(ScannerError::InvalidRealLiteral(_))));
    assert!(scan_single_token(".5").is_err());
}

#[test]
fn boolean_literal_token() -> Result<(), ScannerError> {
    assert_eq!(scan_single_token("TRUE")?.type_, TokenType::BooleanLiteral(true));
    assert_eq!(scan_single_token("FALSE")?.type_, TokenType::BooleanLiteral(false));
    Ok(())
}

#[test]
fn every_reserved_word() {
    let words = [
        ("PROCEDURE", TokenType::Procedure),
        ("ENDPROCEDURE", TokenType::EndProcedure),
        ("FUNCTION", TokenType::Function),
        ("RETURNS", TokenType::Returns),
        ("ENDFUNCTION", TokenType::EndFunction),
        ("RETURN", TokenType::Return),
        ("IF", TokenType::If),
        ("THEN", TokenType::Then),
        ("ELSE", TokenType::Else),
        ("ENDIF", TokenType::EndIf),
        ("CASE", TokenType::Case),
        ("OTHERWISE", TokenType::Otherwise),
        ("ENDCASE", TokenType::EndCase),
        ("FOR", TokenType::For),
        ("TO", TokenType::To),
        ("STEP", TokenType::Step),
        ("NEXT", TokenType::Next),
        ("REPEAT", TokenType::Repeat),
        ("UNTIL", TokenType::Until),
        ("WHILE", TokenType::While),
        ("DO", TokenType::Do),
        ("ENDWHILE", TokenType::EndWhile),
        ("DECLARE", TokenType::Declare),
        ("CONSTANT", TokenType::Constant),
        ("INPUT", TokenType::Input),
        ("OUTPUT", TokenType::Output),
        ("CALL", TokenType::Call),
        ("OPENFILE", TokenType::OpenFile),
        ("READFILE", TokenType::ReadFile),
        ("WRITEFILE", TokenType::WriteFile),
        ("CLOSEFILE", TokenType::CloseFile),
        ("READ", TokenType::Read),
        ("WRITE", TokenType::Write),
        ("INTEGER", TokenType::Integer),
        ("REAL", TokenType::Real),
        ("CHAR", TokenType::Char),
        ("STRING", TokenType::String),
        ("BOOLEAN", TokenType::Boolean),
        ("ARRAY", TokenType::Array),
        ("OF", TokenType::Of),
        ("AND", TokenType::And),
        ("OR", TokenType::Or),
        ("NOT", TokenType::Not),
    ];
    for (word, kind) in words {
        let token = scan_single_token(word).unwrap();
        assert_eq!(token.type_, kind);
        assert_eq!(token.lexeme, word);
    }
}

#[test]
fn reserved_words_are_case_sensitive() {
    assert_eq!(
        scan_single_token("declare").unwrap().type_,
        TokenType::Identifier("declare".to_string())
    );
    assert_eq!(
        scan_single_token("If").unwrap().type_,
        TokenType::Identifier("If".to_string())
    );
    assert_eq!(
        scan_single_token("true").unwrap().type_,
        TokenType::Identifier("true".to_string())
    );
}

#[test]
fn a_word_is_a_maximal_run_of_letters() {
    assert_eq!(
        kinds("IFX x1 ENDIFS"),
        vec![
            TokenType::Identifier("IFX".to_string()),
            TokenType::Identifier("x".to_string()),
            TokenType::IntegerLiteral(1),
            TokenType::Identifier("ENDIFS".to_string()),
        ]
    );
}

#[test]
fn every_symbol() {
    assert_eq!(
        kinds("( ) [ ] + - * / ^ = <> <= >= < > , : <-"),
        vec![
            TokenType::LParen,
            TokenType::RParen,
            TokenType::LBracket,
            TokenType::RBracket,
            TokenType::Plus,
            TokenType::Minus,
            TokenType::Star,
            TokenType::Slash,
            TokenType::Caret,
            TokenType::Equal,
            TokenType::NotEqual,
            TokenType::LessEqual,
            TokenType::GreaterEqual,
            TokenType::Less,
            TokenType::Greater,
            TokenType::Comma,
            TokenType::Colon,
            TokenType::LArrow,
        ]
    );
}

#[test]
fn less_than_picks_the_longest_symbol() {
    assert_eq!(kinds("<=>"), vec![TokenType::LessEqual, TokenType::Greater]);
    assert_eq!(kinds("<>="), vec![TokenType::NotEqual, TokenType::Equal]);
    assert_eq!(kinds("<-5"), vec![TokenType::LArrow, TokenType::IntegerLiteral(5)]);
    assert_eq!(kinds("< -5"), vec![TokenType::Less, TokenType::IntegerLiteral(-5)]);
}

#[test]
fn minus_before_a_digit_joins_the_number() {
    let token = scan_single_token("-5").unwrap();
    assert_eq!(token.type_, TokenType::IntegerLiteral(-5));
    assert_eq!(token.lexeme, "-5");
    assert_eq!(
        kinds("3-5"),
        vec![TokenType::IntegerLiteral(3), TokenType::IntegerLiteral(-5)]
    );
    assert_eq!(
        kinds("3 - 5"),
        vec![
            TokenType::IntegerLiteral(3),
            TokenType::Minus,
            TokenType::IntegerLiteral(5),
        ]
    );
    assert_eq!(
        kinds("3 -5"),
        vec![TokenType::IntegerLiteral(3), TokenType::IntegerLiteral(-5)]
    );
    assert_eq!(
        kinds("a-b"),
        vec![
            TokenType::Identifier("a".to_string()),
            TokenType::Minus,
            TokenType::Identifier("b".to_string()),
        ]
    );
    assert_eq!(kinds("--1"), vec![TokenType::Minus, TokenType::IntegerLiteral(-1)]);
}

#[test]
fn char_literal_shapes() {
    assert!(matches!(scan_single_token("''"), Err(ScannerError::InvalidCharLiteral(_))));
    assert!(matches!(scan_single_token("'ab'"), Err(ScannerError::InvalidCharLiteral(_))));
    assert!(matches!(scan_single_token("'"), Err(ScannerError::InvalidCharLiteral(_))));
    assert!(matches!(scan_single_token("'a"), Err(ScannerError::InvalidCharLiteral(_))));
    assert_eq!(scan_single_token("'x'").unwrap().type_, TokenType::CharLiteral('x'));
    assert_eq!(scan_single_token("'''").unwrap().type_, TokenType::CharLiteral('\''));
    assert_eq!(scan_single_token("'\n'").unwrap().type_, TokenType::CharLiteral('\n'));
}

#[test]
fn char_literal_error_locations() {
    assert_eq!(
        scan_single_token("''").unwrap_err(),
        ScannerError::InvalidCharLiteral(Location { line: 1, column: 3 })
    );
    assert_eq!(
        scan_single_token("'ab'").unwrap_err(),
        ScannerError::InvalidCharLiteral(Location { line: 1, column: 3 })
    );
    assert_eq!(
        scan_single_token("'").unwrap_err(),
        ScannerError::InvalidCharLiteral(Location { line: 1, column: 2 })
    );
}

#[test]
fn scanning_goes_on_behind_an_error() {
    let (tokens, errors) = scan("'ab' x");
    assert_eq!(
        tokens.iter().map(|t| t.lexeme.as_str()).collect::<Vec<_>>(),
        vec!["b", "x"]
    );
    assert_eq!(
        errors,
        vec![
            ScannerError::InvalidCharLiteral(Location { line: 1, column: 3 }),
            ScannerError::InvalidCharLiteral(Location { line: 1, column: 6 }),
        ]
    );
}

#[test]
fn string_ends_at_the_line_end() {
    let (tokens, errors) = scan("\"abc\nx");
    assert_eq!(errors, vec![ScannerError::UnterminatedString(Location { line: 1, column: 5 })]);
    assert_eq!(tokens.len(), 1);
    assert_eq!(tokens[0].type_, TokenType::Identifier("x".to_string()));
    assert_eq!(tokens[0].location, Location { line: 2, column: 1 });
}

#[test]
fn empty_string_literal() {
    let token = scan_single_token("\"\"").unwrap();
    assert_eq!(token.type_, TokenType::StringLiteral(String::new()));
    assert_eq!(token.lexeme, "\"\"");
}

#[test]
fn string_keeps_backslashes_and_other_scripts() {
    assert_eq!(
        scan_single_token("\"a\\tb ü 日本\"").unwrap().type_,
        TokenType::StringLiteral("a\\tb ü 日本".to_string())
    );
}

#[test]
fn real_literal_shapes() {
    assert!(matches!(scan_single_token("2."), Err(ScannerError::InvalidRealLiteral(_))));
    assert_eq!(
        scan_single_token("2.").unwrap_err(),
        ScannerError::InvalidRealLiteral(Location { line: 1, column: 3 })
    );
    assert_eq!(
        scan_single_token(".5").unwrap_err(),
        ScannerError::UnexpectedCharacter('.', Location { line: 1, column: 2 })
    );
    let items = scan_unfiltered("1.5.3");
    assert_eq!(items.len(), 3);
    assert_eq!(real_value(&items[0].as_ref().unwrap().type_), 1.5);
    assert!(matches!(items[1], Err(ScannerError::UnexpectedCharacter('.', _))));
    assert_eq!(items[2].as_ref().unwrap().type_, TokenType::IntegerLiteral(3));
}

#[test]
fn real_literal_keeps_its_digits() {
    assert_eq!(
        scan_single_token("-12.050").unwrap().type_,
        TokenType::RealLiteral(Decimal {
            negative: true,
            whole: "12".to_string(),
            fraction: "050".to_string(),
        })
    );
    assert_eq!(
        scan_single_token("0.6").unwrap().type_,
        TokenType::RealLiteral(Decimal {
            negative: false,
            whole: "0".to_string(),
            fraction: "6".to_string(),
        })
    );
    match scan_single_token("-12.050").unwrap().type_ {
        TokenType::RealLiteral(d) => assert_eq!(d.to_text(), "-12.050"),
        other => panic!("not a real literal: {:?}", other),
    }
    assert_eq!(
        real_value(&scan_single_token("3.14159265358979323846264338327950288").unwrap().type_),
        3.14159265358979323846264338327950288
    );
}

#[test]
fn integer_literal_values() {
    assert_eq!(scan_single_token("0").unwrap().type_, TokenType::IntegerLiteral(0));
    assert_eq!(scan_single_token("007").unwrap().type_, TokenType::IntegerLiteral(7));
    assert_eq!(scan_single_token("-0").unwrap().type_, TokenType::IntegerLiteral(0));
    assert_eq!(
        scan_single_token("1234567890123456789").unwrap().type_,
        TokenType::IntegerLiteral(1234567890123456789)
    );
    assert_eq!(
        scan_single_token("9223372036854775807").unwrap().type_,
        TokenType::IntegerLiteral(i64::MAX)
    );
    assert_eq!(
        scan_single_token("-9223372036854775808").unwrap().type_,
        TokenType::IntegerLiteral(i64::MIN)
    );
    assert_eq!(
        scan_single_token("-9223372036854775807").unwrap().type_,
        TokenType::IntegerLiteral(-9223372036854775807)
    );
}

#[test]
fn integer_literal_beyond_64_bits_saturates() {
    assert_eq!(
        scan_single_token("9223372036854775808").unwrap().type_,
        TokenType::IntegerLiteral(i64::MAX)
    );
    assert_eq!(
        scan_single_token("-9223372036854775809").unwrap().type_,
        TokenType::IntegerLiteral(i64::MIN)
    );
    let token = scan_single_token("99999999999999999999999999999999").unwrap();
    assert_eq!(token.type_, TokenType::IntegerLiteral(i64::MAX));
    assert_eq!(token.lexeme, "99999999999999999999999999999999");
    assert_eq!(
        scan_single_token("18446744073709551616").unwrap().type_,
        TokenType::IntegerLiteral(i64::MAX)
    );
}

#[test]
fn unexpected_character() {
    assert_eq!(
        scan_single_token("$").unwrap_err(),
        ScannerError::UnexpectedCharacter('$', Location { line: 1, column: 2 })
    );
    assert_eq!(
        scan_single_token("é").unwrap_err(),
        ScannerError::UnexpectedCharacter('é', Location { line: 1, column: 2 })
    );
    assert_eq!(
        scan_single_token("_x").unwrap_err(),
        ScannerError::UnexpectedCharacter('_', Location { line: 1, column: 2 })
    );
}

#[test]
fn whitespace_and_comment_markers() {
    let items = scan_unfiltered("x \t\r\n// note\ny");
    let kinds: Vec<TokenType> = items.into_iter().map(|i| i.unwrap().type_).collect();
    assert_eq!(
        kinds,
        vec![
            TokenType::Identifier("x".to_string()),
            TokenType::Whitespace,
            TokenType::Comment,
            TokenType::Whitespace,
            TokenType::Identifier("y".to_string()),
        ]
    );
    let comment = scan_single_token("// a comment\nx").unwrap();
    assert_eq!(comment.type_, TokenType::Comment);
    assert_eq!(comment.lexeme, "// a comment");
    assert_eq!(scan_single_token("//").unwrap().lexeme, "//");
    assert_eq!(scan_single_token("/ /").unwrap().type_, TokenType::Slash);
}

#[test]
fn locations_count_lines_and_columns_from_one() {
    let (tokens, errors) = scan("a <- 1\n  bb <- \"s\"\n\nccc");
    assert!(errors.is_empty());
    let places: Vec<(String, u32, u32)> = tokens
        .iter()
        .map(|t| (t.lexeme.clone(), t.location.line, t.location.column))
        .collect();
    assert_eq!(
        places,
        vec![
            ("a".to_string(), 1, 1),
            ("<-".to_string(), 1, 3),
            ("1".to_string(), 1, 6),
            ("bb".to_string(), 2, 3),
            ("<-".to_string(), 2, 6),
            ("\"s\"".to_string(), 2, 9),
            ("ccc".to_string(), 4, 1),
        ]
    );
    assert_eq!(Location::new(), Location { line: 1, column: 1 });
}

#[test]
fn location_steps() {
    let mut location = Location::new();
    location.increment_column();
    location.increment_column();
    assert_eq!(location, Location { line: 1, column: 3 });
    location.increment_line();
    assert_eq!(location, Location { line: 2, column: 1 });
}

#[test]
fn lexemes_rebuild_the_source() {
    let sources = [
        "",
        "x",
        "IF x >= -10 THEN\n  OUTPUT \"yes\", 'c', 2.50 // done\nENDIF\n",
        "a<-b[1,2](3)^4/5*6+7-8<>9",
        "  \t\n\r\n",
        "FUNCTION f(a: INTEGER) RETURNS REAL\n RETURN a * 1.0\nENDFUNCTION",
    ];
    for source in sources {
        let items = scan_unfiltered(source);
        let mut rebuilt = String::new();
        for item in items {
            rebuilt.push_str(&item.unwrap().lexeme);
        }
        assert_eq!(rebuilt, source);
    }
}

#[test]
fn scan_drops_markers_and_keeps_errors() {
    let (tokens, errors) = scan("x // c\n$ 'ab \"open\n2. y");
    assert_eq!(
        tokens.iter().map(|t| t.lexeme.as_str()).collect::<Vec<_>>(),
        vec!["x", "b", "y"]
    );
    assert_eq!(
        errors,
        vec![
            ScannerError::UnexpectedCharacter('$', Location { line: 2, column: 2 }),
            ScannerError::InvalidCharLiteral(Location { line: 2, column: 5 }),
            ScannerError::UnterminatedString(Location { line: 2, column: 12 }),
            ScannerError::InvalidRealLiteral(Location { line: 3, column: 3 }),
        ]
    );
    assert_eq!(tokens[1].type_, TokenType::Identifier("b".to_string()));
}

#[test]
fn scan_of_nothing() {
    let (tokens, errors) = scan("");
    assert!(tokens.is_empty());
    assert!(errors.is_empty());
    let (tokens, errors) = scan("  // only a comment");
    assert!(tokens.is_empty());
    assert!(errors.is_empty());
    assert!(Scanner::from_source("").scan_next().is_none());
}

#[test]
fn stream_gives_items_in_order_and_then_none() {
    let mut stream = iter_tokens("a  + $ // c\n 1");
    assert_eq!(stream.next().unwrap().unwrap().type_, TokenType::Identifier("a".to_string()));
    assert_eq!(stream.next().unwrap().unwrap().type_, TokenType::Plus);
    assert!(matches!(
        stream.next(),
        Some(Err(ScannerError::UnexpectedCharacter('$', _)))
    ));
    assert_eq!(stream.next().unwrap().unwrap().type_, TokenType::IntegerLiteral(1));
    assert!(stream.next().is_none());
    assert!(stream.next().is_none());
}

#[test]
fn stream_ends_behind_trailing_markers() {
    let mut stream = iter_tokens("x   // end");
    assert_eq!(stream.next().unwrap().unwrap().lexeme, "x");
    assert!(stream.next().is_none());
}

#[test]
fn scanner_steps() {
    let mut scanner = Scanner::from_source("ab12 ");
    assert!(scanner.check_next(CharClass::Alphabetic));
    assert!(!scanner.check_next(CharClass::Digit));
    assert_eq!(scanner.advance(), Some('a'));
    assert!(!scanner.advance_if_match('x'));
    assert!(scanner.advance_if_match('b'));
    scanner.advance_while(CharClass::Digit);
    assert!(scanner.check_next(CharClass::Whitespace));
    assert_eq!(scanner.advance(), Some(' '));
    assert_eq!(scanner.advance(), None);
    assert!(!scanner.check_next(CharClass::Whitespace));
}

#[test]
fn token_type_equality_and_clone() {
    let a = TokenType::Identifier("x".to_string());
    assert_eq!(a.clone(), a);
    assert_ne!(a, TokenType::Identifier("y".to_string()));
    assert_ne!(a, TokenType::StringLiteral("x".to_string()));
    assert_ne!(TokenType::IntegerLiteral(1), TokenType::IntegerLiteral(2));
    assert_ne!(TokenType::Plus, TokenType::Minus);
    let token = scan_single_token("-1.5").unwrap();
    assert_eq!(token.clone(), token);
}
