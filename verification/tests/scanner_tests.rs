use lox_scanner::scanner::{is_alpha, is_alpha_numeric, is_digit, Scanner};
use lox_scanner::token::{ScanError, Token, TokenKind};

fn scan(source: &str) -> Result<Vec<Token>, ScanError> {
    Scanner::new(source).scan_tokens()
}

fn kinds(source: &str) -> Vec<TokenKind> {
    scan(source)
        .expect("scan should succeed")
        .into_iter()
        .map(|t| t.kind)
        .collect()
}

#[test]
fn test_single_character_tokens() {
    let table = vec![
        ("(", TokenKind::LeftParen),
        (")", TokenKind::RightParen),
        ("{", TokenKind::LeftBrace),
        ("}", TokenKind::RightBrace),
        (",", TokenKind::Comma),
        (".", TokenKind::Dot),
        ("-", TokenKind::Minus),
        ("+", TokenKind::Plus),
        (";", TokenKind::Semicolon),
        ("*", TokenKind::Star),
        ("/", TokenKind::Slash),
        ("!", TokenKind::Bang),
        ("=", TokenKind::Equal),
        ("<", TokenKind::Less),
        (">", TokenKind::Greater),
    ];
    for (text, kind) in table {
        let tokens = scan(text).expect("scan should succeed");
        assert_eq!(tokens, vec![Token { kind, line: 1 }], "scanning {:?}", text);
    }
}

#[test]
fn test_two_character_operators_maximal_munch() {
    assert_eq!(kinds("!="), vec![TokenKind::BangEqual]);
    assert_eq!(kinds("=="), vec![TokenKind::EqualEqual]);
    assert_eq!(kinds("<="), vec![TokenKind::LessEqual]);
    assert_eq!(kinds(">="), vec![TokenKind::GreaterEqual]);
}

#[test]
fn test_operator_sequences() {
    assert_eq!(
        kinds("=== <=>"),
        vec![
            TokenKind::EqualEqual,
            TokenKind::Equal,
            TokenKind::LessEqual,
            TokenKind::Greater,
        ]
    );
    assert_eq!(kinds("!!="), vec![TokenKind::Bang, TokenKind::BangEqual]);
}

#[test]
fn test_line_tracking_identifiers() {
    let tokens = scan("a\nb").expect("scan should succeed");
    assert_eq!(
        tokens,
        vec![
            Token { kind: TokenKind::Identifier("a".to_owned()), line: 1 },
            Token { kind: TokenKind::Identifier("b".to_owned()), line: 2 },
        ]
    );
}

#[test]
fn test_multiline_string_reports_closing_line() {
    let tokens = scan("\"a\nb\"").expect("scan should succeed");
    assert_eq!(
        tokens,
        vec![Token { kind: TokenKind::StringLit("a\nb".to_owned()), line: 2 }]
    );
}

#[test]
fn test_nested_block_comment_is_empty() {
    let tokens = scan("/* /* */ */").expect("scan should succeed");
    assert_eq!(tokens, vec![]);
}

#[test]
fn test_nested_block_comment_then_token() {
    let tokens = scan("/* a /* b */ c */ x").expect("scan should succeed");
    assert_eq!(
        tokens,
        vec![Token { kind: TokenKind::Identifier("x".to_owned()), line: 1 }]
    );
}

#[test]
fn test_unterminated_block_comment_silently_ends() {
    assert_eq!(scan("/* never closed"), Ok(vec![]));
    assert_eq!(scan("x /* /* */"), Ok(vec![Token {
        kind: TokenKind::Identifier("x".to_owned()),
        line: 1,
    }]));
}

#[test]
fn test_block_comment_counts_lines() {
    let tokens = scan("/*\n\n*/x").expect("scan should succeed");
    assert_eq!(
        tokens,
        vec![Token { kind: TokenKind::Identifier("x".to_owned()), line: 3 }]
    );
}

#[test]
fn test_number_integer() {
    let tokens = scan("123").expect("scan should succeed");
    assert_eq!(tokens.len(), 1);
    match &tokens[0].kind {
        TokenKind::Number(text) => {
            assert_eq!(text, "123");
            assert_eq!(text.parse::<f64>().unwrap(), 123.0);
        }
        other => panic!("expected a number, got {:?}", other),
    }
}

#[test]
fn test_number_fractional() {
    let tokens = scan("123.45").expect("scan should succeed");
    assert_eq!(tokens.len(), 1);
    match &tokens[0].kind {
        TokenKind::Number(text) => {
            assert_eq!(text, "123.45");
            assert_eq!(text.parse::<f64>().unwrap(), 123.45);
        }
        other => panic!("expected a number, got {:?}", other),
    }
}

#[test]
fn test_number_trailing_dot_not_consumed() {
    let tokens = scan("123.").expect("scan should succeed");
    assert_eq!(
        tokens,
        vec![
            Token { kind: TokenKind::Number("123".to_owned()), line: 1 },
            Token { kind: TokenKind::Dot, line: 1 },
        ]
    );
}

#[test]
fn test_number_then_dot_then_identifier() {
    assert_eq!(
        kinds("123.foo"),
        vec![
            TokenKind::Number("123".to_owned()),
            TokenKind::Dot,
            TokenKind::Identifier("foo".to_owned()),
        ]
    );
}

#[test]
fn test_keyword_vs_identifier() {
    assert_eq!(kinds("class"), vec![TokenKind::Class]);
    assert_eq!(
        kinds("classify"),
        vec![TokenKind::Identifier("classify".to_owned())]
    );
}

#[test]
fn test_all_reserved_words() {
    assert_eq!(
        kinds("and class else false for fun if nil or print return super this true var while"),
        vec![
            TokenKind::And,
            TokenKind::Class,
            TokenKind::Else,
            TokenKind::False,
            TokenKind::For,
            TokenKind::Fun,
            TokenKind::If,
            TokenKind::Nil,
            TokenKind::Or,
            TokenKind::Print,
            TokenKind::Return,
            TokenKind::Super,
            TokenKind::This,
            TokenKind::True,
            TokenKind::Var,
            TokenKind::While,
        ]
    );
}

#[test]
fn test_keywords_are_case_sensitive() {
    assert_eq!(kinds("Class"), vec![TokenKind::Identifier("Class".to_owned())]);
}

#[test]
fn test_identifier_with_underscore_and_digits() {
    assert_eq!(kinds("_a1"), vec![TokenKind::Identifier("_a1".to_owned())]);
}

#[test]
fn test_unterminated_string_error() {
    assert_eq!(scan("\"abc"), Err(ScanError::UnterminatedString { line: 1 }));
}

#[test]
fn test_unterminated_string_error_line_follows_newlines() {
    assert_eq!(
        scan("\"a\nbc"),
        Err(ScanError::UnterminatedString { line: 2 })
    );
}

#[test]
fn test_unexpected_character_error() {
    assert_eq!(
        scan("@"),
        Err(ScanError::UnexpectedCharacter { line: 1 })
    );
}

#[test]
fn test_unexpected_character_line() {
    assert_eq!(
        scan("\n\n@"),
        Err(ScanError::UnexpectedCharacter { line: 3 })
    );
}

#[test]
fn test_non_ascii_letter_is_unexpected() {
    assert_eq!(
        scan("caf\u{e9}"),
        Err(ScanError::UnexpectedCharacter { line: 1 })
    );
}

#[test]
fn test_string_value_is_exact_text() {
    let tokens = scan("\"hi there\"").expect("scan should succeed");
    assert_eq!(
        tokens,
        vec![Token { kind: TokenKind::StringLit("hi there".to_owned()), line: 1 }]
    );
}

#[test]
fn test_empty_string_literal() {
    assert_eq!(kinds("\"\""), vec![TokenKind::StringLit(String::new())]);
}

#[test]
fn test_empty_source() {
    assert_eq!(scan(""), Ok(vec![]));
}

#[test]
fn test_whitespace_only() {
    assert_eq!(scan("  \t \r \n "), Ok(vec![]));
}

#[test]
fn test_line_comment_produces_no_tokens() {
    assert_eq!(scan("// a comment"), Ok(vec![]));
    let tokens = scan("// a comment\nfoo").expect("scan should succeed");
    assert_eq!(
        tokens,
        vec![Token { kind: TokenKind::Identifier("foo".to_owned()), line: 2 }]
    );
}

#[test]
fn test_mixed_statement() {
    let tokens = scan("var x = 12.5;").expect("scan should succeed");
    assert_eq!(
        tokens,
        vec![
            Token { kind: TokenKind::Var, line: 1 },
            Token { kind: TokenKind::Identifier("x".to_owned()), line: 1 },
            Token { kind: TokenKind::Equal, line: 1 },
            Token { kind: TokenKind::Number("12.5".to_owned()), line: 1 },
            Token { kind: TokenKind::Semicolon, line: 1 },
        ]
    );
}

#[test]
fn test_rescanning_yields_identical_sequence() {
    let source = "fun add(a, b) {\n  // sum\n  return a + b;\n}\nprint \"ok\";\n12.5 != 13";
    let first = scan(source);
    let second = scan(source);
    assert_eq!(first, second);
    assert!(first.is_ok());
}

#[test]
fn test_rescanning_yields_identical_error() {
    let source = "var x = @";
    assert_eq!(scan(source), scan(source));
    assert_eq!(scan(source), Err(ScanError::UnexpectedCharacter { line: 1 }));
}

#[test]
fn test_character_classes() {
    assert!(is_digit('0') && is_digit('9'));
    assert!(!is_digit('a'));
    assert!(is_alpha('a') && is_alpha('Z') && is_alpha('_'));
    assert!(!is_alpha('1'));
    assert!(is_alpha_numeric('x') && is_alpha_numeric('7') && is_alpha_numeric('_'));
    assert!(!is_alpha_numeric(' '));
}

#[test]
fn test_scanner_helpers_walk_the_source() {
    let mut sc = Scanner::new("ab");
    assert!(!sc.is_eof());
    assert_eq!(sc.peek(), Some('a'));
    assert_eq!(sc.next(), Some('a'));
    assert!(!sc.expect_next('x'));
    assert!(sc.expect_next('b'));
    assert_eq!(sc.peek(), None);
    assert_eq!(sc.next(), None);
    assert!(sc.is_eof());
}

#[test]
fn test_slash_between_comments_is_a_token() {
    assert_eq!(
        kinds("/ // rest"),
        vec![TokenKind::Slash]
    );
}
