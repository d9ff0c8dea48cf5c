use aplang::lexer::Lexer;
use aplang::token::LiteralValue;
use aplang::token::TokenType::{
    And, Arrow, BangEqual, Break, Continue, Each, Else, Eof, EqualEqual, False, For, GreaterEqual,
    Identifier, If, In, LeftBrace, LeftBracket, LeftParen, Mod, Not, Null, Number, Or, Procedure,
    Repeat, Return, RightBrace, RightBracket, RightParen, SoftSemi, StringLiteral, Times, True,
    Until,
};

#[test]
fn scanner_handle_one_char_tokens() {
    let source = "(( )) }{ []";
    let mut scanner = Lexer::new(source, String::default());
    let tokens = scanner.scan_tokens().unwrap();

    assert_eq!(tokens.len(), 9);
    assert_eq!(tokens[0].token_type, LeftParen);
    assert_eq!(tokens[1].token_type, LeftParen);
    assert_eq!(tokens[2].token_type, RightParen);
    assert_eq!(tokens[3].token_type, RightParen);
    assert_eq!(tokens[4].token_type, RightBrace);
    assert_eq!(tokens[5].token_type, LeftBrace);
    assert_eq!(tokens[6].token_type, LeftBracket);
    assert_eq!(tokens[7].token_type, RightBracket);
    assert_eq!(tokens[8].token_type, Eof);
}

#[test]
fn scanner_handle_two_char_tokens() {
    let source = "<- != == >=";
    let mut scanner = Lexer::new(source, String::default());
    let tokens = scanner.scan_tokens().unwrap();

    assert_eq!(tokens.len(), 5);
    assert_eq!(tokens[0].token_type, Arrow);
    assert_eq!(tokens[1].token_type, BangEqual);
    assert_eq!(tokens[2].token_type, EqualEqual);
    assert_eq!(tokens[3].token_type, GreaterEqual);
    assert_eq!(tokens[4].token_type, Eof);
}

#[test]
fn scanner_handle_string_lit() {
    let source = r#""ABC""#;
    let mut scanner = Lexer::new(source, String::default());
    let tokens = scanner.scan_tokens().unwrap();
    assert_eq!(tokens.len(), 2);
    assert_eq!(tokens[0].token_type, StringLiteral);
    match tokens[0].literal.as_ref().unwrap() {
        LiteralValue::String(val) => assert_eq!(val, "ABC"),
        _ => panic!("Incorrect literal type"),
    }
}

#[test]
fn scanner_handle_string_lit_unterminated() {
    let source = r#""ABC"#;
    let mut scanner = Lexer::new(source, "".to_string());
    let result = scanner.scan_tokens();
    match result {
        Err(_) => (),
        _ => panic!("Should have failed"),
    }
}

#[test]
fn scanner_handle_string_lit_multiline() {
    let source = "\"ABC\ndef\"";
    let mut scanner = Lexer::new(source, String::default());
    let tokens = scanner.scan_tokens().unwrap();
    assert_eq!(tokens.len(), 2);
    assert_eq!(tokens[0].token_type, StringLiteral);
    match tokens[0].literal.as_ref().unwrap() {
        LiteralValue::String(val) => assert_eq!(val, "ABC\ndef"),
        _ => panic!("Incorrect literal type"),
    }
}

fn number_of(token: &aplang::token::Token) -> f64 {
    match &token.literal {
        Some(LiteralValue::Number(text)) => text.parse::<f64>().unwrap(),
        _ => panic!("Incorrect literal type"),
    }
}

#[test]
fn scanner_handle_number_literals() {
    let source = "123.123\n321.0\n5";
    let mut scanner = Lexer::new(source, String::default());
    let tokens = scanner.scan_tokens().unwrap();

    assert_eq!(tokens.len(), 6);

    assert_eq!(number_of(&tokens[0]), 123.123);
    assert_eq!(tokens[1].token_type, SoftSemi);
    assert_eq!(number_of(&tokens[2]), 321.0);
    assert_eq!(tokens[3].token_type, SoftSemi);
    assert_eq!(number_of(&tokens[4]), 5.0);
    assert_eq!(tokens[5].token_type, Eof)
}

#[test]
fn scanner_handle_keywords() {
    let keywords = vec![
        ("mod", Mod),
        ("if", If),
        ("else", Else),
        ("repeat", Repeat),
        ("times", Times),
        ("until", Until),
        ("for", For),
        ("each", Each),
        ("continue", Continue),
        ("break", Break),
        ("in", In),
        ("procedure", Procedure),
        ("return", Return),
        ("not", Not),
        ("and", And),
        ("or", Or),
        ("true", True),
        ("false", False),
        ("null", Null),
    ];

    for (keyword, token_type) in keywords {
        // lower case
        let mut scanner = Lexer::new(keyword, String::default());
        let result = scanner.scan_tokens().expect("Scanner failed on lowercase");
        assert_eq!(result.len(), 2, "Failed on keyword length: {}", keyword);
        assert_eq!(result[0].token_type, token_type, "Failed on lowercase keyword: {}", keyword);

        // upper case
        let upper_keyword = keyword.to_uppercase();
        let mut scanner_upper = Lexer::new(&upper_keyword, String::default());
        let result_upper = scanner_upper.scan_tokens().expect("Scanner failed on uppercase");
        assert_eq!(result_upper.len(), 2, "Failed on keyword length: {}", upper_keyword);
        assert_eq!(result_upper[0].token_type, token_type, "Failed on uppercase keyword: {}", upper_keyword);
    }
}

#[test]
fn scanner_handle_identifer() {
    let source = "this_is_a_3_var <- 12;";
    let mut scanner = Lexer::new(source, String::default());
    let tokens = scanner.scan_tokens().unwrap();

    assert_eq!(tokens.len(), 5);

    assert_eq!(tokens[0].token_type, Identifier);
    assert_eq!(tokens[1].token_type, Arrow);
    assert_eq!(tokens[2].token_type, Number);
    assert_eq!(tokens[3].token_type, SoftSemi);
    assert_eq!(tokens[4].token_type, Eof);
}

#[test]
fn scanner_handle_implicit_semicolon() {
    let test_cases = vec![
        ("varName\n", true),
        ("123\n", true),
        ("\"string\"\n", true),
        (")\n", true),
        ("]\n", true),
        ("}\n", true),
        ("+\n", false),
        ("varName", false),
    ];

    for (source, should_have_semicolon) in test_cases {
        let mut scanner = Lexer::new(source, String::new());
        let result = scanner.scan_tokens().unwrap();

        let has_semicolon = result.iter().any(|token| token.token_type == SoftSemi);
        assert_eq!(has_semicolon, should_have_semicolon, "Failed on source: {}", source);
    }
}

#[test]
fn scanner_test_spans() {
    let input = "IF (a == 3) {\
            a <- a + 1\
            }";
    let _ = input;
}
