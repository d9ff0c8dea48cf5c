use aplang::aplang::ApLang;
use aplang::join_spans;
use aplang::lexer::{LexErrorKind, Lexer, LexerCodes};
use aplang::token::{BinaryOp, LogicalOp, OperatorError, Token, TokenType, UnaryOp};

#[test]
fn runs_the_stages_in_order() {
    let program = ApLang::new("3 + 3".to_string(), Some("main.ap".to_string()));
    assert_eq!(program.get_source_code(), "3 + 3");
    let lexed = program.lex().unwrap();
    assert_eq!(lexed.debug_output(), "3 + 3 <EOF> ");
    let parsed = lexed.parse().unwrap();
    assert_eq!(parsed.ast().program.len(), 1);
    let run = parsed.executed_with_debug(vec!["6".to_string()]);
    assert_eq!(run.debug_output(), "EXPR OUTPUT: 6\n");
}

#[test]
fn lexed_output_marks_statement_ends() {
    let lexed = ApLang::new("a <- 1\nb".to_string(), Some("x.ap".to_string())).lex().unwrap();
    assert_eq!(lexed.debug_output(), "a <- 1  ;\n b <EOF> ");
}

#[test]
fn lexing_reports_every_error() {
    let program = ApLang::new("a ! b = c @".to_string(), Some("x.ap".to_string()));
    let errors = match program.lex() {
        Ok(_) => panic!("lexing should have failed"),
        Err(e) => e,
    };
    assert_eq!(errors.len(), 3);
    assert_eq!(errors[0].kind, LexErrorKind::BangNotAllowed);
    assert_eq!(errors[0].span, 2..3);
    assert_eq!(errors[1].kind, LexErrorKind::EqualsNotAllowed);
    assert_eq!(errors[2].kind, LexErrorKind::UnknownSymbol('@'));
    assert_eq!(errors[2].kind.class(), LexerCodes::UnknownSymbol);
}

#[test]
fn string_escapes_are_read() {
    let tokens = Lexer::scan("\"a\\tb\\\"c\"", String::new()).unwrap();
    match &tokens[0].literal {
        Some(aplang::token::LiteralValue::String(s)) => assert_eq!(s, "a\tb\"c"),
        _ => panic!("expected a string literal"),
    }
    let errors = Lexer::scan("\"a\\qb\"", String::new()).unwrap_err();
    assert_eq!(errors[0].kind, LexErrorKind::InvalidEscape('q'));
    let errors = Lexer::scan("\"open", String::new()).unwrap_err();
    assert_eq!(errors[0].kind, LexErrorKind::UnterminatedString);
    assert_eq!(errors[0].kind.class(), LexerCodes::UnterminatedString);
}

#[test]
fn tokens_keep_their_source_text_and_lines() {
    let src = "x <- 10 // note\ny <- x";
    let tokens = Lexer::scan(src, String::new()).unwrap();
    for t in &tokens[..tokens.len() - 1] {
        assert_eq!(&src[t.span.clone()], t.lexeme);
    }
    assert_eq!(tokens[4].lexeme, "y");
    assert_eq!(tokens[4].line_number, 2);
    assert_eq!(tokens.last().unwrap().token_type, TokenType::Eof);
}

#[test]
fn lexer_codes_name_their_class() {
    assert_eq!(LexerCodes::UnknownSymbol.code(), "unknown_symbol");
    assert_eq!(LexerCodes::UnterminatedString.code(), "unterminated_string");
    assert_eq!(LexerCodes::NumberParseError.code(), "number_parse_error");
}

#[test]
fn spans_join_from_first_start_to_last_end() {
    assert_eq!(join_spans(&(1..3), &(5..9)), 1..9);
    let tokens = Lexer::scan("ab + cd", String::new()).unwrap();
    assert_eq!(tokens[0].span_to(tokens[2].span()), 0..7);
}

fn token_of(src: &str) -> Token {
    Lexer::scan(src, String::new()).unwrap().remove(0)
}

#[test]
fn tokens_name_their_operators() {
    assert_eq!(token_of("+").to_binary_op(), Ok(BinaryOp::Plus));
    assert_eq!(token_of("MOD").to_binary_op(), Ok(BinaryOp::Modulo));
    assert_eq!(token_of("<=").to_binary_op(), Ok(BinaryOp::LessEqual));
    assert_eq!(token_of("x").to_binary_op(), Err(OperatorError::NotBinary));
    assert_eq!(token_of("NOT").to_unary_op(), Ok(UnaryOp::Not));
    assert_eq!(token_of("-").to_unary_op(), Ok(UnaryOp::Minus));
    assert_eq!(token_of("+").to_unary_op(), Err(OperatorError::NotUnary));
    assert_eq!(token_of("OR").to_logical_op(), Ok(LogicalOp::Or));
    assert_eq!(token_of("and").to_logical_op(), Ok(LogicalOp::And));
    assert_eq!(token_of("x").to_logical_op(), Err(OperatorError::NotLogical));
    assert!(token_of(";").is_soft_semi());
}

#[test]
fn a_program_given_directly_lexes_and_parses() {
    let program = ApLang::new_from_stdin("3 + 3".to_string());
    assert!(program.file_path().is_none());
    let lexed = program.lex().expect("lexing failed");
    assert_eq!(lexed.tokens().len(), 4);
    let parsed = lexed.parse().expect("parsing failed");
    assert_eq!(parsed.ast().program.len(), 1);
}
