use aplang::aplang::{ApLang, Parsed};
use aplang::ast::{Ast, Expr, Literal, Stmt};
use aplang::lexer::Lexer;
use aplang::parser::Parser;
use aplang::parser_spec::{ParseError, ParseErrorKind};
use aplang::token::{BinaryOp, LogicalOp, TokenType, UnaryOp};

fn parse_ok(src: &str) -> ApLang<Parsed> {
    let program = ApLang::new(src.to_string(), Some("test.ap".to_string()));
    let lexed = program.lex().expect("lexing failed");
    lexed.parse().expect("parsing failed")
}

fn parse_errors(src: &str) -> Vec<ParseError> {
    let tokens = Lexer::scan(src, String::new()).expect("lexing failed");
    let mut parser = Parser::new(tokens);
    match parser.parse() {
        Ok(_) => panic!("parsing should have failed"),
        Err(errors) => errors,
    }
}

fn first_error(src: &str) -> ParseError {
    parse_errors(src)[0]
}

fn lexeme(ast: &Ast, token: usize) -> &str {
    ast.tokens[token].lexeme.as_str()
}

#[test]
fn parses_hello_world() {
    let parsed = parse_ok("DISPLAY(\"hello world\")\nDISPLAY_NOLN(\"hello world\")\n");
    let ast = parsed.ast();
    assert_eq!(ast.program.len(), 2);
    match &ast.program[0] {
        Stmt::Expr(e) => match e.as_ref() {
            Expr::ProcCall(call) => {
                assert_eq!(lexeme(ast, call.token), "DISPLAY");
                assert_eq!(call.arguments.len(), 1);
                assert_eq!(call.arg_ends, vec![3]);
            }
            _ => panic!("expected a call"),
        },
        _ => panic!("expected an expression statement"),
    }
}

#[test]
fn parses_arithmetic_program() {
    let src = "
    // Addition
    sum <- 5 + 3
    DISPLAY(sum)
    difference <- 10 - 4
    product <- 7 * 2
    quotient <- 8 / 2
    remainder <- 9 MOD 4
    DISPLAY(remainder)
    ";
    let parsed = parse_ok(src);
    let ast = parsed.ast();
    assert_eq!(ast.program.len(), 7);
}

#[test]
fn multiplication_binds_tighter_than_addition() {
    let parsed = parse_ok("a <- 1 + 2 * 3");
    let ast = parsed.ast();
    match &ast.program[0] {
        Stmt::Expr(e) => match e.as_ref() {
            Expr::Assign(assign) => {
                assert_eq!(lexeme(ast, assign.target.token), "a");
                match &assign.value {
                    Expr::Binary(sum) => {
                        assert_eq!(sum.operator, BinaryOp::Plus);
                        match &sum.right {
                            Expr::Binary(product) => assert_eq!(product.operator, BinaryOp::Star),
                            _ => panic!("expected a product on the right"),
                        }
                    }
                    _ => panic!("expected a sum"),
                }
            }
            _ => panic!("expected an assignment"),
        },
        _ => panic!("expected an expression statement"),
    }
}

#[test]
fn binary_operators_associate_to_the_left() {
    let parsed = parse_ok("10 - 4 - 3");
    let ast = parsed.ast();
    match &ast.program[0] {
        Stmt::Expr(e) => match e.as_ref() {
            Expr::Binary(outer) => {
                assert_eq!(outer.operator, BinaryOp::Minus);
                assert_eq!(outer.token, 3);
                match &outer.left {
                    Expr::Binary(inner) => assert_eq!(inner.token, 1),
                    _ => panic!("expected a difference on the left"),
                }
            }
            _ => panic!("expected a difference"),
        },
        _ => panic!("expected an expression statement"),
    }
}

#[test]
fn parses_not_before_addition() {
    let parsed = parse_ok("NOT false + \nnot true");
    let ast = parsed.ast();
    assert_eq!(ast.program.len(), 1);
    match &ast.program[0] {
        Stmt::Expr(e) => match e.as_ref() {
            Expr::Binary(b) => {
                assert_eq!(b.operator, BinaryOp::Plus);
                match (&b.left, &b.right) {
                    (Expr::Unary(l), Expr::Unary(r)) => {
                        assert_eq!(l.operator, UnaryOp::Not);
                        assert_eq!(r.operator, UnaryOp::Not);
                    }
                    _ => panic!("expected negations on both sides"),
                }
            }
            _ => panic!("expected a sum"),
        },
        _ => panic!("expected an expression statement"),
    }
}

#[test]
fn parses_logic_and_comparisons() {
    let src = "a <- (TRUE)\nb <- (FALSE)\nnot_a <- NOT a\nx <- a AND b OR a\nDISPLAY(5 >= 10)\n";
    let parsed = parse_ok(src);
    let ast = parsed.ast();
    assert_eq!(ast.program.len(), 5);
    match &ast.program[3] {
        Stmt::Expr(e) => match e.as_ref() {
            Expr::Assign(assign) => match &assign.value {
                Expr::Logical(or) => {
                    assert_eq!(or.operator, LogicalOp::Or);
                    match &or.left {
                        Expr::Logical(and) => assert_eq!(and.operator, LogicalOp::And),
                        _ => panic!("expected AND under OR"),
                    }
                }
                _ => panic!("expected OR"),
            },
            _ => panic!("expected an assignment"),
        },
        _ => panic!("expected an expression statement"),
    }
}

#[test]
fn parses_procedures_and_returns() {
    let src = "PROCEDURE square(x) {\n    RETURN x * x\n}\nresult <- square(4)\nDISPLAY(square(2 + 8))\n";
    let parsed = parse_ok(src);
    let ast = parsed.ast();
    assert_eq!(ast.program.len(), 3);
    match &ast.program[0] {
        Stmt::ProcDeclaration(p) => {
            assert_eq!(lexeme(ast, p.name_token), "square");
            assert_eq!(p.params.len(), 1);
            assert!(!p.exported);
            match &p.body {
                Stmt::Block(b) => {
                    assert_eq!(b.statements.len(), 1);
                    assert!(matches!(b.statements[0], Stmt::Return(_)));
                }
                _ => panic!("expected a block body"),
            }
        }
        _ => panic!("expected a procedure"),
    }
}

#[test]
fn parses_exported_procedure() {
    let parsed = parse_ok("EXPORT PROCEDURE f(a, b) {\n}\n");
    let ast = parsed.ast();
    match &ast.program[0] {
        Stmt::ProcDeclaration(p) => {
            assert!(p.exported);
            assert_eq!(p.proc_token, 1);
            assert_eq!(p.params.len(), 2);
        }
        _ => panic!("expected a procedure"),
    }
}

#[test]
fn parses_loops_and_conditionals() {
    let src = "REPEAT 3 TIMES {\n  BREAK\n}\nREPEAT UNTIL (x > 3) {\n  CONTINUE\n}\nFOR EACH item IN [1, 2, 3] {\n  DISPLAY(item)\n}\nIF (x == 1) {\n  y <- 2\n} ELSE {\n  y <- 3\n}\n";
    let parsed = parse_ok(src);
    let ast = parsed.ast();
    assert_eq!(ast.program.len(), 4);
    assert!(matches!(ast.program[0], Stmt::RepeatTimes(_)));
    assert!(matches!(ast.program[1], Stmt::RepeatUntil(_)));
    assert!(matches!(ast.program[2], Stmt::ForEach(_)));
    match &ast.program[3] {
        Stmt::If(i) => {
            assert!(i.else_branch.is_some());
            assert!(i.else_token.is_some());
        }
        _ => panic!("expected an if"),
    }
}

#[test]
fn parses_lists_access_and_item_assignment() {
    let parsed = parse_ok("list1 <- [1, 2, 3]\nlist1[1] <- 4\nx <- list1[2]\nempty <- []\n");
    let ast = parsed.ast();
    assert_eq!(ast.program.len(), 4);
    match &ast.program[1] {
        Stmt::Expr(e) => assert!(matches!(e.as_ref(), Expr::SetItem(_))),
        _ => panic!("expected an expression statement"),
    }
    match &ast.program[3] {
        Stmt::Expr(e) => match e.as_ref() {
            Expr::Assign(a) => match &a.value {
                Expr::List(l) => assert_eq!(l.items.len(), 0),
                _ => panic!("expected a list"),
            },
            _ => panic!("expected an assignment"),
        },
        _ => panic!("expected an expression statement"),
    }
}

#[test]
fn parses_literals_and_grouping() {
    let parsed = parse_ok("x <- (3.14)\ny <- (NULL)\nz <- \"text\"\n");
    let ast = parsed.ast();
    match &ast.program[0] {
        Stmt::Expr(e) => match e.as_ref() {
            Expr::Assign(a) => match &a.value {
                Expr::Grouping(g) => match &g.expr {
                    Expr::Literal(l) => {
                        assert_eq!(l.value, Literal::Number);
                        assert_eq!(lexeme(ast, l.token), "3.14");
                    }
                    _ => panic!("expected a literal"),
                },
                _ => panic!("expected a grouping"),
            },
            _ => panic!("expected an assignment"),
        },
        _ => panic!("expected an expression statement"),
    }
}

#[test]
fn parses_imports() {
    let parsed = parse_ok("IMPORT MOD \"math\"\nIMPORT \"sqrt\" FROM MOD \"math\"\nIMPORT [\"a\", \"b\"] FROM MOD \"m\"\n");
    let ast = parsed.ast();
    assert_eq!(ast.program.len(), 3);
    match &ast.program[2] {
        Stmt::Import(i) => {
            assert_eq!(i.only_functions.as_ref().unwrap().len(), 2);
            assert!(i.maybe_from_token.is_some());
        }
        _ => panic!("expected an import"),
    }
}

#[test]
fn empty_program_parses_to_nothing() {
    let parsed = parse_ok("");
    let ast = parsed.ast();
    assert_eq!(ast.program.len(), 0);
}

fn check_error(src: &str, kind: ParseErrorKind, found: usize, related: Option<usize>) {
    let e = first_error(src);
    assert_eq!(e.kind, kind, "source: {}", src);
    assert_eq!(e.found, found, "source: {}", src);
    assert_eq!(e.related, related, "source: {}", src);
}

#[test]
fn reports_procedure_errors() {
    check_error("EXPORT x", ParseErrorKind::StandaloneExport, 1, None);
    check_error("PROCEDURE (x) {}", ParseErrorKind::UnnamedProcedure, 1, Some(0));
    check_error("PROCEDURE f x", ParseErrorKind::MissingParameterList, 2, Some(1));
    check_error("PROCEDURE f(1) {}", ParseErrorKind::ExpectedParameter, 3, None);
    check_error("PROCEDURE f(a b) {}", ParseErrorKind::MissingRightParen, 4, None);
}

#[test]
fn reports_too_many_parameters() {
    let names: Vec<String> = (0..257).map(|i| format!("p{}", i)).collect();
    let src = format!("PROCEDURE f({}) {{}}", names.join(", "));
    let e = first_error(&src);
    assert_eq!(e.kind, ParseErrorKind::TooManyParameters);
}

#[test]
fn reports_statement_errors() {
    check_error("{ x", ParseErrorKind::UnclosedBlock, 2, Some(0));
    check_error("BREAK", ParseErrorKind::BreakOutsideLoop, 0, None);
    check_error("CONTINUE", ParseErrorKind::ContinueOutsideLoop, 0, None);
    check_error("RETURN 1", ParseErrorKind::ReturnOutsideProcedure, 0, None);
    check_error("PROCEDURE f() { RETURN 1 2 }", ParseErrorKind::MissingSemicolonAfterReturn, 7, None);
    check_error("IF x", ParseErrorKind::MissingConditionParen, 1, Some(0));
    check_error("REPEAT 3 x", ParseErrorKind::MissingTimes, 2, None);
    check_error("REPEAT UNTIL x", ParseErrorKind::MissingConditionParen, 2, Some(1));
    check_error("FOR x", ParseErrorKind::MissingEach, 1, None);
    check_error("FOR EACH 1", ParseErrorKind::MissingForEachItem, 2, Some(1));
    check_error("FOR EACH x y", ParseErrorKind::MissingIn, 3, Some(2));
    check_error("x y", ParseErrorKind::MissingEndOfLine, 1, None);
}

#[test]
fn reports_import_errors() {
    check_error("IMPORT [1] FROM MOD \"m\"\n", ParseErrorKind::ExpectedFunctionName, 2, None);
    check_error("IMPORT [\"a\" \"b\"] FROM MOD \"m\"\n", ParseErrorKind::MissingImportBracket, 3, None);
    check_error("IMPORT \"a\" MOD \"m\"\n", ParseErrorKind::ExpectedFrom, 2, None);
    check_error("IMPORT x", ParseErrorKind::ExpectedMod, 1, None);
    check_error("IMPORT MOD x", ParseErrorKind::ExpectedModuleName, 2, None);
    check_error("IMPORT MOD \"m\" x", ParseErrorKind::MissingSemicolonAfterImport, 3, None);
    let names: Vec<String> = (0..64).map(|i| format!("\"f{}\"", i)).collect();
    let src = format!("IMPORT [{}] FROM MOD \"m\"\n", names.join(", "));
    let e = first_error(&src);
    assert_eq!(e.kind, ParseErrorKind::TooManySpecificImports);
    assert_eq!(e.related, Some(1));
}

#[test]
fn reports_expression_errors() {
    check_error("1 <- 2", ParseErrorKind::InvalidAssignmentTarget, 1, Some(0));
    check_error("a[1 2", ParseErrorKind::MissingIndexBracket, 3, None);
    check_error("(1 2", ParseErrorKind::UnclosedGrouping, 2, None);
    check_error("[1 2", ParseErrorKind::MissingRightBracket, 2, None);
    check_error("f(1 2", ParseErrorKind::MissingRightParen, 3, None);
    check_error("x <- )", ParseErrorKind::ExpectedPrimary, 2, None);
    let args: Vec<String> = (0..256).map(|i| format!("{}", i)).collect();
    let src = format!("f({})", args.join(", "));
    assert_eq!(first_error(&src).kind, ParseErrorKind::TooManyArguments);
}

#[test]
fn recovers_after_an_error_at_the_next_statement() {
    let errors = parse_errors("BREAK\nCONTINUE\n");
    assert_eq!(errors.len(), 2);
    assert_eq!(errors[0].kind, ParseErrorKind::BreakOutsideLoop);
    assert_eq!(errors[0].found, 0);
    assert_eq!(errors[1].kind, ParseErrorKind::ContinueOutsideLoop);
    assert_eq!(errors[1].found, 2);
}

#[test]
fn loops_allow_break_and_procedures_allow_return() {
    parse_ok("FOR EACH x IN y {\n  IF (x) { BREAK }\n}\n");
    parse_ok("PROCEDURE f() {\n  REPEAT 2 TIMES {\n    RETURN\n  }\n}\n");
}

#[test]
fn a_line_ending_in_a_boolean_literal_does_not_end_the_statement() {
    check_error("a <- TRUE\nb <- FALSE", ParseErrorKind::MissingEndOfLine, 3, None);
}

#[test]
fn tree_positions_name_tokens_of_their_kind() {
    let parsed = parse_ok("REPEAT 3 TIMES {\n    x <- x + 1\n}\nFOR EACH item IN [1, 2] {\n    IF (item > 1) { DISPLAY(item) } ELSE { BREAK }\n}\n");
    let ast = parsed.ast();
    let kind = |k: usize| ast.tokens[k].token_type;
    assert_eq!(ast.program.len(), 2);
    match &ast.program[0] {
        Stmt::RepeatTimes(r) => {
            assert_eq!(kind(r.repeat_token), TokenType::Repeat);
            assert_eq!(kind(r.times_token), TokenType::Times);
            assert_eq!(kind(r.count_token), TokenType::Number);
            match &r.body {
                Stmt::Block(b) => {
                    assert_eq!(kind(b.lb_token), TokenType::LeftBrace);
                    assert_eq!(kind(b.rb_token), TokenType::RightBrace);
                }
                _ => panic!("expected a block"),
            }
        }
        _ => panic!("expected REPEAT TIMES"),
    }
    match &ast.program[1] {
        Stmt::ForEach(l) => {
            assert_eq!(kind(l.for_token), TokenType::For);
            assert_eq!(kind(l.each_token), TokenType::Each);
            assert_eq!(kind(l.item_token), TokenType::Identifier);
            assert_eq!(kind(l.in_token), TokenType::In);
            assert_eq!(kind(l.list_token), TokenType::RightBracket);
            match &l.body {
                Stmt::Block(b) => match &b.statements[0] {
                    Stmt::If(i) => {
                        assert_eq!(kind(i.if_token), TokenType::If);
                        assert_eq!(kind(i.else_token.unwrap()), TokenType::Else);
                    }
                    _ => panic!("expected IF"),
                },
                _ => panic!("expected a block"),
            }
        }
        _ => panic!("expected FOR EACH"),
    }
    assert_eq!(kind(ast.tokens.len() - 1), TokenType::Eof);
}

#[test]
fn reported_errors_name_positions_within_tokens() {
    let src = "x <- \nIF x) {\n}\nIMPORT [\"a\"] MOD\nRETURN 1\nPROCEDURE (a) {}\n";
    let tokens = Lexer::scan(src, String::new()).expect("lexing failed");
    let count = tokens.len();
    let mut parser = Parser::new(tokens);
    let errors = match parser.parse() {
        Ok(_) => panic!("parsing should have failed"),
        Err(errors) => errors,
    };
    assert!(errors.len() >= 4);
    for e in &errors {
        assert!(e.found < count);
        if let Some(r) = e.related {
            assert!(r < count);
        }
    }
}

#[test]
fn test_add() {
    let input = "NOT false + \nnot true";
    let mut scanner = Lexer::new(input, String::default());
    let tokens = scanner.scan_tokens().unwrap();

    let mut parser = Parser::new(tokens);
    let expr = parser.expression();

    println!("{:#?}", expr);
    match expr {
        Ok(Expr::Binary(b)) => {
            assert_eq!(b.operator, BinaryOp::Plus);
            assert!(matches!(b.left, Expr::Unary(_)));
            assert!(matches!(b.right, Expr::Unary(_)));
        }
        _ => panic!("expected a sum of two negations"),
    }
}
