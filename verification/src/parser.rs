//! The recursive-descent parser. Each method reads one construct of the
//! grammar and is proved to agree with the function of the same name (with
//! a `p_` prefix) in [`crate::parser_spec`].
use crate::ast::{
    exprs_view, expr_view, param_tokens, lemma_block_view, lemma_call_view, lemma_list_view, stmt_view,
    stmts_view, Access, Assignment, Ast, Binary, Block, Break, Continue, Expr, ExprLiteral, ExprV,
    ForEach, Grouping, If, Import, List, Literal, Logical, ProcCall, ProcDeclaration, RepeatTimes,
    RepeatUntil, Return, SetItem, Stmt, StmtV, Unary, Variable,
};
use crate::parser_spec::{
    at_end, binary_of, can_begin_declaration, can_begin_expression, can_begin_primary,
    can_begin_program, can_begin_statement, check, in_range, is_sync_point, lemma_sync_from_bounds,
    level_op, p_access, p_access_rest, p_and, p_and_rest, p_args, p_assignment, p_binary,
    p_binary_rest, p_block, p_block_items, p_declaration, p_expression, p_expression_statement,
    p_for_each, p_if, p_import, p_import_functions, p_items, p_operand, p_or, p_or_rest, p_params,
    p_primary, p_procedure, p_program, p_repeat_times, p_repeat_until, p_return, p_specifics,
    p_statement, p_sync_from, p_synchronize, p_unary, ParseError, ParseErrorKind, MAX_ARGS,
    MAX_PARAMS, MAX_SPECIFIC_FUNCTIONS, PR,
};
use crate::token::{
    binary_op_of, clone_tokens, spec_binary_op, token_types, token_views, BinaryOp, LogicalOp,
    Token, TokenType, UnaryOp,
};
use vstd::prelude::*;

verus! {

/// Whether an executable expression result agrees with a specified one;
/// `pos` and `f` are the parser's position and procedure flag afterwards.
pub open spec fn expr_outcome(r: Result<Expr, ParseError>, s: PR<ExprV>, pos: int, f: bool) -> bool {
    match s {
        Ok((v, j)) => match r {
            Ok(e) => expr_view(e) == v && pos == j,
            Err(_) => false,
        },
        Err((e, p, f2)) => r == Err::<Expr, ParseError>(e) && pos == p && f == f2,
    }
}

/// Whether an executable statement result agrees with a specified one.
pub open spec fn stmt_outcome(r: Result<Stmt, ParseError>, s: PR<StmtV>, pos: int, f: bool) -> bool {
    match s {
        Ok((v, j)) => match r {
            Ok(e) => stmt_view(e) == v && pos == j,
            Err(_) => false,
        },
        Err((e, p, f2)) => r == Err::<Stmt, ParseError>(e) && pos == p && f == f2,
    }
}

/// The parser state: the tokens, the position of the next token, and
/// whether a procedure body or a loop body is being read.
pub struct Parser {
    tokens: Vec<Token>,
    current: usize,
    in_function_scope: bool,
    in_loop_scope: bool,
}

impl Parser {
    /// The kinds of the tokens being parsed.
    pub closed spec fn kinds(&self) -> Seq<TokenType> {
        token_types(token_views(self.tokens@))
    }

    /// The tokens being parsed.
    pub closed spec fn token_seq(&self) -> Seq<Token> {
        self.tokens@
    }

    /// The position of the next token.
    pub closed spec fn pos(&self) -> int {
        self.current as int
    }

    /// Whether a procedure body is being read.
    pub closed spec fn in_fn(&self) -> bool {
        self.in_function_scope
    }

    /// Whether a loop body is being read.
    pub closed spec fn in_loop(&self) -> bool {
        self.in_loop_scope
    }

    /// The parser's invariant: the tokens end with the end-of-file token
    /// and the position lies within them.
    pub closed spec fn wf(&self) -> bool {
        &&& self.kinds().len() > 0
        &&& self.kinds().last() == TokenType::Eof
        &&& self.current < self.kinds().len()
    }

    /// What stays the same while reading a construct.
    pub open spec fn keeps(&self, other: &Parser) -> bool {
        &&& other.wf()
        &&& other.kinds() == self.kinds()
        &&& other.token_seq() == self.token_seq()
        &&& other.in_loop() == self.in_loop()
        &&& other.pos() >= self.pos()
    }

    /// A parser at the start of `tokens`.
    pub fn new(tokens: Vec<Token>) -> (p: Parser)
        requires
            tokens@.len() > 0,
            tokens@.last().token_type == TokenType::Eof,
        ensures
            p.wf(),
            p.pos() == 0,
            !p.in_fn(),
            !p.in_loop(),
            p.token_seq() == tokens@,
            p.kinds() == token_types(token_views(tokens@)),
    {
        let p = Parser { tokens, current: 0, in_function_scope: false, in_loop_scope: false };
        assert(p.kinds().last() == TokenType::Eof);
        p
    }

    /// Parses the whole token sequence into a program. Succeeds exactly when
    /// no syntax error was found; otherwise returns every error found,
    /// resuming after each at the next statement keyword.
    pub fn parse(&mut self) -> (r: Result<Ast, Vec<ParseError>>)
        requires
            old(self).wf(),
            !old(self).in_loop(),
            old(self).pos() > 0 || can_begin_program(old(self).kinds()[old(self).pos()]),
        ensures
            final(self).wf(),
            final(self).kinds() == old(self).kinds(),
            ({
                let o = p_program(
                    old(self).kinds(),
                    old(self).pos(),
                    old(self).in_fn(),
                    seq![],
                    seq![],
                );
                match r {
                    Ok(ast) => o.errors.len() == 0 && stmts_view(ast.program@) == o.program
                        && token_views(ast.tokens@) == token_views(old(self).token_seq()),
                    Err(es) => o.errors.len() > 0 && es@ == o.errors,
                }
            }),
    {
        reveal(p_program);
        reveal(p_declaration);
        reveal(p_synchronize);
        reveal(p_sync_from);
        let ghost goal = p_program(self.kinds(), self.pos(), self.in_fn(), seq![], seq![]);
        let mut statements: Vec<Stmt> = Vec::new();
        let mut reports: Vec<ParseError> = Vec::new();
        proof {
            assert(stmts_view(statements@) =~= Seq::<StmtV>::empty());
        }
        while !self.is_at_end()
            invariant
                self.wf(),
                self.kinds() == old(self).kinds(),
                self.token_seq() == old(self).token_seq(),
                !self.in_loop(),
                self.pos() > 0 || can_begin_program(self.kinds()[self.pos()]),
                goal == p_program(old(self).kinds(), old(self).pos(), old(self).in_fn(), seq![], seq![]),
                p_program(self.kinds(), self.pos(), self.in_fn(), stmts_view(statements@), reports@)
                    == goal,
            decreases self.kinds().len() - self.pos(),
        {
            reveal(p_program);
            reveal(p_declaration);
            reveal(p_synchronize);
            reveal(p_sync_from);
            if self.match_token(TokenType::SoftSemi) {
            } else {
                let ghost ts = self.kinds();
                let ghost i = self.pos();
                let ghost before = stmts_view(statements@);
                match self.declaration() {
                    Ok(st) => {
                        statements.push(st);
                        proof {
                            assert(stmts_view(statements@) =~= before.push(stmt_view(st)));
                        }
                    },
                    Err(e) => {
                        let ghost p = self.pos();
                        reports.push(e);
                        self.synchronize();
                        proof {
                            lemma_sync_from_bounds(ts, if at_end(ts, p) { p } else { p + 1 });
                        }
                    },
                }
            }
        }
        if reports.len() > 0 {
            return Err(reports);
        }
        let tokens = clone_tokens(&self.tokens);
        Ok(Ast { tokens, program: statements })
    }

    // -----------------------------------------------------------------------
    // Declarations and statements
    // -----------------------------------------------------------------------
    fn declaration(&mut self) -> (r: Result<Stmt, ParseError>)
        requires
            old(self).wf(),
            old(self).pos() > 0 || can_begin_declaration(old(self).kinds()[old(self).pos()]),
        ensures
            old(self).keeps(final(self)),
            r is Ok ==> final(self).pos() > old(self).pos() && final(self).in_fn() == old(
                self,
            ).in_fn(),
            stmt_outcome(
                r,
                p_declaration(old(self).kinds(), old(self).pos(), old(self).in_fn(), old(self).in_loop()),
                final(self).pos(),
                final(self).in_fn(),
            ),
        decreases old(self).kinds().len() - old(self).pos(), 31int,
    {
        reveal(p_declaration);
        if self.match_token(TokenType::Export) || self.match_token(TokenType::Procedure) {
            reveal(p_procedure);
            return self.procedure();
        }
        reveal(p_statement);
        self.statement()
    }

    #[verifier::rlimit(60)]
    fn procedure(&mut self) -> (r: Result<Stmt, ParseError>)
        requires
            old(self).wf(),
            old(self).pos() > 0,
        ensures
            old(self).keeps(final(self)),
            r is Ok ==> final(self).pos() > old(self).pos() && final(self).in_fn() == old(
                self,
            ).in_fn(),
            stmt_outcome(
                r,
                p_procedure(old(self).kinds(), old(self).pos(), old(self).in_fn(), old(self).in_loop()),
                final(self).pos(),
                final(self).in_fn(),
            ),
        decreases old(self).kinds().len() - old(self).pos(), 35int,
    {
        reveal(p_procedure);
        let exported = self.kind_at(self.current - 1) == TokenType::Export;
        let proc_token = if exported {
            self.consume(TokenType::Procedure, ParseErrorKind::StandaloneExport, None)?
        } else {
            self.current - 1
        };
        let name_token = self.consume(
            TokenType::Identifier,
            ParseErrorKind::UnnamedProcedure,
            Some(proc_token),
        )?;
        let _lp_token = self.consume(
            TokenType::LeftParen,
            ParseErrorKind::MissingParameterList,
            Some(name_token),
        )?;
        reveal(p_params);
        let params = if !self.check(TokenType::RightParen) {
            self.parameters()?
        } else {
            let v: Vec<Variable> = Vec::new();
            proof {
                assert(param_tokens(v@) =~= Seq::<usize>::empty());
            }
            v
        };
        let _rp_token = self.consume(TokenType::RightParen, ParseErrorKind::MissingRightParen, None)?;
        let function_scope_state_cache = self.in_function_scope;
        self.in_function_scope = true;
        reveal(p_statement);
        let body = self.statement()?;
        self.in_function_scope = function_scope_state_cache;
        Ok(
            Stmt::ProcDeclaration(
                Box::new(ProcDeclaration { params, body, exported, proc_token, name_token }),
            ),
        )
    }

    /// The comma-separated parameter names of a procedure.
    fn parameters(&mut self) -> (r: Result<Vec<Variable>, ParseError>)
        requires
            old(self).wf(),
        ensures
            final(self).wf(),
            final(self).kinds() == old(self).kinds(),
            final(self).token_seq() == old(self).token_seq(),
            final(self).in_fn() == old(self).in_fn(),
            final(self).in_loop() == old(self).in_loop(),
            final(self).pos() >= old(self).pos(),
            match p_params(old(self).kinds(), old(self).pos(), seq![], old(self).in_fn()) {
                Ok((ps, j)) => r is Ok && param_tokens(r->Ok_0@) == ps && final(self).pos() == j,
                Err((e, p, f2)) => r == Err::<Vec<Variable>, ParseError>(e) && final(self).pos()
                    == p && f2 == old(self).in_fn(),
            },
    {
        reveal(p_params);
        let ghost ts = self.kinds();
        let ghost f = self.in_fn();
        let ghost goal = p_params(ts, self.pos(), seq![], f);
        let mut params: Vec<Variable> = Vec::new();
        proof {
            assert(param_tokens(params@) =~= Seq::<usize>::empty());
        }
        loop
            invariant_except_break
                self.wf(),
                self.kinds() == ts,
                ts == old(self).kinds(),
                self.token_seq() == old(self).token_seq(),
                self.in_loop() == old(self).in_loop(),
                self.in_fn() == f,
                f == old(self).in_fn(),
                self.pos() >= old(self).pos(),
                goal == p_params(ts, old(self).pos(), seq![], f),
                p_params(ts, self.pos(), param_tokens(params@), f) == goal,
            ensures
                self.wf(),
                self.kinds() == ts,
                self.token_seq() == old(self).token_seq(),
                self.in_loop() == old(self).in_loop(),
                self.in_fn() == f,
                self.pos() >= old(self).pos(),
                goal == Ok::<(Seq<usize>, int), (ParseError, int, bool)>(
                    (param_tokens(params@), self.pos()),
                ),
            decreases ts.len() - self.pos(),
        {
            reveal(p_params);
            let ghost before = param_tokens(params@);
            if params.len() > MAX_PARAMS {
                return Err(
                    ParseError {
                        kind: ParseErrorKind::TooManyParameters,
                        found: self.current,
                        related: None,
                    },
                );
            }
            let token = self.consume(TokenType::Identifier, ParseErrorKind::ExpectedParameter, None)?;
            params.push(Variable { token });
            proof {
                assert(param_tokens(params@) =~= before.push(token));
            }
            if !self.match_token(TokenType::Comma) {
                break ;
            }
        }
        Ok(params)
    }

    #[verifier::rlimit(60)]
    fn statement(&mut self) -> (r: Result<Stmt, ParseError>)
        requires
            old(self).wf(),
            old(self).pos() > 0 || can_begin_statement(old(self).kinds()[old(self).pos()]),
        ensures
            old(self).keeps(final(self)),
            r is Ok ==> final(self).pos() > old(self).pos() && final(self).in_fn() == old(
                self,
            ).in_fn(),
            stmt_outcome(
                r,
                p_statement(old(self).kinds(), old(self).pos(), old(self).in_fn(), old(self).in_loop()),
                final(self).pos(),
                final(self).in_fn(),
            ),
        decreases old(self).kinds().len() - old(self).pos(), 30int,
    {
        reveal(p_statement);
        if self.match_token(TokenType::Import) {
            reveal(p_import);
            let import_token = self.current - 1;
            return self.import_statement(import_token);
        }
        if self.match_token(TokenType::If) {
            reveal(p_if);
            let if_token = self.current - 1;
            return self.if_statement(if_token);
        }
        if self.match_token(TokenType::Repeat) {
            reveal(p_repeat_times);
            reveal(p_repeat_until);
            let repeat_token = self.current - 1;
            let cache_loop_state = self.in_loop_scope;
            self.in_loop_scope = true;
            let result = if self.check(TokenType::Until) {
                self.repeat_until(repeat_token)
            } else {
                self.repeat_times(repeat_token)
            };
            self.in_loop_scope = cache_loop_state;
            return result;
        }
        if self.match_token(TokenType::For) {
            reveal(p_for_each);
            let for_token = self.current - 1;
            let cache_loop_state = self.in_loop_scope;
            self.in_loop_scope = true;
            let result = self.for_each(for_token);
            self.in_loop_scope = cache_loop_state;
            return result;
        }
        if self.match_token(TokenType::LeftBrace) {
            reveal(p_block);
            let lb_token = self.current - 1;
            return self.block(lb_token);
        }
        if self.match_token(TokenType::Continue) {
            let cont_token = self.current - 1;
            return self.continue_statement(cont_token);
        }
        if self.match_token(TokenType::Break) {
            let brk_token = self.current - 1;
            return self.break_statement(brk_token);
        }
        if self.match_token(TokenType::Return) {
            reveal(p_return);
            let return_token = self.current - 1;
            return self.return_statement(return_token);
        }
        reveal(p_expression_statement);
        self.expression_statement()
    }

    #[verifier::rlimit(60)]
    fn block(&mut self, lb_token: usize) -> (r: Result<Stmt, ParseError>)
        requires
            old(self).wf(),
            old(self).pos() > 0,
            lb_token == old(self).pos() - 1,
        ensures
            old(self).keeps(final(self)),
            r is Ok ==> final(self).pos() > old(self).pos() && final(self).in_fn() == old(
                self,
            ).in_fn(),
            stmt_outcome(
                r,
                p_block(old(self).kinds(), old(self).pos(), old(self).in_fn(), old(self).in_loop()),
                final(self).pos(),
                final(self).in_fn(),
            ),
        decreases old(self).kinds().len() - old(self).pos(), 45int,
    {
        reveal(p_block);
        reveal(p_block_items);
        reveal(p_declaration);
        let ghost ts = self.kinds();
        let ghost goal = p_block(ts, self.pos(), self.in_fn(), self.in_loop());
        let mut statements: Vec<Stmt> = Vec::new();
        proof {
            assert(stmts_view(statements@) =~= Seq::<StmtV>::empty());
        }
        while !self.check(TokenType::LeftBrace) && !self.is_at_end() && !self.check(
            TokenType::RightBrace,
        )
            invariant
                self.wf(),
                self.kinds() == ts,
                ts == old(self).kinds(),
                self.token_seq() == old(self).token_seq(),
                self.in_loop() == old(self).in_loop(),
                self.in_fn() == old(self).in_fn(),
                self.pos() >= old(self).pos(),
                old(self).pos() > 0,
                goal == p_block(ts, old(self).pos(), old(self).in_fn(), old(self).in_loop()),
                p_block_items(
                    ts,
                    self.pos(),
                    stmts_view(statements@),
                    lb_token as int,
                    self.in_fn(),
                    self.in_loop(),
                ) == goal,
            decreases ts.len() - self.pos(),
        {
            reveal(p_block_items);
            reveal(p_declaration);
            if self.match_token(TokenType::SoftSemi) {
            } else {
                let ghost before = stmts_view(statements@);
                let st = self.declaration()?;
                statements.push(st);
                proof {
                    assert(stmts_view(statements@) =~= before.push(stmt_view(st)));
                }
            }
        }
        let rb_token = self.consume(
            TokenType::RightBrace,
            ParseErrorKind::UnclosedBlock,
            Some(lb_token),
        )?;
        let b = Block { lb_token, statements, rb_token };
        proof {
            lemma_block_view(b);
        }
        Ok(Stmt::Block(Box::new(b)))
    }

    fn break_statement(&mut self, break_token: usize) -> (r: Result<Stmt, ParseError>)
        requires
            break_token < old(self).kinds().len(),
        ensures
            *final(self) == *old(self),
            r == (if !old(self).in_loop() {
                Err::<Stmt, ParseError>(
                    ParseError {
                        kind: ParseErrorKind::BreakOutsideLoop,
                        found: break_token,
                        related: None,
                    },
                )
            } else {
                Ok::<Stmt, ParseError>(Stmt::Break(Box::new(Break { token: break_token })))
            }),
    {
        if !self.in_loop_scope {
            return Err(
                ParseError { kind: ParseErrorKind::BreakOutsideLoop, found: break_token, related: None },
            );
        }
        Ok(Stmt::Break(Box::new(Break { token: break_token })))
    }

    fn continue_statement(&mut self, continue_token: usize) -> (r: Result<Stmt, ParseError>)
        requires
            continue_token < old(self).kinds().len(),
        ensures
            *final(self) == *old(self),
            r == (if !old(self).in_loop() {
                Err::<Stmt, ParseError>(
                    ParseError {
                        kind: ParseErrorKind::ContinueOutsideLoop,
                        found: continue_token,
                        related: None,
                    },
                )
            } else {
                Ok::<Stmt, ParseError>(Stmt::Continue(Box::new(Continue { token: continue_token })))
            }),
    {
        if !self.in_loop_scope {
            return Err(
                ParseError {
                    kind: ParseErrorKind::ContinueOutsideLoop,
                    found: continue_token,
                    related: None,
                },
            );
        }
        Ok(Stmt::Continue(Box::new(Continue { token: continue_token })))
    }

    #[verifier::rlimit(60)]
    fn return_statement(&mut self, return_token: usize) -> (r: Result<Stmt, ParseError>)
        requires
            old(self).wf(),
            old(self).pos() > 0,
            return_token == old(self).pos() - 1,
        ensures
            old(self).keeps(final(self)),
            final(self).in_fn() == old(self).in_fn(),
            r is Ok ==> final(self).pos() > old(self).pos(),
            stmt_outcome(
                r,
                p_return(old(self).kinds(), old(self).pos(), old(self).in_fn()),
                final(self).pos(),
                final(self).in_fn(),
            ),
        decreases old(self).kinds().len() - old(self).pos(), 35int,
    {
        reveal(p_return);
        reveal(p_expression);
        if !self.in_function_scope {
            return Err(
                ParseError {
                    kind: ParseErrorKind::ReturnOutsideProcedure,
                    found: return_token,
                    related: None,
                },
            );
        }
        let maybe_value = if !self.match_token(TokenType::SoftSemi) {
            Some(self.expression()?)
        } else {
            None
        };
        if maybe_value.is_some() {
            self.consume(
                TokenType::SoftSemi,
                ParseErrorKind::MissingSemicolonAfterReturn,
                None,
            )?;
        }
        Ok(Stmt::Return(Box::new(Return { token: return_token, data: maybe_value })))
    }

    fn import_statement(&mut self, import_token: usize) -> (r: Result<Stmt, ParseError>)
        requires
            old(self).wf(),
            old(self).pos() > 0,
            import_token == old(self).pos() - 1,
        ensures
            old(self).keeps(final(self)),
            final(self).in_fn() == old(self).in_fn(),
            r is Ok ==> final(self).pos() > old(self).pos(),
            stmt_outcome(
                r,
                p_import(old(self).kinds(), old(self).pos(), old(self).in_fn()),
                final(self).pos(),
                final(self).in_fn(),
            ),
    {
        reveal(p_import);
        reveal(p_import_functions);
        reveal(p_specifics);
        let ghost ts = self.kinds();
        let ghost f = self.in_fn();
        let only_functions = if self.match_token(TokenType::LeftBracket) {
            let lbracket = self.current - 1;
            let mut specific_functions: Vec<usize> = Vec::new();
            let ghost start = self.pos();
            let ghost goal = p_specifics(ts, start, seq![], lbracket as int, f);
            loop
                invariant_except_break
                    self.wf(),
                    self.kinds() == ts,
                    ts == old(self).kinds(),
                    self.token_seq() == old(self).token_seq(),
                    self.in_loop() == old(self).in_loop(),
                    self.in_fn() == f,
                    f == old(self).in_fn(),
                    self.pos() > old(self).pos(),
                    lbracket == old(self).pos(),
                    goal == p_specifics(ts, start, seq![], lbracket as int, f),
                    goal is Err ==> p_import(ts, old(self).pos(), f) == Err::<(StmtV, int), (ParseError, int, bool)>(
                        goal->Err_0,
                    ),
                    p_specifics(ts, self.pos(), specific_functions@, lbracket as int, f) == goal,
                ensures
                    self.wf(),
                    self.kinds() == ts,
                    self.token_seq() == old(self).token_seq(),
                    self.in_loop() == old(self).in_loop(),
                    self.in_fn() == f,
                    self.pos() > old(self).pos(),
                    goal == Ok::<(Seq<usize>, int), (ParseError, int, bool)>(
                        (specific_functions@, self.pos()),
                    ),
                decreases ts.len() - self.pos(),
            {
                reveal(p_specifics);
                if specific_functions.len() >= MAX_SPECIFIC_FUNCTIONS {
                    let last = specific_functions[specific_functions.len() - 1];
                    return Err(
                        ParseError {
                            kind: ParseErrorKind::TooManySpecificImports,
                            found: last,
                            related: Some(lbracket),
                        },
                    );
                }
                let specific_function = self.consume(
                    TokenType::StringLiteral,
                    ParseErrorKind::ExpectedFunctionName,
                    None,
                )?;
                specific_functions.push(specific_function);
                if !self.match_token(TokenType::Comma) {
                    break ;
                }
            }
            let _rbracket = self.consume(
                TokenType::RightBracket,
                ParseErrorKind::MissingImportBracket,
                None,
            )?;
            Some(specific_functions)
        } else if self.match_token(TokenType::StringLiteral) {
            let one = self.current - 1;
            let mut v: Vec<usize> = Vec::new();
            v.push(one);
            proof {
                assert(v@ =~= seq![one]);
            }
            Some(v)
        } else {
            None
        };
        let ghost only_view: Option<Seq<usize>> = match only_functions {
            Some(ref v) => Some(v@),
            None => None,
        };
        assert(p_import_functions(ts, old(self).pos(), f) == Ok::<
            (Option<Seq<usize>>, int),
            (ParseError, int, bool),
        >((only_view, self.pos())));
        let maybe_from_token = if only_functions.is_some() {
            Some(self.consume(TokenType::From, ParseErrorKind::ExpectedFrom, None)?)
        } else {
            None
        };
        let mod_token = self.consume(TokenType::Mod, ParseErrorKind::ExpectedMod, None)?;
        let module_name = self.consume(
            TokenType::StringLiteral,
            ParseErrorKind::ExpectedModuleName,
            None,
        )?;
        self.consume(TokenType::SoftSemi, ParseErrorKind::MissingSemicolonAfterImport, None)?;
        Ok(
            Stmt::Import(
                Box::new(
                    Import {
                        import_token,
                        mod_token,
                        maybe_from_token,
                        only_functions,
                        module_name,
                    },
                ),
            ),
        )
    }

    #[verifier::spinoff_prover]
    #[verifier::rlimit(100)]
    fn if_statement(&mut self, if_token: usize) -> (r: Result<Stmt, ParseError>)
        requires
            old(self).wf(),
            old(self).pos() > 0,
            if_token == old(self).pos() - 1,
        ensures
            old(self).keeps(final(self)),
            r is Ok ==> final(self).pos() > old(self).pos() && final(self).in_fn() == old(
                self,
            ).in_fn(),
            stmt_outcome(
                r,
                p_if(old(self).kinds(), old(self).pos(), old(self).in_fn(), old(self).in_loop()),
                final(self).pos(),
                final(self).in_fn(),
            ),
        decreases old(self).kinds().len() - old(self).pos(), 35int,
    {
        reveal(p_if);
        reveal(p_expression);
        let _lp_token = self.consume(
            TokenType::LeftParen,
            ParseErrorKind::MissingConditionParen,
            Some(if_token),
        )?;
        let condition = self.expression()?;
        let _rp_token = self.consume(TokenType::RightParen, ParseErrorKind::MissingRightParen, None)?;
        reveal(p_statement);
        let then_branch = self.statement()?;
        if self.match_token(TokenType::Else) {
            let else_token = self.current - 1;
            let else_branch = self.statement()?;
            Ok(
                Stmt::If(
                    Box::new(
                        If {
                            condition,
                            then_branch,
                            else_branch: Some(else_branch),
                            if_token,
                            else_token: Some(else_token),
                        },
                    ),
                ),
            )
        } else {
            Ok(
                Stmt::If(
                    Box::new(
                        If { condition, then_branch, else_branch: None, if_token, else_token: None },
                    ),
                ),
            )
        }
    }

    #[verifier::spinoff_prover]
    #[verifier::rlimit(100)]
    fn repeat_times(&mut self, repeat_token: usize) -> (r: Result<Stmt, ParseError>)
        requires
            old(self).wf(),
            old(self).pos() > 0,
            old(self).in_loop(),
            repeat_token == old(self).pos() - 1,
            old(self).kinds()[repeat_token as int] == TokenType::Repeat,
        ensures
            old(self).keeps(final(self)),
            r is Ok ==> final(self).pos() > old(self).pos() && final(self).in_fn() == old(
                self,
            ).in_fn(),
            stmt_outcome(
                r,
                p_repeat_times(old(self).kinds(), old(self).pos(), old(self).in_fn()),
                final(self).pos(),
                final(self).in_fn(),
            ),
        decreases old(self).kinds().len() - old(self).pos(), 35int,
    {
        reveal(p_repeat_times);
        reveal(p_expression);
        self.confirm(TokenType::Repeat)?;
        let count = self.expression()?;
        let count_token = self.current - 1;
        let times_token = self.consume(TokenType::Times, ParseErrorKind::MissingTimes, None)?;
        reveal(p_statement);
        let body = self.statement()?;
        Ok(
            Stmt::RepeatTimes(
                Box::new(RepeatTimes { count, body, repeat_token, times_token, count_token }),
            ),
        )
    }

    #[verifier::spinoff_prover]
    #[verifier::rlimit(100)]
    fn repeat_until(&mut self, repeat_token: usize) -> (r: Result<Stmt, ParseError>)
        requires
            old(self).wf(),
            old(self).pos() > 0,
            old(self).in_loop(),
            repeat_token == old(self).pos() - 1,
            old(self).kinds()[repeat_token as int] == TokenType::Repeat,
            check(old(self).kinds(), old(self).pos(), TokenType::Until),
        ensures
            old(self).keeps(final(self)),
            r is Ok ==> final(self).pos() > old(self).pos() && final(self).in_fn() == old(
                self,
            ).in_fn(),
            stmt_outcome(
                r,
                p_repeat_until(old(self).kinds(), old(self).pos(), old(self).in_fn()),
                final(self).pos(),
                final(self).in_fn(),
            ),
        decreases old(self).kinds().len() - old(self).pos(), 35int,
    {
        reveal(p_repeat_until);
        reveal(p_expression);
        self.confirm(TokenType::Repeat)?;
        let until_token = self.consume(TokenType::Until, ParseErrorKind::MissingConditionParen, None)?;
        let _lp_token = self.consume(
            TokenType::LeftParen,
            ParseErrorKind::MissingConditionParen,
            Some(until_token),
        )?;
        let condition = self.expression()?;
        let _rp_token = self.consume(TokenType::RightParen, ParseErrorKind::MissingRightParen, None)?;
        reveal(p_statement);
        let body = self.statement()?;
        Ok(
            Stmt::RepeatUntil(
                Box::new(RepeatUntil { condition, body, repeat_token, until_token }),
            ),
        )
    }

    #[verifier::spinoff_prover]
    #[verifier::rlimit(100)]
    fn for_each(&mut self, for_token: usize) -> (r: Result<Stmt, ParseError>)
        requires
            old(self).wf(),
            old(self).pos() > 0,
            old(self).in_loop(),
            for_token == old(self).pos() - 1,
            old(self).kinds()[for_token as int] == TokenType::For,
        ensures
            old(self).keeps(final(self)),
            r is Ok ==> final(self).pos() > old(self).pos() && final(self).in_fn() == old(
                self,
            ).in_fn(),
            stmt_outcome(
                r,
                p_for_each(old(self).kinds(), old(self).pos(), old(self).in_fn()),
                final(self).pos(),
                final(self).in_fn(),
            ),
        decreases old(self).kinds().len() - old(self).pos(), 35int,
    {
        reveal(p_for_each);
        reveal(p_expression);
        self.confirm(TokenType::For)?;
        let each_token = self.consume(TokenType::Each, ParseErrorKind::MissingEach, None)?;
        let item_token = self.consume(
            TokenType::Identifier,
            ParseErrorKind::MissingForEachItem,
            Some(each_token),
        )?;
        let item = Variable { token: item_token };
        let in_token = self.consume(TokenType::In, ParseErrorKind::MissingIn, Some(item_token))?;
        let list = self.expression()?;
        let list_token = self.current - 1;
        reveal(p_statement);
        let body = self.statement()?;
        Ok(
            Stmt::ForEach(
                Box::new(
                    ForEach {
                        item,
                        list,
                        body,
                        item_token,
                        for_token,
                        each_token,
                        in_token,
                        list_token,
                    },
                ),
            ),
        )
    }

    #[verifier::rlimit(60)]
    fn expression_statement(&mut self) -> (r: Result<Stmt, ParseError>)
        requires
            old(self).wf(),
            old(self).pos() > 0 || can_begin_expression(old(self).kinds()[old(self).pos()]),
        ensures
            old(self).keeps(final(self)),
            final(self).in_fn() == old(self).in_fn(),
            r is Ok ==> final(self).pos() > old(self).pos(),
            stmt_outcome(
                r,
                p_expression_statement(old(self).kinds(), old(self).pos(), old(self).in_fn()),
                final(self).pos(),
                final(self).in_fn(),
            ),
        decreases old(self).kinds().len() - old(self).pos(), 29int,
    {
        reveal(p_expression_statement);
        reveal(p_expression);
        let expr = self.expression()?;
        if self.is_at_end() {
            return Ok(Stmt::Expr(Box::new(expr)));
        }
        if self.check(TokenType::RightBrace) {
            return Ok(Stmt::Expr(Box::new(expr)));
        }
        self.consume(TokenType::SoftSemi, ParseErrorKind::MissingEndOfLine, None)?;
        Ok(Stmt::Expr(Box::new(expr)))
    }

    // -----------------------------------------------------------------------
    // Expressions
    // -----------------------------------------------------------------------
    /// Reads an expression.
    pub fn expression(&mut self) -> (r: Result<Expr, ParseError>)
        requires
            old(self).wf(),
            old(self).pos() > 0 || can_begin_expression(old(self).kinds()[old(self).pos()]),
        ensures
            old(self).keeps(final(self)),
            final(self).in_fn() == old(self).in_fn(),
            r is Ok ==> final(self).pos() > old(self).pos(),
            expr_outcome(
                r,
                p_expression(old(self).kinds(), old(self).pos(), old(self).in_fn()),
                final(self).pos(),
                final(self).in_fn(),
            ),
        decreases old(self).kinds().len() - old(self).pos(), 28int,
    {
        reveal(p_expression);
        reveal(p_assignment);
        self.assignment()
    }

    #[verifier::rlimit(60)]
    fn assignment(&mut self) -> (r: Result<Expr, ParseError>)
        requires
            old(self).wf(),
            old(self).pos() > 0 || can_begin_expression(old(self).kinds()[old(self).pos()]),
        ensures
            old(self).keeps(final(self)),
            final(self).in_fn() == old(self).in_fn(),
            r is Ok ==> final(self).pos() > old(self).pos(),
            expr_outcome(
                r,
                p_assignment(old(self).kinds(), old(self).pos(), old(self).in_fn()),
                final(self).pos(),
                final(self).in_fn(),
            ),
        decreases old(self).kinds().len() - old(self).pos(), 27int,
    {
        reveal(p_assignment);
        reveal(p_or);
        let expr = self.or()?;
        let expr_token = self.current - 1;
        if self.match_token(TokenType::Arrow) {
            let arrow_token = self.current - 1;
            let value = self.assignment()?;
            match expr {
                Expr::Variable(variable) => {
                    let target = *variable;
                    Ok(
                        Expr::Assign(
                            Box::new(
                                Assignment {
                                    target,
                                    value,
                                    ident_token: target.token,
                                    arrow_token,
                                },
                            ),
                        ),
                    )
                },
                Expr::Access(access) => {
                    let target = *access;
                    Ok(Expr::SetItem(Box::new(SetItem { target, value, arrow_token })))
                },
                _ => Err(
                    ParseError {
                        kind: ParseErrorKind::InvalidAssignmentTarget,
                        found: arrow_token,
                        related: Some(expr_token),
                    },
                ),
            }
        } else {
            Ok(expr)
        }
    }

    fn or(&mut self) -> (r: Result<Expr, ParseError>)
        requires
            old(self).wf(),
            old(self).pos() > 0 || can_begin_expression(old(self).kinds()[old(self).pos()]),
        ensures
            old(self).keeps(final(self)),
            final(self).in_fn() == old(self).in_fn(),
            r is Ok ==> final(self).pos() > old(self).pos(),
            expr_outcome(
                r,
                p_or(old(self).kinds(), old(self).pos(), old(self).in_fn()),
                final(self).pos(),
                final(self).in_fn(),
            ),
        decreases old(self).kinds().len() - old(self).pos(), 26int,
    {
        reveal(p_or);
        reveal(p_and);
        reveal(p_or_rest);
        let ghost ts = self.kinds();
        let ghost f = self.in_fn();
        let mut expr = self.and()?;
        while self.match_token(TokenType::Or)
            invariant
                self.wf(),
                self.kinds() == ts,
                ts == old(self).kinds(),
                self.token_seq() == old(self).token_seq(),
                self.in_loop() == old(self).in_loop(),
                self.in_fn() == f,
                f == old(self).in_fn(),
                self.pos() > old(self).pos(),
                p_or_rest(ts, self.pos(), f, expr_view(expr)) == p_or(ts, old(self).pos(), f),
            decreases ts.len() - self.pos(),
        {
            let token = self.current - 1;
            reveal(p_or_rest);
            reveal(p_and);
            let right = self.and()?;
            expr = Expr::Logical(Box::new(Logical { left: expr, operator: LogicalOp::Or, right, token }));
        }
        Ok(expr)
    }

    fn and(&mut self) -> (r: Result<Expr, ParseError>)
        requires
            old(self).wf(),
            old(self).pos() > 0 || can_begin_expression(old(self).kinds()[old(self).pos()]),
        ensures
            old(self).keeps(final(self)),
            final(self).in_fn() == old(self).in_fn(),
            r is Ok ==> final(self).pos() > old(self).pos(),
            expr_outcome(
                r,
                p_and(old(self).kinds(), old(self).pos(), old(self).in_fn()),
                final(self).pos(),
                final(self).in_fn(),
            ),
        decreases old(self).kinds().len() - old(self).pos(), 25int,
    {
        reveal(p_and);
        reveal(p_and_rest);
        reveal(p_binary);
        let ghost ts = self.kinds();
        let ghost f = self.in_fn();
        let mut expr = self.equality()?;
        while self.match_token(TokenType::And)
            invariant
                self.wf(),
                self.kinds() == ts,
                ts == old(self).kinds(),
                self.token_seq() == old(self).token_seq(),
                self.in_loop() == old(self).in_loop(),
                self.in_fn() == f,
                f == old(self).in_fn(),
                self.pos() > old(self).pos(),
                p_and_rest(ts, self.pos(), f, expr_view(expr)) == p_and(ts, old(self).pos(), f),
            decreases ts.len() - self.pos(),
        {
            let token = self.current - 1;
            reveal(p_and_rest);
            reveal(p_and);
            let right = self.and()?;
            expr = Expr::Logical(
                Box::new(Logical { left: expr, operator: LogicalOp::And, right, token }),
            );
        }
        Ok(expr)
    }

    fn equality(&mut self) -> (r: Result<Expr, ParseError>)
        requires
            old(self).wf(),
            old(self).pos() > 0 || can_begin_expression(old(self).kinds()[old(self).pos()]),
        ensures
            old(self).keeps(final(self)),
            final(self).in_fn() == old(self).in_fn(),
            r is Ok ==> final(self).pos() > old(self).pos(),
            expr_outcome(
                r,
                p_binary(old(self).kinds(), old(self).pos(), old(self).in_fn(), 3),
                final(self).pos(),
                final(self).in_fn(),
            ),
        decreases old(self).kinds().len() - old(self).pos(), 24int,
    {
        self.binary(3)
    }

    fn comparison(&mut self) -> (r: Result<Expr, ParseError>)
        requires
            old(self).wf(),
            old(self).pos() > 0 || can_begin_expression(old(self).kinds()[old(self).pos()]),
        ensures
            old(self).keeps(final(self)),
            final(self).in_fn() == old(self).in_fn(),
            r is Ok ==> final(self).pos() > old(self).pos(),
            expr_outcome(
                r,
                p_binary(old(self).kinds(), old(self).pos(), old(self).in_fn(), 2),
                final(self).pos(),
                final(self).in_fn(),
            ),
        decreases old(self).kinds().len() - old(self).pos(), 21int,
    {
        self.binary(2)
    }

    fn addition(&mut self) -> (r: Result<Expr, ParseError>)
        requires
            old(self).wf(),
            old(self).pos() > 0 || can_begin_expression(old(self).kinds()[old(self).pos()]),
        ensures
            old(self).keeps(final(self)),
            final(self).in_fn() == old(self).in_fn(),
            r is Ok ==> final(self).pos() > old(self).pos(),
            expr_outcome(
                r,
                p_binary(old(self).kinds(), old(self).pos(), old(self).in_fn(), 1),
                final(self).pos(),
                final(self).in_fn(),
            ),
        decreases old(self).kinds().len() - old(self).pos(), 18int,
    {
        self.binary(1)
    }

    fn multiplication(&mut self) -> (r: Result<Expr, ParseError>)
        requires
            old(self).wf(),
            old(self).pos() > 0 || can_begin_expression(old(self).kinds()[old(self).pos()]),
        ensures
            old(self).keeps(final(self)),
            final(self).in_fn() == old(self).in_fn(),
            r is Ok ==> final(self).pos() > old(self).pos(),
            expr_outcome(
                r,
                p_binary(old(self).kinds(), old(self).pos(), old(self).in_fn(), 0),
                final(self).pos(),
                final(self).in_fn(),
            ),
        decreases old(self).kinds().len() - old(self).pos(), 15int,
    {
        self.binary(0)
    }

    /// An operand of level `lvl`.
    fn operand(&mut self, lvl: usize) -> (r: Result<Expr, ParseError>)
        requires
            old(self).wf(),
            lvl <= 3,
            old(self).pos() > 0 || can_begin_expression(old(self).kinds()[old(self).pos()]),
        ensures
            old(self).keeps(final(self)),
            final(self).in_fn() == old(self).in_fn(),
            r is Ok ==> final(self).pos() > old(self).pos(),
            expr_outcome(
                r,
                p_operand(old(self).kinds(), old(self).pos(), old(self).in_fn(), lvl as int),
                final(self).pos(),
                final(self).in_fn(),
            ),
        decreases old(self).kinds().len() - old(self).pos(), 13 + 3 * lvl,
    {
        reveal(p_operand);
        reveal(p_binary);
        reveal(p_unary);
        if lvl == 3 {
            self.comparison()
        } else if lvl == 2 {
            self.addition()
        } else if lvl == 1 {
            self.multiplication()
        } else {
            self.unary()
        }
    }

    /// A left-associative chain of operands joined by operators of `lvl`.
    #[verifier::rlimit(60)]
    fn binary(&mut self, lvl: usize) -> (r: Result<Expr, ParseError>)
        requires
            old(self).wf(),
            lvl <= 3,
            old(self).pos() > 0 || can_begin_expression(old(self).kinds()[old(self).pos()]),
        ensures
            old(self).keeps(final(self)),
            final(self).in_fn() == old(self).in_fn(),
            r is Ok ==> final(self).pos() > old(self).pos(),
            expr_outcome(
                r,
                p_binary(old(self).kinds(), old(self).pos(), old(self).in_fn(), lvl as int),
                final(self).pos(),
                final(self).in_fn(),
            ),
        decreases old(self).kinds().len() - old(self).pos(), 14 + 3 * lvl,
    {
        reveal(p_binary);
        reveal(p_binary_rest);
        reveal(p_operand);
        let ghost ts = self.kinds();
        let ghost f = self.in_fn();
        let mut expr = self.operand(lvl)?;
        while self.match_level_op(lvl)
            invariant
                self.wf(),
                lvl <= 3,
                self.kinds() == ts,
                ts == old(self).kinds(),
                self.token_seq() == old(self).token_seq(),
                self.in_loop() == old(self).in_loop(),
                self.in_fn() == f,
                f == old(self).in_fn(),
                self.pos() > old(self).pos(),
                p_binary_rest(ts, self.pos(), f, lvl as int, expr_view(expr)) == p_binary(
                    ts,
                    old(self).pos(),
                    f,
                    lvl as int,
                ),
            decreases ts.len() - self.pos(),
        {
            let token = self.current - 1;
            reveal(p_binary_rest);
            reveal(p_operand);
            let operator = level_operator(self.kind_at(token));
            let right = self.operand(lvl)?;
            expr = Expr::Binary(Box::new(Binary { left: expr, operator, right, token }));
        }
        Ok(expr)
    }

    /// Reads an operator of level `lvl` if the next token is one.
    fn match_level_op(&mut self, lvl: usize) -> (r: bool)
        requires
            old(self).wf(),
            lvl <= 3,
        ensures
            final(self).wf(),
            final(self).kinds() == old(self).kinds(),
            final(self).token_seq() == old(self).token_seq(),
            final(self).in_fn() == old(self).in_fn(),
            final(self).in_loop() == old(self).in_loop(),
            r == (in_range(old(self).kinds(), old(self).pos()) && old(self).kinds()[old(
                self,
            ).pos()] != TokenType::Eof && level_op(lvl as int, old(self).kinds()[old(self).pos()])),
            final(self).pos() == old(self).pos() + if r {
                1int
            } else {
                0int
            },
    {
        if lvl == 3 {
            self.match_token(TokenType::BangEqual) || self.match_token(TokenType::EqualEqual)
        } else if lvl == 2 {
            self.match_token(TokenType::Greater) || self.match_token(TokenType::GreaterEqual)
                || self.match_token(TokenType::Less) || self.match_token(TokenType::LessEqual)
        } else if lvl == 1 {
            self.match_token(TokenType::Plus) || self.match_token(TokenType::Minus)
        } else {
            self.match_token(TokenType::Star) || self.match_token(TokenType::Slash)
                || self.match_token(TokenType::Mod)
        }
    }

    #[verifier::rlimit(60)]
    fn unary(&mut self) -> (r: Result<Expr, ParseError>)
        requires
            old(self).wf(),
            old(self).pos() > 0 || can_begin_expression(old(self).kinds()[old(self).pos()]),
        ensures
            old(self).keeps(final(self)),
            final(self).in_fn() == old(self).in_fn(),
            r is Ok ==> final(self).pos() > old(self).pos(),
            expr_outcome(
                r,
                p_unary(old(self).kinds(), old(self).pos(), old(self).in_fn()),
                final(self).pos(),
                final(self).in_fn(),
            ),
        decreases old(self).kinds().len() - old(self).pos(), 12int,
    {
        reveal(p_unary);
        reveal(p_access);
        if self.match_token(TokenType::Not) || self.match_token(TokenType::Minus) {
            let token = self.current - 1;
            let operator = if self.kind_at(token) == TokenType::Not {
                UnaryOp::Not
            } else {
                UnaryOp::Minus
            };
            let right = self.unary()?;
            Ok(Expr::Unary(Box::new(Unary { operator, right, token })))
        } else {
            self.access()
        }
    }

    #[verifier::rlimit(60)]
    fn access(&mut self) -> (r: Result<Expr, ParseError>)
        requires
            old(self).wf(),
            old(self).pos() > 0 || can_begin_primary(old(self).kinds()[old(self).pos()]),
        ensures
            old(self).keeps(final(self)),
            final(self).in_fn() == old(self).in_fn(),
            r is Ok ==> final(self).pos() > old(self).pos(),
            expr_outcome(
                r,
                p_access(old(self).kinds(), old(self).pos(), old(self).in_fn()),
                final(self).pos(),
                final(self).in_fn(),
            ),
        decreases old(self).kinds().len() - old(self).pos(), 11int,
    {
        reveal(p_access);
        reveal(p_access_rest);
        reveal(p_primary);
        reveal(p_expression);
        let ghost ts = self.kinds();
        let ghost f = self.in_fn();
        let mut expr = self.primary()?;
        let expr_token = self.current - 1;
        while self.match_token(TokenType::LeftBracket)
            invariant
                self.wf(),
                self.kinds() == ts,
                ts == old(self).kinds(),
                self.token_seq() == old(self).token_seq(),
                self.in_loop() == old(self).in_loop(),
                self.in_fn() == f,
                f == old(self).in_fn(),
                self.pos() > old(self).pos(),
                p_access_rest(ts, self.pos(), f, expr_view(expr), expr_token as int) == p_access(
                    ts,
                    old(self).pos(),
                    f,
                ),
            decreases ts.len() - self.pos(),
        {
            reveal(p_access_rest);
            reveal(p_expression);
            let lb_token = self.current - 1;
            let index = self.expression()?;
            let rb_token = self.consume(
                TokenType::RightBracket,
                ParseErrorKind::MissingIndexBracket,
                None,
            )?;
            expr = Expr::Access(
                Box::new(
                    Access {
                        list: expr,
                        list_token: expr_token,
                        key: index,
                        brackets: (lb_token, rb_token),
                    },
                ),
            );
        }
        Ok(expr)
    }

    #[verifier::spinoff_prover]
    #[verifier::rlimit(100)]
    fn primary(&mut self) -> (r: Result<Expr, ParseError>)
        requires
            old(self).wf(),
            old(self).pos() > 0 || can_begin_primary(old(self).kinds()[old(self).pos()]),
        ensures
            old(self).keeps(final(self)),
            final(self).in_fn() == old(self).in_fn(),
            r is Ok ==> final(self).pos() > old(self).pos(),
            expr_outcome(
                r,
                p_primary(old(self).kinds(), old(self).pos(), old(self).in_fn()),
                final(self).pos(),
                final(self).in_fn(),
            ),
        decreases old(self).kinds().len() - old(self).pos(), 10int,
    {
        reveal(p_primary);
        if self.match_token(TokenType::True) {
            let token = self.current - 1;
            return Ok(Expr::Literal(Box::new(ExprLiteral { value: Literal::True, token })));
        }
        if self.match_token(TokenType::False) {
            let token = self.current - 1;
            return Ok(Expr::Literal(Box::new(ExprLiteral { value: Literal::False, token })));
        }
        if self.match_token(TokenType::Null) {
            let token = self.current - 1;
            return Ok(Expr::Literal(Box::new(ExprLiteral { value: Literal::Null, token })));
        }
        if self.match_token(TokenType::StringLiteral) {
            let token = self.current - 1;
            return Ok(Expr::Literal(Box::new(ExprLiteral { value: Literal::String, token })));
        }
        if self.match_token(TokenType::Number) {
            let token = self.current - 1;
            return Ok(Expr::Literal(Box::new(ExprLiteral { value: Literal::Number, token })));
        }
        if self.match_token(TokenType::Identifier) {
            let token = self.current - 1;
            if self.match_token(TokenType::LeftParen) {
                let lp_token = self.current - 1;
                reveal(p_args);
                let (arguments, arg_ends) = if !self.check(TokenType::RightParen) {
                    self.arguments()?
                } else {
                    let a: Vec<Expr> = Vec::new();
                    let e: Vec<usize> = Vec::new();
                    proof {
                        assert(exprs_view(a@) =~= Seq::<ExprV>::empty());
                        assert(e@ =~= Seq::<usize>::empty());
                    }
                    (a, e)
                };
                let rp_token = self.consume(
                    TokenType::RightParen,
                    ParseErrorKind::MissingRightParen,
                    None,
                )?;
                let call = ProcCall { arguments, arg_ends, token, parens: (lp_token, rp_token) };
                proof {
                    lemma_call_view(call);
                }
                return Ok(Expr::ProcCall(Box::new(call)));
            }
            return Ok(Expr::Variable(Box::new(Variable { token })));
        }
        if self.match_token(TokenType::LeftParen) {
            reveal(p_expression);
            let lp_token = self.current - 1;
            let expr = self.expression()?;
            let rp_token = self.consume(
                TokenType::RightParen,
                ParseErrorKind::UnclosedGrouping,
                None,
            )?;
            return Ok(Expr::Grouping(Box::new(Grouping { expr, parens: (lp_token, rp_token) })));
        }
        if self.match_token(TokenType::LeftBracket) {
            let lb_token = self.current - 1;
            reveal(p_items);
            let items = if !self.check(TokenType::RightBracket) {
                self.list_items()?
            } else {
                let v: Vec<Expr> = Vec::new();
                proof {
                    assert(exprs_view(v@) =~= Seq::<ExprV>::empty());
                }
                v
            };
            let rb_token = self.consume(
                TokenType::RightBracket,
                ParseErrorKind::MissingRightBracket,
                None,
            )?;
            let list = List { items, brackets: (lb_token, rb_token) };
            proof {
                lemma_list_view(list);
            }
            return Ok(Expr::List(Box::new(list)));
        }
        Err(ParseError { kind: ParseErrorKind::ExpectedPrimary, found: self.current, related: None })
    }

    /// The comma-separated arguments of a call, with the position just after
    /// each argument.
    fn arguments(&mut self) -> (r: Result<(Vec<Expr>, Vec<usize>), ParseError>)
        requires
            old(self).wf(),
            old(self).pos() > 0,
        ensures
            old(self).keeps(final(self)),
            final(self).in_fn() == old(self).in_fn(),
            match p_args(old(self).kinds(), old(self).pos(), old(self).in_fn(), seq![], seq![]) {
                Ok(((a, e), j)) => r is Ok && exprs_view(r->Ok_0.0@) == a && r->Ok_0.1@ == e
                    && final(self).pos() == j,
                Err((e, p, f2)) => r == Err::<(Vec<Expr>, Vec<usize>), ParseError>(e)
                    && final(self).pos() == p && final(self).in_fn() == f2,
            },
        decreases old(self).kinds().len() - old(self).pos(), 36int,
    {
        reveal(p_args);
        reveal(p_expression);
        let ghost ts = self.kinds();
        let ghost f = self.in_fn();
        let ghost goal = p_args(ts, self.pos(), f, seq![], seq![]);
        let mut arguments: Vec<Expr> = Vec::new();
        let mut arg_ends: Vec<usize> = Vec::new();
        proof {
            assert(exprs_view(arguments@) =~= Seq::<ExprV>::empty());
            assert(arg_ends@ =~= Seq::<usize>::empty());
        }
        loop
            invariant_except_break
                self.wf(),
                self.kinds() == ts,
                ts == old(self).kinds(),
                self.token_seq() == old(self).token_seq(),
                self.in_loop() == old(self).in_loop(),
                self.in_fn() == f,
                f == old(self).in_fn(),
                self.pos() >= old(self).pos(),
                old(self).pos() > 0,
                goal == p_args(ts, old(self).pos(), f, seq![], seq![]),
                p_args(ts, self.pos(), f, exprs_view(arguments@), arg_ends@) == goal,
                arguments@.len() == arg_ends@.len(),
            ensures
                self.wf(),
                self.kinds() == ts,
                self.token_seq() == old(self).token_seq(),
                self.in_loop() == old(self).in_loop(),
                self.in_fn() == f,
                self.pos() >= old(self).pos(),
                goal == Ok::<((Seq<ExprV>, Seq<usize>), int), (ParseError, int, bool)>(
                    ((exprs_view(arguments@), arg_ends@), self.pos()),
                ),
            decreases ts.len() - self.pos(),
        {
            reveal(p_args);
            reveal(p_expression);
            if arguments.len() >= MAX_ARGS {
                return Err(
                    ParseError {
                        kind: ParseErrorKind::TooManyArguments,
                        found: self.current,
                        related: None,
                    },
                );
            }
            let ghost before = exprs_view(arguments@);
            let expr = self.expression()?;
            arguments.push(expr);
            arg_ends.push(self.current);
            proof {
                assert(exprs_view(arguments@) =~= before.push(expr_view(expr)));
            }
            if !self.match_token(TokenType::Comma) {
                break ;
            }
        }
        Ok((arguments, arg_ends))
    }

    /// The comma-separated items of a list literal.
    fn list_items(&mut self) -> (r: Result<Vec<Expr>, ParseError>)
        requires
            old(self).wf(),
            old(self).pos() > 0,
        ensures
            old(self).keeps(final(self)),
            final(self).in_fn() == old(self).in_fn(),
            match p_items(old(self).kinds(), old(self).pos(), old(self).in_fn(), seq![]) {
                Ok((a, j)) => r is Ok && exprs_view(r->Ok_0@) == a && final(self).pos() == j,
                Err((e, p, f2)) => r == Err::<Vec<Expr>, ParseError>(e) && final(self).pos() == p
                    && final(self).in_fn() == f2,
            },
        decreases old(self).kinds().len() - old(self).pos(), 36int,
    {
        reveal(p_items);
        reveal(p_expression);
        let ghost ts = self.kinds();
        let ghost f = self.in_fn();
        let ghost goal = p_items(ts, self.pos(), f, seq![]);
        let mut items: Vec<Expr> = Vec::new();
        proof {
            assert(exprs_view(items@) =~= Seq::<ExprV>::empty());
        }
        loop
            invariant_except_break
                self.wf(),
                self.kinds() == ts,
                ts == old(self).kinds(),
                self.token_seq() == old(self).token_seq(),
                self.in_loop() == old(self).in_loop(),
                self.in_fn() == f,
                f == old(self).in_fn(),
                self.pos() >= old(self).pos(),
                old(self).pos() > 0,
                goal == p_items(ts, old(self).pos(), f, seq![]),
                p_items(ts, self.pos(), f, exprs_view(items@)) == goal,
            ensures
                self.wf(),
                self.kinds() == ts,
                self.token_seq() == old(self).token_seq(),
                self.in_loop() == old(self).in_loop(),
                self.in_fn() == f,
                self.pos() >= old(self).pos(),
                goal == Ok::<(Seq<ExprV>, int), (ParseError, int, bool)>(
                    (exprs_view(items@), self.pos()),
                ),
            decreases ts.len() - self.pos(),
        {
            reveal(p_items);
            reveal(p_expression);
            let ghost before = exprs_view(items@);
            let expr = self.expression()?;
            items.push(expr);
            proof {
                assert(exprs_view(items@) =~= before.push(expr_view(expr)));
            }
            if !self.match_token(TokenType::Comma) {
                break ;
            }
        }
        Ok(items)
    }


    // -----------------------------------------------------------------------
    // Helpers
    // -----------------------------------------------------------------------
    /// Skips tokens after an error: past the current token, then up to the
    /// next statement keyword or the end.
    fn synchronize(&mut self)
        requires
            old(self).wf(),
        ensures
            final(self).wf(),
            final(self).kinds() == old(self).kinds(),
            final(self).token_seq() == old(self).token_seq(),
            final(self).in_fn() == old(self).in_fn(),
            final(self).in_loop() == old(self).in_loop(),
            final(self).pos() == p_synchronize(old(self).kinds(), old(self).pos()),
    {
        reveal(p_synchronize);
        reveal(p_sync_from);
        let ghost ts = self.kinds();
        self.advance();
        let ghost start = self.pos();
        while !self.is_at_end() && !is_sync_point_exec(self.kind_at(self.current))
            invariant
                self.wf(),
                self.kinds() == ts,
                ts == old(self).kinds(),
                self.token_seq() == old(self).token_seq(),
                self.in_fn() == old(self).in_fn(),
                self.in_loop() == old(self).in_loop(),
                start == (if at_end(ts, old(self).pos()) {
                    old(self).pos()
                } else {
                    old(self).pos() + 1
                }),
                p_sync_from(ts, self.pos()) == p_sync_from(ts, start),
            decreases ts.len() - self.pos(),
        {
            reveal(p_sync_from);
            self.advance();
        }
    }

    /// Reads the next token if it has kind `token_type`; otherwise reports
    /// an error of kind `kind` at the next token.
    fn consume(&mut self, token_type: TokenType, kind: ParseErrorKind, related: Option<usize>) -> (r:
        Result<usize, ParseError>)
        requires
            old(self).wf(),
        ensures
            final(self).wf(),
            final(self).kinds() == old(self).kinds(),
            final(self).token_seq() == old(self).token_seq(),
            final(self).in_fn() == old(self).in_fn(),
            final(self).in_loop() == old(self).in_loop(),
            if check(old(self).kinds(), old(self).pos(), token_type) {
                r == Ok::<usize, ParseError>(old(self).pos() as usize) && final(self).pos() == old(
                    self,
                ).pos() + 1
            } else {
                r == Err::<usize, ParseError>(
                    ParseError { kind, found: old(self).pos() as usize, related },
                ) && final(self).pos() == old(self).pos()
            },
    {
        if self.check(token_type) {
            let t = self.current;
            self.advance();
            Ok(t)
        } else {
            Err(ParseError { kind, found: self.current, related })
        }
    }

    /// Whether the token before the current one has kind `typ`.
    fn confirm(&self, typ: TokenType) -> (r: Result<(), ParseError>)
        requires
            self.wf(),
            self.pos() > 0,
        ensures
            r == (if self.kinds()[self.pos() - 1] == typ {
                Ok(())
            } else {
                Err(
                    ParseError {
                        kind: ParseErrorKind::ExpectedPrimary,
                        found: (self.pos() - 1) as usize,
                        related: None,
                    },
                )
            }),
    {
        let previous = self.kind_at(self.current - 1);
        if previous != typ {
            return Err(
                ParseError {
                    kind: ParseErrorKind::ExpectedPrimary,
                    found: self.current - 1,
                    related: None,
                },
            );
        }
        Ok(())
    }

    /// Whether the next token has kind `typ` (never at the end).
    fn check(&self, typ: TokenType) -> (r: bool)
        requires
            self.wf(),
        ensures
            r == check(self.kinds(), self.pos(), typ),
    {
        if self.is_at_end() {
            return false;
        }
        self.kind_at(self.current) == typ
    }

    /// Reads the next token if it has kind `token_type`.
    fn match_token(&mut self, token_type: TokenType) -> (r: bool)
        requires
            old(self).wf(),
        ensures
            final(self).wf(),
            final(self).kinds() == old(self).kinds(),
            final(self).token_seq() == old(self).token_seq(),
            final(self).in_fn() == old(self).in_fn(),
            final(self).in_loop() == old(self).in_loop(),
            r == check(old(self).kinds(), old(self).pos(), token_type),
            final(self).pos() == old(self).pos() + if r {
                1int
            } else {
                0int
            },
    {
        if self.check(token_type) {
            self.advance();
            return true;
        }
        false
    }

    /// Moves past the next token unless it is the end.
    fn advance(&mut self)
        requires
            old(self).wf(),
        ensures
            final(self).wf(),
            final(self).kinds() == old(self).kinds(),
            final(self).token_seq() == old(self).token_seq(),
            final(self).in_fn() == old(self).in_fn(),
            final(self).in_loop() == old(self).in_loop(),
            final(self).pos() == if at_end(old(self).kinds(), old(self).pos()) {
                old(self).pos()
            } else {
                old(self).pos() + 1
            },
    {
        if !self.is_at_end() {
            proof {
                assert(self.kinds().len() == self.tokens@.len());
            }
            assert(self.current + 1 < self.tokens.len());
            self.current = self.current + 1;
        }
    }

    /// The kind of the token at `i`.
    fn kind_at(&self, i: usize) -> (t: TokenType)
        requires
            self.wf(),
            i < self.kinds().len(),
        ensures
            t == self.kinds()[i as int],
    {
        self.tokens[i].token_type
    }

    /// Whether the next token is the end-of-file token.
    fn is_at_end(&self) -> (r: bool)
        requires
            self.wf(),
        ensures
            r == at_end(self.kinds(), self.pos()),
    {
        self.kind_at(self.current) == TokenType::Eof
    }
}

/// Whether a program may begin with a token of kind `t`: the parser needs
/// this of the first token.
pub fn begins_program(t: TokenType) -> (r: bool)
    ensures
        r == can_begin_program(t),
{
    match t {
        TokenType::SoftSemi | TokenType::Eof | TokenType::Export | TokenType::Procedure
        | TokenType::Import | TokenType::If | TokenType::Repeat | TokenType::For
        | TokenType::LeftBrace | TokenType::Continue | TokenType::Break | TokenType::Return
        | TokenType::Not | TokenType::Minus | TokenType::True | TokenType::False
        | TokenType::Null | TokenType::StringLiteral | TokenType::Number
        | TokenType::Identifier | TokenType::LeftParen | TokenType::LeftBracket => true,
        _ => false,
    }
}

fn is_sync_point_exec(t: TokenType) -> (r: bool)
    ensures
        r == is_sync_point(t),
{
    match t {
        TokenType::Procedure | TokenType::Repeat | TokenType::For | TokenType::If
        | TokenType::Return | TokenType::Continue | TokenType::Break | TokenType::Import
        | TokenType::Export => true,
        _ => false,
    }
}

/// The binary operator of an operator token of some level.
fn level_operator(t: TokenType) -> (op: BinaryOp)
    requires
        spec_binary_op(t) is Some,
    ensures
        op == binary_of(t),
{
    match binary_op_of(t) {
        Some(op) => op,
        None => BinaryOp::Plus,
    }
}

} // verus!
