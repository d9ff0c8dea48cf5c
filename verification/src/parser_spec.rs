//! The grammar of the language, as functions on token kinds.
//!
//! Each function reads from position `i` of the token kinds `ts` and gives
//! either the tree read and the position after it, or the error found, the
//! position where reading stopped and whether the parser was left inside a
//! procedure body. The executable parser is proved to compute these
//! functions.
use crate::ast::{ExprV, Literal, StmtV};
use crate::token::{spec_binary_op, BinaryOp, LogicalOp, TokenType, UnaryOp};
use vstd::prelude::*;

verus! {

/// The syntax errors the parser reports.
#[derive(Clone, Copy, Debug, PartialEq, Eq, Structural)]
pub enum ParseErrorKind {
    StandaloneExport,
    UnnamedProcedure,
    MissingParameterList,
    TooManyParameters,
    ExpectedParameter,
    MissingRightParen,
    UnclosedBlock,
    BreakOutsideLoop,
    ContinueOutsideLoop,
    ReturnOutsideProcedure,
    MissingSemicolonAfterReturn,
    TooManySpecificImports,
    ExpectedFunctionName,
    MissingImportBracket,
    ExpectedFrom,
    ExpectedMod,
    ExpectedModuleName,
    MissingSemicolonAfterImport,
    MissingConditionParen,
    MissingTimes,
    MissingEach,
    MissingForEachItem,
    MissingIn,
    MissingEndOfLine,
    InvalidAssignmentTarget,
    MissingIndexBracket,
    TooManyArguments,
    UnclosedGrouping,
    MissingRightBracket,
    ExpectedPrimary,
}

/// A syntax error: its kind, the position of the token where it was found
/// and, for some kinds, the position of a token it refers back to.
#[derive(Clone, Copy, Debug, PartialEq, Eq, Structural)]
pub struct ParseError {
    pub kind: ParseErrorKind,
    pub found: usize,
    pub related: Option<usize>,
}

/// The outcome of reading a construct: the tree and the next position, or
/// the error, the position reached and whether a procedure body was open.
pub type PR<T> = Result<(T, int), (ParseError, int, bool)>;

/// The greatest number of parameters a procedure may declare, less one.
pub const MAX_PARAMS: usize = 255;

/// The greatest number of arguments in a call.
pub const MAX_ARGS: usize = 255;

/// The greatest number of functions named in one import.
pub const MAX_SPECIFIC_FUNCTIONS: usize = 63;

pub open spec fn in_range(ts: Seq<TokenType>, i: int) -> bool {
    0 <= i < ts.len()
}

/// Whether position `i` holds the end-of-file token.
pub open spec fn at_end(ts: Seq<TokenType>, i: int) -> bool {
    in_range(ts, i) && ts[i] == TokenType::Eof
}

/// Whether position `i` holds a token of kind `t` (never true at the end).
pub open spec fn check(ts: Seq<TokenType>, i: int, t: TokenType) -> bool {
    in_range(ts, i) && ts[i] != TokenType::Eof && ts[i] == t
}

pub open spec fn perr<T>(
    kind: ParseErrorKind,
    found: int,
    related: Option<usize>,
    pos: int,
    f: bool,
) -> PR<T> {
    Err((ParseError { kind, found: found as usize, related }, pos, f))
}

/// Tokens that may begin a primary expression.
pub open spec fn can_begin_primary(t: TokenType) -> bool {
    match t {
        TokenType::True | TokenType::False | TokenType::Null | TokenType::StringLiteral
        | TokenType::Number | TokenType::Identifier | TokenType::LeftParen
        | TokenType::LeftBracket => true,
        _ => false,
    }
}

/// Tokens that may begin an expression.
pub open spec fn can_begin_expression(t: TokenType) -> bool {
    t == TokenType::Not || t == TokenType::Minus || can_begin_primary(t)
}

/// Tokens that may begin a statement.
pub open spec fn can_begin_statement(t: TokenType) -> bool {
    match t {
        TokenType::Import | TokenType::If | TokenType::Repeat | TokenType::For
        | TokenType::LeftBrace | TokenType::Continue | TokenType::Break
        | TokenType::Return => true,
        _ => can_begin_expression(t),
    }
}

/// Tokens that may begin a declaration.
pub open spec fn can_begin_declaration(t: TokenType) -> bool {
    t == TokenType::Export || t == TokenType::Procedure || can_begin_statement(t)
}

/// Tokens that may begin a program.
pub open spec fn can_begin_program(t: TokenType) -> bool {
    t == TokenType::SoftSemi || t == TokenType::Eof || can_begin_declaration(t)
}

/// Statement keywords where error recovery resumes.
pub open spec fn is_sync_point(t: TokenType) -> bool {
    match t {
        TokenType::Procedure | TokenType::Repeat | TokenType::For | TokenType::If
        | TokenType::Return | TokenType::Continue | TokenType::Break | TokenType::Import
        | TokenType::Export => true,
        _ => false,
    }
}

/// The operators of each binary precedence level, from 0 (multiplicative)
/// to 3 (equality).
pub open spec fn level_op(lvl: int, t: TokenType) -> bool {
    if lvl == 3 {
        t == TokenType::BangEqual || t == TokenType::EqualEqual
    } else if lvl == 2 {
        t == TokenType::Greater || t == TokenType::GreaterEqual || t == TokenType::Less || t
            == TokenType::LessEqual
    } else if lvl == 1 {
        t == TokenType::Plus || t == TokenType::Minus
    } else {
        t == TokenType::Star || t == TokenType::Slash || t == TokenType::Mod
    }
}

pub open spec fn unary_of(t: TokenType) -> UnaryOp {
    if t == TokenType::Not {
        UnaryOp::Not
    } else {
        UnaryOp::Minus
    }
}

pub open spec fn binary_of(t: TokenType) -> BinaryOp {
    spec_binary_op(t)->0
}

// ---------------------------------------------------------------------------
// Declarations and statements
// ---------------------------------------------------------------------------
/// declaration → procedure | statement
#[verifier::opaque]
pub open spec fn p_declaration(ts: Seq<TokenType>, i: int, f: bool, l: bool) -> PR<StmtV>
    decreases ts.len() - i, 27int,
{
    if check(ts, i, TokenType::Export) || check(ts, i, TokenType::Procedure) {
        p_procedure(ts, i + 1, f, l)
    } else {
        p_statement(ts, i, f, l)
    }
}

/// The parameter names of a procedure, from position `j`.
#[verifier::opaque]
pub open spec fn p_params(ts: Seq<TokenType>, j: int, acc: Seq<usize>, f: bool) -> PR<
    Seq<usize>,
>
    decreases ts.len() - j,
{
    if acc.len() > MAX_PARAMS {
        perr(ParseErrorKind::TooManyParameters, j, None, j, f)
    } else if check(ts, j, TokenType::Identifier) {
        if check(ts, j + 1, TokenType::Comma) {
            p_params(ts, j + 2, acc.push(j as usize), f)
        } else {
            Ok((acc.push(j as usize), j + 1))
        }
    } else {
        perr(ParseErrorKind::ExpectedParameter, j, None, j, f)
    }
}

/// `[EXPORT] PROCEDURE name ( params ) body`, after the first keyword.
#[verifier::opaque]
pub open spec fn p_procedure(ts: Seq<TokenType>, i: int, f: bool, l: bool) -> PR<StmtV>
    decreases ts.len() - i, 30int,
{
    let exported = in_range(ts, i - 1) && ts[i - 1] == TokenType::Export;
    if exported && !check(ts, i, TokenType::Procedure) {
        perr(ParseErrorKind::StandaloneExport, i, None, i, f)
    } else {
        let proc_tok = if exported {
            i
        } else {
            i - 1
        };
        let n = if exported {
            i + 1
        } else {
            i
        };
        if !check(ts, n, TokenType::Identifier) {
            perr(ParseErrorKind::UnnamedProcedure, n, Some(proc_tok as usize), n, f)
        } else if !check(ts, n + 1, TokenType::LeftParen) {
            perr(ParseErrorKind::MissingParameterList, n + 1, Some(n as usize), n + 1, f)
        } else {
            let params = if !check(ts, n + 2, TokenType::RightParen) {
                p_params(ts, n + 2, seq![], f)
            } else {
                Ok((seq![], n + 2))
            };
            match params {
                Err(x) => Err(x),
                Ok((ps, k)) => if !check(ts, k, TokenType::RightParen) {
                    perr(ParseErrorKind::MissingRightParen, k, None, k, f)
                } else if k < i {
                    arbitrary()
                } else {
                    match p_statement(ts, k + 1, true, l) {
                        Err(x) => Err(x),
                        Ok((body, m)) => Ok(
                            (
                                StmtV::Proc {
                                    params: ps,
                                    body: Box::new(body),
                                    exported,
                                    proc_token: proc_tok as usize,
                                    name_token: n as usize,
                                },
                                m,
                            ),
                        ),
                    }
                },
            }
        }
    }
}

/// statement → import | if | repeat | for each | block | continue | break
/// | return | expression statement
#[verifier::opaque]
pub open spec fn p_statement(ts: Seq<TokenType>, i: int, f: bool, l: bool) -> PR<StmtV>
    decreases ts.len() - i, 26int,
{
    if check(ts, i, TokenType::Import) {
        p_import(ts, i + 1, f)
    } else if check(ts, i, TokenType::If) {
        p_if(ts, i + 1, f, l)
    } else if check(ts, i, TokenType::Repeat) {
        if check(ts, i + 1, TokenType::Until) {
            p_repeat_until(ts, i + 1, f)
        } else {
            p_repeat_times(ts, i + 1, f)
        }
    } else if check(ts, i, TokenType::For) {
        p_for_each(ts, i + 1, f)
    } else if check(ts, i, TokenType::LeftBrace) {
        p_block(ts, i + 1, f, l)
    } else if check(ts, i, TokenType::Continue) {
        if !l {
            perr(ParseErrorKind::ContinueOutsideLoop, i, None, i + 1, f)
        } else {
            Ok((StmtV::Continue { token: i as usize }, i + 1))
        }
    } else if check(ts, i, TokenType::Break) {
        if !l {
            perr(ParseErrorKind::BreakOutsideLoop, i, None, i + 1, f)
        } else {
            Ok((StmtV::Break { token: i as usize }, i + 1))
        }
    } else if check(ts, i, TokenType::Return) {
        p_return(ts, i + 1, f)
    } else {
        p_expression_statement(ts, i, f)
    }
}

/// `RETURN [value ;]`, after the keyword.
#[verifier::opaque]
pub open spec fn p_return(ts: Seq<TokenType>, i: int, f: bool) -> PR<StmtV>
    decreases ts.len() - i, 30int,
{
    if !f {
        perr(ParseErrorKind::ReturnOutsideProcedure, i - 1, None, i, f)
    } else if check(ts, i, TokenType::SoftSemi) {
        Ok((StmtV::Return { token: (i - 1) as usize, data: None }, i + 1))
    } else {
        match p_expression(ts, i, f) {
            Err(x) => Err(x),
            Ok((e, j)) => if !check(ts, j, TokenType::SoftSemi) {
                perr(ParseErrorKind::MissingSemicolonAfterReturn, j, None, j, f)
            } else {
                Ok((StmtV::Return { token: (i - 1) as usize, data: Some(e) }, j + 1))
            },
        }
    }
}

/// The function names of `IMPORT [ "f", ... ]`, from position `j`.
#[verifier::opaque]
pub open spec fn p_specifics(ts: Seq<TokenType>, j: int, acc: Seq<usize>, lb: int, f: bool) -> PR<
    Seq<usize>,
>
    decreases ts.len() - j,
{
    if acc.len() >= MAX_SPECIFIC_FUNCTIONS {
        perr(
            ParseErrorKind::TooManySpecificImports,
            acc.last() as int,
            Some(lb as usize),
            j,
            f,
        )
    } else if !check(ts, j, TokenType::StringLiteral) {
        perr(ParseErrorKind::ExpectedFunctionName, j, None, j, f)
    } else if check(ts, j + 1, TokenType::Comma) {
        p_specifics(ts, j + 2, acc.push(j as usize), lb, f)
    } else {
        Ok((acc.push(j as usize), j + 1))
    }
}

/// The functions named by an import, if any, after the keyword.
#[verifier::opaque]
pub open spec fn p_import_functions(ts: Seq<TokenType>, i: int, f: bool) -> PR<
    Option<Seq<usize>>,
> {
    if check(ts, i, TokenType::LeftBracket) {
        match p_specifics(ts, i + 1, seq![], i, f) {
            Err(x) => Err(x),
            Ok((fs, k)) => if !check(ts, k, TokenType::RightBracket) {
                perr(ParseErrorKind::MissingImportBracket, k, None, k, f)
            } else {
                Ok((Some(fs), k + 1))
            },
        }
    } else if check(ts, i, TokenType::StringLiteral) {
        Ok((Some(seq![i as usize]), i + 1))
    } else {
        Ok((None, i))
    }
}

/// `IMPORT [functions FROM] MOD "name" ;`, after the keyword.
#[verifier::opaque]
pub open spec fn p_import(ts: Seq<TokenType>, i: int, f: bool) -> PR<StmtV> {
    match p_import_functions(ts, i, f) {
        Err(x) => Err(x),
        Ok((only, p)) => if only is Some && !check(ts, p, TokenType::From) {
            perr(ParseErrorKind::ExpectedFrom, p, None, p, f)
        } else {
            let from: Option<usize> = if only is Some {
                Some(p as usize)
            } else {
                None
            };
            let q = if only is Some {
                p + 1
            } else {
                p
            };
            if !check(ts, q, TokenType::Mod) {
                perr(ParseErrorKind::ExpectedMod, q, None, q, f)
            } else if !check(ts, q + 1, TokenType::StringLiteral) {
                perr(ParseErrorKind::ExpectedModuleName, q + 1, None, q + 1, f)
            } else if !check(ts, q + 2, TokenType::SoftSemi) {
                perr(ParseErrorKind::MissingSemicolonAfterImport, q + 2, None, q + 2, f)
            } else {
                Ok(
                    (
                        StmtV::Import {
                            import_token: (i - 1) as usize,
                            mod_token: q as usize,
                            from_token: from,
                            only,
                            module_name: (q + 1) as usize,
                        },
                        q + 3,
                    ),
                )
            }
        },
    }
}

/// `IF ( condition ) then [ELSE else]`, after the keyword.
#[verifier::opaque]
pub open spec fn p_if(ts: Seq<TokenType>, i: int, f: bool, l: bool) -> PR<StmtV>
    decreases ts.len() - i, 30int,
{
    if !check(ts, i, TokenType::LeftParen) {
        perr(ParseErrorKind::MissingConditionParen, i, Some((i - 1) as usize), i, f)
    } else {
        match p_expression(ts, i + 1, f) {
            Err(x) => Err(x),
            Ok((c, j)) => if !check(ts, j, TokenType::RightParen) {
                perr(ParseErrorKind::MissingRightParen, j, None, j, f)
            } else if j < i {
                arbitrary()
            } else {
                match p_statement(ts, j + 1, f, l) {
                    Err(x) => Err(x),
                    Ok((t, k)) => if check(ts, k, TokenType::Else) {
                        if k < i {
                            arbitrary()
                        } else {
                            match p_statement(ts, k + 1, f, l) {
                                Err(x) => Err(x),
                                Ok((e, m)) => Ok(
                                    (
                                        StmtV::If {
                                            cond: c,
                                            then_branch: Box::new(t),
                                            else_branch: Some(Box::new(e)),
                                            if_token: (i - 1) as usize,
                                            else_token: Some(k as usize),
                                        },
                                        m,
                                    ),
                                ),
                            }
                        }
                    } else {
                        Ok(
                            (
                                StmtV::If {
                                    cond: c,
                                    then_branch: Box::new(t),
                                    else_branch: None,
                                    if_token: (i - 1) as usize,
                                    else_token: None,
                                },
                                k,
                            ),
                        )
                    },
                }
            },
        }
    }
}

/// `REPEAT count TIMES body`, after `REPEAT`; read inside a loop.
#[verifier::opaque]
pub open spec fn p_repeat_times(ts: Seq<TokenType>, i: int, f: bool) -> PR<StmtV>
    decreases ts.len() - i, 30int,
{
    match p_expression(ts, i, f) {
        Err(x) => Err(x),
        Ok((c, j)) => if !check(ts, j, TokenType::Times) {
            perr(ParseErrorKind::MissingTimes, j, None, j, f)
        } else if j < i {
            arbitrary()
        } else {
            match p_statement(ts, j + 1, f, true) {
                Err(x) => Err(x),
                Ok((b, k)) => Ok(
                    (
                        StmtV::RepeatTimes {
                            count: c,
                            body: Box::new(b),
                            repeat_token: (i - 1) as usize,
                            times_token: j as usize,
                            count_token: (j - 1) as usize,
                        },
                        k,
                    ),
                ),
            }
        },
    }
}

/// `REPEAT UNTIL ( condition ) body`, at `UNTIL`; read inside a loop.
#[verifier::opaque]
pub open spec fn p_repeat_until(ts: Seq<TokenType>, i: int, f: bool) -> PR<StmtV>
    decreases ts.len() - i, 30int,
{
    if !check(ts, i + 1, TokenType::LeftParen) {
        perr(ParseErrorKind::MissingConditionParen, i + 1, Some(i as usize), i + 1, f)
    } else {
        match p_expression(ts, i + 2, f) {
            Err(x) => Err(x),
            Ok((c, j)) => if !check(ts, j, TokenType::RightParen) {
                perr(ParseErrorKind::MissingRightParen, j, None, j, f)
            } else if j < i {
                arbitrary()
            } else {
                match p_statement(ts, j + 1, f, true) {
                    Err(x) => Err(x),
                    Ok((b, k)) => Ok(
                        (
                            StmtV::RepeatUntil {
                                cond: c,
                                body: Box::new(b),
                                repeat_token: (i - 1) as usize,
                                until_token: i as usize,
                            },
                            k,
                        ),
                    ),
                }
            },
        }
    }
}

/// `FOR EACH item IN list body`, after `FOR`; read inside a loop.
#[verifier::opaque]
pub open spec fn p_for_each(ts: Seq<TokenType>, i: int, f: bool) -> PR<StmtV>
    decreases ts.len() - i, 30int,
{
    if !check(ts, i, TokenType::Each) {
        perr(ParseErrorKind::MissingEach, i, None, i, f)
    } else if !check(ts, i + 1, TokenType::Identifier) {
        perr(ParseErrorKind::MissingForEachItem, i + 1, Some(i as usize), i + 1, f)
    } else if !check(ts, i + 2, TokenType::In) {
        perr(ParseErrorKind::MissingIn, i + 2, Some((i + 1) as usize), i + 2, f)
    } else {
        match p_expression(ts, i + 3, f) {
            Err(x) => Err(x),
            Ok((lst, j)) => if j <= i || j > ts.len() {
                arbitrary()
            } else {
                match p_statement(ts, j, f, true) {
                    Err(x) => Err(x),
                    Ok((b, k)) => Ok(
                        (
                            StmtV::ForEach {
                                item: (i + 1) as usize,
                                item_token: (i + 1) as usize,
                                list: lst,
                                body: Box::new(b),
                                for_token: (i - 1) as usize,
                                each_token: i as usize,
                                in_token: (i + 2) as usize,
                                list_token: (j - 1) as usize,
                            },
                            k,
                        ),
                    ),
                }
            },
        }
    }
}

/// `{ statements }`, after the `{`.
#[verifier::opaque]
pub open spec fn p_block(ts: Seq<TokenType>, i: int, f: bool, l: bool) -> PR<StmtV>
    decreases ts.len() - i, 37int,
{
    p_block_items(ts, i, seq![], i - 1, f, l)
}

/// The statements of a block from position `j`, having read `acc`.
#[verifier::opaque]
pub open spec fn p_block_items(
    ts: Seq<TokenType>,
    j: int,
    acc: Seq<StmtV>,
    lb: int,
    f: bool,
    l: bool,
) -> PR<StmtV>
    decreases ts.len() - j, 36int,
{
    if check(ts, j, TokenType::LeftBrace) || at_end(ts, j) || check(ts, j, TokenType::RightBrace) {
        if !check(ts, j, TokenType::RightBrace) {
            perr(ParseErrorKind::UnclosedBlock, j, Some(lb as usize), j, f)
        } else {
            Ok((StmtV::Block { lb: lb as usize, stmts: acc, rb: j as usize }, j + 1))
        }
    } else if check(ts, j, TokenType::SoftSemi) {
        p_block_items(ts, j + 1, acc, lb, f, l)
    } else {
        match p_declaration(ts, j, f, l) {
            Err(x) => Err(x),
            Ok((st, k)) => if j < k <= ts.len() {
                p_block_items(ts, k, acc.push(st), lb, f, l)
            } else {
                arbitrary()
            },
        }
    }
}

/// An expression used as a statement, ended by `;`, `}` or the end.
#[verifier::opaque]
pub open spec fn p_expression_statement(ts: Seq<TokenType>, i: int, f: bool) -> PR<StmtV>
    decreases ts.len() - i, 25int,
{
    match p_expression(ts, i, f) {
        Err(x) => Err(x),
        Ok((e, j)) => if at_end(ts, j) || check(ts, j, TokenType::RightBrace) {
            Ok((StmtV::Expr(e), j))
        } else if !check(ts, j, TokenType::SoftSemi) {
            perr(ParseErrorKind::MissingEndOfLine, j, None, j, f)
        } else {
            Ok((StmtV::Expr(e), j + 1))
        },
    }
}

// ---------------------------------------------------------------------------
// Expressions
// ---------------------------------------------------------------------------
/// expression → assignment
#[verifier::opaque]
pub open spec fn p_expression(ts: Seq<TokenType>, i: int, f: bool) -> PR<ExprV>
    decreases ts.len() - i, 24int,
{
    p_assignment(ts, i, f)
}

/// assignment → or [ `<-` assignment ]
#[verifier::opaque]
pub open spec fn p_assignment(ts: Seq<TokenType>, i: int, f: bool) -> PR<ExprV>
    decreases ts.len() - i, 23int,
{
    match p_or(ts, i, f) {
        Err(x) => Err(x),
        Ok((e, j)) => if check(ts, j, TokenType::Arrow) {
            if j < i {
                arbitrary()
            } else {
                match p_assignment(ts, j + 1, f) {
                    Err(x) => Err(x),
                    Ok((v, k)) => match e {
                        ExprV::Variable { token } => Ok(
                            (
                                ExprV::Assign {
                                    target: token,
                                    ident: token,
                                    value: Box::new(v),
                                    arrow: j as usize,
                                },
                                k,
                            ),
                        ),
                        ExprV::Access { list, list_token, key, lb, rb } => Ok(
                            (
                                ExprV::SetItem {
                                    list,
                                    list_token,
                                    key,
                                    lb,
                                    rb,
                                    value: Box::new(v),
                                    arrow: j as usize,
                                },
                                k,
                            ),
                        ),
                        _ => perr(
                            ParseErrorKind::InvalidAssignmentTarget,
                            j,
                            Some((j - 1) as usize),
                            k,
                            f,
                        ),
                    },
                }
            }
        } else {
            Ok((e, j))
        },
    }
}

/// or → and ( `OR` and )*
#[verifier::opaque]
pub open spec fn p_or(ts: Seq<TokenType>, i: int, f: bool) -> PR<ExprV>
    decreases ts.len() - i, 22int,
{
    match p_and(ts, i, f) {
        Err(x) => Err(x),
        Ok((e, j)) => if i < j <= ts.len() {
            p_or_rest(ts, j, f, e)
        } else {
            arbitrary()
        },
    }
}

#[verifier::opaque]
pub open spec fn p_or_rest(ts: Seq<TokenType>, j: int, f: bool, left: ExprV) -> PR<ExprV>
    decreases ts.len() - j, 22int,
{
    if check(ts, j, TokenType::Or) {
        match p_and(ts, j + 1, f) {
            Err(x) => Err(x),
            Ok((r, k)) => if j < k <= ts.len() {
                p_or_rest(
                    ts,
                    k,
                    f,
                    ExprV::Logical {
                        left: Box::new(left),
                        op: LogicalOp::Or,
                        right: Box::new(r),
                        token: j as usize,
                    },
                )
            } else {
                arbitrary()
            },
        }
    } else {
        Ok((left, j))
    }
}

/// and → equality ( `AND` and )*
#[verifier::opaque]
pub open spec fn p_and(ts: Seq<TokenType>, i: int, f: bool) -> PR<ExprV>
    decreases ts.len() - i, 21int,
{
    match p_binary(ts, i, f, 3) {
        Err(x) => Err(x),
        Ok((e, j)) => if i < j <= ts.len() {
            p_and_rest(ts, j, f, e)
        } else {
            arbitrary()
        },
    }
}

#[verifier::opaque]
pub open spec fn p_and_rest(ts: Seq<TokenType>, j: int, f: bool, left: ExprV) -> PR<ExprV>
    decreases ts.len() - j, 21int,
{
    if check(ts, j, TokenType::And) {
        match p_and(ts, j + 1, f) {
            Err(x) => Err(x),
            Ok((r, k)) => if j < k <= ts.len() {
                p_and_rest(
                    ts,
                    k,
                    f,
                    ExprV::Logical {
                        left: Box::new(left),
                        op: LogicalOp::And,
                        right: Box::new(r),
                        token: j as usize,
                    },
                )
            } else {
                arbitrary()
            },
        }
    } else {
        Ok((left, j))
    }
}

/// The operand of a binary level: the next tighter level, or a unary
/// expression below level 0.
#[verifier::opaque]
pub open spec fn p_operand(ts: Seq<TokenType>, i: int, f: bool, lvl: int) -> PR<ExprV>
    decreases ts.len() - i, 13 + 2 * lvl,
{
    if lvl < 0 || lvl > 3 {
        arbitrary()
    } else if lvl == 0 {
        p_unary(ts, i, f)
    } else {
        p_binary(ts, i, f, lvl - 1)
    }
}

/// A left-associative chain of operands joined by the operators of level
/// `lvl` (3 equality, 2 comparison, 1 additive, 0 multiplicative).
#[verifier::opaque]
pub open spec fn p_binary(ts: Seq<TokenType>, i: int, f: bool, lvl: int) -> PR<ExprV>
    decreases ts.len() - i, 14 + 2 * lvl,
{
    if lvl < 0 || lvl > 3 {
        arbitrary()
    } else {
        match p_operand(ts, i, f, lvl) {
            Err(x) => Err(x),
            Ok((e, j)) => if i < j <= ts.len() {
                p_binary_rest(ts, j, f, lvl, e)
            } else {
                arbitrary()
            },
        }
    }
}

#[verifier::opaque]
pub open spec fn p_binary_rest(ts: Seq<TokenType>, j: int, f: bool, lvl: int, left: ExprV) -> PR<
    ExprV,
>
    decreases ts.len() - j, 14 + 2 * lvl,
{
    if lvl < 0 || lvl > 3 {
        arbitrary()
    } else if in_range(ts, j) && ts[j] != TokenType::Eof && level_op(lvl, ts[j]) {
        match p_operand(ts, j + 1, f, lvl) {
            Err(x) => Err(x),
            Ok((r, k)) => if j < k <= ts.len() {
                p_binary_rest(
                    ts,
                    k,
                    f,
                    lvl,
                    ExprV::Binary {
                        left: Box::new(left),
                        op: binary_of(ts[j]),
                        right: Box::new(r),
                        token: j as usize,
                    },
                )
            } else {
                arbitrary()
            },
        }
    } else {
        Ok((left, j))
    }
}

/// unary → ( `NOT` | `-` ) unary | access
#[verifier::opaque]
pub open spec fn p_unary(ts: Seq<TokenType>, i: int, f: bool) -> PR<ExprV>
    decreases ts.len() - i, 12int,
{
    if check(ts, i, TokenType::Not) || check(ts, i, TokenType::Minus) {
        match p_unary(ts, i + 1, f) {
            Err(x) => Err(x),
            Ok((r, k)) => Ok(
                (ExprV::Unary { op: unary_of(ts[i]), right: Box::new(r), token: i as usize }, k),
            ),
        }
    } else {
        p_access(ts, i, f)
    }
}

/// access → primary ( `[` expression `]` )*
#[verifier::opaque]
pub open spec fn p_access(ts: Seq<TokenType>, i: int, f: bool) -> PR<ExprV>
    decreases ts.len() - i, 11int,
{
    match p_primary(ts, i, f) {
        Err(x) => Err(x),
        Ok((e, j)) => if i < j <= ts.len() {
            p_access_rest(ts, j, f, e, j - 1)
        } else {
            arbitrary()
        },
    }
}

#[verifier::opaque]
pub open spec fn p_access_rest(ts: Seq<TokenType>, j: int, f: bool, e: ExprV, lt: int) -> PR<
    ExprV,
>
    decreases ts.len() - j, 11int,
{
    if check(ts, j, TokenType::LeftBracket) {
        match p_expression(ts, j + 1, f) {
            Err(x) => Err(x),
            Ok((x, k)) => if !check(ts, k, TokenType::RightBracket) {
                perr(ParseErrorKind::MissingIndexBracket, k, None, k, f)
            } else if k < j {
                arbitrary()
            } else {
                p_access_rest(
                    ts,
                    k + 1,
                    f,
                    ExprV::Access {
                        list: Box::new(e),
                        list_token: lt as usize,
                        key: Box::new(x),
                        lb: j as usize,
                        rb: k as usize,
                    },
                    lt,
                )
            },
        }
    } else {
        Ok((e, j))
    }
}

/// The literal kind of a literal token.
pub open spec fn literal_of(t: TokenType) -> Option<Literal> {
    match t {
        TokenType::True => Some(Literal::True),
        TokenType::False => Some(Literal::False),
        TokenType::Null => Some(Literal::Null),
        TokenType::StringLiteral => Some(Literal::String),
        TokenType::Number => Some(Literal::Number),
        _ => None,
    }
}

/// primary → literal | name | name `(` arguments `)` | `(` expression `)`
/// | `[` items `]`
#[verifier::opaque]
pub open spec fn p_primary(ts: Seq<TokenType>, i: int, f: bool) -> PR<ExprV>
    decreases ts.len() - i, 10int,
{
    if in_range(ts, i) && ts[i] != TokenType::Eof && literal_of(ts[i]) is Some {
        Ok((ExprV::Literal { value: literal_of(ts[i])->0, token: i as usize }, i + 1))
    } else if check(ts, i, TokenType::Identifier) {
        if check(ts, i + 1, TokenType::LeftParen) {
            let args = if !check(ts, i + 2, TokenType::RightParen) {
                p_args(ts, i + 2, f, seq![], seq![])
            } else {
                Ok(((seq![], seq![]), i + 2))
            };
            match args {
                Err(x) => Err(x),
                Ok(((a, ends), m)) => if !check(ts, m, TokenType::RightParen) {
                    perr(ParseErrorKind::MissingRightParen, m, None, m, f)
                } else {
                    Ok(
                        (
                            ExprV::ProcCall {
                                token: i as usize,
                                args: a,
                                arg_ends: ends,
                                lp: (i + 1) as usize,
                                rp: m as usize,
                            },
                            m + 1,
                        ),
                    )
                },
            }
        } else {
            Ok((ExprV::Variable { token: i as usize }, i + 1))
        }
    } else if check(ts, i, TokenType::LeftParen) {
        match p_expression(ts, i + 1, f) {
            Err(x) => Err(x),
            Ok((e, j)) => if !check(ts, j, TokenType::RightParen) {
                perr(ParseErrorKind::UnclosedGrouping, j, None, j, f)
            } else {
                Ok((ExprV::Grouping { expr: Box::new(e), lp: i as usize, rp: j as usize }, j + 1))
            },
        }
    } else if check(ts, i, TokenType::LeftBracket) {
        let items = if !check(ts, i + 1, TokenType::RightBracket) {
            p_items(ts, i + 1, f, seq![])
        } else {
            Ok((seq![], i + 1))
        };
        match items {
            Err(x) => Err(x),
            Ok((its, m)) => if !check(ts, m, TokenType::RightBracket) {
                perr(ParseErrorKind::MissingRightBracket, m, None, m, f)
            } else {
                Ok((ExprV::List { items: its, lb: i as usize, rb: m as usize }, m + 1))
            },
        }
    } else {
        perr(ParseErrorKind::ExpectedPrimary, i, None, i, f)
    }
}

/// The arguments of a call from position `j`, with the position just
/// after each argument.
#[verifier::opaque]
pub open spec fn p_args(
    ts: Seq<TokenType>,
    j: int,
    f: bool,
    args: Seq<ExprV>,
    ends: Seq<usize>,
) -> PR<(Seq<ExprV>, Seq<usize>)>
    decreases ts.len() - j, 35int,
{
    if args.len() >= MAX_ARGS {
        perr(ParseErrorKind::TooManyArguments, j, None, j, f)
    } else {
        match p_expression(ts, j, f) {
            Err(x) => Err(x),
            Ok((a, k)) => if check(ts, k, TokenType::Comma) {
                if k < j {
                    arbitrary()
                } else {
                    p_args(ts, k + 1, f, args.push(a), ends.push(k as usize))
                }
            } else {
                Ok(((args.push(a), ends.push(k as usize)), k))
            },
        }
    }
}

/// The items of a list literal from position `j`.
#[verifier::opaque]
pub open spec fn p_items(ts: Seq<TokenType>, j: int, f: bool, items: Seq<ExprV>) -> PR<
    Seq<ExprV>,
>
    decreases ts.len() - j, 35int,
{
    match p_expression(ts, j, f) {
        Err(x) => Err(x),
        Ok((a, k)) => if check(ts, k, TokenType::Comma) {
            if k < j {
                arbitrary()
            } else {
                p_items(ts, k + 1, f, items.push(a))
            }
        } else {
            Ok((items.push(a), k))
        },
    }
}

// ---------------------------------------------------------------------------
// Programs
// ---------------------------------------------------------------------------
/// The first recovery point at or after `j`.
#[verifier::opaque]
pub open spec fn p_sync_from(ts: Seq<TokenType>, j: int) -> int
    decreases ts.len() - j,
{
    if !in_range(ts, j) || ts[j] == TokenType::Eof || is_sync_point(ts[j]) {
        j
    } else {
        p_sync_from(ts, j + 1)
    }
}

/// Recovery never moves backwards, nor past the end of the tokens.
pub proof fn lemma_sync_from_bounds(ts: Seq<TokenType>, j: int)
    requires
        0 <= j <= ts.len(),
    ensures
        j <= p_sync_from(ts, j) <= ts.len(),
    decreases ts.len() - j,
{
    reveal(p_sync_from);
    if in_range(ts, j) && ts[j] != TokenType::Eof && !is_sync_point(ts[j]) {
        lemma_sync_from_bounds(ts, j + 1);
    }
}

/// Where reading resumes after an error at `p`: past the token at `p`,
/// then on to the next statement keyword or the end.
#[verifier::opaque]
pub open spec fn p_synchronize(ts: Seq<TokenType>, p: int) -> int {
    p_sync_from(
        ts,
        if at_end(ts, p) {
            p
        } else {
            p + 1
        },
    )
}

/// The statements and errors of a whole program.
pub struct ParseOutcome {
    pub program: Seq<StmtV>,
    pub errors: Seq<ParseError>,
}

/// Reads declarations from `i` to the end, recovering after each error.
#[verifier::opaque]
pub open spec fn p_program(
    ts: Seq<TokenType>,
    i: int,
    f: bool,
    stmts: Seq<StmtV>,
    errs: Seq<ParseError>,
) -> ParseOutcome
    decreases ts.len() - i,
{
    if !in_range(ts, i) || ts[i] == TokenType::Eof {
        ParseOutcome { program: stmts, errors: errs }
    } else if ts[i] == TokenType::SoftSemi {
        p_program(ts, i + 1, f, stmts, errs)
    } else {
        match p_declaration(ts, i, f, false) {
            Ok((st, j)) => if i < j <= ts.len() {
                p_program(ts, j, f, stmts.push(st), errs)
            } else {
                arbitrary()
            },
            Err((e, p, f2)) => {
                let q = p_synchronize(ts, p);
                if i < q <= ts.len() {
                    p_program(ts, q, f2, stmts, errs.push(e))
                } else {
                    arbitrary()
                }
            },
        }
    }
}

/// The result of parsing the token kinds `ts`.
pub open spec fn parse_tokens(ts: Seq<TokenType>) -> ParseOutcome {
    p_program(ts, 0, false, seq![], seq![])
}

} // verus!
