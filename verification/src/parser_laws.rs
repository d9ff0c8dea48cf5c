//! Laws of the grammar, for token kinds that end with the end-of-file token:
//! reading any construct moves forward (a success ends after where reading
//! began, an error is reported at or after it, both within the tokens), and
//! every token position in a tree read lies within the tokens and names a
//! token of the kind its place needs (names are identifiers, brackets are
//! brackets, keywords are keywords). The tokens of any lexed source are such
//! a sequence, so the laws hold of every source lexed and then parsed.
use crate::ast::{ExprV, StmtV};
use crate::parser_spec::{
    at_end, check, in_range, lemma_sync_from_bounds, literal_of, p_access, p_access_rest, p_and,
    p_and_rest, p_args, p_assignment, p_binary, p_binary_rest, p_block, p_block_items,
    p_declaration, p_expression, p_expression_statement, p_for_each, p_if, p_import,
    p_import_functions, p_items, p_operand, p_or, p_or_rest, p_params, p_primary, p_procedure,
    p_program, p_repeat_times, p_repeat_until, p_return, p_specifics, p_statement, p_sync_from,
    p_synchronize, p_unary, parse_tokens, MAX_ARGS, MAX_PARAMS, MAX_SPECIFIC_FUNCTIONS, PR,
};
use crate::parser_spec::ParseError;
use crate::lexer::{lex, lemma_lex_tokens, tokens_in_order};
use crate::token::{
    binary_op_token, logical_op_token, token_types, unary_op_token, LogicalOp, TokenType,
    TokenView,
};
use vstd::prelude::*;

verus! {

/// Whether position `k` holds a token of kind `t`.
pub open spec fn tok(ts: Seq<TokenType>, k: usize, t: TokenType) -> bool {
    (k as int) < ts.len() && ts[k as int] == t
}

/// Whether position `k` lies within the tokens.
pub open spec fn inb(ts: Seq<TokenType>, k: usize) -> bool {
    (k as int) < ts.len()
}

/// Whether every token position of an expression is within `ts` and of the
/// kind its place needs.
pub open spec fn expr_ok(ts: Seq<TokenType>, e: ExprV) -> bool
    decreases e,
{
    match e {
        ExprV::Literal { value, token } => inb(ts, token) && literal_of(ts[token as int]) == Some(
            value,
        ),
        ExprV::Binary { left, op, right, token } => tok(ts, token, binary_op_token(op)) && expr_ok(
            ts,
            *left,
        ) && expr_ok(ts, *right),
        ExprV::Logical { left, op, right, token } => tok(ts, token, logical_op_token(op)) && expr_ok(
            ts,
            *left,
        ) && expr_ok(ts, *right),
        ExprV::Unary { op, right, token } => tok(ts, token, unary_op_token(op)) && expr_ok(
            ts,
            *right,
        ),
        ExprV::Grouping { expr, lp, rp } => tok(ts, lp, TokenType::LeftParen) && tok(
            ts,
            rp,
            TokenType::RightParen,
        ) && expr_ok(ts, *expr),
        ExprV::ProcCall { token, args, arg_ends, lp, rp } => {
            &&& tok(ts, token, TokenType::Identifier)
            &&& tok(ts, lp, TokenType::LeftParen)
            &&& tok(ts, rp, TokenType::RightParen)
            &&& args.len() == arg_ends.len()
            &&& forall|k: int| 0 <= k < args.len() ==> expr_ok(ts, #[trigger] args[k])
            &&& forall|k: int| 0 <= k < arg_ends.len() ==> inb(ts, #[trigger] arg_ends[k])
        },
        ExprV::Access { list, list_token, key, lb, rb } => {
            &&& inb(ts, list_token)
            &&& tok(ts, lb, TokenType::LeftBracket)
            &&& tok(ts, rb, TokenType::RightBracket)
            &&& expr_ok(ts, *list)
            &&& expr_ok(ts, *key)
        },
        ExprV::List { items, lb, rb } => {
            &&& tok(ts, lb, TokenType::LeftBracket)
            &&& tok(ts, rb, TokenType::RightBracket)
            &&& forall|k: int| 0 <= k < items.len() ==> expr_ok(ts, #[trigger] items[k])
        },
        ExprV::Variable { token } => tok(ts, token, TokenType::Identifier),
        ExprV::Assign { target, ident, value, arrow } => {
            &&& tok(ts, target, TokenType::Identifier)
            &&& tok(ts, ident, TokenType::Identifier)
            &&& tok(ts, arrow, TokenType::Arrow)
            &&& expr_ok(ts, *value)
        },
        ExprV::SetItem { list, list_token, key, lb, rb, value, arrow } => {
            &&& inb(ts, list_token)
            &&& tok(ts, lb, TokenType::LeftBracket)
            &&& tok(ts, rb, TokenType::RightBracket)
            &&& tok(ts, arrow, TokenType::Arrow)
            &&& expr_ok(ts, *list)
            &&& expr_ok(ts, *key)
            &&& expr_ok(ts, *value)
        },
    }
}

/// Whether every token position of a statement is within `ts` and of the
/// kind its place needs.
pub open spec fn stmt_ok(ts: Seq<TokenType>, s: StmtV) -> bool
    decreases s,
{
    match s {
        StmtV::Expr(e) => expr_ok(ts, e),
        StmtV::If { cond, then_branch, else_branch, if_token, else_token } => {
            &&& tok(ts, if_token, TokenType::If)
            &&& expr_ok(ts, cond)
            &&& stmt_ok(ts, *then_branch)
            &&& (else_branch is Some <==> else_token is Some)
            &&& (else_branch matches Some(b) ==> stmt_ok(ts, *b))
            &&& (else_token matches Some(t) ==> tok(ts, t, TokenType::Else))
        },
        StmtV::RepeatTimes { count, body, repeat_token, times_token, count_token } => {
            &&& tok(ts, repeat_token, TokenType::Repeat)
            &&& tok(ts, times_token, TokenType::Times)
            &&& inb(ts, count_token)
            &&& expr_ok(ts, count)
            &&& stmt_ok(ts, *body)
        },
        StmtV::RepeatUntil { cond, body, repeat_token, until_token } => {
            &&& tok(ts, repeat_token, TokenType::Repeat)
            &&& tok(ts, until_token, TokenType::Until)
            &&& expr_ok(ts, cond)
            &&& stmt_ok(ts, *body)
        },
        StmtV::ForEach {
            item,
            item_token,
            list,
            body,
            for_token,
            each_token,
            in_token,
            list_token,
        } => {
            &&& tok(ts, item, TokenType::Identifier)
            &&& tok(ts, item_token, TokenType::Identifier)
            &&& tok(ts, for_token, TokenType::For)
            &&& tok(ts, each_token, TokenType::Each)
            &&& tok(ts, in_token, TokenType::In)
            &&& inb(ts, list_token)
            &&& expr_ok(ts, list)
            &&& stmt_ok(ts, *body)
        },
        StmtV::Proc { params, body, exported, proc_token, name_token } => {
            &&& forall|k: int| 0 <= k < params.len() ==> tok(ts, #[trigger] params[k], TokenType::Identifier)
            &&& tok(ts, proc_token, TokenType::Procedure)
            &&& tok(ts, name_token, TokenType::Identifier)
            &&& stmt_ok(ts, *body)
        },
        StmtV::Block { lb, stmts, rb } => {
            &&& tok(ts, lb, TokenType::LeftBrace)
            &&& tok(ts, rb, TokenType::RightBrace)
            &&& forall|k: int| 0 <= k < stmts.len() ==> stmt_ok(ts, #[trigger] stmts[k])
        },
        StmtV::Return { token, data } => tok(ts, token, TokenType::Return) && (data matches Some(
            e,
        ) ==> expr_ok(ts, e)),
        StmtV::Continue { token } => tok(ts, token, TokenType::Continue),
        StmtV::Break { token } => tok(ts, token, TokenType::Break),
        StmtV::Import { import_token, mod_token, from_token, only, module_name } => {
            &&& tok(ts, import_token, TokenType::Import)
            &&& tok(ts, mod_token, TokenType::Mod)
            &&& (from_token matches Some(t) ==> tok(ts, t, TokenType::From))
            &&& (only matches Some(fs) ==> forall|k: int|
                0 <= k < fs.len() ==> tok(ts, #[trigger] fs[k], TokenType::StringLiteral))
            &&& tok(ts, module_name, TokenType::StringLiteral)
        },
    }
}

/// The token kinds of a program: the end-of-file token last, and no more
/// tokens than a vector can hold.
pub open spec fn eof_ended(ts: Seq<TokenType>) -> bool {
    0 < ts.len() <= usize::MAX && ts.last() == TokenType::Eof
}

/// Whether every expression of `s` is sound in `ts`.
pub open spec fn exprs_ok(ts: Seq<TokenType>, s: Seq<ExprV>) -> bool {
    forall|k: int| 0 <= k < s.len() ==> expr_ok(ts, #[trigger] s[k])
}

/// Whether every statement of `s` is sound in `ts`.
pub open spec fn stmts_ok(ts: Seq<TokenType>, s: Seq<StmtV>) -> bool {
    forall|k: int| 0 <= k < s.len() ==> stmt_ok(ts, #[trigger] s[k])
}

/// Whether every position of `s` lies within `ts`.
pub open spec fn all_inb(ts: Seq<TokenType>, s: Seq<usize>) -> bool {
    forall|k: int| 0 <= k < s.len() ==> inb(ts, #[trigger] s[k])
}

/// Whether every position of `s` holds a token of kind `t`.
pub open spec fn all_tok(ts: Seq<TokenType>, s: Seq<usize>, t: TokenType) -> bool {
    forall|k: int| 0 <= k < s.len() ==> tok(ts, #[trigger] s[k], t)
}

/// Whether the positions an error names lie within the tokens.
pub open spec fn error_in(ts: Seq<TokenType>, e: ParseError) -> bool {
    (e.found as int) < ts.len() && (e.related matches Some(r) ==> (r as int) < ts.len())
}

/// Whether every error of `es` names positions within the tokens.
pub open spec fn errors_in(ts: Seq<TokenType>, es: Seq<ParseError>) -> bool {
    forall|k: int| 0 <= k < es.len() ==> error_in(ts, #[trigger] es[k])
}

/// A read from `i` moves forward and stays before the end: a success ends
/// after `i`; an error stops reading at or after `i` and names positions
/// within the tokens.
pub open spec fn advances<T>(ts: Seq<TokenType>, i: int, r: PR<T>) -> bool {
    match r {
        Ok((_, j)) => i < j < ts.len(),
        Err((e, p, _)) => i <= p < ts.len() && error_in(ts, e),
    }
}

/// Like [`advances`], for the rest of a chain whose first part ended at `j`:
/// a success may end at `j` itself.
pub open spec fn continues<T>(ts: Seq<TokenType>, j: int, r: PR<T>) -> bool {
    match r {
        Ok((_, k)) => j <= k < ts.len(),
        Err((e, p, _)) => j <= p < ts.len() && error_in(ts, e),
    }
}

/// A read of an expression from `i` advances and gives a sound tree.
pub open spec fn expr_read(ts: Seq<TokenType>, i: int, r: PR<ExprV>) -> bool {
    advances(ts, i, r) && (r matches Ok((e, _)) ==> expr_ok(ts, e))
}

/// The rest of an expression chain from `j` continues and gives a sound tree.
pub open spec fn expr_rest(ts: Seq<TokenType>, j: int, r: PR<ExprV>) -> bool {
    continues(ts, j, r) && (r matches Ok((e, _)) ==> expr_ok(ts, e))
}

/// A read of a statement from `i` advances and gives a sound tree.
pub open spec fn stmt_read(ts: Seq<TokenType>, i: int, r: PR<StmtV>) -> bool {
    advances(ts, i, r) && (r matches Ok((s, _)) ==> stmt_ok(ts, s))
}

// ---------------------------------------------------------------------------
// Expressions
// ---------------------------------------------------------------------------
/// Reading an expression from any position before the end moves forward
/// and gives a tree whose token positions are sound.
pub proof fn lemma_expression_sound(ts: Seq<TokenType>, i: int, f: bool)
    requires
        eof_ended(ts),
        0 <= i < ts.len(),
    ensures
        expr_read(ts, i, p_expression(ts, i, f)),
    decreases ts.len() - i, 24int,
{
    reveal(p_expression);
    reveal(p_assignment);
    lemma_assignment(ts, i, f);
}

#[verifier::spinoff_prover]
#[verifier::rlimit(50)]
proof fn lemma_assignment(ts: Seq<TokenType>, i: int, f: bool)
    requires
        eof_ended(ts),
        0 <= i < ts.len(),
    ensures
        expr_read(ts, i, p_assignment(ts, i, f)),
    decreases ts.len() - i, 23int,
{
    reveal(p_assignment);
    reveal(p_or);
    lemma_or(ts, i, f);
    if let Ok((e, j)) = p_or(ts, i, f) {
        if check(ts, j, TokenType::Arrow) {
            lemma_assignment(ts, j + 1, f);
        }
    }
}

proof fn lemma_or(ts: Seq<TokenType>, i: int, f: bool)
    requires
        eof_ended(ts),
        0 <= i < ts.len(),
    ensures
        expr_read(ts, i, p_or(ts, i, f)),
    decreases ts.len() - i, 22int,
{
    reveal(p_or);
    reveal(p_and);
    reveal(p_or_rest);
    lemma_and(ts, i, f);
    if let Ok((e, j)) = p_and(ts, i, f) {
        lemma_or_rest(ts, j, f, e);
    }
}

proof fn lemma_or_rest(ts: Seq<TokenType>, j: int, f: bool, left: ExprV)
    requires
        eof_ended(ts),
        0 <= j < ts.len(),
        expr_ok(ts, left),
    ensures
        expr_rest(ts, j, p_or_rest(ts, j, f, left)),
    decreases ts.len() - j, 22int,
{
    reveal(p_or_rest);
    reveal(p_and);
    if check(ts, j, TokenType::Or) {
        lemma_and(ts, j + 1, f);
        if let Ok((r, k)) = p_and(ts, j + 1, f) {
            let e = ExprV::Logical {
                left: Box::new(left),
                op: LogicalOp::Or,
                right: Box::new(r),
                token: j as usize,
            };
            assert(expr_ok(ts, e));
            lemma_or_rest(ts, k, f, e);
        }
    }
}

proof fn lemma_and(ts: Seq<TokenType>, i: int, f: bool)
    requires
        eof_ended(ts),
        0 <= i < ts.len(),
    ensures
        expr_read(ts, i, p_and(ts, i, f)),
    decreases ts.len() - i, 21int,
{
    reveal(p_and);
    reveal(p_binary);
    reveal(p_and_rest);
    lemma_binary(ts, i, f, 3);
    if let Ok((e, j)) = p_binary(ts, i, f, 3) {
        lemma_and_rest(ts, j, f, e);
    }
}

proof fn lemma_and_rest(ts: Seq<TokenType>, j: int, f: bool, left: ExprV)
    requires
        eof_ended(ts),
        0 <= j < ts.len(),
        expr_ok(ts, left),
    ensures
        expr_rest(ts, j, p_and_rest(ts, j, f, left)),
    decreases ts.len() - j, 21int,
{
    reveal(p_and_rest);
    reveal(p_and);
    if check(ts, j, TokenType::And) {
        lemma_and(ts, j + 1, f);
        if let Ok((r, k)) = p_and(ts, j + 1, f) {
            let e = ExprV::Logical {
                left: Box::new(left),
                op: LogicalOp::And,
                right: Box::new(r),
                token: j as usize,
            };
            assert(expr_ok(ts, e));
            lemma_and_rest(ts, k, f, e);
        }
    }
}

proof fn lemma_operand(ts: Seq<TokenType>, i: int, f: bool, lvl: int)
    requires
        eof_ended(ts),
        0 <= i < ts.len(),
        0 <= lvl <= 3,
    ensures
        expr_read(ts, i, p_operand(ts, i, f, lvl)),
    decreases ts.len() - i, 13 + 2 * lvl,
{
    reveal(p_operand);
    reveal(p_unary);
    reveal(p_binary);
    if lvl == 0 {
        lemma_unary(ts, i, f);
    } else {
        lemma_binary(ts, i, f, lvl - 1);
    }
}

proof fn lemma_binary(ts: Seq<TokenType>, i: int, f: bool, lvl: int)
    requires
        eof_ended(ts),
        0 <= i < ts.len(),
        0 <= lvl <= 3,
    ensures
        expr_read(ts, i, p_binary(ts, i, f, lvl)),
    decreases ts.len() - i, 14 + 2 * lvl,
{
    reveal(p_binary);
    reveal(p_operand);
    reveal(p_binary_rest);
    lemma_operand(ts, i, f, lvl);
    if let Ok((e, j)) = p_operand(ts, i, f, lvl) {
        lemma_binary_rest(ts, j, f, lvl, e);
    }
}

proof fn lemma_binary_rest(ts: Seq<TokenType>, j: int, f: bool, lvl: int, left: ExprV)
    requires
        eof_ended(ts),
        0 <= j < ts.len(),
        0 <= lvl <= 3,
        expr_ok(ts, left),
    ensures
        expr_rest(ts, j, p_binary_rest(ts, j, f, lvl, left)),
    decreases ts.len() - j, 14 + 2 * lvl,
{
    reveal(p_binary_rest);
    reveal(p_operand);
    if in_range(ts, j) && ts[j] != TokenType::Eof && crate::parser_spec::level_op(lvl, ts[j]) {
        lemma_operand(ts, j + 1, f, lvl);
        if let Ok((r, k)) = p_operand(ts, j + 1, f, lvl) {
            let e = ExprV::Binary {
                left: Box::new(left),
                op: crate::parser_spec::binary_of(ts[j]),
                right: Box::new(r),
                token: j as usize,
            };
            assert(expr_ok(ts, e));
            lemma_binary_rest(ts, k, f, lvl, e);
        }
    }
}

proof fn lemma_unary(ts: Seq<TokenType>, i: int, f: bool)
    requires
        eof_ended(ts),
        0 <= i < ts.len(),
    ensures
        expr_read(ts, i, p_unary(ts, i, f)),
    decreases ts.len() - i, 12int,
{
    reveal(p_unary);
    reveal(p_access);
    if check(ts, i, TokenType::Not) || check(ts, i, TokenType::Minus) {
        lemma_unary(ts, i + 1, f);
    } else {
        lemma_access(ts, i, f);
    }
}

proof fn lemma_access(ts: Seq<TokenType>, i: int, f: bool)
    requires
        eof_ended(ts),
        0 <= i < ts.len(),
    ensures
        expr_read(ts, i, p_access(ts, i, f)),
    decreases ts.len() - i, 11int,
{
    reveal(p_access);
    reveal(p_primary);
    reveal(p_access_rest);
    lemma_primary(ts, i, f);
    if let Ok((e, j)) = p_primary(ts, i, f) {
        lemma_access_rest(ts, j, f, e, j - 1);
    }
}

#[verifier::spinoff_prover]
#[verifier::rlimit(50)]
proof fn lemma_access_rest(ts: Seq<TokenType>, j: int, f: bool, e: ExprV, lt: int)
    requires
        eof_ended(ts),
        0 <= lt < j < ts.len(),
        expr_ok(ts, e),
    ensures
        expr_rest(ts, j, p_access_rest(ts, j, f, e, lt)),
    decreases ts.len() - j, 11int,
{
    reveal(p_access_rest);
    reveal(p_expression);
    if check(ts, j, TokenType::LeftBracket) {
        lemma_expression_sound(ts, j + 1, f);
        if let Ok((x, k)) = p_expression(ts, j + 1, f) {
            if check(ts, k, TokenType::RightBracket) {
                let a = ExprV::Access {
                    list: Box::new(e),
                    list_token: lt as usize,
                    key: Box::new(x),
                    lb: j as usize,
                    rb: k as usize,
                };
                assert(expr_ok(ts, a));
                lemma_access_rest(ts, k + 1, f, a, lt);
            }
        }
    }
}

#[verifier::spinoff_prover]
#[verifier::rlimit(50)]
proof fn lemma_primary(ts: Seq<TokenType>, i: int, f: bool)
    requires
        eof_ended(ts),
        0 <= i < ts.len(),
    ensures
        expr_read(ts, i, p_primary(ts, i, f)),
    decreases ts.len() - i, 10int,
{
    reveal(p_primary);
    reveal(p_args);
    reveal(p_items);
    reveal(p_expression);
    if in_range(ts, i) && ts[i] != TokenType::Eof && literal_of(ts[i]) is Some {
    } else if check(ts, i, TokenType::Identifier) {
        if check(ts, i + 1, TokenType::LeftParen) && !check(ts, i + 2, TokenType::RightParen) {
            lemma_args(ts, i + 2, f, seq![], seq![]);
        }
    } else if check(ts, i, TokenType::LeftParen) {
        lemma_expression_sound(ts, i + 1, f);
    } else if check(ts, i, TokenType::LeftBracket) {
        if !check(ts, i + 1, TokenType::RightBracket) {
            lemma_items(ts, i + 1, f, seq![]);
        }
    }
}

proof fn lemma_args(ts: Seq<TokenType>, j: int, f: bool, args: Seq<ExprV>, ends: Seq<usize>)
    requires
        eof_ended(ts),
        0 <= j < ts.len(),
        args.len() == ends.len(),
        exprs_ok(ts, args),
        all_inb(ts, ends),
    ensures
        advances(ts, j, p_args(ts, j, f, args, ends)),
        p_args(ts, j, f, args, ends) matches Ok(((a, e), _)) ==> a.len() == e.len() && exprs_ok(
            ts,
            a,
        ) && all_inb(ts, e),
    decreases ts.len() - j, 35int,
{
    reveal(p_args);
    reveal(p_expression);
    if args.len() < MAX_ARGS {
        lemma_expression_sound(ts, j, f);
        if let Ok((a, k)) = p_expression(ts, j, f) {
            assert(exprs_ok(ts, args.push(a)));
            assert(all_inb(ts, ends.push(k as usize)));
            if check(ts, k, TokenType::Comma) {
                lemma_args(ts, k + 1, f, args.push(a), ends.push(k as usize));
            }
        }
    }
}

proof fn lemma_items(ts: Seq<TokenType>, j: int, f: bool, items: Seq<ExprV>)
    requires
        eof_ended(ts),
        0 <= j < ts.len(),
        exprs_ok(ts, items),
    ensures
        advances(ts, j, p_items(ts, j, f, items)),
        p_items(ts, j, f, items) matches Ok((a, _)) ==> exprs_ok(ts, a),
    decreases ts.len() - j, 35int,
{
    reveal(p_items);
    reveal(p_expression);
    lemma_expression_sound(ts, j, f);
    if let Ok((a, k)) = p_expression(ts, j, f) {
        assert(exprs_ok(ts, items.push(a)));
        if check(ts, k, TokenType::Comma) {
            lemma_items(ts, k + 1, f, items.push(a));
        }
    }
}

// ---------------------------------------------------------------------------
// Declarations and statements
// ---------------------------------------------------------------------------
proof fn lemma_declaration(ts: Seq<TokenType>, i: int, f: bool, l: bool)
    requires
        eof_ended(ts),
        0 <= i < ts.len(),
    ensures
        stmt_read(ts, i, p_declaration(ts, i, f, l)),
    decreases ts.len() - i, 27int,
{
    reveal(p_declaration);
    reveal(p_procedure);
    reveal(p_statement);
    if check(ts, i, TokenType::Export) || check(ts, i, TokenType::Procedure) {
        lemma_procedure(ts, i + 1, f, l);
    } else {
        lemma_statement_sound(ts, i, f, l);
    }
}

proof fn lemma_params(ts: Seq<TokenType>, j: int, acc: Seq<usize>, f: bool)
    requires
        eof_ended(ts),
        0 <= j < ts.len(),
        all_tok(ts, acc, TokenType::Identifier),
    ensures
        advances(ts, j, p_params(ts, j, acc, f)),
        p_params(ts, j, acc, f) matches Ok((ps, _)) ==> all_tok(ts, ps, TokenType::Identifier),
    decreases ts.len() - j,
{
    reveal(p_params);
    if acc.len() <= MAX_PARAMS && check(ts, j, TokenType::Identifier) {
        assert(all_tok(ts, acc.push(j as usize), TokenType::Identifier));
        if check(ts, j + 1, TokenType::Comma) {
            lemma_params(ts, j + 2, acc.push(j as usize), f);
        }
    }
}

#[verifier::spinoff_prover]
#[verifier::rlimit(50)]
proof fn lemma_procedure(ts: Seq<TokenType>, i: int, f: bool, l: bool)
    requires
        eof_ended(ts),
        1 <= i < ts.len(),
        ts[i - 1] == TokenType::Export || ts[i - 1] == TokenType::Procedure,
    ensures
        stmt_read(ts, i, p_procedure(ts, i, f, l)),
    decreases ts.len() - i, 30int,
{
    reveal(p_procedure);
    reveal(p_params);
    reveal(p_statement);
    let exported = ts[i - 1] == TokenType::Export;
    if !(exported && !check(ts, i, TokenType::Procedure)) {
        let n = if exported {
            i + 1
        } else {
            i
        };
        if check(ts, n, TokenType::Identifier) && check(ts, n + 1, TokenType::LeftParen) {
            let params = if !check(ts, n + 2, TokenType::RightParen) {
                lemma_params(ts, n + 2, seq![], f);
                p_params(ts, n + 2, seq![], f)
            } else {
                Ok((seq![], n + 2))
            };
            if let Ok((ps, k)) = params {
                if check(ts, k, TokenType::RightParen) {
                    lemma_statement_sound(ts, k + 1, true, l);
                }
            }
        }
    }
}

/// Reading a statement from any position before the end moves forward and
/// gives a tree whose token positions are sound.
pub proof fn lemma_statement_sound(ts: Seq<TokenType>, i: int, f: bool, l: bool)
    requires
        eof_ended(ts),
        0 <= i < ts.len(),
    ensures
        stmt_read(ts, i, p_statement(ts, i, f, l)),
    decreases ts.len() - i, 26int,
{
    reveal(p_statement);
    reveal(p_import);
    reveal(p_if);
    reveal(p_repeat_until);
    reveal(p_repeat_times);
    reveal(p_for_each);
    reveal(p_block);
    reveal(p_return);
    reveal(p_expression_statement);
    if check(ts, i, TokenType::Import) {
        lemma_import(ts, i + 1, f);
    } else if check(ts, i, TokenType::If) {
        lemma_if(ts, i + 1, f, l);
    } else if check(ts, i, TokenType::Repeat) {
        if check(ts, i + 1, TokenType::Until) {
            lemma_repeat_until(ts, i + 1, f);
        } else {
            lemma_repeat_times(ts, i + 1, f);
        }
    } else if check(ts, i, TokenType::For) {
        lemma_for_each(ts, i + 1, f);
    } else if check(ts, i, TokenType::LeftBrace) {
        lemma_block(ts, i + 1, f, l);
    } else if check(ts, i, TokenType::Continue) || check(ts, i, TokenType::Break) {
    } else if check(ts, i, TokenType::Return) {
        lemma_return(ts, i + 1, f);
    } else {
        lemma_expression_statement(ts, i, f);
    }
}

#[verifier::spinoff_prover]
#[verifier::rlimit(50)]
proof fn lemma_return(ts: Seq<TokenType>, i: int, f: bool)
    requires
        eof_ended(ts),
        1 <= i < ts.len(),
        ts[i - 1] == TokenType::Return,
    ensures
        stmt_read(ts, i, p_return(ts, i, f)),
    decreases ts.len() - i, 30int,
{
    reveal(p_return);
    reveal(p_expression);
    if f && !check(ts, i, TokenType::SoftSemi) {
        lemma_expression_sound(ts, i, f);
    }
}

proof fn lemma_specifics(ts: Seq<TokenType>, j: int, acc: Seq<usize>, lb: int, f: bool)
    requires
        eof_ended(ts),
        0 <= j < ts.len(),
        all_tok(ts, acc, TokenType::StringLiteral),
        0 <= lb < ts.len(),
    ensures
        advances(ts, j, p_specifics(ts, j, acc, lb, f)),
        p_specifics(ts, j, acc, lb, f) matches Ok((fs, _)) ==> all_tok(
            ts,
            fs,
            TokenType::StringLiteral,
        ),
    decreases ts.len() - j,
{
    reveal(p_specifics);
    if acc.len() < MAX_SPECIFIC_FUNCTIONS && check(ts, j, TokenType::StringLiteral) {
        assert(all_tok(ts, acc.push(j as usize), TokenType::StringLiteral));
        if check(ts, j + 1, TokenType::Comma) {
            lemma_specifics(ts, j + 2, acc.push(j as usize), lb, f);
        }
    }
}

proof fn lemma_import_functions(ts: Seq<TokenType>, i: int, f: bool)
    requires
        eof_ended(ts),
        0 <= i < ts.len(),
    ensures
        continues(ts, i, p_import_functions(ts, i, f)),
        p_import_functions(ts, i, f) matches Ok((Some(fs), _)) ==> all_tok(
            ts,
            fs,
            TokenType::StringLiteral,
        ),
{
    reveal(p_import_functions);
    reveal(p_specifics);
    if check(ts, i, TokenType::LeftBracket) {
        lemma_specifics(ts, i + 1, seq![], i, f);
    } else if check(ts, i, TokenType::StringLiteral) {
        assert(all_tok(ts, seq![i as usize], TokenType::StringLiteral));
    }
}

proof fn lemma_import(ts: Seq<TokenType>, i: int, f: bool)
    requires
        eof_ended(ts),
        1 <= i < ts.len(),
        ts[i - 1] == TokenType::Import,
    ensures
        stmt_read(ts, i, p_import(ts, i, f)),
{
    reveal(p_import);
    reveal(p_import_functions);
    lemma_import_functions(ts, i, f);
}

#[verifier::spinoff_prover]
#[verifier::rlimit(50)]
proof fn lemma_if(ts: Seq<TokenType>, i: int, f: bool, l: bool)
    requires
        eof_ended(ts),
        1 <= i < ts.len(),
        ts[i - 1] == TokenType::If,
    ensures
        stmt_read(ts, i, p_if(ts, i, f, l)),
    decreases ts.len() - i, 30int,
{
    reveal(p_if);
    reveal(p_expression);
    reveal(p_statement);
    if check(ts, i, TokenType::LeftParen) {
        lemma_expression_sound(ts, i + 1, f);
        if let Ok((c, j)) = p_expression(ts, i + 1, f) {
            if check(ts, j, TokenType::RightParen) {
                lemma_statement_sound(ts, j + 1, f, l);
                if let Ok((t, k)) = p_statement(ts, j + 1, f, l) {
                    if check(ts, k, TokenType::Else) {
                        lemma_statement_sound(ts, k + 1, f, l);
                    }
                }
            }
        }
    }
}

#[verifier::spinoff_prover]
#[verifier::rlimit(50)]
proof fn lemma_repeat_times(ts: Seq<TokenType>, i: int, f: bool)
    requires
        eof_ended(ts),
        1 <= i < ts.len(),
        ts[i - 1] == TokenType::Repeat,
    ensures
        stmt_read(ts, i, p_repeat_times(ts, i, f)),
    decreases ts.len() - i, 30int,
{
    reveal(p_repeat_times);
    reveal(p_expression);
    reveal(p_statement);
    lemma_expression_sound(ts, i, f);
    if let Ok((c, j)) = p_expression(ts, i, f) {
        if check(ts, j, TokenType::Times) {
            lemma_statement_sound(ts, j + 1, f, true);
        }
    }
}

#[verifier::spinoff_prover]
#[verifier::rlimit(50)]
proof fn lemma_repeat_until(ts: Seq<TokenType>, i: int, f: bool)
    requires
        eof_ended(ts),
        1 <= i < ts.len(),
        ts[i - 1] == TokenType::Repeat,
        ts[i] == TokenType::Until,
    ensures
        stmt_read(ts, i, p_repeat_until(ts, i, f)),
    decreases ts.len() - i, 30int,
{
    reveal(p_repeat_until);
    reveal(p_expression);
    reveal(p_statement);
    if check(ts, i + 1, TokenType::LeftParen) {
        lemma_expression_sound(ts, i + 2, f);
        if let Ok((c, j)) = p_expression(ts, i + 2, f) {
            if check(ts, j, TokenType::RightParen) {
                lemma_statement_sound(ts, j + 1, f, true);
            }
        }
    }
}

#[verifier::spinoff_prover]
#[verifier::rlimit(50)]
proof fn lemma_for_each(ts: Seq<TokenType>, i: int, f: bool)
    requires
        eof_ended(ts),
        1 <= i < ts.len(),
        ts[i - 1] == TokenType::For,
    ensures
        stmt_read(ts, i, p_for_each(ts, i, f)),
    decreases ts.len() - i, 30int,
{
    reveal(p_for_each);
    reveal(p_expression);
    reveal(p_statement);
    if check(ts, i, TokenType::Each) && check(ts, i + 1, TokenType::Identifier) && check(
        ts,
        i + 2,
        TokenType::In,
    ) {
        lemma_expression_sound(ts, i + 3, f);
        if let Ok((lst, j)) = p_expression(ts, i + 3, f) {
            lemma_statement_sound(ts, j, f, true);
        }
    }
}

proof fn lemma_block(ts: Seq<TokenType>, i: int, f: bool, l: bool)
    requires
        eof_ended(ts),
        1 <= i < ts.len(),
        ts[i - 1] == TokenType::LeftBrace,
    ensures
        stmt_read(ts, i, p_block(ts, i, f, l)),
    decreases ts.len() - i, 37int,
{
    reveal(p_block);
    reveal(p_block_items);
    lemma_block_items(ts, i, seq![], i - 1, f, l);
}

proof fn lemma_block_items(
    ts: Seq<TokenType>,
    j: int,
    acc: Seq<StmtV>,
    lb: int,
    f: bool,
    l: bool,
)
    requires
        eof_ended(ts),
        0 <= lb < j < ts.len(),
        ts[lb] == TokenType::LeftBrace,
        stmts_ok(ts, acc),
    ensures
        stmt_read(ts, j, p_block_items(ts, j, acc, lb, f, l)),
    decreases ts.len() - j, 36int,
{
    reveal(p_block_items);
    reveal(p_declaration);
    if check(ts, j, TokenType::LeftBrace) || at_end(ts, j) || check(ts, j, TokenType::RightBrace) {
    } else if check(ts, j, TokenType::SoftSemi) {
        lemma_block_items(ts, j + 1, acc, lb, f, l);
    } else {
        lemma_declaration(ts, j, f, l);
        if let Ok((st, k)) = p_declaration(ts, j, f, l) {
            assert(stmts_ok(ts, acc.push(st)));
            lemma_block_items(ts, k, acc.push(st), lb, f, l);
        }
    }
}

proof fn lemma_expression_statement(ts: Seq<TokenType>, i: int, f: bool)
    requires
        eof_ended(ts),
        0 <= i < ts.len(),
    ensures
        stmt_read(ts, i, p_expression_statement(ts, i, f)),
    decreases ts.len() - i, 25int,
{
    reveal(p_expression_statement);
    reveal(p_expression);
    lemma_expression_sound(ts, i, f);
}

// ---------------------------------------------------------------------------
// Programs
// ---------------------------------------------------------------------------
proof fn lemma_program(
    ts: Seq<TokenType>,
    i: int,
    f: bool,
    stmts: Seq<StmtV>,
    errs: Seq<ParseError>,
)
    requires
        eof_ended(ts),
        0 <= i <= ts.len(),
        stmts_ok(ts, stmts),
        errors_in(ts, errs),
    ensures
        stmts_ok(ts, p_program(ts, i, f, stmts, errs).program),
        errors_in(ts, p_program(ts, i, f, stmts, errs).errors),
    decreases ts.len() - i,
{
    reveal(p_program);
    reveal(p_declaration);
    reveal(p_synchronize);
    reveal(p_sync_from);
    if in_range(ts, i) && ts[i] != TokenType::Eof {
        if ts[i] == TokenType::SoftSemi {
            lemma_program(ts, i + 1, f, stmts, errs);
        } else {
            lemma_declaration(ts, i, f, false);
            match p_declaration(ts, i, f, false) {
                Ok((st, j)) => {
                    assert(stmts_ok(ts, stmts.push(st)));
                    lemma_program(ts, j, f, stmts.push(st), errs);
                },
                Err((e, p, f2)) => {
                    assert(errors_in(ts, errs.push(e)));
                    lemma_sync_from_bounds(
                        ts,
                        if at_end(ts, p) {
                            p
                        } else {
                            p + 1
                        },
                    );
                    lemma_program(ts, p_synchronize(ts, p), f2, stmts, errs.push(e));
                },
            }
        }
    }
}

/// Parsing is sound: each token position in the tree of every statement
/// read lies within the tokens and holds a token of the kind its place
/// needs, and every error reported names positions within the tokens.
pub proof fn lemma_parse_sound(ts: Seq<TokenType>)
    requires
        eof_ended(ts),
    ensures
        stmts_ok(ts, parse_tokens(ts).program),
        errors_in(ts, parse_tokens(ts).errors),
{
    lemma_program(ts, 0, false, seq![], seq![]);
}

// ---------------------------------------------------------------------------
// From source to tree
// ---------------------------------------------------------------------------
/// Tokens in order within `s`, none empty, are no more than its characters.
proof fn lemma_ordered_tokens_fit(s: Seq<char>, ts: Seq<TokenView>)
    requires
        tokens_in_order(s, ts),
    ensures
        ts.len() <= s.len(),
{
    assert forall|k: int| 0 <= k < ts.len() implies k <= (#[trigger] ts[k]).span_start by {
        lemma_span_start_at_least(s, ts, k);
    }
    if ts.len() > 0 {
        assert(crate::lexer::token_fits(s, ts[ts.len() - 1]));
    }
}

proof fn lemma_span_start_at_least(s: Seq<char>, ts: Seq<TokenView>, k: int)
    requires
        tokens_in_order(s, ts),
        0 <= k < ts.len(),
    ensures
        k <= ts[k].span_start,
    decreases k,
{
    if k > 0 {
        lemma_span_start_at_least(s, ts, k - 1);
        assert(ts[k - 1].span_end <= ts[k].span_start);
        assert(crate::lexer::token_fits(s, ts[k - 1]));
    }
}

/// Lexing any source and parsing the tokens gives sound trees and errors:
/// every token position they name lies within the tokens, and each tree
/// position holds a token of the kind its place needs.
pub proof fn lemma_lex_parse_sound(s: Seq<char>)
    requires
        s.len() < usize::MAX,
    ensures
        stmts_ok(token_types(lex(s).tokens), parse_tokens(token_types(lex(s).tokens)).program),
        errors_in(token_types(lex(s).tokens), parse_tokens(token_types(lex(s).tokens)).errors),
{
    let toks = lex(s).tokens;
    lemma_lex_tokens(s);
    lemma_ordered_tokens_fit(s, toks.drop_last());
    let ts = token_types(toks);
    assert(ts.last() == TokenType::Eof);
    lemma_parse_sound(ts);
}

} // verus!
