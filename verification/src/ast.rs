//! The syntax tree built by the parser.
//!
//! Every node records the positions (indices into the token sequence) of
//! the tokens it was built from; names and literal values are read from
//! those tokens. [`ExprV`] and [`StmtV`] are the mathematical views of the
//! tree, in which lists are sequences.
use crate::token::{BinaryOp, LogicalOp, Token, UnaryOp};
use vstd::prelude::*;

verus! {

/// A parsed program together with the tokens its nodes refer to.
#[derive(Debug)]
pub struct Ast {
    pub tokens: Vec<Token>,
    pub program: Vec<Stmt>,
}

/// A statement.
#[derive(Debug)]
pub enum Stmt {
    Expr(Box<Expr>),
    If(Box<If>),
    RepeatTimes(Box<RepeatTimes>),
    RepeatUntil(Box<RepeatUntil>),
    ForEach(Box<ForEach>),
    ProcDeclaration(Box<ProcDeclaration>),
    Block(Box<Block>),
    Return(Box<Return>),
    Continue(Box<Continue>),
    Break(Box<Break>),
    Import(Box<Import>),
}

/// `IF (condition) then_branch [ELSE else_branch]`
#[derive(Debug)]
pub struct If {
    pub condition: Expr,
    pub then_branch: Stmt,
    pub else_branch: Option<Stmt>,
    pub if_token: usize,
    pub else_token: Option<usize>,
}

/// `REPEAT count TIMES body`
#[derive(Debug)]
pub struct RepeatTimes {
    pub count: Expr,
    pub body: Stmt,
    pub repeat_token: usize,
    pub times_token: usize,
    pub count_token: usize,
}

/// `REPEAT UNTIL (condition) body`
#[derive(Debug)]
pub struct RepeatUntil {
    pub condition: Expr,
    pub body: Stmt,
    pub repeat_token: usize,
    pub until_token: usize,
}

/// `FOR EACH item IN list body`
#[derive(Debug)]
pub struct ForEach {
    pub item: Variable,
    pub list: Expr,
    pub body: Stmt,
    pub item_token: usize,
    pub for_token: usize,
    pub each_token: usize,
    pub in_token: usize,
    pub list_token: usize,
}

/// `[EXPORT] PROCEDURE name (params) body`
#[derive(Debug)]
pub struct ProcDeclaration {
    pub params: Vec<Variable>,
    pub body: Stmt,
    pub exported: bool,
    pub proc_token: usize,
    pub name_token: usize,
}

/// `{ statements }`
#[derive(Debug)]
pub struct Block {
    pub lb_token: usize,
    pub statements: Vec<Stmt>,
    pub rb_token: usize,
}

/// `RETURN [value]`
#[derive(Debug)]
pub struct Return {
    pub token: usize,
    pub data: Option<Expr>,
}

/// `CONTINUE`
#[derive(Debug)]
pub struct Continue {
    pub token: usize,
}

/// `BREAK`
#[derive(Debug)]
pub struct Break {
    pub token: usize,
}

/// `IMPORT [functions FROM] MOD "module"`
#[derive(Debug)]
pub struct Import {
    pub import_token: usize,
    pub mod_token: usize,
    pub maybe_from_token: Option<usize>,
    pub only_functions: Option<Vec<usize>>,
    pub module_name: usize,
}

/// An expression.
#[derive(Debug)]
pub enum Expr {
    Literal(Box<ExprLiteral>),
    Binary(Box<Binary>),
    Logical(Box<Logical>),
    Unary(Box<Unary>),
    Grouping(Box<Grouping>),
    ProcCall(Box<ProcCall>),
    Access(Box<Access>),
    List(Box<List>),
    Variable(Box<Variable>),
    Assign(Box<Assignment>),
    SetItem(Box<SetItem>),
}

/// The kinds of literal; the value of a number or string is that of the
/// literal's token.
#[derive(Clone, Copy, Debug, PartialEq, Eq, Structural)]
pub enum Literal {
    Number,
    String,
    True,
    False,
    Null,
}

#[derive(Debug)]
pub struct ExprLiteral {
    pub value: Literal,
    pub token: usize,
}

#[derive(Debug)]
pub struct Binary {
    pub left: Expr,
    pub operator: BinaryOp,
    pub right: Expr,
    pub token: usize,
}

#[derive(Debug)]
pub struct Logical {
    pub left: Expr,
    pub operator: LogicalOp,
    pub right: Expr,
    pub token: usize,
}

#[derive(Debug)]
pub struct Unary {
    pub operator: UnaryOp,
    pub right: Expr,
    pub token: usize,
}

/// `( expr )`
#[derive(Debug)]
pub struct Grouping {
    pub expr: Expr,
    pub parens: (usize, usize),
}

/// `name(arguments)`; `arg_ends[k]` is the token just after argument `k`.
#[derive(Debug)]
pub struct ProcCall {
    pub arguments: Vec<Expr>,
    pub arg_ends: Vec<usize>,
    pub token: usize,
    pub parens: (usize, usize),
}

/// `list[key]`
#[derive(Debug)]
pub struct Access {
    pub list: Expr,
    pub list_token: usize,
    pub key: Expr,
    pub brackets: (usize, usize),
}

/// `[items]`
#[derive(Debug)]
pub struct List {
    pub items: Vec<Expr>,
    pub brackets: (usize, usize),
}

/// A use of a variable; its name is the lexeme of its token.
#[derive(Clone, Copy, Debug, PartialEq, Eq, Structural)]
pub struct Variable {
    pub token: usize,
}

/// `name <- value`
#[derive(Debug)]
pub struct Assignment {
    pub target: Variable,
    pub value: Expr,
    pub ident_token: usize,
    pub arrow_token: usize,
}

/// `list[key] <- value`
#[derive(Debug)]
pub struct SetItem {
    pub target: Access,
    pub value: Expr,
    pub arrow_token: usize,
}

// ---------------------------------------------------------------------------
// Views
// ---------------------------------------------------------------------------
/// The mathematical form of an expression.
pub enum ExprV {
    Literal { value: Literal, token: usize },
    Binary { left: Box<ExprV>, op: BinaryOp, right: Box<ExprV>, token: usize },
    Logical { left: Box<ExprV>, op: LogicalOp, right: Box<ExprV>, token: usize },
    Unary { op: UnaryOp, right: Box<ExprV>, token: usize },
    Grouping { expr: Box<ExprV>, lp: usize, rp: usize },
    ProcCall { token: usize, args: Seq<ExprV>, arg_ends: Seq<usize>, lp: usize, rp: usize },
    Access { list: Box<ExprV>, list_token: usize, key: Box<ExprV>, lb: usize, rb: usize },
    List { items: Seq<ExprV>, lb: usize, rb: usize },
    Variable { token: usize },
    Assign { target: usize, ident: usize, value: Box<ExprV>, arrow: usize },
    SetItem {
        list: Box<ExprV>,
        list_token: usize,
        key: Box<ExprV>,
        lb: usize,
        rb: usize,
        value: Box<ExprV>,
        arrow: usize,
    },
}

/// The mathematical form of a statement.
pub enum StmtV {
    Expr(ExprV),
    If {
        cond: ExprV,
        then_branch: Box<StmtV>,
        else_branch: Option<Box<StmtV>>,
        if_token: usize,
        else_token: Option<usize>,
    },
    RepeatTimes {
        count: ExprV,
        body: Box<StmtV>,
        repeat_token: usize,
        times_token: usize,
        count_token: usize,
    },
    RepeatUntil { cond: ExprV, body: Box<StmtV>, repeat_token: usize, until_token: usize },
    ForEach {
        item: usize,
        item_token: usize,
        list: ExprV,
        body: Box<StmtV>,
        for_token: usize,
        each_token: usize,
        in_token: usize,
        list_token: usize,
    },
    Proc {
        params: Seq<usize>,
        body: Box<StmtV>,
        exported: bool,
        proc_token: usize,
        name_token: usize,
    },
    Block { lb: usize, stmts: Seq<StmtV>, rb: usize },
    Return { token: usize, data: Option<ExprV> },
    Continue { token: usize },
    Break { token: usize },
    Import {
        import_token: usize,
        mod_token: usize,
        from_token: Option<usize>,
        only: Option<Seq<usize>>,
        module_name: usize,
    },
}

/// The view of an expression.
pub open spec fn expr_view(e: Expr) -> ExprV
    decreases e,
{
    match e {
        Expr::Literal(l) => ExprV::Literal { value: l.value, token: l.token },
        Expr::Binary(b) => ExprV::Binary {
            left: Box::new(expr_view(b.left)),
            op: b.operator,
            right: Box::new(expr_view(b.right)),
            token: b.token,
        },
        Expr::Logical(b) => ExprV::Logical {
            left: Box::new(expr_view(b.left)),
            op: b.operator,
            right: Box::new(expr_view(b.right)),
            token: b.token,
        },
        Expr::Unary(u) => ExprV::Unary {
            op: u.operator,
            right: Box::new(expr_view(u.right)),
            token: u.token,
        },
        Expr::Grouping(g) => ExprV::Grouping {
            expr: Box::new(expr_view(g.expr)),
            lp: g.parens.0,
            rp: g.parens.1,
        },
        Expr::ProcCall(p) => ExprV::ProcCall {
            token: p.token,
            args: Seq::new(
                p.arguments@.len(),
                |k: int|
                    if 0 <= k < p.arguments@.len() {
                        expr_view(p.arguments@[k])
                    } else {
                        ExprV::Variable { token: 0 }
                    },
            ),
            arg_ends: p.arg_ends@,
            lp: p.parens.0,
            rp: p.parens.1,
        },
        Expr::Access(a) => ExprV::Access {
            list: Box::new(expr_view(a.list)),
            list_token: a.list_token,
            key: Box::new(expr_view(a.key)),
            lb: a.brackets.0,
            rb: a.brackets.1,
        },
        Expr::List(l) => ExprV::List {
            items: Seq::new(
                l.items@.len(),
                |k: int|
                    if 0 <= k < l.items@.len() {
                        expr_view(l.items@[k])
                    } else {
                        ExprV::Variable { token: 0 }
                    },
            ),
            lb: l.brackets.0,
            rb: l.brackets.1,
        },
        Expr::Variable(v) => ExprV::Variable { token: v.token },
        Expr::Assign(a) => ExprV::Assign {
            target: a.target.token,
            ident: a.ident_token,
            value: Box::new(expr_view(a.value)),
            arrow: a.arrow_token,
        },
        Expr::SetItem(s) => ExprV::SetItem {
            list: Box::new(expr_view(s.target.list)),
            list_token: s.target.list_token,
            key: Box::new(expr_view(s.target.key)),
            lb: s.target.brackets.0,
            rb: s.target.brackets.1,
            value: Box::new(expr_view(s.value)),
            arrow: s.arrow_token,
        },
    }
}

/// The views of a sequence of expressions.
pub open spec fn exprs_view(es: Seq<Expr>) -> Seq<ExprV> {
    Seq::new(es.len(), |k: int| expr_view(es[k]))
}

/// The view of a statement.
pub open spec fn stmt_view(s: Stmt) -> StmtV
    decreases s,
{
    match s {
        Stmt::Expr(e) => StmtV::Expr(expr_view(*e)),
        Stmt::If(i) => StmtV::If {
            cond: expr_view(i.condition),
            then_branch: Box::new(stmt_view(i.then_branch)),
            else_branch: match i.else_branch {
                Some(e) => Some(Box::new(stmt_view(e))),
                None => None,
            },
            if_token: i.if_token,
            else_token: i.else_token,
        },
        Stmt::RepeatTimes(r) => StmtV::RepeatTimes {
            count: expr_view(r.count),
            body: Box::new(stmt_view(r.body)),
            repeat_token: r.repeat_token,
            times_token: r.times_token,
            count_token: r.count_token,
        },
        Stmt::RepeatUntil(r) => StmtV::RepeatUntil {
            cond: expr_view(r.condition),
            body: Box::new(stmt_view(r.body)),
            repeat_token: r.repeat_token,
            until_token: r.until_token,
        },
        Stmt::ForEach(f) => StmtV::ForEach {
            item: f.item.token,
            item_token: f.item_token,
            list: expr_view(f.list),
            body: Box::new(stmt_view(f.body)),
            for_token: f.for_token,
            each_token: f.each_token,
            in_token: f.in_token,
            list_token: f.list_token,
        },
        Stmt::ProcDeclaration(p) => StmtV::Proc {
            params: param_tokens(p.params@),
            body: Box::new(stmt_view(p.body)),
            exported: p.exported,
            proc_token: p.proc_token,
            name_token: p.name_token,
        },
        Stmt::Block(b) => StmtV::Block {
            lb: b.lb_token,
            stmts: Seq::new(
                b.statements@.len(),
                |k: int|
                    if 0 <= k < b.statements@.len() {
                        stmt_view(b.statements@[k])
                    } else {
                        StmtV::Continue { token: 0 }
                    },
            ),
            rb: b.rb_token,
        },
        Stmt::Return(r) => StmtV::Return {
            token: r.token,
            data: match r.data {
                Some(e) => Some(expr_view(e)),
                None => None,
            },
        },
        Stmt::Continue(c) => StmtV::Continue { token: c.token },
        Stmt::Break(b) => StmtV::Break { token: b.token },
        Stmt::Import(i) => StmtV::Import {
            import_token: i.import_token,
            mod_token: i.mod_token,
            from_token: i.maybe_from_token,
            only: match i.only_functions {
                Some(v) => Some(v@),
                None => None,
            },
            module_name: i.module_name,
        },
    }
}

/// The token positions of a parameter list.
pub open spec fn param_tokens(ps: Seq<Variable>) -> Seq<usize> {
    Seq::new(ps.len(), |k: int| ps[k].token)
}

/// The views of a sequence of statements.
pub open spec fn stmts_view(ss: Seq<Stmt>) -> Seq<StmtV> {
    Seq::new(ss.len(), |k: int| stmt_view(ss[k]))
}

/// The arguments of a call, viewed, are the views of its argument list.
pub proof fn lemma_call_view(p: ProcCall)
    ensures
        expr_view(Expr::ProcCall(Box::new(p))) == (ExprV::ProcCall {
            token: p.token,
            args: exprs_view(p.arguments@),
            arg_ends: p.arg_ends@,
            lp: p.parens.0,
            rp: p.parens.1,
        }),
{
    let v = expr_view(Expr::ProcCall(Box::new(p)));
    if let ExprV::ProcCall { args, .. } = v {
        assert(args =~= exprs_view(p.arguments@));
    }
}

/// The items of a list literal, viewed, are the views of its item list.
pub proof fn lemma_list_view(l: List)
    ensures
        expr_view(Expr::List(Box::new(l))) == (ExprV::List {
            items: exprs_view(l.items@),
            lb: l.brackets.0,
            rb: l.brackets.1,
        }),
{
    let v = expr_view(Expr::List(Box::new(l)));
    if let ExprV::List { items, .. } = v {
        assert(items =~= exprs_view(l.items@));
    }
}

/// The statements of a block, viewed, are the views of its statement list.
pub proof fn lemma_block_view(b: Block)
    ensures
        stmt_view(Stmt::Block(Box::new(b))) == (StmtV::Block {
            lb: b.lb_token,
            stmts: stmts_view(b.statements@),
            rb: b.rb_token,
        }),
{
    let v = stmt_view(Stmt::Block(Box::new(b)));
    if let StmtV::Block { stmts, .. } = v {
        assert(stmts =~= stmts_view(b.statements@));
    }
}

} // verus!
