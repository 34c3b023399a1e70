//! Syntax tree of the tree-walking front end. Variable, assignment, `this`
//! and `super` expressions carry an `id` that the resolver annotates with
//! a scope depth.

use vstd::prelude::*;
use crate::token::{Literal, LiteralView, Token, TokenView, token_views};

verus! {

#[derive(Debug)]
pub enum Expr {
    Assign { name: Token, value: Box<Expr>, id: usize },
    Binary { left: Box<Expr>, op: Token, right: Box<Expr> },
    Call { callee: Box<Expr>, paren: Token, args: Vec<Expr> },
    Get { object: Box<Expr>, name: Token },
    Grouping(Box<Expr>),
    Literal(Literal),
    Logical { left: Box<Expr>, op: Token, right: Box<Expr> },
    SetField { object: Box<Expr>, name: Token, value: Box<Expr> },
    Super { keyword: Token, method: Token, id: usize },
    This { keyword: Token, id: usize },
    Unary { op: Token, right: Box<Expr> },
    Variable { name: Token, id: usize },
}

#[derive(Debug)]
pub enum Stmt {
    Block(Vec<Stmt>),
    Class { name: Token, superclass: Option<Expr>, methods: Vec<Stmt> },
    Expression(Expr),
    Function { name: Token, params: Vec<Token>, body: Vec<Stmt> },
    If { cond: Expr, then_branch: Box<Stmt>, else_branch: Option<Box<Stmt>> },
    Print(Expr),
    Return { keyword: Token, value: Option<Expr> },
    Var { name: Token, initializer: Option<Expr> },
    While { cond: Expr, body: Box<Stmt> },
}

/// Mathematical model of an expression.
pub enum ExprV {
    Assign { name: TokenView, value: Box<ExprV>, id: nat },
    Binary { left: Box<ExprV>, op: TokenView, right: Box<ExprV> },
    Call { callee: Box<ExprV>, paren: TokenView, args: Seq<ExprV> },
    Get { object: Box<ExprV>, name: TokenView },
    Grouping(Box<ExprV>),
    Literal(LiteralView),
    Logical { left: Box<ExprV>, op: TokenView, right: Box<ExprV> },
    SetField { object: Box<ExprV>, name: TokenView, value: Box<ExprV> },
    Super { keyword: TokenView, method: TokenView, id: nat },
    This { keyword: TokenView, id: nat },
    Unary { op: TokenView, right: Box<ExprV> },
    Variable { name: TokenView, id: nat },
}

/// Mathematical model of a statement.
pub enum StmtV {
    Block(Seq<StmtV>),
    Class { name: TokenView, superclass: Option<ExprV>, methods: Seq<StmtV> },
    Expression(ExprV),
    Function { name: TokenView, params: Seq<TokenView>, body: Seq<StmtV> },
    If { cond: ExprV, then_branch: Box<StmtV>, else_branch: Option<Box<StmtV>> },
    Print(ExprV),
    Return { keyword: TokenView, value: Option<ExprV> },
    Var { name: TokenView, initializer: Option<ExprV> },
    While { cond: ExprV, body: Box<StmtV> },
}

pub open spec fn expr_view(e: Expr) -> ExprV
    decreases e,
{
    match e {
        Expr::Assign { name, value, id } => ExprV::Assign { name: name@, value: Box::new(expr_view(*value)), id: id as nat },
        Expr::Binary { left, op, right } => ExprV::Binary {
            left: Box::new(expr_view(*left)),
            op: op@,
            right: Box::new(expr_view(*right)),
        },
        Expr::Call { callee, paren, args } => ExprV::Call {
            callee: Box::new(expr_view(*callee)),
            paren: paren@,
            args: exprs_view(args@),
        },
        Expr::Get { object, name } => ExprV::Get { object: Box::new(expr_view(*object)), name: name@ },
        Expr::Grouping(inner) => ExprV::Grouping(Box::new(expr_view(*inner))),
        Expr::Literal(l) => ExprV::Literal(l@),
        Expr::Logical { left, op, right } => ExprV::Logical {
            left: Box::new(expr_view(*left)),
            op: op@,
            right: Box::new(expr_view(*right)),
        },
        Expr::SetField { object, name, value } => ExprV::SetField {
            object: Box::new(expr_view(*object)),
            name: name@,
            value: Box::new(expr_view(*value)),
        },
        Expr::Super { keyword, method, id } => ExprV::Super { keyword: keyword@, method: method@, id: id as nat },
        Expr::This { keyword, id } => ExprV::This { keyword: keyword@, id: id as nat },
        Expr::Unary { op, right } => ExprV::Unary { op: op@, right: Box::new(expr_view(*right)) },
        Expr::Variable { name, id } => ExprV::Variable { name: name@, id: id as nat },
    }
}

pub open spec fn exprs_view(es: Seq<Expr>) -> Seq<ExprV>
    decreases es,
{
    if es.len() == 0 {
        Seq::empty()
    } else {
        seq![expr_view(es[0])] + exprs_view(es.drop_first())
    }
}

pub open spec fn option_expr_view(e: Option<Expr>) -> Option<ExprV> {
    match e {
        Some(x) => Some(expr_view(x)),
        None => None,
    }
}

pub open spec fn stmt_view(s: Stmt) -> StmtV
    decreases s,
{
    match s {
        Stmt::Block(v) => StmtV::Block(stmts_view(v@)),
        Stmt::Class { name, superclass, methods } => StmtV::Class {
            name: name@,
            superclass: option_expr_view(superclass),
            methods: stmts_view(methods@),
        },
        Stmt::Expression(e) => StmtV::Expression(expr_view(e)),
        Stmt::Function { name, params, body } => StmtV::Function {
            name: name@,
            params: token_views(params@),
            body: stmts_view(body@),
        },
        Stmt::If { cond, then_branch, else_branch } => StmtV::If {
            cond: expr_view(cond),
            then_branch: Box::new(stmt_view(*then_branch)),
            else_branch: match else_branch {
                Some(b) => Some(Box::new(stmt_view(*b))),
                None => None,
            },
        },
        Stmt::Print(e) => StmtV::Print(expr_view(e)),
        Stmt::Return { keyword, value } => StmtV::Return { keyword: keyword@, value: option_expr_view(value) },
        Stmt::Var { name, initializer } => StmtV::Var { name: name@, initializer: option_expr_view(initializer) },
        Stmt::While { cond, body } => StmtV::While { cond: expr_view(cond), body: Box::new(stmt_view(*body)) },
    }
}

pub open spec fn stmts_view(ss: Seq<Stmt>) -> Seq<StmtV>
    decreases ss,
{
    if ss.len() == 0 {
        Seq::empty()
    } else {
        seq![stmt_view(ss[0])] + stmts_view(ss.drop_first())
    }
}

impl View for Expr {
    type V = ExprV;

    open spec fn view(&self) -> ExprV {
        expr_view(*self)
    }
}

impl View for Stmt {
    type V = StmtV;

    open spec fn view(&self) -> StmtV {
        stmt_view(*self)
    }
}

pub proof fn lemma_exprs_view_len(es: Seq<Expr>)
    ensures
        exprs_view(es).len() == es.len(),
    decreases es.len(),
{
    if es.len() > 0 {
        lemma_exprs_view_len(es.drop_first());
    }
}

pub proof fn lemma_stmts_view_len(ss: Seq<Stmt>)
    ensures
        stmts_view(ss).len() == ss.len(),
    decreases ss.len(),
{
    if ss.len() > 0 {
        lemma_stmts_view_len(ss.drop_first());
    }
}

/// Appending to a sequence of expressions appends to its model.
pub proof fn lemma_exprs_view_push(es: Seq<Expr>, e: Expr)
    ensures
        exprs_view(es.push(e)) == exprs_view(es).push(expr_view(e)),
    decreases es.len(),
{
    if es.len() == 0 {
        assert(es.push(e).drop_first() =~= Seq::<Expr>::empty());
        assert(exprs_view(Seq::<Expr>::empty()) =~= Seq::<ExprV>::empty());
        assert(exprs_view(es.push(e)) =~= seq![expr_view(e)]);
    } else {
        assert(es.push(e).drop_first() =~= es.drop_first().push(e));
        lemma_exprs_view_push(es.drop_first(), e);
        assert(exprs_view(es.push(e)) =~= exprs_view(es).push(expr_view(e)));
    }
}

/// Appending to a sequence of statements appends to its model.
pub proof fn lemma_stmts_view_push(ss: Seq<Stmt>, s: Stmt)
    ensures
        stmts_view(ss.push(s)) == stmts_view(ss).push(stmt_view(s)),
    decreases ss.len(),
{
    if ss.len() == 0 {
        assert(ss.push(s).drop_first() =~= Seq::<Stmt>::empty());
        assert(stmts_view(Seq::<Stmt>::empty()) =~= Seq::<StmtV>::empty());
        assert(stmts_view(ss.push(s)) =~= seq![stmt_view(s)]);
    } else {
        assert(ss.push(s).drop_first() =~= ss.drop_first().push(s));
        lemma_stmts_view_push(ss.drop_first(), s);
        assert(stmts_view(ss.push(s)) =~= stmts_view(ss).push(stmt_view(s)));
    }
}

/// The resolver id of an expression, for the kinds that carry one.
pub open spec fn spec_expr_id(e: Expr) -> Option<usize> {
    match e {
        Expr::Assign { id, .. } => Some(id),
        Expr::Super { id, .. } => Some(id),
        Expr::This { id, .. } => Some(id),
        Expr::Variable { id, .. } => Some(id),
        _ => None,
    }
}

/// Returns the resolver-annotation id for the expressions that carry one.
pub fn expr_id(e: &Expr) -> (r: Option<usize>)
    ensures
        r == spec_expr_id(*e),
{
    match e {
        Expr::Assign { id, .. } | Expr::Super { id, .. } | Expr::This { id, .. } | Expr::Variable { id, .. } => Some(*id),
        _ => None,
    }
}

fn clone_tokens(ts: &Vec<Token>) -> (r: Vec<Token>)
    ensures
        token_views(r@) == token_views(ts@),
{
    let mut out: Vec<Token> = Vec::new();
    let mut i: usize = 0;
    while i < ts.len()
        invariant
            i <= ts.len(),
            token_views(out@) =~= token_views(ts@.take(i as int)),
        decreases ts.len() - i,
    {
        let ghost before = out@;
        let t = ts[i].clone_token();
        out.push(t);
        proof {
            assert(out@ == before.push(t));
            assert(ts@.take(i + 1) =~= ts@.take(i as int).push(ts@[i as int]));
            assert(token_views(out@) =~= token_views(before).push(t@));
            assert(token_views(ts@.take(i + 1)) =~= token_views(ts@.take(i as int)).push(ts@[i as int]@));
        }
        i = i + 1;
    }
    assert(ts@.take(i as int) =~= ts@);
    out
}

fn clone_exprs(es: &Vec<Expr>) -> (r: Vec<Expr>)
    ensures
        exprs_view(r@) == exprs_view(es@),
    decreases es@, 0int,
{
    let mut out: Vec<Expr> = Vec::new();
    let mut i: usize = 0;
    assert(es@.take(0) =~= Seq::<Expr>::empty());
    while i < es.len()
        invariant
            i <= es.len(),
            exprs_view(out@) == exprs_view(es@.take(i as int)),
        decreases es.len() - i,
    {
        proof {
            assert(decreases_to!(es@ => es@[i as int]));
        }
        let e = es[i].deep_clone();
        proof {
            lemma_exprs_view_push(out@, e);
            lemma_exprs_view_push(es@.take(i as int), es@[i as int]);
            assert(es@.take(i + 1) =~= es@.take(i as int).push(es@[i as int]));
        }
        out.push(e);
        i = i + 1;
    }
    assert(es@.take(i as int) =~= es@);
    out
}

fn clone_option_expr(e: &Option<Expr>) -> (r: Option<Expr>)
    ensures
        option_expr_view(r) == option_expr_view(*e),
{
    match e {
        Some(x) => Some(x.deep_clone()),
        None => None,
    }
}

impl Expr {
    /// A copy of the whole expression tree, with the same model.
    pub fn deep_clone(&self) -> (r: Expr)
        ensures
            r@ == self@,
        decreases self, 1int,
    {
        match self {
            Expr::Assign { name, value, id } => Expr::Assign {
                name: name.clone_token(),
                value: Box::new(value.deep_clone()),
                id: *id,
            },
            Expr::Binary { left, op, right } => Expr::Binary {
                left: Box::new(left.deep_clone()),
                op: op.clone_token(),
                right: Box::new(right.deep_clone()),
            },
            Expr::Call { callee, paren, args } => {
                proof {
                    assert(decreases_to!(*args => args@));
                }
                Expr::Call {
                    callee: Box::new(callee.deep_clone()),
                    paren: paren.clone_token(),
                    args: clone_exprs(args),
                }
            },
            Expr::Get { object, name } => Expr::Get {
                object: Box::new(object.deep_clone()),
                name: name.clone_token(),
            },
            Expr::Grouping(inner) => Expr::Grouping(Box::new(inner.deep_clone())),
            Expr::Literal(l) => Expr::Literal(l.clone_literal()),
            Expr::Logical { left, op, right } => Expr::Logical {
                left: Box::new(left.deep_clone()),
                op: op.clone_token(),
                right: Box::new(right.deep_clone()),
            },
            Expr::SetField { object, name, value } => Expr::SetField {
                object: Box::new(object.deep_clone()),
                name: name.clone_token(),
                value: Box::new(value.deep_clone()),
            },
            Expr::Super { keyword, method, id } => Expr::Super {
                keyword: keyword.clone_token(),
                method: method.clone_token(),
                id: *id,
            },
            Expr::This { keyword, id } => Expr::This { keyword: keyword.clone_token(), id: *id },
            Expr::Unary { op, right } => Expr::Unary { op: op.clone_token(), right: Box::new(right.deep_clone()) },
            Expr::Variable { name, id } => Expr::Variable { name: name.clone_token(), id: *id },
        }
    }
}

fn clone_stmts(ss: &Vec<Stmt>) -> (r: Vec<Stmt>)
    ensures
        stmts_view(r@) == stmts_view(ss@),
    decreases ss@, 0int,
{
    let mut out: Vec<Stmt> = Vec::new();
    let mut i: usize = 0;
    assert(ss@.take(0) =~= Seq::<Stmt>::empty());
    while i < ss.len()
        invariant
            i <= ss.len(),
            stmts_view(out@) == stmts_view(ss@.take(i as int)),
        decreases ss.len() - i,
    {
        proof {
            assert(decreases_to!(ss@ => ss@[i as int]));
        }
        let s = ss[i].deep_clone();
        proof {
            lemma_stmts_view_push(out@, s);
            lemma_stmts_view_push(ss@.take(i as int), ss@[i as int]);
            assert(ss@.take(i + 1) =~= ss@.take(i as int).push(ss@[i as int]));
        }
        out.push(s);
        i = i + 1;
    }
    assert(ss@.take(i as int) =~= ss@);
    out
}

impl Stmt {
    /// A copy of the whole statement tree, with the same model.
    pub fn deep_clone(&self) -> (r: Stmt)
        ensures
            r@ == self@,
        decreases self, 1int,
    {
        match self {
            Stmt::Block(v) => {
                proof {
                    assert(decreases_to!(*v => v@));
                }
                Stmt::Block(clone_stmts(v))
            },
            Stmt::Class { name, superclass, methods } => {
                proof {
                    assert(decreases_to!(*methods => methods@));
                }
                Stmt::Class {
                    name: name.clone_token(),
                    superclass: clone_option_expr(superclass),
                    methods: clone_stmts(methods),
                }
            },
            Stmt::Expression(e) => Stmt::Expression(e.deep_clone()),
            Stmt::Function { name, params, body } => {
                proof {
                    assert(decreases_to!(*body => body@));
                }
                Stmt::Function { name: name.clone_token(), params: clone_tokens(params), body: clone_stmts(body) }
            },
            Stmt::If { cond, then_branch, else_branch } => {
                let else_copy = match else_branch {
                    Some(b) => Some(Box::new(b.deep_clone())),
                    None => None,
                };
                Stmt::If { cond: cond.deep_clone(), then_branch: Box::new(then_branch.deep_clone()), else_branch: else_copy }
            },
            Stmt::Print(e) => Stmt::Print(e.deep_clone()),
            Stmt::Return { keyword, value } => Stmt::Return {
                keyword: keyword.clone_token(),
                value: clone_option_expr(value),
            },
            Stmt::Var { name, initializer } => Stmt::Var {
                name: name.clone_token(),
                initializer: clone_option_expr(initializer),
            },
            Stmt::While { cond, body } => Stmt::While { cond: cond.deep_clone(), body: Box::new(body.deep_clone()) },
        }
    }
}

} // verus!
