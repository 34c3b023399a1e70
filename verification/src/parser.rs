//! Recursive-descent parser of the tree-walking front end.
//!
//! Turns the scanner's tokens into statements. Every syntax error is
//! collected; after each one the parser skips to a likely statement
//! boundary and goes on, so that later declarations are still checked.
//!
//! The grammar is stated below as spec functions over the token models:
//! each rule takes the position of the next unread token and the next
//! unused expression id, and gives a `Step`: the rule's outcome, the
//! position after it and the next unused id. The executable parser is
//! proved to follow these rules exactly.
//!
//! Positions never move backwards (the executable functions prove it);
//! where a rule goes on from a position that an inner rule returned, it
//! states that fact as a guard (`forward`), which keeps the recursion
//! well founded and never fails for the parser's actual steps.

use vstd::prelude::*;
use crate::ast::{
    option_expr_view, Expr, ExprV, Stmt, StmtV, exprs_view, stmts_view, lemma_exprs_view_push, lemma_stmts_view_push,
    lemma_exprs_view_len, lemma_stmts_view_len,
};
use crate::error::{LoxError, LoxErrorView, error_views};
use crate::token::{Literal, LiteralView, Token, TokenType, TokenView, token_views};
use crate::text::string_of;

verus! {

/// The outcome of a grammar rule, with the position and the id counter
/// after it.
pub struct Step<T> {
    pub val: Result<T, LoxErrorView>,
    pub pos: nat,
    pub id: nat,
}

pub open spec fn ok<T>(v: T, pos: nat, id: nat) -> Step<T> {
    Step { val: Ok(v), pos, id }
}

pub open spec fn fail<T>(e: LoxErrorView, pos: nat, id: nat) -> Step<T> {
    Step { val: Err(e), pos, id }
}

/// `to` is no earlier than `from` and still within the tokens.
pub open spec fn forward(ts: Seq<TokenView>, from: nat, to: nat) -> bool {
    from <= to && to < ts.len()
}

/// No token is left to read: the end-of-file token (or the last token)
/// is next.
pub open spec fn at_end(ts: Seq<TokenView>, pos: nat) -> bool {
    pos + 1 >= ts.len() || ts[pos as int].ttype == TokenType::Eof
}

/// The next token is of kind `tt` (never the end-of-file token).
pub open spec fn check(ts: Seq<TokenView>, pos: nat, tt: TokenType) -> bool {
    !at_end(ts, pos) && ts[pos as int].ttype == tt
}

/// Where a syntax error is reported: ` at end`, or ` at '<lexeme>'`.
pub open spec fn location(t: TokenView) -> Seq<char> {
    if t.ttype == TokenType::Eof {
        " at end"@
    } else {
        " at '"@ + t.lexeme + "'"@
    }
}

pub open spec fn error_at(t: TokenView, msg: Seq<char>) -> LoxErrorView {
    LoxErrorView::Syntax(t.line, location(t), msg)
}

/// The error reported at the token at `pos`.
pub open spec fn error_here(ts: Seq<TokenView>, pos: nat, msg: Seq<char>) -> LoxErrorView {
    error_at(ts[pos as int], msg)
}

// ----- expressions -----

/// Binding levels of the binary operators, loosest first: `or`, `and`,
/// equality, comparison, terms, factors.
pub open spec fn level_op(level: nat, tt: TokenType) -> bool {
    if level == 0 {
        tt == TokenType::Or
    } else if level == 1 {
        tt == TokenType::And
    } else if level == 2 {
        tt == TokenType::BangEqual || tt == TokenType::EqualEqual
    } else if level == 3 {
        tt == TokenType::Greater || tt == TokenType::GreaterEqual || tt == TokenType::Less
            || tt == TokenType::LessEqual
    } else if level == 4 {
        tt == TokenType::Minus || tt == TokenType::Plus
    } else {
        tt == TokenType::Slash || tt == TokenType::Star
    }
}

/// `-` and `+` bind at one and the same level, `*` and `/` at one and the
/// same level, and that of `-` is strictly looser than that of `*`: in
/// `a - b * c` the product is the right operand of the subtraction. Each
/// of them binds at some level.
pub proof fn lemma_terms_looser_than_factors(l1: nat, l2: nat)
    ensures
        level_op(l1, TokenType::Minus) <==> level_op(l1, TokenType::Plus),
        level_op(l1, TokenType::Star) <==> level_op(l1, TokenType::Slash),
        level_op(l1, TokenType::Minus) && level_op(l2, TokenType::Minus) ==> l1 == l2,
        level_op(l1, TokenType::Minus) && level_op(l2, TokenType::Star) ==> l1 < l2,
        level_op(l1, TokenType::Minus) && level_op(l2, TokenType::Less) ==> l2 < l1,
        exists|l: nat| level_op(l, TokenType::Minus),
        exists|l: nat| level_op(l, TokenType::Star),
{
    assert(level_op(4, TokenType::Minus));
    assert(level_op(5, TokenType::Star));
}

pub open spec fn bin_rank(level: nat) -> int {
    if level >= 5 {
        5
    } else {
        5 + 3 * (5 - level)
    }
}

/// The node of one binary step: logical for `or` and `and`, else binary.
pub open spec fn combine(level: nat, left: ExprV, op: TokenView, right: ExprV) -> ExprV {
    if level <= 1 {
        ExprV::Logical { left: Box::new(left), op, right: Box::new(right) }
    } else {
        ExprV::Binary { left: Box::new(left), op, right: Box::new(right) }
    }
}

/// expression → assignment ; assignment → ( call "." )? IDENTIFIER "=" assignment | logic_or
pub open spec fn p_expression(ts: Seq<TokenView>, pos: nat, id: nat) -> Step<ExprV>
    decreases ts.len() - pos, 21int,
{
    let l = p_binary(ts, pos, id, 0);
    match l.val {
        Err(_) => l,
        Ok(target) => if forward(ts, pos, l.pos) && check(ts, l.pos, TokenType::Equal) {
            let v = p_expression(ts, l.pos + 1, l.id);
            match v.val {
                Err(_) => v,
                Ok(value) => match target {
                    ExprV::Variable { name, .. } => ok(
                        ExprV::Assign { name, value: Box::new(value), id: v.id },
                        v.pos,
                        v.id + 1,
                    ),
                    ExprV::Get { object, name } => ok(
                        ExprV::SetField { object, name, value: Box::new(value) },
                        v.pos,
                        v.id,
                    ),
                    _ => fail(error_here(ts, l.pos, "Invalid assignment target."@), v.pos, v.id),
                },
            }
        } else {
            l
        },
    }
}

/// The operand of a binary level: the next tighter level, or a unary
/// expression below factors.
pub open spec fn p_operand(ts: Seq<TokenView>, pos: nat, id: nat, level: nat) -> Step<ExprV>
    decreases ts.len() - pos, bin_rank(level) - 1,
{
    if level >= 5 {
        p_unary(ts, pos, id)
    } else {
        p_binary(ts, pos, id, level + 1)
    }
}

/// One binary level: operand ( op operand )*, left-associative.
pub open spec fn p_binary(ts: Seq<TokenView>, pos: nat, id: nat, level: nat) -> Step<ExprV>
    decreases ts.len() - pos, bin_rank(level),
{
    let l = p_operand(ts, pos, id, level);
    match l.val {
        Err(_) => l,
        Ok(left) => if forward(ts, pos, l.pos) {
            p_binary_loop(ts, left, l.pos, l.id, level)
        } else {
            l
        },
    }
}

pub open spec fn p_binary_loop(ts: Seq<TokenView>, left: ExprV, pos: nat, id: nat, level: nat) -> Step<ExprV>
    decreases ts.len() - pos, bin_rank(level) - 1,
{
    if !at_end(ts, pos) && level_op(level, ts[pos as int].ttype) {
        let r = p_operand(ts, pos + 1, id, level);
        match r.val {
            Err(_) => r,
            Ok(right) => if forward(ts, pos + 1, r.pos) {
                p_binary_loop(ts, combine(level, left, ts[pos as int], right), r.pos, r.id, level)
            } else {
                r
            },
        }
    } else {
        ok(left, pos, id)
    }
}

/// unary → ( "!" | "-" ) unary | call
pub open spec fn p_unary(ts: Seq<TokenView>, pos: nat, id: nat) -> Step<ExprV>
    decreases ts.len() - pos, 3int,
{
    if check(ts, pos, TokenType::Bang) || check(ts, pos, TokenType::Minus) {
        let r = p_unary(ts, pos + 1, id);
        match r.val {
            Err(_) => r,
            Ok(right) => ok(ExprV::Unary { op: ts[pos as int], right: Box::new(right) }, r.pos, r.id),
        }
    } else {
        p_call(ts, pos, id)
    }
}

/// call → primary ( "(" arguments? ")" | "." IDENTIFIER )*
pub open spec fn p_call(ts: Seq<TokenView>, pos: nat, id: nat) -> Step<ExprV>
    decreases ts.len() - pos, 2int,
{
    let p = p_primary(ts, pos, id);
    match p.val {
        Err(_) => p,
        Ok(e) => if forward(ts, pos, p.pos) {
            p_call_loop(ts, e, p.pos, p.id)
        } else {
            p
        },
    }
}

pub open spec fn p_call_loop(ts: Seq<TokenView>, callee: ExprV, pos: nat, id: nat) -> Step<ExprV>
    decreases ts.len() - pos, 1int,
{
    if check(ts, pos, TokenType::LeftParen) {
        let c = p_finish_call(ts, callee, pos + 1, id);
        match c.val {
            Err(_) => c,
            Ok(e) => if forward(ts, pos + 1, c.pos) {
                p_call_loop(ts, e, c.pos, c.id)
            } else {
                c
            },
        }
    } else if check(ts, pos, TokenType::Dot) {
        if check(ts, pos + 1, TokenType::Identifier) {
            p_call_loop(
                ts,
                ExprV::Get { object: Box::new(callee), name: ts[pos + 1 as int] },
                pos + 2,
                id,
            )
        } else {
            fail(error_here(ts, pos + 1, "Expect property name after '.'."@), pos + 1, id)
        }
    } else {
        ok(callee, pos, id)
    }
}

/// The argument list of a call, after its `(`.
pub open spec fn p_finish_call(ts: Seq<TokenView>, callee: ExprV, pos: nat, id: nat) -> Step<ExprV>
    decreases ts.len() - pos, 23int,
{
    if check(ts, pos, TokenType::RightParen) {
        ok(ExprV::Call { callee: Box::new(callee), paren: ts[pos as int], args: Seq::empty() }, pos + 1, id)
    } else {
        p_args(ts, callee, Seq::empty(), pos, id)
    }
}

pub open spec fn p_args(ts: Seq<TokenView>, callee: ExprV, args: Seq<ExprV>, pos: nat, id: nat) -> Step<ExprV>
    decreases ts.len() - pos, 22int,
{
    if args.len() >= 255 {
        fail(error_here(ts, pos, "Can't have more than 255 arguments."@), pos, id)
    } else {
        let a = p_expression(ts, pos, id);
        match a.val {
            Err(_) => a,
            Ok(x) => if forward(ts, pos, a.pos) && check(ts, a.pos, TokenType::Comma) {
                p_args(ts, callee, args.push(x), a.pos + 1, a.id)
            } else if check(ts, a.pos, TokenType::RightParen) {
                ok(
                    ExprV::Call { callee: Box::new(callee), paren: ts[a.pos as int], args: args.push(x) },
                    a.pos + 1,
                    a.id,
                )
            } else {
                fail(error_here(ts, a.pos, "Expect ')' after arguments."@), a.pos, a.id)
            },
        }
    }
}

/// The literal of a number or string token.
pub open spec fn literal_of(t: TokenView) -> LiteralView {
    match t.literal {
        Some(l) => l,
        None => LiteralView::Nil,
    }
}

/// primary → "true" | "false" | "nil" | NUMBER | STRING | "this" | IDENTIFIER
///         | "(" expression ")" | "super" "." IDENTIFIER
pub open spec fn p_primary(ts: Seq<TokenView>, pos: nat, id: nat) -> Step<ExprV>
    decreases ts.len() - pos, 1int,
{
    if check(ts, pos, TokenType::False) {
        ok(ExprV::Literal(LiteralView::Bool(false)), pos + 1, id)
    } else if check(ts, pos, TokenType::True) {
        ok(ExprV::Literal(LiteralView::Bool(true)), pos + 1, id)
    } else if check(ts, pos, TokenType::Nil) {
        ok(ExprV::Literal(LiteralView::Nil), pos + 1, id)
    } else if check(ts, pos, TokenType::Number) || check(ts, pos, TokenType::String) {
        ok(ExprV::Literal(literal_of(ts[pos as int])), pos + 1, id)
    } else if check(ts, pos, TokenType::Super) {
        if !check(ts, pos + 1, TokenType::Dot) {
            fail(error_here(ts, pos + 1, "Expect '.' after 'super'."@), pos + 1, id)
        } else if !check(ts, pos + 2, TokenType::Identifier) {
            fail(error_here(ts, pos + 2, "Expect superclass method name."@), pos + 2, id)
        } else {
            ok(ExprV::Super { keyword: ts[pos as int], method: ts[pos + 2 as int], id }, pos + 3, id + 1)
        }
    } else if check(ts, pos, TokenType::This) {
        ok(ExprV::This { keyword: ts[pos as int], id }, pos + 1, id + 1)
    } else if check(ts, pos, TokenType::Identifier) {
        ok(ExprV::Variable { name: ts[pos as int], id }, pos + 1, id + 1)
    } else if check(ts, pos, TokenType::LeftParen) {
        let e = p_expression(ts, pos + 1, id);
        match e.val {
            Err(_) => e,
            Ok(x) => if check(ts, e.pos, TokenType::RightParen) {
                ok(ExprV::Grouping(Box::new(x)), e.pos + 1, e.id)
            } else {
                fail(error_here(ts, e.pos, "Expect ')' after expression."@), e.pos, e.id)
            },
        }
    } else {
        fail(error_here(ts, pos, "Expect expression."@), pos, id)
    }
}

// ----- statements -----

/// An expression followed by `;`: an expression statement, or (with
/// `expression_stmt` false) a print statement after its keyword.
pub open spec fn p_simple(ts: Seq<TokenView>, pos: nat, id: nat, expression_stmt: bool) -> Step<StmtV>
    decreases ts.len() - pos, 24int,
{
    let e = p_expression(ts, pos, id);
    match e.val {
        Err(err) => fail(err, e.pos, e.id),
        Ok(x) => if check(ts, e.pos, TokenType::Semicolon) {
            ok(if expression_stmt { StmtV::Expression(x) } else { StmtV::Print(x) }, e.pos + 1, e.id)
        } else {
            fail(
                error_here(
                    ts,
                    e.pos,
                    if expression_stmt { "Expect ';' after expression."@ } else { "Expect ';' after value."@ },
                ),
                e.pos,
                e.id,
            )
        },
    }
}

/// returnStmt → "return" expression? ";" (after the keyword)
pub open spec fn p_return(ts: Seq<TokenView>, keyword: TokenView, pos: nat, id: nat) -> Step<StmtV>
    decreases ts.len() - pos, 24int,
{
    if check(ts, pos, TokenType::Semicolon) {
        ok(StmtV::Return { keyword, value: None }, pos + 1, id)
    } else {
        let e = p_expression(ts, pos, id);
        match e.val {
            Err(err) => fail(err, e.pos, e.id),
            Ok(x) => if check(ts, e.pos, TokenType::Semicolon) {
                ok(StmtV::Return { keyword, value: Some(x) }, e.pos + 1, e.id)
            } else {
                fail(error_here(ts, e.pos, "Expect ';' after return value."@), e.pos, e.id)
            },
        }
    }
}

pub open spec fn var_end(ts: Seq<TokenView>, name: TokenView, init: Option<ExprV>, pos: nat, id: nat) -> Step<StmtV> {
    if check(ts, pos, TokenType::Semicolon) {
        ok(StmtV::Var { name, initializer: init }, pos + 1, id)
    } else {
        fail(error_here(ts, pos, "Expect ';' after variable declaration."@), pos, id)
    }
}

/// varDecl → "var" IDENTIFIER ( "=" expression )? ";" (after `var`)
pub open spec fn p_var(ts: Seq<TokenView>, pos: nat, id: nat) -> Step<StmtV>
    decreases ts.len() - pos, 24int,
{
    if !check(ts, pos, TokenType::Identifier) {
        fail(error_here(ts, pos, "Expect variable name."@), pos, id)
    } else if check(ts, pos + 1, TokenType::Equal) {
        let e = p_expression(ts, pos + 2, id);
        match e.val {
            Err(err) => fail(err, e.pos, e.id),
            Ok(x) => var_end(ts, ts[pos as int], Some(x), e.pos, e.id),
        }
    } else {
        var_end(ts, ts[pos as int], None, pos + 1, id)
    }
}

/// ifStmt → "if" "(" expression ")" statement ( "else" statement )? (after `if`)
pub open spec fn p_if(ts: Seq<TokenView>, pos: nat, id: nat) -> Step<StmtV>
    decreases ts.len() - pos, 24int,
{
    if !check(ts, pos, TokenType::LeftParen) {
        fail(error_here(ts, pos, "Expect '(' after 'if'."@), pos, id)
    } else {
        let c = p_expression(ts, pos + 1, id);
        match c.val {
            Err(err) => fail(err, c.pos, c.id),
            Ok(cond) => if !(check(ts, c.pos, TokenType::RightParen) && forward(ts, pos + 1, c.pos)) {
                fail(error_here(ts, c.pos, "Expect ')' after if condition."@), c.pos, c.id)
            } else {
                let t = p_statement(ts, c.pos + 1, c.id);
                match t.val {
                    Err(_) => t,
                    Ok(then_b) => if forward(ts, c.pos + 1, t.pos) && check(ts, t.pos, TokenType::Else) {
                        let el = p_statement(ts, t.pos + 1, t.id);
                        match el.val {
                            Err(_) => el,
                            Ok(else_b) => ok(
                                StmtV::If {
                                    cond,
                                    then_branch: Box::new(then_b),
                                    else_branch: Some(Box::new(else_b)),
                                },
                                el.pos,
                                el.id,
                            ),
                        }
                    } else {
                        ok(StmtV::If { cond, then_branch: Box::new(then_b), else_branch: None }, t.pos, t.id)
                    },
                }
            },
        }
    }
}

/// whileStmt → "while" "(" expression ")" statement (after `while`)
pub open spec fn p_while(ts: Seq<TokenView>, pos: nat, id: nat) -> Step<StmtV>
    decreases ts.len() - pos, 24int,
{
    if !check(ts, pos, TokenType::LeftParen) {
        fail(error_here(ts, pos, "Expect '(' after 'while'."@), pos, id)
    } else {
        let c = p_expression(ts, pos + 1, id);
        match c.val {
            Err(err) => fail(err, c.pos, c.id),
            Ok(cond) => if !(check(ts, c.pos, TokenType::RightParen) && forward(ts, pos + 1, c.pos)) {
                fail(error_here(ts, c.pos, "Expect ')' after condition."@), c.pos, c.id)
            } else {
                let b = p_statement(ts, c.pos + 1, c.id);
                match b.val {
                    Err(_) => b,
                    Ok(body) => ok(StmtV::While { cond, body: Box::new(body) }, b.pos, b.id),
                }
            },
        }
    }
}

/// The `while` loop a `for` statement stands for.
pub open spec fn desugar_for(init: Option<StmtV>, cond: Option<ExprV>, inc: Option<ExprV>, body: StmtV) -> StmtV {
    let body1 = match inc {
        Some(i) => StmtV::Block(seq![body, StmtV::Expression(i)]),
        None => body,
    };
    let c = match cond {
        Some(c) => c,
        None => ExprV::Literal(LiteralView::Bool(true)),
    };
    let w = StmtV::While { cond: c, body: Box::new(body1) };
    match init {
        Some(s) => StmtV::Block(seq![s, w]),
        None => w,
    }
}

pub open spec fn option_stmt_view(s: Option<Stmt>) -> Option<StmtV> {
    match s {
        Some(x) => Some(x@),
        None => None,
    }
}

pub open spec fn some_stmt(s: Step<StmtV>) -> Step<Option<StmtV>> {
    match s.val {
        Ok(x) => ok(Some(x), s.pos, s.id),
        Err(e) => fail(e, s.pos, s.id),
    }
}

pub open spec fn some_expr(s: Step<ExprV>) -> Step<Option<ExprV>> {
    match s.val {
        Ok(x) => ok(Some(x), s.pos, s.id),
        Err(e) => fail(e, s.pos, s.id),
    }
}

/// forStmt → "for" "(" ( varDecl | exprStmt | ";" ) expression? ";"
///           expression? ")" statement (after `for`)
pub open spec fn p_for(ts: Seq<TokenView>, pos: nat, id: nat) -> Step<StmtV>
    decreases ts.len() - pos, 24int,
{
    if !check(ts, pos, TokenType::LeftParen) {
        fail(error_here(ts, pos, "Expect '(' after 'for'."@), pos, id)
    } else {
        let p1 = pos + 1;
        let init = if check(ts, p1, TokenType::Semicolon) {
            ok(None, p1 + 1, id)
        } else if check(ts, p1, TokenType::Var) {
            some_stmt(p_var(ts, p1 + 1, id))
        } else {
            some_stmt(p_simple(ts, p1, id, true))
        };
        match init.val {
            Err(err) => fail(err, init.pos, init.id),
            Ok(initializer) => if forward(ts, p1, init.pos) {
                p_for_rest(ts, initializer, init.pos, init.id)
            } else {
                fail(error_here(ts, init.pos, "Expect ';' after loop condition."@), init.pos, init.id)
            },
        }
    }
}

/// The condition, increment and body of a `for` statement.
pub open spec fn p_for_rest(ts: Seq<TokenView>, initializer: Option<StmtV>, pos: nat, id: nat) -> Step<StmtV>
    decreases ts.len() - pos, 24int,
{
    let c = if !check(ts, pos, TokenType::Semicolon) {
        some_expr(p_expression(ts, pos, id))
    } else {
        ok(None, pos, id)
    };
    match c.val {
        Err(err) => fail(err, c.pos, c.id),
        Ok(cond) => if !(check(ts, c.pos, TokenType::Semicolon) && forward(ts, pos, c.pos)) {
            fail(error_here(ts, c.pos, "Expect ';' after loop condition."@), c.pos, c.id)
        } else {
            let r = c.pos + 1;
            let inc = if !check(ts, r, TokenType::RightParen) {
                some_expr(p_expression(ts, r, c.id))
            } else {
                ok(None, r, c.id)
            };
            match inc.val {
                Err(err) => fail(err, inc.pos, inc.id),
                Ok(increment) => if !(check(ts, inc.pos, TokenType::RightParen) && forward(ts, r, inc.pos)) {
                    fail(error_here(ts, inc.pos, "Expect ')' after for clauses."@), inc.pos, inc.id)
                } else {
                    let b = p_statement(ts, inc.pos + 1, inc.id);
                    match b.val {
                        Err(_) => b,
                        Ok(body) => ok(desugar_for(initializer, cond, increment, body), b.pos, b.id),
                    }
                },
            }
        },
    }
}

/// The declarations of a block up to and with its `}` (after the `{`).
pub open spec fn p_block(ts: Seq<TokenView>, acc: Seq<StmtV>, pos: nat, id: nat) -> Step<Seq<StmtV>>
    decreases ts.len() - pos, 27int,
{
    if !check(ts, pos, TokenType::RightBrace) && !at_end(ts, pos) {
        let d = p_declaration(ts, pos, id);
        match d.val {
            Err(err) => fail(err, d.pos, d.id),
            Ok(s) => if pos < d.pos && d.pos < ts.len() {
                p_block(ts, acc.push(s), d.pos, d.id)
            } else {
                ok(acc, d.pos, d.id)
            },
        }
    } else if check(ts, pos, TokenType::RightBrace) {
        ok(acc, pos + 1, id)
    } else {
        fail(error_here(ts, pos, "Expect '}' after block."@), pos, id)
    }
}

pub open spec fn block_stmt(b: Step<Seq<StmtV>>) -> Step<StmtV> {
    match b.val {
        Err(err) => fail(err, b.pos, b.id),
        Ok(v) => ok(StmtV::Block(v), b.pos, b.id),
    }
}

/// statement → forStmt | ifStmt | printStmt | returnStmt | whileStmt
///           | block | exprStmt
pub open spec fn p_statement(ts: Seq<TokenView>, pos: nat, id: nat) -> Step<StmtV>
    decreases ts.len() - pos, 25int,
{
    if check(ts, pos, TokenType::For) {
        p_for(ts, pos + 1, id)
    } else if check(ts, pos, TokenType::If) {
        p_if(ts, pos + 1, id)
    } else if check(ts, pos, TokenType::Print) {
        p_simple(ts, pos + 1, id, false)
    } else if check(ts, pos, TokenType::Return) {
        p_return(ts, ts[pos as int], pos + 1, id)
    } else if check(ts, pos, TokenType::While) {
        p_while(ts, pos + 1, id)
    } else if check(ts, pos, TokenType::LeftBrace) {
        block_stmt(p_block(ts, Seq::empty(), pos + 1, id))
    } else {
        p_simple(ts, pos, id, true)
    }
}

/// The parameter names of a function, up to (not with) the `)`.
pub open spec fn p_params(ts: Seq<TokenView>, params: Seq<TokenView>, pos: nat, id: nat) -> Step<Seq<TokenView>>
    decreases ts.len() - pos,
{
    if params.len() >= 255 {
        fail(error_here(ts, pos, "Can't have more than 255 parameters."@), pos, id)
    } else if !check(ts, pos, TokenType::Identifier) {
        fail(error_here(ts, pos, "Expect parameter name."@), pos, id)
    } else if check(ts, pos + 1, TokenType::Comma) {
        p_params(ts, params.push(ts[pos as int]), pos + 2, id)
    } else {
        ok(params.push(ts[pos as int]), pos + 1, id)
    }
}

pub open spec fn function_from(name: TokenView, params: Seq<TokenView>, b: Step<Seq<StmtV>>) -> Step<StmtV> {
    match b.val {
        Err(err) => fail(err, b.pos, b.id),
        Ok(body) => ok(StmtV::Function { name, params, body }, b.pos, b.id),
    }
}

/// The parameter list after a function's `(`: empty when `)` follows.
pub open spec fn p_parameters(ts: Seq<TokenView>, pos: nat, id: nat) -> Step<Seq<TokenView>> {
    if check(ts, pos, TokenType::RightParen) {
        ok(Seq::empty(), pos, id)
    } else {
        p_params(ts, Seq::empty(), pos, id)
    }
}

/// function → IDENTIFIER "(" parameters? ")" block, where `kind` names
/// what is parsed (`function` or `method`) in the error messages.
pub open spec fn p_function(ts: Seq<TokenView>, pos: nat, id: nat, kind: Seq<char>) -> Step<StmtV>
    decreases ts.len() - pos, 27int,
{
    if !check(ts, pos, TokenType::Identifier) {
        fail(error_here(ts, pos, "Expect "@ + kind + " name."@), pos, id)
    } else if !check(ts, pos + 1, TokenType::LeftParen) {
        fail(error_here(ts, pos + 1, "Expect '(' after "@ + kind + " name."@), pos + 1, id)
    } else {
        let ps = p_parameters(ts, pos + 2, id);
        match ps.val {
            Err(err) => fail(err, ps.pos, ps.id),
            Ok(params) => if !check(ts, ps.pos, TokenType::RightParen) {
                fail(error_here(ts, ps.pos, "Expect ')' after parameters."@), ps.pos, ps.id)
            } else if !(check(ts, ps.pos + 1, TokenType::LeftBrace) && forward(ts, pos, ps.pos)) {
                fail(error_here(ts, ps.pos + 1, "Expect '{' before "@ + kind + " body."@), ps.pos + 1, ps.id)
            } else {
                function_from(ts[pos as int], params, p_block(ts, Seq::empty(), ps.pos + 2, ps.id))
            },
        }
    }
}

/// The methods of a class up to and with its `}`.
pub open spec fn p_methods(ts: Seq<TokenView>, acc: Seq<StmtV>, pos: nat, id: nat) -> Step<Seq<StmtV>>
    decreases ts.len() - pos, 28int,
{
    if !check(ts, pos, TokenType::RightBrace) && !at_end(ts, pos) {
        let f = p_function(ts, pos, id, "method"@);
        match f.val {
            Err(err) => fail(err, f.pos, f.id),
            Ok(m) => if pos < f.pos && f.pos < ts.len() {
                p_methods(ts, acc.push(m), f.pos, f.id)
            } else {
                ok(acc, f.pos, f.id)
            },
        }
    } else if check(ts, pos, TokenType::RightBrace) {
        ok(acc, pos + 1, id)
    } else {
        fail(error_here(ts, pos, "Expect '}' after class body."@), pos, id)
    }
}

pub open spec fn class_from(name: TokenView, superclass: Option<ExprV>, m: Step<Seq<StmtV>>) -> Step<StmtV> {
    match m.val {
        Err(err) => fail(err, m.pos, m.id),
        Ok(methods) => ok(StmtV::Class { name, superclass, methods }, m.pos, m.id),
    }
}

/// The body of a class declaration, from its `{`.
pub open spec fn p_class_body(ts: Seq<TokenView>, name: TokenView, superclass: Option<ExprV>, pos: nat, id: nat) -> Step<StmtV>
    decreases ts.len() - pos, 29int,
{
    if !check(ts, pos, TokenType::LeftBrace) {
        fail(error_here(ts, pos, "Expect '{' before class body."@), pos, id)
    } else {
        class_from(name, superclass, p_methods(ts, Seq::empty(), pos + 1, id))
    }
}

/// classDecl → "class" IDENTIFIER ( "<" IDENTIFIER )? "{" function* "}"
/// (after `class`)
pub open spec fn p_class(ts: Seq<TokenView>, pos: nat, id: nat) -> Step<StmtV>
    decreases ts.len() - pos, 24int,
{
    if !check(ts, pos, TokenType::Identifier) {
        fail(error_here(ts, pos, "Expect class name."@), pos, id)
    } else if check(ts, pos + 1, TokenType::Less) {
        if !check(ts, pos + 2, TokenType::Identifier) {
            fail(error_here(ts, pos + 2, "Expect superclass name."@), pos + 2, id)
        } else {
            p_class_body(ts, ts[pos as int], Some(ExprV::Variable { name: ts[pos + 2 as int], id }), pos + 3, id + 1)
        }
    } else {
        p_class_body(ts, ts[pos as int], None, pos + 1, id)
    }
}

/// declaration → classDecl | funDecl | varDecl | statement
pub open spec fn p_declaration(ts: Seq<TokenView>, pos: nat, id: nat) -> Step<StmtV>
    decreases ts.len() - pos, 26int,
{
    if check(ts, pos, TokenType::Class) {
        p_class(ts, pos + 1, id)
    } else if check(ts, pos, TokenType::Fun) {
        p_function(ts, pos + 1, id, "function"@)
    } else if check(ts, pos, TokenType::Var) {
        p_var(ts, pos + 1, id)
    } else {
        p_statement(ts, pos, id)
    }
}

// ----- recovery and the whole program -----

/// Token kinds that begin a statement, where recovery stops.
pub open spec fn starts_statement(tt: TokenType) -> bool {
    tt == TokenType::Class || tt == TokenType::Fun || tt == TokenType::Var || tt == TokenType::For
        || tt == TokenType::If || tt == TokenType::While || tt == TokenType::Print
        || tt == TokenType::Return
}

pub open spec fn sync_loop(ts: Seq<TokenView>, pos: nat) -> nat
    decreases ts.len() - pos,
{
    if at_end(ts, pos) {
        pos
    } else if ts[pos - 1].ttype == TokenType::Semicolon {
        pos
    } else if starts_statement(ts[pos as int].ttype) {
        pos
    } else {
        sync_loop(ts, pos + 1)
    }
}

/// Where recovery after an error at `pos` resumes: past the token at
/// `pos`, then just after a `;` or at a token that begins a statement.
pub open spec fn p_sync(ts: Seq<TokenView>, pos: nat) -> nat {
    if at_end(ts, pos) {
        pos
    } else {
        sync_loop(ts, pos + 1)
    }
}

/// The program from `pos` on, with the statements and errors so far.
pub open spec fn p_program(
    ts: Seq<TokenView>,
    pos: nat,
    id: nat,
    stmts: Seq<StmtV>,
    errs: Seq<LoxErrorView>,
) -> (Seq<StmtV>, Seq<LoxErrorView>, nat, nat)
    decreases ts.len() - pos,
{
    if at_end(ts, pos) {
        (stmts, errs, pos, id)
    } else {
        let d = p_declaration(ts, pos, id);
        match d.val {
            Ok(s) => if pos < d.pos && d.pos < ts.len() {
                p_program(ts, d.pos, d.id, stmts.push(s), errs)
            } else {
                (stmts.push(s), errs, d.pos, d.id)
            },
            Err(e) => {
                let p2 = p_sync(ts, d.pos);
                if pos < p2 && p2 < ts.len() {
                    p_program(ts, p2, d.id, stmts, errs.push(e))
                } else {
                    (stmts, errs.push(e), p2, d.id)
                }
            },
        }
    }
}

/// The outcome of parsing the whole program from `pos`: the statements
/// when no error was found, else every error in the order found.
pub open spec fn spec_parse(ts: Seq<TokenView>, pos: nat, id: nat) -> Result<Seq<StmtV>, Seq<LoxErrorView>> {
    let out = p_program(ts, pos, id, Seq::empty(), Seq::empty());
    if out.1.len() == 0 {
        Ok(out.0)
    } else {
        Err(out.1)
    }
}

// ----- the executable parser -----

/// A block of the two statements `a` and `b`.
fn block_of_two(a: Stmt, b: Stmt) -> (s: Stmt)
    ensures
        s@ == StmtV::Block(seq![a@, b@]),
{
    let mut v: Vec<Stmt> = Vec::new();
    proof {
        assert(stmts_view(v@) =~= Seq::<StmtV>::empty());
        lemma_stmts_view_push(v@, a);
    }
    v.push(a);
    proof {
        lemma_stmts_view_push(v@, b);
    }
    v.push(b);
    proof {
        assert(stmts_view(v@) =~= seq![a@, b@]);
    }
    Stmt::Block(v)
}

pub open spec fn program_result(r: Result<Vec<Stmt>, Vec<LoxError>>) -> Result<Seq<StmtV>, Seq<LoxErrorView>> {
    match r {
        Ok(v) => Ok(stmts_view(v@)),
        Err(es) => Err(error_views(es@)),
    }
}


fn level_op_exec(level: usize, tt: TokenType) -> (r: bool)
    ensures
        r == level_op(level as nat, tt),
{
    match tt {
        TokenType::Or => level == 0,
        TokenType::And => level == 1,
        TokenType::BangEqual | TokenType::EqualEqual => level == 2,
        TokenType::Greater | TokenType::GreaterEqual | TokenType::Less | TokenType::LessEqual => level == 3,
        TokenType::Minus | TokenType::Plus => level == 4,
        TokenType::Slash | TokenType::Star => level >= 5,
        _ => false,
    }
}


pub open spec fn expr_result(r: Result<Expr, LoxError>) -> Result<ExprV, LoxErrorView> {
    match r {
        Ok(e) => Ok(e@),
        Err(e) => Err(e@),
    }
}

pub open spec fn stmt_result(r: Result<Stmt, LoxError>) -> Result<StmtV, LoxErrorView> {
    match r {
        Ok(s) => Ok(s@),
        Err(e) => Err(e@),
    }
}

pub open spec fn block_result(r: Result<Vec<Stmt>, LoxError>) -> Result<Seq<StmtV>, LoxErrorView> {
    match r {
        Ok(v) => Ok(stmts_view(v@)),
        Err(e) => Err(e@),
    }
}

/// Stateful recursive-descent parser.
pub struct Parser {
    tokens: Vec<Token>,
    /// Index of the next unconsumed token.
    current: usize,
    /// Next id for the expressions that the resolver annotates.
    next_id: usize,
}

impl Parser {
    pub closed spec fn tokens_model(self) -> Seq<TokenView> {
        token_views(self.tokens@)
    }

    /// Index of the next unread token.
    pub closed spec fn position(self) -> nat {
        self.current as nat
    }

    /// The next expression id to hand out.
    pub closed spec fn ids_used(self) -> nat {
        self.next_id as nat
    }

    /// The tokens end with the end-of-file token, the position is within
    /// them, and no more ids were handed out than tokens were read.
    pub closed spec fn wf(self) -> bool {
        &&& self.tokens@.len() > 0
        &&& self.tokens@.last().ttype == TokenType::Eof
        &&& self.current < self.tokens@.len()
        &&& self.next_id <= self.current
    }

    /// `self` is where parsing from `before` left the parser.
    pub closed spec fn follows(self, before: Parser) -> bool {
        &&& self.wf()
        &&& self.tokens@ == before.tokens@
        &&& before.current <= self.current
        &&& self.next_id - before.next_id <= self.current - before.current
    }

    /// The parser stands where step `s` ends, and `val` is its outcome.
    pub open spec fn lands<T>(self, s: Step<T>, val: Result<T, LoxErrorView>) -> bool {
        &&& s.val == val
        &&& s.pos == self.position()
        &&& s.id == self.ids_used()
    }

    pub fn new(tokens: Vec<Token>) -> (p: Parser)
        ensures
            p.tokens_model() == token_views(tokens@),
            p.position() == 0,
            p.ids_used() == 0,
            p.wf() <==> (tokens@.len() > 0 && tokens@.last().ttype == TokenType::Eof),
    {
        Parser { tokens, current: 0, next_id: 0 }
    }

    fn is_at_end(&self) -> (r: bool)
        requires
            self.wf(),
        ensures
            r == at_end(self.tokens_model(), self.position()),
    {
        let r = self.tokens[self.current].ttype == TokenType::Eof;
        proof {
            let ts = self.tokens_model();
            assert(ts[self.current as int] == self.tokens@[self.current as int]@);
            assert(ts.len() == self.tokens@.len());
            if self.current + 1 >= self.tokens@.len() {
                assert(self.current == self.tokens@.len() - 1);
            }
        }
        r
    }

    fn check(&self, ttype: TokenType) -> (r: bool)
        requires
            self.wf(),
        ensures
            r == check(self.tokens_model(), self.position(), ttype),
    {
        if self.is_at_end() {
            return false;
        }
        proof {
            assert(self.tokens_model()[self.current as int] == self.tokens@[self.current as int]@);
        }
        self.tokens[self.current].ttype == ttype
    }

    /// Steps past the next token.
    fn advance(&mut self)
        requires
            old(self).wf(),
            !at_end(old(self).tokens_model(), old(self).position()),
        ensures
            final(self).tokens@ == old(self).tokens@,
            final(self).current == old(self).current + 1,
            final(self).next_id == old(self).next_id,
            final(self).wf(),
    {
        assert(self.tokens_model().len() == self.tokens@.len());
        assert(self.tokens@.len() == self.tokens.len());
        self.current = self.current + 1;
    }

    /// The token read last.
    fn previous(&self) -> (t: Token)
        requires
            self.wf(),
            self.current >= 1,
        ensures
            t@ == self.tokens_model()[self.current - 1],
    {
        proof {
            assert(self.tokens_model()[self.current - 1] == self.tokens@[self.current - 1]@);
        }
        self.tokens[self.current - 1].clone_token()
    }

    /// Steps past the next token if it is of kind `ttype`.
    fn match_one(&mut self, ttype: TokenType) -> (r: bool)
        requires
            old(self).wf(),
        ensures
            r == check(old(self).tokens_model(), old(self).position(), ttype),
            final(self).tokens@ == old(self).tokens@,
            final(self).current == old(self).current + if r { 1int } else { 0int },
            final(self).next_id == old(self).next_id,
            final(self).wf(),
    {
        if self.check(ttype) {
            self.advance();
            true
        } else {
            false
        }
    }

    fn error_at(tok: &Token, msg: &str) -> (e: LoxError)
        ensures
            e@ == error_at(tok@, msg@),
    {
        if tok.ttype == TokenType::Eof {
            LoxError::syntax(tok.line, " at end", msg)
        } else {
            let mut loc = string_of(" at '");
            loc.append(tok.lexeme.as_str());
            loc.append("'");
            LoxError::syntax(tok.line, loc.as_str(), msg)
        }
    }

    /// The error `msg` reported at the next token.
    fn error_here(&self, msg: &str) -> (e: LoxError)
        requires
            self.wf(),
        ensures
            e@ == error_here(self.tokens_model(), self.position(), msg@),
    {
        proof {
            assert(self.tokens_model()[self.current as int] == self.tokens@[self.current as int]@);
        }
        Self::error_at(&self.tokens[self.current], msg)
    }

    /// Reads a token of kind `ttype`, or reports `msg` at the next token.
    fn consume(&mut self, ttype: TokenType, msg: &str) -> (r: Result<Token, LoxError>)
        requires
            old(self).wf(),
        ensures
            final(self).tokens@ == old(self).tokens@,
            final(self).next_id == old(self).next_id,
            final(self).wf(),
            check(old(self).tokens_model(), old(self).position(), ttype) ==> (r matches Ok(t)
                && t@ == old(self).tokens_model()[old(self).position() as int]
                && final(self).current == old(self).current + 1),
            !check(old(self).tokens_model(), old(self).position(), ttype) ==> (r matches Err(e)
                && e@ == error_here(old(self).tokens_model(), old(self).position(), msg@)
                && final(self).current == old(self).current),
    {
        if self.check(ttype) {
            self.advance();
            Ok(self.previous())
        } else {
            Err(self.error_here(msg))
        }
    }

    fn mint_id(&mut self) -> (id: usize)
        requires
            old(self).wf(),
            old(self).next_id < old(self).current,
        ensures
            id == old(self).next_id,
            final(self).tokens@ == old(self).tokens@,
            final(self).current == old(self).current,
            final(self).next_id == old(self).next_id + 1,
            final(self).wf(),
    {
        let id = self.next_id;
        self.next_id = self.next_id + 1;
        id
    }

    /// The kind of the next token.
    fn peek_type(&self) -> (t: TokenType)
        requires
            self.wf(),
        ensures
            t == self.tokens_model()[self.current as int].ttype,
    {
        proof {
            assert(self.tokens_model()[self.current as int] == self.tokens@[self.current as int]@);
        }
        self.tokens[self.current].ttype
    }

    fn expression(&mut self) -> (r: Result<Expr, LoxError>)
        requires
            old(self).wf(),
        ensures
            final(self).follows(*old(self)),
            final(self).lands(p_expression(old(self).tokens_model(), old(self).position(), old(self).ids_used()), expr_result(r)),
            r is Ok ==> old(self).position() < final(self).position(),
        decreases old(self).tokens@.len() - old(self).current, 23int,
    {
        self.assignment()
    }

    fn assignment(&mut self) -> (r: Result<Expr, LoxError>)
        requires
            old(self).wf(),
        ensures
            final(self).follows(*old(self)),
            final(self).lands(p_expression(old(self).tokens_model(), old(self).position(), old(self).ids_used()), expr_result(r)),
            r is Ok ==> old(self).position() < final(self).position(),
        decreases old(self).tokens@.len() - old(self).current, 22int,
    {
        let ghost ts = self.tokens_model();
        let expr = match self.or() {
            Ok(e) => e,
            Err(err) => return Err(err),
        };
        if self.match_one(TokenType::Equal) {
            let equals = self.previous();
            let value = match self.assignment() {
                Ok(v) => v,
                Err(err) => return Err(err),
            };
            match expr {
                Expr::Variable { name, .. } => {
                    let id = self.mint_id();
                    return Ok(Expr::Assign { name, value: Box::new(value), id });
                },
                Expr::Get { object, name } => {
                    return Ok(Expr::SetField { object, name, value: Box::new(value) });
                },
                _ => {
                    return Err(Self::error_at(&equals, "Invalid assignment target."));
                },
            }
        }
        Ok(expr)
    }

    fn or(&mut self) -> (r: Result<Expr, LoxError>)
        requires
            old(self).wf(),
        ensures
            final(self).follows(*old(self)),
            final(self).lands(p_binary(old(self).tokens_model(), old(self).position(), old(self).ids_used(), 0), expr_result(r)),
            r is Ok ==> old(self).position() < final(self).position(),
        decreases old(self).tokens@.len() - old(self).current, 21int,
    {
        self.binary(0)
    }

    fn and(&mut self) -> (r: Result<Expr, LoxError>)
        requires
            old(self).wf(),
        ensures
            final(self).follows(*old(self)),
            final(self).lands(p_binary(old(self).tokens_model(), old(self).position(), old(self).ids_used(), 1), expr_result(r)),
            r is Ok ==> old(self).position() < final(self).position(),
        decreases old(self).tokens@.len() - old(self).current, 18int,
    {
        self.binary(1)
    }

    fn equality(&mut self) -> (r: Result<Expr, LoxError>)
        requires
            old(self).wf(),
        ensures
            final(self).follows(*old(self)),
            final(self).lands(p_binary(old(self).tokens_model(), old(self).position(), old(self).ids_used(), 2), expr_result(r)),
            r is Ok ==> old(self).position() < final(self).position(),
        decreases old(self).tokens@.len() - old(self).current, 15int,
    {
        self.binary(2)
    }

    fn comparison(&mut self) -> (r: Result<Expr, LoxError>)
        requires
            old(self).wf(),
        ensures
            final(self).follows(*old(self)),
            final(self).lands(p_binary(old(self).tokens_model(), old(self).position(), old(self).ids_used(), 3), expr_result(r)),
            r is Ok ==> old(self).position() < final(self).position(),
        decreases old(self).tokens@.len() - old(self).current, 12int,
    {
        self.binary(3)
    }

    fn term(&mut self) -> (r: Result<Expr, LoxError>)
        requires
            old(self).wf(),
        ensures
            final(self).follows(*old(self)),
            final(self).lands(p_binary(old(self).tokens_model(), old(self).position(), old(self).ids_used(), 4), expr_result(r)),
            r is Ok ==> old(self).position() < final(self).position(),
        decreases old(self).tokens@.len() - old(self).current, 9int,
    {
        self.binary(4)
    }

    fn factor(&mut self) -> (r: Result<Expr, LoxError>)
        requires
            old(self).wf(),
        ensures
            final(self).follows(*old(self)),
            final(self).lands(p_binary(old(self).tokens_model(), old(self).position(), old(self).ids_used(), 5), expr_result(r)),
            r is Ok ==> old(self).position() < final(self).position(),
        decreases old(self).tokens@.len() - old(self).current, 6int,
    {
        self.binary(5)
    }

    fn operand(&mut self, level: usize) -> (r: Result<Expr, LoxError>)
        requires
            old(self).wf(),
            level <= 5,
        ensures
            final(self).follows(*old(self)),
            final(self).lands(p_operand(old(self).tokens_model(), old(self).position(), old(self).ids_used(), level as nat), expr_result(r)),
            r is Ok ==> old(self).position() < final(self).position(),
        decreases old(self).tokens@.len() - old(self).current, bin_rank(level as nat) - 1,
    {
        if level == 0 {
            self.and()
        } else if level == 1 {
            self.equality()
        } else if level == 2 {
            self.comparison()
        } else if level == 3 {
            self.term()
        } else if level == 4 {
            self.factor()
        } else {
            self.unary()
        }
    }

    /// One binary level: operands joined left to right by its operators.
    fn binary(&mut self, level: usize) -> (r: Result<Expr, LoxError>)
        requires
            old(self).wf(),
            level <= 5,
        ensures
            final(self).follows(*old(self)),
            final(self).lands(p_binary(old(self).tokens_model(), old(self).position(), old(self).ids_used(), level as nat), expr_result(r)),
            r is Ok ==> old(self).position() < final(self).position(),
        decreases old(self).tokens@.len() - old(self).current, bin_rank(level as nat),
    {
        let ghost ts = self.tokens_model();
        let ghost pos0 = self.position();
        let ghost id0 = self.ids_used();
        let ghost start = *self;
        let mut expr = match self.operand(level) {
            Ok(e) => e,
            Err(err) => return Err(err),
        };
        loop
            invariant
                self.follows(start),
                start == *old(self),
                start.wf(),
                ts == self.tokens_model(),
                ts == start.tokens_model(),
                pos0 == start.position(),
                id0 == start.ids_used(),
                pos0 < self.position(),
                level <= 5,
                p_binary(ts, pos0, id0, level as nat) == p_binary_loop(
                    ts,
                    expr@,
                    self.position(),
                    self.ids_used(),
                    level as nat,
                ),
            decreases self.tokens@.len() - self.current,
        {
            if self.is_at_end() || !level_op_exec(level, self.peek_type()) {
                return Ok(expr);
            }
            self.advance();
            let op = self.previous();
            let right = match self.operand(level) {
                Ok(e) => e,
                Err(err) => return Err(err),
            };
            expr = if level <= 1 {
                Expr::Logical { left: Box::new(expr), op, right: Box::new(right) }
            } else {
                Expr::Binary { left: Box::new(expr), op, right: Box::new(right) }
            };
        }
    }

    fn unary(&mut self) -> (r: Result<Expr, LoxError>)
        requires
            old(self).wf(),
        ensures
            final(self).follows(*old(self)),
            final(self).lands(p_unary(old(self).tokens_model(), old(self).position(), old(self).ids_used()), expr_result(r)),
            r is Ok ==> old(self).position() < final(self).position(),
        decreases old(self).tokens@.len() - old(self).current, 3int,
    {
        if self.check(TokenType::Bang) || self.check(TokenType::Minus) {
            self.advance();
            let op = self.previous();
            let right = match self.unary() {
                Ok(e) => e,
                Err(err) => return Err(err),
            };
            return Ok(Expr::Unary { op, right: Box::new(right) });
        }
        self.call()
    }

    fn call(&mut self) -> (r: Result<Expr, LoxError>)
        requires
            old(self).wf(),
        ensures
            final(self).follows(*old(self)),
            final(self).lands(p_call(old(self).tokens_model(), old(self).position(), old(self).ids_used()), expr_result(r)),
            r is Ok ==> old(self).position() < final(self).position(),
        decreases old(self).tokens@.len() - old(self).current, 2int,
    {
        let ghost ts = self.tokens_model();
        let ghost pos0 = self.position();
        let ghost id0 = self.ids_used();
        let ghost start = *self;
        let mut expr = match self.primary() {
            Ok(e) => e,
            Err(err) => return Err(err),
        };
        loop
            invariant
                self.follows(start),
                start == *old(self),
                start.wf(),
                ts == self.tokens_model(),
                ts == start.tokens_model(),
                pos0 == start.position(),
                id0 == start.ids_used(),
                pos0 < self.position(),
                p_call(ts, pos0, id0) == p_call_loop(ts, expr@, self.position(), self.ids_used()),
            decreases self.tokens@.len() - self.current,
        {
            if self.match_one(TokenType::LeftParen) {
                expr = match self.finish_call(expr) {
                    Ok(e) => e,
                    Err(err) => return Err(err),
                };
            } else if self.match_one(TokenType::Dot) {
                let name = match self.consume(TokenType::Identifier, "Expect property name after '.'.") {
                    Ok(t) => t,
                    Err(err) => return Err(err),
                };
                expr = Expr::Get { object: Box::new(expr), name };
            } else {
                return Ok(expr);
            }
        }
    }

    /// The arguments and `)` of a call whose `(` was just read.
    fn finish_call(&mut self, callee: Expr) -> (r: Result<Expr, LoxError>)
        requires
            old(self).wf(),
        ensures
            final(self).follows(*old(self)),
            final(self).lands(p_finish_call(old(self).tokens_model(), callee@, old(self).position(), old(self).ids_used()), expr_result(r)),
            r is Ok ==> old(self).position() < final(self).position(),
        decreases old(self).tokens@.len() - old(self).current, 24int,
    {
        let ghost ts = self.tokens_model();
        let ghost pos0 = self.position();
        let ghost id0 = self.ids_used();
        let ghost start = *self;
        let ghost callee_v = callee@;
        if self.check(TokenType::RightParen) {
            self.advance();
            let paren = self.previous();
            let args: Vec<Expr> = Vec::new();
            proof {
                assert(exprs_view(args@) =~= Seq::<ExprV>::empty());
            }
            return Ok(Expr::Call { callee: Box::new(callee), paren, args });
        }
        let mut args: Vec<Expr> = Vec::new();
        proof {
            assert(exprs_view(args@) =~= Seq::<ExprV>::empty());
        }
        loop
            invariant
                self.follows(start),
                start == *old(self),
                start.wf(),
                ts == self.tokens_model(),
                ts == start.tokens_model(),
                pos0 == start.position(),
                id0 == start.ids_used(),
                pos0 <= self.position(),
                callee@ == callee_v,
                p_finish_call(ts, callee_v, pos0, id0) == p_args(
                    ts,
                    callee_v,
                    exprs_view(args@),
                    self.position(),
                    self.ids_used(),
                ),
            decreases self.tokens@.len() - self.current,
        {
            if args.len() >= 255 {
                proof {
                    assert(exprs_view(args@).len() == args@.len()) by {
                        lemma_exprs_view_len(args@);
                    }
                }
                return Err(self.error_here("Can't have more than 255 arguments."));
            }
            proof {
                lemma_exprs_view_len(args@);
            }
            let a = match self.expression() {
                Ok(e) => e,
                Err(err) => return Err(err),
            };
            proof {
                lemma_exprs_view_push(args@, a);
            }
            args.push(a);
            if !self.match_one(TokenType::Comma) {
                let paren = match self.consume(TokenType::RightParen, "Expect ')' after arguments.") {
                    Ok(t) => t,
                    Err(err) => return Err(err),
                };
                return Ok(Expr::Call { callee: Box::new(callee), paren, args });
            }
        }
    }

    fn primary(&mut self) -> (r: Result<Expr, LoxError>)
        requires
            old(self).wf(),
        ensures
            final(self).follows(*old(self)),
            final(self).lands(p_primary(old(self).tokens_model(), old(self).position(), old(self).ids_used()), expr_result(r)),
            r is Ok ==> old(self).position() < final(self).position(),
        decreases old(self).tokens@.len() - old(self).current, 1int,
    {
        if self.match_one(TokenType::False) {
            return Ok(Expr::Literal(Literal::Bool(false)));
        }
        if self.match_one(TokenType::True) {
            return Ok(Expr::Literal(Literal::Bool(true)));
        }
        if self.match_one(TokenType::Nil) {
            return Ok(Expr::Literal(Literal::Nil));
        }
        if self.check(TokenType::Number) || self.check(TokenType::String) {
            self.advance();
            proof {
                assert(self.tokens_model()[self.current - 1] == self.tokens@[self.current - 1]@);
            }
            let lit = match &self.tokens[self.current - 1].literal {
                Some(l) => l.clone_literal(),
                None => Literal::Nil,
            };
            return Ok(Expr::Literal(lit));
        }
        if self.match_one(TokenType::Super) {
            let keyword = self.previous();
            match self.consume(TokenType::Dot, "Expect '.' after 'super'.") {
                Ok(_) => {},
                Err(err) => return Err(err),
            }
            let method = match self.consume(TokenType::Identifier, "Expect superclass method name.") {
                Ok(t) => t,
                Err(err) => return Err(err),
            };
            let id = self.mint_id();
            return Ok(Expr::Super { keyword, method, id });
        }
        if self.match_one(TokenType::This) {
            let keyword = self.previous();
            let id = self.mint_id();
            return Ok(Expr::This { keyword, id });
        }
        if self.match_one(TokenType::Identifier) {
            let name = self.previous();
            let id = self.mint_id();
            return Ok(Expr::Variable { name, id });
        }
        if self.match_one(TokenType::LeftParen) {
            let e = match self.expression() {
                Ok(e) => e,
                Err(err) => return Err(err),
            };
            match self.consume(TokenType::RightParen, "Expect ')' after expression.") {
                Ok(_) => {},
                Err(err) => return Err(err),
            }
            return Ok(Expr::Grouping(Box::new(e)));
        }
        Err(self.error_here("Expect expression."))
    }

    fn expression_statement(&mut self) -> (r: Result<Stmt, LoxError>)
        requires
            old(self).wf(),
        ensures
            final(self).follows(*old(self)),
            final(self).lands(p_simple(old(self).tokens_model(), old(self).position(), old(self).ids_used(), true), stmt_result(r)),
            r is Ok ==> old(self).position() < final(self).position(),
        decreases old(self).tokens@.len() - old(self).current, 25int,
    {
        let expr = match self.expression() {
            Ok(e) => e,
            Err(err) => return Err(err),
        };
        match self.consume(TokenType::Semicolon, "Expect ';' after expression.") {
            Ok(_) => {},
            Err(err) => return Err(err),
        }
        Ok(Stmt::Expression(expr))
    }

    fn print_statement(&mut self) -> (r: Result<Stmt, LoxError>)
        requires
            old(self).wf(),
        ensures
            final(self).follows(*old(self)),
            final(self).lands(p_simple(old(self).tokens_model(), old(self).position(), old(self).ids_used(), false), stmt_result(r)),
            r is Ok ==> old(self).position() < final(self).position(),
        decreases old(self).tokens@.len() - old(self).current, 25int,
    {
        let value = match self.expression() {
            Ok(e) => e,
            Err(err) => return Err(err),
        };
        match self.consume(TokenType::Semicolon, "Expect ';' after value.") {
            Ok(_) => {},
            Err(err) => return Err(err),
        }
        Ok(Stmt::Print(value))
    }

    fn return_statement(&mut self) -> (r: Result<Stmt, LoxError>)
        requires
            old(self).wf(),
            old(self).position() >= 1,
        ensures
            final(self).follows(*old(self)),
            final(self).lands(p_return(old(self).tokens_model(), old(self).tokens_model()[old(self).position() - 1], old(self).position(), old(self).ids_used()), stmt_result(r)),
            r is Ok ==> old(self).position() < final(self).position(),
        decreases old(self).tokens@.len() - old(self).current, 25int,
    {
        let keyword = self.previous();
        let value = if !self.check(TokenType::Semicolon) {
            match self.expression() {
                Ok(e) => Some(e),
                Err(err) => return Err(err),
            }
        } else {
            None
        };
        match self.consume(TokenType::Semicolon, "Expect ';' after return value.") {
            Ok(_) => {},
            Err(err) => return Err(err),
        }
        Ok(Stmt::Return { keyword, value })
    }

    fn var_declaration(&mut self) -> (r: Result<Stmt, LoxError>)
        requires
            old(self).wf(),
        ensures
            final(self).follows(*old(self)),
            final(self).lands(p_var(old(self).tokens_model(), old(self).position(), old(self).ids_used()), stmt_result(r)),
            r is Ok ==> old(self).position() < final(self).position(),
        decreases old(self).tokens@.len() - old(self).current, 25int,
    {
        let name = match self.consume(TokenType::Identifier, "Expect variable name.") {
            Ok(t) => t,
            Err(err) => return Err(err),
        };
        let initializer = if self.match_one(TokenType::Equal) {
            match self.expression() {
                Ok(e) => Some(e),
                Err(err) => return Err(err),
            }
        } else {
            None
        };
        match self.consume(TokenType::Semicolon, "Expect ';' after variable declaration.") {
            Ok(_) => {},
            Err(err) => return Err(err),
        }
        Ok(Stmt::Var { name, initializer })
    }

    fn if_statement(&mut self) -> (r: Result<Stmt, LoxError>)
        requires
            old(self).wf(),
        ensures
            final(self).follows(*old(self)),
            final(self).lands(p_if(old(self).tokens_model(), old(self).position(), old(self).ids_used()), stmt_result(r)),
            r is Ok ==> old(self).position() < final(self).position(),
        decreases old(self).tokens@.len() - old(self).current, 25int,
    {
        match self.consume(TokenType::LeftParen, "Expect '(' after 'if'.") {
            Ok(_) => {},
            Err(err) => return Err(err),
        }
        let cond = match self.expression() {
            Ok(e) => e,
            Err(err) => return Err(err),
        };
        match self.consume(TokenType::RightParen, "Expect ')' after if condition.") {
            Ok(_) => {},
            Err(err) => return Err(err),
        }
        let then_branch = match self.statement() {
            Ok(s) => Box::new(s),
            Err(err) => return Err(err),
        };
        let else_branch = if self.match_one(TokenType::Else) {
            match self.statement() {
                Ok(s) => Some(Box::new(s)),
                Err(err) => return Err(err),
            }
        } else {
            None
        };
        Ok(Stmt::If { cond, then_branch, else_branch })
    }

    fn while_statement(&mut self) -> (r: Result<Stmt, LoxError>)
        requires
            old(self).wf(),
        ensures
            final(self).follows(*old(self)),
            final(self).lands(p_while(old(self).tokens_model(), old(self).position(), old(self).ids_used()), stmt_result(r)),
            r is Ok ==> old(self).position() < final(self).position(),
        decreases old(self).tokens@.len() - old(self).current, 25int,
    {
        match self.consume(TokenType::LeftParen, "Expect '(' after 'while'.") {
            Ok(_) => {},
            Err(err) => return Err(err),
        }
        let cond = match self.expression() {
            Ok(e) => e,
            Err(err) => return Err(err),
        };
        match self.consume(TokenType::RightParen, "Expect ')' after condition.") {
            Ok(_) => {},
            Err(err) => return Err(err),
        }
        let body = match self.statement() {
            Ok(s) => Box::new(s),
            Err(err) => return Err(err),
        };
        Ok(Stmt::While { cond, body })
    }

    /// A `for` statement, turned into the `while` loop it stands for.
    fn for_statement(&mut self) -> (r: Result<Stmt, LoxError>)
        requires
            old(self).wf(),
        ensures
            final(self).follows(*old(self)),
            final(self).lands(p_for(old(self).tokens_model(), old(self).position(), old(self).ids_used()), stmt_result(r)),
            r is Ok ==> old(self).position() < final(self).position(),
        decreases old(self).tokens@.len() - old(self).current, 25int,
    {
        match self.consume(TokenType::LeftParen, "Expect '(' after 'for'.") {
            Ok(_) => {},
            Err(err) => return Err(err),
        }
        let initializer = if self.match_one(TokenType::Semicolon) {
            None
        } else if self.match_one(TokenType::Var) {
            match self.var_declaration() {
                Ok(s) => Some(s),
                Err(err) => return Err(err),
            }
        } else {
            match self.expression_statement() {
                Ok(s) => Some(s),
                Err(err) => return Err(err),
            }
        };
        self.for_rest(initializer)
    }

    /// The condition, increment and body of a `for` statement whose
    /// initializer was read.
    fn for_rest(&mut self, initializer: Option<Stmt>) -> (r: Result<Stmt, LoxError>)
        requires
            old(self).wf(),
        ensures
            final(self).follows(*old(self)),
            final(self).lands(
                p_for_rest(old(self).tokens_model(), option_stmt_view(initializer), old(self).position(), old(self).ids_used()),
                stmt_result(r),
            ),
            r is Ok ==> old(self).position() < final(self).position(),
        decreases old(self).tokens@.len() - old(self).current, 25int,
    {
        let condition = if !self.check(TokenType::Semicolon) {
            match self.expression() {
                Ok(e) => Some(e),
                Err(err) => return Err(err),
            }
        } else {
            None
        };
        match self.consume(TokenType::Semicolon, "Expect ';' after loop condition.") {
            Ok(_) => {},
            Err(err) => return Err(err),
        }
        let increment = if !self.check(TokenType::RightParen) {
            match self.expression() {
                Ok(e) => Some(e),
                Err(err) => return Err(err),
            }
        } else {
            None
        };
        match self.consume(TokenType::RightParen, "Expect ')' after for clauses.") {
            Ok(_) => {},
            Err(err) => return Err(err),
        }
        let mut body = match self.statement() {
            Ok(s) => s,
            Err(err) => return Err(err),
        };
        let ghost body_v = body@;
        let ghost inc_v = option_expr_view(increment);
        match increment {
            Some(inc) => {
                body = block_of_two(body, Stmt::Expression(inc));
            },
            None => {},
        }
        let cond = match condition {
            Some(c) => c,
            None => Expr::Literal(Literal::Bool(true)),
        };
        body = Stmt::While { cond, body: Box::new(body) };
        match initializer {
            Some(init) => {
                body = block_of_two(init, body);
            },
            None => {},
        }
        Ok(body)
    }

    fn block(&mut self) -> (r: Result<Vec<Stmt>, LoxError>)
        requires
            old(self).wf(),
        ensures
            final(self).follows(*old(self)),
            final(self).lands(p_block(old(self).tokens_model(), Seq::empty(), old(self).position(), old(self).ids_used()), block_result(r)),
            r is Ok ==> old(self).position() < final(self).position(),
        decreases old(self).tokens@.len() - old(self).current, 28int,
    {
        let ghost ts = self.tokens_model();
        let ghost pos0 = self.position();
        let ghost id0 = self.ids_used();
        let ghost start = *self;
        let mut stmts: Vec<Stmt> = Vec::new();
        proof {
            assert(stmts_view(stmts@) =~= Seq::<StmtV>::empty());
        }
        loop
            invariant
                self.follows(start),
                start == *old(self),
                start.wf(),
                ts == self.tokens_model(),
                ts == start.tokens_model(),
                pos0 == start.position(),
                id0 == start.ids_used(),
                pos0 <= self.position(),
                p_block(ts, Seq::empty(), pos0, id0) == p_block(ts, stmts_view(stmts@), self.position(), self.ids_used()),
            decreases self.tokens@.len() - self.current,
        {
            if self.check(TokenType::RightBrace) || self.is_at_end() {
                match self.consume(TokenType::RightBrace, "Expect '}' after block.") {
                    Ok(_) => return Ok(stmts),
                    Err(err) => return Err(err),
                }
            }
            let d = match self.declaration() {
                Ok(d) => d,
                Err(err) => return Err(err),
            };
            proof {
                lemma_stmts_view_push(stmts@, d);
            }
            stmts.push(d);
        }
    }

    fn statement(&mut self) -> (r: Result<Stmt, LoxError>)
        requires
            old(self).wf(),
        ensures
            final(self).follows(*old(self)),
            final(self).lands(p_statement(old(self).tokens_model(), old(self).position(), old(self).ids_used()), stmt_result(r)),
            r is Ok ==> old(self).position() < final(self).position(),
        decreases old(self).tokens@.len() - old(self).current, 26int,
    {
        if self.match_one(TokenType::For) {
            return self.for_statement();
        }
        if self.match_one(TokenType::If) {
            return self.if_statement();
        }
        if self.match_one(TokenType::Print) {
            return self.print_statement();
        }
        if self.match_one(TokenType::Return) {
            return self.return_statement();
        }
        if self.match_one(TokenType::While) {
            return self.while_statement();
        }
        if self.match_one(TokenType::LeftBrace) {
            let stmts = match self.block() {
                Ok(v) => v,
                Err(err) => return Err(err),
            };
            return Ok(Stmt::Block(stmts));
        }
        self.expression_statement()
    }

    /// The parameter names after a function's `(`, up to its `)`.
    fn parameters(&mut self) -> (r: Result<Vec<Token>, LoxError>)
        requires
            old(self).wf(),
        ensures
            final(self).follows(*old(self)),
            final(self).ids_used() == old(self).ids_used(),
            final(self).lands(
                p_parameters(old(self).tokens_model(), old(self).position(), old(self).ids_used()),
                match r {
                    Ok(v) => Ok(token_views(v@)),
                    Err(e) => Err(e@),
                },
            ),
    {
        let ghost ts = self.tokens_model();
        let ghost q0 = self.position();
        let ghost idq = self.ids_used();
        let mut params: Vec<Token> = Vec::new();
        if self.check(TokenType::RightParen) {
            proof {
                assert(token_views(params@) =~= Seq::<TokenView>::empty());
            }
            return Ok(params);
        }
        proof {
            assert(token_views(params@) =~= Seq::<TokenView>::empty());
        }
        loop
            invariant
                self.follows(*old(self)),
                ts == self.tokens_model(),
                ts == old(self).tokens_model(),
                q0 == old(self).position(),
                idq == old(self).ids_used(),
                q0 <= self.position(),
                idq == self.ids_used(),
                p_parameters(ts, q0, idq) == p_params(ts, token_views(params@), self.position(), self.ids_used()),
            decreases self.tokens@.len() - self.current,
        {
            if params.len() >= 255 {
                return Err(self.error_here("Can't have more than 255 parameters."));
            }
            let p = match self.consume(TokenType::Identifier, "Expect parameter name.") {
                Ok(t) => t,
                Err(err) => return Err(err),
            };
            let ghost before = token_views(params@);
            params.push(p);
            assert(token_views(params@) =~= before.push(p@));
            if !self.match_one(TokenType::Comma) {
                return Ok(params);
            }
        }
    }

    /// A function or method after its keyword; `kind` ("function" or
    /// "method") goes into the error messages.
    fn function(&mut self, kind: &str) -> (r: Result<Stmt, LoxError>)
        requires
            old(self).wf(),
        ensures
            final(self).follows(*old(self)),
            final(self).lands(p_function(old(self).tokens_model(), old(self).position(), old(self).ids_used(), kind@), stmt_result(r)),
            r is Ok ==> old(self).position() < final(self).position(),
        decreases old(self).tokens@.len() - old(self).current, 28int,
    {
        let mut msg = string_of("Expect ");
        msg.append(kind);
        msg.append(" name.");
        let name = match self.consume(TokenType::Identifier, msg.as_str()) {
            Ok(t) => t,
            Err(err) => return Err(err),
        };
        let mut msg = string_of("Expect '(' after ");
        msg.append(kind);
        msg.append(" name.");
        match self.consume(TokenType::LeftParen, msg.as_str()) {
            Ok(_) => {},
            Err(err) => return Err(err),
        }
        let params = match self.parameters() {
            Ok(ps) => ps,
            Err(err) => return Err(err),
        };
        match self.consume(TokenType::RightParen, "Expect ')' after parameters.") {
            Ok(_) => {},
            Err(err) => return Err(err),
        }
        let mut msg = string_of("Expect '{' before ");
        msg.append(kind);
        msg.append(" body.");
        match self.consume(TokenType::LeftBrace, msg.as_str()) {
            Ok(_) => {},
            Err(err) => return Err(err),
        }
        let body = match self.block() {
            Ok(b) => b,
            Err(err) => return Err(err),
        };
        Ok(Stmt::Function { name, params, body })
    }

    /// The methods of a class after its `{`, up to and with its `}`.
    fn methods(&mut self) -> (r: Result<Vec<Stmt>, LoxError>)
        requires
            old(self).wf(),
        ensures
            final(self).follows(*old(self)),
            final(self).lands(p_methods(old(self).tokens_model(), Seq::empty(), old(self).position(), old(self).ids_used()), block_result(r)),
            r is Ok ==> old(self).position() < final(self).position(),
        decreases old(self).tokens@.len() - old(self).current, 29int,
    {
        let ghost ts = self.tokens_model();
        let ghost pos0 = self.position();
        let ghost id0 = self.ids_used();
        let mut methods: Vec<Stmt> = Vec::new();
        proof {
            assert(stmts_view(methods@) =~= Seq::<StmtV>::empty());
        }
        loop
            invariant
                self.follows(*old(self)),
                ts == self.tokens_model(),
                ts == old(self).tokens_model(),
                pos0 == old(self).position(),
                id0 == old(self).ids_used(),
                pos0 <= self.position(),
                p_methods(ts, Seq::empty(), pos0, id0) == p_methods(ts, stmts_view(methods@), self.position(), self.ids_used()),
            decreases self.tokens@.len() - self.current,
        {
            if self.check(TokenType::RightBrace) || self.is_at_end() {
                match self.consume(TokenType::RightBrace, "Expect '}' after class body.") {
                    Ok(_) => return Ok(methods),
                    Err(err) => return Err(err),
                }
            }
            let m = match self.function("method") {
                Ok(m) => m,
                Err(err) => return Err(err),
            };
            proof {
                lemma_stmts_view_push(methods@, m);
            }
            methods.push(m);
        }
    }

    /// A class declaration after `class`.
    fn class_declaration(&mut self) -> (r: Result<Stmt, LoxError>)
        requires
            old(self).wf(),
        ensures
            final(self).follows(*old(self)),
            final(self).lands(p_class(old(self).tokens_model(), old(self).position(), old(self).ids_used()), stmt_result(r)),
            r is Ok ==> old(self).position() < final(self).position(),
        decreases old(self).tokens@.len() - old(self).current, 25int,
    {
        let name = match self.consume(TokenType::Identifier, "Expect class name.") {
            Ok(t) => t,
            Err(err) => return Err(err),
        };
        let superclass = if self.match_one(TokenType::Less) {
            let sc_name = match self.consume(TokenType::Identifier, "Expect superclass name.") {
                Ok(t) => t,
                Err(err) => return Err(err),
            };
            let id = self.mint_id();
            Some(Expr::Variable { name: sc_name, id })
        } else {
            None
        };
        match self.consume(TokenType::LeftBrace, "Expect '{' before class body.") {
            Ok(_) => {},
            Err(err) => return Err(err),
        }
        let methods = match self.methods() {
            Ok(ms) => ms,
            Err(err) => return Err(err),
        };
        Ok(Stmt::Class { name, superclass, methods })
    }


    fn declaration(&mut self) -> (r: Result<Stmt, LoxError>)
        requires
            old(self).wf(),
        ensures
            final(self).follows(*old(self)),
            final(self).lands(p_declaration(old(self).tokens_model(), old(self).position(), old(self).ids_used()), stmt_result(r)),
            r is Ok ==> old(self).position() < final(self).position(),
        decreases old(self).tokens@.len() - old(self).current, 27int,
    {
        if self.match_one(TokenType::Class) {
            return self.class_declaration();
        }
        if self.match_one(TokenType::Fun) {
            return self.function("function");
        }
        if self.match_one(TokenType::Var) {
            return self.var_declaration();
        }
        self.statement()
    }

    /// Skips tokens to a likely statement boundary, so that parsing can
    /// go on after an error.
    fn synchronize(&mut self)
        requires
            old(self).wf(),
        ensures
            final(self).wf(),
            final(self).tokens@ == old(self).tokens@,
            final(self).next_id == old(self).next_id,
            final(self).position() == p_sync(old(self).tokens_model(), old(self).position()),
            old(self).position() <= final(self).position(),
            !at_end(old(self).tokens_model(), old(self).position()) ==> old(self).position() < final(self).position(),
    {
        if self.is_at_end() {
            return;
        }
        self.advance();
        let ghost ts = self.tokens_model();
        let ghost p1 = self.position();
        while !self.is_at_end()
            invariant
                self.wf(),
                self.tokens@ == old(self).tokens@,
                self.next_id == old(self).next_id,
                ts == self.tokens_model(),
                1 <= p1 <= self.position(),
                old(self).position() < p1,
                sync_loop(ts, p1) == sync_loop(ts, self.position()),
                p_sync(ts, old(self).position()) == sync_loop(ts, p1),
            decreases self.tokens@.len() - self.current,
        {
            proof {
                assert(ts[self.current - 1] == self.tokens@[self.current - 1]@);
            }
            if self.tokens[self.current - 1].ttype == TokenType::Semicolon {
                return;
            }
            match self.peek_type() {
                TokenType::Class | TokenType::Fun | TokenType::Var | TokenType::For | TokenType::If
                | TokenType::While | TokenType::Print | TokenType::Return => {
                    return;
                },
                _ => {},
            }
            self.advance();
        }
    }

    /// Parses the whole token stream: the statements when no error was
    /// found, else every syntax error, each followed by recovery.
    pub fn parse(&mut self) -> (r: Result<Vec<Stmt>, Vec<LoxError>>)
        requires
            old(self).wf(),
        ensures
            final(self).follows(*old(self)),
            program_result(r) == spec_parse(old(self).tokens_model(), old(self).position(), old(self).ids_used()),
            at_end(final(self).tokens_model(), final(self).position()),
    {
        let ghost ts = self.tokens_model();
        let ghost pos0 = self.position();
        let ghost id0 = self.ids_used();
        let ghost start = *self;
        let mut stmts: Vec<Stmt> = Vec::new();
        let mut errors: Vec<LoxError> = Vec::new();
        proof {
            assert(stmts_view(stmts@) =~= Seq::<StmtV>::empty());
            assert(error_views(errors@) =~= Seq::<LoxErrorView>::empty());
        }
        while !self.is_at_end()
            invariant
                self.follows(start),
                start == *old(self),
                start.wf(),
                ts == self.tokens_model(),
                ts == start.tokens_model(),
                pos0 == start.position(),
                id0 == start.ids_used(),
                p_program(ts, pos0, id0, Seq::empty(), Seq::empty()) == p_program(
                    ts,
                    self.position(),
                    self.ids_used(),
                    stmts_view(stmts@),
                    error_views(errors@),
                ),
            decreases self.tokens@.len() - self.current,
        {
            match self.declaration() {
                Ok(s) => {
                    proof {
                        lemma_stmts_view_push(stmts@, s);
                    }
                    stmts.push(s);
                },
                Err(e) => {
                    let ghost before = error_views(errors@);
                    errors.push(e);
                    assert(error_views(errors@) =~= before.push(e@));
                    self.synchronize();
                },
            }
        }
        if errors.len() == 0 {
            Ok(stmts)
        } else {
            Err(errors)
        }
    }
}

} // verus!
