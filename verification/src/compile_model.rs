//! What the bytecode compiler computes, as functions on a model of its
//! state: the tokens with the read position, one token of lookahead, the
//! errors reported, and per function being compiled its code, line table,
//! constants, locals and upvalues. `spec_compile` is the outcome of a whole
//! compilation.

use vstd::prelude::*;
use crate::chunk::{Constant, ObjFunction, OpCode, spec_op_byte};
use crate::compiler::{
    FunctionType, InfixRule, Precedence, PrefixRule, compile_error_text, error_location, hi_byte, lo_byte, prec_level,
    spec_rule, token_stream,
};
use crate::vm_scanner::{TokenType, TokenView};

verus! {

// ----- compiled functions -----

/// Model of a compiled function.
pub struct FnM {
    pub name: Option<Seq<char>>,
    pub arity: nat,
    pub code: Seq<u8>,
    pub lines: Seq<nat>,
    pub consts: Seq<ConstM>,
    pub upvalue_count: nat,
}

/// Model of a constant.
pub enum ConstM {
    Number(Seq<char>),
    Str(Seq<char>),
    Function(FnM),
}

pub open spec fn fn_model(f: ObjFunction) -> FnM
    decreases f, 2int,
{
    FnM {
        name: match f.name {
            Some(n) => Some(n@),
            None => None,
        },
        arity: f.arity as nat,
        code: f.chunk.code@,
        lines: f.chunk.lines@.map_values(|l: usize| l as nat),
        consts: consts_model(f.chunk.constants@),
        upvalue_count: f.upvalue_count as nat,
    }
}

pub open spec fn consts_model(cs: Seq<Constant>) -> Seq<ConstM>
    decreases cs, 1int,
{
    if cs.len() == 0 {
        Seq::empty()
    } else {
        seq![const_model(cs[0])] + consts_model(cs.drop_first())
    }
}

pub open spec fn const_model(c: Constant) -> ConstM
    decreases c, 0int,
{
    match c {
        Constant::Number(t) => ConstM::Number(t@),
        Constant::Str(t) => ConstM::Str(t@),
        Constant::Function(f) => ConstM::Function(fn_model(*f)),
    }
}

// ----- the compiler's state -----

/// A local variable: name, depth (-1 while its initializer is compiled),
/// whether a closure captures it.
pub struct LocalM {
    pub name: Seq<char>,
    pub depth: int,
    pub captured: bool,
}

/// One function being compiled.
pub struct StateM {
    pub func: FnM,
    pub fn_type: FunctionType,
    pub locals: Seq<LocalM>,
    pub depth: int,
    pub ups: Seq<(u8, bool)>,
}

/// Tokens, read position, lookahead, last token, panic mode, errors, and
/// per class being compiled, the innermost last, whether it has a
/// superclass.
pub struct ParserM {
    pub tokens: Seq<TokenView>,
    pub next: nat,
    pub current: TokenView,
    pub previous: TokenView,
    pub panic: bool,
    pub errors: Seq<Seq<char>>,
    pub classes: Seq<bool>,
}

/// The whole compiler: the parser and the functions being compiled, the
/// innermost last.
pub struct CM {
    pub p: ParserM,
    pub states: Seq<StateM>,
}

/// Twice the tokens left, plus one while the lookahead is not the end.
pub open spec fn rem(m: CM) -> int {
    2 * (m.p.tokens.len() - m.p.next) + if m.p.current.ttype == TokenType::Eof { 0int } else { 1int }
}

pub open spec fn top_of(m: CM) -> StateM {
    m.states.last()
}

pub open spec fn with_top(m: CM, s: StateM) -> CM {
    CM { states: m.states.update(m.states.len() - 1, s), ..m }
}

pub open spec fn with_p(m: CM, p: ParserM) -> CM {
    CM { p, ..m }
}

// ----- reading tokens and reporting errors -----

/// Error `msg` at token `at`: recorded unless in panic mode, which it
/// enters.
#[verifier::opaque]
pub open spec fn m_report(m: CM, at: TokenView, msg: Seq<char>) -> CM {
    if m.p.panic {
        m
    } else {
        with_p(m, ParserM { panic: true, errors: m.p.errors.push(compile_error_text(at.line, error_location(at), msg)), ..m.p })
    }
}

/// Error `msg` at the token read last.
#[verifier::opaque]
pub open spec fn m_error(m: CM, msg: Seq<char>) -> CM {
    m_report(m, m.p.previous, msg)
}

/// The next token becomes the lookahead (the last one again at the end).
#[verifier::opaque]
pub open spec fn m_read(m: CM) -> CM {
    if m.p.next < m.p.tokens.len() {
        with_p(m, ParserM { current: m.p.tokens[m.p.next as int], next: m.p.next + 1, ..m.p })
    } else {
        with_p(m, ParserM { current: m.p.tokens.last(), ..m.p })
    }
}

/// Reads tokens until one is not an error token, reporting each error
/// token read.
pub open spec fn m_read_past_errors(m: CM) -> CM
    decreases m.p.tokens.len() - m.p.next,
{
    let m1 = m_read(m);
    if m1.p.current.ttype != TokenType::Error || m.p.next >= m.p.tokens.len() {
        m1
    } else {
        proof {
            reveal(m_read);
            reveal(m_report);
        }
        m_read_past_errors(m_report(m1, m1.p.current, m1.p.current.lexeme))
    }
}

/// Steps to the next token that is not an error token.
#[verifier::opaque]
pub open spec fn m_advance(m: CM) -> CM {
    m_read_past_errors(with_p(m, ParserM { previous: m.p.current, ..m.p }))
}

/// Steps past a `tt` token, or reports `msg` at the lookahead.
#[verifier::opaque]
pub open spec fn m_consume(m: CM, tt: TokenType, msg: Seq<char>) -> CM {
    if m.p.current.ttype == tt {
        m_advance(m)
    } else {
        m_report(m, m.p.current, msg)
    }
}

/// Steps past the lookahead when it is a `tt` token.
#[verifier::opaque]
pub open spec fn m_match(m: CM, tt: TokenType) -> CM {
    if m.p.current.ttype == tt {
        m_advance(m)
    } else {
        m
    }
}

// ----- emitting code -----

#[verifier::opaque]
pub open spec fn m_emit(m: CM, b: u8) -> CM {
    let t = top_of(m);
    with_top(
        m,
        StateM { func: FnM { code: t.func.code.push(b), lines: t.func.lines.push(m.p.previous.line), ..t.func }, ..t },
    )
}

#[verifier::opaque]
pub open spec fn m_emit_op(m: CM, op: OpCode) -> CM {
    m_emit(m, spec_op_byte(op))
}

#[verifier::opaque]
pub open spec fn m_emit_op_byte(m: CM, op: OpCode, x: u8) -> CM {
    m_emit(m_emit_op(m, op), x)
}

/// The implicit return that ends a function: the instance in slot zero
/// for an initializer, else `nil`.
#[verifier::opaque]
pub open spec fn m_emit_return(m: CM) -> CM {
    if top_of(m).fn_type == FunctionType::Initializer {
        m_emit_op(m_emit_op_byte(m, OpCode::GetLocal, 0u8), OpCode::Return)
    } else {
        m_emit_op(m_emit_op(m, OpCode::Nil), OpCode::Return)
    }
}

/// Adds a constant; its index, or 0 and an error past 256 constants.
#[verifier::opaque]
pub open spec fn m_make_constant(m: CM, c: ConstM) -> (CM, u8) {
    let t = top_of(m);
    let n = t.func.consts.len();
    let m1 = with_top(m, StateM { func: FnM { consts: t.func.consts.push(c), ..t.func }, ..t });
    if n > 255 {
        (m_error(m1, "Too many constants in one chunk."@), 0u8)
    } else {
        (m1, n as u8)
    }
}

#[verifier::opaque]
pub open spec fn m_emit_constant(m: CM, c: ConstM) -> CM {
    let (m1, i) = m_make_constant(m, c);
    m_emit_op_byte(m1, OpCode::Constant, i)
}

/// A jump with a placeholder operand, and the operand's position.
#[verifier::opaque]
pub open spec fn m_emit_jump(m: CM, op: OpCode) -> (CM, nat) {
    (m_emit(m_emit(m_emit_op(m, op), 0xffu8), 0xffu8), top_of(m).func.code.len() + 1)
}

/// Writes the distance to the end of the code into the operand at `offset`.
#[verifier::opaque]
pub open spec fn m_patch_jump(m: CM, offset: nat) -> CM {
    let t = top_of(m);
    let jump = (t.func.code.len() - offset - 2) as nat;
    let m1 = if jump > 65535 { m_error(m, "Too much code to jump over."@) } else { m };
    with_top(
        m1,
        StateM {
            func: FnM { code: t.func.code.update(offset as int, hi_byte(jump)).update(offset + 1 as int, lo_byte(jump)), ..t.func },
            ..t
        },
    )
}

/// A backward jump to `start`.
#[verifier::opaque]
pub open spec fn m_emit_loop(m: CM, start: nat) -> CM {
    let m1 = m_emit_op(m, OpCode::Loop);
    let back = top_of(m1).func.code.len() - start;
    let m2 = if back > 65533 { m_error(m1, "Loop body too large."@) } else { m1 };
    let off = (back + 2) as nat;
    m_emit(m_emit(m2, hi_byte(off)), lo_byte(off))
}

// ----- scopes and variables -----

#[verifier::opaque]
pub open spec fn m_begin_scope(m: CM) -> CM {
    let t = top_of(m);
    with_top(m, StateM { depth: t.depth + 1, ..t })
}

/// How many locals stay when a scope closes back to depth `d`.
pub open spec fn m_kept(ls: Seq<LocalM>, d: int) -> nat
    decreases ls.len(),
{
    if ls.len() > 0 && ls.last().depth > d {
        m_kept(ls.drop_last(), d)
    } else {
        ls.len()
    }
}

/// The code closing a scope back to depth `d`: per leaving local,
/// innermost first, a pop, or a close for a captured one.
pub open spec fn m_closing(ls: Seq<LocalM>, d: int) -> Seq<u8>
    decreases ls.len(),
{
    if ls.len() > 0 && ls.last().depth > d {
        seq![
            if ls.last().captured {
                spec_op_byte(OpCode::CloseUpvalue)
            } else {
                spec_op_byte(OpCode::Pop)
            },
        ] + m_closing(ls.drop_last(), d)
    } else {
        Seq::empty()
    }
}

#[verifier::opaque]
pub open spec fn m_end_scope(m: CM) -> CM {
    let t = top_of(m);
    let d = t.depth - 1;
    let code = m_closing(t.locals, d);
    with_top(
        m,
        StateM {
            func: FnM {
                code: t.func.code + code,
                lines: t.func.lines + Seq::new(code.len(), |i: int| m.p.previous.line),
                ..t.func
            },
            locals: t.locals.take(m_kept(t.locals, d) as int),
            depth: d,
            ..t
        },
    )
}

#[verifier::opaque]
pub open spec fn m_add_local(m: CM, name: Seq<char>) -> CM {
    let t = top_of(m);
    if t.locals.len() >= 256 {
        m_error(m, "Too many local variables in function."@)
    } else {
        with_top(m, StateM { locals: t.locals.push(LocalM { name, depth: -1, captured: false }), ..t })
    }
}

/// Whether `ls[..k]`, from the innermost out, declares `name` in the scope
/// at `depth`.
pub open spec fn m_declared(ls: Seq<LocalM>, name: Seq<char>, depth: int, k: nat) -> bool
    decreases k,
{
    if k == 0 || k > ls.len() {
        false
    } else if ls[k - 1].depth != -1 && ls[k - 1].depth < depth {
        false
    } else if ls[k - 1].name == name {
        true
    } else {
        m_declared(ls, name, depth, (k - 1) as nat)
    }
}

#[verifier::opaque]
pub open spec fn m_declare_variable(m: CM) -> CM {
    let t = top_of(m);
    if t.depth == 0 {
        m
    } else if m_declared(t.locals, m.p.previous.lexeme, t.depth, t.locals.len()) {
        m_error(m, "Already a variable with this name in this scope."@)
    } else {
        m_add_local(m, m.p.previous.lexeme)
    }
}

/// The innermost of `ls[..k]` named `name`.
pub open spec fn m_find_local(ls: Seq<LocalM>, name: Seq<char>, k: nat) -> Option<nat>
    decreases k,
{
    if k == 0 || k > ls.len() {
        None
    } else if ls[k - 1].name == name {
        Some((k - 1) as nat)
    } else {
        m_find_local(ls, name, (k - 1) as nat)
    }
}

#[verifier::opaque]
pub open spec fn m_resolve_local(m: CM, name: Seq<char>) -> (CM, Option<u8>) {
    let ls = top_of(m).locals;
    match m_find_local(ls, name, ls.len()) {
        None => (m, None),
        Some(i) => if ls[i as int].depth == -1 {
            (m_error(m, "Can't read local variable in its own initializer."@), None)
        } else {
            (m, Some(i as u8))
        },
    }
}

/// The first upvalue equal to (`index`, `is_local`) in `ups[..k]`.
pub open spec fn m_find_up(ups: Seq<(u8, bool)>, index: u8, is_local: bool, k: nat) -> Option<nat>
    decreases k,
{
    if k == 0 || k > ups.len() {
        None
    } else {
        match m_find_up(ups, index, is_local, (k - 1) as nat) {
            Some(i) => Some(i),
            None => if ups[k - 1] == (index, is_local) {
                Some((k - 1) as nat)
            } else {
                None
            },
        }
    }
}

#[verifier::opaque]
pub open spec fn m_add_upvalue(m: CM, si: nat, index: u8, is_local: bool) -> (CM, u8) {
    let s = m.states[si as int];
    match m_find_up(s.ups, index, is_local, s.ups.len()) {
        Some(i) => (m, i as u8),
        None => if s.ups.len() >= 256 {
            (m_error(m, "Too many closure variables in function."@), 0u8)
        } else {
            (CM { states: m.states.update(si as int, StateM { ups: s.ups.push((index, is_local)), ..s }), ..m }, s.ups.len() as u8)
        },
    }
}

/// The upvalue of function `si` through which `name` is reached in an
/// enclosing function, adding upvalues along the way.
pub open spec fn m_resolve_upvalue(m: CM, si: nat, name: Seq<char>) -> (CM, Option<u8>)
    decreases si,
{
    if si == 0 || si >= m.states.len() {
        (m, None)
    } else {
        let enc = (si - 1) as nat;
        let e = m.states[enc as int];
        match m_find_local(e.locals, name, e.locals.len()) {
            Some(slot) => {
                let l = e.locals[slot as int];
                let m1 = CM {
                    states: m.states.update(
                        enc as int,
                        StateM { locals: e.locals.update(slot as int, LocalM { captured: true, ..l }), ..e },
                    ),
                    ..m
                };
                let (m2, up) = m_add_upvalue(m1, si, slot as u8, true);
                (m2, Some(up))
            },
            None => {
                let (m1, r) = m_resolve_upvalue(m, enc, name);
                match r {
                    Some(up) => {
                        let (m2, x) = m_add_upvalue(m1, si, up, false);
                        (m2, Some(x))
                    },
                    None => (m1, None),
                }
            },
        }
    }
}

#[verifier::opaque]
pub open spec fn m_identifier_constant(m: CM, name: Seq<char>) -> (CM, u8) {
    m_make_constant(m, ConstM::Str(name))
}

#[verifier::opaque]
pub open spec fn m_mark_initialized(m: CM) -> CM {
    let t = top_of(m);
    if t.depth == 0 || t.locals.len() == 0 {
        m
    } else {
        let l = t.locals.last();
        with_top(m, StateM { locals: t.locals.update(t.locals.len() - 1, LocalM { depth: t.depth, ..l }), ..t })
    }
}

/// Reads a variable name and declares it; its name constant for a
/// global, 0 for a local.
#[verifier::opaque]
pub open spec fn m_parse_variable(m: CM, msg: Seq<char>) -> (CM, u8) {
    let m1 = m_declare_variable(m_consume(m, TokenType::Identifier, msg));
    if top_of(m1).depth > 0 {
        (m1, 0u8)
    } else {
        m_identifier_constant(m1, m1.p.previous.lexeme)
    }
}

#[verifier::opaque]
pub open spec fn m_define_variable(m: CM, global: u8) -> CM {
    if top_of(m).depth > 0 {
        m_mark_initialized(m)
    } else {
        m_emit_op_byte(m, OpCode::DefineGlobal, global)
    }
}

// ----- expressions -----

pub open spec fn spec_next(p: Precedence) -> Precedence {
    match p {
        Precedence::NoPrecedence => Precedence::Assignment,
        Precedence::Assignment => Precedence::Or,
        Precedence::Or => Precedence::And,
        Precedence::And => Precedence::Equality,
        Precedence::Equality => Precedence::Comparison,
        Precedence::Comparison => Precedence::Term,
        Precedence::Term => Precedence::Factor,
        Precedence::Factor => Precedence::Unary,
        Precedence::Unary => Precedence::Call,
        Precedence::Call => Precedence::Primary,
        Precedence::Primary => Precedence::Primary,
    }
}

pub open spec fn g_expression(m: CM) -> CM
    decreases rem(m), 4int,
{
    g_parse_precedence(m, Precedence::Assignment)
}

/// An expression of at least `prec`: the prefix rule of the first token,
/// then infix rules while the lookahead binds at least as tightly; `=`
/// after it, where assignment was allowed, is an invalid target.
pub open spec fn g_parse_precedence(m: CM, prec: Precedence) -> CM
    decreases rem(m), 2int,
{
    let m1 = m_advance(m);
    match spec_rule(m1.p.previous.ttype).prefix {
        None => m_error(m1, "Expect expression."@),
        Some(pr) => if 0 <= rem(m1) < rem(m) {
            let can = prec_level(prec) <= 1;
            let m2 = g_prefix(m1, pr, can);
            if 0 <= rem(m2) < rem(m) {
                let m3 = g_infix_loop(m2, prec, can);
                if can && m3.p.current.ttype == TokenType::Equal {
                    m_error(m_advance(m3), "Invalid assignment target."@)
                } else {
                    m3
                }
            } else {
                m2
            }
        } else {
            m1
        },
    }
}

pub open spec fn g_infix_loop(m: CM, prec: Precedence, can: bool) -> CM
    decreases rem(m), 0int,
{
    let r = spec_rule(m.p.current.ttype);
    if prec_level(prec) > prec_level(r.precedence) {
        m
    } else {
        match r.infix {
            None => m,
            Some(inf) => {
                let m1 = m_advance(m);
                if 0 <= rem(m1) < rem(m) {
                    let m2 = g_infix(m1, inf, can);
                    if 0 <= rem(m2) < rem(m) {
                        g_infix_loop(m2, prec, can)
                    } else {
                        m2
                    }
                } else {
                    m1
                }
            },
        }
    }
}

pub open spec fn g_prefix(m: CM, rule: PrefixRule, can: bool) -> CM
    decreases rem(m), 10int,
{
    match rule {
        PrefixRule::Grouping => g_grouping(m),
        PrefixRule::Unary => g_unary(m),
        PrefixRule::Variable => g_named_variable(m, m.p.previous.lexeme, can),
        PrefixRule::Text => m_emit_constant(
            m,
            ConstM::Str(m.p.previous.lexeme.subrange(1, m.p.previous.lexeme.len() - 1)),
        ),
        PrefixRule::Number => m_emit_constant(m, ConstM::Number(m.p.previous.lexeme)),
        PrefixRule::Literal => match m.p.previous.ttype {
            TokenType::False => m_emit_op(m, OpCode::False),
            TokenType::True => m_emit_op(m, OpCode::True),
            TokenType::Nil => m_emit_op(m, OpCode::Nil),
            _ => m,
        },
        PrefixRule::This => if m.p.classes.len() == 0 {
            m_error(m, "Can't use 'this' outside of a class."@)
        } else {
            m_get_variable(m, m.p.previous.lexeme)
        },
        PrefixRule::Super => g_super(m),
    }
}

pub open spec fn g_infix(m: CM, rule: InfixRule, can: bool) -> CM
    decreases rem(m), 10int,
{
    match rule {
        InfixRule::Call => g_call(m),
        InfixRule::Binary => g_binary(m),
        InfixRule::And => g_and(m),
        InfixRule::Or => g_or(m),
        InfixRule::Dot => g_dot(m, can),
    }
}

pub open spec fn g_grouping(m: CM) -> CM
    decreases rem(m), 6int,
{
    m_consume(g_expression(m), TokenType::RightParen, "Expect ')' after expression."@)
}

pub open spec fn g_unary(m: CM) -> CM
    decreases rem(m), 6int,
{
    let m1 = g_parse_precedence(m, Precedence::Unary);
    match m.p.previous.ttype {
        TokenType::Minus => m_emit_op(m1, OpCode::Negate),
        TokenType::Bang => m_emit_op(m1, OpCode::Not),
        _ => m1,
    }
}

/// The opcodes reading and writing `name`, and their operand: a local
/// slot, else an upvalue, else the name constant of a global.
#[verifier::opaque]
pub open spec fn m_variable_access(m: CM, name: Seq<char>) -> (CM, OpCode, OpCode, u8) {
    let (m1, loc) = m_resolve_local(m, name);
    match loc {
        Some(s) => (m1, OpCode::GetLocal, OpCode::SetLocal, s),
        None => {
            let (m2, up) = m_resolve_upvalue(m1, (m1.states.len() - 1) as nat, name);
            match up {
                Some(u) => (m2, OpCode::GetUpvalue, OpCode::SetUpvalue, u),
                None => {
                    let (m3, idx) = m_identifier_constant(m2, name);
                    (m3, OpCode::GetGlobal, OpCode::SetGlobal, idx)
                },
            }
        },
    }
}

pub open spec fn g_named_variable(m: CM, name: Seq<char>, can: bool) -> CM
    decreases rem(m), 6int,
{
    let (m1, get, set, arg) = m_variable_access(m, name);
    if can && m1.p.current.ttype == TokenType::Equal {
        let m2 = m_advance(m1);
        if 0 <= rem(m2) <= rem(m) {
            m_emit_op_byte(g_expression(m2), set, arg)
        } else {
            m2
        }
    } else {
        m_emit_op_byte(m1, get, arg)
    }
}

/// Reads the variable `name`.
#[verifier::opaque]
pub open spec fn m_get_variable(m: CM, name: Seq<char>) -> CM {
    let (m1, get, set, arg) = m_variable_access(m, name);
    m_emit_op_byte(m1, get, arg)
}

/// A property after `.`: assigned when assignable and `=` follows,
/// invoked when `(` follows, else read.
#[verifier::opaque]
pub open spec fn g_dot(m: CM, can: bool) -> CM
    decreases rem(m), 9int,
{
    let m1 = m_consume(m, TokenType::Identifier, "Expect property name after '.'."@);
    let (m2, name) = m_identifier_constant(m1, m1.p.previous.lexeme);
    if can && m2.p.current.ttype == TokenType::Equal {
        let a = m_advance(m2);
        if 0 <= rem(a) <= rem(m) {
            m_emit_op_byte(g_expression(a), OpCode::SetProperty, name)
        } else {
            a
        }
    } else if m2.p.current.ttype == TokenType::LeftParen {
        let a = m_advance(m2);
        if 0 <= rem(a) <= rem(m) {
            let (b, n) = g_arguments(a);
            m_emit(m_emit_op_byte(b, OpCode::Invoke, name), n)
        } else {
            a
        }
    } else {
        m_emit_op_byte(m2, OpCode::GetProperty, name)
    }
}

/// `super.name`: the method of the superclass bound to `this`, or, when
/// `(` follows, invoked on it.
#[verifier::opaque]
pub open spec fn g_super(m: CM) -> CM
    decreases rem(m), 9int,
{
    let m1 = if m.p.classes.len() == 0 {
        m_error(m, "Can't use 'super' outside of a class."@)
    } else if !m.p.classes.last() {
        m_error(m, "Can't use 'super' in a class with no superclass."@)
    } else {
        m
    };
    let m2 = m_consume(
        m_consume(m1, TokenType::Dot, "Expect '.' after 'super'."@),
        TokenType::Identifier,
        "Expect superclass method name."@,
    );
    let (m3, name) = m_identifier_constant(m2, m2.p.previous.lexeme);
    let m4 = m_get_variable(m3, "this"@);
    if m4.p.current.ttype == TokenType::LeftParen {
        let a = m_advance(m4);
        if 0 <= rem(a) <= rem(m) {
            let (b, n) = g_arguments(a);
            m_emit(m_emit_op_byte(m_get_variable(b, "super"@), OpCode::SuperInvoke, name), n)
        } else {
            a
        }
    } else {
        m_emit_op_byte(m_get_variable(m4, "super"@), OpCode::GetSuper, name)
    }
}

pub open spec fn g_binary(m: CM) -> CM
    decreases rem(m), 6int,
{
    let op = m.p.previous.ttype;
    let m1 = g_parse_precedence(m, spec_next(spec_rule(op).precedence));
    match op {
        TokenType::BangEqual => m_emit_op(m_emit_op(m1, OpCode::Equal), OpCode::Not),
        TokenType::EqualEqual => m_emit_op(m1, OpCode::Equal),
        TokenType::Greater => m_emit_op(m1, OpCode::Greater),
        TokenType::GreaterEqual => m_emit_op(m_emit_op(m1, OpCode::Less), OpCode::Not),
        TokenType::Less => m_emit_op(m1, OpCode::Less),
        TokenType::LessEqual => m_emit_op(m_emit_op(m1, OpCode::Greater), OpCode::Not),
        TokenType::Plus => m_emit_op(m1, OpCode::Add),
        TokenType::Minus => m_emit_op(m1, OpCode::Subtract),
        TokenType::Star => m_emit_op(m1, OpCode::Multiply),
        TokenType::Slash => m_emit_op(m1, OpCode::Divide),
        _ => m1,
    }
}

/// Emitting an instruction appends exactly its byte to the innermost
/// function's code.
pub proof fn lemma_emit_op_appends(m: CM, op: OpCode)
    requires
        m.states.len() > 0,
    ensures
        top_of(m_emit_op(m, op)).func.code == top_of(m).func.code.push(spec_op_byte(op)),
        m_emit_op(m, op).states.len() == m.states.len(),
{
    reveal(m_emit_op);
    reveal(m_emit);
}

/// A binary operator just read compiles as its right operand, parsed one
/// level tighter than the operator binds (factors for `+` and `-`, unary
/// operands for `*` and `/`, terms for comparisons, comparisons for
/// equality), followed by the instructions of that operator: `+` OP_ADD,
/// `-` OP_SUBTRACT, `*` OP_MULTIPLY, `/` OP_DIVIDE, `==` OP_EQUAL, `!=`
/// OP_EQUAL then OP_NOT, `>` OP_GREATER, `>=` OP_LESS then OP_NOT, `<`
/// OP_LESS, `<=` OP_GREATER then OP_NOT.
pub proof fn lemma_binary_operator_code(m: CM)
    ensures
        m.p.previous.ttype == TokenType::Plus ==> g_binary(m) == m_emit_op(
            g_parse_precedence(m, Precedence::Factor),
            OpCode::Add,
        ),
        m.p.previous.ttype == TokenType::Minus ==> g_binary(m) == m_emit_op(
            g_parse_precedence(m, Precedence::Factor),
            OpCode::Subtract,
        ),
        m.p.previous.ttype == TokenType::Star ==> g_binary(m) == m_emit_op(
            g_parse_precedence(m, Precedence::Unary),
            OpCode::Multiply,
        ),
        m.p.previous.ttype == TokenType::Slash ==> g_binary(m) == m_emit_op(
            g_parse_precedence(m, Precedence::Unary),
            OpCode::Divide,
        ),
        m.p.previous.ttype == TokenType::EqualEqual ==> g_binary(m) == m_emit_op(
            g_parse_precedence(m, Precedence::Comparison),
            OpCode::Equal,
        ),
        m.p.previous.ttype == TokenType::BangEqual ==> g_binary(m) == m_emit_op(
            m_emit_op(g_parse_precedence(m, Precedence::Comparison), OpCode::Equal),
            OpCode::Not,
        ),
        m.p.previous.ttype == TokenType::Greater ==> g_binary(m) == m_emit_op(
            g_parse_precedence(m, Precedence::Term),
            OpCode::Greater,
        ),
        m.p.previous.ttype == TokenType::GreaterEqual ==> g_binary(m) == m_emit_op(
            m_emit_op(g_parse_precedence(m, Precedence::Term), OpCode::Less),
            OpCode::Not,
        ),
        m.p.previous.ttype == TokenType::Less ==> g_binary(m) == m_emit_op(
            g_parse_precedence(m, Precedence::Term),
            OpCode::Less,
        ),
        m.p.previous.ttype == TokenType::LessEqual ==> g_binary(m) == m_emit_op(
            m_emit_op(g_parse_precedence(m, Precedence::Term), OpCode::Greater),
            OpCode::Not,
        ),
{
}

/// A prefix `-` compiles as its operand, a unary expression, followed by
/// OP_NEGATE; a prefix `!` likewise followed by OP_NOT. The literals
/// `true`, `false` and `nil` compile to their own instruction.
pub proof fn lemma_unary_and_literal_code(m: CM, can: bool)
    ensures
        m.p.previous.ttype == TokenType::Minus ==> g_unary(m) == m_emit_op(
            g_parse_precedence(m, Precedence::Unary),
            OpCode::Negate,
        ),
        m.p.previous.ttype == TokenType::Bang ==> g_unary(m) == m_emit_op(
            g_parse_precedence(m, Precedence::Unary),
            OpCode::Not,
        ),
        m.p.previous.ttype == TokenType::True ==> g_prefix(m, PrefixRule::Literal, can) == m_emit_op(m, OpCode::True),
        m.p.previous.ttype == TokenType::False ==> g_prefix(m, PrefixRule::Literal, can) == m_emit_op(m, OpCode::False),
        m.p.previous.ttype == TokenType::Nil ==> g_prefix(m, PrefixRule::Literal, can) == m_emit_op(m, OpCode::Nil),
{
}

pub open spec fn g_call(m: CM) -> CM
    decreases rem(m), 8int,
{
    let (m1, n) = g_arguments(m);
    m_emit_op_byte(m1, OpCode::Call, n)
}

/// The arguments of a call up to its `)`, and how many (at most 255).
pub open spec fn g_arguments(m: CM) -> (CM, u8)
    decreases rem(m), 7int,
{
    if m.p.current.ttype == TokenType::RightParen {
        (m_consume(m, TokenType::RightParen, "Expect ')' after arguments."@), 0u8)
    } else {
        let (m1, n) = g_argument_loop(m, 0);
        (m_consume(m1, TokenType::RightParen, "Expect ')' after arguments."@), n)
    }
}

pub open spec fn g_argument_loop(m: CM, count: u8) -> (CM, u8)
    decreases rem(m), 5int,
{
    let m1 = g_expression(m);
    let m2 = if count == 255 { m_error(m1, "Can't have more than 255 arguments."@) } else { m1 };
    let c = if count < 255 { (count + 1) as u8 } else { count };
    if m2.p.current.ttype == TokenType::Comma {
        let m3 = m_advance(m2);
        if 0 <= rem(m3) < rem(m) {
            g_argument_loop(m3, c)
        } else {
            (m3, c)
        }
    } else {
        (m2, c)
    }
}

pub open spec fn g_and(m: CM) -> CM
    decreases rem(m), 6int,
{
    let (m1, end_jump) = m_emit_jump(m, OpCode::JumpIfFalse);
    let m2 = m_emit_op(m1, OpCode::Pop);
    if 0 <= rem(m2) <= rem(m) {
        m_patch_jump(g_parse_precedence(m2, Precedence::And), end_jump)
    } else {
        m2
    }
}

pub open spec fn g_or(m: CM) -> CM
    decreases rem(m), 6int,
{
    let (m1, else_jump) = m_emit_jump(m, OpCode::JumpIfFalse);
    let (m2, end_jump) = m_emit_jump(m1, OpCode::Jump);
    let m3 = m_emit_op(m_patch_jump(m2, else_jump), OpCode::Pop);
    if 0 <= rem(m3) <= rem(m) {
        m_patch_jump(g_parse_precedence(m3, Precedence::Or), end_jump)
    } else {
        m3
    }
}

// ----- statements and declarations -----

pub open spec fn g_print(m: CM) -> CM
    decreases rem(m), 12int,
{
    m_emit_op(m_consume(g_expression(m), TokenType::Semicolon, "Expect ';' after value."@), OpCode::Print)
}

pub open spec fn g_expression_statement(m: CM) -> CM
    decreases rem(m), 12int,
{
    m_emit_op(m_consume(g_expression(m), TokenType::Semicolon, "Expect ';' after expression."@), OpCode::Pop)
}

pub open spec fn g_return(m: CM) -> CM
    decreases rem(m), 12int,
{
    let m1 = if top_of(m).fn_type == FunctionType::Script {
        m_error(m, "Can't return from top-level code."@)
    } else {
        m
    };
    if m1.p.current.ttype == TokenType::Semicolon {
        m_emit_return(m_advance(m1))
    } else {
        let m2 = if top_of(m1).fn_type == FunctionType::Initializer {
            m_error(m1, "Can't return a value from an initializer."@)
        } else {
            m1
        };
        if 0 <= rem(m2) <= rem(m) {
            m_emit_op(
                m_consume(g_expression(m2), TokenType::Semicolon, "Expect ';' after return value."@),
                OpCode::Return,
            )
        } else {
            m2
        }
    }
}

pub open spec fn g_var_declaration(m: CM) -> CM
    decreases rem(m), 12int,
{
    let (m1, g) = m_parse_variable(m, "Expect variable name."@);
    let m2 = if m1.p.current.ttype == TokenType::Equal {
        let a = m_advance(m1);
        if 0 <= rem(a) <= rem(m) {
            g_expression(a)
        } else {
            a
        }
    } else {
        m_emit_op(m1, OpCode::Nil)
    };
    m_define_variable(m_consume(m2, TokenType::Semicolon, "Expect ';' after variable declaration."@), g)
}

pub open spec fn g_if(m: CM) -> CM
    decreases rem(m), 16int,
{
    let m1 = m_consume(m, TokenType::LeftParen, "Expect '(' after 'if'."@);
    if !(0 <= rem(m1) <= rem(m)) {
        m1
    } else {
        let m2 = m_consume(g_expression(m1), TokenType::RightParen, "Expect ')' after condition."@);
        let (m3, then_jump) = m_emit_jump(m2, OpCode::JumpIfFalse);
        let m4 = m_emit_op(m3, OpCode::Pop);
        if !(0 <= rem(m4) <= rem(m)) {
            m4
        } else {
            let (m6, else_jump) = m_emit_jump(g_statement(m4), OpCode::Jump);
            let m7 = m_emit_op(m_patch_jump(m6, then_jump), OpCode::Pop);
            let m8 = if m7.p.current.ttype == TokenType::Else {
                let a = m_advance(m7);
                if 0 <= rem(a) <= rem(m) {
                    g_statement(a)
                } else {
                    a
                }
            } else {
                m7
            };
            m_patch_jump(m8, else_jump)
        }
    }
}

pub open spec fn g_while(m: CM) -> CM
    decreases rem(m), 16int,
{
    let start = top_of(m).func.code.len();
    let m1 = m_consume(m, TokenType::LeftParen, "Expect '(' after 'while'."@);
    if !(0 <= rem(m1) <= rem(m)) {
        m1
    } else {
        let m2 = m_consume(g_expression(m1), TokenType::RightParen, "Expect ')' after condition."@);
        let (m3, exit) = m_emit_jump(m2, OpCode::JumpIfFalse);
        let m4 = m_emit_op(m3, OpCode::Pop);
        if !(0 <= rem(m4) <= rem(m)) {
            m4
        } else {
            m_emit_op(m_patch_jump(m_emit_loop(g_statement(m4), start), exit), OpCode::Pop)
        }
    }
}

/// The clauses of a `for` after its initializer: the condition with its
/// exit jump, and the increment, which becomes the loop's start.
pub open spec fn g_for_clauses(m: CM) -> (CM, Option<nat>, nat)
    decreases rem(m), 13int,
{
    let loop_start = top_of(m).func.code.len();
    let (m3, exit) = if m.p.current.ttype == TokenType::Semicolon {
        (m_advance(m), None)
    } else {
        let b = m_consume(g_expression(m), TokenType::Semicolon, "Expect ';' after loop condition."@);
        let (c, j) = m_emit_jump(b, OpCode::JumpIfFalse);
        (m_emit_op(c, OpCode::Pop), Some(j))
    };
    if !(0 <= rem(m3) <= rem(m)) {
        (m3, exit, loop_start)
    } else if m3.p.current.ttype == TokenType::RightParen {
        (m_advance(m3), exit, loop_start)
    } else {
        let (a, body_jump) = m_emit_jump(m3, OpCode::Jump);
        let inc = top_of(a).func.code.len();
        let b = m_consume(m_emit_op(g_expression(a), OpCode::Pop), TokenType::RightParen, "Expect ')' after for clauses."@);
        (m_patch_jump(m_emit_loop(b, loop_start), body_jump), exit, inc)
    }
}

/// The initializer clause of a `for`: nothing, a variable declaration or
/// an expression statement.
pub open spec fn g_for_initializer(m: CM) -> CM
    decreases rem(m), 13int,
{
    if m.p.current.ttype == TokenType::Semicolon {
        m_advance(m)
    } else if m.p.current.ttype == TokenType::Var {
        let a = m_advance(m);
        if 0 <= rem(a) <= rem(m) {
            g_var_declaration(a)
        } else {
            a
        }
    } else {
        g_expression_statement(m)
    }
}

#[verifier::rlimit(50)]
pub open spec fn g_for(m: CM) -> CM
    decreases rem(m), 16int,
{
    let m1 = m_consume(m_begin_scope(m), TokenType::LeftParen, "Expect '(' after 'for'."@);
    if !(0 <= rem(m1) <= rem(m)) {
        m1
    } else {
        let m2 = g_for_initializer(m1);
        if !(0 <= rem(m2) <= rem(m)) {
            m2
        } else {
            let (m4, exit, start) = g_for_clauses(m2);
            if !(0 <= rem(m4) <= rem(m)) {
                m4
            } else {
                m_end_scope(g_for_rest(m4, exit, start))
            }
        }
    }
}

/// The body of a `for`, the jump back to its start and the exit.
pub open spec fn g_for_rest(m: CM, exit: Option<nat>, start: nat) -> CM
    decreases rem(m), 15int,
{
    let m5 = m_emit_loop(g_statement(m), start);
    match exit {
        Some(j) => m_emit_op(m_patch_jump(m5, j), OpCode::Pop),
        None => m5,
    }
}

pub open spec fn g_statement(m: CM) -> CM
    decreases rem(m), 14int,
{
    let tt = m.p.current.ttype;
    if tt == TokenType::Print || tt == TokenType::Return {
        let a = m_advance(m);
        if 0 <= rem(a) <= rem(m) {
            if tt == TokenType::Print {
                g_print(a)
            } else {
                g_return(a)
            }
        } else {
            a
        }
    } else if tt == TokenType::If || tt == TokenType::While || tt == TokenType::For || tt == TokenType::LeftBrace {
        let a = m_advance(m);
        if 0 <= rem(a) < rem(m) {
            if tt == TokenType::If {
                g_if(a)
            } else if tt == TokenType::While {
                g_while(a)
            } else if tt == TokenType::For {
                g_for(a)
            } else {
                let b = m_begin_scope(a);
                if 0 <= rem(b) < rem(m) {
                    m_end_scope(g_block(b))
                } else {
                    b
                }
            }
        } else {
            a
        }
    } else {
        g_expression_statement(m)
    }
}

pub open spec fn g_block_loop(m: CM) -> CM
    decreases rem(m), 19int,
{
    if m.p.current.ttype == TokenType::RightBrace || m.p.current.ttype == TokenType::Eof {
        m
    } else {
        let m1 = g_declaration(m);
        if 0 <= rem(m1) < rem(m) {
            g_block_loop(m1)
        } else {
            m1
        }
    }
}

pub open spec fn g_block(m: CM) -> CM
    decreases rem(m), 20int,
{
    m_consume(g_block_loop(m), TokenType::RightBrace, "Expect '}' after block."@)
}

/// Leaves panic mode and skips to a statement boundary: past a `;`, or
/// before a keyword that starts a statement.
pub open spec fn m_sync_loop(m: CM) -> CM
    decreases rem(m),
{
    let tt = m.p.current.ttype;
    if tt == TokenType::Eof || m.p.previous.ttype == TokenType::Semicolon {
        m
    } else if tt == TokenType::Class || tt == TokenType::Fun || tt == TokenType::Var || tt == TokenType::For
        || tt == TokenType::If || tt == TokenType::While || tt == TokenType::Print || tt == TokenType::Return {
        m
    } else {
        let a = m_advance(m);
        if 0 <= rem(a) < rem(m) {
            m_sync_loop(a)
        } else {
            a
        }
    }
}

#[verifier::opaque]
pub open spec fn m_synchronize(m: CM) -> CM {
    m_sync_loop(with_p(m, ParserM { panic: false, ..m.p }))
}

pub open spec fn g_declaration(m: CM) -> CM
    decreases rem(m), 18int,
{
    let tt = m.p.current.ttype;
    let m1 = if tt == TokenType::Class || tt == TokenType::Fun || tt == TokenType::Var {
        let a = m_advance(m);
        if 0 <= rem(a) < rem(m) {
            if tt == TokenType::Class {
                g_class_declaration(a)
            } else if tt == TokenType::Fun {
                g_fun_declaration(a)
            } else {
                g_var_declaration(a)
            }
        } else {
            a
        }
    } else {
        g_statement(m)
    };
    if m1.p.panic {
        m_synchronize(m1)
    } else {
        m1
    }
}

/// Parameters of the function being compiled, each a local, until no
/// comma follows.
pub open spec fn m_parameters(m: CM) -> CM
    decreases rem(m),
{
    let m1 = if top_of(m).func.arity >= 255 {
        m_report(m, m.p.current, "Can't have more than 255 parameters."@)
    } else {
        m
    };
    let t = top_of(m1);
    let m2 = with_top(m1, StateM { func: FnM { arity: t.func.arity + 1, ..t.func }, ..t });
    let (m3, c) = m_parse_variable(m2, "Expect parameter name."@);
    let m4 = m_define_variable(m3, c);
    if m4.p.current.ttype == TokenType::Comma {
        let a = m_advance(m4);
        if 0 <= rem(a) < rem(m) {
            m_parameters(a)
        } else {
            a
        }
    } else {
        m4
    }
}

/// The operand pairs of a closure instruction: per upvalue, whether it is
/// a local of the enclosing function, and its index.
pub open spec fn m_emit_upvalues(m: CM, ups: Seq<(u8, bool)>, i: nat) -> CM
    decreases ups.len() - i,
{
    if i >= ups.len() {
        m
    } else {
        m_emit_upvalues(m_emit(m_emit(m, if ups[i as int].1 { 1u8 } else { 0u8 }), ups[i as int].0), ups, i + 1)
    }
}

/// The name of slot zero: `this` in a method or initializer, else empty.
pub open spec fn slot_zero_name(fn_type: FunctionType) -> Seq<char> {
    if fn_type == FunctionType::Method || fn_type == FunctionType::Initializer {
        "this"@
    } else {
        Seq::empty()
    }
}

/// The state of a function named `name` as its compilation starts: slot
/// zero holds the function itself, or the instance in a method.
pub open spec fn fresh_state(name: Option<Seq<char>>, fn_type: FunctionType) -> StateM {
    StateM {
        func: FnM { name, arity: 0, code: Seq::empty(), lines: Seq::empty(), consts: Seq::empty(), upvalue_count: 0 },
        fn_type,
        locals: seq![LocalM { name: slot_zero_name(fn_type), depth: 0, captured: false }],
        depth: 0,
        ups: Seq::empty(),
    }
}

/// The body of the function just named, compiled into a function of its
/// own; the enclosing code gets its constant and a closure instruction
/// with the captured variables.
pub open spec fn g_function_body(m: CM, fn_type: FunctionType) -> CM
    decreases rem(m), 22int,
{
    let pushed = CM { states: m.states.push(fresh_state(Some(m.p.previous.lexeme), fn_type)), ..m };
    let m2 = m_consume(m_begin_scope(pushed), TokenType::LeftParen, "Expect '(' after function name."@);
    let m3 = if m2.p.current.ttype == TokenType::RightParen { m2 } else { m_parameters(m2) };
    let m4 = m_consume(
        m_consume(m3, TokenType::RightParen, "Expect ')' after parameters."@),
        TokenType::LeftBrace,
        "Expect '{' before function body."@,
    );
    if !(0 <= rem(m4) <= rem(m)) {
        m4
    } else {
        let m5 = m_emit_return(g_block(m4));
        let done = top_of(m5);
        let outer = CM { states: m5.states.drop_last(), ..m5 };
        let f = FnM { upvalue_count: done.ups.len(), ..done.func };
        let (m6, idx) = m_make_constant(outer, ConstM::Function(f));
        m_emit_upvalues(m_emit_op_byte(m6, OpCode::Closure, idx), done.ups, 0)
    }
}

pub open spec fn g_fun_declaration(m: CM) -> CM
    decreases rem(m), 24int,
{
    let (m1, g) = m_parse_variable(m, "Expect function name."@);
    let m2 = m_mark_initialized(m1);
    if 0 <= rem(m2) <= rem(m) {
        m_define_variable(g_function_body(m2, FunctionType::Function), g)
    } else {
        m2
    }
}

// ----- classes -----

/// A method: its name constant, then its function, an initializer when
/// named `init`.
#[verifier::opaque]
pub open spec fn g_method(m: CM) -> CM
    decreases rem(m), 23int,
{
    let m1 = m_consume(m, TokenType::Identifier, "Expect method name."@);
    let (m2, c) = m_identifier_constant(m1, m1.p.previous.lexeme);
    let ft = if m1.p.previous.lexeme == "init"@ {
        FunctionType::Initializer
    } else {
        FunctionType::Method
    };
    if 0 <= rem(m2) <= rem(m) {
        m_emit_op_byte(g_function_body(m2, ft), OpCode::Method, c)
    } else {
        m2
    }
}

/// Methods up to the `}` of the class body.
#[verifier::opaque]
pub open spec fn g_methods(m: CM) -> CM
    decreases rem(m), 24int,
{
    if m.p.current.ttype == TokenType::RightBrace || m.p.current.ttype == TokenType::Eof {
        m
    } else {
        let m1 = g_method(m);
        if 0 <= rem(m1) < rem(m) {
            g_methods(m1)
        } else {
            m1
        }
    }
}

/// After `<`: the superclass read, bound as the local `super` of a new
/// scope, and inherited by the class `class_name`.
#[verifier::opaque]
pub open spec fn m_superclass(m: CM, class_name: Seq<char>) -> CM {
    let a = m_consume(m, TokenType::Identifier, "Expect superclass name."@);
    let b = m_get_variable(a, a.p.previous.lexeme);
    let c = if class_name == a.p.previous.lexeme {
        m_error(b, "A class can't inherit from itself."@)
    } else {
        b
    };
    let d = m_define_variable(m_add_local(m_begin_scope(c), "super"@), 0u8);
    m_emit_op(m_get_variable(d, class_name), OpCode::Inherit)
}

/// The innermost class being compiled has a superclass.
#[verifier::opaque]
pub open spec fn m_mark_superclass(m: CM) -> CM {
    with_p(m, ParserM { classes: m.p.classes.update(m.p.classes.len() - 1, true), ..m.p })
}

/// The class `class_name` loaded for the methods of the body, bound to it
/// one by one up to `}`.
#[verifier::opaque]
pub open spec fn g_class_body(m: CM, class_name: Seq<char>) -> CM
    decreases rem(m), 25int,
{
    let m1 = m_consume(m_get_variable(m, class_name), TokenType::LeftBrace, "Expect '{' before class body."@);
    if 0 <= rem(m1) <= rem(m) {
        m_emit_op(m_consume(g_methods(m1), TokenType::RightBrace, "Expect '}' after class body."@), OpCode::Pop)
    } else {
        m1
    }
}

/// A class: its name declared and bound to a new class, the superclass
/// if `<` follows, then the body.
#[verifier::opaque]
pub open spec fn g_class_declaration(m: CM) -> CM
    decreases rem(m), 26int,
{
    let m1 = m_consume(m, TokenType::Identifier, "Expect class name."@);
    let class_name = m1.p.previous.lexeme;
    let (m2, nc) = m_identifier_constant(m1, class_name);
    let m3 = m_define_variable(m_emit_op_byte(m_declare_variable(m2), OpCode::Class, nc), nc);
    let m4 = with_p(m3, ParserM { classes: m3.p.classes.push(false), ..m3.p });
    let sup = m4.p.current.ttype == TokenType::Less;
    let m5 = if sup {
        m_mark_superclass(m_superclass(m_advance(m4), class_name))
    } else {
        m4
    };
    if 0 <= rem(m5) <= rem(m) {
        let m6 = g_class_body(m5, class_name);
        let m7 = if sup {
            m_end_scope(m6)
        } else {
            m6
        };
        with_p(m7, ParserM { classes: m7.p.classes.drop_last(), ..m7.p })
    } else {
        m5
    }
}

// ----- the script -----

/// The compiler as it starts on `s`: the tokens scanned, the first as
/// lookahead, one function (the script) being compiled.
pub open spec fn initial_model(s: Seq<char>) -> CM {
    let ts = token_stream(s, 0, 1);
    CM {
        p: ParserM {
            tokens: ts,
            next: 1,
            current: ts[0],
            previous: TokenView { ttype: TokenType::Eof, lexeme: Seq::empty(), line: 0 },
            panic: false,
            errors: Seq::empty(),
            classes: Seq::empty(),
        },
        states: seq![fresh_state(None, FunctionType::Script)],
    }
}

/// Reports and skips the error tokens at the start.
pub open spec fn m_leading_errors(m: CM) -> CM
    decreases m.p.tokens.len() - m.p.next,
{
    if m.p.current.ttype != TokenType::Error {
        m
    } else {
        let m2 = m_read(m_report(m, m.p.current, m.p.current.lexeme));
        proof {
            reveal(m_read);
            reveal(m_report);
        }
        if m.p.next < m.p.tokens.len() {
            m_leading_errors(m2)
        } else {
            m2
        }
    }
}

pub open spec fn g_script_loop(m: CM) -> CM
    decreases rem(m),
{
    if m.p.current.ttype == TokenType::Eof {
        m
    } else {
        let m1 = g_declaration(m);
        if 0 <= rem(m1) < rem(m) {
            g_script_loop(m1)
        } else {
            m1
        }
    }
}

/// The outcome of compiling a script from state `m0`: the script
/// function, or every error reported, in order.
pub open spec fn script_outcome(m0: CM) -> Result<FnM, Seq<Seq<char>>> {
    let m = m_emit_return(g_script_loop(m_leading_errors(m0)));
    if m.p.errors.len() > 0 {
        Err(m.p.errors)
    } else {
        Ok(top_of(m).func)
    }
}

/// The outcome of compiling `s`.
pub open spec fn spec_compile(s: Seq<char>) -> Result<FnM, Seq<Seq<char>>> {
    script_outcome(initial_model(s))
}

} // verus!
