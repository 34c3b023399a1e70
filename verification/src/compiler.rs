//! Single-pass compiler of the bytecode machine.
//!
//! Reads the tokens of a script once and emits the chunk of the script and
//! of every function and method declared in it, resolving local variables
//! to stack slots and captured variables to upvalues; classes, properties,
//! `this` and `super` compile to the machine's class instructions. Syntax
//! errors are collected as `[line N] Error at '<lexeme>': <message>` (`at
//! end` at the end of the input, no location for a scanner error); after
//! one, the compiler stays quiet until it reaches a statement boundary
//! (panic mode) and then goes on.
//!
//! The tokens are scanned up front; the compiler then walks them with one
//! token of lookahead, reporting scanner error tokens as it reaches them.
//! Each step is proved to compute what `compile_model` says of the model of
//! the compiler's state, so `compile` gives exactly `spec_compile`.

use vstd::prelude::*;
use std::rc::Rc;
use crate::chunk::{Chunk, Constant, ObjFunction, OpCode, spec_op_byte};
use crate::text::{chars_of, decimal, push_decimal, string_from_chars, string_of};
use crate::vm_scanner::{Scanner, Token, TokenType, TokenView, lemma_next_token_progress, next_token};
use crate::compile_model::{
    CM, slot_zero_name, m_get_variable, g_dot, g_super, g_method, g_class_body, g_methods, m_superclass,
    g_class_declaration, m_mark_superclass, ConstM, FnM, LocalM, ParserM, StateM, const_model, consts_model, fn_model, m_advance, m_begin_scope,
    m_closing, m_consume, m_emit, m_emit_constant, m_emit_jump, m_emit_loop, m_emit_op, m_emit_op_byte,
    m_emit_return, m_error, m_kept, m_make_constant, m_match, m_patch_jump, m_read, m_read_past_errors,
    m_report, rem, top_of, with_p, with_top, m_declared, m_find_local, m_find_up, m_end_scope, m_add_local,
    m_declare_variable, m_resolve_local, m_add_upvalue, m_resolve_upvalue, m_identifier_constant,
    m_mark_initialized, m_parse_variable, m_define_variable, g_expression, g_parse_precedence, g_infix_loop,
    g_prefix, g_infix, g_grouping, g_unary, g_named_variable, g_binary, g_call, g_arguments, g_argument_loop,
    g_and, g_or, m_variable_access, spec_next, g_print, g_expression_statement, g_return, g_var_declaration,
    g_if, g_while, g_for, g_for_initializer, g_for_clauses, g_for_rest, g_statement, g_block, g_block_loop,
    g_declaration, g_fun_declaration, g_function_body, m_parameters, m_emit_upvalues, m_synchronize, m_sync_loop,
    fresh_state, initial_model, m_leading_errors, g_script_loop, script_outcome, spec_compile,
};

verus! {

// ----- the token stream -----

/// The tokens the scanner yields from `pos` on, up to and with the
/// end-of-file token.
pub open spec fn token_stream(s: Seq<char>, pos: nat, line: nat) -> Seq<TokenView>
    decreases s.len() - pos,
{
    let (t, p, l) = next_token(s, pos, line);
    if t.ttype == TokenType::Eof || p <= pos || p > s.len() {
        seq![t]
    } else {
        seq![t] + token_stream(s, p, l)
    }
}

pub open spec fn views(ts: Seq<Token>) -> Seq<TokenView> {
    ts.map_values(|t: Token| t@)
}

/// The stream ends with the end-of-file token, has at most one token per
/// character plus that one, and string tokens hold their quotes.
pub proof fn lemma_token_stream(s: Seq<char>, pos: nat, line: nat)
    requires
        pos <= s.len(),
    ensures
        token_stream(s, pos, line).len() >= 1,
        token_stream(s, pos, line).len() <= s.len() - pos + 1,
        token_stream(s, pos, line).last().ttype == TokenType::Eof,
        forall|i: int|
            0 <= i < token_stream(s, pos, line).len() && #[trigger] token_stream(s, pos, line)[i].ttype
                == TokenType::String ==> token_stream(s, pos, line)[i].lexeme.len() >= 2,
    decreases s.len() - pos,
{
    lemma_next_token_progress(s, pos, line);
    let (t, p, l) = next_token(s, pos, line);
    if t.ttype == TokenType::Eof || p <= pos || p > s.len() {
    } else {
        lemma_token_stream(s, p, l);
        let rest = token_stream(s, p, l);
        assert(token_stream(s, pos, line) == seq![t] + rest);
        assert forall|i: int|
            0 <= i < token_stream(s, pos, line).len() && #[trigger] token_stream(s, pos, line)[i].ttype
                == TokenType::String implies token_stream(s, pos, line)[i].lexeme.len() >= 2 by {
            if i > 0 {
                assert(token_stream(s, pos, line)[i] == rest[i - 1]);
            }
        }
    }
}

/// Scans the whole source.
fn scan_all(source: &str) -> (ts: Vec<Token>)
    requires
        source@.len() < usize::MAX,
    ensures
        views(ts@) == token_stream(source@, 0, 1),
{
    let mut scanner = Scanner::new(source);
    let mut ts: Vec<Token> = Vec::new();
    let ghost s = source@;
    loop
        invariant
            scanner.wf(),
            scanner.source() == s,
            s == source@,
            scanner.position() <= s.len(),
            token_stream(s, 0, 1) == views(ts@) + token_stream(s, scanner.position(), scanner.current_line()),
        decreases s.len() - scanner.position(),
    {
        let ghost pos = scanner.position();
        let ghost line = scanner.current_line();
        proof {
            lemma_next_token_progress(s, pos, line);
        }
        let t = scanner.scan_token();
        let ghost before = views(ts@);
        let is_eof = t.ttype == TokenType::Eof;
        ts.push(t);
        assert(views(ts@) =~= before.push(t@));
        if is_eof {
            assert(token_stream(s, pos, line) == seq![t@]);
            assert(views(ts@) =~= before + seq![t@]);
            return ts;
        }
        assert(token_stream(s, pos, line) == seq![t@] + token_stream(s, scanner.position(), scanner.current_line()));
        assert(views(ts@) + token_stream(s, scanner.position(), scanner.current_line()) =~= before + (seq![t@]
            + token_stream(s, scanner.position(), scanner.current_line())));
    }
}

// ----- precedence and the rule table -----

/// Binding strength of an operator, weakest first.
#[derive(Debug, Clone, Copy, PartialEq, Eq, Structural)]
pub enum Precedence {
    NoPrecedence,
    Assignment,
    Or,
    And,
    Equality,
    Comparison,
    Term,
    Factor,
    Unary,
    Call,
    Primary,
}

pub open spec fn prec_level(p: Precedence) -> nat {
    match p {
        Precedence::NoPrecedence => 0,
        Precedence::Assignment => 1,
        Precedence::Or => 2,
        Precedence::And => 3,
        Precedence::Equality => 4,
        Precedence::Comparison => 5,
        Precedence::Term => 6,
        Precedence::Factor => 7,
        Precedence::Unary => 8,
        Precedence::Call => 9,
        Precedence::Primary => 10,
    }
}

impl Precedence {
    pub fn level(self) -> (l: u8)
        ensures
            l == prec_level(self),
    {
        match self {
            Precedence::NoPrecedence => 0,
            Precedence::Assignment => 1,
            Precedence::Or => 2,
            Precedence::And => 3,
            Precedence::Equality => 4,
            Precedence::Comparison => 5,
            Precedence::Term => 6,
            Precedence::Factor => 7,
            Precedence::Unary => 8,
            Precedence::Call => 9,
            Precedence::Primary => 10,
        }
    }

    /// The next stronger level (`Primary` stays `Primary`).
    pub fn next(self) -> (n: Precedence)
        ensures
            prec_level(n) == if prec_level(self) == 10 { 10 } else { prec_level(self) + 1 },
            n == spec_next(self),
    {
        match self {
            Precedence::NoPrecedence => Precedence::Assignment,
            Precedence::Assignment => Precedence::Or,
            Precedence::Or => Precedence::And,
            Precedence::And => Precedence::Equality,
            Precedence::Equality => Precedence::Comparison,
            Precedence::Comparison => Precedence::Term,
            Precedence::Term => Precedence::Factor,
            Precedence::Factor => Precedence::Unary,
            Precedence::Unary => Precedence::Call,
            Precedence::Call => Precedence::Primary,
            Precedence::Primary => Precedence::Primary,
        }
    }
}

/// How a token starts an expression.
#[derive(Debug, Clone, Copy, PartialEq, Eq, Structural)]
pub enum PrefixRule {
    Grouping,
    Unary,
    Variable,
    Text,
    Number,
    Literal,
    This,
    Super,
}

/// How a token continues an expression.
#[derive(Debug, Clone, Copy, PartialEq, Eq, Structural)]
pub enum InfixRule {
    Call,
    Binary,
    And,
    Or,
    Dot,
}

/// One row of the rule table.
#[derive(Debug, Clone, Copy, PartialEq, Eq, Structural)]
pub struct ParseRule {
    pub prefix: Option<PrefixRule>,
    pub infix: Option<InfixRule>,
    pub precedence: Precedence,
}

pub open spec fn rule_of(prefix: Option<PrefixRule>, infix: Option<InfixRule>, precedence: Precedence) -> ParseRule {
    ParseRule { prefix, infix, precedence }
}

/// The rule table.
pub open spec fn spec_rule(tt: TokenType) -> ParseRule {
    match tt {
        TokenType::LeftParen => rule_of(Some(PrefixRule::Grouping), Some(InfixRule::Call), Precedence::Call),
        TokenType::Dot => rule_of(None, Some(InfixRule::Dot), Precedence::Call),
        TokenType::Minus => rule_of(Some(PrefixRule::Unary), Some(InfixRule::Binary), Precedence::Term),
        TokenType::Plus => rule_of(None, Some(InfixRule::Binary), Precedence::Term),
        TokenType::Slash => rule_of(None, Some(InfixRule::Binary), Precedence::Factor),
        TokenType::Star => rule_of(None, Some(InfixRule::Binary), Precedence::Factor),
        TokenType::Bang => rule_of(Some(PrefixRule::Unary), None, Precedence::NoPrecedence),
        TokenType::BangEqual => rule_of(None, Some(InfixRule::Binary), Precedence::Equality),
        TokenType::EqualEqual => rule_of(None, Some(InfixRule::Binary), Precedence::Equality),
        TokenType::Greater => rule_of(None, Some(InfixRule::Binary), Precedence::Comparison),
        TokenType::GreaterEqual => rule_of(None, Some(InfixRule::Binary), Precedence::Comparison),
        TokenType::Less => rule_of(None, Some(InfixRule::Binary), Precedence::Comparison),
        TokenType::LessEqual => rule_of(None, Some(InfixRule::Binary), Precedence::Comparison),
        TokenType::Identifier => rule_of(Some(PrefixRule::Variable), None, Precedence::NoPrecedence),
        TokenType::String => rule_of(Some(PrefixRule::Text), None, Precedence::NoPrecedence),
        TokenType::Number => rule_of(Some(PrefixRule::Number), None, Precedence::NoPrecedence),
        TokenType::And => rule_of(None, Some(InfixRule::And), Precedence::And),
        TokenType::False => rule_of(Some(PrefixRule::Literal), None, Precedence::NoPrecedence),
        TokenType::Nil => rule_of(Some(PrefixRule::Literal), None, Precedence::NoPrecedence),
        TokenType::Or => rule_of(None, Some(InfixRule::Or), Precedence::Or),
        TokenType::Super => rule_of(Some(PrefixRule::Super), None, Precedence::NoPrecedence),
        TokenType::This => rule_of(Some(PrefixRule::This), None, Precedence::NoPrecedence),
        TokenType::True => rule_of(Some(PrefixRule::Literal), None, Precedence::NoPrecedence),
        _ => rule_of(None, None, Precedence::NoPrecedence),
    }
}

/// A token that binds as an operator, with a precedence above none, has
/// an infix rule, so an expression can always go on past it.
pub proof fn lemma_binding_tokens_have_infix(tt: TokenType)
    ensures
        prec_level(spec_rule(tt).precedence) > 0 ==> spec_rule(tt).infix is Some,
{
}

fn none_rule() -> (r: ParseRule)
    ensures
        r == rule_of(None, None, Precedence::NoPrecedence),
{
    ParseRule { prefix: None, infix: None, precedence: Precedence::NoPrecedence }
}

/// The row of the rule table for a token kind.
pub fn get_rule(ttype: TokenType) -> (r: ParseRule)
    ensures
        r == spec_rule(ttype),
{
    match ttype {
        TokenType::LeftParen => ParseRule {
            prefix: Some(PrefixRule::Grouping),
            infix: Some(InfixRule::Call),
            precedence: Precedence::Call,
        },
        TokenType::RightParen => none_rule(),
        TokenType::LeftBrace => none_rule(),
        TokenType::RightBrace => none_rule(),
        TokenType::Comma => none_rule(),
        TokenType::Dot => ParseRule { prefix: None, infix: Some(InfixRule::Dot), precedence: Precedence::Call },
        TokenType::Minus => ParseRule {
            prefix: Some(PrefixRule::Unary),
            infix: Some(InfixRule::Binary),
            precedence: Precedence::Term,
        },
        TokenType::Plus => ParseRule { prefix: None, infix: Some(InfixRule::Binary), precedence: Precedence::Term },
        TokenType::Semicolon => none_rule(),
        TokenType::Slash => ParseRule {
            prefix: None,
            infix: Some(InfixRule::Binary),
            precedence: Precedence::Factor,
        },
        TokenType::Star => ParseRule {
            prefix: None,
            infix: Some(InfixRule::Binary),
            precedence: Precedence::Factor,
        },
        TokenType::Bang => ParseRule {
            prefix: Some(PrefixRule::Unary),
            infix: None,
            precedence: Precedence::NoPrecedence,
        },
        TokenType::BangEqual => ParseRule {
            prefix: None,
            infix: Some(InfixRule::Binary),
            precedence: Precedence::Equality,
        },
        TokenType::Equal => none_rule(),
        TokenType::EqualEqual => ParseRule {
            prefix: None,
            infix: Some(InfixRule::Binary),
            precedence: Precedence::Equality,
        },
        TokenType::Greater => ParseRule {
            prefix: None,
            infix: Some(InfixRule::Binary),
            precedence: Precedence::Comparison,
        },
        TokenType::GreaterEqual => ParseRule {
            prefix: None,
            infix: Some(InfixRule::Binary),
            precedence: Precedence::Comparison,
        },
        TokenType::Less => ParseRule {
            prefix: None,
            infix: Some(InfixRule::Binary),
            precedence: Precedence::Comparison,
        },
        TokenType::LessEqual => ParseRule {
            prefix: None,
            infix: Some(InfixRule::Binary),
            precedence: Precedence::Comparison,
        },
        TokenType::Identifier => ParseRule {
            prefix: Some(PrefixRule::Variable),
            infix: None,
            precedence: Precedence::NoPrecedence,
        },
        TokenType::String => ParseRule {
            prefix: Some(PrefixRule::Text),
            infix: None,
            precedence: Precedence::NoPrecedence,
        },
        TokenType::Number => ParseRule {
            prefix: Some(PrefixRule::Number),
            infix: None,
            precedence: Precedence::NoPrecedence,
        },
        TokenType::And => ParseRule { prefix: None, infix: Some(InfixRule::And), precedence: Precedence::And },
        TokenType::Class => none_rule(),
        TokenType::Else => none_rule(),
        TokenType::False => ParseRule {
            prefix: Some(PrefixRule::Literal),
            infix: None,
            precedence: Precedence::NoPrecedence,
        },
        TokenType::Fun => none_rule(),
        TokenType::For => none_rule(),
        TokenType::If => none_rule(),
        TokenType::Nil => ParseRule {
            prefix: Some(PrefixRule::Literal),
            infix: None,
            precedence: Precedence::NoPrecedence,
        },
        TokenType::Or => ParseRule { prefix: None, infix: Some(InfixRule::Or), precedence: Precedence::Or },
        TokenType::Print => none_rule(),
        TokenType::Return => none_rule(),
        TokenType::Super => ParseRule {
            prefix: Some(PrefixRule::Super),
            infix: None,
            precedence: Precedence::NoPrecedence,
        },
        TokenType::This => ParseRule {
            prefix: Some(PrefixRule::This),
            infix: None,
            precedence: Precedence::NoPrecedence,
        },
        TokenType::True => ParseRule {
            prefix: Some(PrefixRule::Literal),
            infix: None,
            precedence: Precedence::NoPrecedence,
        },
        TokenType::Var => none_rule(),
        TokenType::While => none_rule(),
        TokenType::Error => none_rule(),
        TokenType::Eof => none_rule(),
    }
}

// ----- compiler state -----

/// The text of a compile error.
pub open spec fn compile_error_text(line: nat, loc: Seq<char>, msg: Seq<char>) -> Seq<char> {
    "[line "@ + decimal(line) + "] Error"@ + loc + ": "@ + msg
}

/// Where an error is shown to be: ` at end` at the end of the input,
/// nothing for a scanner error token, else ` at '<lexeme>'`.
pub open spec fn error_location(t: TokenView) -> Seq<char> {
    if t.ttype == TokenType::Eof {
        " at end"@
    } else if t.ttype == TokenType::Error {
        Seq::empty()
    } else {
        " at '"@ + t.lexeme + "'"@
    }
}

pub open spec fn is_compile_error(e: Seq<char>) -> bool {
    exists|line: nat, loc: Seq<char>, msg: Seq<char>| e == #[trigger] compile_error_text(line, loc, msg)
}

/// Kind of the function being compiled.
#[derive(Debug, Clone, Copy, PartialEq, Eq, Structural)]
pub enum FunctionType {
    /// The top-level script.
    Script,
    /// A `fun` declaration.
    Function,
    /// A method of a class.
    Method,
    /// The `init` method of a class.
    Initializer,
}

/// A local variable: its name, the scope depth at which it becomes visible
/// (-1 while its initializer is compiled) and whether a closure captures it.
struct Local {
    name: Token,
    depth: i32,
    is_captured: bool,
}

/// Where a closure finds one captured variable: a local slot of the
/// enclosing function, or an upvalue of it.
#[derive(Clone, Copy)]
struct Upvalue {
    index: u8,
    is_local: bool,
}

/// The state of one function being compiled.
struct CompilerState {
    function: ObjFunction,
    fn_type: FunctionType,
    locals: Vec<Local>,
    scope_depth: i32,
    upvalues: Vec<Upvalue>,
}

/// Token position, lookahead and error state.
struct Parser {
    tokens: Vec<Token>,
    /// Index of the next token to read.
    next: usize,
    current: Token,
    previous: Token,
    had_error: bool,
    panic_mode: bool,
    errors: Vec<String>,
    /// Per class being compiled, the innermost last: whether it has a
    /// superclass.
    classes: Vec<bool>,
}

/// The compiler: the parser state and one state per function being
/// compiled, the innermost last.
pub struct Compiler {
    parser: Parser,
    states: Vec<CompilerState>,
}

spec fn frame_ok(f: CompilerState, next: int) -> bool {
    &&& f.function.chunk.code@.len() == f.function.chunk.lines@.len()
    &&& f.locals@.len() <= 256
    &&& f.upvalues@.len() <= 256
    &&& 0 <= f.scope_depth <= next
}

impl Compiler {
    /// Twice the tokens left to read, plus one while the lookahead is not
    /// the end: what every step of the compiler decreases or keeps.
    pub closed spec fn remaining(self) -> int {
        2 * (self.parser.tokens@.len() - self.parser.next) + if self.parser.current.ttype == TokenType::Eof {
            0int
        } else {
            1int
        }
    }

    spec fn top(self) -> CompilerState {
        self.states@.last()
    }

    pub closed spec fn wf(self) -> bool {
        &&& self.parser.tokens@.len() > 0
        &&& self.parser.tokens@.len() < i32::MAX
        &&& self.parser.tokens@.last().ttype == TokenType::Eof
        &&& forall|i: int|
            0 <= i < self.parser.tokens@.len() && #[trigger] self.parser.tokens@[i].ttype == TokenType::String
                ==> self.parser.tokens@[i].lexeme@.len() >= 2
        &&& 1 <= self.parser.next <= self.parser.tokens@.len()
        &&& self.parser.current@ == self.parser.tokens@[self.parser.next - 1]@
        &&& (self.parser.current.ttype != TokenType::Eof ==> self.parser.next < self.parser.tokens@.len())
        &&& (self.parser.current.ttype == TokenType::String ==> self.parser.current.lexeme@.len() >= 2)
        &&& (self.parser.previous.ttype == TokenType::String ==> self.parser.previous.lexeme@.len() >= 2)
        &&& self.parser.had_error == (self.parser.errors@.len() > 0)
        &&& forall|i: int| 0 <= i < self.parser.errors@.len() ==> is_compile_error(#[trigger] self.parser.errors@[i]@)
        &&& self.states@.len() >= 1
        &&& forall|i: int| 0 <= i < self.states@.len() ==> frame_ok(#[trigger] self.states@[i], self.parser.next as int)
    }

    /// The errors reported so far.
    pub closed spec fn reported(self) -> Seq<Seq<char>> {
        self.parser.errors@.map_values(|e: String| e@)
    }

    /// `self` is what compiling from `before` left: the same tokens, read
    /// on no less; the same functions being compiled, the enclosing ones
    /// unchanged in code and scope, the innermost at the same scope depth
    /// with no less code; and the errors of `before` still first.
    pub closed spec fn progressed(self, before: Compiler) -> bool {
        &&& self.wf()
        &&& self.parser.tokens@ == before.parser.tokens@
        &&& self.parser.classes@ == before.parser.classes@
        &&& before.parser.next <= self.parser.next
        &&& self.remaining() <= before.remaining()
        &&& self.states@.len() == before.states@.len()
        &&& self.top().scope_depth == before.top().scope_depth
        &&& self.top().fn_type == before.top().fn_type
        &&& self.top().function.name == before.top().function.name
        &&& self.top().function.upvalue_count == before.top().function.upvalue_count
        &&& before.top().function.chunk.code@.len() <= self.top().function.chunk.code@.len()
        &&& forall|i: int|
            0 <= i < self.states@.len() - 1 ==> {
                &&& (#[trigger] self.states@[i]).function.chunk.code@ == before.states@[i].function.chunk.code@
                &&& self.states@[i].scope_depth == before.states@[i].scope_depth
                &&& self.states@[i].fn_type == before.states@[i].fn_type
                &&& self.states@[i].function.arity == before.states@[i].function.arity
                &&& self.states@[i].function.name == before.states@[i].function.name
                &&& self.states@[i].function.upvalue_count == before.states@[i].function.upvalue_count
            }
        &&& before.parser.errors@.len() <= self.parser.errors@.len()
        &&& forall|i: int| 0 <= i < before.parser.errors@.len() ==> self.parser.errors@[i] == before.parser.errors@[i]
    }

    /// Progress that opened one scope in the innermost function.
    pub closed spec fn opened(self, before: Compiler) -> bool {
        &&& self.wf()
        &&& self.parser.tokens@ == before.parser.tokens@
        &&& self.parser.classes@ == before.parser.classes@
        &&& before.parser.next <= self.parser.next
        &&& self.remaining() <= before.remaining()
        &&& self.states@.len() == before.states@.len()
        &&& self.top().scope_depth == before.top().scope_depth + 1
        &&& self.top().fn_type == before.top().fn_type
        &&& self.top().function.name == before.top().function.name
        &&& self.top().function.upvalue_count == before.top().function.upvalue_count
        &&& self.top().function.arity == before.top().function.arity
        &&& before.top().function.chunk.code@.len() <= self.top().function.chunk.code@.len()
        &&& forall|i: int|
            0 <= i < self.states@.len() - 1 ==> {
                &&& (#[trigger] self.states@[i]).function.chunk.code@ == before.states@[i].function.chunk.code@
                &&& self.states@[i].scope_depth == before.states@[i].scope_depth
                &&& self.states@[i].fn_type == before.states@[i].fn_type
                &&& self.states@[i].function.arity == before.states@[i].function.arity
                &&& self.states@[i].function.name == before.states@[i].function.name
                &&& self.states@[i].function.upvalue_count == before.states@[i].function.upvalue_count
            }
        &&& before.parser.errors@.len() <= self.parser.errors@.len()
        &&& forall|i: int| 0 <= i < before.parser.errors@.len() ==> self.parser.errors@[i] == before.parser.errors@[i]
    }

    /// Progress that also keeps the innermost function's arity.
    pub closed spec fn moved(self, before: Compiler) -> bool {
        &&& self.progressed(before)
        &&& self.top().function.arity == before.top().function.arity
    }
}

/// Reading on past a token leaves less to read.
proof fn lemma_next_strict(a: Compiler, b: Compiler)
    requires
        a.wf(),
        b.wf(),
        a.parser.tokens@ == b.parser.tokens@,
        a.parser.next < b.parser.next,
    ensures
        b.remaining() < a.remaining(),
{
}

/// With the same tokens read, the lookahead is the same.
proof fn lemma_same_next(a: Compiler, b: Compiler)
    requires
        a.wf(),
        b.wf(),
        a.parser.tokens@ == b.parser.tokens@,
        a.parser.next == b.parser.next,
    ensures
        a.parser.current@ == b.parser.current@,
{
}

/// `after` is `before` once error `msg` was reported at `line`: recorded
/// unless already in panic mode, which it is afterwards.
spec fn reports(after: Parser, before: Parser, at: TokenView, msg: Seq<char>) -> bool {
    &&& after.tokens == before.tokens
    &&& after.next == before.next
    &&& after.current == before.current
    &&& after.previous == before.previous
    &&& after.classes == before.classes
    &&& after.panic_mode
    &&& if before.panic_mode {
        after.errors == before.errors && after.had_error == before.had_error
    } else {
        after.had_error && after.errors@.len() == before.errors@.len() + 1
            && after.errors@.drop_last() == before.errors@
            && after.errors@.last()@ == compile_error_text(at.line, error_location(at), msg)
    }
}

/// The state of a function is the same in `a` and `b`, but for the code
/// and its line table.
spec fn same_but_code(a: CompilerState, b: CompilerState) -> bool {
    &&& a.fn_type == b.fn_type
    &&& a.locals@ == b.locals@
    &&& a.scope_depth == b.scope_depth
    &&& a.upvalues@ == b.upvalues@
    &&& a.function.name == b.function.name
    &&& a.function.arity == b.function.arity
    &&& a.function.upvalue_count == b.function.upvalue_count
    &&& a.function.chunk.constants@ == b.function.chunk.constants@
}

/// Only the innermost function state may differ between `a` and `b`.
spec fn outer_same(a: Seq<CompilerState>, b: Seq<CompilerState>) -> bool {
    &&& a.len() == b.len()
    &&& forall|i: int| 0 <= i < a.len() - 1 ==> #[trigger] a[i] == b[i]
}

spec fn local_model(l: Local) -> LocalM {
    LocalM { name: l.name.lexeme@, depth: l.depth as int, captured: l.is_captured }
}

spec fn state_model(s: CompilerState) -> StateM {
    StateM {
        func: fn_model(s.function),
        fn_type: s.fn_type,
        locals: locals_model(s.locals@),
        depth: s.scope_depth as int,
        ups: ups_model(s.upvalues@),
    }
}

spec fn locals_model(ls: Seq<Local>) -> Seq<LocalM> {
    ls.map_values(|l: Local| local_model(l))
}

spec fn ups_model(us: Seq<Upvalue>) -> Seq<(u8, bool)> {
    us.map_values(|u: Upvalue| (u.index, u.is_local))
}

proof fn lemma_scope_models(ls: Seq<Local>, d: i32)
    ensures
        m_kept(locals_model(ls), d as int) == kept(ls, d),
        m_closing(locals_model(ls), d as int) == closing_code(ls, d),
        locals_model(ls.take(kept(ls, d) as int)) == locals_model(ls).take(kept(ls, d) as int),
    decreases ls.len(),
{
    lemma_kept(ls, d);
    assert(locals_model(ls.take(kept(ls, d) as int)) =~= locals_model(ls).take(kept(ls, d) as int));
    if ls.len() > 0 {
        assert(locals_model(ls).drop_last() =~= locals_model(ls.drop_last()));
        assert(locals_model(ls).last() == local_model(ls.last()));
        lemma_scope_models(ls.drop_last(), d);
    }
}

proof fn lemma_declared_model(ls: Seq<Local>, name: Seq<char>, depth: i32, k: nat)
    ensures
        m_declared(locals_model(ls), name, depth as int, k) == declared_in_scope(ls, name, depth, k),
    decreases k,
{
    if k > 0 && k <= ls.len() {
        assert(locals_model(ls)[k - 1] == local_model(ls[k - 1]));
        lemma_declared_model(ls, name, depth, (k - 1) as nat);
    }
}

proof fn lemma_find_local_model(ls: Seq<Local>, name: Seq<char>, k: nat)
    ensures
        m_find_local(locals_model(ls), name, k) == find_local(ls, name, k),
    decreases k,
{
    if k > 0 && k <= ls.len() {
        assert(locals_model(ls)[k - 1] == local_model(ls[k - 1]));
        lemma_find_local_model(ls, name, (k - 1) as nat);
    }
}

proof fn lemma_find_up_model(us: Seq<Upvalue>, index: u8, is_local: bool, k: nat)
    ensures
        m_find_up(ups_model(us), index, is_local, k) == find_upvalue(us, index, is_local, k),
    decreases k,
{
    if k > 0 && k <= us.len() {
        assert(ups_model(us)[k - 1] == (us[k - 1].index, us[k - 1].is_local));
        lemma_find_up_model(us, index, is_local, (k - 1) as nat);
    }
}

spec fn parser_model(p: Parser) -> ParserM {
    ParserM {
        tokens: views(p.tokens@),
        next: p.next as nat,
        current: p.current@,
        previous: p.previous@,
        panic: p.panic_mode,
        errors: p.errors@.map_values(|e: String| e@),
        classes: p.classes@,
    }
}

spec fn states_model(ss: Seq<CompilerState>) -> Seq<StateM> {
    ss.map_values(|s: CompilerState| state_model(s))
}

impl Compiler {
    /// The model of the compiler's state.
    pub closed spec fn model(self) -> CM {
        CM { p: parser_model(self.parser), states: states_model(self.states@) }
    }
}

/// The model of the states after the innermost one changed to `s`.
proof fn lemma_states_update(ss: Seq<CompilerState>, k: int, s: CompilerState)
    requires
        0 <= k < ss.len(),
    ensures
        states_model(ss.update(k, s)) == states_model(ss).update(k, state_model(s)),
{
    assert(states_model(ss.update(k, s)) =~= states_model(ss).update(k, state_model(s)));
}

proof fn lemma_consts_len(cs: Seq<Constant>)
    ensures
        consts_model(cs).len() == cs.len(),
    decreases cs.len(),
{
    if cs.len() > 0 {
        lemma_consts_len(cs.drop_first());
    }
}

proof fn lemma_consts_push(cs: Seq<Constant>, c: Constant)
    ensures
        consts_model(cs.push(c)) == consts_model(cs).push(const_model(c)),
    decreases cs.len(),
{
    if cs.len() == 0 {
        let e = Seq::<Constant>::empty();
        assert(cs.push(c).drop_first() =~= e);
        assert(consts_model(e) =~= Seq::<ConstM>::empty());
        assert(cs.push(c)[0] == c);
        assert(consts_model(cs.push(c)) =~= seq![const_model(c)]);
    } else {
        assert(cs.push(c).drop_first() =~= cs.drop_first().push(c));
        lemma_consts_push(cs.drop_first(), c);
        assert(consts_model(cs.push(c)) =~= consts_model(cs).push(const_model(c)));
    }
}

spec fn opt_nat(o: Option<usize>) -> Option<nat> {
    match o {
        Some(x) => Some(x as nat),
        None => None,
    }
}

proof fn lemma_rem(c: Compiler)
    requires
        c.wf(),
    ensures
        rem(c.model()) == c.remaining(),
        0 <= c.remaining(),
{
    assert(views(c.parser.tokens@).len() == c.parser.tokens@.len());
}

/// High and low byte of a 16-bit operand.
pub open spec fn hi_byte(n: nat) -> u8 {
    ((n / 256) % 256) as u8
}

pub open spec fn lo_byte(n: nat) -> u8 {
    (n % 256) as u8
}

/// The two bytes of a number depend only on it modulo 2^16.
proof fn lemma_mod_bytes(n: nat)
    ensures
        hi_byte(n) == hi_byte(n % 65536),
        lo_byte(n) == lo_byte(n % 65536),
{
    assert((n / 256) % 256 == ((n % 65536) / 256) % 256) by (nonlinear_arith);
    assert(n % 256 == (n % 65536) % 256) by (nonlinear_arith);
}

impl Compiler {
    /// Reads the next token of the stream (the last token again once all
    /// were read).
    fn read_token(&mut self) -> (t: Token)
        requires
            old(self).parser.tokens@.len() > 0,
            old(self).parser.next <= old(self).parser.tokens@.len(),
        ensures
            final(self).states == old(self).states,
            final(self).parser.tokens == old(self).parser.tokens,
            final(self).parser.current == old(self).parser.current,
            final(self).parser.previous == old(self).parser.previous,
            final(self).parser.classes == old(self).parser.classes,
            final(self).parser.had_error == old(self).parser.had_error,
            final(self).parser.panic_mode == old(self).parser.panic_mode,
            final(self).parser.errors == old(self).parser.errors,
            old(self).parser.next < old(self).parser.tokens@.len() ==> t@ == old(self).parser.tokens@[old(self).parser.next as int]@
                && final(self).parser.next == old(self).parser.next + 1,
            old(self).parser.next >= old(self).parser.tokens@.len() ==> t@ == old(self).parser.tokens@.last()@
                && final(self).parser.next == old(self).parser.next,
    {
        if self.parser.next < self.parser.tokens.len() {
            let t = self.parser.tokens[self.parser.next].clone_token();
            self.parser.next = self.parser.next + 1;
            t
        } else {
            self.parser.tokens[self.parser.tokens.len() - 1].clone_token()
        }
    }

    fn report(&mut self, msg: &str, at: &Token)
        requires
            old(self).wf(),
        ensures
            final(self).wf(),
            final(self).states == old(self).states,
            reports(final(self).parser, old(self).parser, at@, msg@),
            final(self).model() == m_report(old(self).model(), at@, msg@),
    {
        proof {
            reveal(m_report);
        }
        if self.parser.panic_mode {
            return;
        }
        self.parser.panic_mode = true;
        self.parser.had_error = true;
        let mut text = string_of("[line ");
        push_decimal(&mut text, at.line);
        text.append("] Error");
        let ghost head = text@;
        match at.ttype {
            TokenType::Eof => text.append(" at end"),
            TokenType::Error => {},
            _ => {
                text.append(" at '");
                text.append(at.lexeme.as_str());
                text.append("'");
            },
        }
        proof {
            assert(text@ =~= head + error_location(at@));
        }
        text.append(": ");
        text.append(msg);
        let ghost t = compile_error_text(at.line as nat, error_location(at@), msg@);
        assert(text@ =~= t);
        let ghost before = self.parser.errors@;
        self.parser.errors.push(text);
        proof {
            assert(self.parser.errors@.drop_last() =~= before);
            assert forall|i: int| 0 <= i < self.parser.errors@.len() implies is_compile_error(
                #[trigger] self.parser.errors@[i]@,
            ) by {
                if i == before.len() {
                    assert(self.parser.errors@[i]@ == t);
                } else {
                    assert(self.parser.errors@[i] == before[i]);
                }
            }
            let em = old(self).model();
            assert(parser_model(self.parser).errors =~= em.p.errors.push(t));
            assert(self.model() =~= m_report(em, at@, msg@));
        }
    }

    /// Reports `msg` at the lookahead token.
    fn error_at_current(&mut self, msg: &str)
        requires
            old(self).wf(),
        ensures
            final(self).wf(),
            final(self).states == old(self).states,
            reports(final(self).parser, old(self).parser, old(self).parser.current@, msg@),
            final(self).model() == m_report(old(self).model(), old(self).model().p.current, msg@),
    {
        let at = self.parser.current.clone_token();
        self.report(msg, &at);
    }

    /// Reports `msg` at the token read last.
    fn error(&mut self, msg: &str)
        requires
            old(self).wf(),
        ensures
            final(self).wf(),
            final(self).states == old(self).states,
            reports(final(self).parser, old(self).parser, old(self).parser.previous@, msg@),
            final(self).model() == m_error(old(self).model(), msg@),
    {
        let at = self.parser.previous.clone_token();
        self.report(msg, &at);
        proof {
            reveal(m_error);
        }
    }

    /// Steps to the next token that is not an error token, reporting each
    /// error token passed.
    fn advance(&mut self)
        requires
            old(self).wf(),
        ensures
            final(self).wf(),
            final(self).states == old(self).states,
            final(self).parser.tokens == old(self).parser.tokens,
            final(self).parser.previous@ == old(self).parser.current@,
            final(self).parser.classes == old(self).parser.classes,
            old(self).parser.next <= final(self).parser.next,
            final(self).remaining() <= old(self).remaining(),
            old(self).parser.current.ttype != TokenType::Eof ==> final(self).remaining() < old(self).remaining()
                && old(self).parser.next < final(self).parser.next,
            final(self).parser.current.ttype != TokenType::Error,
            old(self).parser.errors@.len() <= final(self).parser.errors@.len(),
            forall|i: int| 0 <= i < old(self).parser.errors@.len() ==> final(self).parser.errors@[i] == old(self).parser.errors@[i],
            final(self).model() == m_advance(old(self).model()),
    {
        self.parser.previous = self.parser.current.clone_token();
        proof {
            reveal(m_advance);
            reveal(m_read);
            let om = old(self).model();
            assert(parser_model(self.parser) == ParserM { previous: om.p.current, ..om.p });
        }
        loop
            invariant
                self.wf(),
                m_read_past_errors(self.model()) == m_advance(old(self).model()),
                self.states == old(self).states,
                self.parser.tokens == old(self).parser.tokens,
                self.parser.previous@ == old(self).parser.current@,
                self.parser.classes == old(self).parser.classes,
                old(self).parser.next <= self.parser.next,
                old(self).parser.current.ttype != TokenType::Eof ==> old(self).parser.next < self.parser.next
                    || (self.parser.next == old(self).parser.next && self.parser.current == old(self).parser.current),
                self.parser.current.ttype == TokenType::Eof ==> old(self).parser.current.ttype == TokenType::Eof
                    || old(self).parser.next < self.parser.next,
                old(self).parser.errors@.len() <= self.parser.errors@.len(),
                forall|i: int| 0 <= i < old(self).parser.errors@.len() ==> self.parser.errors@[i] == old(self).parser.errors@[i],
            decreases self.parser.tokens@.len() - self.parser.next,
        {
            let ghost mb = self.model();
            let t = self.read_token();
            self.parser.current = t;
            proof {
                reveal(m_read);
                let ts = self.parser.tokens@;
                assert(views(ts).len() == ts.len());
                if mb.p.next < ts.len() {
                    assert(views(ts)[mb.p.next as int] == ts[mb.p.next as int]@);
                } else {
                    assert(views(ts).last() == ts.last()@);
                }
                assert(parser_model(self.parser) == m_read(mb).p);
                assert(self.model() == m_read(mb));
            }
            if self.parser.current.ttype != TokenType::Error {
                return;
            }
            let msg = self.parser.current.lexeme.clone();
            self.error_at_current(msg.as_str());
        }
    }

    /// Steps past the token `ttype`, or reports `msg`.
    fn consume(&mut self, ttype: TokenType, msg: &str)
        requires
            old(self).wf(),
        ensures
            final(self).moved(*old(self)),
            final(self).states == old(self).states,
            old(self).parser.current.ttype == ttype ==> final(self).parser.previous@ == old(self).parser.current@,
            old(self).parser.current.ttype == ttype && ttype != TokenType::Eof ==> old(self).parser.next
                < final(self).parser.next,
            final(self).model() == m_consume(old(self).model(), ttype, msg@),
    {
        proof {
            reveal(m_consume);
        }
        if self.parser.current.ttype == ttype {
            self.advance();
            return;
        }
        self.error_at_current(msg);
    }

    fn check(&self, ttype: TokenType) -> (r: bool)
        ensures
            r == (self.parser.current.ttype == ttype),
    {
        self.parser.current.ttype == ttype
    }

    /// Steps past the lookahead if it is a `ttype` token.
    fn match_tok(&mut self, ttype: TokenType) -> (r: bool)
        requires
            old(self).wf(),
        ensures
            final(self).moved(*old(self)),
            final(self).states == old(self).states,
            r == (old(self).parser.current.ttype == ttype),
            r ==> final(self).parser.previous@ == old(self).parser.current@,
            r && ttype != TokenType::Eof ==> final(self).remaining() < old(self).remaining()
                && old(self).parser.next < final(self).parser.next,
            !r ==> *final(self) == *old(self),
            final(self).model() == m_match(old(self).model(), ttype),
    {
        proof {
            reveal(m_match);
        }
        if !self.check(ttype) {
            return false;
        }
        self.advance();
        true
    }

    // ----- emitting code -----

    fn emit_byte(&mut self, byte: u8)
        requires
            old(self).wf(),
        ensures
            final(self).wf(),
            final(self).parser == old(self).parser,
            outer_same(final(self).states@, old(self).states@),
            same_but_code(final(self).top(), old(self).top()),
            final(self).top().function.chunk.code@ == old(self).top().function.chunk.code@.push(byte),
            final(self).top().function.chunk.lines@ == old(self).top().function.chunk.lines@.push(
                old(self).parser.previous.line,
            ),
            final(self).model() == m_emit(old(self).model(), byte),
    {
        let line = self.parser.previous.line;
        let k = self.states.len() - 1;
        self.states[k].function.chunk.write_byte(byte, line);
        proof {
            reveal(m_emit);
            let om = old(self).model();
            let ns = self.states@[k as int];
            let os = old(self).states@[k as int];
            assert(self.states@ =~= old(self).states@.update(k as int, ns));
            lemma_states_update(old(self).states@, k as int, ns);
            assert(ns.function.chunk.lines@.map_values(|l: usize| l as nat) =~= os.function.chunk.lines@.map_values(
                |l: usize| l as nat,
            ).push(line as nat));
            assert(self.model() == m_emit(om, byte));
        }
        proof {
            assert forall|i: int| 0 <= i < self.states@.len() implies frame_ok(
                #[trigger] self.states@[i],
                self.parser.next as int,
            ) by {
                if i != k {
                    assert(self.states@[i] == old(self).states@[i]);
                }
            }
        }
    }

    fn emit_op(&mut self, op: OpCode)
        requires
            old(self).wf(),
        ensures
            final(self).wf(),
            final(self).parser == old(self).parser,
            outer_same(final(self).states@, old(self).states@),
            same_but_code(final(self).top(), old(self).top()),
            final(self).top().function.chunk.code@ == old(self).top().function.chunk.code@.push(spec_op_byte(op)),
            final(self).top().function.chunk.lines@ == old(self).top().function.chunk.lines@.push(
                old(self).parser.previous.line,
            ),
            final(self).model() == m_emit_op(old(self).model(), op),
    {
        proof {
            reveal(m_emit_op);
        }
        self.emit_byte(op.as_byte());
    }

    fn emit_op_byte(&mut self, op: OpCode, operand: u8)
        requires
            old(self).wf(),
        ensures
            final(self).wf(),
            final(self).parser == old(self).parser,
            outer_same(final(self).states@, old(self).states@),
            same_but_code(final(self).top(), old(self).top()),
            final(self).top().function.chunk.code@ == old(self).top().function.chunk.code@.push(spec_op_byte(op)).push(
                operand,
            ),
            final(self).model() == m_emit_op_byte(old(self).model(), op, operand),
    {
        proof {
            reveal(m_emit_op_byte);
        }
        self.emit_op(op);
        self.emit_byte(operand);
    }

    /// The implicit return that ends every function: the instance in slot
    /// zero for an initializer, else `nil`.
    fn emit_return(&mut self)
        requires
            old(self).wf(),
        ensures
            final(self).wf(),
            final(self).parser == old(self).parser,
            outer_same(final(self).states@, old(self).states@),
            same_but_code(final(self).top(), old(self).top()),
            old(self).top().function.chunk.code@.len() < final(self).top().function.chunk.code@.len(),
            old(self).top().fn_type != FunctionType::Initializer ==> final(self).top().function.chunk.code@
                == old(self).top().function.chunk.code@.push(spec_op_byte(OpCode::Nil)).push(
                spec_op_byte(OpCode::Return),
            ),
            final(self).model() == m_emit_return(old(self).model()),
    {
        proof {
            reveal(m_emit_return);
            assert(top_of(self.model()) == state_model(self.top()));
        }
        let k = self.states.len() - 1;
        if self.states[k].fn_type == FunctionType::Initializer {
            self.emit_op_byte(OpCode::GetLocal, 0);
        } else {
            self.emit_op(OpCode::Nil);
        }
        self.emit_op(OpCode::Return);
    }

    /// Adds `value` to the innermost function's constants and gives its
    /// index, or reports an error and gives 0 past 256 constants.
    fn make_constant(&mut self, value: Constant) -> (r: u8)
        requires
            old(self).wf(),
        ensures
            final(self).wf(),
            outer_same(final(self).states@, old(self).states@),
            final(self).top().function.chunk.code@ == old(self).top().function.chunk.code@,
            final(self).top().function.chunk.lines@ == old(self).top().function.chunk.lines@,
            final(self).top().function.chunk.constants@ == old(self).top().function.chunk.constants@.push(value),
            final(self).top().fn_type == old(self).top().fn_type,
            final(self).top().locals@ == old(self).top().locals@,
            final(self).top().scope_depth == old(self).top().scope_depth,
            final(self).top().upvalues@ == old(self).top().upvalues@,
            final(self).top().function.name == old(self).top().function.name,
            final(self).top().function.arity == old(self).top().function.arity,
            final(self).top().function.upvalue_count == old(self).top().function.upvalue_count,
            old(self).top().function.chunk.constants@.len() <= 255 ==> r == old(
                self,
            ).top().function.chunk.constants@.len() && final(self).parser == old(self).parser,
            old(self).top().function.chunk.constants@.len() > 255 ==> r == 0 && reports(
                final(self).parser,
                old(self).parser,
                old(self).parser.previous@,
                "Too many constants in one chunk."@,
            ),
            (final(self).model(), r) == m_make_constant(old(self).model(), const_model(value)),
    {
        proof {
            reveal(m_make_constant);
            reveal(m_error);
        }
        let ghost cv = const_model(value);
        let k = self.states.len() - 1;
        let idx = self.states[k].function.chunk.add_constant(value);
        proof {
            let om = old(self).model();
            let ns = self.states@[k as int];
            let os = old(self).states@[k as int];
            assert(self.states@ =~= old(self).states@.update(k as int, ns));
            lemma_states_update(old(self).states@, k as int, ns);
            lemma_consts_push(os.function.chunk.constants@, ns.function.chunk.constants@.last());
            lemma_consts_len(os.function.chunk.constants@);
            let t = state_model(os);
            assert(state_model(ns).func == FnM { consts: t.func.consts.push(cv), ..t.func });
            assert(state_model(ns) == StateM { func: FnM { consts: t.func.consts.push(cv), ..t.func }, ..t });
            assert(self.model() == with_top(om, StateM { func: FnM { consts: t.func.consts.push(cv), ..t.func }, ..t }));
        }
        proof {
            assert forall|i: int| 0 <= i < self.states@.len() implies frame_ok(
                #[trigger] self.states@[i],
                self.parser.next as int,
            ) by {
                if i != k {
                    assert(self.states@[i] == old(self).states@[i]);
                }
            }
        }
        if idx > 255 {
            self.error("Too many constants in one chunk.");
            return 0;
        }
        idx as u8
    }

    fn emit_constant(&mut self, value: Constant)
        requires
            old(self).wf(),
        ensures
            final(self).wf(),
            outer_same(final(self).states@, old(self).states@),
            final(self).parser.tokens == old(self).parser.tokens,
            final(self).parser.next == old(self).parser.next,
            final(self).parser.current == old(self).parser.current,
            final(self).parser.previous == old(self).parser.previous,
            final(self).parser.classes == old(self).parser.classes,
            old(self).parser.errors@.len() <= final(self).parser.errors@.len(),
            forall|i: int| 0 <= i < old(self).parser.errors@.len() ==> final(self).parser.errors@[i] == old(self).parser.errors@[i],
            final(self).top().function.chunk.constants@ == old(self).top().function.chunk.constants@.push(value),
            final(self).top().function.chunk.code@ == old(self).top().function.chunk.code@.push(
                spec_op_byte(OpCode::Constant),
            ).push(
                if old(self).top().function.chunk.constants@.len() <= 255 {
                    old(self).top().function.chunk.constants@.len() as u8
                } else {
                    0u8
                },
            ),
            final(self).top().fn_type == old(self).top().fn_type,
            final(self).top().locals@ == old(self).top().locals@,
            final(self).top().scope_depth == old(self).top().scope_depth,
            final(self).top().upvalues@ == old(self).top().upvalues@,
            final(self).top().function.arity == old(self).top().function.arity,
            final(self).top().function.name == old(self).top().function.name,
            final(self).top().function.upvalue_count == old(self).top().function.upvalue_count,
            final(self).model() == m_emit_constant(old(self).model(), const_model(value)),
    {
        proof {
            reveal(m_emit_constant);
        }
        let idx = self.make_constant(value);
        self.emit_op_byte(OpCode::Constant, idx);
    }

    /// Emits `op` with a two-byte placeholder operand; gives the position
    /// of the operand, for `patch_jump`.
    fn emit_jump(&mut self, op: OpCode) -> (r: usize)
        requires
            old(self).wf(),
        ensures
            final(self).wf(),
            final(self).parser == old(self).parser,
            outer_same(final(self).states@, old(self).states@),
            same_but_code(final(self).top(), old(self).top()),
            final(self).top().function.chunk.code@ == old(self).top().function.chunk.code@.push(spec_op_byte(op)).push(
                0xffu8,
            ).push(0xffu8),
            r == old(self).top().function.chunk.code@.len() + 1,
            (final(self).model(), r as nat) == m_emit_jump(old(self).model(), op),
    {
        proof {
            reveal(m_emit_jump);
            reveal(m_emit);
            reveal(m_emit_op);
        }
        self.emit_op(op);
        self.emit_byte(0xff);
        self.emit_byte(0xff);
        let k = self.states.len() - 1;
        self.states[k].function.chunk.code.len() - 2
    }

    /// Writes into the operand at `offset` the distance from after it to
    /// the end of the code; reports an error past 65535.
    fn patch_jump(&mut self, offset: usize)
        requires
            old(self).wf(),
            offset + 2 <= old(self).top().function.chunk.code@.len(),
        ensures
            final(self).wf(),
            outer_same(final(self).states@, old(self).states@),
            same_but_code(final(self).top(), old(self).top()),
            final(self).top().function.chunk.lines@ == old(self).top().function.chunk.lines@,
            ({
                let jump = (old(self).top().function.chunk.code@.len() - offset - 2) as nat;
                &&& final(self).top().function.chunk.code@ == old(self).top().function.chunk.code@.update(
                    offset as int,
                    hi_byte(jump),
                ).update(offset + 1, lo_byte(jump))
                &&& jump <= 65535 ==> final(self).parser == old(self).parser
                &&& jump > 65535 ==> reports(
                    final(self).parser,
                    old(self).parser,
                    old(self).parser.previous@,
                    "Too much code to jump over."@,
                )
            }),
            final(self).model() == m_patch_jump(old(self).model(), offset as nat),
    {
        proof {
            reveal(m_patch_jump);
        }
        let k = self.states.len() - 1;
        let jump = self.states[k].function.chunk.code.len() - offset - 2;
        if jump > 65535 {
            self.error("Too much code to jump over.");
        }
        let ghost mid = self.model();
        let k = self.states.len() - 1;
        self.states[k].function.chunk.code.set(offset, ((jump / 256) % 256) as u8);
        self.states[k].function.chunk.code.set(offset + 1, (jump % 256) as u8);
        proof {
            let ns = self.states@[k as int];
            let os = old(self).states@[k as int];
            assert(self.states@ =~= old(self).states@.update(k as int, ns));
            lemma_states_update(old(self).states@, k as int, ns);
            let t = state_model(os);
            let code = t.func.code.update(offset as int, hi_byte(jump as nat)).update(offset + 1 as int, lo_byte(jump as nat));
            assert(ns.function.chunk.code@ =~= code);
            assert(state_model(ns) == StateM { func: FnM { code, ..t.func }, ..t });
            assert(mid.states == old(self).model().states);
        }
        proof {
            assert forall|i: int| 0 <= i < self.states@.len() implies frame_ok(
                #[trigger] self.states@[i],
                self.parser.next as int,
            ) by {
                if i != k {
                    assert(self.states@[i] == old(self).states@[i]);
                }
            }
        }
    }

    /// Emits a backward jump to `loop_start`; reports an error past 65535.
    fn emit_loop(&mut self, loop_start: usize)
        requires
            old(self).wf(),
            loop_start <= old(self).top().function.chunk.code@.len(),
        ensures
            final(self).wf(),
            outer_same(final(self).states@, old(self).states@),
            same_but_code(final(self).top(), old(self).top()),
            ({
                let offset = (old(self).top().function.chunk.code@.len() + 1 - loop_start + 2) as nat;
                &&& final(self).top().function.chunk.code@ == old(self).top().function.chunk.code@.push(
                    spec_op_byte(OpCode::Loop),
                ).push(hi_byte(offset)).push(lo_byte(offset))
                &&& offset <= 65535 ==> final(self).parser == old(self).parser
                &&& offset > 65535 ==> reports(
                    final(self).parser,
                    old(self).parser,
                    old(self).parser.previous@,
                    "Loop body too large."@,
                )
            }),
            final(self).model() == m_emit_loop(old(self).model(), loop_start as nat),
    {
        proof {
            reveal(m_emit_loop);
        }
        self.emit_op(OpCode::Loop);
        let k = self.states.len() - 1;
        // The distance back over the loop body and this instruction's two
        // operand bytes, kept modulo 2^16 as it is written into them.
        let back = self.states[k].function.chunk.code.len() - loop_start;
        if back > 65533 {
            self.error("Loop body too large.");
        }
        let offset = (back % 65536 + 2) % 65536;
        proof {
            lemma_mod_bytes((back + 2) as nat);
            assert((back + 2) % 65536 == (back % 65536 + 2) % 65536) by (nonlinear_arith);
            assert(((offset / 256) % 256) as u8 == hi_byte((back + 2) as nat));
            assert((offset % 256) as u8 == lo_byte((back + 2) as nat));
        }
        self.emit_byte(((offset / 256) % 256) as u8);
        self.emit_byte((offset % 256) as u8);
    }
}

/// How many locals stay when a scope closes back to depth `d`: the
/// trailing locals deeper than `d` leave.
spec fn kept(locals: Seq<Local>, d: i32) -> nat
    decreases locals.len(),
{
    if locals.len() > 0 && locals.last().depth > d {
        kept(locals.drop_last(), d)
    } else {
        locals.len()
    }
}

/// The code that closing a scope back to depth `d` emits: per leaving
/// local, innermost first, a pop or (when a closure captured it) a close.
spec fn closing_code(locals: Seq<Local>, d: i32) -> Seq<u8>
    decreases locals.len(),
{
    if locals.len() > 0 && locals.last().depth > d {
        seq![
            if locals.last().is_captured {
                spec_op_byte(OpCode::CloseUpvalue)
            } else {
                spec_op_byte(OpCode::Pop)
            },
        ] + closing_code(locals.drop_last(), d)
    } else {
        Seq::empty()
    }
}

proof fn lemma_kept(locals: Seq<Local>, d: i32)
    ensures
        kept(locals, d) <= locals.len(),
    decreases locals.len(),
{
    if locals.len() > 0 && locals.last().depth > d {
        lemma_kept(locals.drop_last(), d);
    }
}

/// Whether a local named `name` is already declared in the scope at depth
/// `depth`, looking at `locals[..k]` from the innermost out.
spec fn declared_in_scope(locals: Seq<Local>, name: Seq<char>, depth: i32, k: nat) -> bool
    decreases k,
{
    if k == 0 || k > locals.len() {
        false
    } else if locals[k - 1].depth != -1 && locals[k - 1].depth < depth {
        false
    } else if locals[k - 1].name.lexeme@ == name {
        true
    } else {
        declared_in_scope(locals, name, depth, (k - 1) as nat)
    }
}

/// The innermost of `locals[..k]` named `name`.
spec fn find_local(locals: Seq<Local>, name: Seq<char>, k: nat) -> Option<nat>
    decreases k,
{
    if k == 0 || k > locals.len() {
        None
    } else if locals[k - 1].name.lexeme@ == name {
        Some((k - 1) as nat)
    } else {
        find_local(locals, name, (k - 1) as nat)
    }
}

proof fn lemma_find_local_bound(locals: Seq<Local>, name: Seq<char>, k: nat)
    ensures
        find_local(locals, name, k) matches Some(i) ==> i < k && i < locals.len(),
    decreases k,
{
    if k > 0 && k <= locals.len() {
        lemma_find_local_bound(locals, name, (k - 1) as nat);
    }
}

/// The index of the first upvalue equal to (`index`, `is_local`) in
/// `ups[..k]`.
spec fn find_upvalue(ups: Seq<Upvalue>, index: u8, is_local: bool, k: nat) -> Option<nat>
    decreases k,
{
    if k == 0 || k > ups.len() {
        None
    } else {
        match find_upvalue(ups, index, is_local, (k - 1) as nat) {
            Some(i) => Some(i),
            None => if ups[k - 1].index == index && ups[k - 1].is_local == is_local {
                Some((k - 1) as nat)
            } else {
                None
            },
        }
    }
}

impl Compiler {
    fn top_depth(&self) -> (d: i32)
        requires
            self.states@.len() >= 1,
        ensures
            d == self.top().scope_depth,
    {
        self.states[self.states.len() - 1].scope_depth
    }

    fn begin_scope(&mut self)
        requires
            old(self).wf(),
            old(self).top().scope_depth < old(self).parser.next,
        ensures
            final(self).wf(),
            final(self).parser == old(self).parser,
            outer_same(final(self).states@, old(self).states@),
            final(self).top().scope_depth == old(self).top().scope_depth + 1,
            final(self).top().function.chunk.code@ == old(self).top().function.chunk.code@,
            final(self).top().locals@ == old(self).top().locals@,
            final(self).top().fn_type == old(self).top().fn_type,
            final(self).top().function.arity == old(self).top().function.arity,
            final(self).top().function.name == old(self).top().function.name,
            final(self).top().function.upvalue_count == old(self).top().function.upvalue_count,
            final(self).model() == m_begin_scope(old(self).model()),
    {
        proof {
            reveal(m_begin_scope);
        }
        let k = self.states.len() - 1;
        self.states[k].scope_depth = self.states[k].scope_depth + 1;
        proof {
            let ns = self.states@[k as int];
            assert(self.states@ =~= old(self).states@.update(k as int, ns));
            lemma_states_update(old(self).states@, k as int, ns);
            let t = state_model(old(self).states@[k as int]);
            assert(state_model(ns) == StateM { depth: t.depth + 1, ..t });
        }
        proof {
            assert forall|i: int| 0 <= i < self.states@.len() implies frame_ok(
                #[trigger] self.states@[i],
                self.parser.next as int,
            ) by {
                if i != k {
                    assert(self.states@[i] == old(self).states@[i]);
                }
            }
        }
    }

    /// Closes the innermost scope: its locals leave the stack.
    fn end_scope(&mut self)
        requires
            old(self).wf(),
            old(self).top().scope_depth >= 1,
        ensures
            final(self).wf(),
            final(self).parser == old(self).parser,
            outer_same(final(self).states@, old(self).states@),
            final(self).top().scope_depth == old(self).top().scope_depth - 1,
            final(self).top().locals@ == old(self).top().locals@.take(
                kept(old(self).top().locals@, (old(self).top().scope_depth - 1) as i32) as int,
            ),
            final(self).top().function.chunk.code@ == old(self).top().function.chunk.code@ + closing_code(
                old(self).top().locals@,
                (old(self).top().scope_depth - 1) as i32,
            ),
            final(self).top().fn_type == old(self).top().fn_type,
            final(self).top().function.arity == old(self).top().function.arity,
            final(self).top().function.name == old(self).top().function.name,
            final(self).top().function.upvalue_count == old(self).top().function.upvalue_count,
            final(self).model() == m_end_scope(old(self).model()),
    {
        let k = self.states.len() - 1;
        self.states[k].scope_depth = self.states[k].scope_depth - 1;
        let d = self.states[k].scope_depth;
        let ghost l0 = old(self).top().locals@;
        let ghost c0 = old(self).top().function.chunk.code@;
        let ghost ln0 = old(self).top().function.chunk.lines@;
        let ghost pl = old(self).parser.previous.line;
        proof {
            assert(self.top().function.chunk.lines@ =~= ln0 + Seq::new(0, |i: int| pl));
        }
        proof {
            lemma_kept(l0, d);
            assert forall|i: int| 0 <= i < self.states@.len() implies frame_ok(
                #[trigger] self.states@[i],
                self.parser.next as int,
            ) by {
                if i != k {
                    assert(self.states@[i] == old(self).states@[i]);
                }
            }
            assert(l0.take(l0.len() as int) =~= l0);
        }
        loop
            invariant
                self.wf(),
                self.parser == old(self).parser,
                outer_same(self.states@, old(self).states@),
                k == self.states@.len() - 1,
                self.top().scope_depth == d,
                d == old(self).top().scope_depth - 1,
                self.top().fn_type == old(self).top().fn_type,
                self.top().function.arity == old(self).top().function.arity,
                self.top().function.name == old(self).top().function.name,
                self.top().function.upvalue_count == old(self).top().function.upvalue_count,
                l0 == old(self).top().locals@,
                c0 == old(self).top().function.chunk.code@,
                self.top().locals@ == l0.take(self.top().locals@.len() as int),
                self.top().locals@.len() <= l0.len(),
                kept(self.top().locals@, d) == kept(l0, d),
                self.top().function.chunk.code@ + closing_code(self.top().locals@, d) == c0 + closing_code(l0, d),
                c0.len() <= self.top().function.chunk.code@.len(),
                ln0 == old(self).top().function.chunk.lines@,
                pl == old(self).parser.previous.line,
                self.top().function.chunk.lines@ == ln0 + Seq::new(
                    (self.top().function.chunk.code@.len() - c0.len()) as nat,
                    |i: int| pl,
                ),
                self.top().function.chunk.constants@ == old(self).top().function.chunk.constants@,
                self.top().upvalues@ == old(self).top().upvalues@,
            decreases self.top().locals@.len(),
        {
            let n = self.states[k].locals.len();
            if n == 0 || self.states[k].locals[n - 1].depth <= d {
                proof {
                    assert(kept(self.top().locals@, d) == self.top().locals@.len());
                    assert(d == (old(self).top().scope_depth - 1) as i32);
                    assert(closing_code(self.top().locals@, d) =~= Seq::<u8>::empty());
                    assert(self.top().function.chunk.code@ =~= c0 + closing_code(l0, d));
                    reveal(m_end_scope);
                    lemma_scope_models(l0, d);
                    let om = old(self).model();
                    let t = top_of(om);
                    let ns = self.states@[k as int];
                    assert(t == state_model(old(self).states@[k as int]));
                    assert(self.states@ =~= old(self).states@.update(k as int, ns));
                    lemma_states_update(old(self).states@, k as int, ns);
                    let code = m_closing(t.locals, t.depth - 1);
                    assert(t.depth - 1 == d as int);
                    assert(ns.function.chunk.lines@.map_values(|l: usize| l as nat) =~= t.func.lines + Seq::new(
                        code.len(),
                        |i: int| om.p.previous.line,
                    ));
                    assert(state_model(ns).func == FnM {
                        code: t.func.code + code,
                        lines: t.func.lines + Seq::new(code.len(), |i: int| om.p.previous.line),
                        ..t.func
                    });
                    assert(state_model(ns) == StateM {
                        func: FnM {
                            code: t.func.code + code,
                            lines: t.func.lines + Seq::new(code.len(), |i: int| om.p.previous.line),
                            ..t.func
                        },
                        locals: t.locals.take(m_kept(t.locals, t.depth - 1) as int),
                        depth: t.depth - 1,
                        ..t
                    });
                }
                return;
            }
            let captured = self.states[k].locals[n - 1].is_captured;
            let ghost before = self.top().locals@;
            let ghost lines_before = self.top().function.chunk.lines@;
            let ghost code_before = self.top().function.chunk.code@;
            let _ = self.states[k].locals.pop();
            proof {
                assert(self.top().locals@ =~= before.drop_last());
                assert forall|i: int| 0 <= i < self.states@.len() implies frame_ok(
                    #[trigger] self.states@[i],
                    self.parser.next as int,
                ) by {
                    if i != k {
                        assert(self.states@[i] == old(self).states@[i]);
                    }
                }
            }
            if captured {
                self.emit_op(OpCode::CloseUpvalue);
            } else {
                self.emit_op(OpCode::Pop);
            }
            proof {
                assert(self.top().function.chunk.lines@ == lines_before.push(pl));
                assert(self.top().function.chunk.code@.len() == code_before.len() + 1);
                assert(self.top().function.chunk.lines@ =~= ln0 + Seq::new(
                    (self.top().function.chunk.code@.len() - c0.len()) as nat,
                    |i: int| pl,
                ));
                assert(self.top().locals@ =~= l0.take(self.top().locals@.len() as int));
                let b = if captured { spec_op_byte(OpCode::CloseUpvalue) } else { spec_op_byte(OpCode::Pop) };
                assert(closing_code(before, d) == seq![b] + closing_code(before.drop_last(), d));
                assert(self.top().function.chunk.code@ + closing_code(self.top().locals@, d) =~= c0 + closing_code(l0, d));
            }
        }
    }

    /// Adds a local named `name`, not yet initialized; reports an error
    /// past 256 locals.
    fn add_local(&mut self, name: Token)
        requires
            old(self).wf(),
        ensures
            final(self).wf(),
            outer_same(final(self).states@, old(self).states@),
            final(self).top().scope_depth == old(self).top().scope_depth,
            final(self).top().fn_type == old(self).top().fn_type,
            final(self).top().function.arity == old(self).top().function.arity,
            final(self).top().function.name == old(self).top().function.name,
            final(self).top().function.upvalue_count == old(self).top().function.upvalue_count,
            final(self).top().function.chunk.code@ == old(self).top().function.chunk.code@,
            old(self).top().locals@.len() >= 256 ==> final(self).top().locals@ == old(self).top().locals@
                && reports(
                final(self).parser,
                old(self).parser,
                old(self).parser.previous@,
                "Too many local variables in function."@,
            ),
            old(self).top().locals@.len() < 256 ==> final(self).parser == old(self).parser
                && final(self).top().locals@.len() == old(self).top().locals@.len() + 1
                && final(self).top().locals@.drop_last() == old(self).top().locals@
                && final(self).top().locals@.last().name@ == name@
                && final(self).top().locals@.last().depth == -1
                && !final(self).top().locals@.last().is_captured,
            final(self).model() == m_add_local(old(self).model(), name.lexeme@),
    {
        proof {
            reveal(m_add_local);
        }
        let ghost nm = name.lexeme@;
        let k = self.states.len() - 1;
        if self.states[k].locals.len() >= 256 {
            self.error("Too many local variables in function.");
            return;
        }
        let ghost before = self.top().locals@;
        self.states[k].locals.push(Local { name, depth: -1, is_captured: false });
        proof {
            let ns = self.states@[k as int];
            assert(self.states@ =~= old(self).states@.update(k as int, ns));
            lemma_states_update(old(self).states@, k as int, ns);
            let t = state_model(old(self).states@[k as int]);
            assert(locals_model(ns.locals@) =~= t.locals.push(LocalM { name: nm, depth: -1, captured: false }));
            assert(state_model(ns) == StateM { locals: t.locals.push(LocalM { name: nm, depth: -1, captured: false }), ..t });
        }
        proof {
            assert(self.top().locals@.drop_last() =~= before);
            assert forall|i: int| 0 <= i < self.states@.len() implies frame_ok(
                #[trigger] self.states@[i],
                self.parser.next as int,
            ) by {
                if i != k {
                    assert(self.states@[i] == old(self).states@[i]);
                }
            }
        }
    }

    /// Declares the variable just named (`previous`) in the innermost
    /// scope; globals are not declared. A second declaration of a name in
    /// one scope is an error.
    fn declare_variable(&mut self)
        requires
            old(self).wf(),
        ensures
            final(self).wf(),
            outer_same(final(self).states@, old(self).states@),
            final(self).top().scope_depth == old(self).top().scope_depth,
            final(self).top().fn_type == old(self).top().fn_type,
            final(self).top().function.arity == old(self).top().function.arity,
            final(self).top().function.name == old(self).top().function.name,
            final(self).top().function.upvalue_count == old(self).top().function.upvalue_count,
            final(self).top().function.chunk.code@ == old(self).top().function.chunk.code@,
            final(self).parser.tokens == old(self).parser.tokens,
            final(self).parser.next == old(self).parser.next,
            final(self).parser.current == old(self).parser.current,
            final(self).parser.previous == old(self).parser.previous,
            final(self).parser.classes == old(self).parser.classes,
            old(self).parser.errors@.len() <= final(self).parser.errors@.len(),
            forall|i: int| 0 <= i < old(self).parser.errors@.len() ==> final(self).parser.errors@[i] == old(self).parser.errors@[i],
            old(self).top().scope_depth == 0 ==> *final(self) == *old(self),
            old(self).top().scope_depth != 0 && declared_in_scope(
                old(self).top().locals@,
                old(self).parser.previous.lexeme@,
                old(self).top().scope_depth,
                old(self).top().locals@.len(),
            ) ==> final(self).top().locals@ == old(self).top().locals@ && reports(
                final(self).parser,
                old(self).parser,
                old(self).parser.previous@,
                "Already a variable with this name in this scope."@,
            ),
            old(self).top().scope_depth != 0 && !declared_in_scope(
                old(self).top().locals@,
                old(self).parser.previous.lexeme@,
                old(self).top().scope_depth,
                old(self).top().locals@.len(),
            ) && old(self).top().locals@.len() < 256 ==> final(self).top().locals@.drop_last() == old(self).top().locals@
                && final(self).top().locals@.last().name@ == old(self).parser.previous@
                && final(self).top().locals@.last().depth == -1,
            final(self).model() == m_declare_variable(old(self).model()),
    {
        proof {
            reveal(m_declare_variable);
            let t = old(self).top();
            lemma_declared_model(t.locals@, old(self).parser.previous.lexeme@, t.scope_depth, t.locals@.len());
            assert(locals_model(t.locals@).len() == t.locals@.len());
        }
        let depth = self.top_depth();
        if depth == 0 {
            return;
        }
        let name = self.parser.previous.clone_token();
        let duplicate = self.declared_in_scope(&name, depth);
        if duplicate {
            self.error("Already a variable with this name in this scope.");
            return;
        }
        self.add_local(name);
    }

    /// Whether the innermost scope, at depth `depth`, already declares a
    /// local named like `name`.
    fn declared_in_scope(&self, name: &Token, depth: i32) -> (r: bool)
        requires
            self.states@.len() >= 1,
        ensures
            r == declared_in_scope(self.top().locals@, name.lexeme@, depth, self.top().locals@.len()),
    {
        let k = self.states.len() - 1;
        let n = self.states[k].locals.len();
        let mut i = n;
        let ghost locals = self.top().locals@;
        while i > 0
            invariant
                i <= n == locals.len(),
                k == self.states@.len() - 1,
                locals == self.top().locals@,
                declared_in_scope(locals, name.lexeme@, depth, n as nat) == declared_in_scope(
                    locals,
                    name.lexeme@,
                    depth,
                    i as nat,
                ),
            decreases i,
        {
            let local_depth = self.states[k].locals[i - 1].depth;
            if local_depth != -1 && local_depth < depth {
                return false;
            }
            if self.states[k].locals[i - 1].name.lexeme == name.lexeme {
                return true;
            }
            i = i - 1;
        }
        false
    }

    /// Marks the newest local initialized, at the current scope depth.
    fn mark_initialized(&mut self)
        requires
            old(self).wf(),
        ensures
            final(self).wf(),
            final(self).parser == old(self).parser,
            outer_same(final(self).states@, old(self).states@),
            final(self).top().scope_depth == old(self).top().scope_depth,
            final(self).top().fn_type == old(self).top().fn_type,
            final(self).top().function.arity == old(self).top().function.arity,
            final(self).top().function.name == old(self).top().function.name,
            final(self).top().function.upvalue_count == old(self).top().function.upvalue_count,
            final(self).top().function.chunk.code@ == old(self).top().function.chunk.code@,
            final(self).top().locals@.len() == old(self).top().locals@.len(),
            final(self).model() == m_mark_initialized(old(self).model()),
    {
        proof {
            reveal(m_mark_initialized);
        }
        let depth = self.top_depth();
        if depth == 0 {
            return;
        }
        let k = self.states.len() - 1;
        let n = self.states[k].locals.len();
        if n > 0 {
            self.states[k].locals[n - 1].depth = depth;
        }
        proof {
            let ns = self.states@[k as int];
            assert(self.states@ =~= old(self).states@.update(k as int, ns));
            lemma_states_update(old(self).states@, k as int, ns);
            let t = state_model(old(self).states@[k as int]);
            if n > 0 {
                let l = t.locals.last();
                assert(locals_model(ns.locals@) =~= t.locals.update(t.locals.len() - 1, LocalM { depth: t.depth, ..l }));
                assert(state_model(ns) == StateM {
                    locals: t.locals.update(t.locals.len() - 1, LocalM { depth: t.depth, ..l }),
                    ..t
                });
            } else {
                assert(ns == old(self).states@[k as int]);
            }
        }
        proof {
            assert forall|i: int| 0 <= i < self.states@.len() implies frame_ok(
                #[trigger] self.states@[i],
                self.parser.next as int,
            ) by {
                if i != k {
                    assert(self.states@[i] == old(self).states@[i]);
                }
            }
        }
    }
}

/// The states of `a` and `b` agree on everything but which locals closures
/// capture and the upvalue lists.
spec fn same_code_and_scopes(a: Seq<CompilerState>, b: Seq<CompilerState>) -> bool {
    &&& a.len() == b.len()
    &&& forall|i: int|
        0 <= i < a.len() ==> {
            &&& (#[trigger] a[i]).function.chunk.code@ == b[i].function.chunk.code@
            &&& a[i].function.chunk.lines@ == b[i].function.chunk.lines@
            &&& a[i].scope_depth == b[i].scope_depth
            &&& a[i].fn_type == b[i].fn_type
            &&& a[i].function.arity == b[i].function.arity
            &&& a[i].function.name == b[i].function.name
            &&& a[i].function.upvalue_count == b[i].function.upvalue_count
            &&& a[i].locals@.len() == b[i].locals@.len()
        }
}

impl Compiler {
    /// The slot of the innermost local named like `name`, if it is
    /// initialized; reading one in its own initializer is an error.
    fn resolve_local(&mut self, name: &Token) -> (r: Option<u8>)
        requires
            old(self).wf(),
        ensures
            final(self).wf(),
            final(self).states == old(self).states,
            match find_local(old(self).top().locals@, name.lexeme@, old(self).top().locals@.len()) {
                None => r is None && final(self).parser == old(self).parser,
                Some(i) => if old(self).top().locals@[i as int].depth == -1 {
                    r is None && reports(
                        final(self).parser,
                        old(self).parser,
                        old(self).parser.previous@,
                        "Can't read local variable in its own initializer."@,
                    )
                } else {
                    r == Some(i as u8) && final(self).parser == old(self).parser
                },
            },
            (final(self).model(), r) == m_resolve_local(old(self).model(), name.lexeme@),
    {
        proof {
            reveal(m_resolve_local);
            let ls = old(self).top().locals@;
            lemma_find_local_model(ls, name.lexeme@, ls.len());
            assert(locals_model(ls).len() == ls.len());
            assert(top_of(old(self).model()) == state_model(old(self).top()));
            match find_local(ls, name.lexeme@, ls.len()) {
                Some(i) => {
                    lemma_find_local_bound(ls, name.lexeme@, ls.len());
                    assert(locals_model(ls)[i as int] == local_model(ls[i as int]));
                },
                None => {},
            }
        }
        let k = self.states.len() - 1;
        let n = self.states[k].locals.len();
        let mut i = n;
        let ghost locals = self.top().locals@;
        while i > 0
            invariant
                i <= n == locals.len(),
                n <= 256,
                *self == *old(self),
                self.wf(),
                k == self.states@.len() - 1,
                locals == self.top().locals@,
                find_local(locals, name.lexeme@, n as nat) == find_local(locals, name.lexeme@, i as nat),
                m_resolve_local(old(self).model(), name.lexeme@) == match find_local(locals, name.lexeme@, n as nat) {
                    None => (old(self).model(), None),
                    Some(j) => if locals[j as int].depth == -1 {
                        (m_error(old(self).model(), "Can't read local variable in its own initializer."@), None)
                    } else {
                        (old(self).model(), Some(j as u8))
                    },
                },
            decreases i,
        {
            if self.states[k].locals[i - 1].name.lexeme == name.lexeme {
                if self.states[k].locals[i - 1].depth == -1 {
                    self.error("Can't read local variable in its own initializer.");
                    return None;
                }
                return Some((i - 1) as u8);
            }
            i = i - 1;
        }
        None
    }

    /// The index of upvalue (`index`, `is_local`) of function `state_idx`,
    /// added if new; past 256 upvalues an error, and 0.
    fn add_upvalue(&mut self, state_idx: usize, index: u8, is_local: bool) -> (r: u8)
        requires
            old(self).wf(),
            state_idx < old(self).states@.len(),
        ensures
            final(self).wf(),
            final(self).parser.tokens == old(self).parser.tokens,
            final(self).parser.next == old(self).parser.next,
            final(self).parser.current == old(self).parser.current,
            final(self).parser.previous == old(self).parser.previous,
            final(self).parser.classes == old(self).parser.classes,
            old(self).parser.errors@.len() <= final(self).parser.errors@.len(),
            forall|i: int| 0 <= i < old(self).parser.errors@.len() ==> final(self).parser.errors@[i] == old(self).parser.errors@[i],
            same_code_and_scopes(final(self).states@, old(self).states@),
            forall|i: int| 0 <= i < old(self).states@.len() && i != state_idx ==> #[trigger] final(self).states@[i] == old(self).states@[i],
            final(self).states@[state_idx as int].locals@ == old(self).states@[state_idx as int].locals@,
            ({
                let ups = old(self).states@[state_idx as int].upvalues@;
                match find_upvalue(ups, index, is_local, ups.len()) {
                    Some(i) => r == i && *final(self) == *old(self),
                    None => if ups.len() >= 256 {
                        r == 0 && final(self).states@[state_idx as int].upvalues@ == ups && reports(
                            final(self).parser,
                            old(self).parser,
                            old(self).parser.previous@,
                            "Too many closure variables in function."@,
                        )
                    } else {
                        r == ups.len() && final(self).parser == old(self).parser
                            && final(self).states@[state_idx as int].upvalues@ == ups.push(Upvalue { index, is_local })
                    },
                }
            }),
            (final(self).model(), r) == m_add_upvalue(old(self).model(), state_idx as nat, index, is_local),
    {
        let n = self.states[state_idx].upvalues.len();
        let mut i: usize = 0;
        let ghost ups = self.states@[state_idx as int].upvalues@;
        let ghost om = old(self).model();
        let ghost st = om.states[state_idx as int];
        proof {
            reveal(m_add_upvalue);
            lemma_find_up_model(ups, index, is_local, n as nat);
            assert(st == state_model(old(self).states@[state_idx as int]));
            assert(st.ups.len() == n);
        }
        while i < n
            invariant
                i <= n == ups.len(),
                n <= 256,
                *self == *old(self),
                self.wf(),
                state_idx < self.states@.len(),
                ups == self.states@[state_idx as int].upvalues@,
                find_upvalue(ups, index, is_local, i as nat) is None,
                om == old(self).model(),
                st == om.states[state_idx as int],
                m_add_upvalue(om, state_idx as nat, index, is_local) == match find_upvalue(ups, index, is_local, n as nat) {
                    Some(j) => (om, j as u8),
                    None => if n >= 256 {
                        (m_error(om, "Too many closure variables in function."@), 0u8)
                    } else {
                        (
                            CM {
                                states: om.states.update(state_idx as int, StateM { ups: st.ups.push((index, is_local)), ..st }),
                                ..om
                            },
                            n as u8,
                        )
                    },
                },
            decreases n - i,
        {
            let uv = self.states[state_idx].upvalues[i];
            if uv.index == index && uv.is_local == is_local {
                proof {
                    assert(find_upvalue(ups, index, is_local, (i + 1) as nat) == Some(i as nat));
                    lemma_find_upvalue_extends(ups, index, is_local, (i + 1) as nat, n as nat);
                }
                return i as u8;
            }
            i = i + 1;
        }
        if n >= 256 {
            self.error("Too many closure variables in function.");
            return 0;
        }
        self.states[state_idx].upvalues.push(Upvalue { index, is_local });
        proof {
            let ns = self.states@[state_idx as int];
            assert(self.states@ =~= old(self).states@.update(state_idx as int, ns));
            lemma_states_update(old(self).states@, state_idx as int, ns);
            assert(ups_model(ns.upvalues@) =~= st.ups.push((index, is_local)));
            assert(state_model(ns) == StateM { ups: st.ups.push((index, is_local)), ..st });
        }
        proof {
            assert forall|j: int| 0 <= j < self.states@.len() implies frame_ok(
                #[trigger] self.states@[j],
                self.parser.next as int,
            ) by {
                if j != state_idx {
                    assert(self.states@[j] == old(self).states@[j]);
                }
            }
        }
        n as u8
    }

    /// The upvalue of function `state_idx` through which `name` is reached
    /// in an enclosing function, added where needed along the way.
    fn resolve_upvalue(&mut self, state_idx: usize, name: &Token) -> (r: Option<u8>)
        requires
            old(self).wf(),
            state_idx < old(self).states@.len(),
        ensures
            final(self).wf(),
            final(self).parser.tokens == old(self).parser.tokens,
            final(self).parser.next == old(self).parser.next,
            final(self).parser.current == old(self).parser.current,
            final(self).parser.previous == old(self).parser.previous,
            final(self).parser.classes == old(self).parser.classes,
            old(self).parser.errors@.len() <= final(self).parser.errors@.len(),
            forall|i: int| 0 <= i < old(self).parser.errors@.len() ==> final(self).parser.errors@[i] == old(self).parser.errors@[i],
            same_code_and_scopes(final(self).states@, old(self).states@),
            state_idx == 0 ==> r is None && *final(self) == *old(self),
            (final(self).model(), r) == m_resolve_upvalue(old(self).model(), state_idx as nat, name.lexeme@),
        decreases state_idx,
    {
        proof {
            reveal(m_resolve_upvalue);
        }
        if state_idx == 0 {
            return None;
        }
        let enclosing = state_idx - 1;
        let n = self.states[enclosing].locals.len();
        let mut i = n;
        let mut found: Option<usize> = None;
        let ghost locs = self.states@[enclosing as int].locals@;
        while i > 0
            invariant_except_break
                found is None,
                find_local(locs, name.lexeme@, i as nat) == find_local(locs, name.lexeme@, n as nat),
            invariant
                i <= n == self.states@[enclosing as int].locals@.len(),
                n <= 256,
                *self == *old(self),
                self.wf(),
                enclosing < self.states@.len(),
                locs == self.states@[enclosing as int].locals@,
            ensures
                found matches Some(x) ==> x < n && find_local(locs, name.lexeme@, n as nat) == Some(x as nat),
                found is None ==> find_local(locs, name.lexeme@, n as nat) is None,
            decreases i,
        {
            if self.states[enclosing].locals[i - 1].name.lexeme == name.lexeme {
                found = Some(i - 1);
                break;
            }
            i = i - 1;
        }
        proof {
            lemma_find_local_model(locs, name.lexeme@, n as nat);
            assert(old(self).model().states[enclosing as int] == state_model(old(self).states@[enclosing as int]));
            assert(locals_model(locs).len() == n);
        }
        match found {
            Some(slot) => {
                self.states[enclosing].locals[slot].is_captured = true;
                proof {
                    let om = old(self).model();
                    let e = om.states[enclosing as int];
                    let l = e.locals[slot as int];
                    let ns = self.states@[enclosing as int];
                    assert(self.states@ =~= old(self).states@.update(enclosing as int, ns));
                    lemma_states_update(old(self).states@, enclosing as int, ns);
                    assert(l == local_model(locs[slot as int]));
                    assert(locals_model(ns.locals@) =~= e.locals.update(slot as int, LocalM { captured: true, ..l }));
                    assert(state_model(ns) == StateM { locals: e.locals.update(slot as int, LocalM { captured: true, ..l }), ..e });
                }
                proof {
                    assert forall|j: int| 0 <= j < self.states@.len() implies frame_ok(
                        #[trigger] self.states@[j],
                        self.parser.next as int,
                    ) by {
                        if j != enclosing {
                            assert(self.states@[j] == old(self).states@[j]);
                        }
                    }
                }
                let up = self.add_upvalue(state_idx, slot as u8, true);
                return Some(up);
            },
            None => {},
        }
        match self.resolve_upvalue(enclosing, name) {
            Some(up) => Some(self.add_upvalue(state_idx, up, false)),
            None => None,
        }
    }

    /// Adds the name `name` to the constants, for the global instructions.
    fn identifier_constant(&mut self, name: &str) -> (r: u8)
        requires
            old(self).wf(),
        ensures
            final(self).wf(),
            outer_same(final(self).states@, old(self).states@),
            final(self).top().function.chunk.code@ == old(self).top().function.chunk.code@,
            final(self).top().function.chunk.constants@.len() == old(self).top().function.chunk.constants@.len() + 1,
            final(self).top().function.chunk.constants@.last() matches Constant::Str(s) && s@ == name@,
            final(self).top().fn_type == old(self).top().fn_type,
            final(self).top().locals@ == old(self).top().locals@,
            final(self).top().scope_depth == old(self).top().scope_depth,
            final(self).top().upvalues@ == old(self).top().upvalues@,
            final(self).top().function.arity == old(self).top().function.arity,
            final(self).top().function.name == old(self).top().function.name,
            final(self).top().function.upvalue_count == old(self).top().function.upvalue_count,
            final(self).parser.tokens == old(self).parser.tokens,
            final(self).parser.next == old(self).parser.next,
            final(self).parser.current == old(self).parser.current,
            final(self).parser.previous == old(self).parser.previous,
            final(self).parser.classes == old(self).parser.classes,
            old(self).parser.errors@.len() <= final(self).parser.errors@.len(),
            forall|i: int| 0 <= i < old(self).parser.errors@.len() ==> final(self).parser.errors@[i] == old(self).parser.errors@[i],
            old(self).top().function.chunk.constants@.len() <= 255 ==> r == old(self).top().function.chunk.constants@.len(),
            (final(self).model(), r) == m_identifier_constant(old(self).model(), name@),
    {
        proof {
            reveal(m_identifier_constant);
        }
        self.make_constant(Constant::Str(string_of(name)))
    }
}

proof fn lemma_find_upvalue_extends(ups: Seq<Upvalue>, index: u8, is_local: bool, k: nat, m: nat)
    requires
        k <= m <= ups.len(),
        find_upvalue(ups, index, is_local, k) is Some,
    ensures
        find_upvalue(ups, index, is_local, m) == find_upvalue(ups, index, is_local, k),
    decreases m - k,
{
    if k < m {
        lemma_find_upvalue_extends(ups, index, is_local, k, (m - 1) as nat);
    }
}

impl CompilerState {
    /// A fresh function state. Slot zero holds the function itself, as a
    /// local with an empty name, or in a method the instance, as `this`.
    fn new(fn_type: FunctionType, name: Option<String>) -> (st: CompilerState)
        ensures
            st.fn_type == fn_type,
            st.function.name == name,
            st.function.arity == 0,
            st.function.upvalue_count == 0,
            st.function.chunk.code@.len() == 0,
            st.function.chunk.lines@.len() == 0,
            st.function.chunk.constants@.len() == 0,
            st.scope_depth == 0,
            st.locals@.len() == 1,
            st.upvalues@.len() == 0,
            state_model(st) == fresh_state(
                match name {
                    Some(n) => Some(n@),
                    None => None,
                },
                fn_type,
            ),
    {
        let mut locals: Vec<Local> = Vec::new();
        let slot_zero = match fn_type {
            FunctionType::Method | FunctionType::Initializer => Token::synthetic(TokenType::Identifier, "this"),
            _ => Token::synthetic(TokenType::Identifier, ""),
        };
        locals.push(Local { name: slot_zero, depth: 0, is_captured: false });
        let st = CompilerState {
            function: ObjFunction::new(name),
            fn_type,
            locals,
            scope_depth: 0,
            upvalues: Vec::new(),
        };
        proof {
            reveal_strlit("");
            reveal_strlit("this");
            assert(st.locals@.len() == 1);
            assert(st.locals@[0].name.lexeme@ =~= slot_zero_name(fn_type));
            assert(local_model(st.locals@[0]) == LocalM { name: slot_zero_name(fn_type), depth: 0, captured: false });
            assert(locals_model(st.locals@) =~= seq![LocalM { name: slot_zero_name(fn_type), depth: 0, captured: false }]);
            assert(ups_model(st.upvalues@) =~= Seq::<(u8, bool)>::empty());
            assert(st.function.chunk.lines@.map_values(|l: usize| l as nat) =~= Seq::<nat>::empty());
            assert(st.function.chunk.constants@ =~= Seq::<Constant>::empty());
            assert(consts_model(st.function.chunk.constants@) =~= Seq::<ConstM>::empty());
            assert(st.function.chunk.code@ =~= Seq::<u8>::empty());
        }
        st
    }
}

impl Compiler {
    /// Reads a variable name and declares it; gives the index of its name
    /// constant for a global, 0 for a local.
    fn parse_variable(&mut self, msg: &str) -> (r: u8)
        requires
            old(self).wf(),
        ensures
            final(self).moved(*old(self)),
            (final(self).model(), r) == m_parse_variable(old(self).model(), msg@),
    {
        proof {
            reveal(m_parse_variable);
        }
        self.consume(TokenType::Identifier, msg);
        self.declare_variable();
        proof {
            assert(top_of(self.model()) == state_model(self.top()));
        }
        if self.top_depth() > 0 {
            return 0;
        }
        let name = self.parser.previous.lexeme.clone();
        self.identifier_constant(name.as_str())
    }

    /// Defines the variable just declared: a global by `global`, a local
    /// by marking it initialized.
    fn define_variable(&mut self, global: u8)
        requires
            old(self).wf(),
        ensures
            final(self).moved(*old(self)),
            final(self).model() == m_define_variable(old(self).model(), global),
    {
        proof {
            reveal(m_define_variable);
            assert(top_of(self.model()) == state_model(self.top()));
        }
        if self.top_depth() > 0 {
            self.mark_initialized();
            return;
        }
        self.emit_op_byte(OpCode::DefineGlobal, global);
    }

    fn expression(&mut self)
        requires
            old(self).wf(),
        ensures
            final(self).moved(*old(self)),
            old(self).parser.current.ttype != TokenType::Eof ==> final(self).remaining() < old(self).remaining(),
            final(self).model() == g_expression(old(self).model()),
        decreases old(self).remaining(), 2int,
    {
        self.parse_precedence(Precedence::Assignment);
    }

    /// Compiles an expression of at least `precedence`: a prefix rule for
    /// the first token, then infix rules while the next operator binds at
    /// least as tightly.
    fn parse_precedence(&mut self, precedence: Precedence)
        requires
            old(self).wf(),
            prec_level(precedence) >= 1,
        ensures
            final(self).moved(*old(self)),
            old(self).parser.current.ttype != TokenType::Eof ==> final(self).remaining() < old(self).remaining(),
            final(self).model() == g_parse_precedence(old(self).model(), precedence),
        decreases old(self).remaining(), 1int,
    {
        let ghost start = *self;
        let ghost om = self.model();
        self.advance();
        let ghost m1 = self.model();
        let prefix_kind = self.parser.previous.ttype;
        let rule = get_rule(prefix_kind);
        let prefix = match rule.prefix {
            Some(p) => p,
            None => {
                self.error("Expect expression.");
                return;
            },
        };
        let can_assign = precedence.level() <= Precedence::Assignment.level();
        proof {
            lemma_rem(start);
            lemma_rem(*self);
        }
        self.apply_prefix(prefix, can_assign);
        let ghost m2 = self.model();
        proof {
            lemma_rem(*self);
        }
        loop
            invariant
                self.moved(start),
                start == *old(self),
                self.remaining() < start.remaining(),
                prec_level(precedence) >= 1,
                g_infix_loop(self.model(), precedence, can_assign) == g_infix_loop(m2, precedence, can_assign),
            ensures
                self.moved(start),
                self.model() == g_infix_loop(m2, precedence, can_assign),
            decreases self.remaining(),
        {
            let ghost mi = self.model();
            let r = get_rule(self.parser.current.ttype);
            if precedence.level() > r.precedence.level() {
                break;
            }
            let infix = match r.infix {
                Some(f) => f,
                None => {
                    break;
                },
            };
            proof {
                lemma_rem(*self);
            }
            self.advance();
            proof {
                lemma_rem(*self);
            }
            self.apply_infix(infix, can_assign);
            proof {
                lemma_rem(*self);
            }
        }
        proof {
            reveal(m_match);
        }
        if can_assign && self.match_tok(TokenType::Equal) {
            self.error("Invalid assignment target.");
        }
    }

    fn apply_prefix(&mut self, rule: PrefixRule, can_assign: bool)
        requires
            old(self).wf(),
            spec_rule(old(self).parser.previous.ttype).prefix == Some(rule),
        ensures
            final(self).moved(*old(self)),
            final(self).model() == g_prefix(old(self).model(), rule, can_assign),
        decreases old(self).remaining(), 5int,
    {
        proof {
            reveal(g_super);
        }
        match rule {
            PrefixRule::Grouping => self.grouping(),
            PrefixRule::Unary => self.unary(),
            PrefixRule::Variable => self.variable(can_assign),
            PrefixRule::Text => self.string(),
            PrefixRule::Number => self.number(),
            PrefixRule::Literal => self.literal(),
            PrefixRule::This => self.this_(),
            PrefixRule::Super => self.super_(),
        }
    }

    fn apply_infix(&mut self, rule: InfixRule, can_assign: bool)
        requires
            old(self).wf(),
            spec_rule(old(self).parser.previous.ttype).infix == Some(rule),
        ensures
            final(self).moved(*old(self)),
            final(self).model() == g_infix(old(self).model(), rule, can_assign),
        decreases old(self).remaining(), 5int,
    {
        proof {
            reveal(g_dot);
        }
        match rule {
            InfixRule::Call => self.call(),
            InfixRule::Binary => self.binary(),
            InfixRule::And => self.and_(),
            InfixRule::Or => self.or_(),
            InfixRule::Dot => self.dot(can_assign),
        }
    }

    fn grouping(&mut self)
        requires
            old(self).wf(),
        ensures
            final(self).moved(*old(self)),
            final(self).model() == g_grouping(old(self).model()),
        decreases old(self).remaining(), 3int,
    {
        self.expression();
        self.consume(TokenType::RightParen, "Expect ')' after expression.");
    }

    /// A number literal: its text goes to the constants.
    fn number(&mut self)
        requires
            old(self).wf(),
        ensures
            final(self).moved(*old(self)),
            final(self).model() == m_emit_constant(old(self).model(), ConstM::Number(old(self).parser.previous.lexeme@)),
    {
        let text = self.parser.previous.lexeme.clone();
        self.emit_constant(Constant::Number(text));
    }

    /// A string literal: its text without the quotes goes to the constants.
    fn string(&mut self)
        requires
            old(self).wf(),
            old(self).parser.previous.ttype == TokenType::String,
        ensures
            final(self).moved(*old(self)),
            final(self).model() == m_emit_constant(
                old(self).model(),
                ConstM::Str(old(self).parser.previous.lexeme@.subrange(1, old(self).parser.previous.lexeme@.len() - 1)),
            ),
    {
        let chars = chars_of(self.parser.previous.lexeme.as_str());
        let n = chars.len();
        let text = string_from_chars(&chars, 1, n - 1);
        self.emit_constant(Constant::Str(text));
    }

    fn literal(&mut self)
        requires
            old(self).wf(),
            spec_rule(old(self).parser.previous.ttype).prefix == Some(PrefixRule::Literal),
        ensures
            final(self).moved(*old(self)),
            final(self).model() == g_prefix(old(self).model(), PrefixRule::Literal, false),
    {
        match self.parser.previous.ttype {
            TokenType::False => self.emit_op(OpCode::False),
            TokenType::True => self.emit_op(OpCode::True),
            TokenType::Nil => self.emit_op(OpCode::Nil),
            _ => {
                proof {
                    assert(false);
                }
            },
        }
    }

    fn unary(&mut self)
        requires
            old(self).wf(),
            spec_rule(old(self).parser.previous.ttype).prefix == Some(PrefixRule::Unary),
        ensures
            final(self).moved(*old(self)),
            final(self).model() == g_unary(old(self).model()),
        decreases old(self).remaining(), 3int,
    {
        let op_kind = self.parser.previous.ttype;
        self.parse_precedence(Precedence::Unary);
        match op_kind {
            TokenType::Minus => self.emit_op(OpCode::Negate),
            TokenType::Bang => self.emit_op(OpCode::Not),
            _ => {
                proof {
                    assert(false);
                }
            },
        }
    }

    fn variable(&mut self, can_assign: bool)
        requires
            old(self).wf(),
        ensures
            final(self).moved(*old(self)),
            final(self).model() == g_named_variable(old(self).model(), old(self).parser.previous.lexeme@, can_assign),
        decreases old(self).remaining(), 4int,
    {
        let name = self.parser.previous.clone_token();
        self.named_variable(&name, can_assign);
    }

    /// Reads or (when assignable and `=` follows) writes the variable
    /// `name`: a local slot, else an upvalue, else a global by name.
    /// How `name` is read and written: a local slot, else an upvalue,
    /// else a global by its name constant.
    fn variable_access(&mut self, name: &Token) -> (r: (OpCode, OpCode, u8))
        requires
            old(self).wf(),
        ensures
            final(self).moved(*old(self)),
            final(self).parser.tokens == old(self).parser.tokens,
            final(self).parser.next == old(self).parser.next,
            final(self).parser.current == old(self).parser.current,
            (final(self).model(), r.0, r.1, r.2) == m_variable_access(old(self).model(), name.lexeme@),
    {
        proof {
            reveal(m_variable_access);
        }
        match self.resolve_local(name) {
            Some(slot) => (OpCode::GetLocal, OpCode::SetLocal, slot),
            None => {
                let k = self.states.len() - 1;
                match self.resolve_upvalue(k, name) {
                    Some(up) => (OpCode::GetUpvalue, OpCode::SetUpvalue, up),
                    None => {
                        let idx = self.identifier_constant(name.lexeme.as_str());
                        (OpCode::GetGlobal, OpCode::SetGlobal, idx)
                    },
                }
            },
        }
    }

    /// Reads or (when assignable and `=` follows) writes the variable
    /// `name`.
    fn named_variable(&mut self, name: &Token, can_assign: bool)
        requires
            old(self).wf(),
        ensures
            final(self).moved(*old(self)),
            final(self).model() == g_named_variable(old(self).model(), name.lexeme@, can_assign),
        decreases old(self).remaining(), 3int,
    {
        proof {
            lemma_rem(*self);
        }
        let (get_op, set_op, arg) = self.variable_access(name);
        proof {
            lemma_rem(*self);
            reveal(m_match);
        }
        if can_assign && self.match_tok(TokenType::Equal) {
            proof {
                lemma_rem(*self);
            }
            self.expression();
            self.emit_op_byte(set_op, arg);
        } else {
            self.emit_op_byte(get_op, arg);
        }
    }

    fn binary(&mut self)
        requires
            old(self).wf(),
            spec_rule(old(self).parser.previous.ttype).infix == Some(InfixRule::Binary),
        ensures
            final(self).moved(*old(self)),
            final(self).model() == g_binary(old(self).model()),
        decreases old(self).remaining(), 3int,
    {
        let op_kind = self.parser.previous.ttype;
        let rule = get_rule(op_kind);
        self.parse_precedence(rule.precedence.next());
        match op_kind {
            TokenType::BangEqual => {
                self.emit_op(OpCode::Equal);
                self.emit_op(OpCode::Not);
            },
            TokenType::EqualEqual => self.emit_op(OpCode::Equal),
            TokenType::Greater => self.emit_op(OpCode::Greater),
            TokenType::GreaterEqual => {
                self.emit_op(OpCode::Less);
                self.emit_op(OpCode::Not);
            },
            TokenType::Less => self.emit_op(OpCode::Less),
            TokenType::LessEqual => {
                self.emit_op(OpCode::Greater);
                self.emit_op(OpCode::Not);
            },
            TokenType::Plus => self.emit_op(OpCode::Add),
            TokenType::Minus => self.emit_op(OpCode::Subtract),
            TokenType::Star => self.emit_op(OpCode::Multiply),
            TokenType::Slash => self.emit_op(OpCode::Divide),
            _ => {
                proof {
                    assert(false);
                }
            },
        }
    }

    fn call(&mut self)
        requires
            old(self).wf(),
        ensures
            final(self).moved(*old(self)),
            final(self).model() == g_call(old(self).model()),
        decreases old(self).remaining(), 4int,
    {
        let arg_count = self.argument_list();
        self.emit_op_byte(OpCode::Call, arg_count);
    }

    /// Reads the variable `name`.
    fn get_variable(&mut self, name: &Token)
        requires
            old(self).wf(),
        ensures
            final(self).moved(*old(self)),
            final(self).model() == m_get_variable(old(self).model(), name.lexeme@),
    {
        proof {
            reveal(m_get_variable);
        }
        let (get_op, _set_op, arg) = self.variable_access(name);
        self.emit_op_byte(get_op, arg);
    }

    /// `this`: the instance in slot zero of the method, an error outside a
    /// class.
    fn this_(&mut self)
        requires
            old(self).wf(),
        ensures
            final(self).moved(*old(self)),
            final(self).model() == g_prefix(old(self).model(), PrefixRule::This, false),
    {
        if self.parser.classes.len() == 0 {
            self.error("Can't use 'this' outside of a class.");
            return;
        }
        let name = self.parser.previous.clone_token();
        self.get_variable(&name);
    }

    /// A property after `.`: assigned when assignable and `=` follows,
    /// invoked with arguments when `(` follows, else read.
    fn dot(&mut self, can_assign: bool)
        requires
            old(self).wf(),
        ensures
            final(self).moved(*old(self)),
            final(self).model() == g_dot(old(self).model(), can_assign),
        decreases old(self).remaining(), 4int,
    {
        proof {
            reveal(g_dot);
        }
        proof {
            lemma_rem(*self);
            reveal(m_match);
        }
        self.consume(TokenType::Identifier, "Expect property name after '.'.");
        let text = self.parser.previous.lexeme.clone();
        let name = self.identifier_constant(text.as_str());
        proof {
            lemma_rem(*self);
        }
        if can_assign && self.match_tok(TokenType::Equal) {
            proof {
                lemma_rem(*self);
            }
            self.expression();
            self.emit_op_byte(OpCode::SetProperty, name);
        } else if self.match_tok(TokenType::LeftParen) {
            proof {
                lemma_rem(*self);
            }
            let arg_count = self.argument_list();
            self.emit_op_byte(OpCode::Invoke, name);
            self.emit_byte(arg_count);
        } else {
            self.emit_op_byte(OpCode::GetProperty, name);
        }
    }

    /// `super.name`: the superclass's method bound to `this`, or invoked
    /// on it when `(` follows.
    #[verifier::rlimit(100)]
    #[verifier::spinoff_prover]
    fn super_(&mut self)
        requires
            old(self).wf(),
        ensures
            final(self).moved(*old(self)),
            final(self).model() == g_super(old(self).model()),
        decreases old(self).remaining(), 4int,
    {
        proof {
            reveal(g_super);
        }
        proof {
            lemma_rem(*self);
            reveal(m_match);
            reveal_strlit("this");
            reveal_strlit("super");
        }
        let n = self.parser.classes.len();
        if n == 0 {
            self.error("Can't use 'super' outside of a class.");
        } else if !self.parser.classes[n - 1] {
            self.error("Can't use 'super' in a class with no superclass.");
        }
        self.consume(TokenType::Dot, "Expect '.' after 'super'.");
        self.consume(TokenType::Identifier, "Expect superclass method name.");
        let text = self.parser.previous.lexeme.clone();
        let name = self.identifier_constant(text.as_str());
        let this_name = Token::synthetic(TokenType::Identifier, "this");
        let super_name = Token::synthetic(TokenType::Identifier, "super");
        self.get_variable(&this_name);
        proof {
            lemma_rem(*self);
        }
        if self.match_tok(TokenType::LeftParen) {
            proof {
                lemma_rem(*self);
            }
            let arg_count = self.argument_list();
            self.get_variable(&super_name);
            self.emit_op_byte(OpCode::SuperInvoke, name);
            self.emit_byte(arg_count);
        } else {
            self.get_variable(&super_name);
            self.emit_op_byte(OpCode::GetSuper, name);
        }
    }

    /// The arguments of a call up to its `)`; gives their number (past
    /// 255, an error).
    fn argument_list(&mut self) -> (r: u8)
        requires
            old(self).wf(),
        ensures
            final(self).moved(*old(self)),
            (final(self).model(), r) == g_arguments(old(self).model()),
        decreases old(self).remaining(), 3int,
    {
        let ghost start = *self;
        let mut count: u8 = 0;
        if !self.check(TokenType::RightParen) {
            let ghost target = g_argument_loop(self.model(), 0);
            loop
                invariant_except_break
                    g_argument_loop(self.model(), count) == target,
                invariant
                    self.moved(start),
                    start == *old(self),
                ensures
                    (self.model(), count) == target,
                decreases self.remaining(),
            {
                let ghost mi = self.model();
                let ghost ci = count;
                proof {
                    lemma_rem(*self);
                }
                self.expression();
                if count == 255 {
                    self.error("Can't have more than 255 arguments.");
                }
                if count < 255 {
                    count = count + 1;
                }
                let ghost m2 = self.model();
                proof {
                    lemma_rem(*self);
                    reveal(m_match);
                }
                if !self.match_tok(TokenType::Comma) {
                    break;
                }
                proof {
                    lemma_rem(*self);
                    reveal(m_match);
                    assert(g_argument_loop(mi, ci) == g_argument_loop(self.model(), count));
                }
            }
        }
        self.consume(TokenType::RightParen, "Expect ')' after arguments.");
        count
    }

    /// `and`: skips the right operand when the left one is false.
    fn and_(&mut self)
        requires
            old(self).wf(),
        ensures
            final(self).moved(*old(self)),
            final(self).model() == g_and(old(self).model()),
        decreases old(self).remaining(), 3int,
    {
        let end_jump = self.emit_jump(OpCode::JumpIfFalse);
        self.emit_op(OpCode::Pop);
        self.parse_precedence(Precedence::And);
        self.patch_jump(end_jump);
    }

    /// `or`: skips the right operand when the left one is true.
    fn or_(&mut self)
        requires
            old(self).wf(),
        ensures
            final(self).moved(*old(self)),
            final(self).model() == g_or(old(self).model()),
        decreases old(self).remaining(), 3int,
    {
        let else_jump = self.emit_jump(OpCode::JumpIfFalse);
        let end_jump = self.emit_jump(OpCode::Jump);
        self.patch_jump(else_jump);
        self.emit_op(OpCode::Pop);
        self.parse_precedence(Precedence::Or);
        self.patch_jump(end_jump);
    }
}

impl Compiler {
    #[verifier::rlimit(100)]
    #[verifier::spinoff_prover]
    fn declaration(&mut self)
        requires
            old(self).wf(),
        ensures
            final(self).moved(*old(self)),
            old(self).parser.current.ttype != TokenType::Eof ==> final(self).remaining() < old(self).remaining(),
            final(self).model() == g_declaration(old(self).model()),
        decreases old(self).remaining(), 9int,
    {
        proof {
            reveal(m_match);
            lemma_rem(*self);
        }
        if self.match_tok(TokenType::Class) {
            proof {
                lemma_rem(*self);
            }
            self.class_declaration();
        } else if self.match_tok(TokenType::Fun) {
            proof {
                lemma_rem(*self);
            }
            self.fun_declaration();
        } else if self.match_tok(TokenType::Var) {
            proof {
                lemma_rem(*self);
            }
            self.var_declaration();
        } else {
            self.statement();
        }
        if self.parser.panic_mode {
            self.synchronize();
        }
    }

    #[verifier::rlimit(100)]
    #[verifier::spinoff_prover]
    fn statement(&mut self)
        requires
            old(self).wf(),
        ensures
            final(self).moved(*old(self)),
            old(self).parser.current.ttype != TokenType::Eof ==> final(self).remaining() < old(self).remaining(),
            final(self).model() == g_statement(old(self).model()),
        decreases old(self).remaining(), 7int,
    {
        proof {
            reveal(m_match);
            lemma_rem(*self);
        }
        let ghost a = m_advance(self.model());
        proof {
            if self.parser.current.ttype == TokenType::LeftBrace {
                assert(m_begin_scope(a).p == a.p) by {
                    reveal(m_begin_scope);
                }
            }
        }
        if self.match_tok(TokenType::Print) {
            proof {
                lemma_rem(*self);
            }
            self.print_statement();
        } else if self.match_tok(TokenType::If) {
            proof {
                lemma_rem(*self);
            }
            self.if_statement();
        } else if self.match_tok(TokenType::While) {
            proof {
                lemma_rem(*self);
            }
            self.while_statement();
        } else if self.match_tok(TokenType::For) {
            proof {
                lemma_rem(*self);
            }
            self.for_statement();
        } else if self.match_tok(TokenType::Return) {
            proof {
                lemma_rem(*self);
            }
            self.return_statement();
        } else if self.match_tok(TokenType::LeftBrace) {
            proof {
                lemma_rem(*self);
            }
            self.begin_scope();
            proof {
                lemma_rem(*self);
            }
            self.block();
            self.end_scope();
        } else {
            self.expression_statement();
        }
    }

    fn print_statement(&mut self)
        requires
            old(self).wf(),
        ensures
            final(self).moved(*old(self)),
            final(self).model() == g_print(old(self).model()),
        decreases old(self).remaining(), 6int,
    {
        self.expression();
        self.consume(TokenType::Semicolon, "Expect ';' after value.");
        self.emit_op(OpCode::Print);
    }

    fn expression_statement(&mut self)
        requires
            old(self).wf(),
        ensures
            final(self).moved(*old(self)),
            final(self).model() == g_expression_statement(old(self).model()),
            old(self).parser.current.ttype != TokenType::Eof ==> final(self).remaining() < old(self).remaining(),
        decreases old(self).remaining(), 6int,
    {
        self.expression();
        self.consume(TokenType::Semicolon, "Expect ';' after expression.");
        self.emit_op(OpCode::Pop);
    }

    #[verifier::rlimit(100)]
    #[verifier::spinoff_prover]
    fn if_statement(&mut self)
        requires
            old(self).wf(),
        ensures
            final(self).moved(*old(self)),
            final(self).model() == g_if(old(self).model()),
        decreases old(self).remaining(), 8int,
    {
        proof {
            reveal(m_match);
            lemma_rem(*self);
        }
        self.consume(TokenType::LeftParen, "Expect '(' after 'if'.");
        proof {
            lemma_rem(*self);
        }
        self.expression();
        self.consume(TokenType::RightParen, "Expect ')' after condition.");
        let then_jump = self.emit_jump(OpCode::JumpIfFalse);
        self.emit_op(OpCode::Pop);
        proof {
            lemma_rem(*self);
        }
        self.statement();
        let else_jump = self.emit_jump(OpCode::Jump);
        self.patch_jump(then_jump);
        self.emit_op(OpCode::Pop);
        proof {
            lemma_rem(*self);
        }
        if self.match_tok(TokenType::Else) {
            proof {
                lemma_rem(*self);
            }
            self.statement();
        }
        self.patch_jump(else_jump);
    }

    fn code_len(&self) -> (n: usize)
        requires
            self.states@.len() >= 1,
        ensures
            n == self.top().function.chunk.code@.len(),
    {
        self.states[self.states.len() - 1].function.chunk.code.len()
    }

    #[verifier::rlimit(100)]
    #[verifier::spinoff_prover]
    fn while_statement(&mut self)
        requires
            old(self).wf(),
        ensures
            final(self).moved(*old(self)),
            final(self).model() == g_while(old(self).model()),
        decreases old(self).remaining(), 8int,
    {
        proof {
            lemma_rem(*self);
            assert(top_of(self.model()) == state_model(self.top()));
        }
        let loop_start = self.code_len();
        self.consume(TokenType::LeftParen, "Expect '(' after 'while'.");
        proof {
            lemma_rem(*self);
        }
        self.expression();
        self.consume(TokenType::RightParen, "Expect ')' after condition.");
        let exit_jump = self.emit_jump(OpCode::JumpIfFalse);
        self.emit_op(OpCode::Pop);
        proof {
            lemma_rem(*self);
        }
        self.statement();
        self.emit_loop(loop_start);
        self.patch_jump(exit_jump);
        self.emit_op(OpCode::Pop);
    }

    #[verifier::rlimit(100)]
    #[verifier::spinoff_prover]
    fn for_statement(&mut self)
        requires
            old(self).wf(),
            old(self).top().scope_depth < old(self).parser.next,
        ensures
            final(self).moved(*old(self)),
            final(self).model() == g_for(old(self).model()),
        decreases old(self).remaining(), 9int,
    {
        proof {
            lemma_rem(*self);
        }
        self.begin_scope();
        self.consume(TokenType::LeftParen, "Expect '(' after 'for'.");
        proof {
            lemma_rem(*self);
        }
        self.for_initializer();
        proof {
            lemma_rem(*self);
        }
        let (exit_jump, loop_start) = self.for_clauses();
        proof {
            lemma_rem(*self);
        }
        self.for_rest(exit_jump, loop_start);
        self.end_scope();
    }

    /// The initializer clause of a `for`.
    fn for_initializer(&mut self)
        requires
            old(self).wf(),
        ensures
            final(self).moved(*old(self)),
            final(self).model() == g_for_initializer(old(self).model()),
        decreases old(self).remaining(), 7int,
    {
        proof {
            reveal(m_match);
            lemma_rem(*self);
        }
        if self.match_tok(TokenType::Semicolon) {
        } else if self.match_tok(TokenType::Var) {
            proof {
                lemma_rem(*self);
            }
            self.var_declaration();
        } else {
            self.expression_statement();
        }
    }

    /// The condition and increment clauses of a `for`: the exit jump, and
    /// where the loop starts.
    #[verifier::rlimit(100)]
    #[verifier::spinoff_prover]
    fn for_clauses(&mut self) -> (r: (Option<usize>, usize))
        requires
            old(self).wf(),
        ensures
            final(self).moved(*old(self)),
            r.1 <= final(self).top().function.chunk.code@.len(),
            r.0 matches Some(x) ==> x + 2 <= final(self).top().function.chunk.code@.len(),
            ({
                let t = g_for_clauses(old(self).model());
                final(self).model() == t.0 && opt_nat(r.0) == t.1 && r.1 as nat == t.2
            }),
        decreases old(self).remaining(), 7int,
    {
        proof {
            reveal(m_match);
            lemma_rem(*self);
            assert(top_of(self.model()) == state_model(self.top()));
        }
        let mut loop_start = self.code_len();
        let mut exit_jump: Option<usize> = None;
        if !self.match_tok(TokenType::Semicolon) {
            self.expression();
            self.consume(TokenType::Semicolon, "Expect ';' after loop condition.");
            exit_jump = Some(self.emit_jump(OpCode::JumpIfFalse));
            self.emit_op(OpCode::Pop);
        }
        proof {
            lemma_rem(*self);
            assert(top_of(self.model()) == state_model(self.top()));
        }
        if !self.match_tok(TokenType::RightParen) {
            let body_jump = self.emit_jump(OpCode::Jump);
            proof {
                assert(top_of(self.model()) == state_model(self.top()));
            }
            let increment_start = self.code_len();
            self.expression();
            self.emit_op(OpCode::Pop);
            self.consume(TokenType::RightParen, "Expect ')' after for clauses.");
            self.emit_loop(loop_start);
            loop_start = increment_start;
            self.patch_jump(body_jump);
        }
        (exit_jump, loop_start)
    }

    /// The body of a `for`, the jump back to `loop_start` and the exit.
    #[verifier::rlimit(100)]
    #[verifier::spinoff_prover]
    fn for_rest(&mut self, exit_jump: Option<usize>, loop_start: usize)
        requires
            old(self).wf(),
            loop_start <= old(self).top().function.chunk.code@.len(),
            exit_jump matches Some(x) ==> x + 2 <= old(self).top().function.chunk.code@.len(),
        ensures
            final(self).moved(*old(self)),
            final(self).model() == g_for_rest(old(self).model(), opt_nat(exit_jump), loop_start as nat),
        decreases old(self).remaining(), 8int,
    {
        self.statement();
        self.emit_loop(loop_start);
        match exit_jump {
            Some(exit) => {
                self.patch_jump(exit);
                self.emit_op(OpCode::Pop);
            },
            None => {},
        }
    }

    #[verifier::rlimit(100)]
    #[verifier::spinoff_prover]
    fn return_statement(&mut self)
        requires
            old(self).wf(),
        ensures
            final(self).moved(*old(self)),
            final(self).model() == g_return(old(self).model()),
        decreases old(self).remaining(), 6int,
    {
        proof {
            reveal(m_match);
            lemma_rem(*self);
            assert(top_of(self.model()) == state_model(self.top()));
        }
        let k = self.states.len() - 1;
        if self.states[k].fn_type == FunctionType::Script {
            self.error("Can't return from top-level code.");
        }
        proof {
            lemma_rem(*self);
        }
        if self.match_tok(TokenType::Semicolon) {
            self.emit_return();
        } else {
            proof {
                assert(top_of(self.model()) == state_model(self.top()));
            }
            let ghost m1 = self.model();
            if self.states[k].fn_type == FunctionType::Initializer {
                self.error("Can't return a value from an initializer.");
            }
            proof {
                lemma_rem(*self);
                assert(self.model() == if top_of(m1).fn_type == FunctionType::Initializer {
                    m_error(m1, "Can't return a value from an initializer."@)
                } else {
                    m1
                });
            }
            self.expression();
            self.consume(TokenType::Semicolon, "Expect ';' after return value.");
            self.emit_op(OpCode::Return);
        }
    }

    /// The declarations of a block up to its `}`.
    #[verifier::rlimit(100)]
    #[verifier::spinoff_prover]
    fn block(&mut self)
        requires
            old(self).wf(),
        ensures
            final(self).moved(*old(self)),
            old(self).parser.current.ttype != TokenType::Eof ==> old(self).parser.next < final(self).parser.next,
            final(self).model() == g_block(old(self).model()),
        decreases old(self).remaining(), 10int,
    {
        let ghost start = *self;
        while !self.check(TokenType::RightBrace) && !self.check(TokenType::Eof)
            invariant
                self.moved(start),
                start == *old(self),
                g_block_loop(self.model()) == g_block_loop(start.model()),
            decreases self.remaining(),
        {
            let ghost mi = self.model();
            proof {
                lemma_rem(*self);
            }
            self.declaration();
            proof {
                lemma_rem(*self);
            }
        }
        proof {
            if self.parser.next == start.parser.next {
                lemma_same_next(start, *self);
            }
        }
        self.consume(TokenType::RightBrace, "Expect '}' after block.");
    }

    fn var_declaration(&mut self)
        requires
            old(self).wf(),
        ensures
            final(self).moved(*old(self)),
            final(self).model() == g_var_declaration(old(self).model()),
        decreases old(self).remaining(), 6int,
    {
        proof {
            reveal(m_match);
            lemma_rem(*self);
        }
        let global = self.parse_variable("Expect variable name.");
        proof {
            lemma_rem(*self);
        }
        if self.match_tok(TokenType::Equal) {
            proof {
                lemma_rem(*self);
            }
            self.expression();
        } else {
            self.emit_op(OpCode::Nil);
        }
        self.consume(TokenType::Semicolon, "Expect ';' after variable declaration.");
        self.define_variable(global);
    }

    fn fun_declaration(&mut self)
        requires
            old(self).wf(),
            old(self).parser.next >= 1,
        ensures
            final(self).moved(*old(self)),
            final(self).model() == g_fun_declaration(old(self).model()),
        decreases old(self).remaining(), 12int,
    {
        proof {
            lemma_rem(*self);
        }
        let global = self.parse_variable("Expect function name.");
        self.mark_initialized();
        proof {
            lemma_rem(*self);
        }
        self.function_body(FunctionType::Function);
        self.define_variable(global);
    }

    /// A method: its name constant, then its function, an initializer when
    /// named `init`, bound to the class below it on the stack.
    #[verifier::rlimit(100)]
    #[verifier::spinoff_prover]
    fn method(&mut self)
        requires
            old(self).wf(),
        ensures
            final(self).moved(*old(self)),
            old(self).parser.current.ttype != TokenType::Eof ==> old(self).parser.next < final(self).parser.next,
            final(self).model() == g_method(old(self).model()),
        decreases old(self).remaining(), 12int,
    {
        proof {
            reveal(g_method);
        }
        let ghost start = *self;
        proof {
            lemma_rem(*self);
        }
        self.consume(TokenType::Identifier, "Expect method name.");
        let text = self.parser.previous.lexeme.clone();
        let constant = self.identifier_constant(text.as_str());
        let fn_type = if text == string_of("init") {
            FunctionType::Initializer
        } else {
            FunctionType::Method
        };
        proof {
            lemma_rem(*self);
            if self.parser.next == start.parser.next {
                lemma_same_next(start, *self);
            }
        }
        self.function_body(fn_type);
        self.emit_op_byte(OpCode::Method, constant);
    }

    /// The class `class_name` loaded for the methods of the body, which
    /// bind to it one by one up to `}`.
    #[verifier::rlimit(100)]
    #[verifier::spinoff_prover]
    fn class_body(&mut self, class_name: &Token)
        requires
            old(self).wf(),
        ensures
            final(self).moved(*old(self)),
            final(self).model() == g_class_body(old(self).model(), class_name.lexeme@),
        decreases old(self).remaining(), 13int,
    {
        proof {
            reveal(g_class_body);
            lemma_rem(*self);
        }
        self.get_variable(class_name);
        self.consume(TokenType::LeftBrace, "Expect '{' before class body.");
        let ghost body_start = *self;
        let ghost m1 = self.model();
        proof {
            lemma_rem(*self);
        }
        while !self.check(TokenType::RightBrace) && !self.check(TokenType::Eof)
            invariant
                self.moved(body_start),
                body_start.moved(*old(self)),
                g_methods(self.model()) == g_methods(m1),
            decreases self.remaining(),
        {
            let ghost before = *self;
            proof {
                lemma_rem(*self);
            }
            self.method();
            proof {
                reveal(g_methods);
                lemma_next_strict(before, *self);
                lemma_rem(*self);
                lemma_rem(before);
            }
        }
        proof {
            reveal(g_methods);
        }
        self.consume(TokenType::RightBrace, "Expect '}' after class body.");
        self.emit_op(OpCode::Pop);
    }

    /// After `<`: reads the superclass, binds it as the local `super` of a
    /// new scope, and makes the class `class_name` inherit from it.
    #[verifier::rlimit(100)]
    #[verifier::spinoff_prover]
    fn inherit(&mut self, class_name: &Token)
        requires
            old(self).wf(),
            old(self).top().scope_depth < old(self).parser.next,
        ensures
            final(self).opened(*old(self)),
            final(self).model() == m_superclass(old(self).model(), class_name.lexeme@),
    {
        proof {
            reveal(m_superclass);
            reveal_strlit("super");
        }
        self.consume(TokenType::Identifier, "Expect superclass name.");
        let superclass = self.parser.previous.clone_token();
        self.get_variable(&superclass);
        if class_name.lexeme == superclass.lexeme {
            self.error("A class can't inherit from itself.");
        }
        self.begin_scope();
        self.add_local(Token::synthetic(TokenType::Identifier, "super"));
        self.define_variable(0);
        self.get_variable(class_name);
        self.emit_op(OpCode::Inherit);
    }

    /// A class declaration: the class bound to its name, its superclass
    /// after `<`, bound to `super` in a scope around the body, then the
    /// body.
    #[verifier::rlimit(100)]
    #[verifier::spinoff_prover]
    fn class_declaration(&mut self)
        requires
            old(self).wf(),
        ensures
            final(self).moved(*old(self)),
            final(self).model() == g_class_declaration(old(self).model()),
        decreases old(self).remaining(), 14int,
    {
        proof {
            reveal(g_class_declaration);
        }
        let ghost start = *self;
        proof {
            lemma_rem(*self);
            reveal(m_match);
        }
        self.consume(TokenType::Identifier, "Expect class name.");
        let class_name = self.parser.previous.clone_token();
        let name_constant = self.identifier_constant(class_name.lexeme.as_str());
        self.declare_variable();
        self.emit_op_byte(OpCode::Class, name_constant);
        self.define_variable(name_constant);
        let ghost m3 = self.model();
        self.parser.classes.push(false);
        proof {
            assert(self.model() == with_p(m3, ParserM { classes: m3.p.classes.push(false), ..m3.p }));
            assert(frame_ok(self.states@[self.states@.len() - 1], self.parser.next as int));
        }
        let has_superclass = self.match_tok(TokenType::Less);
        if has_superclass {
            self.inherit(&class_name);
            let ghost mi = self.model();
            let last = self.parser.classes.len() - 1;
            self.parser.classes.set(last, true);
            proof {
                reveal(m_mark_superclass);
                assert(self.model() == m_mark_superclass(mi));
            }
        }
        proof {
            lemma_rem(*self);
        }
        self.class_body(&class_name);
        if has_superclass {
            self.end_scope();
        }
        let ghost m7 = self.model();
        let _enclosing = self.parser.classes.pop();
        proof {
            assert(self.parser.classes@ =~= start.parser.classes@);
            assert(self.model() == with_p(m7, ParserM { classes: m7.p.classes.drop_last(), ..m7.p }));
        }
    }

    /// The parameters and body of the function just named: compiled into a
    /// function of its own, which the enclosing code then wraps in a
    /// closure with its captured variables.
    #[verifier::rlimit(100)]
    #[verifier::spinoff_prover]
    fn function_body(&mut self, fn_type: FunctionType)
        requires
            old(self).wf(),
            old(self).parser.next >= 1,
            fn_type != FunctionType::Script,
        ensures
            final(self).moved(*old(self)),
            old(self).parser.current.ttype != TokenType::Eof ==> old(self).parser.next < final(self).parser.next,
            final(self).model() == g_function_body(old(self).model(), fn_type),
        decreases old(self).remaining(), 11int,
    {
        let ghost start = *self;
        let ghost om = self.model();
        proof {
            lemma_rem(*self);
        }
        let name = self.parser.previous.lexeme.clone();
        let state = CompilerState::new(fn_type, Some(name));
        self.states.push(state);
        proof {
            assert(states_model(self.states@) =~= om.states.push(fresh_state(Some(om.p.previous.lexeme), fn_type)));
        }
        proof {
            assert forall|i: int| 0 <= i < self.states@.len() implies frame_ok(
                #[trigger] self.states@[i],
                self.parser.next as int,
            ) by {
                if i < start.states@.len() {
                    assert(self.states@[i] == start.states@[i]);
                }
            }
        }
        self.begin_scope();
        let ghost inner = *self;
        self.consume(TokenType::LeftParen, "Expect '(' after function name.");
        let ghost mp = self.model();
        if !self.check(TokenType::RightParen) {
            loop
                invariant_except_break
                    self.top().function.arity < self.parser.next,
                    m_parameters(self.model()) == m_parameters(mp),
                invariant
                    self.progressed(inner),
                    inner.states@.len() == start.states@.len() + 1,
                    self.top().function.arity <= self.parser.next,
                ensures
                    self.model() == m_parameters(mp),
                decreases self.remaining(),
            {
                let k = self.states.len() - 1;
                let ghost before = *self;
                let ghost mi = self.model();
                proof {
                    lemma_rem(*self);
                    assert(top_of(mi) == state_model(self.top()));
                }
                if self.states[k].function.arity >= 255 {
                    self.error_at_current("Can't have more than 255 parameters.");
                }
                let ghost mid = *self;
                let ghost m1 = self.model();
                self.states[k].function.arity = self.states[k].function.arity + 1;
                proof {
                    let ns = self.states@[k as int];
                    assert(self.states@ =~= mid.states@.update(k as int, ns));
                    lemma_states_update(mid.states@, k as int, ns);
                    let t = state_model(mid.states@[k as int]);
                    assert(t == top_of(m1));
                    assert(state_model(ns) == StateM { func: FnM { arity: t.func.arity + 1, ..t.func }, ..t });
                }
                proof {
                    assert forall|i: int| 0 <= i < self.states@.len() implies frame_ok(
                        #[trigger] self.states@[i],
                        self.parser.next as int,
                    ) by {
                        if i != k {
                            assert(self.states@[i] == mid.states@[i]);
                        }
                    }
                }
                let constant = self.parse_variable("Expect parameter name.");
                self.define_variable(constant);
                proof {
                    reveal(m_match);
                    lemma_rem(*self);
                }
                if !self.match_tok(TokenType::Comma) {
                    break;
                }
                proof {
                    lemma_rem(*self);
                }
            }
        }
        self.consume(TokenType::RightParen, "Expect ')' after parameters.");
        self.consume(TokenType::LeftBrace, "Expect '{' before function body.");
        proof {
            lemma_rem(*self);
            if self.parser.next == start.parser.next {
                lemma_same_next(start, *self);
            }
        }
        self.block();
        let ghost next_after_block = self.parser.next;
        proof {
            assert(start.parser.current.ttype != TokenType::Eof ==> start.parser.next < next_after_block);
        }
        self.emit_return();
        let ghost m5 = self.model();
        let ghost before_pop = self.states@;
        let compiled = match self.states.pop() {
            Some(st) => st,
            None => {
                proof {
                    assert(false);
                }
                return;
            },
        };
        let ghost done = state_model(compiled);
        proof {
            assert(self.states@ =~= before_pop.drop_last());
            assert(states_model(self.states@) =~= m5.states.drop_last());
            assert(done == top_of(m5));
        }
        let upvalues = compiled.upvalues;
        let mut function = compiled.function;
        function.upvalue_count = upvalues.len();
        proof {
            assert(fn_model(function) == FnM { upvalue_count: done.ups.len(), ..done.func });
        }
        let const_idx = self.make_constant(Constant::Function(Rc::new(function)));
        self.emit_op_byte(OpCode::Closure, const_idx);
        let ghost m7 = self.model();
        proof {
            assert(next_after_block <= self.parser.next);
        }
        let ghost ups = ups_model(upvalues@);
        proof {
            assert(ups == done.ups);
        }
        let mut i: usize = 0;
        while i < upvalues.len()
            invariant
                self.moved(start),
                next_after_block <= self.parser.next,
                start.parser.current.ttype != TokenType::Eof ==> start.parser.next < next_after_block,
                i <= upvalues@.len(),
                ups == ups_model(upvalues@),
                m_emit_upvalues(self.model(), ups, i as nat) == m_emit_upvalues(m7, ups, 0),
            decreases upvalues@.len() - i,
        {
            let up = upvalues[i];
            proof {
                assert(ups[i as int] == (up.index, up.is_local));
            }
            self.emit_byte(if up.is_local { 1 } else { 0 });
            self.emit_byte(up.index);
            i = i + 1;
        }
    }

    /// Leaves panic mode and skips tokens up to a likely statement
    /// boundary: just after a `;`, or before a keyword that begins a
    /// statement.
    fn synchronize(&mut self)
        requires
            old(self).wf(),
        ensures
            final(self).moved(*old(self)),
            final(self).states == old(self).states,
            final(self).model() == m_synchronize(old(self).model()),
    {
        proof {
            reveal(m_synchronize);
        }
        self.parser.panic_mode = false;
        let ghost start = *self;
        proof {
            let om = old(self).model();
            assert(self.model() == with_p(om, ParserM { panic: false, ..om.p }));
        }
        while self.parser.current.ttype != TokenType::Eof
            invariant
                self.moved(start),
                start.moved(*old(self)),
                self.states == old(self).states,
                m_sync_loop(self.model()) == m_sync_loop(start.model()),
                m_sync_loop(start.model()) == m_synchronize(old(self).model()),
            decreases self.remaining(),
        {
            proof {
                lemma_rem(*self);
            }
            if self.parser.previous.ttype == TokenType::Semicolon {
                assert(m_sync_loop(self.model()) == self.model());
                return;
            }
            match self.parser.current.ttype {
                TokenType::Class | TokenType::Fun | TokenType::Var | TokenType::For | TokenType::If
                | TokenType::While | TokenType::Print | TokenType::Return => {
                    assert(m_sync_loop(self.model()) == self.model());
                    return;
                },
                _ => {},
            }
            self.advance();
            proof {
                lemma_rem(*self);
            }
        }
    }
}

pub open spec fn ends_with_return(code: Seq<u8>) -> bool {
    &&& code.len() >= 2
    &&& code[code.len() - 2] == spec_op_byte(OpCode::Nil)
    &&& code[code.len() - 1] == spec_op_byte(OpCode::Return)
}

/// What `compile` promises: the script function, unnamed with no
/// parameters or upvalues, its code ending in the implicit `nil` return
/// and one line per byte; or the errors, at least one, each
/// `[line N] Error<where>: <message>`.
pub open spec fn compile_view(r: Result<Rc<ObjFunction>, Vec<String>>) -> Result<FnM, Seq<Seq<char>>> {
    match r {
        Ok(f) => Ok(fn_model(*f)),
        Err(es) => Err(es@.map_values(|e: String| e@)),
    }
}

pub open spec fn compile_outcome(r: Result<Rc<ObjFunction>, Vec<String>>) -> bool {
    match r {
        Ok(f) => {
            &&& f.name is None
            &&& f.arity == 0
            &&& f.upvalue_count == 0
            &&& f.chunk.code@.len() == f.chunk.lines@.len()
            &&& ends_with_return(f.chunk.code@)
        },
        Err(es) => {
            &&& es@.len() > 0
            &&& forall|i: int| 0 <= i < es@.len() ==> is_compile_error(#[trigger] es@[i]@)
        },
    }
}

impl Compiler {
    /// A compiler for `source`: its tokens scanned, the first as lookahead.
    fn new(source: &str) -> (c: Compiler)
        requires
            source@.len() + 2 < i32::MAX,
        ensures
            c.wf(),
            c.states@.len() == 1,
            c.top().fn_type == FunctionType::Script,
            c.top().function.name is None,
            c.top().function.arity == 0,
            c.top().function.upvalue_count == 0,
            c.model() == initial_model(source@),
    {
        let tokens = scan_all(source);
        proof {
            lemma_token_stream(source@, 0, 1);
            assert(tokens@.len() == views(tokens@).len());
            assert forall|i: int|
                0 <= i < tokens@.len() && #[trigger] tokens@[i].ttype == TokenType::String implies tokens@[i].lexeme@.len()
                >= 2 by {
                assert(views(tokens@)[i] == tokens@[i]@);
                assert(token_stream(source@, 0, 1)[i].ttype == TokenType::String);
            }
            assert(views(tokens@)[tokens@.len() - 1] == tokens@[tokens@.len() - 1]@);
            assert(views(tokens@)[0] == tokens@[0]@);
        }
        let current = tokens[0].clone_token();
        let parser = Parser {
            tokens,
            next: 1,
            current,
            previous: Token::synthetic(TokenType::Eof, ""),
            had_error: false,
            panic_mode: false,
            errors: Vec::new(),
            classes: Vec::new(),
        };
        let mut states: Vec<CompilerState> = Vec::new();
        states.push(CompilerState::new(FunctionType::Script, None));
        let c = Compiler { parser, states };
        proof {
            reveal_strlit("");
            let ts = token_stream(source@, 0, 1);
            assert(views(c.parser.tokens@) == ts);
            assert(c.parser.current@ == ts[0]);
            assert(c.parser.previous.lexeme@ =~= Seq::<char>::empty());
            assert(c.parser.previous@ == TokenView { ttype: TokenType::Eof, lexeme: Seq::empty(), line: 0 });
            assert(c.parser.errors@.map_values(|e: String| e@) =~= Seq::<Seq<char>>::empty());
            assert(c.parser.classes@ =~= Seq::<bool>::empty());
            assert(states_model(c.states@) =~= seq![fresh_state(None, FunctionType::Script)]);
        }
        c
    }

    /// Reports and skips error tokens at the start.
    fn advance_if_error(&mut self)
        requires
            old(self).wf(),
        ensures
            final(self).moved(*old(self)),
            final(self).states == old(self).states,
            final(self).model() == m_leading_errors(old(self).model()),
    {
        while self.parser.current.ttype == TokenType::Error
            invariant
                self.moved(*old(self)),
                self.states == old(self).states,
                m_leading_errors(self.model()) == m_leading_errors(old(self).model()),
            decreases self.parser.tokens@.len() - self.parser.next,
        {
            let ghost mb = self.model();
            let msg = self.parser.current.lexeme.clone();
            self.error_at_current(msg.as_str());
            let ghost mr = self.model();
            let t = self.read_token();
            self.parser.current = t;
            proof {
                reveal(m_read);
                let ts = self.parser.tokens@;
                assert(views(ts).len() == ts.len());
                if mr.p.next < ts.len() {
                    assert(views(ts)[mr.p.next as int] == ts[mr.p.next as int]@);
                } else {
                    assert(views(ts).last() == ts.last()@);
                }
                assert(parser_model(self.parser) == m_read(mr).p);
                assert(self.model() == m_read(mr));
            }
        }
    }

    #[verifier::rlimit(100)]
    #[verifier::spinoff_prover]
    fn compile_script(self) -> (r: Result<Rc<ObjFunction>, Vec<String>>)
        requires
            self.wf(),
            self.states@.len() == 1,
            self.top().fn_type == FunctionType::Script,
            self.top().function.name is None,
            self.top().function.arity == 0,
            self.top().function.upvalue_count == 0,
        ensures
            compile_outcome(r),
            compile_view(r) == script_outcome(self.model()),
    {
        let mut c = self;
        let ghost start = c;
        c.advance_if_error();
        let ghost m1 = c.model();
        while !c.check(TokenType::Eof)
            invariant
                c.moved(start),
                start.states@.len() == 1,
                start.top().function.name is None,
                start.top().function.arity == 0,
                start.top().function.upvalue_count == 0,
                g_script_loop(c.model()) == g_script_loop(m1),
            decreases c.remaining(),
        {
            proof {
                lemma_rem(c);
            }
            c.declaration();
            proof {
                lemma_rem(c);
            }
        }
        c.emit_return();
        proof {
            assert(c.model().p.errors.len() == c.parser.errors@.len());
            assert(top_of(c.model()) == state_model(c.states@.last()));
        }
        if c.parser.had_error {
            return Err(c.parser.errors);
        }
        match c.states.pop() {
            Some(st) => Ok(Rc::new(st.function)),
            None => {
                proof {
                    assert(false);
                }
                Err(Vec::new())
            },
        }
    }
}

/// Compiles `source` into the function of the top-level script, or gives
/// every error reported.
pub fn compile(source: &str) -> (r: Result<Rc<ObjFunction>, Vec<String>>)
    requires
        source@.len() + 2 < i32::MAX,
    ensures
        compile_outcome(r),
        compile_view(r) == spec_compile(source@),
{
    let c = Compiler::new(source);
    c.compile_script()
}

} // verus!
