//! Static resolution pass of the tree-walking front end.
//!
//! Walks the program once, records for each variable, assignment, `this`
//! and `super` expression how many scopes lie between it and the scope
//! that declares the name (globals stay unrecorded), and reports the static
//! errors: reading a local in its own initializer, redeclaring a local,
//! `return` outside a function or with a value in an initializer, `this` or
//! `super` outside a class, `super` without a superclass, and a class
//! inheriting from itself.

use vstd::prelude::*;
use vstd::hash_map::StringHashMap;
use std::collections::HashMap;
use crate::ast::{Expr, Stmt};
use crate::error::{LoxError, LoxErrorView, error_views};
use crate::token::Token;
use crate::text::string_of;

verus! {

broadcast use vstd::std_specs::hash::group_hash_axioms;

#[derive(Debug, Clone, Copy, PartialEq, Eq, Structural)]
pub enum FunctionType {
    NoFunction,
    Function,
    Initializer,
    Method,
}

#[derive(Debug, Clone, Copy, PartialEq, Eq, Structural)]
pub enum ClassType {
    NoClass,
    Class,
    Subclass,
}

/// The resolver's state: the stack of local scopes (name to "defined"),
/// the depths recorded so far, the errors so far, and the kind of function
/// and class being resolved.
pub struct ResolveState {
    pub scopes: Seq<Map<Seq<char>, bool>>,
    pub locals: Map<usize, usize>,
    pub errors: Seq<LoxErrorView>,
    pub function: FunctionType,
    pub class: ClassType,
}

pub open spec fn fresh_state() -> ResolveState {
    ResolveState {
        scopes: Seq::empty(),
        locals: Map::empty(),
        errors: Seq::empty(),
        function: FunctionType::NoFunction,
        class: ClassType::NoClass,
    }
}

pub open spec fn with_error(st: ResolveState, line: usize, msg: Seq<char>) -> ResolveState {
    ResolveState { errors: st.errors.push(LoxErrorView::Syntax(line as nat, Seq::empty(), msg)), ..st }
}

pub open spec fn with_function(st: ResolveState, f: FunctionType) -> ResolveState {
    ResolveState { function: f, ..st }
}

pub open spec fn with_class(st: ResolveState, c: ClassType) -> ResolveState {
    ResolveState { class: c, ..st }
}

pub open spec fn spec_begin_scope(st: ResolveState) -> ResolveState {
    ResolveState { scopes: st.scopes.push(Map::empty()), ..st }
}

pub open spec fn spec_end_scope(st: ResolveState) -> ResolveState {
    if st.scopes.len() > 0 {
        ResolveState { scopes: st.scopes.drop_last(), ..st }
    } else {
        st
    }
}

/// Bind `name` in the innermost scope (nothing at global level).
pub open spec fn bind(st: ResolveState, name: Seq<char>, defined: bool) -> ResolveState {
    if st.scopes.len() == 0 {
        st
    } else {
        ResolveState {
            scopes: st.scopes.update(st.scopes.len() - 1, st.scopes.last().insert(name, defined)),
            ..st
        }
    }
}

pub open spec fn spec_declare(st: ResolveState, name: Token) -> ResolveState {
    if st.scopes.len() == 0 {
        st
    } else {
        let st2 = if st.scopes.last().contains_key(name.lexeme@) {
            with_error(st, name.line, "Already a variable with this name in this scope."@)
        } else {
            st
        };
        bind(st2, name.lexeme@, false)
    }
}

pub open spec fn spec_define(st: ResolveState, name: Token) -> ResolveState {
    bind(st, name.lexeme@, true)
}

/// Index of the innermost of `scopes[..k]` that binds `name`.
pub open spec fn innermost(scopes: Seq<Map<Seq<char>, bool>>, name: Seq<char>, k: nat) -> Option<nat>
    decreases k,
{
    if k == 0 {
        None
    } else if scopes[k - 1].contains_key(name) {
        Some((k - 1) as nat)
    } else {
        innermost(scopes, name, (k - 1) as nat)
    }
}

/// The scope that `innermost` finds among `scopes[..k]` binds `name` and
/// no scope inside it does; when it finds none, none of them binds it.
pub proof fn lemma_innermost_binds(scopes: Seq<Map<Seq<char>, bool>>, name: Seq<char>, k: nat)
    requires
        k <= scopes.len(),
    ensures
        match innermost(scopes, name, k) {
            Some(i) => {
                &&& i < k
                &&& scopes[i as int].contains_key(name)
                &&& forall|j: int| i < j < k ==> !(#[trigger] scopes[j]).contains_key(name)
            },
            None => forall|j: int| 0 <= j < k ==> !(#[trigger] scopes[j]).contains_key(name),
        },
    decreases k,
{
    if k > 0 {
        lemma_innermost_binds(scopes, name, (k - 1) as nat);
    }
}

/// Record the depth of `name` for expression `id`, if some local scope
/// binds it.
pub open spec fn spec_resolve_local(st: ResolveState, id: usize, name: Seq<char>) -> ResolveState {
    match innermost(st.scopes, name, st.scopes.len()) {
        Some(i) => ResolveState {
            locals: st.locals.insert(id, (st.scopes.len() - 1 - i) as usize),
            ..st
        },
        None => st,
    }
}

/// A name some scope binds is recorded at the depth `d` of the innermost
/// scope binding it: scope `len - 1 - d` binds it and no scope inside that
/// one does. A name no scope binds is left to the globals: nothing is
/// recorded.
pub proof fn lemma_resolved_depth_is_innermost(st: ResolveState, id: usize, name: Seq<char>)
    requires
        st.scopes.len() <= usize::MAX,
    ensures
        (exists|j: int| 0 <= j < st.scopes.len() && #[trigger] st.scopes[j].contains_key(name)) ==> {
            let d = spec_resolve_local(st, id, name).locals[id] as int;
            &&& spec_resolve_local(st, id, name).locals.contains_key(id)
            &&& 0 <= d < st.scopes.len()
            &&& st.scopes[st.scopes.len() - 1 - d].contains_key(name)
            &&& forall|j: int| st.scopes.len() - 1 - d < j < st.scopes.len() ==> !(#[trigger] st.scopes[j]).contains_key(name)
        },
        (forall|j: int| 0 <= j < st.scopes.len() ==> !(#[trigger] st.scopes[j]).contains_key(name)) ==> spec_resolve_local(
            st,
            id,
            name,
        ) == st,
{
    lemma_innermost_binds(st.scopes, name, st.scopes.len());
}

pub open spec fn declare_params(st: ResolveState, ps: Seq<Token>) -> ResolveState
    decreases ps.len(),
{
    if ps.len() == 0 {
        st
    } else {
        declare_params(spec_define(spec_declare(st, ps[0]), ps[0]), ps.drop_first())
    }
}

pub open spec fn r_function(st: ResolveState, params: Seq<Token>, body: Seq<Stmt>, ft: FunctionType) -> ResolveState
    decreases body, 1int,
{
    let st1 = spec_begin_scope(with_function(st, ft));
    let st2 = declare_params(st1, params);
    let st3 = r_stmts(st2, body);
    with_function(spec_end_scope(st3), st.function)
}

pub open spec fn r_methods(st: ResolveState, ms: Seq<Stmt>) -> ResolveState
    decreases ms, 0int,
{
    if ms.len() == 0 {
        st
    } else {
        let st1 = match ms[0] {
            Stmt::Function { name, params, body } => r_function(
                st,
                params@,
                body@,
                if name.lexeme@ == "init"@ { FunctionType::Initializer } else { FunctionType::Method },
            ),
            _ => st,
        };
        r_methods(st1, ms.drop_first())
    }
}

pub open spec fn r_stmts(st: ResolveState, ss: Seq<Stmt>) -> ResolveState
    decreases ss, 0int,
{
    if ss.len() == 0 {
        st
    } else {
        r_stmts(r_stmt(st, ss[0]), ss.drop_first())
    }
}

pub open spec fn r_exprs(st: ResolveState, es: Seq<Expr>) -> ResolveState
    decreases es, 0int,
{
    if es.len() == 0 {
        st
    } else {
        r_exprs(r_expr(st, es[0]), es.drop_first())
    }
}

/// The class part of a class declaration `s`, after its name is bound:
/// the superclass, the `super` and `this` scopes, and the methods.
pub open spec fn r_class(st: ResolveState, s: Stmt) -> ResolveState
    decreases s, 1int,
{
    match s {
        Stmt::Class { name, superclass, methods } => {
            let st_sup = match superclass {
                Some(sc) => {
                    let st2 = match sc {
                        Expr::Variable { name: sc_name, .. } => if sc_name.lexeme@ == name.lexeme@ {
                            with_error(st, sc_name.line, "A class can't inherit from itself."@)
                        } else {
                            st
                        },
                        _ => st,
                    };
                    let st3 = r_expr(with_class(st2, ClassType::Subclass), sc);
                    bind(spec_begin_scope(st3), "super"@, true)
                },
                None => st,
            };
            let st5 = bind(spec_begin_scope(st_sup), "this"@, true);
            let st6 = r_methods(st5, methods@);
            let st7 = spec_end_scope(st6);
            if superclass is Some {
                spec_end_scope(st7)
            } else {
                st7
            }
        },
        _ => st,
    }
}

pub open spec fn r_stmt(st: ResolveState, s: Stmt) -> ResolveState
    decreases s, 2int,
{
    match s {
        Stmt::Block(v) => spec_end_scope(r_stmts(spec_begin_scope(st), v@)),
        Stmt::Var { name, initializer } => {
            let st1 = spec_declare(st, name);
            let st2 = match initializer {
                Some(e) => r_expr(st1, e),
                None => st1,
            };
            spec_define(st2, name)
        },
        Stmt::Function { name, params, body } => r_function(
            spec_define(spec_declare(st, name), name),
            params@,
            body@,
            FunctionType::Function,
        ),
        Stmt::Class { name, superclass, methods } => {
            let st1 = spec_define(spec_declare(with_class(st, ClassType::Class), name), name);
            with_class(r_class(st1, s), st.class)
        },
        Stmt::Expression(e) => r_expr(st, e),
        Stmt::If { cond, then_branch, else_branch } => {
            let st1 = r_stmt(r_expr(st, cond), *then_branch);
            match else_branch {
                Some(b) => r_stmt(st1, *b),
                None => st1,
            }
        },
        Stmt::Print(e) => r_expr(st, e),
        Stmt::Return { keyword, value } => {
            let st1 = if st.function == FunctionType::NoFunction {
                with_error(st, keyword.line, "Can't return from top-level code."@)
            } else {
                st
            };
            match value {
                Some(v) => {
                    let st2 = if st.function == FunctionType::Initializer {
                        with_error(st1, keyword.line, "Can't return a value from an initializer."@)
                    } else {
                        st1
                    };
                    r_expr(st2, v)
                },
                None => st1,
            }
        },
        Stmt::While { cond, body } => r_stmt(r_expr(st, cond), *body),
    }
}

pub open spec fn r_expr(st: ResolveState, e: Expr) -> ResolveState
    decreases e, 0int,
{
    match e {
        Expr::Variable { name, id } => {
            let st1 = if st.scopes.len() > 0 && st.scopes.last().contains_key(name.lexeme@)
                && st.scopes.last()[name.lexeme@] == false {
                with_error(st, name.line, "Can't read local variable in its own initializer."@)
            } else {
                st
            };
            spec_resolve_local(st1, id, name.lexeme@)
        },
        Expr::Assign { name, value, id } => spec_resolve_local(r_expr(st, *value), id, name.lexeme@),
        Expr::Binary { left, right, .. } => r_expr(r_expr(st, *left), *right),
        Expr::Call { callee, args, .. } => r_exprs(r_expr(st, *callee), args@),
        Expr::Get { object, .. } => r_expr(st, *object),
        Expr::Grouping(inner) => r_expr(st, *inner),
        Expr::Literal(_) => st,
        Expr::Logical { left, right, .. } => r_expr(r_expr(st, *left), *right),
        Expr::SetField { object, value, .. } => r_expr(r_expr(st, *value), *object),
        Expr::Super { keyword, id, .. } => {
            let st1 = if st.class == ClassType::NoClass {
                with_error(st, keyword.line, "Can't use 'super' outside of a class."@)
            } else if st.class == ClassType::Class {
                with_error(st, keyword.line, "Can't use 'super' in a class with no superclass."@)
            } else {
                st
            };
            spec_resolve_local(st1, id, "super"@)
        },
        Expr::This { keyword, id } => {
            if st.class == ClassType::NoClass {
                with_error(st, keyword.line, "Can't use 'this' outside of a class."@)
            } else {
                spec_resolve_local(st, id, "this"@)
            }
        },
        Expr::Unary { right, .. } => r_expr(st, *right),
    }
}

// ----- what resolving keeps -----

/// What resolving leaves of the state it started from: as many scopes, all
/// but the innermost unchanged, the same function and class kinds, the
/// earlier errors first, and every expression recorded before still
/// recorded.
pub open spec fn frame_kept(after: ResolveState, before: ResolveState) -> bool {
    &&& after.scopes.len() == before.scopes.len()
    &&& forall|i: int| 0 <= i < before.scopes.len() - 1 ==> #[trigger] after.scopes[i] == before.scopes[i]
    &&& after.function == before.function
    &&& after.class == before.class
    &&& before.errors.len() <= after.errors.len()
    &&& forall|i: int| 0 <= i < before.errors.len() ==> #[trigger] after.errors[i] == before.errors[i]
    &&& forall|k: usize| #[trigger] before.locals.dom().contains(k) ==> after.locals.dom().contains(k)
}

proof fn lemma_kept_trans(a: ResolveState, b: ResolveState, c: ResolveState)
    requires
        frame_kept(b, a),
        frame_kept(c, b),
    ensures
        frame_kept(c, a),
{
}

/// Binding parameters only touches the innermost scope.
proof fn lemma_declare_params_kept(st: ResolveState, ps: Seq<Token>)
    ensures
        frame_kept(declare_params(st, ps), st),
    decreases ps.len(),
{
    if ps.len() > 0 {
        let st1 = spec_define(spec_declare(st, ps[0]), ps[0]);
        assert(frame_kept(st1, st));
        lemma_declare_params_kept(st1, ps.drop_first());
        lemma_kept_trans(st, st1, declare_params(st1, ps.drop_first()));
    }
}

/// The body of a function, resolved in a scope of its own, leaves the
/// enclosing scopes as they were.
proof fn lemma_r_function_kept(st: ResolveState, params: Seq<Token>, body: Seq<Stmt>, ft: FunctionType)
    ensures
        frame_kept(r_function(st, params, body, ft), st),
    decreases body, 1int,
{
    let st1 = spec_begin_scope(with_function(st, ft));
    lemma_declare_params_kept(st1, params);
    let st2 = declare_params(st1, params);
    lemma_r_stmts_kept(st2, body);
    lemma_kept_trans(st1, st2, r_stmts(st2, body));
}

proof fn lemma_r_methods_kept(st: ResolveState, ms: Seq<Stmt>)
    ensures
        frame_kept(r_methods(st, ms), st),
    decreases ms, 0int,
{
    if ms.len() > 0 {
        let st1 = match ms[0] {
            Stmt::Function { name, params, body } => {
                let ft = if name.lexeme@ == "init"@ { FunctionType::Initializer } else { FunctionType::Method };
                lemma_r_function_kept(st, params@, body@, ft);
                r_function(st, params@, body@, ft)
            },
            _ => st,
        };
        lemma_r_methods_kept(st1, ms.drop_first());
        lemma_kept_trans(st, st1, r_methods(st1, ms.drop_first()));
    }
}

proof fn lemma_r_stmts_kept(st: ResolveState, ss: Seq<Stmt>)
    ensures
        frame_kept(r_stmts(st, ss), st),
    decreases ss, 0int,
{
    if ss.len() > 0 {
        lemma_r_stmt_kept(st, ss[0]);
        let st1 = r_stmt(st, ss[0]);
        lemma_r_stmts_kept(st1, ss.drop_first());
        lemma_kept_trans(st, st1, r_stmts(st1, ss.drop_first()));
    }
}

proof fn lemma_r_exprs_kept(st: ResolveState, es: Seq<Expr>)
    ensures
        frame_kept(r_exprs(st, es), st),
    decreases es, 0int,
{
    if es.len() > 0 {
        lemma_r_expr_kept(st, es[0]);
        let st1 = r_expr(st, es[0]);
        lemma_r_exprs_kept(st1, es.drop_first());
        lemma_kept_trans(st, st1, r_exprs(st1, es.drop_first()));
    }
}

/// The class part of a class declaration, its kind of class put back.
proof fn lemma_r_class_kept(st: ResolveState, s: Stmt)
    ensures
        frame_kept(with_class(r_class(st, s), st.class), st),
    decreases s, 1int,
{
    match s {
        Stmt::Class { name, superclass, methods } => {
            let st_sup = match superclass {
                Some(sc) => {
                    let st2 = match sc {
                        Expr::Variable { name: sc_name, .. } => if sc_name.lexeme@ == name.lexeme@ {
                            with_error(st, sc_name.line, "A class can't inherit from itself."@)
                        } else {
                            st
                        },
                        _ => st,
                    };
                    let stc = with_class(st2, ClassType::Subclass);
                    lemma_r_expr_kept(stc, sc);
                    let st3 = r_expr(stc, sc);
                    bind(spec_begin_scope(st3), "super"@, true)
                },
                None => st,
            };
            let st5 = bind(spec_begin_scope(st_sup), "this"@, true);
            lemma_r_methods_kept(st5, methods@);
            let st6 = r_methods(st5, methods@);
            let st7 = spec_end_scope(st6);
            assert(frame_kept(with_class(st7, st.class), with_class(st_sup, st.class)));
            if superclass is Some {
                assert(frame_kept(with_class(spec_end_scope(st7), st.class), st));
            } else {
                assert(frame_kept(with_class(st7, st.class), st));
            }
        },
        _ => {},
    }
}

/// Resolving an expression changes no scope and no kind.
proof fn lemma_r_expr_kept(st: ResolveState, e: Expr)
    ensures
        frame_kept(r_expr(st, e), st),
        r_expr(st, e).scopes == st.scopes,
    decreases e, 0int,
{
    match e {
        Expr::Assign { value, .. } => lemma_r_expr_kept(st, *value),
        Expr::Binary { left, right, .. } => {
            lemma_r_expr_kept(st, *left);
            lemma_r_expr_kept(r_expr(st, *left), *right);
        },
        Expr::Call { callee, args, .. } => {
            lemma_r_expr_kept(st, *callee);
            lemma_r_exprs_kept(r_expr(st, *callee), args@);
            lemma_r_exprs_scopes(r_expr(st, *callee), args@);
        },
        Expr::Get { object, .. } => lemma_r_expr_kept(st, *object),
        Expr::Grouping(inner) => lemma_r_expr_kept(st, *inner),
        Expr::Logical { left, right, .. } => {
            lemma_r_expr_kept(st, *left);
            lemma_r_expr_kept(r_expr(st, *left), *right);
        },
        Expr::SetField { object, value, .. } => {
            lemma_r_expr_kept(st, *value);
            lemma_r_expr_kept(r_expr(st, *value), *object);
        },
        Expr::Unary { right, .. } => lemma_r_expr_kept(st, *right),
        _ => {},
    }
}

proof fn lemma_r_exprs_scopes(st: ResolveState, es: Seq<Expr>)
    ensures
        r_exprs(st, es).scopes == st.scopes,
    decreases es, 0int,
{
    if es.len() > 0 {
        lemma_r_expr_kept(st, es[0]);
        lemma_r_exprs_scopes(r_expr(st, es[0]), es.drop_first());
    }
}

/// Resolving a statement keeps the frame it runs in: the number of scopes,
/// every scope but the innermost, the kinds of function and class being
/// resolved; it only adds errors after the earlier ones, and every
/// expression recorded before stays recorded.
#[verifier::rlimit(100)]
#[verifier::spinoff_prover]
pub proof fn lemma_r_stmt_kept(st: ResolveState, s: Stmt)
    ensures
        frame_kept(r_stmt(st, s), st),
    decreases s, 2int,
{
    match s {
        Stmt::Block(v) => {
            let st1 = spec_begin_scope(st);
            lemma_r_stmts_kept(st1, v@);
            let x = r_stmts(st1, v@);
            let y = spec_end_scope(x);
            assert(y.scopes =~= x.scopes.drop_last());
            assert forall|i: int| 0 <= i < st.scopes.len() implies #[trigger] y.scopes[i] == st.scopes[i] by {
                assert(x.scopes[i] == st1.scopes[i]);
            }
            assert(y.scopes.len() == st.scopes.len());
            assert(y.function == st.function && y.class == st.class);
            assert(y.errors == x.errors && y.locals == x.locals);
            assert forall|i: int| 0 <= i < st.errors.len() implies #[trigger] y.errors[i] == st.errors[i] by {
                assert(x.errors[i] == st1.errors[i]);
            }
            assert forall|k: usize| #[trigger] st.locals.dom().contains(k) implies y.locals.dom().contains(k) by {
                assert(st1.locals.dom().contains(k));
            }
            assert(frame_kept(y, st));
            assert(r_stmt(st, s) == y);
        },
        Stmt::Var { name, initializer } => {
            let st1 = spec_declare(st, name);
            match initializer {
                Some(e) => {
                    lemma_r_expr_kept(st1, e);
                },
                None => {},
            }
        },
        Stmt::Function { name, params, body } => {
            let st1 = spec_define(spec_declare(st, name), name);
            lemma_r_function_kept(st1, params@, body@, FunctionType::Function);
            lemma_kept_trans(st, st1, r_function(st1, params@, body@, FunctionType::Function));
        },
        Stmt::Class { name, superclass, methods } => {
            let st1 = spec_define(spec_declare(with_class(st, ClassType::Class), name), name);
            lemma_r_class_kept(st1, s);
            assert(frame_kept(with_class(st1, st.class), st));
            lemma_kept_trans(st, with_class(st1, st.class), with_class(r_class(st1, s), st.class));
        },
        Stmt::Expression(e) => lemma_r_expr_kept(st, e),
        Stmt::If { cond, then_branch, else_branch } => {
            lemma_r_expr_kept(st, cond);
            let st0 = r_expr(st, cond);
            lemma_r_stmt_kept(st0, *then_branch);
            let st1 = r_stmt(st0, *then_branch);
            lemma_kept_trans(st, st0, st1);
            match else_branch {
                Some(b) => {
                    lemma_r_stmt_kept(st1, *b);
                    lemma_kept_trans(st, st1, r_stmt(st1, *b));
                },
                None => {},
            }
        },
        Stmt::Print(e) => lemma_r_expr_kept(st, e),
        Stmt::Return { keyword, value } => {
            let st1 = if st.function == FunctionType::NoFunction {
                with_error(st, keyword.line, "Can't return from top-level code."@)
            } else {
                st
            };
            match value {
                Some(v) => {
                    let st2 = if st.function == FunctionType::Initializer {
                        with_error(st1, keyword.line, "Can't return a value from an initializer."@)
                    } else {
                        st1
                    };
                    lemma_r_expr_kept(st2, v);
                    lemma_kept_trans(st, st2, r_expr(st2, v));
                },
                None => {},
            }
        },
        Stmt::While { cond, body } => {
            lemma_r_expr_kept(st, cond);
            lemma_r_stmt_kept(r_expr(st, cond), *body);
            lemma_kept_trans(st, r_expr(st, cond), r_stmt(r_expr(st, cond), *body));
        },
    }
}

// ---------------------------------------------------------------------------

pub struct Resolver {
    scopes: Vec<StringHashMap<bool>>,
    locals: HashMap<usize, usize>,
    current_fn: FunctionType,
    current_class: ClassType,
    errors: Vec<LoxError>,
}

pub open spec fn scope_views(v: Seq<StringHashMap<bool>>) -> Seq<Map<Seq<char>, bool>> {
    v.map_values(|m: StringHashMap<bool>| m@)
}

impl Default for Resolver {
    fn default() -> (r: Resolver)
        ensures
            r.state() == fresh_state(),
    {
        Resolver::new()
    }
}

impl Resolver {
    /// The resolver's state, by its model.
    pub closed spec fn state(&self) -> ResolveState {
        ResolveState {
            scopes: scope_views(self.scopes@),
            locals: self.locals@,
            errors: error_views(self.errors@),
            function: self.current_fn,
            class: self.current_class,
        }
    }

    pub fn new() -> (r: Resolver)
        ensures
            r.state() == fresh_state(),
    {
        let r = Resolver {
            scopes: Vec::new(),
            locals: HashMap::new(),
            current_fn: FunctionType::NoFunction,
            current_class: ClassType::NoClass,
            errors: Vec::new(),
        };
        assert(scope_views(r.scopes@) =~= Seq::<Map<Seq<char>, bool>>::empty());
        assert(error_views(r.errors@) =~= Seq::<LoxErrorView>::empty());
        r
    }

    /// Walk the program; the expr-id to depth table on success, or every
    /// error that was found.
    pub fn resolve(self, stmts: &[Stmt]) -> (r: Result<HashMap<usize, usize>, Vec<LoxError>>)
        ensures
            match r {
                Ok(m) => r_stmts(self.state(), stmts@).errors.len() == 0
                    && m@ == r_stmts(self.state(), stmts@).locals,
                Err(es) => r_stmts(self.state(), stmts@).errors.len() > 0
                    && error_views(es@) == r_stmts(self.state(), stmts@).errors,
            },
    {
        let ghost st0 = self.state();
        let mut r = self;
        let mut i: usize = 0;
        assert(stmts@.skip(0) =~= stmts@);
        while i < stmts.len()
            invariant
                i <= stmts.len(),
                r_stmts(st0, stmts@) == r_stmts(r.state(), stmts@.skip(i as int)),
            decreases stmts.len() - i,
        {
            proof {
                lemma_skip_step(stmts@, i as nat);
            }
            r.resolve_stmt(&stmts[i]);
            i = i + 1;
        }
        assert(stmts@.skip(i as int) =~= Seq::<Stmt>::empty());
        if r.errors.len() == 0 {
            Ok(r.locals)
        } else {
            Err(r.errors)
        }
    }

    fn push_error(&mut self, line: usize, msg: &str)
        ensures
            final(self).state() == with_error(old(self).state(), line, msg@),
    {
        let ghost before = error_views(self.errors@);
        self.errors.push(LoxError::resolve(line, msg));
        assert(error_views(self.errors@) =~= before.push(LoxErrorView::Syntax(line as nat, Seq::empty(), msg@)));
    }

    fn begin_scope(&mut self)
        ensures
            final(self).state() == spec_begin_scope(old(self).state()),
    {
        let ghost before = scope_views(self.scopes@);
        self.scopes.push(StringHashMap::new());
        assert(scope_views(self.scopes@) =~= before.push(Map::empty()));
    }

    fn end_scope(&mut self)
        ensures
            final(self).state() == spec_end_scope(old(self).state()),
    {
        let ghost before = scope_views(self.scopes@);
        let _ = self.scopes.pop();
        proof {
            if before.len() > 0 {
                assert(scope_views(self.scopes@) =~= before.drop_last());
            }
        }
    }

    fn bind(&mut self, name: &str, defined: bool)
        ensures
            final(self).state() == bind(old(self).state(), name@, defined),
    {
        let ghost before = scope_views(self.scopes@);
        match self.scopes.pop() {
            Some(mut top) => {
                let ghost mid = scope_views(self.scopes@);
                assert(mid =~= before.drop_last());
                top.insert(string_of(name), defined);
                self.scopes.push(top);
                assert(scope_views(self.scopes@) =~= before.update(before.len() - 1, before.last().insert(name@, defined)));
            },
            None => {},
        }
    }

    fn declare(&mut self, name: &Token)
        ensures
            final(self).state() == spec_declare(old(self).state(), *name),
    {
        let n = self.scopes.len();
        if n == 0 {
            return;
        }
        assert(scope_views(self.scopes@)[n - 1] == self.scopes@[n - 1]@);
        if self.scopes[n - 1].contains_key(name.lexeme.as_str()) {
            self.push_error(name.line, "Already a variable with this name in this scope.");
        }
        self.bind(name.lexeme.as_str(), false);
    }

    fn define(&mut self, name: &Token)
        ensures
            final(self).state() == spec_define(old(self).state(), *name),
    {
        self.bind(name.lexeme.as_str(), true);
    }

    /// Walks scopes from innermost outward; if the name is found, records
    /// its depth for `id`. Globals stay unrecorded.
    fn resolve_local(&mut self, id: usize, name: &str)
        ensures
            final(self).state() == spec_resolve_local(old(self).state(), id, name@),
    {
        let n = self.scopes.len();
        let ghost sv = scope_views(self.scopes@);
        let mut k = n;
        while k > 0
            invariant
                k <= n == self.scopes@.len(),
                *self == *old(self),
                sv == scope_views(self.scopes@),
                innermost(sv, name@, k as nat) == innermost(sv, name@, n as nat),
            decreases k,
        {
            assert(sv[k - 1] == self.scopes@[k - 1]@);
            if self.scopes[k - 1].contains_key(name) {
                self.locals.insert(id, n - 1 - (k - 1));
                return;
            }
            k = k - 1;
        }
    }

    fn declare_params(&mut self, ps: &Vec<Token>)
        ensures
            final(self).state() == declare_params(old(self).state(), ps@),
    {
        let mut i: usize = 0;
        assert(ps@.skip(0) =~= ps@);
        while i < ps.len()
            invariant
                i <= ps.len(),
                declare_params(old(self).state(), ps@) == declare_params(self.state(), ps@.skip(i as int)),
            decreases ps.len() - i,
        {
            proof {
                lemma_skip_step(ps@, i as nat);
            }
            self.declare(&ps[i]);
            self.define(&ps[i]);
            i = i + 1;
        }
        assert(ps@.skip(i as int) =~= Seq::<Token>::empty());
    }

    fn resolve_function(&mut self, params: &Vec<Token>, body: &Vec<Stmt>, fn_type: FunctionType)
        ensures
            final(self).state() == r_function(old(self).state(), params@, body@, fn_type),
        decreases body@, 1int,
    {
        let enclosing = self.current_fn;
        self.current_fn = fn_type;
        self.begin_scope();
        self.declare_params(params);
        self.resolve_stmts(body);
        self.end_scope();
        self.current_fn = enclosing;
    }

    fn resolve_stmts(&mut self, ss: &Vec<Stmt>)
        ensures
            final(self).state() == r_stmts(old(self).state(), ss@),
        decreases ss@, 0int,
    {
        let mut i: usize = 0;
        assert(ss@.skip(0) =~= ss@);
        while i < ss.len()
            invariant
                i <= ss.len(),
                r_stmts(old(self).state(), ss@) == r_stmts(self.state(), ss@.skip(i as int)),
            decreases ss.len() - i,
        {
            proof {
                lemma_skip_step(ss@, i as nat);
                assert(decreases_to!(ss@ => ss@[i as int]));
            }
            self.resolve_stmt(&ss[i]);
            i = i + 1;
        }
        assert(ss@.skip(i as int) =~= Seq::<Stmt>::empty());
    }

    fn resolve_exprs(&mut self, es: &Vec<Expr>)
        ensures
            final(self).state() == r_exprs(old(self).state(), es@),
        decreases es@, 0int,
    {
        let mut i: usize = 0;
        assert(es@.skip(0) =~= es@);
        while i < es.len()
            invariant
                i <= es.len(),
                r_exprs(old(self).state(), es@) == r_exprs(self.state(), es@.skip(i as int)),
            decreases es.len() - i,
        {
            proof {
                lemma_skip_step(es@, i as nat);
                assert(decreases_to!(es@ => es@[i as int]));
            }
            self.resolve_expr(&es[i]);
            i = i + 1;
        }
        assert(es@.skip(i as int) =~= Seq::<Expr>::empty());
    }

    fn resolve_methods(&mut self, ms: &Vec<Stmt>)
        ensures
            final(self).state() == r_methods(old(self).state(), ms@),
        decreases ms@, 0int,
    {
        let mut i: usize = 0;
        assert(ms@.skip(0) =~= ms@);
        while i < ms.len()
            invariant
                i <= ms.len(),
                r_methods(old(self).state(), ms@) == r_methods(self.state(), ms@.skip(i as int)),
            decreases ms.len() - i,
        {
            proof {
                lemma_skip_step(ms@, i as nat);
            }
            match &ms[i] {
                Stmt::Function { name, params, body } => {
                    proof {
                        assert(decreases_to!(ms@ => ms@[i as int]));
                        assert(ms@[i as int]->Function_body == *body);
                        assert(decreases_to!(ms@[i as int] => ms@[i as int]->Function_body));
                        assert(decreases_to!(*body => body@));
                        assert(decreases_to!(ms@ => body@));
                    }
                    let init = name.lexeme == string_of("init");
                    let kind = if init { FunctionType::Initializer } else { FunctionType::Method };
                    self.resolve_function(params, body, kind);
                },
                _ => {},
            }
            i = i + 1;
        }
        assert(ms@.skip(i as int) =~= Seq::<Stmt>::empty());
    }

    fn resolve_stmt(&mut self, stmt: &Stmt)
        ensures
            final(self).state() == r_stmt(old(self).state(), *stmt),
        decreases stmt, 2int,
    {
        match stmt {
            Stmt::Block(stmts) => {
                proof {
                    assert(decreases_to!(*stmts => stmts@));
                }
                self.begin_scope();
                self.resolve_stmts(stmts);
                self.end_scope();
            },
            Stmt::Var { name, initializer } => {
                self.declare(name);
                match initializer {
                    Some(init) => self.resolve_expr(init),
                    None => {},
                }
                self.define(name);
            },
            Stmt::Function { name, params, body } => {
                proof {
                    assert(decreases_to!(*body => body@));
                }
                self.declare(name);
                self.define(name);
                self.resolve_function(params, body, FunctionType::Function);
            },
            Stmt::Class { name, .. } => {
                let enclosing = self.current_class;
                self.current_class = ClassType::Class;
                self.declare(name);
                self.define(name);
                self.resolve_class(stmt);
                self.current_class = enclosing;
            },
            Stmt::Expression(e) => self.resolve_expr(e),
            Stmt::If { cond, then_branch, else_branch } => {
                self.resolve_expr(cond);
                self.resolve_stmt(then_branch);
                match else_branch {
                    Some(b) => self.resolve_stmt(b),
                    None => {},
                }
            },
            Stmt::Print(e) => self.resolve_expr(e),
            Stmt::Return { keyword, value } => {
                if self.current_fn == FunctionType::NoFunction {
                    self.push_error(keyword.line, "Can't return from top-level code.");
                }
                match value {
                    Some(v) => {
                        if self.current_fn == FunctionType::Initializer {
                            self.push_error(keyword.line, "Can't return a value from an initializer.");
                        }
                        self.resolve_expr(v);
                    },
                    None => {},
                }
            },
            Stmt::While { cond, body } => {
                self.resolve_expr(cond);
                self.resolve_stmt(body);
            },
        }
    }

    /// The class part of a class declaration: superclass, `super` and
    /// `this` scopes, and the methods.
    fn resolve_class(&mut self, stmt: &Stmt)
        ensures
            final(self).state() == r_class(old(self).state(), *stmt),
        decreases stmt, 1int,
    {
        match stmt {
            Stmt::Class { name, superclass, methods } => {
                proof {
                    assert(decreases_to!(*methods => methods@));
                }
                match superclass {
                    Some(sc) => {
                        match sc {
                            Expr::Variable { name: sc_name, .. } => {
                                if sc_name.lexeme == name.lexeme {
                                    self.push_error(sc_name.line, "A class can't inherit from itself.");
                                }
                            },
                            _ => {},
                        }
                        self.current_class = ClassType::Subclass;
                        self.resolve_expr(sc);
                        self.begin_scope();
                        self.bind("super", true);
                    },
                    None => {},
                }
                self.begin_scope();
                self.bind("this", true);
                self.resolve_methods(methods);
                self.end_scope();
                if superclass.is_some() {
                    self.end_scope();
                }
            },
            _ => {},
        }
    }

    fn resolve_expr(&mut self, expr: &Expr)
        ensures
            final(self).state() == r_expr(old(self).state(), *expr),
        decreases expr, 0int,
    {
        match expr {
            Expr::Variable { name, id } => {
                let n = self.scopes.len();
                if n > 0 {
                    assert(scope_views(self.scopes@)[n - 1] == self.scopes@[n - 1]@);
                    match self.scopes[n - 1].get(name.lexeme.as_str()) {
                        Some(d) => {
                            if !*d {
                                self.push_error(name.line, "Can't read local variable in its own initializer.");
                            }
                        },
                        None => {},
                    }
                }
                self.resolve_local(*id, name.lexeme.as_str());
            },
            Expr::Assign { name, value, id } => {
                self.resolve_expr(value);
                self.resolve_local(*id, name.lexeme.as_str());
            },
            Expr::Binary { left, right, .. } => {
                self.resolve_expr(left);
                self.resolve_expr(right);
            },
            Expr::Call { callee, args, .. } => {
                proof {
                    assert(decreases_to!(*args => args@));
                }
                self.resolve_expr(callee);
                self.resolve_exprs(args);
            },
            Expr::Get { object, .. } => self.resolve_expr(object),
            Expr::Grouping(inner) => self.resolve_expr(inner),
            Expr::Literal(_) => {},
            Expr::Logical { left, right, .. } => {
                self.resolve_expr(left);
                self.resolve_expr(right);
            },
            Expr::SetField { object, value, .. } => {
                self.resolve_expr(value);
                self.resolve_expr(object);
            },
            Expr::Super { keyword, id, .. } => {
                if self.current_class == ClassType::NoClass {
                    self.push_error(keyword.line, "Can't use 'super' outside of a class.");
                } else if self.current_class == ClassType::Class {
                    self.push_error(keyword.line, "Can't use 'super' in a class with no superclass.");
                }
                self.resolve_local(*id, "super");
            },
            Expr::This { keyword, id } => {
                if self.current_class == ClassType::NoClass {
                    self.push_error(keyword.line, "Can't use 'this' outside of a class.");
                    return;
                }
                self.resolve_local(*id, "this");
            },
            Expr::Unary { right, .. } => self.resolve_expr(right),
        }
    }
}

/// Stepping through a sequence by `skip`.
pub proof fn lemma_skip_step<A>(s: Seq<A>, i: nat)
    requires
        i < s.len(),
    ensures
        s.skip(i as int).len() > 0,
        s.skip(i as int)[0] == s[i as int],
        s.skip(i as int).drop_first() == s.skip((i + 1) as int),
{
    assert(s.skip(i as int).drop_first() =~= s.skip((i + 1) as int));
}

} // verus!
