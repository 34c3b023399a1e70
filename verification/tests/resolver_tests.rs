use std::collections::HashMap;

use rlox::ast::{Expr, Stmt};
use rlox::error::LoxError;
use rlox::parser::Parser;
use rlox::resolver::Resolver;
use rlox::scanner::Scanner;

fn resolve_src(src: &str) -> Result<HashMap<usize, usize>, Vec<LoxError>> {
    let tokens = Scanner::new(src).scan_tokens().expect("test source must scan cleanly");
    let stmts = Parser::new(tokens).parse().expect("test source must parse cleanly");
    Resolver::new().resolve(&stmts)
}

fn assert_err_contains(errs: &[LoxError], needle: &str) {
    assert!(
        errs.iter().any(|e| e.to_string().contains(needle)),
        "expected an error containing {:?}; got: {:?}",
        needle,
        errs
    );
}

#[test]
fn resolver_happy_closure_builds_side_table() {
    let locals = resolve_src("fun c() { var x = 1; fun inner() { return x; } return inner; }")
        .expect("should resolve cleanly");
    assert!(!locals.is_empty(), "expected at least one local entry, got {:?}", locals);
}

#[test]
fn resolver_self_reference_in_initializer_errors() {
    let errs = resolve_src("{ var a = a; }").unwrap_err();
    assert_err_contains(&errs, "Can't read local variable in its own initializer.");
}

#[test]
fn resolver_duplicate_local_declaration_errors() {
    let errs = resolve_src("{ var a = 1; var a = 2; }").unwrap_err();
    assert_err_contains(&errs, "Already a variable with this name in this scope.");
}

#[test]
fn resolver_global_duplicate_allowed() {
    resolve_src("var a = 1; var a = 2;").expect("duplicate globals are allowed");
}

#[test]
fn resolver_return_at_top_level_errors() {
    let errs = resolve_src("return 1;").unwrap_err();
    assert_err_contains(&errs, "Can't return from top-level code.");
}

#[test]
fn resolver_return_value_in_initializer_errors() {
    let errs = resolve_src("class A { init() { return 1; } }").unwrap_err();
    assert_err_contains(&errs, "Can't return a value from an initializer.");
}

#[test]
fn resolver_return_nil_in_initializer_allowed() {
    resolve_src("class A { init() { return; } }").expect("bare return in init() is fine");
}

#[test]
fn resolver_this_outside_class_errors() {
    let errs = resolve_src("print this;").unwrap_err();
    assert_err_contains(&errs, "Can't use 'this' outside of a class.");
}

#[test]
fn resolver_super_outside_class_errors() {
    let errs = resolve_src("print super.x;").unwrap_err();
    assert_err_contains(&errs, "Can't use 'super' outside of a class.");
}

#[test]
fn resolver_super_in_class_with_no_superclass_errors() {
    let errs = resolve_src("class A { foo() { super.bar(); } }").unwrap_err();
    assert_err_contains(&errs, "Can't use 'super' in a class with no superclass.");
}

#[test]
fn resolver_super_in_subclass_allowed() {
    resolve_src("class A {} class B < A { foo() { super.bar(); } }")
        .expect("super in a subclass method is allowed");
}

#[test]
fn resolver_class_inherits_from_itself_errors() {
    let errs = resolve_src("class A < A {}").unwrap_err();
    assert_err_contains(&errs, "A class can't inherit from itself.");
}

#[test]
fn resolver_local_variable_depth_is_recorded() {
    let src = "{ var a = 1; { print a; } }";
    let tokens = Scanner::new(src).scan_tokens().expect("scan cleanly");
    let stmts = Parser::new(tokens).parse().expect("parse cleanly");

    let Stmt::Block(outer) = &stmts[0] else {
        panic!("expected outer Stmt::Block");
    };
    let Stmt::Block(inner) = &outer[1] else {
        panic!("expected inner Stmt::Block at index 1");
    };
    let Stmt::Print(Expr::Variable { id, .. }) = &inner[0] else {
        panic!("expected Print(Variable) in inner block, got {:?}", inner[0]);
    };
    let target_id = *id;

    let locals = Resolver::new().resolve(&stmts).expect("should resolve");
    assert_eq!(
        locals.get(&target_id).copied(),
        Some(1),
        "expected depth 1 for inner lookup, full table: {:?}",
        locals
    );
}

#[test]
fn resolver_use_before_declaration_sees_inner_binding_shadow() {
    let errs = resolve_src("{ var a = 1; { var a = a; } }").unwrap_err();
    assert_err_contains(&errs, "Can't read local variable in its own initializer.");
}

#[test]
fn resolver_this_inside_method_ok() {
    resolve_src("class A { foo() { this.x; } }").expect("this inside a method should resolve");
}

// Further cases.

#[test]
fn resolver_globals_stay_out_of_the_table() {
    let locals = resolve_src("var a = 1; print a; a = 2;").expect("resolves");
    assert!(locals.is_empty(), "globals must not be recorded: {:?}", locals);
}

#[test]
fn resolver_reports_every_error_in_order() {
    let errs = resolve_src("return 1;\nprint this;\n{ var a = a; }").unwrap_err();
    assert_eq!(
        errs,
        vec![
            LoxError::resolve(1, "Can't return from top-level code."),
            LoxError::resolve(2, "Can't use 'this' outside of a class."),
            LoxError::resolve(3, "Can't read local variable in its own initializer."),
        ]
    );
}

#[test]
fn resolver_depths_for_params_and_closures() {
    // f's body: `a` is the parameter, one scope up from the block of the
    // inner function; the assignment in g reaches two scopes out.
    let src = "fun f(a) { fun g() { a = a; } }";
    let tokens = Scanner::new(src).scan_tokens().unwrap();
    let stmts = Parser::new(tokens).parse().unwrap();
    let locals = Resolver::new().resolve(&stmts).unwrap();
    let Stmt::Function { body, .. } = &stmts[0] else { panic!() };
    let Stmt::Function { body: inner, .. } = &body[0] else { panic!() };
    let Stmt::Expression(Expr::Assign { id: assign_id, value, .. }) = &inner[0] else { panic!() };
    let Expr::Variable { id: read_id, .. } = value.as_ref() else { panic!() };
    assert_eq!(locals.get(read_id).copied(), Some(1));
    assert_eq!(locals.get(assign_id).copied(), Some(1));
}

#[test]
fn resolver_default_matches_new() {
    let stmts = Parser::new(Scanner::new("{ var a; a; }").scan_tokens().unwrap()).parse().unwrap();
    let a = Resolver::new().resolve(&stmts).unwrap();
    let b = Resolver::default().resolve(&stmts).unwrap();
    assert_eq!(a, b);
}

/// Runs `src` through scanning, parsing and resolution, naming the stage
/// that failed.
fn front_end(src: &str) -> Result<HashMap<usize, usize>, String> {
    let tokens = Scanner::new(src).scan_tokens().map_err(|e| format!("SCAN: {e}"))?;
    let stmts = Parser::new(tokens).parse().map_err(|errs| format!("PARSE: {}", render(&errs)))?;
    Resolver::new().resolve(&stmts).map_err(|errs| format!("RESOLVE: {}", render(&errs)))
}

fn render(errs: &[LoxError]) -> String {
    errs.iter().map(|e| e.to_string()).collect::<Vec<_>>().join("\n")
}

#[test]
fn return_value_in_initializer_is_resolve_error() {
    let err = front_end(
        r#"
        class A {
          init() { return 42; }
        }
        "#,
    )
    .unwrap_err();
    assert!(err.starts_with("RESOLVE: "), "got: {err}");
    assert!(err.contains("Can't return a value from an initializer."));
}

#[test]
fn deep_clone_keeps_the_program() {
    let tokens = Scanner::new("class A < B { init(x) { this.x = x; super.m(); } } fun f(a, b) { if (a) print b; else while (b) { b = b - 1; } return a or b; } var v = f(1, \"s\").y;")
        .scan_tokens()
        .expect("scans");
    let stmts = Parser::new(tokens).parse().expect("parses");
    let copies: Vec<Stmt> = stmts.iter().map(|s| s.deep_clone()).collect();
    assert_eq!(format!("{:?}", stmts), format!("{:?}", copies));
    let e: &Expr = match &copies[2] {
        Stmt::Var { initializer: Some(e), .. } => e,
        other => panic!("expected a var declaration, got {other:?}"),
    };
    assert!(matches!(e, Expr::Get { .. }));
}
