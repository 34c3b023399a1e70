use rlox::error::LoxError;

#[test]
fn error_syntax_display_matches_book() {
    let e = LoxError::syntax(3, " at '('", "expected expression");
    assert_eq!(e.to_string(), "[line 3] Error at '(': expected expression");
}

#[test]
fn error_syntax_display_with_empty_loc() {
    let e = LoxError::syntax(1, "", "bad");
    assert_eq!(e.to_string(), "[line 1] Error: bad");
}

#[test]
fn error_syntax_display_at_end() {
    let e = LoxError::syntax(42, " at end", "expected ';'");
    assert_eq!(e.to_string(), "[line 42] Error at end: expected ';'");
}

#[test]
fn error_runtime_display() {
    let e = LoxError::runtime(5, "divide by zero");
    assert_eq!(e.to_string(), "divide by zero\n[line 5] in script");
}

#[test]
fn error_clone_and_eq() {
    let a = LoxError::syntax(7, " at 'foo'", "unexpected token");
    let b = a.clone();
    assert_eq!(a, b);

    let r1 = LoxError::runtime(9, "type mismatch");
    let r2 = LoxError::runtime(9, "type mismatch");
    assert_eq!(r1, r2);
    assert_eq!(r1, r1.clone());

    assert_ne!(LoxError::runtime(1, "x"), LoxError::syntax(1, "", "x"));
}

#[test]
fn error_resolve_renders_without_location() {
    let e = LoxError::resolve(4, "Can't return from top-level code.");
    assert_eq!(e.to_string(), "[line 4] Error: Can't return from top-level code.");
    assert_eq!(e, LoxError::syntax(4, "", "Can't return from top-level code."));
}

#[test]
fn error_line_numbers_render_in_decimal() {
    assert_eq!(LoxError::syntax(0, "", "m").to_string(), "[line 0] Error: m");
    assert_eq!(LoxError::syntax(1234567, "", "m").to_string(), "[line 1234567] Error: m");
    assert_eq!(LoxError::runtime(10, "").to_string(), "\n[line 10] in script");
}
