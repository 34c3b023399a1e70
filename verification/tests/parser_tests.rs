use rlox::ast::{expr_id, Expr, Stmt};
use rlox::error::LoxError;
use rlox::parser::Parser;
use rlox::scanner::Scanner;
use rlox::token::{Literal, TokenType};

fn parse(src: &str) -> Result<Vec<Stmt>, Vec<LoxError>> {
    let tokens = Scanner::new(src).scan_tokens().expect("test source must scan cleanly");
    Parser::new(tokens).parse()
}

fn parse_ok(src: &str) -> Vec<Stmt> {
    parse(src).unwrap_or_else(|e| panic!("unexpected parse error: {:?}", e))
}

#[test]
fn parser_arithmetic_precedence() {
    let stmts = parse_ok("1 + 2 * 3;");
    assert_eq!(stmts.len(), 1);
    let Stmt::Expression(Expr::Binary { op, right, .. }) = &stmts[0] else {
        panic!("expected Expression(Binary), got {:?}", stmts[0]);
    };
    assert_eq!(op.ttype, TokenType::Plus);
    let Expr::Binary { op: op2, .. } = right.as_ref() else {
        panic!("expected nested Binary on RHS");
    };
    assert_eq!(op2.ttype, TokenType::Star);
}

#[test]
fn parser_grouping_overrides_precedence() {
    let stmts = parse_ok("(1 + 2) * 3;");
    let Stmt::Expression(Expr::Binary { op, left, .. }) = &stmts[0] else {
        panic!("expected Expression(Binary)");
    };
    assert_eq!(op.ttype, TokenType::Star);
    let Expr::Grouping(inner) = left.as_ref() else {
        panic!("expected Grouping on LHS");
    };
    let Expr::Binary { op: op2, .. } = inner.as_ref() else {
        panic!("expected Binary inside Grouping");
    };
    assert_eq!(op2.ttype, TokenType::Plus);
}

#[test]
fn parser_equality_left_associative() {
    let stmts = parse_ok("1 == 2 == 3;");
    let Stmt::Expression(Expr::Binary { op, left, .. }) = &stmts[0] else {
        panic!("expected Expression(Binary)");
    };
    assert_eq!(op.ttype, TokenType::EqualEqual);
    let Expr::Binary { op: op2, .. } = left.as_ref() else {
        panic!("expected nested Binary on LHS for left-associativity");
    };
    assert_eq!(op2.ttype, TokenType::EqualEqual);
}

#[test]
fn parser_logical_or_and_short_circuit_structure() {
    let stmts = parse_ok("a or b and c;");
    let Stmt::Expression(Expr::Logical { op, right, .. }) = &stmts[0] else {
        panic!("expected Expression(Logical)");
    };
    assert_eq!(op.ttype, TokenType::Or);
    let Expr::Logical { op: op2, .. } = right.as_ref() else {
        panic!("expected nested Logical on RHS");
    };
    assert_eq!(op2.ttype, TokenType::And);
}

#[test]
fn parser_unary_right_associative() {
    let stmts = parse_ok("!!x;");
    let Stmt::Expression(Expr::Unary { op, right }) = &stmts[0] else {
        panic!("expected Expression(Unary)");
    };
    assert_eq!(op.ttype, TokenType::Bang);
    let Expr::Unary { op: op2, .. } = right.as_ref() else {
        panic!("expected nested Unary");
    };
    assert_eq!(op2.ttype, TokenType::Bang);
}

#[test]
fn parser_var_declaration_with_initializer() {
    let stmts = parse_ok("var x = 1;");
    let Stmt::Var { name, initializer } = &stmts[0] else {
        panic!("expected Stmt::Var");
    };
    assert_eq!(name.lexeme, "x");
    assert!(initializer.is_some(), "expected initializer");
}

#[test]
fn parser_var_declaration_without_initializer() {
    let stmts = parse_ok("var x;");
    let Stmt::Var { name, initializer } = &stmts[0] else {
        panic!("expected Stmt::Var");
    };
    assert_eq!(name.lexeme, "x");
    assert!(initializer.is_none());
}

#[test]
fn parser_block_nested_statements() {
    let stmts = parse_ok("{ var a = 1; print a; }");
    let Stmt::Block(inner) = &stmts[0] else {
        panic!("expected Stmt::Block");
    };
    assert_eq!(inner.len(), 2);
    assert!(matches!(inner[0], Stmt::Var { .. }));
    assert!(matches!(inner[1], Stmt::Print(_)));
}

#[test]
fn parser_if_else_optional_else() {
    let stmts = parse_ok("if (a) print 1;");
    let Stmt::If { else_branch, .. } = &stmts[0] else {
        panic!("expected Stmt::If");
    };
    assert!(else_branch.is_none());

    let stmts = parse_ok("if (a) print 1; else print 2;");
    let Stmt::If { else_branch, .. } = &stmts[0] else {
        panic!("expected Stmt::If");
    };
    assert!(else_branch.is_some());
}

#[test]
fn parser_while_loop() {
    let stmts = parse_ok("while (a) print a;");
    let Stmt::While { body, .. } = &stmts[0] else {
        panic!("expected Stmt::While");
    };
    assert!(matches!(body.as_ref(), Stmt::Print(_)));
}

#[test]
fn parser_for_desugared_to_block_while() {
    let stmts = parse_ok("for (var i = 0; i < 3; i = i + 1) print i;");
    let Stmt::Block(outer) = &stmts[0] else {
        panic!("expected outer Stmt::Block (desugared for)");
    };
    assert_eq!(outer.len(), 2);
    assert!(matches!(outer[0], Stmt::Var { .. }));
    let Stmt::While { body, .. } = &outer[1] else {
        panic!("expected Stmt::While in desugared for");
    };
    let Stmt::Block(loop_body) = body.as_ref() else {
        panic!("expected inner Block wrapping body + increment");
    };
    assert_eq!(loop_body.len(), 2);
    assert!(matches!(loop_body[0], Stmt::Print(_)));
    assert!(matches!(loop_body[1], Stmt::Expression(_)));
}

#[test]
fn parser_function_declaration() {
    let stmts = parse_ok("fun foo(a, b) { return a + b; }");
    let Stmt::Function { name, params, body } = &stmts[0] else {
        panic!("expected Stmt::Function");
    };
    assert_eq!(name.lexeme, "foo");
    assert_eq!(params.len(), 2);
    assert_eq!(params[0].lexeme, "a");
    assert_eq!(params[1].lexeme, "b");
    assert_eq!(body.len(), 1);
    assert!(matches!(body[0], Stmt::Return { .. }));
}

#[test]
fn parser_call_expression() {
    let stmts = parse_ok("foo(1, 2);");
    let Stmt::Expression(Expr::Call { args, .. }) = &stmts[0] else {
        panic!("expected Expression(Call)");
    };
    assert_eq!(args.len(), 2);
}

#[test]
fn parser_property_access() {
    let stmts = parse_ok("a.b.c;");
    let Stmt::Expression(Expr::Get { object, name }) = &stmts[0] else {
        panic!("expected Expression(Get)");
    };
    assert_eq!(name.lexeme, "c");
    let Expr::Get { name: name2, .. } = object.as_ref() else {
        panic!("expected nested Get");
    };
    assert_eq!(name2.lexeme, "b");
}

#[test]
fn parser_property_assignment() {
    let stmts = parse_ok("a.b = 1;");
    let Stmt::Expression(Expr::SetField { name, .. }) = &stmts[0] else {
        panic!("expected Expression(Set)");
    };
    assert_eq!(name.lexeme, "b");
}

#[test]
fn parser_class_declaration_with_methods() {
    let stmts = parse_ok("class A { foo() {} bar() {} }");
    let Stmt::Class { name, superclass, methods } = &stmts[0] else {
        panic!("expected Stmt::Class");
    };
    assert_eq!(name.lexeme, "A");
    assert!(superclass.is_none());
    assert_eq!(methods.len(), 2);
    assert!(matches!(methods[0], Stmt::Function { .. }));
    assert!(matches!(methods[1], Stmt::Function { .. }));
}

#[test]
fn parser_class_with_superclass() {
    let stmts = parse_ok("class B < A {}");
    let Stmt::Class { name, superclass, .. } = &stmts[0] else {
        panic!("expected Stmt::Class");
    };
    assert_eq!(name.lexeme, "B");
    let Some(Expr::Variable { name: sn, .. }) = superclass else {
        panic!("expected Some(Variable) superclass");
    };
    assert_eq!(sn.lexeme, "A");
}

#[test]
fn parser_super_call() {
    let stmts = parse_ok("class B < A { foo() { super.init(); } }");
    let Stmt::Class { methods, .. } = &stmts[0] else {
        panic!("expected Stmt::Class");
    };
    let Stmt::Function { body, .. } = &methods[0] else {
        panic!("expected Stmt::Function method");
    };
    let Stmt::Expression(Expr::Call { callee, .. }) = &body[0] else {
        panic!("expected Call stmt in method body");
    };
    let Expr::Super { method, .. } = callee.as_ref() else {
        panic!("expected Super callee, got {:?}", callee);
    };
    assert_eq!(method.lexeme, "init");
}

#[test]
fn parser_this_expression() {
    let stmts = parse_ok("class A { foo() { this.x; } }");
    let Stmt::Class { methods, .. } = &stmts[0] else {
        panic!("expected Stmt::Class");
    };
    let Stmt::Function { body, .. } = &methods[0] else {
        panic!("expected Function method");
    };
    let Stmt::Expression(Expr::Get { object, name }) = &body[0] else {
        panic!("expected Expression(Get)");
    };
    assert_eq!(name.lexeme, "x");
    assert!(matches!(object.as_ref(), Expr::This { .. }));
}

#[test]
fn parser_invalid_assignment_target_errors() {
    let errs = parse("(a + b) = 1;").unwrap_err();
    assert!(
        errs.iter().any(|e| e.to_string().contains("Invalid assignment target.")),
        "errors: {:?}",
        errs
    );
}

#[test]
fn parser_missing_semicolon_errors_and_recovers() {
    let errs = parse("var a = 1\nprint a;").unwrap_err();
    assert!(!errs.is_empty(), "expected at least one error");
    assert!(errs.iter().any(|e| e.to_string().contains("';'")), "errors: {:?}", errs);
}

#[test]
fn parser_too_many_arguments_errors() {
    let args: Vec<&str> = (0..256).map(|_| "1").collect();
    let src = format!("foo({});", args.join(","));
    let errs = parse(&src).unwrap_err();
    assert!(
        errs.iter().any(|e| e.to_string().contains("Can't have more than 255 arguments.")),
        "errors: {:?}",
        errs
    );
}

#[test]
fn parser_mints_unique_expr_ids() {
    let stmts = parse_ok("var a; a = a;");
    assert_eq!(stmts.len(), 2);
    let Stmt::Expression(Expr::Assign { id, value, .. }) = &stmts[1] else {
        panic!("expected Expression(Assign)");
    };
    let Expr::Variable { id: var_id, .. } = value.as_ref() else {
        panic!("expected Variable on RHS");
    };
    let assign_id_opt = match &stmts[1] {
        Stmt::Expression(e) => expr_id(e),
        _ => panic!("not an Expression stmt"),
    };
    assert_eq!(assign_id_opt, Some(*id));
    assert_ne!(id, var_id, "ids must be distinct");
}

// Further cases.

#[test]
fn parser_error_messages_are_exact() {
    let errs = parse("var = 1;").unwrap_err();
    assert_eq!(errs.len(), 1);
    assert_eq!(errs[0], LoxError::syntax(1, " at '='", "Expect variable name."));
    let errs = parse("print 1").unwrap_err();
    assert_eq!(errs, vec![LoxError::syntax(1, " at end", "Expect ';' after value.")]);
}

#[test]
fn parser_recovers_and_reports_each_statement() {
    let errs = parse("var = 1;\nprint ;\nvar ok = 2;\nfun (a) {}").unwrap_err();
    assert_eq!(
        errs,
        vec![
            LoxError::syntax(1, " at '='", "Expect variable name."),
            LoxError::syntax(2, " at ';'", "Expect expression."),
            LoxError::syntax(4, " at '('", "Expect function name."),
        ]
    );
}

#[test]
fn parser_for_without_clauses_is_infinite_while() {
    let stmts = parse_ok("for (;;) print 1;");
    let Stmt::While { cond, body } = &stmts[0] else {
        panic!("expected a bare While");
    };
    assert!(matches!(cond, Expr::Literal(Literal::Bool(true))));
    assert!(matches!(body.as_ref(), Stmt::Print(_)));
}

#[test]
fn parser_ids_count_up_from_zero() {
    let stmts = parse_ok("a; b; c = d;");
    let ids: Vec<Option<usize>> = stmts
        .iter()
        .map(|s| match s {
            Stmt::Expression(e) => expr_id(e),
            _ => None,
        })
        .collect();
    assert_eq!(ids, vec![Some(0), Some(1), Some(4)]);
}

#[test]
fn parser_empty_program_parses_to_nothing() {
    assert!(parse_ok("").is_empty());
    assert!(parse_ok("// only a comment").is_empty());
}

#[test]
fn parser_too_many_parameters_errors() {
    let params: Vec<String> = (0..256).map(|i| format!("p{i}")).collect();
    let src = format!("fun f({}) {{}}", params.join(","));
    let errs = parse(&src).unwrap_err();
    assert_eq!(errs[0], LoxError::syntax(1, " at 'p255'", "Can't have more than 255 parameters."));
}

#[test]
fn parser_string_literal_expression() {
    let stmts = parse_ok("print \"hi\";");
    let Stmt::Print(Expr::Literal(Literal::Str(s))) = &stmts[0] else {
        panic!("expected a printed string literal");
    };
    assert_eq!(s, "hi");
}
