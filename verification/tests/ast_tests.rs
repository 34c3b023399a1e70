use rlox::ast::{expr_id, Expr, Stmt};
use rlox::token::{Literal, Token, TokenType};

fn tok(ttype: TokenType, lexeme: &str) -> Token {
    Token::new(ttype, lexeme.to_string(), None, 1)
}

#[test]
fn ast_expr_literal_constructs_and_debug_prints() {
    let e = Expr::Literal(Literal::Num("42".to_string()));
    let s = format!("{:?}", e);
    assert!(s.contains("Literal"), "debug should name the variant: {s}");
    assert!(s.contains("42"), "debug should include the number: {s}");
}

#[test]
fn ast_stmt_block_holds_children() {
    let block = Stmt::Block(vec![Stmt::Print(Expr::Literal(Literal::Num("1.0".to_string())))]);
    match &block {
        Stmt::Block(inner) => assert_eq!(inner.len(), 1),
        _ => panic!("expected Stmt::Block"),
    }
}

#[test]
fn ast_expr_id_returns_some_for_variable_and_none_for_literal() {
    let var = Expr::Variable { name: tok(TokenType::Identifier, "x"), id: 7 };
    assert_eq!(expr_id(&var), Some(7));

    let lit = Expr::Literal(Literal::Nil);
    assert_eq!(expr_id(&lit), None);
}

#[test]
fn ast_stmt_if_else_branch_optional() {
    let no_else = Stmt::If {
        cond: Expr::Literal(Literal::Bool(true)),
        then_branch: Box::new(Stmt::Print(Expr::Literal(Literal::Num("1.0".to_string())))),
        else_branch: None,
    };
    match &no_else {
        Stmt::If { else_branch, .. } => assert!(else_branch.is_none()),
        _ => panic!("expected Stmt::If"),
    }

    let with_else = Stmt::If {
        cond: Expr::Literal(Literal::Bool(false)),
        then_branch: Box::new(Stmt::Print(Expr::Literal(Literal::Num("1.0".to_string())))),
        else_branch: Some(Box::new(Stmt::Print(Expr::Literal(Literal::Num("2.0".to_string()))))),
    };
    match &with_else {
        Stmt::If { else_branch, .. } => assert!(else_branch.is_some()),
        _ => panic!("expected Stmt::If"),
    }
}

#[test]
fn ast_expr_id_covers_assign_super_this() {
    let assign = Expr::Assign {
        name: tok(TokenType::Identifier, "x"),
        value: Box::new(Expr::Literal(Literal::Num("1.0".to_string()))),
        id: 1,
    };
    assert_eq!(expr_id(&assign), Some(1));

    let super_ = Expr::Super {
        keyword: tok(TokenType::Super, "super"),
        method: tok(TokenType::Identifier, "m"),
        id: 2,
    };
    assert_eq!(expr_id(&super_), Some(2));

    let this_ = Expr::This { keyword: tok(TokenType::This, "this"), id: 3 };
    assert_eq!(expr_id(&this_), Some(3));
}

#[test]
fn ast_expr_id_none_for_other_kinds() {
    let get = Expr::Get {
        object: Box::new(Expr::Literal(Literal::Nil)),
        name: tok(TokenType::Identifier, "f"),
    };
    assert_eq!(expr_id(&get), None);
    let set = Expr::SetField {
        object: Box::new(Expr::Literal(Literal::Nil)),
        name: tok(TokenType::Identifier, "f"),
        value: Box::new(Expr::Literal(Literal::Nil)),
    };
    assert_eq!(expr_id(&set), None);
}
