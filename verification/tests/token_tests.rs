use rlox::token::{Literal, Token, TokenType};

#[test]
fn token_type_equality() {
    assert_eq!(TokenType::LeftParen, TokenType::LeftParen);
    assert_ne!(TokenType::LeftParen, TokenType::RightParen);
}

#[test]
fn literal_equality() {
    assert_eq!(Literal::Num("1.0".to_string()), Literal::Num("1.0".to_string()));
    assert_ne!(Literal::Num("1.0".to_string()), Literal::Num("2.0".to_string()));
    assert_eq!(Literal::Str("a".into()), Literal::Str("a".into()));
    assert_eq!(Literal::Nil, Literal::Nil);
}

#[test]
fn token_clone_keeps_every_field() {
    let t = Token::new(TokenType::String, "\"x\"".to_string(), Some(Literal::Str("x".to_string())), 9);
    let c = t.clone_token();
    assert_eq!(c.ttype, TokenType::String);
    assert_eq!(c.lexeme, "\"x\"");
    assert_eq!(c.literal, Some(Literal::Str("x".to_string())));
    assert_eq!(c.line, 9);
}
