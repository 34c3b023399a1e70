use rlox::vm_scanner::{Scanner, TokenType};
use rlox::vm_scanner::TokenType as T;

fn collect_types(src: &str) -> Vec<TokenType> {
    let mut s = Scanner::new(src);
    let mut out = Vec::new();
    loop {
        let tok = s.scan_token();
        let done = tok.ttype == TokenType::Eof;
        out.push(tok.ttype);
        if done {
            break;
        }
    }
    out
}

#[test]
fn scanner_scanner_single_char_tokens() {
    assert_eq!(
        collect_types("(){},.-+;*/"),
        vec![T::LeftParen, T::RightParen, T::LeftBrace, T::RightBrace, T::Comma, T::Dot, T::Minus, T::Plus, T::Semicolon, T::Star, T::Slash, T::Eof]
    );
}

#[test]
fn scanner_two_char_operators() {
    assert_eq!(
        collect_types("! != = == < <= > >="),
        vec![T::Bang, T::BangEqual, T::Equal, T::EqualEqual, T::Less, T::LessEqual, T::Greater, T::GreaterEqual, T::Eof]
    );
}

#[test]
fn scanner_string_literal_round_trips_lexeme_including_quotes() {
    let mut s = Scanner::new("\"hello\"");
    let tok = s.scan_token();
    assert_eq!(tok.ttype, TokenType::String);
    assert_eq!(tok.lexeme, "\"hello\"");
    assert_eq!(s.scan_token().ttype, TokenType::Eof);
}

#[test]
fn scanner_scanner_number_int_and_float() {
    let mut s = Scanner::new("123 45.67");
    let a = s.scan_token();
    assert_eq!(a.ttype, TokenType::Number);
    assert_eq!(a.lexeme, "123");
    let b = s.scan_token();
    assert_eq!(b.ttype, TokenType::Number);
    assert_eq!(b.lexeme, "45.67");
}

#[test]
fn scanner_identifier_vs_keyword() {
    let mut s = Scanner::new("orchid or");
    let t1 = s.scan_token();
    assert_eq!(t1.ttype, TokenType::Identifier);
    assert_eq!(t1.lexeme, "orchid");
    let t2 = s.scan_token();
    assert_eq!(t2.ttype, TokenType::Or);
}

#[test]
fn scanner_scanner_all_keywords_recognised() {
    let src = "and class else false fun for if nil or print return super this true var while";
    assert_eq!(
        collect_types(src),
        vec![T::And, T::Class, T::Else, T::False, T::Fun, T::For, T::If, T::Nil, T::Or, T::Print, T::Return, T::Super, T::This, T::True, T::Var, T::While, T::Eof]
    );
}

#[test]
fn scanner_line_comment_skipped() {
    assert_eq!(collect_types("// hi\n+"), vec![T::Plus, T::Eof]);
}

#[test]
fn scanner_unterminated_string_produces_error_token() {
    let mut s = Scanner::new("\"nope");
    let tok = s.scan_token();
    assert_eq!(tok.ttype, TokenType::Error);
    assert!(tok.lexeme.contains("Unterminated"));
}

#[test]
fn scanner_unexpected_char_produces_error_token() {
    let mut s = Scanner::new("@");
    let tok = s.scan_token();
    assert_eq!(tok.ttype, TokenType::Error);
    assert!(tok.lexeme.contains("Unexpected"));
}

#[test]
fn scanner_scanner_multi_line_tracks_line() {
    let mut s = Scanner::new("\n\n+");
    let tok = s.scan_token();
    assert_eq!(tok.ttype, TokenType::Plus);
    assert_eq!(tok.line, 3);
}

#[test]
fn scanner_eof_is_idempotent() {
    let mut s = Scanner::new("");
    assert_eq!(s.scan_token().ttype, TokenType::Eof);
    assert_eq!(s.scan_token().ttype, TokenType::Eof);
}

#[test]
fn vm_scanner_error_messages_and_lines() {
    let mut s = Scanner::new("\n\"open\nstill");
    let tok = s.scan_token();
    assert_eq!(tok.ttype, TokenType::Error);
    assert_eq!(tok.lexeme, "Unterminated string.");
    assert_eq!(tok.line, 3);
    let mut s = Scanner::new("  @");
    let tok = s.scan_token();
    assert_eq!(tok.lexeme, "Unexpected character.");
    assert_eq!(tok.line, 1);
    assert_eq!(s.scan_token().ttype, TokenType::Eof);
}

#[test]
fn scanner_keeps_answering_eof_at_the_end() {
    let mut s = Scanner::new("print 1;\n// done\n");
    let mut last = s.scan_token();
    while last.ttype != TokenType::Eof {
        last = s.scan_token();
    }
    for _ in 0..3 {
        let again = s.scan_token();
        assert_eq!(again.ttype, TokenType::Eof);
        assert_eq!(again.line, last.line);
        assert_eq!(again.lexeme, "");
    }
}
