use rlox::scanner::Scanner;
use rlox::token::{Literal, TokenType};
use rlox::token::TokenType as T;

fn types(src: &str) -> Vec<TokenType> {
    Scanner::new(src).scan_tokens().unwrap().into_iter().map(|t| t.ttype).collect()
}

fn number_value(l: &Option<Literal>) -> f64 {
    match l {
        Some(Literal::Num(text)) => text.parse::<f64>().unwrap(),
        other => panic!("expected a number literal, got {other:?}"),
    }
}

#[test]
fn scanner_single_char_tokens() {
    let src = "(){},.-+;/*";
    assert_eq!(
        types(src),
        vec![T::LeftParen, T::RightParen, T::LeftBrace, T::RightBrace, T::Comma, T::Dot, T::Minus, T::Plus, T::Semicolon, T::Slash, T::Star, T::Eof]
    );
}

#[test]
fn scanner_operators_two_char() {
    assert_eq!(
        types("! != = == < <= > >="),
        vec![T::Bang, T::BangEqual, T::Equal, T::EqualEqual, T::Less, T::LessEqual, T::Greater, T::GreaterEqual, T::Eof]
    );
}

#[test]
fn scanner_line_comment_ignored() {
    assert_eq!(types("// comment\n+"), vec![T::Plus, T::Eof]);
}

#[test]
fn scanner_string_literal_single_line() {
    let toks = Scanner::new("\"hi\"").scan_tokens().unwrap();
    assert_eq!(toks.len(), 2);
    assert_eq!(toks[0].ttype, T::String);
    assert_eq!(toks[0].literal, Some(Literal::Str("hi".to_string())));
    assert_eq!(toks[1].ttype, T::Eof);
}

#[test]
fn scanner_string_literal_multi_line() {
    let toks = Scanner::new("\"a\nb\"").scan_tokens().unwrap();
    assert_eq!(toks[0].ttype, T::String);
    assert_eq!(toks[0].literal, Some(Literal::Str("a\nb".to_string())));
    assert_eq!(toks[0].line, 2);
    assert_eq!(toks[1].ttype, T::Eof);
    assert_eq!(toks[1].line, 2);
}

#[test]
fn scanner_unterminated_string_errors() {
    let err = Scanner::new("\"abc").scan_tokens().unwrap_err();
    assert!(err.contains("Unterminated"), "got: {err}");
    assert!(err.contains("[line 1]"), "got: {err}");
}

#[test]
fn scanner_number_int_and_float() {
    let toks = Scanner::new("123 45.67").scan_tokens().unwrap();
    assert_eq!(toks.len(), 3);
    assert_eq!(toks[0].ttype, T::Number);
    assert_eq!(number_value(&toks[0].literal), 123.0);
    assert_eq!(toks[1].ttype, T::Number);
    assert_eq!(number_value(&toks[1].literal), 45.67);
    assert_eq!(toks[2].ttype, T::Eof);
}

#[test]
fn scanner_identifier_and_keyword() {
    let toks = Scanner::new("orchid or").scan_tokens().unwrap();
    assert_eq!(toks.len(), 3);
    assert_eq!(toks[0].ttype, T::Identifier);
    assert_eq!(toks[0].lexeme, "orchid");
    assert_eq!(toks[1].ttype, T::Or);
    assert_eq!(toks[1].lexeme, "or");
}

#[test]
fn scanner_multi_line_tracks_line() {
    let toks = Scanner::new("\n\n+").scan_tokens().unwrap();
    assert_eq!(toks[0].ttype, T::Plus);
    assert_eq!(toks[0].line, 3);
    assert_eq!(toks[1].ttype, T::Eof);
    assert_eq!(toks[1].line, 3);
}

#[test]
fn scanner_rejects_stray_char_with_line() {
    let err = Scanner::new("@").scan_tokens().unwrap_err();
    assert!(err.contains("[line 1]"), "got: {err}");
    assert!(err.contains("'@'"), "got: {err}");
}

#[test]
fn scanner_empty_produces_only_eof() {
    let toks = Scanner::new("").scan_tokens().unwrap();
    assert_eq!(toks.len(), 1);
    assert_eq!(toks[0].ttype, T::Eof);
    assert_eq!(toks[0].line, 1);
    assert_eq!(toks[0].lexeme, "");
}

#[test]
fn scanner_trailing_dot_is_separate_token() {
    let toks = Scanner::new("5.").scan_tokens().unwrap();
    assert_eq!(toks[0].ttype, T::Number);
    assert_eq!(number_value(&toks[0].literal), 5.0);
    assert_eq!(toks[1].ttype, T::Dot);
    assert_eq!(toks[2].ttype, T::Eof);
}

#[test]
fn scanner_leading_dot_is_separate_token() {
    let toks = Scanner::new(".5").scan_tokens().unwrap();
    assert_eq!(toks[0].ttype, T::Dot);
    assert_eq!(toks[1].ttype, T::Number);
    assert_eq!(number_value(&toks[1].literal), 5.0);
}

#[test]
fn scanner_all_keywords_recognised() {
    let src = "and class else false fun for if nil or print return super this true var while";
    assert_eq!(
        types(src),
        vec![T::And, T::Class, T::Else, T::False, T::Fun, T::For, T::If, T::Nil, T::Or, T::Print, T::Return, T::Super, T::This, T::True, T::Var, T::While, T::Eof]
    );
}

#[test]
fn scanner_error_message_is_exact() {
    assert_eq!(
        Scanner::new("var x;\n  #").scan_tokens().unwrap_err(),
        "[line 2] Error: Unexpected character '#'."
    );
    assert_eq!(
        Scanner::new("\n\"abc").scan_tokens().unwrap_err(),
        "[line 2] Error: Unterminated string."
    );
}

#[test]
fn scanner_number_keeps_literal_text() {
    let toks = Scanner::new("007.50").scan_tokens().unwrap();
    assert_eq!(toks[0].literal, Some(Literal::Num("007.50".to_string())));
    assert_eq!(toks[0].lexeme, "007.50");
}

#[test]
fn scanner_keywords_need_whole_words() {
    assert_eq!(types("andy _or or1 fun_"), vec![T::Identifier, T::Identifier, T::Identifier, T::Identifier, T::Eof]);
}

#[test]
fn scanner_output_ends_in_exactly_one_eof() {
    for src in ["", "var a = 1;", "// only a comment", "print \"x\";\n\n fun f() {}", "  \t\r\n"] {
        let toks = Scanner::new(src).scan_tokens().expect("scans");
        assert_eq!(toks.last().map(|t| t.ttype), Some(T::Eof), "source {src:?}");
        assert_eq!(toks.iter().filter(|t| t.ttype == T::Eof).count(), 1, "source {src:?}");
    }
}

#[test]
fn scanner_token_lines_never_decrease() {
    let toks = Scanner::new("var a = 1;\nvar s = \"two\nlines\";\n\n// note\nprint a;").scan_tokens().expect("scans");
    let lines: Vec<usize> = toks.iter().map(|t| t.line).collect();
    assert_eq!(lines, vec![1, 1, 1, 1, 1, 2, 2, 2, 3, 3, 6, 6, 6, 6]);
    assert!(lines.windows(2).all(|w| w[0] <= w[1]));
}
