//! Scanner of the tree-walking front end: turns source text into a token
//! list ending in a single `Eof` token, or reports the first lexical error
//! as `[line N] Error: ...`.

use vstd::prelude::*;
use crate::lexical::{
    digits_end, find_line_end, find_number_end, find_quote_end, find_word_end, is_alpha,
    is_digit, lemma_line_end_bounds, lemma_newlines_bound, lemma_number_end_bounds,
    lemma_quote_end_bounds, lemma_word_end_bounds, line_end, newlines, number_end, quote_end,
    spec_is_alpha, spec_is_digit, word_end, word_eq,
};
use crate::text::{chars_of, decimal, push_char, push_decimal, string_from_chars, string_of};
use crate::token::{Literal, LiteralView, Token, TokenType, TokenView, token_views};

verus! {

// ---------------------------------------------------------------------------
// The lexical grammar.
// ---------------------------------------------------------------------------

/// The keyword spelled by `t`, if any.
pub open spec fn keyword_of(t: Seq<char>) -> Option<TokenType> {
    if t == seq!['a', 'n', 'd'] {
        Some(TokenType::And)
    } else if t == seq!['c', 'l', 'a', 's', 's'] {
        Some(TokenType::Class)
    } else if t == seq!['e', 'l', 's', 'e'] {
        Some(TokenType::Else)
    } else if t == seq!['f', 'a', 'l', 's', 'e'] {
        Some(TokenType::False)
    } else if t == seq!['f', 'u', 'n'] {
        Some(TokenType::Fun)
    } else if t == seq!['f', 'o', 'r'] {
        Some(TokenType::For)
    } else if t == seq!['i', 'f'] {
        Some(TokenType::If)
    } else if t == seq!['n', 'i', 'l'] {
        Some(TokenType::Nil)
    } else if t == seq!['o', 'r'] {
        Some(TokenType::Or)
    } else if t == seq!['p', 'r', 'i', 'n', 't'] {
        Some(TokenType::Print)
    } else if t == seq!['r', 'e', 't', 'u', 'r', 'n'] {
        Some(TokenType::Return)
    } else if t == seq!['s', 'u', 'p', 'e', 'r'] {
        Some(TokenType::Super)
    } else if t == seq!['t', 'h', 'i', 's'] {
        Some(TokenType::This)
    } else if t == seq!['t', 'r', 'u', 'e'] {
        Some(TokenType::True)
    } else if t == seq!['v', 'a', 'r'] {
        Some(TokenType::Var)
    } else if t == seq!['w', 'h', 'i', 'l', 'e'] {
        Some(TokenType::While)
    } else {
        None
    }
}

/// The keyword spelled by `s[a..b]`, if any.
fn keyword(s: &Vec<char>, a: usize, b: usize) -> (r: Option<TokenType>)
    requires
        a <= b <= s.len(),
    ensures
        r == keyword_of(s@.subrange(a as int, b as int)),
{
    let w = ['a', 'n', 'd'];
    assert(w@ == seq!['a', 'n', 'd']);
    if word_eq(s, a, b, &w) {
        return Some(TokenType::And);
    }
    let w = ['c', 'l', 'a', 's', 's'];
    assert(w@ == seq!['c', 'l', 'a', 's', 's']);
    if word_eq(s, a, b, &w) {
        return Some(TokenType::Class);
    }
    let w = ['e', 'l', 's', 'e'];
    assert(w@ == seq!['e', 'l', 's', 'e']);
    if word_eq(s, a, b, &w) {
        return Some(TokenType::Else);
    }
    let w = ['f', 'a', 'l', 's', 'e'];
    assert(w@ == seq!['f', 'a', 'l', 's', 'e']);
    if word_eq(s, a, b, &w) {
        return Some(TokenType::False);
    }
    let w = ['f', 'u', 'n'];
    assert(w@ == seq!['f', 'u', 'n']);
    if word_eq(s, a, b, &w) {
        return Some(TokenType::Fun);
    }
    let w = ['f', 'o', 'r'];
    assert(w@ == seq!['f', 'o', 'r']);
    if word_eq(s, a, b, &w) {
        return Some(TokenType::For);
    }
    let w = ['i', 'f'];
    assert(w@ == seq!['i', 'f']);
    if word_eq(s, a, b, &w) {
        return Some(TokenType::If);
    }
    let w = ['n', 'i', 'l'];
    assert(w@ == seq!['n', 'i', 'l']);
    if word_eq(s, a, b, &w) {
        return Some(TokenType::Nil);
    }
    let w = ['o', 'r'];
    assert(w@ == seq!['o', 'r']);
    if word_eq(s, a, b, &w) {
        return Some(TokenType::Or);
    }
    let w = ['p', 'r', 'i', 'n', 't'];
    assert(w@ == seq!['p', 'r', 'i', 'n', 't']);
    if word_eq(s, a, b, &w) {
        return Some(TokenType::Print);
    }
    let w = ['r', 'e', 't', 'u', 'r', 'n'];
    assert(w@ == seq!['r', 'e', 't', 'u', 'r', 'n']);
    if word_eq(s, a, b, &w) {
        return Some(TokenType::Return);
    }
    let w = ['s', 'u', 'p', 'e', 'r'];
    assert(w@ == seq!['s', 'u', 'p', 'e', 'r']);
    if word_eq(s, a, b, &w) {
        return Some(TokenType::Super);
    }
    let w = ['t', 'h', 'i', 's'];
    assert(w@ == seq!['t', 'h', 'i', 's']);
    if word_eq(s, a, b, &w) {
        return Some(TokenType::This);
    }
    let w = ['t', 'r', 'u', 'e'];
    assert(w@ == seq!['t', 'r', 'u', 'e']);
    if word_eq(s, a, b, &w) {
        return Some(TokenType::True);
    }
    let w = ['v', 'a', 'r'];
    assert(w@ == seq!['v', 'a', 'r']);
    if word_eq(s, a, b, &w) {
        return Some(TokenType::Var);
    }
    let w = ['w', 'h', 'i', 'l', 'e'];
    assert(w@ == seq!['w', 'h', 'i', 'l', 'e']);
    if word_eq(s, a, b, &w) {
        return Some(TokenType::While);
    }
    None
}


/// The character shown for an unexpected character: the character itself
/// when it is ASCII, else the first byte of its UTF-8 encoding read as a
/// Latin-1 character.
pub open spec fn shown_char(c: char) -> char {
    let u = c as u32;
    if u < 0x80 {
        c
    } else if u < 0x800 {
        ((0xC0 + u / 64) as u8) as char
    } else if u < 0x10000 {
        ((0xE0 + u / 4096) as u8) as char
    } else {
        ((0xF0 + u / 262144) as u8) as char
    }
}

pub open spec fn unterminated_text(line: nat) -> Seq<char> {
    "[line "@ + decimal(line) + "] Error: Unterminated string."@
}

pub open spec fn unexpected_text(line: nat, c: char) -> Seq<char> {
    "[line "@ + decimal(line) + "] Error: Unexpected character '"@ + seq![shown_char(c)] + "'."@
}

/// A token without a literal spanning `s[a..b]`.
pub open spec fn plain(tt: TokenType, s: Seq<char>, a: nat, b: nat, line: nat) -> TokenView {
    TokenView { ttype: tt, lexeme: s.subrange(a as int, b as int), literal: None, line }
}

/// The end-of-input token.
pub open spec fn eof_token(line: nat) -> TokenView {
    TokenView { ttype: TokenType::Eof, lexeme: Seq::empty(), literal: None, line }
}

/// One step of the scanner: a token with the position and line after it,
/// input that produces no token, or an error message.
pub enum ScanStep {
    Emit(TokenView, nat, nat),
    Skip(nat, nat),
    Fail(Seq<char>),
}

/// A token of one or two characters, two when the next character is `=`.
pub open spec fn with_equal(s: Seq<char>, pos: nat, line: nat, one: TokenType, two: TokenType) -> ScanStep {
    if pos + 1 < s.len() && s[pos + 1 as int] == '=' {
        ScanStep::Emit(plain(two, s, pos, pos + 2, line), pos + 2, line)
    } else {
        ScanStep::Emit(plain(one, s, pos, pos + 1, line), pos + 1, line)
    }
}

/// What the scanner does at position `pos` (which holds a character).
pub open spec fn scan_step(s: Seq<char>, pos: nat, line: nat) -> ScanStep {
    let c = s[pos as int];
    let n = pos + 1;
    if c == '(' {
        ScanStep::Emit(plain(TokenType::LeftParen, s, pos, n, line), n, line)
    } else if c == ')' {
        ScanStep::Emit(plain(TokenType::RightParen, s, pos, n, line), n, line)
    } else if c == '{' {
        ScanStep::Emit(plain(TokenType::LeftBrace, s, pos, n, line), n, line)
    } else if c == '}' {
        ScanStep::Emit(plain(TokenType::RightBrace, s, pos, n, line), n, line)
    } else if c == ',' {
        ScanStep::Emit(plain(TokenType::Comma, s, pos, n, line), n, line)
    } else if c == '.' {
        ScanStep::Emit(plain(TokenType::Dot, s, pos, n, line), n, line)
    } else if c == '-' {
        ScanStep::Emit(plain(TokenType::Minus, s, pos, n, line), n, line)
    } else if c == '+' {
        ScanStep::Emit(plain(TokenType::Plus, s, pos, n, line), n, line)
    } else if c == ';' {
        ScanStep::Emit(plain(TokenType::Semicolon, s, pos, n, line), n, line)
    } else if c == '*' {
        ScanStep::Emit(plain(TokenType::Star, s, pos, n, line), n, line)
    } else if c == '!' {
        with_equal(s, pos, line, TokenType::Bang, TokenType::BangEqual)
    } else if c == '=' {
        with_equal(s, pos, line, TokenType::Equal, TokenType::EqualEqual)
    } else if c == '<' {
        with_equal(s, pos, line, TokenType::Less, TokenType::LessEqual)
    } else if c == '>' {
        with_equal(s, pos, line, TokenType::Greater, TokenType::GreaterEqual)
    } else if c == '/' {
        if n < s.len() && s[n as int] == '/' {
            ScanStep::Skip(line_end(s, n + 1), line)
        } else {
            ScanStep::Emit(plain(TokenType::Slash, s, pos, n, line), n, line)
        }
    } else if c == ' ' || c == '\r' || c == '\t' {
        ScanStep::Skip(n, line)
    } else if c == '\n' {
        ScanStep::Skip(n, line + 1)
    } else if c == '"' {
        let e = quote_end(s, n);
        let l2 = line + newlines(s, n, e);
        if e >= s.len() {
            ScanStep::Fail(unterminated_text(l2))
        } else {
            ScanStep::Emit(
                TokenView {
                    ttype: TokenType::String,
                    lexeme: s.subrange(pos as int, e + 1 as int),
                    literal: Some(LiteralView::Str(s.subrange(n as int, e as int))),
                    line: l2,
                },
                e + 1,
                l2,
            )
        }
    } else if spec_is_digit(c) {
        let e = number_end(s, n);
        ScanStep::Emit(
            TokenView {
                ttype: TokenType::Number,
                lexeme: s.subrange(pos as int, e as int),
                literal: Some(LiteralView::Num(s.subrange(pos as int, e as int))),
                line,
            },
            e,
            line,
        )
    } else if spec_is_alpha(c) {
        let e = word_end(s, n);
        let tt = match keyword_of(s.subrange(pos as int, e as int)) {
            Some(k) => k,
            None => TokenType::Identifier,
        };
        ScanStep::Emit(plain(tt, s, pos, e, line), e, line)
    } else {
        ScanStep::Fail(unexpected_text(line, c))
    }
}

/// The tokens of `s` from position `pos` on, when the scanner is at line
/// `line`; or the first error message.
pub open spec fn scan_from(s: Seq<char>, pos: nat, line: nat) -> Result<Seq<TokenView>, Seq<char>>
    decreases s.len() - pos,
{
    if pos >= s.len() {
        Ok(seq![eof_token(line)])
    } else {
        match scan_step(s, pos, line) {
            ScanStep::Emit(t, p, l) => {
                if p <= pos || p > s.len() {
                    Err(Seq::empty())
                } else {
                    match scan_from(s, p, l) {
                        Ok(ts) => Ok(seq![t] + ts),
                        Err(m) => Err(m),
                    }
                }
            },
            ScanStep::Skip(p, l) => {
                if p <= pos || p > s.len() {
                    Err(Seq::empty())
                } else {
                    scan_from(s, p, l)
                }
            },
            ScanStep::Fail(m) => Err(m),
        }
    }
}

/// The tokens of a whole source text, scanning from line 1.
pub open spec fn scan(s: Seq<char>) -> Result<Seq<TokenView>, Seq<char>> {
    scan_from(s, 0, 1)
}

/// Every step moves forward and stays within the input, and the line
/// count never outgrows the position.
pub proof fn lemma_scan_step_advances(s: Seq<char>, pos: nat, line: nat)
    requires
        pos < s.len(),
    ensures
        match scan_step(s, pos, line) {
            ScanStep::Emit(t, p, l) => pos < p <= s.len() && l <= line + (p - pos),
            ScanStep::Skip(p, l) => pos < p <= s.len() && l <= line + (p - pos),
            ScanStep::Fail(_) => true,
        },
{
    let n = pos + 1;
    lemma_line_end_bounds(s, n);
    lemma_quote_end_bounds(s, n);
    lemma_number_end_bounds(s, n);
    lemma_word_end_bounds(s, n);
    lemma_newlines_bound(s, n, quote_end(s, n));
    if n < s.len() {
        lemma_line_end_bounds(s, n + 1);
    }
}

// ---------------------------------------------------------------------------
// The scanner.
// ---------------------------------------------------------------------------

/// One step of the scanner, computed.
enum Step {
    Emit(Token, usize, usize),
    Skip(usize, usize),
    Fail(String),
}

impl Step {
    spec fn view(&self) -> ScanStep {
        match self {
            Step::Emit(t, p, l) => ScanStep::Emit(t@, *p as nat, *l as nat),
            Step::Skip(p, l) => ScanStep::Skip(*p as nat, *l as nat),
            Step::Fail(m) => ScanStep::Fail(m@),
        }
    }
}

fn plain_token(tt: TokenType, s: &Vec<char>, a: usize, b: usize, line: usize) -> (t: Token)
    requires
        a <= b <= s.len(),
    ensures
        t@ == plain(tt, s@, a as nat, b as nat, line as nat),
{
    Token::new(tt, string_from_chars(s, a, b), None, line)
}

fn emit_with_equal(s: &Vec<char>, pos: usize, line: usize, one: TokenType, two: TokenType) -> (r: Step)
    requires
        pos < s.len(),
    ensures
        r.view() == with_equal(s@, pos as nat, line as nat, one, two),
{
    if pos + 1 < s.len() && s[pos + 1] == '=' {
        Step::Emit(plain_token(two, s, pos, pos + 2, line), pos + 2, line)
    } else {
        Step::Emit(plain_token(one, s, pos, pos + 1, line), pos + 1, line)
    }
}

fn shown(c: char) -> (r: char)
    ensures
        r == shown_char(c),
{
    let u = c as u32;
    if u < 0x80 {
        c
    } else if u < 0x800 {
        ((0xC0 + u / 64) as u8) as char
    } else if u < 0x10000 {
        ((0xE0 + u / 4096) as u8) as char
    } else {
        ((0xF0 + u / 262144) as u8) as char
    }
}

fn step(s: &Vec<char>, pos: usize, line: usize) -> (r: Step)
    requires
        pos < s.len(),
        s.len() < usize::MAX,
        line <= pos + 1,
    ensures
        r.view() == scan_step(s@, pos as nat, line as nat),
{
    let c = s[pos];
    let n = pos + 1;
    if c == '(' {
        Step::Emit(plain_token(TokenType::LeftParen, s, pos, n, line), n, line)
    } else if c == ')' {
        Step::Emit(plain_token(TokenType::RightParen, s, pos, n, line), n, line)
    } else if c == '{' {
        Step::Emit(plain_token(TokenType::LeftBrace, s, pos, n, line), n, line)
    } else if c == '}' {
        Step::Emit(plain_token(TokenType::RightBrace, s, pos, n, line), n, line)
    } else if c == ',' {
        Step::Emit(plain_token(TokenType::Comma, s, pos, n, line), n, line)
    } else if c == '.' {
        Step::Emit(plain_token(TokenType::Dot, s, pos, n, line), n, line)
    } else if c == '-' {
        Step::Emit(plain_token(TokenType::Minus, s, pos, n, line), n, line)
    } else if c == '+' {
        Step::Emit(plain_token(TokenType::Plus, s, pos, n, line), n, line)
    } else if c == ';' {
        Step::Emit(plain_token(TokenType::Semicolon, s, pos, n, line), n, line)
    } else if c == '*' {
        Step::Emit(plain_token(TokenType::Star, s, pos, n, line), n, line)
    } else if c == '!' {
        emit_with_equal(s, pos, line, TokenType::Bang, TokenType::BangEqual)
    } else if c == '=' {
        emit_with_equal(s, pos, line, TokenType::Equal, TokenType::EqualEqual)
    } else if c == '<' {
        emit_with_equal(s, pos, line, TokenType::Less, TokenType::LessEqual)
    } else if c == '>' {
        emit_with_equal(s, pos, line, TokenType::Greater, TokenType::GreaterEqual)
    } else if c == '/' {
        if n < s.len() && s[n] == '/' {
            Step::Skip(find_line_end(s, n + 1), line)
        } else {
            Step::Emit(plain_token(TokenType::Slash, s, pos, n, line), n, line)
        }
    } else if c == ' ' || c == '\r' || c == '\t' {
        Step::Skip(n, line)
    } else if c == '\n' {
        Step::Skip(n, line + 1)
    } else if c == '"' {
        let (e, k) = find_quote_end(s, n);
        proof {
            lemma_quote_end_bounds(s@, n as nat);
            lemma_newlines_bound(s@, n as nat, e as nat);
        }
        let l2 = line + k;
        if e >= s.len() {
            let mut m = string_of("[line ");
            push_decimal(&mut m, l2);
            m.append("] Error: Unterminated string.");
            Step::Fail(m)
        } else {
            let t = Token::new(
                TokenType::String,
                string_from_chars(s, pos, e + 1),
                Some(Literal::Str(string_from_chars(s, n, e))),
                l2,
            );
            Step::Emit(t, e + 1, l2)
        }
    } else if is_digit(c) {
        let e = find_number_end(s, n);
        proof {
            lemma_number_end_bounds(s@, n as nat);
        }
        let t = Token::new(
            TokenType::Number,
            string_from_chars(s, pos, e),
            Some(Literal::Num(string_from_chars(s, pos, e))),
            line,
        );
        Step::Emit(t, e, line)
    } else if is_alpha(c) {
        let e = find_word_end(s, n);
        proof {
            lemma_word_end_bounds(s@, n as nat);
        }
        let tt = match keyword(s, pos, e) {
            Some(k) => k,
            None => TokenType::Identifier,
        };
        Step::Emit(plain_token(tt, s, pos, e, line), e, line)
    } else {
        let mut m = string_of("[line ");
        push_decimal(&mut m, line);
        m.append("] Error: Unexpected character '");
        push_char(&mut m, shown(c));
        m.append("'.");
        proof {
            assert(m@ =~= unexpected_text(line as nat, c));
        }
        Step::Fail(m)
    }
}

/// The last token is the end-of-input token and no other token is.
pub open spec fn ends_in_eof(ts: Seq<TokenView>) -> bool {
    &&& ts.len() > 0
    &&& ts.last().ttype == TokenType::Eof
    &&& forall|i: int| 0 <= i < ts.len() - 1 ==> #[trigger] ts[i].ttype != TokenType::Eof
}

proof fn lemma_scan_step_not_eof(s: Seq<char>, pos: nat, line: nat)
    requires
        pos < s.len(),
    ensures
        scan_step(s, pos, line) matches ScanStep::Emit(t, _, _) ==> t.ttype != TokenType::Eof,
{
}

proof fn lemma_scan_from_ends_in_eof(s: Seq<char>, pos: nat, line: nat)
    ensures
        scan_from(s, pos, line) matches Ok(ts) ==> ends_in_eof(ts),
    decreases s.len() - pos,
{
    if pos < s.len() {
        lemma_scan_step_not_eof(s, pos, line);
        match scan_step(s, pos, line) {
            ScanStep::Emit(t, p, l) => {
                if pos < p <= s.len() {
                    lemma_scan_from_ends_in_eof(s, p, l);
                    if let Ok(ts) = scan_from(s, p, l) {
                        let all = seq![t] + ts;
                        assert forall|i: int| 0 <= i < all.len() - 1 implies #[trigger] all[i].ttype
                            != TokenType::Eof by {
                            if i > 0 {
                                assert(all[i] == ts[i - 1]);
                            }
                        }
                        assert(all.last() == ts.last());
                    }
                }
            },
            ScanStep::Skip(p, l) => {
                if pos < p <= s.len() {
                    lemma_scan_from_ends_in_eof(s, p, l);
                }
            },
            ScanStep::Fail(_) => {},
        }
    }
}

/// A successful scan ends in one `Eof` token, its last, and holds no other:
/// what the scanner hands on is always a token list the parser accepts.
pub proof fn lemma_scan_ends_in_eof(s: Seq<char>, tokens: Seq<Token>)
    requires
        scan(s) == Ok::<Seq<TokenView>, Seq<char>>(token_views(tokens)),
    ensures
        ends_in_eof(token_views(tokens)),
        tokens.len() > 0,
        tokens.last().ttype == TokenType::Eof,
{
    lemma_scan_from_ends_in_eof(s, 0, 1);
    let tv = token_views(tokens);
    assert(tv.len() == tokens.len());
    assert(tv.last() == tokens.last()@);
}

/// The tokens' lines never go down, and none is before line `line`.
pub open spec fn lines_from(ts: Seq<TokenView>, line: nat) -> bool {
    &&& forall|i: int| 0 <= i < ts.len() ==> line <= #[trigger] ts[i].line
    &&& forall|i: int, j: int| 0 <= i < j < ts.len() ==> #[trigger] ts[i].line <= #[trigger] ts[j].line
}

proof fn lemma_scan_step_lines(s: Seq<char>, pos: nat, line: nat)
    requires
        pos < s.len(),
    ensures
        match scan_step(s, pos, line) {
            ScanStep::Emit(t, _, l) => line <= t.line <= l,
            ScanStep::Skip(_, l) => line <= l,
            ScanStep::Fail(_) => true,
        },
{
}

proof fn lemma_scan_from_lines(s: Seq<char>, pos: nat, line: nat)
    ensures
        scan_from(s, pos, line) matches Ok(ts) ==> lines_from(ts, line),
    decreases s.len() - pos,
{
    if pos < s.len() {
        lemma_scan_step_lines(s, pos, line);
        match scan_step(s, pos, line) {
            ScanStep::Emit(t, p, l) => {
                if pos < p <= s.len() {
                    lemma_scan_from_lines(s, p, l);
                    if let Ok(ts) = scan_from(s, p, l) {
                        let all = seq![t] + ts;
                        assert forall|i: int| 0 <= i < all.len() implies line <= #[trigger] all[i].line by {
                            if i > 0 {
                                assert(all[i] == ts[i - 1]);
                            }
                        }
                        assert forall|i: int, j: int| 0 <= i < j < all.len() implies #[trigger] all[i].line
                            <= #[trigger] all[j].line by {
                            assert(all[j] == ts[j - 1]);
                            if i > 0 {
                                assert(all[i] == ts[i - 1]);
                            }
                        }
                    }
                }
            },
            ScanStep::Skip(p, l) => {
                if pos < p <= s.len() {
                    lemma_scan_from_lines(s, p, l);
                }
            },
            ScanStep::Fail(_) => {},
        }
    }
}

/// Tokens come out in line order: each token's line is at least the line
/// of every token before it, and the first line is line 1 or later.
pub proof fn lemma_scan_lines_ordered(s: Seq<char>)
    ensures
        scan(s) matches Ok(ts) ==> lines_from(ts, 1),
{
    lemma_scan_from_lines(s, 0, 1);
}

/// The result of a scan, by its model.
pub open spec fn scan_result_view(r: Result<Vec<Token>, String>) -> Result<Seq<TokenView>, Seq<char>> {
    match r {
        Ok(v) => Ok(token_views(v@)),
        Err(m) => Err(m@),
    }
}

/// Puts already scanned tokens in front of the rest of a scan.
pub open spec fn prepend(done: Seq<TokenView>, rest: Result<Seq<TokenView>, Seq<char>>) -> Result<Seq<TokenView>, Seq<char>> {
    match rest {
        Ok(ts) => Ok(done + ts),
        Err(m) => Err(m),
    }
}

/// Stateful scanner over a source text.
pub struct Scanner {
    source: Vec<char>,
}

impl Scanner {
    /// The source text being scanned.
    pub closed spec fn source(&self) -> Seq<char> {
        self.source@
    }

    pub fn new(source: &str) -> (s: Scanner)
        ensures
            s.source() == source@,
    {
        Scanner { source: chars_of(source) }
    }

    /// Scan the entire source: the tokens, ending in `Eof`, or the first
    /// error encountered.
    pub fn scan_tokens(self) -> (r: Result<Vec<Token>, String>)
        requires
            self.source().len() < usize::MAX,
        ensures
            scan_result_view(r) == scan(self.source()),
    {
        let s = &self.source;
        let mut tokens: Vec<Token> = Vec::new();
        let mut pos: usize = 0;
        let mut line: usize = 1;
        while pos < s.len()
            invariant
                s@ == self.source(),
                pos <= s.len(),
                s.len() < usize::MAX,
                1 <= line <= pos + 1,
                scan(s@) == prepend(token_views(tokens@), scan_from(s@, pos as nat, line as nat)),
            decreases s.len() - pos,
        {
            proof {
                lemma_scan_step_advances(s@, pos as nat, line as nat);
            }
            let ghost old_tokens = token_views(tokens@);
            match step(s, pos, line) {
                Step::Emit(t, p, l) => {
                    let ghost tv = t@;
                    tokens.push(t);
                    proof {
                        assert(token_views(tokens@) =~= old_tokens.push(tv));
                        match scan_from(s@, p as nat, l as nat) {
                            Ok(ts) => {
                                assert(old_tokens + (seq![tv] + ts) =~= old_tokens.push(tv) + ts);
                            },
                            Err(_) => {},
                        }
                    }
                    pos = p;
                    line = l;
                },
                Step::Skip(p, l) => {
                    pos = p;
                    line = l;
                },
                Step::Fail(m) => {
                    assert(scan_from(s@, pos as nat, line as nat) == Err::<Seq<TokenView>, Seq<char>>(m@));
                    return Err(m);
                },
            }
        }
        let ghost old_tokens = token_views(tokens@);
        let eof = Token::new(TokenType::Eof, String::new(), None, line);
        tokens.push(eof);
        proof {
            assert(token_views(tokens@) =~= old_tokens + seq![eof_token(line as nat)]);
        }
        Ok(tokens)
    }
}

} // verus!
