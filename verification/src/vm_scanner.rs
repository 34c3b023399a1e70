//! On-demand scanner of the bytecode front end. Each call of
//! [`Scanner::scan_token`] yields exactly one token; at the end of the input
//! it keeps yielding `Eof`. Lexical errors come back as `Error` tokens whose
//! lexeme is the message.

use vstd::prelude::*;
use crate::lexical::{
    find_line_end, find_number_end, find_quote_end, find_word_end, is_alpha, is_digit,
    lemma_line_end_bounds, lemma_newlines_bound, lemma_number_end_bounds, lemma_quote_end_bounds,
    lemma_word_end_bounds, line_end, newlines, number_end, quote_end, spec_is_alpha,
    spec_is_digit, word_end, word_eq,
};
use crate::text::{chars_of, string_from_chars, string_of};

verus! {

/// Token kinds of the bytecode front end.
#[derive(Debug, Clone, Copy, PartialEq, Eq, Hash, Structural)]
pub enum TokenType {
    LeftParen,
    RightParen,
    LeftBrace,
    RightBrace,
    Comma,
    Dot,
    Minus,
    Plus,
    Semicolon,
    Slash,
    Star,
    Bang,
    BangEqual,
    Equal,
    EqualEqual,
    Greater,
    GreaterEqual,
    Less,
    LessEqual,
    Identifier,
    String,
    Number,
    And,
    Class,
    Else,
    False,
    Fun,
    For,
    If,
    Nil,
    Or,
    Print,
    Return,
    Super,
    This,
    True,
    Var,
    While,
    Error,
    Eof,
}

/// A token; for `Error` tokens the lexeme is the message.
#[derive(Debug, Clone)]
pub struct Token {
    pub ttype: TokenType,
    pub lexeme: String,
    pub line: usize,
}

/// Mathematical model of a token.
pub struct TokenView {
    pub ttype: TokenType,
    pub lexeme: Seq<char>,
    pub line: nat,
}

impl View for Token {
    type V = TokenView;

    open spec fn view(&self) -> TokenView {
        TokenView { ttype: self.ttype, lexeme: self.lexeme@, line: self.line as nat }
    }
}

impl Token {
    /// A token that stands in no source line (line 0).
    pub fn synthetic(ttype: TokenType, lexeme: &str) -> (t: Token)
        ensures
            t@ == (TokenView { ttype, lexeme: lexeme@, line: 0 }),
    {
        Token { ttype, lexeme: string_of(lexeme), line: 0 }
    }

    /// A copy with the same model.
    pub fn clone_token(&self) -> (t: Token)
        ensures
            t@ == self@,
    {
        Token { ttype: self.ttype, lexeme: self.lexeme.clone(), line: self.line }
    }
}

/// The keyword spelled by `t`, if any.
pub open spec fn keyword_of(t: Seq<char>) -> Option<TokenType> {
    if t == seq!['a', 'n', 'd'] {
        Some(TokenType::And)
    } else if t == seq!['c', 'l', 'a', 's', 's'] {
        Some(TokenType::Class)
    } else if t == seq!['e', 'l', 's', 'e'] {
        Some(TokenType::Else)
    } else if t == seq!['f', 'a', 'l', 's', 'e'] {
        Some(TokenType::False)
    } else if t == seq!['f', 'u', 'n'] {
        Some(TokenType::Fun)
    } else if t == seq!['f', 'o', 'r'] {
        Some(TokenType::For)
    } else if t == seq!['i', 'f'] {
        Some(TokenType::If)
    } else if t == seq!['n', 'i', 'l'] {
        Some(TokenType::Nil)
    } else if t == seq!['o', 'r'] {
        Some(TokenType::Or)
    } else if t == seq!['p', 'r', 'i', 'n', 't'] {
        Some(TokenType::Print)
    } else if t == seq!['r', 'e', 't', 'u', 'r', 'n'] {
        Some(TokenType::Return)
    } else if t == seq!['s', 'u', 'p', 'e', 'r'] {
        Some(TokenType::Super)
    } else if t == seq!['t', 'h', 'i', 's'] {
        Some(TokenType::This)
    } else if t == seq!['t', 'r', 'u', 'e'] {
        Some(TokenType::True)
    } else if t == seq!['v', 'a', 'r'] {
        Some(TokenType::Var)
    } else if t == seq!['w', 'h', 'i', 'l', 'e'] {
        Some(TokenType::While)
    } else {
        None
    }
}

/// The token kind of the identifier or keyword `s[a..b]`.
fn identifier_type(s: &Vec<char>, a: usize, b: usize) -> (r: TokenType)
    requires
        a <= b <= s.len(),
    ensures
        r == word_kind(s@.subrange(a as int, b as int)),
{
    let w = ['a', 'n', 'd'];
    assert(w@ == seq!['a', 'n', 'd']);
    if word_eq(s, a, b, &w) {
        return TokenType::And;
    }
    let w = ['c', 'l', 'a', 's', 's'];
    assert(w@ == seq!['c', 'l', 'a', 's', 's']);
    if word_eq(s, a, b, &w) {
        return TokenType::Class;
    }
    let w = ['e', 'l', 's', 'e'];
    assert(w@ == seq!['e', 'l', 's', 'e']);
    if word_eq(s, a, b, &w) {
        return TokenType::Else;
    }
    let w = ['f', 'a', 'l', 's', 'e'];
    assert(w@ == seq!['f', 'a', 'l', 's', 'e']);
    if word_eq(s, a, b, &w) {
        return TokenType::False;
    }
    let w = ['f', 'u', 'n'];
    assert(w@ == seq!['f', 'u', 'n']);
    if word_eq(s, a, b, &w) {
        return TokenType::Fun;
    }
    let w = ['f', 'o', 'r'];
    assert(w@ == seq!['f', 'o', 'r']);
    if word_eq(s, a, b, &w) {
        return TokenType::For;
    }
    let w = ['i', 'f'];
    assert(w@ == seq!['i', 'f']);
    if word_eq(s, a, b, &w) {
        return TokenType::If;
    }
    let w = ['n', 'i', 'l'];
    assert(w@ == seq!['n', 'i', 'l']);
    if word_eq(s, a, b, &w) {
        return TokenType::Nil;
    }
    let w = ['o', 'r'];
    assert(w@ == seq!['o', 'r']);
    if word_eq(s, a, b, &w) {
        return TokenType::Or;
    }
    let w = ['p', 'r', 'i', 'n', 't'];
    assert(w@ == seq!['p', 'r', 'i', 'n', 't']);
    if word_eq(s, a, b, &w) {
        return TokenType::Print;
    }
    let w = ['r', 'e', 't', 'u', 'r', 'n'];
    assert(w@ == seq!['r', 'e', 't', 'u', 'r', 'n']);
    if word_eq(s, a, b, &w) {
        return TokenType::Return;
    }
    let w = ['s', 'u', 'p', 'e', 'r'];
    assert(w@ == seq!['s', 'u', 'p', 'e', 'r']);
    if word_eq(s, a, b, &w) {
        return TokenType::Super;
    }
    let w = ['t', 'h', 'i', 's'];
    assert(w@ == seq!['t', 'h', 'i', 's']);
    if word_eq(s, a, b, &w) {
        return TokenType::This;
    }
    let w = ['t', 'r', 'u', 'e'];
    assert(w@ == seq!['t', 'r', 'u', 'e']);
    if word_eq(s, a, b, &w) {
        return TokenType::True;
    }
    let w = ['v', 'a', 'r'];
    assert(w@ == seq!['v', 'a', 'r']);
    if word_eq(s, a, b, &w) {
        return TokenType::Var;
    }
    let w = ['w', 'h', 'i', 'l', 'e'];
    assert(w@ == seq!['w', 'h', 'i', 'l', 'e']);
    if word_eq(s, a, b, &w) {
        return TokenType::While;
    }
    TokenType::Identifier
}


/// The kind of an identifier-shaped word.
pub open spec fn word_kind(t: Seq<char>) -> TokenType {
    match keyword_of(t) {
        Some(k) => k,
        None => TokenType::Identifier,
    }
}

/// Position and line after skipping blanks, newlines and line comments.
pub open spec fn skip_blank(s: Seq<char>, pos: nat, line: nat) -> (nat, nat)
    decreases s.len() - pos,
{
    if pos >= s.len() {
        (pos, line)
    } else {
        let c = s[pos as int];
        if c == ' ' || c == '\r' || c == '\t' {
            skip_blank(s, pos + 1, line)
        } else if c == '\n' {
            skip_blank(s, pos + 1, line + 1)
        } else if c == '/' && pos + 1 < s.len() && s[pos + 1 as int] == '/' {
            let e = line_end(s, pos + 1);
            proof {
                lemma_line_end_bounds(s, pos + 1);
            }
            skip_blank(s, e, line)
        } else {
            (pos, line)
        }
    }
}

/// Skipping never goes back, and it stops only at the end or at a
/// character that is not a blank: no space, tab, carriage return or
/// newline is ever where a token starts.
pub proof fn lemma_skip_blank_stops_at_token(s: Seq<char>, pos: nat, line: nat)
    ensures
        pos <= skip_blank(s, pos, line).0,
        skip_blank(s, pos, line).0 < s.len() ==> {
            let c = s[skip_blank(s, pos, line).0 as int];
            c != ' ' && c != '\t' && c != '\r' && c != '\n'
        },
    decreases s.len() - pos,
{
    if pos < s.len() {
        let c = s[pos as int];
        if c == ' ' || c == '\r' || c == '\t' || c == '\n' {
            lemma_skip_blank_stops_at_token(s, pos + 1, if c == '\n' { line + 1 } else { line });
        } else if c == '/' && pos + 1 < s.len() && s[pos + 1 as int] == '/' {
            lemma_line_end_bounds(s, pos + 1);
            lemma_skip_blank_stops_at_token(s, line_end(s, pos + 1), line);
        }
    }
}

pub open spec fn tok(ttype: TokenType, lexeme: Seq<char>, line: nat) -> TokenView {
    TokenView { ttype, lexeme, line }
}

/// One token, with the position and line after it, when the scanner is at
/// position `pos` and line `line`.
pub open spec fn next_token(s: Seq<char>, pos: nat, line: nat) -> (TokenView, nat, nat) {
    let (p, l) = skip_blank(s, pos, line);
    if p >= s.len() {
        (tok(TokenType::Eof, Seq::empty(), l), p, l)
    } else {
        let c = s[p as int];
        let n = p + 1;
        if spec_is_alpha(c) {
            let e = word_end(s, n);
            (tok(word_kind(s.subrange(p as int, e as int)), s.subrange(p as int, e as int), l), e, l)
        } else if spec_is_digit(c) {
            let e = number_end(s, n);
            (tok(TokenType::Number, s.subrange(p as int, e as int), l), e, l)
        } else if c == '"' {
            let e = quote_end(s, n);
            let l2 = l + newlines(s, n, e);
            if e >= s.len() {
                (tok(TokenType::Error, "Unterminated string."@, l2), e, l2)
            } else {
                (tok(TokenType::String, s.subrange(p as int, e + 1 as int), l2), e + 1, l2)
            }
        } else {
            let two = n < s.len() && s[n as int] == '=';
            let kind: Option<TokenType> = if c == '(' {
                Some(TokenType::LeftParen)
            } else if c == ')' {
                Some(TokenType::RightParen)
            } else if c == '{' {
                Some(TokenType::LeftBrace)
            } else if c == '}' {
                Some(TokenType::RightBrace)
            } else if c == ',' {
                Some(TokenType::Comma)
            } else if c == '.' {
                Some(TokenType::Dot)
            } else if c == '-' {
                Some(TokenType::Minus)
            } else if c == '+' {
                Some(TokenType::Plus)
            } else if c == ';' {
                Some(TokenType::Semicolon)
            } else if c == '*' {
                Some(TokenType::Star)
            } else if c == '/' {
                Some(TokenType::Slash)
            } else {
                None
            };
            let pair: Option<(TokenType, TokenType)> = if c == '!' {
                Some((TokenType::Bang, TokenType::BangEqual))
            } else if c == '=' {
                Some((TokenType::Equal, TokenType::EqualEqual))
            } else if c == '<' {
                Some((TokenType::Less, TokenType::LessEqual))
            } else if c == '>' {
                Some((TokenType::Greater, TokenType::GreaterEqual))
            } else {
                None
            };
            match kind {
                Some(k) => (tok(k, s.subrange(p as int, n as int), l), n, l),
                None => match pair {
                    Some((one, both)) => if two {
                        (tok(both, s.subrange(p as int, n + 1 as int), l), n + 1, l)
                    } else {
                        (tok(one, s.subrange(p as int, n as int), l), n, l)
                    },
                    None => (tok(TokenType::Error, "Unexpected character."@, l), n, l),
                },
            }
        }
    }
}

proof fn lemma_skip_blank(s: Seq<char>, pos: nat, line: nat)
    requires
        pos <= s.len(),
    ensures
        pos <= skip_blank(s, pos, line).0 <= s.len(),
        skip_blank(s, pos, line).1 <= line + (skip_blank(s, pos, line).0 - pos),
    decreases s.len() - pos,
{
    if pos < s.len() {
        let c = s[pos as int];
        if c == ' ' || c == '\r' || c == '\t' {
            lemma_skip_blank(s, pos + 1, line);
        } else if c == '\n' {
            lemma_skip_blank(s, pos + 1, line + 1);
        } else if c == '/' && pos + 1 < s.len() && s[pos + 1 as int] == '/' {
            lemma_line_end_bounds(s, pos + 1);
            lemma_skip_blank(s, line_end(s, pos + 1), line);
        }
    }
}

proof fn lemma_next_token(s: Seq<char>, pos: nat, line: nat)
    requires
        pos <= s.len(),
    ensures
        pos <= next_token(s, pos, line).1 <= s.len(),
        next_token(s, pos, line).2 <= line + (next_token(s, pos, line).1 - pos),
{
    lemma_skip_blank(s, pos, line);
    let (p, l) = skip_blank(s, pos, line);
    if p < s.len() {
        let n = p + 1;
        lemma_word_end_bounds(s, n);
        lemma_number_end_bounds(s, n);
        lemma_quote_end_bounds(s, n);
        lemma_newlines_bound(s, n, quote_end(s, n));
    }
}

/// Every token but the end-of-file token moves the position forward; a
/// string token's lexeme holds at least its two quotes.
pub proof fn lemma_next_token_progress(s: Seq<char>, pos: nat, line: nat)
    requires
        pos <= s.len(),
    ensures
        pos <= next_token(s, pos, line).1 <= s.len(),
        next_token(s, pos, line).0.ttype != TokenType::Eof ==> pos < next_token(s, pos, line).1,
        next_token(s, pos, line).0.ttype == TokenType::Eof ==> next_token(s, pos, line).0.lexeme.len() == 0,
        next_token(s, pos, line).0.ttype == TokenType::String ==> next_token(s, pos, line).0.lexeme.len() >= 2,
{
    lemma_next_token(s, pos, line);
    lemma_skip_blank(s, pos, line);
    let (p, l) = skip_blank(s, pos, line);
    if p < s.len() {
        let n = p + 1;
        lemma_word_end_bounds(s, n);
        lemma_number_end_bounds(s, n);
        lemma_quote_end_bounds(s, n);
    }
}

/// Once the scanner has reached the end of input it stays there: asked for
/// another token, it gives the same `Eof` token and does not move.
pub proof fn lemma_eof_repeats(s: Seq<char>, pos: nat, line: nat)
    requires
        pos <= s.len(),
        next_token(s, pos, line).0.ttype == TokenType::Eof,
    ensures
        next_token(s, next_token(s, pos, line).1, next_token(s, pos, line).2) == next_token(s, pos, line),
        next_token(s, pos, line).1 == s.len(),
{
    lemma_skip_blank(s, pos, line);
    let (p, l) = skip_blank(s, pos, line);
    if p < s.len() {
        let c = s[p as int];
        if spec_is_alpha(c) {
            let e = word_end(s, p + 1);
            assert(word_kind(s.subrange(p as int, e as int)) != TokenType::Eof);
        }
    }
}

/// On-demand scanner.
pub struct Scanner {
    source: Vec<char>,
    /// Position of the first character of the lexeme being scanned.
    start: usize,
    /// Position of the next character to read.
    current: usize,
    /// Current line, from 1.
    line: usize,
}

impl Scanner {
    /// The source text.
    pub closed spec fn source(&self) -> Seq<char> {
        self.source@
    }

    /// Position of the next character to read.
    pub closed spec fn position(&self) -> nat {
        self.current as nat
    }

    /// The current line.
    pub closed spec fn current_line(&self) -> nat {
        self.line as nat
    }

    /// The scanner's fields agree with each other.
    pub closed spec fn wf(&self) -> bool {
        &&& self.current <= self.source@.len()
        &&& self.source@.len() < usize::MAX
        &&& 1 <= self.line <= self.current + 1
    }

    pub fn new(source: &str) -> (s: Scanner)
        requires
            source@.len() < usize::MAX,
        ensures
            s.wf(),
            s.source() == source@,
            s.position() == 0,
            s.current_line() == 1,
    {
        Scanner { source: chars_of(source), start: 0, current: 0, line: 1 }
    }

    /// Produce the next token. After the end of the input, keeps
    /// returning `Eof`.
    pub fn scan_token(&mut self) -> (t: Token)
        requires
            old(self).wf(),
        ensures
            final(self).wf(),
            final(self).source() == old(self).source(),
            (t@, final(self).position(), final(self).current_line())
                == next_token(old(self).source(), old(self).position(), old(self).current_line()),
    {
        proof {
            lemma_next_token(self.source@, self.current as nat, self.line as nat);
        }
        self.skip_whitespace();
        self.start = self.current;
        if self.current >= self.source.len() {
            assert(self.source@.subrange(self.start as int, self.current as int) =~= Seq::<char>::empty());
            return self.make_token(TokenType::Eof);
        }
        let c = self.source[self.current];
        self.current = self.current + 1;
        if is_alpha(c) {
            let e = find_word_end(&self.source, self.current);
            proof {
                lemma_word_end_bounds(self.source@, self.current as nat);
            }
            self.current = e;
            let tt = identifier_type(&self.source, self.start, e);
            return self.make_token(tt);
        }
        if is_digit(c) {
            let e = find_number_end(&self.source, self.current);
            proof {
                lemma_number_end_bounds(self.source@, self.current as nat);
            }
            self.current = e;
            return self.make_token(TokenType::Number);
        }
        if c == '"' {
            let (e, k) = find_quote_end(&self.source, self.current);
            proof {
                lemma_quote_end_bounds(self.source@, self.current as nat);
                lemma_newlines_bound(self.source@, self.current as nat, e as nat);
            }
            self.line = self.line + k;
            if e >= self.source.len() {
                self.current = e;
                return self.error_token("Unterminated string.");
            }
            self.current = e + 1;
            return self.make_token(TokenType::String);
        }
        let two = self.current < self.source.len() && self.source[self.current] == '=';
        let kind: Option<TokenType> = if c == '(' {
            Some(TokenType::LeftParen)
        } else if c == ')' {
            Some(TokenType::RightParen)
        } else if c == '{' {
            Some(TokenType::LeftBrace)
        } else if c == '}' {
            Some(TokenType::RightBrace)
        } else if c == ',' {
            Some(TokenType::Comma)
        } else if c == '.' {
            Some(TokenType::Dot)
        } else if c == '-' {
            Some(TokenType::Minus)
        } else if c == '+' {
            Some(TokenType::Plus)
        } else if c == ';' {
            Some(TokenType::Semicolon)
        } else if c == '*' {
            Some(TokenType::Star)
        } else if c == '/' {
            Some(TokenType::Slash)
        } else {
            None
        };
        let pair: Option<(TokenType, TokenType)> = if c == '!' {
            Some((TokenType::Bang, TokenType::BangEqual))
        } else if c == '=' {
            Some((TokenType::Equal, TokenType::EqualEqual))
        } else if c == '<' {
            Some((TokenType::Less, TokenType::LessEqual))
        } else if c == '>' {
            Some((TokenType::Greater, TokenType::GreaterEqual))
        } else {
            None
        };
        match kind {
            Some(k) => self.make_token(k),
            None => match pair {
                Some((one, both)) => {
                    if two {
                        self.current = self.current + 1;
                        self.make_token(both)
                    } else {
                        self.make_token(one)
                    }
                },
                None => self.error_token("Unexpected character."),
            },
        }
    }

    /// Skip blanks, newlines and `//` comments.
    fn skip_whitespace(&mut self)
        requires
            old(self).wf(),
        ensures
            final(self).source == old(self).source,
            final(self).start == old(self).start,
            (final(self).current as nat, final(self).line as nat) == skip_blank(
                old(self).source@,
                old(self).current as nat,
                old(self).line as nat,
            ),
            final(self).wf(),
    {
        proof {
            lemma_skip_blank(self.source@, self.current as nat, self.line as nat);
        }
        loop
            invariant
                self.wf(),
                self.source == old(self).source,
                self.start == old(self).start,
                skip_blank(self.source@, self.current as nat, self.line as nat) == skip_blank(
                    old(self).source@,
                    old(self).current as nat,
                    old(self).line as nat,
                ),
            decreases self.source.len() - self.current,
        {
            if self.current >= self.source.len() {
                return;
            }
            let c = self.source[self.current];
            if c == ' ' || c == '\r' || c == '\t' {
                self.current = self.current + 1;
            } else if c == '\n' {
                self.line = self.line + 1;
                self.current = self.current + 1;
            } else if c == '/' && self.current + 1 < self.source.len() && self.source[self.current + 1] == '/' {
                let e = find_line_end(&self.source, self.current + 1);
                proof {
                    lemma_line_end_bounds(self.source@, (self.current + 1) as nat);
                }
                self.current = e;
            } else {
                return;
            }
        }
    }

    fn make_token(&self, ttype: TokenType) -> (t: Token)
        requires
            self.start <= self.current <= self.source.len(),
        ensures
            t@ == tok(ttype, self.source@.subrange(self.start as int, self.current as int), self.line as nat),
    {
        Token { ttype, lexeme: string_from_chars(&self.source, self.start, self.current), line: self.line }
    }

    fn error_token(&self, msg: &str) -> (t: Token)
        ensures
            t@ == tok(TokenType::Error, msg@, self.line as nat),
    {
        Token { ttype: TokenType::Error, lexeme: string_of(msg), line: self.line }
    }
}

} // verus!
