//! Tokens of the tree-walking front end.

use vstd::prelude::*;

verus! {

/// Every lexical token kind the scanner produces.
#[derive(Debug, Clone, Copy, PartialEq, Eq, Hash, Structural)]
pub enum TokenType {
    // Single-character tokens.
    LeftParen,
    RightParen,
    LeftBrace,
    RightBrace,
    Comma,
    Dot,
    Minus,
    Plus,
    Semicolon,
    Slash,
    Star,
    // One or two character tokens.
    Bang,
    BangEqual,
    Equal,
    EqualEqual,
    Greater,
    GreaterEqual,
    Less,
    LessEqual,
    // Literals.
    Identifier,
    String,
    Number,
    // Keywords.
    And,
    Class,
    Else,
    False,
    Fun,
    For,
    If,
    Nil,
    Or,
    Print,
    Return,
    Super,
    This,
    True,
    Var,
    While,
    Eof,
}

/// Literal payload of a token. A number keeps the text of its literal
/// (digits with an optional fractional part); turning it into a machine
/// number is left to the evaluator.
#[derive(Debug, Clone, PartialEq)]
pub enum Literal {
    Str(String),
    Num(String),
    Bool(bool),
    Nil,
}

/// Mathematical model of a literal.
pub enum LiteralView {
    Str(Seq<char>),
    Num(Seq<char>),
    Bool(bool),
    Nil,
}

impl View for Literal {
    type V = LiteralView;

    open spec fn view(&self) -> LiteralView {
        match self {
            Literal::Str(s) => LiteralView::Str(s@),
            Literal::Num(s) => LiteralView::Num(s@),
            Literal::Bool(b) => LiteralView::Bool(*b),
            Literal::Nil => LiteralView::Nil,
        }
    }
}

impl Literal {
    pub fn clone_literal(&self) -> (r: Literal)
        ensures
            r@ == self@,
    {
        match self {
            Literal::Str(s) => Literal::Str(s.clone()),
            Literal::Num(s) => Literal::Num(s.clone()),
            Literal::Bool(b) => Literal::Bool(*b),
            Literal::Nil => Literal::Nil,
        }
    }
}

/// A single token produced by the scanner.
#[derive(Debug, Clone)]
pub struct Token {
    pub ttype: TokenType,
    pub lexeme: String,
    pub literal: Option<Literal>,
    pub line: usize,
}

/// Mathematical model of a token.
pub struct TokenView {
    pub ttype: TokenType,
    pub lexeme: Seq<char>,
    pub literal: Option<LiteralView>,
    pub line: nat,
}

pub open spec fn option_literal_view(l: Option<Literal>) -> Option<LiteralView> {
    match l {
        Some(x) => Some(x@),
        None => None,
    }
}

impl View for Token {
    type V = TokenView;

    open spec fn view(&self) -> TokenView {
        TokenView {
            ttype: self.ttype,
            lexeme: self.lexeme@,
            literal: option_literal_view(self.literal),
            line: self.line as nat,
        }
    }
}

impl Token {
    pub fn new(ttype: TokenType, lexeme: String, literal: Option<Literal>, line: usize) -> (t: Token)
        ensures
            t.ttype == ttype,
            t.lexeme == lexeme,
            t.literal == literal,
            t.line == line,
    {
        Token { ttype, lexeme, literal, line }
    }

    /// A copy with the same model.
    pub fn clone_token(&self) -> (t: Token)
        ensures
            t@ == self@,
    {
        let literal = match &self.literal {
            Some(l) => Some(l.clone_literal()),
            None => None,
        };
        Token { ttype: self.ttype, lexeme: self.lexeme.clone(), literal, line: self.line }
    }
}

/// The models of a sequence of tokens.
pub open spec fn token_views(ts: Seq<Token>) -> Seq<TokenView> {
    ts.map_values(|t: Token| t@)
}

} // verus!
