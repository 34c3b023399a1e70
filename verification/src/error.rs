//! The error value of the tree-walking front end and interpreter.
//!
//! A compile-time error renders as `[line N] Error<loc>: <msg>`, where `loc`
//! carries its own leading text (`" at '('"`, `" at end"` or empty); a
//! runtime error renders as `<msg>\n[line N] in script`.

use vstd::prelude::*;
use crate::text::{decimal, push_decimal, string_of};

verus! {

#[derive(Debug, Clone, PartialEq)]
pub enum LoxError {
    Syntax { line: usize, loc: String, msg: String },
    Runtime { line: usize, msg: String },
}

/// The rendering of a compile-time error.
pub open spec fn syntax_text(line: nat, loc: Seq<char>, msg: Seq<char>) -> Seq<char> {
    "[line "@ + decimal(line) + "] Error"@ + loc + ": "@ + msg
}

/// The rendering of a runtime error.
pub open spec fn runtime_text(line: nat, msg: Seq<char>) -> Seq<char> {
    msg + "\n[line "@ + decimal(line) + "] in script"@
}

/// Mathematical model of an error.
pub enum LoxErrorView {
    Syntax(nat, Seq<char>, Seq<char>),
    Runtime(nat, Seq<char>),
}

impl View for LoxError {
    type V = LoxErrorView;

    open spec fn view(&self) -> LoxErrorView {
        match self {
            LoxError::Syntax { line, loc, msg } => LoxErrorView::Syntax(*line as nat, loc@, msg@),
            LoxError::Runtime { line, msg } => LoxErrorView::Runtime(*line as nat, msg@),
        }
    }
}

pub open spec fn error_views(v: Seq<LoxError>) -> Seq<LoxErrorView> {
    v.map_values(|e: LoxError| e@)
}

impl LoxError {
    /// The text of this error.
    pub open spec fn text(&self) -> Seq<char> {
        match self {
            LoxError::Syntax { line, loc, msg } => syntax_text(*line as nat, loc@, msg@),
            LoxError::Runtime { line, msg } => runtime_text(*line as nat, msg@),
        }
    }

    pub fn syntax(line: usize, loc: &str, msg: &str) -> (e: LoxError)
        ensures
            e@ == LoxErrorView::Syntax(line as nat, loc@, msg@),
    {
        LoxError::Syntax { line, loc: string_of(loc), msg: string_of(msg) }
    }

    pub fn runtime(line: usize, msg: &str) -> (e: LoxError)
        ensures
            e@ == LoxErrorView::Runtime(line as nat, msg@),
    {
        LoxError::Runtime { line, msg: string_of(msg) }
    }

    /// A static-resolution error: reported like a compile-time error with
    /// no location text.
    pub fn resolve(line: usize, msg: &str) -> (e: LoxError)
        ensures
            e@ == LoxErrorView::Syntax(line as nat, Seq::empty(), msg@),
    {
        LoxError::Syntax { line, loc: String::new(), msg: string_of(msg) }
    }

    /// The rendered message.
    pub fn to_string(&self) -> (s: String)
        ensures
            s@ == self.text(),
    {
        match self {
            LoxError::Syntax { line, loc, msg } => {
                let mut s = string_of("[line ");
                push_decimal(&mut s, *line);
                s.append("] Error");
                s.append(loc.as_str());
                s.append(": ");
                s.append(msg.as_str());
                s
            },
            LoxError::Runtime { line, msg } => {
                let mut s = msg.clone();
                s.append("\n[line ");
                push_decimal(&mut s, *line);
                s.append("] in script");
                s
            },
        }
    }
}

} // verus!
