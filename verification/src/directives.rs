//! Expectation comments of the Lox script suite: what a script states it
//! prints and which errors it expects.
//!
//! A script states what it expects in line comments:
//! `// expect: <text>` (a line of standard output, in order),
//! `// expect runtime error: <msg>`, `// [line N] Error ...`,
//! `// [java line N] Error ...` and `// [c line N] Error ...` (compile
//! errors for one front end only), and `// Error ...` (a compile error on
//! the comment's own line).

use vstd::prelude::*;
use crate::lexical::spec_is_digit;
use crate::text::{
    chars_of, has_prefix, has_prefix_at, lines_of, slice_of, split_lines, string_of_chars,
    char_vec_views,
};

verus! {

/// One expectation of a script.
#[derive(Debug, Clone, PartialEq, Eq)]
pub enum Expect {
    /// A line of standard output.
    Stdout(String),
    /// A runtime error whose message standard error contains.
    RuntimeError(String),
    /// A compile error; `msg` starts with `Error`.
    CompileError { line: usize, msg: String },
}

pub enum ExpectView {
    Stdout(Seq<char>),
    RuntimeError(Seq<char>),
    CompileError(nat, Seq<char>),
}

impl View for Expect {
    type V = ExpectView;

    open spec fn view(&self) -> ExpectView {
        match self {
            Expect::Stdout(s) => ExpectView::Stdout(s@),
            Expect::RuntimeError(s) => ExpectView::RuntimeError(s@),
            Expect::CompileError { line, msg } => ExpectView::CompileError(*line as nat, msg@),
        }
    }
}

/// A directive with the front end it is meant for (`java` for the tree
/// walker, `c` for the bytecode machine, none for both).
pub open spec fn directive_view(d: (Option<&'static str>, Expect)) -> (Option<Seq<char>>, ExpectView) {
    (
        match d.0 {
            Some(t) => Some(t@),
            None => None,
        },
        d.1@,
    )
}

pub open spec fn directive_views(v: Seq<(Option<&'static str>, Expect)>) -> Seq<(Option<Seq<char>>, ExpectView)> {
    v.map_values(|d: (Option<&'static str>, Expect)| directive_view(d))
}

pub open spec fn expect_views(v: Seq<Expect>) -> Seq<ExpectView> {
    v.map_values(|e: Expect| e@)
}

/// Unicode white space, as `char::is_whitespace` defines it.
pub open spec fn spec_is_whitespace(c: char) -> bool {
    ||| c == '\t' || c == '\n' || c == '\u{0B}' || c == '\u{0C}' || c == '\r' || c == ' '
    ||| c == '\u{85}' || c == '\u{A0}' || c == '\u{1680}'
    ||| ('\u{2000}' <= c && c <= '\u{200A}')
    ||| c == '\u{2028}' || c == '\u{2029}' || c == '\u{202F}' || c == '\u{205F}' || c == '\u{3000}'
}

fn is_whitespace(c: char) -> (r: bool)
    ensures
        r == spec_is_whitespace(c),
{
    c == '\t' || c == '\n' || c == '\u{0B}' || c == '\u{0C}' || c == '\r' || c == ' '
        || c == '\u{85}' || c == '\u{A0}' || c == '\u{1680}' || ('\u{2000}' <= c && c <= '\u{200A}')
        || c == '\u{2028}' || c == '\u{2029}' || c == '\u{202F}' || c == '\u{205F}' || c == '\u{3000}'
}

/// First index at or after `i` that is not white space.
pub open spec fn blank_end(t: Seq<char>, i: nat) -> nat
    decreases t.len() - i,
{
    if i < t.len() && spec_is_whitespace(t[i as int]) {
        blank_end(t, i + 1)
    } else {
        i
    }
}

/// Start of a `//` comment that is not inside a string literal, scanning
/// from `i` with `in_str` telling whether a string is open.
pub open spec fn comment_from(l: Seq<char>, i: nat, in_str: bool) -> Option<nat>
    decreases l.len() - i,
{
    if i + 1 >= l.len() {
        None
    } else if l[i as int] == '"' {
        comment_from(l, i + 1, !in_str)
    } else if !in_str && l[i as int] == '/' && l[i + 1 as int] == '/' {
        Some(i)
    } else {
        comment_from(l, i + 1, in_str)
    }
}

/// Value of a string of decimal digits.
pub open spec fn digits_value(d: Seq<char>) -> nat
    decreases d.len(),
{
    if d.len() == 0 {
        0
    } else {
        digits_value(d.drop_last()) * 10 + ((d.last() as nat) - 48) as nat
    }
}

/// The text after an optional leading `+`.
pub open spec fn unsigned_part(t: Seq<char>) -> Seq<char> {
    if t.len() > 0 && t[0] == '+' { t.drop_first() } else { t }
}

pub open spec fn all_digits(d: Seq<char>) -> bool {
    forall|k: int| 0 <= k < d.len() ==> spec_is_digit(#[trigger] d[k])
}

/// `str::parse::<usize>`: an optional `+`, then one or more digits, with a
/// value that fits.
pub open spec fn parse_usize(t: Seq<char>) -> Option<nat> {
    let d = unsigned_part(t);
    if d.len() > 0 && all_digits(d) && digits_value(d) <= usize::MAX {
        Some(digits_value(d))
    } else {
        None
    }
}

/// First position of `"] "` in `t`.
pub open spec fn separator_from(t: Seq<char>, i: nat) -> Option<nat>
    decreases t.len() - i,
{
    if i + 1 >= t.len() {
        None
    } else if t[i as int] == ']' && t[i + 1 as int] == ' ' {
        Some(i)
    } else {
        separator_from(t, i + 1)
    }
}

/// `<prefix>N] Error...`: the line number and the text from `Error` on.
pub open spec fn bracketed(c: Seq<char>, prefix: Seq<char>) -> Option<(nat, Seq<char>)> {
    if has_prefix(c, prefix) {
        let rest = c.subrange(prefix.len() as int, c.len() as int);
        match separator_from(rest, 0) {
            Some(j) => {
                let after = rest.subrange(j + 2 as int, rest.len() as int);
                match parse_usize(rest.subrange(0, j as int)) {
                    Some(n) => if has_prefix(after, "Error"@) {
                        Some((n, after))
                    } else {
                        None
                    },
                    None => None,
                }
            },
            None => None,
        }
    } else {
        None
    }
}

/// The directive of a comment body `c` on line `n`, if any.
pub open spec fn classify(c: Seq<char>, n: nat) -> Option<(Option<Seq<char>>, ExpectView)> {
    if has_prefix(c, "expect: "@) {
        Some((None, ExpectView::Stdout(c.subrange("expect: "@.len() as int, c.len() as int))))
    } else if c == "expect:"@ {
        Some((None, ExpectView::Stdout(Seq::empty())))
    } else if has_prefix(c, "expect runtime error: "@) {
        Some((None, ExpectView::RuntimeError(c.subrange("expect runtime error: "@.len() as int, c.len() as int))))
    } else if let Some((k, after)) = bracketed(c, "[line "@) {
        Some((None, ExpectView::CompileError(k, after)))
    } else if let Some((k, after)) = bracketed(c, "[java line "@) {
        Some((Some("java"@), ExpectView::CompileError(k, after)))
    } else if let Some((k, after)) = bracketed(c, "[c line "@) {
        Some((Some("c"@), ExpectView::CompileError(k, after)))
    } else if has_prefix(c, "Error"@) {
        Some((None, ExpectView::CompileError(n, c)))
    } else {
        None
    }
}

/// The directive of source line `l` (numbered `n`), if any.
pub open spec fn directive_of(l: Seq<char>, n: nat) -> Option<(Option<Seq<char>>, ExpectView)> {
    match comment_from(l, 0, false) {
        Some(i) => {
            let body = l.subrange(i + 2 as int, l.len() as int);
            classify(body.subrange(blank_end(body, 0) as int, body.len() as int), n)
        },
        None => None,
    }
}

/// The directives of `lines[i..]`, where `lines[i]` is source line `i + 1`.
pub open spec fn directives_from(lines: Seq<Seq<char>>, i: nat) -> Seq<(Option<Seq<char>>, ExpectView)>
    decreases lines.len() - i,
{
    if i >= lines.len() {
        Seq::empty()
    } else {
        let here = match directive_of(lines[i as int], i + 1) {
            Some(d) => seq![d],
            None => Seq::empty(),
        };
        here + directives_from(lines, i + 1)
    }
}

/// All directives of a source text, in source order.
pub open spec fn spec_extract_tagged(source: Seq<char>) -> Seq<(Option<Seq<char>>, ExpectView)> {
    directives_from(lines_of(source), 0)
}

// ---------------------------------------------------------------------------

fn blank_end_at(t: &Vec<char>, i: usize) -> (e: usize)
    requires
        i <= t.len(),
    ensures
        e == blank_end(t@, i as nat),
        i <= e <= t.len(),
{
    let mut j = i;
    while j < t.len() && is_whitespace(t[j])
        invariant
            i <= j <= t.len(),
            blank_end(t@, j as nat) == blank_end(t@, i as nat),
        decreases t.len() - j,
    {
        j = j + 1;
    }
    j
}

/// Locate the start of a line comment (`//`) that is not inside a string
/// literal.
fn find_comment(l: &Vec<char>) -> (r: Option<usize>)
    ensures
        match r {
            Some(i) => comment_from(l@, 0, false) == Some(i as nat) && i + 1 < l.len(),
            None => comment_from(l@, 0, false) is None,
        },
{
    let mut i: usize = 0;
    let mut in_string = false;
    while l.len() > 0 && i < l.len() - 1
        invariant
            i <= l.len(),
            comment_from(l@, i as nat, in_string) == comment_from(l@, 0, false),
        decreases l.len() - i,
    {
        let c = l[i];
        if c == '"' {
            in_string = !in_string;
        } else if !in_string && c == '/' && l[i + 1] == '/' {
            return Some(i);
        }
        i = i + 1;
    }
    None
}

fn find_separator(t: &Vec<char>, from: usize) -> (r: Option<usize>)
    requires
        from <= t.len(),
    ensures
        match r {
            Some(j) => separator_from(t@.subrange(from as int, t@.len() as int), 0) == Some((j - from) as nat)
                && from <= j && j + 1 < t.len(),
            None => separator_from(t@.subrange(from as int, t@.len() as int), 0) is None,
        },
{
    let ghost r0 = t@.subrange(from as int, t@.len() as int);
    let mut i = from;
    while t.len() > 0 && i < t.len() - 1
        invariant
            from <= i <= t.len(),
            r0 == t@.subrange(from as int, t@.len() as int),
            separator_from(r0, (i - from) as nat) == separator_from(r0, 0),
        decreases t.len() - i,
    {
        if t[i] == ']' && t[i + 1] == ' ' {
            return Some(i);
        }
        i = i + 1;
    }
    None
}

proof fn lemma_digits_value_push(d: Seq<char>, c: char)
    ensures
        digits_value(d.push(c)) == digits_value(d) * 10 + ((c as nat) - 48) as nat,
{
    assert(d.push(c).drop_last() =~= d);
}

/// Parse `t[a..b]` as `str::parse::<usize>` does.
fn parse_usize_at(t: &Vec<char>, a: usize, b: usize) -> (r: Option<usize>)
    requires
        a <= b <= t.len(),
    ensures
        match r {
            Some(n) => parse_usize(t@.subrange(a as int, b as int)) == Some(n as nat),
            None => parse_usize(t@.subrange(a as int, b as int)) is None,
        },
{
    let ghost s = t@.subrange(a as int, b as int);
    let mut i = a;
    if i < b && t[i] == '+' {
        i = i + 1;
    }
    let ghost d = t@.subrange(i as int, b as int);
    proof {
        if a < b && t@[a as int] == '+' {
            assert(d =~= s.drop_first());
        } else {
            assert(d =~= s);
        }
    }
    if i == b {
        return None;
    }
    let start = i;
    let mut value: usize = 0;
    while i < b
        invariant
            a <= start <= i <= b <= t.len(),
            s == t@.subrange(a as int, b as int),
            d == unsigned_part(s),
            d == t@.subrange(start as int, b as int),
            start < b,
            forall|k: int| start <= k < i ==> spec_is_digit(#[trigger] t@[k]),
            value as nat == digits_value(t@.subrange(start as int, i as int)),
        decreases b - i,
    {
        let c = t[i];
        if !('0' <= c && c <= '9') {
            proof {
                let k = (i - start) as int;
                assert(d[k] == c);
                assert(!spec_is_digit(d[k]));
                assert(!all_digits(d));
            }
            return None;
        }
        let digit = (c as u32 - 48) as usize;
        proof {
            lemma_digits_value_push(t@.subrange(start as int, i as int), c);
            assert(t@.subrange(start as int, i as int).push(c) =~= t@.subrange(start as int, i + 1));
        }
        if value > (usize::MAX - digit) / 10 {
            proof {
                assert(digits_value(t@.subrange(start as int, i + 1)) > usize::MAX);
                lemma_digits_value_prefix(d, (i + 1 - start) as nat);
                assert(d.subrange(0, (i + 1 - start) as int) =~= t@.subrange(start as int, i + 1));
            }
            return None;
        }
        value = value * 10 + digit;
        i = i + 1;
    }
    assert(t@.subrange(start as int, b as int) =~= d);
    Some(value)
}

/// The value of a digit string is at least that of any prefix.
proof fn lemma_digits_value_prefix(d: Seq<char>, k: nat)
    requires
        k <= d.len(),
    ensures
        digits_value(d.subrange(0, k as int)) <= digits_value(d),
    decreases d.len() - k,
{
    if k < d.len() {
        lemma_digits_value_prefix(d, k + 1);
        let p = d.subrange(0, k as int + 1);
        assert(p.drop_last() =~= d.subrange(0, k as int));
    } else {
        assert(d.subrange(0, k as int) =~= d);
    }
}

/// Split `t[from..]` as `<prefix>N] Error...`.
fn bracketed_at(t: &Vec<char>, from: usize, prefix: &Vec<char>) -> (r: Option<(usize, Vec<char>)>)
    requires
        from <= t.len(),
    ensures
        match r {
            Some((n, after)) => bracketed(t@.subrange(from as int, t@.len() as int), prefix@) == Some((n as nat, after@)),
            None => bracketed(t@.subrange(from as int, t@.len() as int), prefix@) is None,
        },
{
    let ghost c = t@.subrange(from as int, t@.len() as int);
    if !has_prefix_at(t, from, prefix) {
        return None;
    }
    let rs = from + prefix.len();
    let ghost rest = c.subrange(prefix@.len() as int, c.len() as int);
    assert(rest =~= t@.subrange(rs as int, t@.len() as int));
    match find_separator(t, rs) {
        Some(j) => {
            let after = slice_of(t, j + 2, t.len());
            assert(after@ =~= rest.subrange((j - rs) + 2, rest.len() as int));
            let error_word = chars_of("Error");
            let starts = has_prefix_at(&after, 0, &error_word);
            assert(after@.subrange(0, after@.len() as int) =~= after@);
            assert(t@.subrange(rs as int, j as int) =~= rest.subrange(0, (j - rs) as int));
            match parse_usize_at(t, rs, j) {
                Some(n) => if starts {
                    Some((n, after))
                } else {
                    None
                },
                None => None,
            }
        },
        None => None,
    }
}

/// The directive of a comment body `c[from..]` on line `n`.
fn classify_at(c: &Vec<char>, from: usize, n: usize) -> (r: Option<(Option<&'static str>, Expect)>)
    requires
        from <= c.len(),
    ensures
        match r {
            Some(d) => classify(c@.subrange(from as int, c@.len() as int), n as nat) == Some(directive_view(d)),
            None => classify(c@.subrange(from as int, c@.len() as int), n as nat) is None,
        },
{
    let ghost body = c@.subrange(from as int, c@.len() as int);
    let p1 = chars_of("expect: ");
    if has_prefix_at(c, from, &p1) {
        let rest = slice_of(c, from + p1.len(), c.len());
        assert(rest@ =~= body.subrange("expect: "@.len() as int, body.len() as int));
        return Some((None, Expect::Stdout(string_of_chars(&rest))));
    }
    let p2 = chars_of("expect:");
    if has_prefix_at(c, from, &p2) && from + p2.len() == c.len() {
        assert(body =~= body.subrange(0, p2@.len() as int));
        return Some((None, Expect::Stdout(String::new())));
    }
    proof {
        if body == "expect:"@ {
            assert(body.subrange(0, p2@.len() as int) =~= body);
        }
    }
    let p3 = chars_of("expect runtime error: ");
    if has_prefix_at(c, from, &p3) {
        let rest = slice_of(c, from + p3.len(), c.len());
        assert(rest@ =~= body.subrange("expect runtime error: "@.len() as int, body.len() as int));
        return Some((None, Expect::RuntimeError(string_of_chars(&rest))));
    }
    let p4 = chars_of("[line ");
    if let Some((k, after)) = bracketed_at(c, from, &p4) {
        return Some((None, Expect::CompileError { line: k, msg: string_of_chars(&after) }));
    }
    let p5 = chars_of("[java line ");
    if let Some((k, after)) = bracketed_at(c, from, &p5) {
        return Some((Some("java"), Expect::CompileError { line: k, msg: string_of_chars(&after) }));
    }
    let p6 = chars_of("[c line ");
    if let Some((k, after)) = bracketed_at(c, from, &p6) {
        return Some((Some("c"), Expect::CompileError { line: k, msg: string_of_chars(&after) }));
    }
    let p7 = chars_of("Error");
    if has_prefix_at(c, from, &p7) {
        let rest = slice_of(c, from, c.len());
        return Some((None, Expect::CompileError { line: n, msg: string_of_chars(&rest) }));
    }
    None
}

/// The directive of source line `l` (numbered `n`), if any.
fn directive_at(l: &Vec<char>, n: usize) -> (r: Option<(Option<&'static str>, Expect)>)
    ensures
        match r {
            Some(d) => directive_of(l@, n as nat) == Some(directive_view(d)),
            None => directive_of(l@, n as nat) is None,
        },
{
    match find_comment(l) {
        Some(i) => {
            let body = slice_of(l, i + 2, l.len());
            let k = blank_end_at(&body, 0);
            classify_at(&body, k, n)
        },
        None => None,
    }
}

/// Every directive of `source` with its tag (`Some("java")` and
/// `Some("c")` for the directives meant for one front end), in source order.
pub fn extract_tagged(source: &str) -> (r: Vec<(Option<&'static str>, Expect)>)
    requires
        lines_of(source@).len() < usize::MAX,
    ensures
        directive_views(r@) == spec_extract_tagged(source@),
{
    let chars = chars_of(source);
    let lines = split_lines(&chars);
    let mut out: Vec<(Option<&'static str>, Expect)> = Vec::new();
    let mut i: usize = 0;
    while i < lines.len()
        invariant
            i <= lines.len(),
            char_vec_views(lines@) == lines_of(source@),
            lines@.len() < usize::MAX,
            spec_extract_tagged(source@) == directive_views(out@) + directives_from(lines_of(source@), i as nat),
        decreases lines.len() - i,
    {
        let ghost before = directive_views(out@);
        let ghost views = char_vec_views(lines@);
        assert(views[i as int] == lines@[i as int]@);
        match directive_at(&lines[i], i + 1) {
            Some(d) => {
                let ghost dv = directive_view(d);
                out.push(d);
                assert(directive_views(out@) =~= before.push(dv));
                assert(before + directives_from(views, i as nat) =~= directive_views(out@)
                    + directives_from(views, (i + 1) as nat));
            },
            None => {
                assert(before + directives_from(views, i as nat) =~= before + directives_from(
                    views,
                    (i + 1) as nat,
                ));
            },
        }
        i = i + 1;
    }
    assert(directive_views(out@) + directives_from(lines_of(source@), i as nat) =~= directive_views(out@));
    out
}

/// The directives of `source`, without their tags.
pub fn extract(source: &str) -> (r: Vec<Expect>)
    requires
        lines_of(source@).len() < usize::MAX,
    ensures
        expect_views(r@) == spec_extract_tagged(source@).map_values(|d: (Option<Seq<char>>, ExpectView)| d.1),
{
    let tagged = extract_tagged(source);
    let mut out: Vec<Expect> = Vec::new();
    let mut i: usize = 0;
    while i < tagged.len()
        invariant
            i <= tagged.len(),
            directive_views(tagged@) == spec_extract_tagged(source@),
            expect_views(out@) =~= directive_views(tagged@).take(i as int).map_values(
                |d: (Option<Seq<char>>, ExpectView)| d.1,
            ),
        decreases tagged.len() - i,
    {
        let ghost prev = expect_views(out@);
        let e = tagged[i].1.clone_expect();
        let ghost ev = e@;
        out.push(e);
        proof {
            let dv = directive_views(tagged@);
            assert(dv[i as int] == directive_view(tagged@[i as int]));
            assert(expect_views(out@) =~= prev.push(ev));
            assert(dv.take(i + 1).map_values(|d: (Option<Seq<char>>, ExpectView)| d.1) =~= dv.take(
                i as int,
            ).map_values(|d: (Option<Seq<char>>, ExpectView)| d.1).push(ev));
        }
        i = i + 1;
    }
    assert(directive_views(tagged@).take(i as int) =~= directive_views(tagged@));
    out
}

impl Expect {
    pub fn clone_expect(&self) -> (r: Expect)
        ensures
            r@ == self@,
    {
        match self {
            Expect::Stdout(s) => Expect::Stdout(s.clone()),
            Expect::RuntimeError(s) => Expect::RuntimeError(s.clone()),
            Expect::CompileError { line, msg } => Expect::CompileError { line: *line, msg: msg.clone() },
        }
    }
}

} // verus!
