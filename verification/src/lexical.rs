//! Character classes and lexeme extents shared by both scanners.

use vstd::prelude::*;

verus! {

pub open spec fn spec_is_digit(c: char) -> bool {
    '0' <= c && c <= '9'
}

pub open spec fn spec_is_alpha(c: char) -> bool {
    ('a' <= c && c <= 'z') || ('A' <= c && c <= 'Z') || c == '_'
}

pub open spec fn spec_is_alphanumeric(c: char) -> bool {
    spec_is_alpha(c) || spec_is_digit(c)
}

/// ASCII decimal digit.
pub fn is_digit(c: char) -> (r: bool)
    ensures
        r == spec_is_digit(c),
{
    '0' <= c && c <= '9'
}

/// ASCII letter or underscore.
pub fn is_alpha(c: char) -> (r: bool)
    ensures
        r == spec_is_alpha(c),
{
    ('a' <= c && c <= 'z') || ('A' <= c && c <= 'Z') || c == '_'
}

/// Letter, underscore or digit.
pub fn is_alphanumeric(c: char) -> (r: bool)
    ensures
        r == spec_is_alphanumeric(c),
{
    is_alpha(c) || is_digit(c)
}

/// First index at or after `i` that does not hold a digit.
pub open spec fn digits_end(s: Seq<char>, i: nat) -> nat
    decreases s.len() - i,
{
    if i < s.len() && spec_is_digit(s[i as int]) {
        digits_end(s, i + 1)
    } else {
        i
    }
}

/// First index at or after `i` that does not hold a letter, digit or `_`.
pub open spec fn word_end(s: Seq<char>, i: nat) -> nat
    decreases s.len() - i,
{
    if i < s.len() && spec_is_alphanumeric(s[i as int]) {
        word_end(s, i + 1)
    } else {
        i
    }
}

/// First index at or after `i` that holds a newline, or the length.
pub open spec fn line_end(s: Seq<char>, i: nat) -> nat
    decreases s.len() - i,
{
    if i < s.len() && s[i as int] != '\n' {
        line_end(s, i + 1)
    } else {
        i
    }
}

/// First index at or after `i` that holds a double quote, or the length.
pub open spec fn quote_end(s: Seq<char>, i: nat) -> nat
    decreases s.len() - i,
{
    if i < s.len() && s[i as int] != '"' {
        quote_end(s, i + 1)
    } else {
        i
    }
}

/// End of a number literal whose integer part starts at `i`: the digits,
/// then a `.` and more digits only when a digit follows the dot.
pub open spec fn number_end(s: Seq<char>, i: nat) -> nat {
    let e = digits_end(s, i);
    if e + 1 < s.len() && s[e as int] == '.' && spec_is_digit(s[e + 1 as int]) {
        digits_end(s, e + 1)
    } else {
        e
    }
}

/// Number of newlines in `s[a..b]`.
pub open spec fn newlines(s: Seq<char>, a: nat, b: nat) -> nat
    decreases b - a,
{
    if a >= b {
        0
    } else if s[a as int] == '\n' {
        1 + newlines(s, a + 1, b)
    } else {
        newlines(s, a + 1, b)
    }
}

pub proof fn lemma_digits_end_bounds(s: Seq<char>, i: nat)
    requires
        i <= s.len(),
    ensures
        i <= digits_end(s, i) <= s.len(),
        forall|k: int| i <= k < digits_end(s, i) ==> spec_is_digit(#[trigger] s[k]),
        digits_end(s, i) < s.len() ==> !spec_is_digit(s[digits_end(s, i) as int]),
    decreases s.len() - i,
{
    if i < s.len() && spec_is_digit(s[i as int]) {
        lemma_digits_end_bounds(s, i + 1);
    }
}

pub proof fn lemma_word_end_bounds(s: Seq<char>, i: nat)
    requires
        i <= s.len(),
    ensures
        i <= word_end(s, i) <= s.len(),
    decreases s.len() - i,
{
    if i < s.len() && spec_is_alphanumeric(s[i as int]) {
        lemma_word_end_bounds(s, i + 1);
    }
}

pub proof fn lemma_line_end_bounds(s: Seq<char>, i: nat)
    requires
        i <= s.len(),
    ensures
        i <= line_end(s, i) <= s.len(),
    decreases s.len() - i,
{
    if i < s.len() && s[i as int] != '\n' {
        lemma_line_end_bounds(s, i + 1);
    }
}

pub proof fn lemma_quote_end_bounds(s: Seq<char>, i: nat)
    requires
        i <= s.len(),
    ensures
        i <= quote_end(s, i) <= s.len(),
        quote_end(s, i) < s.len() ==> s[quote_end(s, i) as int] == '"',
    decreases s.len() - i,
{
    if i < s.len() && s[i as int] != '"' {
        lemma_quote_end_bounds(s, i + 1);
    }
}

pub proof fn lemma_number_end_bounds(s: Seq<char>, i: nat)
    requires
        i <= s.len(),
    ensures
        i <= number_end(s, i) <= s.len(),
{
    lemma_digits_end_bounds(s, i);
    let e = digits_end(s, i);
    if e + 1 < s.len() && s[e as int] == '.' && spec_is_digit(s[e + 1 as int]) {
        lemma_digits_end_bounds(s, e + 1);
    }
}

pub proof fn lemma_newlines_step(s: Seq<char>, a: nat, b: nat)
    requires
        a <= b,
        b < s.len(),
    ensures
        newlines(s, a, b + 1) == newlines(s, a, b) + if s[b as int] == '\n' { 1nat } else { 0nat },
    decreases b - a,
{
    if a < b {
        lemma_newlines_step(s, a + 1, b);
        assert(newlines(s, a, b + 1) == (if s[a as int] == '\n' { 1nat } else { 0nat }) + newlines(s, a + 1, b + 1));
    } else {
        assert(newlines(s, b + 1, b + 1) == 0);
    }
}

pub proof fn lemma_newlines_bound(s: Seq<char>, a: nat, b: nat)
    ensures
        newlines(s, a, b) <= if a <= b { b - a } else { 0 },
    decreases b - a,
{
    if a < b {
        lemma_newlines_bound(s, a + 1, b);
    }
}

/// `digits_end` computed.
pub fn find_digits_end(s: &Vec<char>, i: usize) -> (e: usize)
    requires
        i <= s.len(),
    ensures
        e == digits_end(s@, i as nat),
{
    let mut j = i;
    while j < s.len() && is_digit(s[j])
        invariant
            i <= j <= s.len(),
            digits_end(s@, j as nat) == digits_end(s@, i as nat),
        decreases s.len() - j,
    {
        j = j + 1;
    }
    j
}

/// `word_end` computed.
pub fn find_word_end(s: &Vec<char>, i: usize) -> (e: usize)
    requires
        i <= s.len(),
    ensures
        e == word_end(s@, i as nat),
{
    let mut j = i;
    while j < s.len() && is_alphanumeric(s[j])
        invariant
            i <= j <= s.len(),
            word_end(s@, j as nat) == word_end(s@, i as nat),
        decreases s.len() - j,
    {
        j = j + 1;
    }
    j
}

/// `line_end` computed.
pub fn find_line_end(s: &Vec<char>, i: usize) -> (e: usize)
    requires
        i <= s.len(),
    ensures
        e == line_end(s@, i as nat),
{
    let mut j = i;
    while j < s.len() && s[j] != '\n'
        invariant
            i <= j <= s.len(),
            line_end(s@, j as nat) == line_end(s@, i as nat),
        decreases s.len() - j,
    {
        j = j + 1;
    }
    j
}

/// `number_end` computed.
pub fn find_number_end(s: &Vec<char>, i: usize) -> (e: usize)
    requires
        i <= s.len(),
    ensures
        e == number_end(s@, i as nat),
{
    let e = find_digits_end(s, i);
    proof { lemma_digits_end_bounds(s@, i as nat); }
    if e < s.len() && e + 1 < s.len() && s[e] == '.' && is_digit(s[e + 1]) {
        find_digits_end(s, e + 1)
    } else {
        e
    }
}

/// `quote_end` computed, together with the number of newlines passed.
pub fn find_quote_end(s: &Vec<char>, i: usize) -> (r: (usize, usize))
    requires
        i <= s.len(),
    ensures
        r.0 == quote_end(s@, i as nat),
        r.1 == newlines(s@, i as nat, r.0 as nat),
{
    let mut j = i;
    let mut n: usize = 0;
    while j < s.len() && s[j] != '"'
        invariant
            i <= j <= s.len(),
            quote_end(s@, j as nat) == quote_end(s@, i as nat),
            n == newlines(s@, i as nat, j as nat),
            n <= j - i,
        decreases s.len() - j,
    {
        proof {
            lemma_newlines_step(s@, i as nat, j as nat);
        }
        if s[j] == '\n' {
            n = n + 1;
        }
        j = j + 1;
    }
    (j, n)
}

/// Whether `s[a..b]` spells the word `w`.
pub fn word_eq(s: &Vec<char>, a: usize, b: usize, w: &[char]) -> (r: bool)
    requires
        a <= b <= s.len(),
    ensures
        r == (s@.subrange(a as int, b as int) == w@),
{
    if b - a != w.len() {
        return false;
    }
    let mut i: usize = 0;
    while i < w.len()
        invariant
            b - a == w.len(),
            a <= b <= s.len(),
            i <= w.len(),
            forall|k: int| 0 <= k < i ==> s@[a + k] == w@[k],
        decreases w.len() - i,
    {
        if s[a + i] != w[i] {
            assert(s@.subrange(a as int, b as int)[i as int] != w@[i as int]);
            return false;
        }
        i = i + 1;
    }
    assert(s@.subrange(a as int, b as int) =~= w@);
    true
}

} // verus!
