//! Small string helpers shared by the modules that render messages.

use vstd::prelude::*;

verus! {

/// The decimal digit character for `d` (expected to be below ten).
pub open spec fn digit_char(d: nat) -> char {
    ((d + 48) as u32) as char
}

/// Decimal rendering of a natural number, most significant digit first,
/// without leading zeros ("0" for zero).
pub open spec fn decimal(n: nat) -> Seq<char>
    decreases n,
{
    if n < 10 {
        seq![digit_char(n)]
    } else {
        decimal(n / 10).push(digit_char(n % 10))
    }
}

/// Appends one character to a string. Wraps std's `String::push`; the
/// contract, taken on trust, is that the string afterwards is the old one
/// with `c` at its end.
#[verifier::external_body]
pub(crate) fn push_char(s: &mut String, c: char)
    ensures
        final(s)@ == old(s)@.push(c),
{
    s.push(c);
}

/// A string holding the characters of `s`.
pub fn string_of(s: &str) -> (r: String)
    ensures
        r@ == s@,
{
    String::from_str(s)
}

/// Appends the decimal rendering of `n` to `out`.
pub fn push_decimal(out: &mut String, n: usize)
    ensures
        final(out)@ == old(out)@ + decimal(n as nat),
    decreases n,
{
    if n < 10 {
        let c = ((n as u8) + 48u8) as char;
        push_char(out, c);
        assert(old(out)@ + decimal(n as nat) =~= old(out)@.push(c));
    } else {
        push_decimal(out, n / 10);
        let d = n % 10;
        let c = ((d as u8) + 48u8) as char;
        let ghost mid = out@;
        push_char(out, c);
        assert(decimal(n as nat) == decimal((n / 10) as nat).push(digit_char((n % 10) as nat)));
        assert(old(out)@ + decimal(n as nat) =~= mid.push(c));
    }
}

/// The decimal rendering of `n` as a new string.
pub fn decimal_string(n: usize) -> (r: String)
    ensures
        r@ == decimal(n as nat),
{
    let mut s = String::new();
    push_decimal(&mut s, n);
    assert(Seq::<char>::empty() + decimal(n as nat) =~= decimal(n as nat));
    s
}

/// The characters of `s`, in order.
pub fn chars_of(s: &str) -> (v: Vec<char>)
    ensures
        v@ == s@,
{
    let mut v: Vec<char> = Vec::new();
    for c in it: s.chars()
        invariant
            v@ == it.seq().take(it.index() as int),
            it.seq() == s@,
    {
        v.push(c);
    }
    assert(v@ =~= s@);
    v
}

/// Appends every character of `chars[from..to]` to `out`.
pub fn push_chars(out: &mut String, chars: &Vec<char>, from: usize, to: usize)
    requires
        from <= to <= chars.len(),
    ensures
        final(out)@ == old(out)@ + chars@.subrange(from as int, to as int),
{
    let mut i = from;
    while i < to
        invariant
            from <= i <= to <= chars.len(),
            out@ == old(out)@ + chars@.subrange(from as int, i as int),
        decreases to - i,
    {
        push_char(out, chars[i]);
        i = i + 1;
        assert(chars@.subrange(from as int, i as int) =~= chars@.subrange(from as int, (i - 1) as int).push(chars@[i - 1]));
    }
}

/// A new string made of `chars[from..to]`.
pub fn string_from_chars(chars: &Vec<char>, from: usize, to: usize) -> (r: String)
    requires
        from <= to <= chars.len(),
    ensures
        r@ == chars@.subrange(from as int, to as int),
{
    let mut s = String::new();
    push_chars(&mut s, chars, from, to);
    assert(Seq::<char>::empty() + chars@.subrange(from as int, to as int) =~= chars@.subrange(from as int, to as int));
    s
}

} // verus!

verus! {

/// Whether `s` begins with `p`.
pub open spec fn has_prefix(s: Seq<char>, p: Seq<char>) -> bool {
    p.len() <= s.len() && s.subrange(0, p.len() as int) == p
}

/// Whether `needle` occurs in `hay`.
pub open spec fn occurs_in(hay: Seq<char>, needle: Seq<char>) -> bool {
    exists|i: int| 0 <= i && i + needle.len() <= hay.len() && #[trigger] hay.subrange(i, i + needle.len()) == needle
}

/// Whether `v[from..]` begins with `p`.
pub fn has_prefix_at(v: &Vec<char>, from: usize, p: &Vec<char>) -> (r: bool)
    requires
        from <= v.len(),
    ensures
        r == has_prefix(v@.subrange(from as int, v@.len() as int), p@),
{
    let ghost t = v@.subrange(from as int, v@.len() as int);
    if p.len() > v.len() - from {
        return false;
    }
    let mut i: usize = 0;
    while i < p.len()
        invariant
            from <= v.len(),
            p.len() <= v.len() - from,
            i <= p.len(),
            t == v@.subrange(from as int, v@.len() as int),
            forall|k: int| 0 <= k < i ==> v@[from + k] == p@[k],
        decreases p.len() - i,
    {
        if v[from + i] != p[i] {
            assert(t.subrange(0, p@.len() as int)[i as int] != p@[i as int]);
            return false;
        }
        i = i + 1;
    }
    assert(t.subrange(0, p@.len() as int) =~= p@);
    true
}

/// Whether `needle` occurs in `hay`.
pub fn contains_seq(hay: &Vec<char>, needle: &Vec<char>) -> (r: bool)
    ensures
        r == occurs_in(hay@, needle@),
{
    if needle.len() > hay.len() {
        return false;
    }
    if needle.len() == 0 {
        assert(hay@.subrange(0int, 0int + needle@.len()) =~= needle@);
        return true;
    }
    let mut i: usize = 0;
    while i <= hay.len() - needle.len()
        invariant
            1 <= needle.len() <= hay.len(),
            i <= hay.len() - needle.len() + 1,
            forall|j: int| 0 <= j < i ==> #[trigger] hay@.subrange(j, j + needle@.len()) != needle@,
        decreases hay.len() - needle.len() + 1 - i,
    {
        let m = has_prefix_at(hay, i, needle);
        if m {
            assert(hay@.subrange(i as int, hay@.len() as int).subrange(0, needle@.len() as int)
                =~= hay@.subrange(i as int, i + needle@.len()));
            return true;
        }
        assert(hay@.subrange(i as int, hay@.len() as int).subrange(0, needle@.len() as int)
            =~= hay@.subrange(i as int, i + needle@.len()));
        i = i + 1;
    }
    false
}

/// A new vector holding `v[from..to]`.
pub fn slice_of(v: &Vec<char>, from: usize, to: usize) -> (r: Vec<char>)
    requires
        from <= to <= v.len(),
    ensures
        r@ == v@.subrange(from as int, to as int),
{
    let mut r: Vec<char> = Vec::new();
    let mut i = from;
    while i < to
        invariant
            from <= i <= to <= v.len(),
            r@ == v@.subrange(from as int, i as int),
        decreases to - i,
    {
        r.push(v[i]);
        i = i + 1;
        assert(r@ =~= v@.subrange(from as int, i as int));
    }
    r
}

/// A string holding the characters of `v`.
pub fn string_of_chars(v: &Vec<char>) -> (r: String)
    ensures
        r@ == v@,
{
    let r = string_from_chars(v, 0, v.len());
    assert(v@.subrange(0, v@.len() as int) =~= v@);
    r
}

/// Strip a carriage return that ends a line.
pub open spec fn strip_cr(t: Seq<char>) -> Seq<char> {
    if t.len() > 0 && t.last() == '\r' {
        t.drop_last()
    } else {
        t
    }
}

/// The lines of `s` from position `pos` on, as `str::lines` splits them:
/// at `\n` or `\r\n`, with no empty line after a final line ending.
pub open spec fn lines_from(s: Seq<char>, pos: nat) -> Seq<Seq<char>>
    decreases s.len() - pos,
{
    if pos >= s.len() {
        Seq::empty()
    } else {
        let e = crate::lexical::line_end(s, pos);
        if e < s.len() {
            proof {
                crate::lexical::lemma_line_end_bounds(s, pos);
            }
            seq![strip_cr(s.subrange(pos as int, e as int))] + lines_from(s, e + 1)
        } else {
            seq![s.subrange(pos as int, s.len() as int)]
        }
    }
}

pub open spec fn lines_of(s: Seq<char>) -> Seq<Seq<char>> {
    lines_from(s, 0)
}

pub open spec fn char_vec_views(v: Seq<Vec<char>>) -> Seq<Seq<char>> {
    v.map_values(|l: Vec<char>| l@)
}

/// The lines of `s`.
pub fn split_lines(s: &Vec<char>) -> (r: Vec<Vec<char>>)
    ensures
        char_vec_views(r@) == lines_of(s@),
{
    let mut out: Vec<Vec<char>> = Vec::new();
    let mut pos: usize = 0;
    while pos < s.len()
        invariant
            pos <= s.len(),
            lines_of(s@) == char_vec_views(out@) + lines_from(s@, pos as nat),
        decreases s.len() - pos,
    {
        let e = crate::lexical::find_line_end(s, pos);
        proof {
            crate::lexical::lemma_line_end_bounds(s@, pos as nat);
        }
        let ghost before = char_vec_views(out@);
        if e < s.len() {
            let stop = if e > pos && s[e - 1] == '\r' { e - 1 } else { e };
            let line = slice_of(s, pos, stop);
            proof {
                assert(line@ == strip_cr(s@.subrange(pos as int, e as int)));
            }
            out.push(line);
            proof {
                assert(char_vec_views(out@) =~= before.push(strip_cr(s@.subrange(pos as int, e as int))));
                assert(before + lines_from(s@, pos as nat) =~= char_vec_views(out@) + lines_from(s@, (e + 1) as nat));
            }
            pos = e + 1;
        } else {
            let line = slice_of(s, pos, s.len());
            out.push(line);
            proof {
                assert(char_vec_views(out@) =~= before.push(s@.subrange(pos as int, s@.len() as int)));
                assert(lines_of(s@) =~= char_vec_views(out@));
                assert(lines_from(s@, s@.len() as nat) =~= Seq::<Seq<char>>::empty());
                assert(char_vec_views(out@) + lines_from(s@, s@.len() as nat) =~= char_vec_views(out@));
            }
            pos = s.len();
        }
    }
    proof {
        assert(char_vec_views(out@) + lines_from(s@, pos as nat) =~= char_vec_views(out@));
    }
    out
}

} // verus!

verus! {

/// Text of a signed integer.
pub open spec fn int_text(x: int) -> Seq<char> {
    if x < 0 {
        seq!['-'] + decimal((-x) as nat)
    } else {
        decimal(x as nat)
    }
}

/// Appends the text of `x` to `out`.
pub fn push_int(out: &mut String, x: i32)
    ensures
        final(out)@ == old(out)@ + int_text(x as int),
{
    if x < 0 {
        push_char(out, '-');
        let m = (-(x as i64)) as usize;
        let ghost mid = out@;
        push_decimal(out, m);
        assert(old(out)@ + int_text(x as int) =~= mid + decimal(m as nat));
    } else {
        push_decimal(out, x as usize);
    }
}

/// What `{:?}` shows for a string: the text in double quotes, with quotes,
/// backslashes and unprintable characters escaped.
pub uninterp spec fn debug_quoted(s: Seq<char>) -> Seq<char>;

/// The `{:?}` rendering of `s`. Wraps `format!` with std's `Debug` for
/// `str`; the contract, taken on trust, is only that the result is
/// `debug_quoted(s)`, a name for that rendering (quotes around `s` with its
/// special characters escaped), which no clause spells out.
#[verifier::external_body]
fn quoted(s: &str) -> (r: String)
    ensures
        r@ == debug_quoted(s@),
{
    format!("{:?}", s)
}

/// Appends the `{:?}` rendering of `s` to `out`.
pub fn push_quoted(out: &mut String, s: &str)
    ensures
        final(out)@ == old(out)@ + debug_quoted(s@),
{
    let q = quoted(s);
    out.append(q.as_str());
}

} // verus!
