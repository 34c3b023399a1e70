//! The script-suite runner's decisions: which scripts run for which front
//! end, which expectations apply, and whether a finished run meets them.
//! Spawning the front end and reading files stay with the caller.

use vstd::prelude::*;
use crate::directives::{Expect, ExpectView, expect_views};
use crate::text::{
    chars_of, contains_seq, decimal, has_prefix, has_prefix_at, lines_of, occurs_in, push_char,
    push_decimal, split_lines, string_of, string_of_chars, char_vec_views, debug_quoted, int_text,
    push_int, push_quoted,
};

verus! {

/// Which front end(s) a run targets.
#[derive(Debug, Clone, Copy, PartialEq, Eq, Structural)]
pub enum Target {
    Tree,
    Vm,
    Both,
}

/// One front end.
#[derive(Debug, Clone, Copy, PartialEq, Eq, Structural)]
pub enum TargetKind {
    Tree,
    Vm,
}

impl TargetKind {
    /// The name shown in reports.
    pub fn label(self) -> (s: &'static str)
        ensures
            s@ == (match self {
                TargetKind::Tree => "rlox-tree"@,
                TargetKind::Vm => "rlox-vm"@,
            }),
    {
        match self {
            TargetKind::Tree => "rlox-tree",
            TargetKind::Vm => "rlox-vm",
        }
    }

    /// The file name of the front end's program.
    pub fn binary_name(self) -> (s: &'static str)
        ensures
            s@ == (match self {
                TargetKind::Tree => "rlox-tree"@,
                TargetKind::Vm => "rlox-vm"@,
            }),
    {
        match self {
            TargetKind::Tree => "rlox-tree",
            TargetKind::Vm => "rlox-vm",
        }
    }
}

/// Scripts (by path below the cases directory) that never run, and those
/// that do not run on the tree walker.
pub open spec fn spec_should_skip(rel: Seq<char>, target: Target) -> bool {
    ||| has_prefix(rel, "benchmark/"@)
    ||| has_prefix(rel, "scanning/"@)
    ||| has_prefix(rel, "expressions/"@)
    ||| has_prefix(rel, "limit/loop_too_large.lox"@)
    ||| (target == Target::Tree && has_prefix(rel, "limit/"@))
}

fn starts_with(s: &Vec<char>, p: &str) -> (r: bool)
    ensures
        r == has_prefix(s@, p@),
{
    let pv = chars_of(p);
    let r = has_prefix_at(s, 0, &pv);
    assert(s@.subrange(0, s@.len() as int) =~= s@);
    r
}

/// Whether the script at `rel_path` is skipped for `target`.
pub fn should_skip(rel_path: &str, target: Target) -> (r: bool)
    ensures
        r == spec_should_skip(rel_path@, target),
{
    let rel = chars_of(rel_path);
    if starts_with(&rel, "benchmark/") || starts_with(&rel, "scanning/") || starts_with(&rel, "expressions/")
        || starts_with(&rel, "limit/loop_too_large.lox") {
        return true;
    }
    match target {
        Target::Tree => starts_with(&rel, "limit/"),
        Target::Vm => false,
        Target::Both => false,
    }
}

fn same_text(a: &str, b: &str) -> (r: bool)
    ensures
        r == (a@ == b@),
{
    let av = chars_of(a);
    let bv = chars_of(b);
    if av.len() != bv.len() {
        return false;
    }
    let r = has_prefix_at(&av, 0, &bv);
    assert(av@.subrange(0, av@.len() as int) =~= av@);
    proof {
        if r {
            assert(av@.subrange(0, bv@.len() as int) =~= av@);
        }
    }
    r
}

/// Whether a directive with `tag` applies to `kind`: untagged ones always,
/// `java` ones to the tree walker, `c` ones to the bytecode machine.
pub open spec fn applies(tag: Option<Seq<char>>, kind: TargetKind) -> bool {
    match tag {
        None => true,
        Some(t) => (t == "java"@ && kind == TargetKind::Tree) || (t == "c"@ && kind == TargetKind::Vm),
    }
}

pub open spec fn tag_view(t: Option<&'static str>) -> Option<Seq<char>> {
    match t {
        Some(s) => Some(s@),
        None => None,
    }
}

/// The expectations of `raw[..n]` that apply to `kind`, in order.
pub open spec fn kept(raw: Seq<(Option<&'static str>, Expect)>, kind: TargetKind, n: nat) -> Seq<ExpectView>
    decreases n,
{
    if n == 0 || n > raw.len() {
        Seq::empty()
    } else {
        let before = kept(raw, kind, (n - 1) as nat);
        let d = raw[n - 1];
        if applies(tag_view(d.0), kind) {
            before.push(d.1@)
        } else {
            before
        }
    }
}

/// Keep the expectations that apply to `kind`.
pub fn filter_directives(raw: Vec<(Option<&'static str>, Expect)>, kind: TargetKind) -> (r: Vec<Expect>)
    ensures
        expect_views(r@) == kept(raw@, kind, raw@.len()),
{
    let mut out: Vec<Expect> = Vec::new();
    let mut i: usize = 0;
    while i < raw.len()
        invariant
            i <= raw.len(),
            expect_views(out@) == kept(raw@, kind, i as nat),
        decreases raw.len() - i,
    {
        let keep = match raw[i].0 {
            None => true,
            Some(t) => (same_text(t, "java") && kind == TargetKind::Tree) || (same_text(t, "c") && kind == TargetKind::Vm),
        };
        if keep {
            let e = raw[i].1.clone_expect();
            let ghost prev = expect_views(out@);
            out.push(e);
            assert(expect_views(out@) =~= prev.push(raw@[i as int].1@));
        }
        i = i + 1;
    }
    out
}

// ---------------------------------------------------------------------------
// Truncation of long texts.
// ---------------------------------------------------------------------------

/// Length of a character in UTF-8.
pub open spec fn utf8_width(c: char) -> nat {
    let u = c as u32;
    if u < 0x80 {
        1
    } else if u < 0x800 {
        2
    } else if u < 0x10000 {
        3
    } else {
        4
    }
}

/// Length of a text in UTF-8 bytes.
pub open spec fn utf8_size(s: Seq<char>) -> nat
    decreases s.len(),
{
    if s.len() == 0 {
        0
    } else {
        utf8_width(s[0]) + utf8_size(s.drop_first())
    }
}

/// The longest beginning of `s` that takes at most `n` bytes.
pub open spec fn bytes_prefix(s: Seq<char>, n: nat) -> Seq<char>
    decreases s.len(),
{
    if s.len() == 0 || utf8_width(s[0]) > n {
        Seq::empty()
    } else {
        seq![s[0]] + bytes_prefix(s.drop_first(), (n - utf8_width(s[0])) as nat)
    }
}

/// `s` when it takes at most `n` bytes, else its first `n` bytes followed
/// by an ellipsis.
pub open spec fn truncated(s: Seq<char>, n: nat) -> Seq<char> {
    if utf8_size(s) <= n {
        s
    } else {
        bytes_prefix(s, n).push('…')
    }
}

/// Byte `n` of `s` starts a character (or `s` is no longer than `n`).
pub open spec fn cuts_cleanly(s: Seq<char>, n: nat) -> bool {
    utf8_size(s) <= n || utf8_size(bytes_prefix(s, n)) == n
}

fn width(c: char) -> (w: usize)
    ensures
        w == utf8_width(c),
{
    let u = c as u32;
    if u < 0x80 {
        1
    } else if u < 0x800 {
        2
    } else if u < 0x10000 {
        3
    } else {
        4
    }
}

proof fn lemma_size_split(s: Seq<char>, k: nat)
    requires
        k <= s.len(),
    ensures
        utf8_size(s) == utf8_size(s.take(k as int)) + utf8_size(s.skip(k as int)),
    decreases k,
{
    if k > 0 {
        lemma_size_split(s.drop_first(), (k - 1) as nat);
        assert(s.take(k as int).drop_first() =~= s.drop_first().take(k - 1));
        assert(s.skip(k as int) =~= s.drop_first().skip(k - 1));
    } else {
        assert(s.skip(0) =~= s);
    }
}

proof fn lemma_prefix_take(s: Seq<char>, n: nat, k: nat)
    requires
        k <= s.len(),
        utf8_size(s.take(k as int)) <= n,
    ensures
        bytes_prefix(s, n) == s.take(k as int) + bytes_prefix(s.skip(k as int), (n - utf8_size(s.take(k as int))) as nat),
    decreases k,
{
    if k > 0 {
        let t = s.drop_first();
        assert(s.take(k as int).drop_first() =~= t.take(k - 1));
        assert(s.skip(k as int) =~= t.skip(k - 1));
        lemma_prefix_take(t, (n - utf8_width(s[0])) as nat, (k - 1) as nat);
        assert(s.take(k as int) =~= seq![s[0]] + t.take(k - 1));
    } else {
        assert(s.skip(0) =~= s);
        assert(s.take(0) =~= Seq::<char>::empty());
    }
}

/// `s` cut after `n` bytes and marked with an ellipsis when it is longer.
pub fn truncate(s: &str, n: usize) -> (r: String)
    requires
        cuts_cleanly(s@, n as nat),
    ensures
        r@ == truncated(s@, n as nat),
{
    let v = chars_of(s);
    let mut used: usize = 0;
    let mut i: usize = 0;
    while i < v.len() && width(v[i]) <= n - used
        invariant
            i <= v.len(),
            used <= n,
            used == utf8_size(v@.take(i as int)),
        decreases v.len() - i,
    {
        proof {
            lemma_size_split(v@.take(i + 1), i as nat);
            assert(v@.take(i + 1).take(i as int) =~= v@.take(i as int));
            assert(v@.take(i + 1).skip(i as int) =~= seq![v@[i as int]]);
            assert(seq![v@[i as int]].drop_first() =~= Seq::<char>::empty());
            assert(utf8_size(Seq::<char>::empty()) == 0);
            assert(utf8_size(seq![v@[i as int]]) == utf8_width(v@[i as int]));
        }
        used = used + width(v[i]);
        i = i + 1;
    }
    proof {
        lemma_prefix_take(v@, n as nat, i as nat);
        lemma_size_split(v@, i as nat);
        if i < v.len() {
            assert(v@.skip(i as int)[0] == v@[i as int]);
            assert(bytes_prefix(v@.skip(i as int), (n - used) as nat) =~= Seq::<char>::empty());
        } else {
            assert(v@.skip(i as int) =~= Seq::<char>::empty());
        }
        assert(v@.take(i as int) + Seq::<char>::empty() =~= v@.take(i as int));
    }
    if i == v.len() {
        assert(v@.take(i as int) =~= v@);
        string_of_chars(&v)
    } else {
        let mut r = crate::text::string_from_chars(&v, 0, i);
        assert(v@.subrange(0, i as int) =~= v@.take(i as int));
        push_char(&mut r, '…');
        r
    }
}


// ---------------------------------------------------------------------------
// Checking a finished run against the expectations.
// ---------------------------------------------------------------------------

/// The verdict on one script run: whether it passed, and what failed.
pub struct Outcome {
    pub passed: bool,
    pub failures: Vec<String>,
}

/// The expected lines of standard output, in order.
pub open spec fn stdout_expects(es: Seq<ExpectView>) -> Seq<Seq<char>>
    decreases es.len(),
{
    if es.len() == 0 {
        Seq::empty()
    } else {
        let before = stdout_expects(es.drop_last());
        match es.last() {
            ExpectView::Stdout(t) => before.push(t),
            _ => before,
        }
    }
}

/// The message of the last runtime-error expectation, if any.
pub open spec fn last_runtime(es: Seq<ExpectView>) -> Option<Seq<char>>
    decreases es.len(),
{
    if es.len() == 0 {
        None
    } else {
        match es.last() {
            ExpectView::RuntimeError(m) => Some(m),
            _ => last_runtime(es.drop_last()),
        }
    }
}

/// The compile-error expectations, in order.
pub open spec fn compile_expects(es: Seq<ExpectView>) -> Seq<(nat, Seq<char>)>
    decreases es.len(),
{
    if es.len() == 0 {
        Seq::empty()
    } else {
        let before = compile_expects(es.drop_last());
        match es.last() {
            ExpectView::CompileError(l, m) => before.push((l, m)),
            _ => before,
        }
    }
}

pub open spec fn stdout_mismatch_text(i: nat, want: Seq<char>, got: Seq<char>) -> Seq<char> {
    "stdout["@ + decimal(i) + "]: expected "@ + debug_quoted(want) + " got "@ + debug_quoted(got)
}

pub open spec fn stdout_ended_text(i: nat, want: Seq<char>) -> Seq<char> {
    "stdout["@ + decimal(i) + "]: expected "@ + debug_quoted(want) + " but stdout ended"@
}

pub open spec fn extra_lines_text(extra: nat, first: Seq<char>) -> Seq<char> {
    "stdout: "@ + decimal(extra) + " extra line(s), first extra: "@ + debug_quoted(first)
}

pub open spec fn exit70_text(exit: int) -> Seq<char> {
    "exit: expected 70 got "@ + int_text(exit)
}

pub open spec fn exit65_text(exit: int) -> Seq<char> {
    "exit: expected 65 got "@ + int_text(exit)
}

pub open spec fn missing_text(m: Seq<char>) -> Seq<char> {
    "stderr: expected to contain "@ + debug_quoted(m)
}

pub open spec fn framed(line: nat, m: Seq<char>) -> Seq<char> {
    "[line "@ + decimal(line) + "] "@ + m
}

pub open spec fn no_directives_text(exit: int, stderr: Seq<char>) -> Seq<char> {
    "no directives: expected clean exit 0, got "@ + int_text(exit) + "; stderr="@ + debug_quoted(truncated(stderr, 200))
}

pub open spec fn unclean_exit_text(exit: int, stderr: Seq<char>) -> Seq<char> {
    "exit: expected 0 got "@ + int_text(exit) + "; stderr="@ + debug_quoted(truncated(stderr, 200))
}

/// Failures of the first `k` expected output lines against `got`.
pub open spec fn stdout_failures(want: Seq<Seq<char>>, got: Seq<Seq<char>>, k: nat) -> Seq<Seq<char>>
    decreases k,
{
    if k == 0 {
        Seq::empty()
    } else {
        let i = (k - 1) as nat;
        let before = stdout_failures(want, got, i);
        if i < got.len() {
            if got[i as int] == want[i as int] {
                before
            } else {
                before.push(stdout_mismatch_text(i, want[i as int], got[i as int]))
            }
        } else {
            before.push(stdout_ended_text(i, want[i as int]))
        }
    }
}

/// Failures of the first `k` compile-error expectations against `stderr`.
pub open spec fn compile_failures(ce: Seq<(nat, Seq<char>)>, stderr: Seq<char>, k: nat) -> Seq<Seq<char>>
    decreases k,
{
    if k == 0 {
        Seq::empty()
    } else {
        let before = compile_failures(ce, stderr, (k - 1) as nat);
        let (l, m) = ce[k - 1];
        if occurs_in(stderr, framed(l, m)) {
            before
        } else {
            before.push(missing_text(framed(l, m)))
        }
    }
}

/// Whether a failure message would quote the standard error.
pub open spec fn quotes_stderr(es: Seq<ExpectView>, exit: int) -> bool {
    exit != 0 && (es.len() == 0 || (last_runtime(es) is None && compile_expects(es).len() == 0))
}

/// Everything a run with the given output, error output and exit status
/// fails to meet, in the order of the checks.
pub open spec fn case_failures(stdout: Seq<char>, stderr: Seq<char>, exit: int, es: Seq<ExpectView>) -> Seq<Seq<char>> {
    let want = stdout_expects(es);
    let got = lines_of(stdout);
    let rt = last_runtime(es);
    let ce = compile_expects(es);
    let f1 = stdout_failures(want, got, want.len());
    let f2 = if rt is None && ce.len() == 0 && want.len() > 0 && got.len() > want.len() {
        seq![extra_lines_text((got.len() - want.len()) as nat, got[want.len() as int])]
    } else {
        Seq::empty()
    };
    let f3 = match rt {
        Some(m) => (if exit != 70 { seq![exit70_text(exit)] } else { Seq::empty() }) + (if !occurs_in(stderr, m) {
            seq![missing_text(m)]
        } else {
            Seq::empty()
        }),
        None => Seq::empty(),
    };
    let f4 = if ce.len() > 0 {
        (if exit != 65 { seq![exit65_text(exit)] } else { Seq::empty() }) + compile_failures(ce, stderr, ce.len())
    } else {
        Seq::empty()
    };
    let f5 = if es.len() == 0 {
        if exit != 0 { seq![no_directives_text(exit, stderr)] } else { Seq::empty() }
    } else if rt is None && ce.len() == 0 && exit != 0 {
        seq![unclean_exit_text(exit, stderr)]
    } else {
        Seq::empty()
    };
    f1 + f2 + f3 + f4 + f5
}

proof fn lemma_stdout_matches(want: Seq<Seq<char>>, k: nat)
    requires
        k <= want.len(),
    ensures
        stdout_failures(want, want, k) == Seq::<Seq<char>>::empty(),
    decreases k,
{
    if k > 0 {
        lemma_stdout_matches(want, (k - 1) as nat);
    }
}

proof fn lemma_compile_matches(ce: Seq<(nat, Seq<char>)>, stderr: Seq<char>, k: nat)
    requires
        k <= ce.len(),
        forall|i: int| 0 <= i < ce.len() ==> occurs_in(stderr, framed(#[trigger] ce[i].0, ce[i].1)),
    ensures
        compile_failures(ce, stderr, k) == Seq::<Seq<char>>::empty(),
    decreases k,
{
    if k > 0 {
        lemma_compile_matches(ce, stderr, (k - 1) as nat);
        assert(occurs_in(stderr, framed(ce[k - 1].0, ce[k - 1].1)));
    }
}

/// A run passes when it prints exactly the expected lines and ends as the
/// script expects: with status 70 and the expected message for a runtime
/// error, with status 65 and every expected `[line N]` message for compile
/// errors, and with status 0 otherwise.
pub proof fn lemma_matching_run_passes(stdout: Seq<char>, stderr: Seq<char>, exit: int, es: Seq<ExpectView>)
    requires
        lines_of(stdout) == stdout_expects(es),
        last_runtime(es) matches Some(m) ==> exit == 70 && occurs_in(stderr, m),
        compile_expects(es).len() > 0 ==> exit == 65,
        forall|i: int|
            0 <= i < compile_expects(es).len() ==> occurs_in(
                stderr,
                framed(#[trigger] compile_expects(es)[i].0, compile_expects(es)[i].1),
            ),
        last_runtime(es) is None && compile_expects(es).len() == 0 ==> exit == 0,
    ensures
        case_failures(stdout, stderr, exit, es) == Seq::<Seq<char>>::empty(),
{
    let want = stdout_expects(es);
    let ce = compile_expects(es);
    lemma_stdout_matches(want, want.len());
    lemma_compile_matches(ce, stderr, ce.len());
    if es.len() == 0 {
        assert(last_runtime(es) is None);
        assert(ce.len() == 0);
    }
    assert(case_failures(stdout, stderr, exit, es) =~= Seq::<Seq<char>>::empty());
}

pub open spec fn string_views(v: Seq<String>) -> Seq<Seq<char>> {
    v.map_values(|s: String| s@)
}

fn seq_equal(a: &Vec<char>, b: &Vec<char>) -> (r: bool)
    ensures
        r == (a@ == b@),
{
    if a.len() != b.len() {
        return false;
    }
    let r = has_prefix_at(a, 0, b);
    assert(a@.subrange(0, a@.len() as int) =~= a@);
    r
}

fn push_message(out: &mut Vec<String>, m: String)
    ensures
        string_views(final(out)@) == string_views(old(out)@).push(m@),
{
    let ghost before = string_views(out@);
    out.push(m);
    assert(string_views(out@) =~= before.push(m@));
}

/// Compare a finished run (its standard output, standard error and exit
/// status) with the script's expectations.
pub fn check_case(stdout: &str, stderr: &str, exit: i32, expects: &Vec<Expect>) -> (o: Outcome)
    requires
        quotes_stderr(expect_views(expects@), exit as int) ==> cuts_cleanly(stderr@, 200),
    ensures
        string_views(o.failures@) == case_failures(stdout@, stderr@, exit as int, expect_views(expects@)),
        o.passed == (o.failures@.len() == 0),
{
    let ghost es = expect_views(expects@);
    let mut want: Vec<String> = Vec::new();
    let mut rt: Option<String> = None;
    let mut ce: Vec<(usize, String)> = Vec::new();
    let mut i: usize = 0;
    while i < expects.len()
        invariant
            i <= expects.len(),
            es == expect_views(expects@),
            string_views(want@) == stdout_expects(es.take(i as int)),
            match rt {
                Some(m) => last_runtime(es.take(i as int)) == Some(m@),
                None => last_runtime(es.take(i as int)) is None,
            },
            ce@.map_values(|p: (usize, String)| (p.0 as nat, p.1@)) == compile_expects(es.take(i as int)),
        decreases expects.len() - i,
    {
        assert(es.take(i + 1).drop_last() =~= es.take(i as int));
        assert(es.take(i + 1).last() == expects@[i as int]@);
        match &expects[i] {
            Expect::Stdout(t) => {
                let ghost before = string_views(want@);
                want.push(t.clone());
                assert(string_views(want@) =~= before.push(t@));
            },
            Expect::RuntimeError(m) => {
                rt = Some(m.clone());
            },
            Expect::CompileError { line, msg } => {
                let ghost before = ce@.map_values(|p: (usize, String)| (p.0 as nat, p.1@));
                ce.push((*line, msg.clone()));
                assert(ce@.map_values(|p: (usize, String)| (p.0 as nat, p.1@)) =~= before.push((*line as nat, msg@)));
            },
        }
        i = i + 1;
    }
    assert(es.take(expects.len() as int) =~= es);
    let ghost wantv = stdout_expects(es);
    let ghost cev = compile_expects(es);

    let out_chars = chars_of(stdout);
    let got = split_lines(&out_chars);
    let ghost gotv = lines_of(stdout@);
    let err_chars = chars_of(stderr);
    let mut failures: Vec<String> = Vec::new();

    // Standard output, line by line.
    let mut k: usize = 0;
    while k < want.len()
        invariant
            k <= want.len(),
            string_views(want@) == wantv,
            char_vec_views(got@) == gotv,
            string_views(failures@) == stdout_failures(wantv, gotv, k as nat),
        decreases want.len() - k,
    {
        let w = chars_of(want[k].as_str());
        assert(wantv[k as int] == want@[k as int]@);
        if k < got.len() {
            assert(gotv[k as int] == got@[k as int]@);
            if !seq_equal(&got[k], &w) {
                let mut m = string_of("stdout[");
                push_decimal(&mut m, k);
                m.append("]: expected ");
                push_quoted(&mut m, want[k].as_str());
                m.append(" got ");
                let g = string_of_chars(&got[k]);
                push_quoted(&mut m, g.as_str());
                push_message(&mut failures, m);
            }
        } else {
            let mut m = string_of("stdout[");
            push_decimal(&mut m, k);
            m.append("]: expected ");
            push_quoted(&mut m, want[k].as_str());
            m.append(" but stdout ended");
            push_message(&mut failures, m);
        }
        k = k + 1;
    }
    let ghost f1 = string_views(failures@);
    assert(f1 == stdout_failures(wantv, gotv, wantv.len()));

    // Extra output.
    if rt.is_none() && ce.len() == 0 && want.len() > 0 && got.len() > want.len() {
        let mut m = string_of("stdout: ");
        push_decimal(&mut m, got.len() - want.len());
        m.append(" extra line(s), first extra: ");
        let g = string_of_chars(&got[want.len()]);
        assert(gotv[want@.len() as int] == got@[want@.len() as int]@);
        push_quoted(&mut m, g.as_str());
        push_message(&mut failures, m);
    }
    let ghost f2 = string_views(failures@);
    assert(f2 =~= f1 + (if last_runtime(es) is None && cev.len() == 0 && wantv.len() > 0 && gotv.len() > wantv.len() {
        seq![extra_lines_text((gotv.len() - wantv.len()) as nat, gotv[wantv.len() as int])]
    } else {
        Seq::<Seq<char>>::empty()
    }));

    // Runtime error.
    match &rt {
        Some(msg) => {
            if exit != 70 {
                let mut m = string_of("exit: expected 70 got ");
                push_int(&mut m, exit);
                push_message(&mut failures, m);
            }
            let mc = chars_of(msg.as_str());
            if !contains_seq(&err_chars, &mc) {
                let mut m = string_of("stderr: expected to contain ");
                push_quoted(&mut m, msg.as_str());
                push_message(&mut failures, m);
            }
        },
        None => {},
    }
    let ghost f3 = string_views(failures@);
    assert(f3 =~= f2 + match last_runtime(es) {
        Some(m) => (if exit != 70 { seq![exit70_text(exit as int)] } else { Seq::<Seq<char>>::empty() }) + (if !occurs_in(stderr@, m) {
            seq![missing_text(m)]
        } else {
            Seq::<Seq<char>>::empty()
        }),
        None => Seq::<Seq<char>>::empty(),
    });

    // Compile errors.
    if ce.len() > 0 {
        if exit != 65 {
            let mut m = string_of("exit: expected 65 got ");
            push_int(&mut m, exit);
            push_message(&mut failures, m);
        }
        let ghost f4a = string_views(failures@);
        let mut j: usize = 0;
        while j < ce.len()
            invariant
                j <= ce.len(),
                ce@.map_values(|p: (usize, String)| (p.0 as nat, p.1@)) == cev,
                err_chars@ == stderr@,
                string_views(failures@) == f4a + compile_failures(cev, stderr@, j as nat),
            decreases ce.len() - j,
        {
            let mut want_framed = string_of("[line ");
            push_decimal(&mut want_framed, ce[j].0);
            want_framed.append("] ");
            want_framed.append(ce[j].1.as_str());
            assert(cev[j as int] == (ce@[j as int].0 as nat, ce@[j as int].1@));
            let wf = chars_of(want_framed.as_str());
            let ghost before = string_views(failures@);
            if !contains_seq(&err_chars, &wf) {
                let mut m = string_of("stderr: expected to contain ");
                push_quoted(&mut m, want_framed.as_str());
                push_message(&mut failures, m);
                assert(f4a + compile_failures(cev, stderr@, (j + 1) as nat) =~= before.push(m@));
            } else {
                assert(f4a + compile_failures(cev, stderr@, (j + 1) as nat) =~= before);
            }
            j = j + 1;
        }
    }
    let ghost f4 = string_views(failures@);
    assert(f4 =~= f3 + if cev.len() > 0 {
        (if exit != 65 { seq![exit65_text(exit as int)] } else { Seq::<Seq<char>>::empty() }) + compile_failures(cev, stderr@, cev.len())
    } else {
        Seq::<Seq<char>>::empty()
    });

    // Exit status when no error was expected.
    if expects.len() == 0 {
        if exit != 0 {
            let mut m = string_of("no directives: expected clean exit 0, got ");
            push_int(&mut m, exit);
            m.append("; stderr=");
            let t = truncate(stderr, 200);
            push_quoted(&mut m, t.as_str());
            push_message(&mut failures, m);
        }
    } else if rt.is_none() && ce.len() == 0 && exit != 0 {
        let mut m = string_of("exit: expected 0 got ");
        push_int(&mut m, exit);
        m.append("; stderr=");
        let t = truncate(stderr, 200);
        push_quoted(&mut m, t.as_str());
        push_message(&mut failures, m);
    }
    proof {
        assert(string_views(failures@) =~= case_failures(stdout@, stderr@, exit as int, es));
    }
    let passed = failures.len() == 0;
    Outcome { passed, failures }
}

} // verus!
