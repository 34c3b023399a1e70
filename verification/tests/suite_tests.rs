use rlox::directives::Expect;
use rlox::suite::{check_case, filter_directives, should_skip, truncate, Target, TargetKind};

#[test]
fn suite_labels_and_binaries() {
    assert_eq!(TargetKind::Tree.label(), "rlox-tree");
    assert_eq!(TargetKind::Vm.label(), "rlox-vm");
    assert_eq!(TargetKind::Tree.binary_name(), "rlox-tree");
    assert_eq!(TargetKind::Vm.binary_name(), "rlox-vm");
}

#[test]
fn suite_skips() {
    assert!(should_skip("benchmark/fib.lox", Target::Tree));
    assert!(should_skip("scanning/numbers.lox", Target::Vm));
    assert!(should_skip("expressions/parse.lox", Target::Both));
    assert!(should_skip("limit/loop_too_large.lox", Target::Vm));
    assert!(should_skip("limit/stack_overflow.lox", Target::Tree));
    assert!(!should_skip("limit/stack_overflow.lox", Target::Vm));
    assert!(!should_skip("limit/stack_overflow.lox", Target::Both));
    assert!(!should_skip("closure/counter.lox", Target::Tree));
}

#[test]
fn suite_filter_keeps_tags_per_target() {
    let raw = || {
        vec![
            (None, Expect::Stdout("a".to_string())),
            (Some("java"), Expect::Stdout("j".to_string())),
            (Some("c"), Expect::Stdout("c".to_string())),
        ]
    };
    assert_eq!(
        filter_directives(raw(), TargetKind::Tree),
        vec![Expect::Stdout("a".to_string()), Expect::Stdout("j".to_string())]
    );
    assert_eq!(
        filter_directives(raw(), TargetKind::Vm),
        vec![Expect::Stdout("a".to_string()), Expect::Stdout("c".to_string())]
    );
}

#[test]
fn suite_truncate_adds_ellipsis_only_when_cut() {
    assert_eq!(truncate("abc", 3), "abc");
    assert_eq!(truncate("abcdef", 3), "abc…");
    assert_eq!(truncate("", 0), "");
}

#[test]
fn suite_case_passes_when_stdout_matches() {
    let o = check_case("1\n2\n", "", 0, &vec![Expect::Stdout("1".to_string()), Expect::Stdout("2".to_string())]);
    assert!(o.passed);
    assert!(o.failures.is_empty());
}

#[test]
fn suite_case_reports_stdout_mismatch_with_quoted_texts() {
    let o = check_case("1\nx\"y\n", "", 0, &vec![Expect::Stdout("1".to_string()), Expect::Stdout("2".to_string())]);
    assert!(!o.passed);
    assert_eq!(o.failures, vec!["stdout[1]: expected \"2\" got \"x\\\"y\"".to_string()]);
}

#[test]
fn suite_case_reports_missing_and_extra_lines() {
    let o = check_case("1\n", "", 0, &vec![Expect::Stdout("1".to_string()), Expect::Stdout("2".to_string())]);
    assert_eq!(o.failures, vec!["stdout[1]: expected \"2\" but stdout ended".to_string()]);
    let o = check_case("1\n2\n3\n", "", 0, &vec![Expect::Stdout("1".to_string())]);
    assert_eq!(o.failures, vec!["stdout: 2 extra line(s), first extra: \"2\"".to_string()]);
}

#[test]
fn suite_case_runtime_error_needs_exit_70_and_message() {
    let exp = vec![Expect::RuntimeError("boom".to_string())];
    assert!(check_case("", "boom\n[line 1] in script\n", 70, &exp).passed);
    let o = check_case("", "other", 65, &exp);
    assert_eq!(
        o.failures,
        vec!["exit: expected 70 got 65".to_string(), "stderr: expected to contain \"boom\"".to_string()]
    );
}

#[test]
fn suite_case_compile_error_needs_exit_65_and_framed_line() {
    let exp = vec![Expect::CompileError { line: 3, msg: "Error at 'a': bad".to_string() }];
    assert!(check_case("", "[line 3] Error at 'a': bad\n", 65, &exp).passed);
    let o = check_case("", "[line 4] Error at 'a': bad\n", 65, &exp);
    assert_eq!(o.failures, vec!["stderr: expected to contain \"[line 3] Error at 'a': bad\"".to_string()]);
}

#[test]
fn suite_case_without_directives_needs_clean_exit() {
    assert!(check_case("anything\n", "", 0, &vec![]).passed);
    let o = check_case("", "oops", 70, &vec![]);
    assert_eq!(o.failures, vec!["no directives: expected clean exit 0, got 70; stderr=\"oops\"".to_string()]);
}

#[test]
fn suite_case_stdout_only_but_crashed() {
    let o = check_case("1\n", "bad", 70, &vec![Expect::Stdout("1".to_string())]);
    assert_eq!(o.failures, vec!["exit: expected 0 got 70; stderr=\"bad\"".to_string()]);
}

#[test]
fn suite_case_passes_with_output_then_expected_runtime_error() {
    let exp = vec![Expect::Stdout("a".to_string()), Expect::RuntimeError("boom".to_string())];
    let o = check_case("a\n", "boom\n[line 2] in script\n", 70, &exp);
    assert!(o.passed);
    assert!(o.failures.is_empty());
}
