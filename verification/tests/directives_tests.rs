use rlox::directives::{extract, extract_tagged, Expect};

#[test]
fn directives_stdout_expect_parsed() {
    let src = "var a = 1;\nvar b = 2;\nvar c = 3;\nvar d = 4;\nprint 1; // expect: hi\n";
    let got = extract(src);
    assert_eq!(got, vec![Expect::Stdout("hi".to_string())]);
}

#[test]
fn directives_runtime_error_parsed() {
    let src = "1 + \"x\"; // expect runtime error: foo\n";
    let got = extract(src);
    assert_eq!(got, vec![Expect::RuntimeError("foo".to_string())]);
}

#[test]
fn directives_error_inline_line_from_comment() {
    let src = "var a;\nvar a; // Error at 'a': msg\n";
    let got = extract(src);
    assert_eq!(got, vec![Expect::CompileError { line: 2, msg: "Error at 'a': msg".to_string() }]);
}

#[test]
fn directives_explicit_line_prefix_parsed() {
    let src = "// [line 7] Error x\n";
    let got = extract(src);
    assert_eq!(got, vec![Expect::CompileError { line: 7, msg: "Error x".to_string() }]);
}

#[test]
fn directives_multiple_stdout_in_order() {
    let src = "print 1; // expect: one\nprint 2; // expect: two\n";
    let got = extract(src);
    assert_eq!(got, vec![Expect::Stdout("one".to_string()), Expect::Stdout("two".to_string())]);
}

#[test]
fn directives_ignores_bare_comments() {
    let src = "// random comment\nvar x = 1;\n";
    let got = extract(src);
    assert!(got.is_empty(), "expected no directives, got {got:?}");
}

#[test]
fn directives_tagged_java_and_c() {
    let src = "// [line 3] Error: Unexpected character.\n\
               // [java line 3] Error at 'b': Expect ')' after arguments.\n\
               foo(a | b);\n\
               // [c line 4] Error at end: Expect '}' after block.\n";
    let tagged = extract_tagged(src);
    let tags: Vec<Option<&'static str>> = tagged.iter().map(|(t, _)| *t).collect();
    assert_eq!(tags, vec![None, Some("java"), Some("c")]);
}

#[test]
fn directives_runtime_error_plus_stdout() {
    let src = "print 1; // expect: 1\n\
               bad; // expect runtime error: Undefined variable 'bad'.\n";
    let got = extract(src);
    assert_eq!(
        got,
        vec![
            Expect::Stdout("1".to_string()),
            Expect::RuntimeError("Undefined variable 'bad'.".to_string()),
        ]
    );
}

#[test]
fn directives_bare_error_uses_comment_line() {
    let src = "{\n  class Foo < Foo {} // Error at 'Foo': A class can't inherit from itself.\n}\n";
    let got = extract(src);
    assert_eq!(
        got,
        vec![Expect::CompileError {
            line: 2,
            msg: "Error at 'Foo': A class can't inherit from itself.".to_string(),
        }]
    );
}

// Further cases.

#[test]
fn directives_comment_inside_string_is_not_a_directive() {
    let src = "print \"// expect: no\"; // expect: // expect: no\n";
    assert_eq!(extract(src), vec![Expect::Stdout("// expect: no".to_string())]);
}

#[test]
fn directives_empty_expect_and_crlf_lines() {
    let src = "print \"\"; // expect:\r\nprint 2; // expect: 2\r\n";
    assert_eq!(extract(src), vec![Expect::Stdout(String::new()), Expect::Stdout("2".to_string())]);
}

#[test]
fn directives_malformed_line_prefix_falls_through() {
    // Not a number: the bracketed form is ignored, and the comment does not
    // start with "Error", so nothing is extracted.
    assert!(extract("// [line x] Error y\n").is_empty());
    // "expect:" followed by text without the space is not a directive.
    assert!(extract("// expect:x\n").is_empty());
}

#[test]
fn directives_tagged_values() {
    let tagged = extract_tagged("// [c line 12] Error at end: Expect '}' after block.\n");
    assert_eq!(tagged.len(), 1);
    assert_eq!(tagged[0].0, Some("c"));
    assert_eq!(
        tagged[0].1,
        Expect::CompileError { line: 12, msg: "Error at end: Expect '}' after block.".to_string() }
    );
}
