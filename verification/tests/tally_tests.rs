use rlox::tally::{bucket_name, Tally};

fn rows(t: &Tally) -> Vec<(String, usize, usize)> {
    (0..t.len())
        .map(|i| {
            let (d, p, n) = t.entry(i);
            (d.to_string(), p, n)
        })
        .collect()
}

#[test]
fn tally_bucket_names() {
    assert_eq!(bucket_name("closure/counter.lox"), "closure");
    assert_eq!(bucket_name("a/b/c.lox"), "a");
    assert_eq!(bucket_name("empty_file.lox"), "<root>");
}

#[test]
fn tally_counts_per_directory_in_name_order() {
    let mut t = Tally::new();
    t.bucket("while/syntax.lox", true);
    t.bucket("closure/counter.lox", false);
    t.bucket("closure/nested.lox", true);
    t.bucket("precedence.lox", true);
    t.bucket("while/closure.lox", false);
    assert_eq!(
        rows(&t),
        vec![
            ("<root>".to_string(), 1, 1),
            ("closure".to_string(), 1, 2),
            ("while".to_string(), 1, 2),
        ]
    );
}

#[test]
fn tally_totals_grow_by_one_case_per_bucket() {
    let mut t = Tally::new();
    let cases = [("a/x.lox", true), ("b/y.lox", false), ("a/z.lox", false), ("top.lox", true)];
    for (k, (rel, passed)) in cases.iter().enumerate() {
        let before: (usize, usize) = rows(&t).iter().fold((0, 0), |acc, r| (acc.0 + r.1, acc.1 + r.2));
        t.bucket(rel, *passed);
        let after: (usize, usize) = rows(&t).iter().fold((0, 0), |acc, r| (acc.0 + r.1, acc.1 + r.2));
        assert_eq!(after.1, before.1 + 1, "case {k}");
        assert_eq!(after.0, before.0 + if *passed { 1 } else { 0 }, "case {k}");
    }
}
