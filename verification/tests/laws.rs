use std::cmp::Ordering as StdOrdering;

use rust_rapport::collect::parse;
use rust_rapport::order::{compare_outputs, compare_text, Order};
use rust_rapport::output::{Code, Message, Output, Span};
use rust_rapport::text::{push_decimal, push_escaped, push_first_line, str_equals};
use rust_rapport::{run, Mode};

fn text(s: &str) -> Option<String> {
    Some(s.to_string())
}

fn diagnostic(code: Option<&str>, level: &str, message: &str, file: Option<&str>, line: Option<usize>) -> Output {
    Output {
        reason: text("compiler-message"),
        manifest_path: text("/x/Cargo.toml"),
        message: Some(Message {
            code: code.map(|c| Code { code: text(c) }),
            level: text(level),
            message: text(message),
            spans: match file {
                Some(f) => vec![Span {
                    file_name: text(f),
                    line_start: line,
                    line_end: line,
                    column_start: Some(1),
                    column_end: Some(2),
                }],
                None => vec![],
            },
            rendered: text(message),
        }),
        success: None,
    }
}

fn samples() -> Vec<Output> {
    vec![
        diagnostic(Some("E0001"), "error", "boom", Some("src/lib.rs"), Some(2)),
        diagnostic(Some("E0001"), "error", "boom", Some("src/lib.rs"), Some(10)),
        diagnostic(Some("E0001"), "error", "boom", Some("src/lib.rs"), None),
        diagnostic(Some("unused"), "warning", "unused variable", Some("src/main.rs"), Some(1)),
        diagnostic(None, "warning", "no code", None, None),
        diagnostic(Some("é"), "warning", "accent", None, None),
        diagnostic(Some("z"), "warning", "accent", None, None),
        diagnostic(Some("unused"), "warning", "unused variable", Some("src/main.r"), Some(1)),
        Output { reason: text("build-finished"), manifest_path: None, message: None, success: Some(true) },
        Output { reason: text("build-finished"), manifest_path: None, message: None, success: Some(false) },
        Output { reason: None, manifest_path: None, message: None, success: None },
    ]
}

fn as_std(o: Order) -> StdOrdering {
    match o {
        Order::Less => StdOrdering::Less,
        Order::Equal => StdOrdering::Equal,
        Order::Greater => StdOrdering::Greater,
    }
}

#[test]
fn compare_outputs_agrees_with_derived_ord() {
    let all = samples();
    for a in &all {
        for b in &all {
            assert_eq!(as_std(compare_outputs(a, b)), a.cmp(b), "{a:?} vs {b:?}");
        }
    }
}

#[test]
fn compare_text_is_byte_order() {
    let words = ["", "a", "ab", "b", "é", "z", "Z", "\u{10000}", "\u{ffff}"];
    for x in words {
        for y in words {
            assert_eq!(as_std(compare_text(&x.to_string(), &y.to_string())), x.cmp(y), "{x:?} vs {y:?}");
        }
    }
}

#[test]
fn parse_keeps_each_finding_once_in_order() {
    let all = samples();
    let mut lines: Vec<Result<Output, String>> = Vec::new();
    for o in samples().into_iter().rev() {
        lines.push(Ok(o));
    }
    for o in samples() {
        lines.push(Ok(o));
    }
    let (found, report, log) = parse(lines);
    let mut expected: Vec<&Output> = all.iter().filter(|o| o.is_level(&rust_rapport::level::Level::Error) || o.is_level(&rust_rapport::level::Level::Warning)).collect();
    expected.sort();
    expected.dedup();
    assert_eq!(found.iter().collect::<Vec<_>>(), expected);
    assert_eq!(report.errors, 3);
    assert_eq!(report.warnings, 5);
    assert_eq!(report.errors + report.warnings, found.len());
    assert!(report.any_success && report.any_failure);
    assert!(log.is_empty());
}

#[test]
fn result_depends_only_on_the_valid_outputs() {
    let forward: Vec<Result<Output, String>> = samples().into_iter().map(Ok).collect();
    let mut shuffled: Vec<Result<Output, String>> = Vec::new();
    for (i, o) in samples().into_iter().rev().enumerate() {
        if i % 3 == 0 {
            shuffled.push(Err("expected value at line 1 column 1".to_string()));
            shuffled.push(Ok(diagnostic(Some("E0001"), "error", "boom", Some("src/lib.rs"), Some(2))));
        }
        shuffled.push(Ok(o));
    }
    for mode in [Mode::Github, Mode::GithubSummary, Mode::GithubPrAnnotation, Mode::Human] {
        let a = run(mode, forward.iter().map(clone_line).collect());
        let b = run(mode, shuffled.iter().map(clone_line).collect());
        assert_eq!(a.stdout, b.stdout);
        assert_eq!(a.summary, b.summary);
        assert_eq!(
            (a.report.errors, a.report.warnings, a.report.any_success, a.report.any_failure),
            (b.report.errors, b.report.warnings, b.report.any_success, b.report.any_failure)
        );
        assert!(a.stderr.is_empty());
        assert!(!b.stderr.is_empty());
    }
}

fn clone_line(l: &Result<Output, String>) -> Result<Output, String> {
    match l {
        Ok(o) => Ok(clone_output(o)),
        Err(e) => Err(e.clone()),
    }
}

fn clone_output(o: &Output) -> Output {
    Output {
        reason: o.reason.clone(),
        manifest_path: o.manifest_path.clone(),
        message: o.message.as_ref().map(|m| Message {
            code: m.code.as_ref().map(|c| Code { code: c.code.clone() }),
            level: m.level.clone(),
            message: m.message.clone(),
            spans: m
                .spans
                .iter()
                .map(|s| Span {
                    file_name: s.file_name.clone(),
                    line_start: s.line_start,
                    line_end: s.line_end,
                    column_start: s.column_start,
                    column_end: s.column_end,
                })
                .collect(),
            rendered: m.rendered.clone(),
        }),
        success: o.success,
    }
}

#[test]
fn escaped_text_has_no_line_feed() {
    let mut r = String::from(">");
    push_escaped(&mut r, "a\nb\n\nc\r\n");
    assert_eq!(r, ">a%0Ab%0A%0Ac\r%0A");
    assert!(!r.contains('\n'));
}

#[test]
fn decimal_numerals_are_exact() {
    for n in [0usize, 7, 10, 99, 100, 12345, usize::MAX] {
        let mut s = String::new();
        push_decimal(&mut s, n);
        assert_eq!(s, n.to_string());
    }
}

#[test]
fn first_line_matches_str_lines() {
    for case in ["", "one", "one\ntwo", "one\r\ntwo", "\nx", "a\rb", "ab\r", "ab\r\n", "\r\n"] {
        let mut s = String::new();
        push_first_line(&mut s, case);
        let expected: String = case.lines().take(1).collect();
        assert_eq!(s, expected, "input {case:?}");
    }
}

#[test]
fn str_equals_compares_characters() {
    assert!(str_equals("warning", "warning"));
    assert!(!str_equals("warning", "warnin"));
    assert!(!str_equals("é", "e"));
    assert!(str_equals("", ""));
}
