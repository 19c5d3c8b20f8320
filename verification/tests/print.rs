use rust_rapport::output::{Code, Message, Output, Span};
use rust_rapport::print::{github_pr_annotation, github_summary, human, join_strings};

fn text(s: &str) -> Option<String> {
    Some(s.to_string())
}

fn compiler_message(level: Option<&str>, message: Option<&str>, spans: Vec<Span>, rendered: Option<&str>) -> Output {
    Output {
        reason: text("compiler-message"),
        manifest_path: text("/x/Cargo.toml"),
        message: Some(Message {
            code: Some(Code { code: text("unused") }),
            level: level.map(str::to_string),
            message: message.map(str::to_string),
            spans,
            rendered: rendered.map(str::to_string),
        }),
        success: None,
    }
}

fn full_span(file: &str, line_start: usize, line_end: usize, column_start: usize, column_end: usize) -> Span {
    Span {
        file_name: text(file),
        line_start: Some(line_start),
        line_end: Some(line_end),
        column_start: Some(column_start),
        column_end: Some(column_end),
    }
}

fn warning() -> Output {
    compiler_message(
        Some("warning"),
        Some("unused variable `x`"),
        vec![full_span("src/main.rs", 1, 1, 5, 6)],
        Some("warning: unused\nhelp: prefix with _"),
    )
}

fn deprecated_lint() -> Output {
    Output {
        reason: text("compiler-message"),
        manifest_path: text("/x/Cargo.toml"),
        message: Some(Message {
            code: Some(Code { code: text("renamed_and_removed_lints") }),
            level: text("warning"),
            message: text(
                "the lint `clippy::cognitive_complexity` has been renamed to `clippy::cognitive-complexity`",
            ),
            spans: vec![],
            rendered: text("warning: the lint `clippy::cognitive_complexity` has been renamed"),
        }),
        success: None,
    }
}

#[test]
fn summary_empty_success_prints_happy() {
    let s = github_summary(&[], true);
    assert!(s.contains("Cargo is Happy"));
}

#[test]
fn summary_empty_failure_prints_sad() {
    let s = github_summary(&[], false);
    assert!(s.contains("Cargo is Sad"));
}

#[test]
fn summary_uses_unknown_fallback_not_unknow() {
    let no_level = Output {
        reason: text("compiler-message"),
        manifest_path: None,
        message: Some(Message {
            code: None,
            level: None,
            message: text("m"),
            spans: vec![full_span("a", 1, 1, 1, 2)],
            rendered: text("r"),
        }),
        success: None,
    };
    let s = github_summary(&[no_level], false);
    assert!(s.contains("| Unknown |"), "got: {s}");
    assert!(!s.contains("Unknow "), "typo `Unknow` resurfaced: {s}");
}

#[test]
fn annotation_encodes_newlines_and_includes_all_coords() {
    let outs = [warning()];
    let s = github_pr_annotation(&outs);
    assert!(s.starts_with("::warning "));
    assert!(s.contains("file=src/main.rs"));
    assert!(s.contains("line=1"));
    assert!(s.contains("endLine=1"));
    assert!(s.contains("col=5"));
    assert!(s.contains("endColumn=6"));
    assert!(s.contains("%0A"), "newline not encoded: {s}");
    assert!(!s.contains('\n'), "raw newline must not appear inside an annotation: {s:?}");
}

#[test]
fn annotation_without_opts_emits_valid_form() {
    let minimal = Output {
        reason: text("compiler-message"),
        manifest_path: None,
        message: Some(Message {
            code: None,
            level: text("warning"),
            message: None,
            spans: vec![Span { file_name: text("x"), line_start: None, line_end: None, column_start: None, column_end: None }],
            rendered: text("w"),
        }),
        success: None,
    };
    let s = github_pr_annotation(&[minimal]);
    assert!(s.starts_with("::warning "), "got: {s}");
    assert!(!s.contains(":: ::"), "invalid double-colon form: {s}");
}

#[test]
fn human_collects_rendered_text() {
    let outs = [warning()];
    let s = human(&outs);
    assert!(s.contains("warning: unused"));
}

#[test]
fn human_retains_warnings_without_spans() {
    let s = human(&[deprecated_lint()]);
    assert!(s.contains("renamed"), "deprecated-lint warning was dropped: {s:?}");
}

#[test]
fn annotation_retains_warnings_without_spans() {
    let s = github_pr_annotation(&[deprecated_lint()]);
    assert!(!s.trim().is_empty(), "deprecated-lint annotation was dropped");
    assert!(s.starts_with("::warning"), "got: {s}");
    assert!(s.contains("has been renamed"), "rendered body missing: {s}");
}

#[test]
fn annotation_exact_form() {
    let s = github_pr_annotation(&[warning()]);
    assert_eq!(
        s,
        "::warning file=src/main.rs,line=1,endLine=1,col=5,endColumn=6,title=unused variable `x`::warning: unused%0Ahelp: prefix with _"
    );
}

#[test]
fn annotation_without_any_property_uses_bare_form_and_defaults() {
    let bare = Output {
        reason: text("compiler-message"),
        manifest_path: None,
        message: Some(Message { code: None, level: None, message: None, spans: vec![], rendered: None }),
        success: None,
    };
    assert_eq!(github_pr_annotation(&[bare]), "::notice::No message");
}

#[test]
fn annotations_are_one_per_line() {
    let a = compiler_message(Some("error"), Some("boom"), vec![full_span("lib.rs", 12, 13, 100, 2000)], Some("e\n"));
    let s = github_pr_annotation(&[a, deprecated_lint()]);
    let lines: Vec<&str> = s.split('\n').collect();
    assert_eq!(lines.len(), 2);
    assert_eq!(lines[0], "::error file=lib.rs,line=12,endLine=13,col=100,endColumn=2000,title=boom::e%0A");
    assert!(lines[1].starts_with("::warning title=the lint"));
}

#[test]
fn annotations_of_nothing_are_empty() {
    assert_eq!(github_pr_annotation(&[]), "");
}

#[test]
fn summary_exact_rows_and_first_line() {
    let multi = compiler_message(
        Some("help"),
        Some("first line\r\nsecond line"),
        vec![Span { file_name: text("a.rs"), line_start: None, line_end: None, column_start: None, column_end: None }],
        None,
    );
    let s = github_summary(&[multi, deprecated_lint()], true);
    assert_eq!(
        s,
        "| Level | Location | Rule | Message |\n| --- | --- | --- | --- |\n\
         | help | a.rs | unused | first line |\n\
         | ⚠️ warning | - | renamed_and_removed_lints | the lint `clippy::cognitive_complexity` has been renamed to `clippy::cognitive-complexity` |"
    );
}

#[test]
fn summary_message_fallback_and_carriage_return() {
    let no_message = compiler_message(Some("error"), None, vec![], None);
    let s = github_summary(&[no_message], false);
    assert!(s.ends_with("| ❌ error | - | unused | No message |"), "got: {s}");
    let lone_cr = compiler_message(Some("error"), Some("a\rb"), vec![], None);
    let s = github_summary(&[lone_cr], false);
    assert!(s.ends_with("| a\rb |"), "got: {s:?}");
    let cr_at_end = compiler_message(Some("error"), Some("ab\r"), vec![], None);
    let s = github_summary(&[cr_at_end], false);
    assert!(s.ends_with("| ab\r |"), "got: {s:?}");
}

#[test]
fn summary_empty_texts_are_exact() {
    assert_eq!(github_summary(&[], true), "🦀 Cargo is Happy !");
    assert_eq!(github_summary(&[], false), "😒 Cargo is Sad !");
}

#[test]
fn human_concatenates_without_separator() {
    let a = compiler_message(Some("warning"), None, vec![], Some("A\n"));
    let b = compiler_message(Some("warning"), None, vec![], None);
    let c = compiler_message(Some("error"), None, vec![], Some("C"));
    assert_eq!(human(&[a, b, c]), "A\nC");
    assert_eq!(human(&[]), "");
}

#[test]
fn join_strings_places_separators_between() {
    let list = vec!["a".to_string(), "".to_string(), "c".to_string()];
    assert_eq!(join_strings(&list, ", "), "a, , c");
    assert_eq!(join_strings(&vec![], ","), "");
    assert_eq!(join_strings(&vec!["x".to_string()], ","), "x");
}

#[test]
fn summary_has_one_row_per_diagnostic() {
    let a = compiler_message(Some("error"), Some("line one\nline two\nline three"), vec![], Some("x"));
    let b = compiler_message(Some("warning"), Some("w"), vec![full_span("f.rs", 3, 3, 1, 1)], None);
    let c = compiler_message(Some("note"), None, vec![], None);
    let s = github_summary(&[a, b, c], false);
    assert_eq!(s.lines().count(), 2 + 3);
    assert!(s.contains("| ❌ error | - | unused | line one |"));
    assert!(s.contains("| ⚠️ warning | f.rs:3 | unused | w |"));
    assert!(s.contains("| note | - | unused | No message |"));
}
