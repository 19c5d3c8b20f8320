use rust_rapport::output::{Code, Message, Output, Span};
use rust_rapport::{run, Error, Mode, RunReport};

fn text(s: &str) -> Option<String> {
    Some(s.to_string())
}

fn span(file: &str, line_start: usize, line_end: usize, column_start: usize, column_end: usize) -> Span {
    Span {
        file_name: text(file),
        line_start: Some(line_start),
        line_end: Some(line_end),
        column_start: Some(column_start),
        column_end: Some(column_end),
    }
}

fn compiler_message(code: Option<&str>, level: &str, message: &str, spans: Vec<Span>, rendered: &str) -> Output {
    Output {
        reason: text("compiler-message"),
        manifest_path: text("/x/Cargo.toml"),
        message: Some(Message {
            code: code.map(|c| Code { code: text(c) }),
            level: text(level),
            message: text(message),
            spans,
            rendered: text(rendered),
        }),
        success: None,
    }
}

/// `{"reason":"compiler-message",...,"level":"warning","message":"unused variable: x",...}`
fn warn_line() -> Result<Output, String> {
    Ok(compiler_message(
        Some("unused"),
        "warning",
        "unused variable: x",
        vec![span("src/main.rs", 1, 1, 5, 6)],
        "warning: unused",
    ))
}

/// `{"reason":"compiler-message",...,"level":"error","message":"boom",...}`
fn error_line() -> Result<Output, String> {
    Ok(compiler_message(Some("E0001"), "error", "boom", vec![span("src/lib.rs", 2, 2, 1, 2)], "error: boom"))
}

/// `{"reason":"compiler-message",...,"code":null,"level":"note",...,"spans":[],...}`
fn note_line() -> Result<Output, String> {
    Ok(compiler_message(None, "note", "a note", vec![], "note: a note"))
}

fn build_finished(success: bool) -> Result<Output, String> {
    Ok(Output { reason: text("build-finished"), manifest_path: None, message: None, success: Some(success) })
}

/// `{"reason":"build-finished","success":true}`
fn build_ok() -> Result<Output, String> {
    build_finished(true)
}

/// `{"reason":"build-finished","success":false}`
fn build_ko() -> Result<Output, String> {
    build_finished(false)
}

/// The line `not json`, as the JSON reader rejects it.
fn not_json() -> Result<Output, String> {
    Err("expected ident at line 1 column 2".to_string())
}

fn run_capture(mode: Mode, input: Vec<Result<Output, String>>) -> (String, String) {
    let out = run(mode, input);
    (out.stdout, out.stderr)
}

#[test]
fn summary_happy_when_build_success_and_no_diagnostics() {
    let (out, err) = run_capture(Mode::GithubSummary, vec![build_ok()]);
    assert!(out.contains("Cargo is Happy"), "got: {out}");
    assert!(err.is_empty());
}

#[test]
fn summary_sad_when_no_build_success_and_no_diagnostics() {
    let (out, _) = run_capture(Mode::GithubSummary, vec![build_ko()]);
    assert!(out.contains("Cargo is Sad"), "got: {out}");
}

#[test]
fn summary_table_has_header_in_returned_text() {
    let (out, _) = run_capture(Mode::GithubSummary, vec![warn_line(), build_ko()]);
    assert!(out.contains("| Level | Location | Rule | Message |"), "missing header: {out}");
    assert!(out.contains("| --- | --- | --- | --- |"), "missing separator: {out}");
    assert!(out.contains("⚠️ warning"), "missing row: {out}");
}

#[test]
fn diagnostics_are_deduplicated_and_deterministic() {
    let input = || vec![warn_line(), warn_line(), error_line()];
    let (out, _) = run_capture(Mode::GithubPrAnnotation, input());
    let lines: Vec<&str> = out.lines().filter(|l| !l.is_empty()).collect();
    assert_eq!(lines.len(), 2, "expected 2 unique annotations, got: {out}");
    let (out2, _) = run_capture(Mode::GithubPrAnnotation, input());
    assert_eq!(out, out2, "output must be deterministic");
}

#[test]
fn note_level_is_filtered_out() {
    let (out, _) = run_capture(Mode::GithubPrAnnotation, vec![note_line(), build_ko()]);
    assert!(out.trim().is_empty(), "notes should be filtered: {out}");
}

#[test]
fn malformed_json_is_reported_on_stderr_and_skipped() {
    let (out, err) = run_capture(Mode::GithubPrAnnotation, vec![warn_line(), not_json(), error_line(), build_ko()]);
    assert!(err.contains("line 2"), "expected line number in stderr: {err}");
    assert!(err.contains("invalid JSON"), "expected diagnostic: {err}");
    let non_empty: Vec<&str> = out.lines().filter(|l| !l.is_empty()).collect();
    assert_eq!(non_empty.len(), 2, "valid lines should still render: {out}");
}

#[test]
fn lib_human_mode_emits_rendered_text() {
    let (out, _) = run_capture(Mode::Human, vec![warn_line(), error_line()]);
    assert!(out.contains("warning: unused"));
    assert!(out.contains("error: boom"));
}

#[test]
fn error_display_includes_source() {
    let io_err = std::io::Error::other("broken pipe");
    let e = Error::from(io_err);
    assert!(e.to_string().contains("I/O error"));
    assert!(e.to_string().contains("broken pipe"));
}

fn run_report(input: Vec<Result<Output, String>>) -> RunReport {
    run(Mode::GithubPrAnnotation, input).report
}

#[test]
fn report_counts_errors_and_warnings_distinctly() {
    let r = run_report(vec![warn_line(), error_line()]);
    assert_eq!(r.warnings, 1);
    assert_eq!(r.errors, 1);
    assert!(r.is_failure(), "any error must flip is_failure");
}

#[test]
fn report_is_not_failure_when_only_warnings() {
    let r = run_report(vec![warn_line(), build_ok()]);
    assert!(!r.is_failure());
}

#[test]
fn report_picks_up_build_success_flag() {
    let r = run_report(vec![build_ok()]);
    assert!(r.any_success);
    assert!(!r.any_failure);
}

#[test]
fn report_flags_failure_on_build_finished_false_without_diagnostics() {
    let r = run_report(vec![build_ko()]);
    assert!(r.any_failure);
    assert!(r.is_failure());
}

#[test]
fn error_log_gives_exact_line_and_reader_text() {
    let (_, err) = run_capture(Mode::Human, vec![warn_line(), not_json(), not_json()]);
    assert_eq!(
        err,
        "rust-rapport: line 2: invalid JSON: expected ident at line 1 column 2\n\
         rust-rapport: line 3: invalid JSON: expected ident at line 1 column 2\n"
    );
}

#[test]
fn github_mode_splits_summary_and_annotations() {
    let out = run(Mode::Github, vec![warn_line(), build_ok()]);
    let summary = out.summary.expect("summary in github mode");
    assert!(summary.starts_with("| Level | Location | Rule | Message |\n"));
    assert!(summary.ends_with('\n'));
    assert_eq!(
        out.stdout,
        "::warning file=src/main.rs,line=1,endLine=1,col=5,endColumn=6,title=unused variable: x::warning: unused\n"
    );
    assert!(out.stderr.is_empty());
}

#[test]
fn github_mode_prints_nothing_without_annotations() {
    let out = run(Mode::Github, vec![build_ok()]);
    assert_eq!(out.stdout, "");
    assert_eq!(out.summary.as_deref(), Some("🦀 Cargo is Happy !\n"));
}

#[test]
fn annotation_mode_prints_empty_line_without_annotations() {
    let out = run(Mode::GithubPrAnnotation, vec![build_ok()]);
    assert_eq!(out.stdout, "\n");
    assert!(out.summary.is_none());
}

#[test]
fn summary_mode_exact_table() {
    let out = run(Mode::GithubSummary, vec![error_line(), warn_line(), note_line()]);
    assert_eq!(
        out.stdout,
        "| Level | Location | Rule | Message |\n| --- | --- | --- | --- |\n\
         | ❌ error | src/lib.rs:2 | E0001 | boom |\n\
         | ⚠️ warning | src/main.rs:1 | unused | unused variable: x |\n"
    );
}

#[test]
fn exit_code_follows_report_only_in_github_mode() {
    let failing = RunReport { errors: 1, warnings: 0, any_success: true, any_failure: false };
    let clean = RunReport { errors: 0, warnings: 3, any_success: true, any_failure: false };
    let broken = RunReport { errors: 0, warnings: 0, any_success: false, any_failure: true };
    assert_eq!(rust_rapport::exit_code(Mode::Github, &failing), 1);
    assert_eq!(rust_rapport::exit_code(Mode::Github, &broken), 1);
    assert_eq!(rust_rapport::exit_code(Mode::Github, &clean), 0);
    assert_eq!(rust_rapport::exit_code(Mode::GithubSummary, &failing), 0);
    assert_eq!(rust_rapport::exit_code(Mode::Human, &broken), 0);
}

#[test]
fn default_report_is_empty_and_not_failure() {
    let r = RunReport::default();
    assert_eq!((r.errors, r.warnings, r.any_success, r.any_failure), (0, 0, false, false));
    assert!(!r.is_failure());
}

#[test]
fn io_message_prefixes_the_detail() {
    assert_eq!(rust_rapport::io_message("broken pipe"), "I/O error: broken pipe");
    assert_eq!(rust_rapport::io_message(""), "I/O error: ");
}

#[test]
fn error_source_is_the_io_error() {
    let e = Error::from(std::io::Error::other("broken pipe"));
    assert_eq!(e.source().kind(), std::io::ErrorKind::Other);
    assert_eq!(e.source().to_string(), "broken pipe");
}
