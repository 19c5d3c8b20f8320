use rust_rapport::level::Level;
use rust_rapport::output::{Code, Message, Output, Span};

fn text(s: &str) -> Option<String> {
    Some(s.to_string())
}

/// The warning with `line_start` 10, `line_end` 11, `column_start` 5 and
/// `column_end` 8 in `src/main.rs`.
fn warning() -> Output {
    Output {
        reason: text("compiler-message"),
        manifest_path: text("/x/Cargo.toml"),
        message: Some(Message {
            code: Some(Code { code: text("unused_variables") }),
            level: text("warning"),
            message: text("unused variable: `foo`"),
            spans: vec![Span {
                file_name: text("src/main.rs"),
                line_start: Some(10),
                line_end: Some(11),
                column_start: Some(5),
                column_end: Some(8),
            }],
            rendered: text("warning: unused variable"),
        }),
        success: None,
    }
}

fn build_finished(success: bool) -> Output {
    Output { reason: text("build-finished"), manifest_path: None, message: None, success: Some(success) }
}

#[test]
fn column_start_returns_column_start_not_column_end() {
    let o = warning();
    assert_eq!(o.column_start(), Some(5));
    assert_eq!(o.column_end(), Some(8));
    assert_ne!(o.column_start(), o.column_end());
}

#[test]
fn accessors_read_first_span() {
    let o = warning();
    assert_eq!(o.line_start(), Some(10));
    assert_eq!(o.line_end(), Some(11));
    assert_eq!(o.file_name(), Some("src/main.rs"));
    assert_eq!(o.level(), Some("warning"));
    assert_eq!(o.rendered(), Some("warning: unused variable"));
    assert_eq!(o.message().as_deref(), Some("unused variable: `foo`"));
}

#[test]
fn is_level_dispatches_correctly() {
    let o = warning();
    assert!(o.is_level(&Level::Warning));
    assert!(!o.is_level(&Level::Error));
}

#[test]
fn success_reflects_build_finished_payload() {
    assert!(build_finished(true).success());
    assert!(!build_finished(false).success());
}

#[test]
fn accessors_handle_missing_message_gracefully() {
    let o = build_finished(true);
    assert_eq!(o.level(), None);
    assert_eq!(o.file_name(), None);
    assert_eq!(o.column_start(), None);
    assert_eq!(o.rendered(), None);
    assert_eq!(o.message(), None);
    assert!(!o.is_level(&Level::Warning));
    assert!(!o.is_level(&Level::Error));
}

#[test]
fn accessors_use_only_the_first_span() {
    let mut o = warning();
    if let Some(m) = o.message.as_mut() {
        m.spans.push(Span {
            file_name: text("src/other.rs"),
            line_start: Some(99),
            line_end: Some(100),
            column_start: Some(1),
            column_end: Some(2),
        });
    }
    assert_eq!(o.file_name(), Some("src/main.rs"));
    assert_eq!(o.line_start(), Some(10));
}

#[test]
fn build_success_only_on_build_finished_lines() {
    assert_eq!(build_finished(true).build_success(), Some(true));
    assert_eq!(build_finished(false).build_success(), Some(false));
    let other = Output { reason: text("compiler-artifact"), manifest_path: None, message: None, success: Some(true) };
    assert_eq!(other.build_success(), None);
    assert!(other.success());
    let bare = Output { reason: None, manifest_path: None, message: None, success: None };
    assert_eq!(bare.build_success(), None);
    assert!(!bare.success());
}

#[test]
fn rule_reads_the_code() {
    assert_eq!(warning().rule(), Some("unused_variables"));
    assert_eq!(build_finished(true).rule(), None);
}
