//! Formats `cargo clippy --message-format json` output for GitHub Actions.

pub mod collect;
pub mod demo;
pub mod level;
pub mod order;
pub mod output;
pub mod print;
pub mod text;

use vstd::prelude::*;

use crate::collect::{count_level, diagnostics, error_log, lines_view, parse, report_of};
use crate::level::Level;
use crate::output::{text_of, Output, OutputView};
use crate::print::{
    annotations, github_pr_annotation, github_summary, human, human_text, summary_text,
};

verus! {

/// Output mode selected at the CLI.
#[derive(Copy, Clone, Debug, PartialEq, Eq, Structural, PartialOrd, Ord, Hash)]
#[non_exhaustive]
pub enum Mode {
    /// Convenience mode for GitHub Actions: the Markdown summary goes to
    /// `$GITHUB_STEP_SUMMARY`, the PR workflow commands to stdout, and the
    /// exit status follows the [`RunReport`].
    Github,
    /// Markdown table for `$GITHUB_STEP_SUMMARY`.
    GithubSummary,
    /// GitHub workflow commands for inline PR annotations.
    GithubPrAnnotation,
    /// Plain rendered diagnostics.
    Human,
}

/// Summary of what a run observed in the clippy stream.
#[derive(Debug, Clone, Copy)]
pub struct RunReport {
    /// Number of unique error-level diagnostics.
    pub errors: usize,
    /// Number of unique warning-level diagnostics.
    pub warnings: usize,
    /// At least one `build-finished` message reported `success: true`.
    pub any_success: bool,
    /// At least one `build-finished` message reported `success: false`.
    pub any_failure: bool,
}

impl RunReport {
    /// Clippy would have exited non-zero: the build failed or at least one
    /// error-level diagnostic was emitted.
    pub open spec fn failed(self) -> bool {
        self.errors > 0 || self.any_failure
    }

    pub fn is_failure(&self) -> (r: bool)
        ensures
            r == self.failed(),
    {
        self.errors > 0 || self.any_failure
    }
}

impl Default for RunReport {
    fn default() -> (r: Self)
        ensures
            r == (RunReport { errors: 0, warnings: 0, any_success: false, any_failure: false }),
    {
        RunReport { errors: 0, warnings: 0, any_success: false, any_failure: false }
    }
}

/// Declares `std::io::Error` to the verifier; its contents stay opaque.
#[verifier::external_type_specification]
#[verifier::external_body]
pub struct ExIoError(std::io::Error);

/// Errors of a run.
#[derive(Debug)]
#[non_exhaustive]
pub enum Error {
    /// An I/O error while reading input or writing output.
    Io(std::io::Error),
}

impl From<std::io::Error> for Error {
    fn from(e: std::io::Error) -> (r: Self)
        ensures
            r == Error::Io(e),
    {
        Error::Io(e)
    }
}

impl vstd::std_specs::convert::FromSpecImpl<std::io::Error> for Error {
    open spec fn obeys_from_spec() -> bool {
        true
    }

    open spec fn from_spec(e: std::io::Error) -> Self {
        Error::Io(e)
    }
}

/// The `Display` text of an I/O error, as `format!` writes it. Nothing is
/// stated of it: for operating-system errors it depends on the machine.
#[verifier::external_body]
fn io_error_text(e: &std::io::Error) -> String {
    format!("{e}")
}

/// The message of an I/O error whose text is `detail`.
pub fn io_message(detail: &str) -> (r: String)
    ensures
        r@ == "I/O error: "@ + detail@,
{
    let mut r = String::from_str("I/O error: ");
    r.append(detail);
    r
}

impl Error {
    /// The message of the error: `I/O error: ` followed by the I/O error's
    /// text, as [`io_message`] builds it from that text.
    pub fn to_string(&self) -> (r: String)
        ensures
            exists|detail: Seq<char>| r@ == "I/O error: "@ + detail,
    {
        match self {
            Error::Io(e) => {
                let detail = io_error_text(e);
                io_message(detail.as_str())
            },
        }
    }

    /// The I/O error that caused this error.
    pub fn source(&self) -> (r: &std::io::Error)
        ensures
            match self {
                Error::Io(e) => r == e,
            },
    {
        match self {
            Error::Io(e) => e,
        }
    }
}

/// What a run writes: the report, the text for stdout, the log for stderr,
/// and in [`Mode::Github`] the summary for `$GITHUB_STEP_SUMMARY`.
pub struct RunOutput {
    pub report: RunReport,
    pub stdout: String,
    pub stderr: String,
    pub summary: Option<String>,
}

/// The stdout text of a run in `mode`: the formatted diagnostics and a final
/// line feed; in [`Mode::Github`] nothing when there are no annotations.
pub open spec fn stdout_text(mode: Mode, diagnostics: Seq<OutputView>, report: RunReport) -> Seq<char> {
    match mode {
        Mode::Github => if annotations(diagnostics).len() == 0 {
            Seq::empty()
        } else {
            annotations(diagnostics) + "\n"@
        },
        Mode::GithubSummary => summary_text(diagnostics, report.any_success) + "\n"@,
        Mode::GithubPrAnnotation => annotations(diagnostics) + "\n"@,
        Mode::Human => human_text(diagnostics) + "\n"@,
    }
}

/// The text for `$GITHUB_STEP_SUMMARY`, written in [`Mode::Github`] only.
pub open spec fn summary_file_text(mode: Mode, diagnostics: Seq<OutputView>, report: RunReport) -> Option<
    Seq<char>,
> {
    match mode {
        Mode::Github => Some(summary_text(diagnostics, report.any_success) + "\n"@),
        _ => None,
    }
}

/// Formats the parsed lines of a clippy stream according to `mode`.
///
/// Each line is the output it holds, or the text of the JSON error that
/// rejected it; rejected lines are logged with their line number and
/// skipped. Only error- and warning-level diagnostics are kept, each once,
/// in the order of [`crate::order::output_order`].
pub fn run(mode: Mode, lines: Vec<Result<Output, String>>) -> (r: RunOutput)
    ensures
        r.report == report_of(lines_view(lines@)),
        r.report.errors == count_level(diagnostics(lines_view(lines@)), Level::Error),
        r.report.warnings == count_level(diagnostics(lines_view(lines@)), Level::Warning),
        r.stderr@ == error_log(lines_view(lines@)),
        r.stdout@ == stdout_text(mode, diagnostics(lines_view(lines@)), r.report),
        text_of(r.summary) == summary_file_text(mode, diagnostics(lines_view(lines@)), r.report),
{
    let (found, report, log) = parse(lines);
    let diags = found.as_slice();
    match mode {
        Mode::Github => {
            let mut summary = github_summary(diags, report.any_success);
            summary.append("\n");
            let annot = github_pr_annotation(diags);
            let mut stdout = String::new();
            if !annot.as_str().is_empty() {
                stdout.append(annot.as_str());
                stdout.append("\n");
            }
            RunOutput { report, stdout, stderr: log, summary: Some(summary) }
        },
        Mode::GithubSummary => {
            let mut stdout = github_summary(diags, report.any_success);
            stdout.append("\n");
            RunOutput { report, stdout, stderr: log, summary: None }
        },
        Mode::GithubPrAnnotation => {
            let mut stdout = github_pr_annotation(diags);
            stdout.append("\n");
            RunOutput { report, stdout, stderr: log, summary: None }
        },
        Mode::Human => {
            let mut stdout = human(diags);
            stdout.append("\n");
            RunOutput { report, stdout, stderr: log, summary: None }
        },
    }
}

/// The exit status that mirrors clippy's: in [`Mode::Github`] 1 when the
/// report is a failure, 0 otherwise; the other modes are pure formatters and
/// always give 0.
pub fn exit_code(mode: Mode, report: &RunReport) -> (r: u8)
    ensures
        r == (if mode == Mode::Github && report.failed() {
            1u8
        } else {
            0u8
        }),
{
    if mode == Mode::Github && report.is_failure() {
        1
    } else {
        0
    }
}

/// A report fails when some error was found, and when some build failed;
/// without either it does not fail.
pub proof fn lemma_failure_causes(report: RunReport)
    ensures
        report.errors > 0 ==> report.failed(),
        report.any_failure ==> report.failed(),
        report.errors == 0 && !report.any_failure ==> !report.failed(),
{
}

/// Human mode prints the whole rendered text of each diagnostic, one after
/// the other, and a final line feed: for one diagnostic its rendered text
/// (nothing without one), for several the texts of each part in turn.
pub proof fn lemma_human_mode(a: Seq<OutputView>, b: Seq<OutputView>, o: OutputView, report: RunReport)
    ensures
        stdout_text(Mode::Human, seq![o], report) == match o.rendered() {
            Some(r) => r,
            None => Seq::<char>::empty(),
        } + "\n"@,
        stdout_text(Mode::Human, a + b, report) == human_text(a) + human_text(b) + "\n"@,
        stdout_text(Mode::Human, Seq::empty(), report) == "\n"@,
{
    crate::print::lemma_human_text(a, b, o);
    assert(Seq::<char>::empty() + "\n"@ =~= "\n"@);
}

} // verus!
