//! Data structures mirroring `cargo --message-format json` output, their
//! mathematical views, and the accessors that the formatters read.

use vstd::prelude::*;

use crate::level::{level_of, Level};
use crate::text::str_equals;

verus! {

/// One line of cargo's JSON message stream.
#[derive(Debug, Hash, PartialEq, Eq, PartialOrd, Ord)]
pub struct Output {
    pub reason: Option<String>,
    pub manifest_path: Option<String>,
    pub message: Option<Message>,
    pub success: Option<bool>,
}

/// The compiler diagnostic carried by a `compiler-message` line.
#[derive(Debug, Default, Hash, PartialEq, Eq, PartialOrd, Ord)]
pub struct Message {
    pub code: Option<Code>,
    pub level: Option<String>,
    pub message: Option<String>,
    pub spans: Vec<Span>,
    pub rendered: Option<String>,
}

/// The lint or error code of a diagnostic.
#[derive(Debug, Hash, PartialEq, Eq, PartialOrd, Ord)]
pub struct Code {
    pub code: Option<String>,
}

/// A source location of a diagnostic.
#[derive(Debug, Hash, PartialEq, Eq, PartialOrd, Ord)]
pub struct Span {
    pub file_name: Option<String>,
    pub line_start: Option<usize>,
    pub line_end: Option<usize>,
    pub column_start: Option<usize>,
    pub column_end: Option<usize>,
}

/// The characters of an optional string.
pub open spec fn text_of(s: Option<String>) -> Option<Seq<char>> {
    match s {
        Some(t) => Some(t@),
        None => None,
    }
}

/// The characters of an optional string slice.
pub open spec fn str_text(s: Option<&str>) -> Option<Seq<char>> {
    match s {
        Some(t) => Some(t@),
        None => None,
    }
}

/// The value of a [`Span`].
pub struct SpanView {
    pub file_name: Option<Seq<char>>,
    pub line_start: Option<usize>,
    pub line_end: Option<usize>,
    pub column_start: Option<usize>,
    pub column_end: Option<usize>,
}

/// The value of a [`Code`].
pub struct CodeView {
    pub code: Option<Seq<char>>,
}

/// The value of a [`Message`].
pub struct MessageView {
    pub code: Option<CodeView>,
    pub level: Option<Seq<char>>,
    pub message: Option<Seq<char>>,
    pub spans: Seq<SpanView>,
    pub rendered: Option<Seq<char>>,
}

/// The value of an [`Output`].
pub struct OutputView {
    pub reason: Option<Seq<char>>,
    pub manifest_path: Option<Seq<char>>,
    pub message: Option<MessageView>,
    pub success: Option<bool>,
}

impl View for Span {
    type V = SpanView;

    open spec fn view(&self) -> SpanView {
        SpanView {
            file_name: text_of(self.file_name),
            line_start: self.line_start,
            line_end: self.line_end,
            column_start: self.column_start,
            column_end: self.column_end,
        }
    }
}

impl View for Code {
    type V = CodeView;

    open spec fn view(&self) -> CodeView {
        CodeView { code: text_of(self.code) }
    }
}

/// The values of a sequence of spans.
pub open spec fn spans_view(spans: Seq<Span>) -> Seq<SpanView> {
    spans.map_values(|s: Span| s@)
}

impl View for Message {
    type V = MessageView;

    open spec fn view(&self) -> MessageView {
        MessageView {
            code: match self.code {
                Some(c) => Some(c@),
                None => None,
            },
            level: text_of(self.level),
            message: text_of(self.message),
            spans: spans_view(self.spans@),
            rendered: text_of(self.rendered),
        }
    }
}

impl View for Output {
    type V = OutputView;

    open spec fn view(&self) -> OutputView {
        OutputView {
            reason: text_of(self.reason),
            manifest_path: text_of(self.manifest_path),
            message: match self.message {
                Some(m) => Some(m@),
                None => None,
            },
            success: self.success,
        }
    }
}

/// The values of a sequence of outputs.
pub open spec fn outputs_view(outputs: Seq<Output>) -> Seq<OutputView> {
    outputs.map_values(|o: Output| o@)
}

impl OutputView {
    /// The first span of the diagnostic, if it has one.
    pub open spec fn first_span(self) -> Option<SpanView> {
        match self.message {
            Some(m) => if m.spans.len() > 0 {
                Some(m.spans[0])
            } else {
                None
            },
            None => None,
        }
    }

    pub open spec fn success(self) -> bool {
        self.success == Some(true)
    }

    /// The `success` flag of a `build-finished` line; `None` for every other line.
    pub open spec fn build_success(self) -> Option<bool> {
        if self.reason == Some("build-finished"@) {
            self.success
        } else {
            None
        }
    }

    pub open spec fn level(self) -> Option<Seq<char>> {
        match self.message {
            Some(m) => m.level,
            None => None,
        }
    }

    pub open spec fn text(self) -> Option<Seq<char>> {
        match self.message {
            Some(m) => m.message,
            None => None,
        }
    }

    pub open spec fn rendered(self) -> Option<Seq<char>> {
        match self.message {
            Some(m) => m.rendered,
            None => None,
        }
    }

    /// The code of the diagnostic (the lint name or the error number).
    pub open spec fn rule(self) -> Option<Seq<char>> {
        match self.message {
            Some(m) => match m.code {
                Some(c) => c.code,
                None => None,
            },
            None => None,
        }
    }

    pub open spec fn file_name(self) -> Option<Seq<char>> {
        match self.first_span() {
            Some(s) => s.file_name,
            None => None,
        }
    }

    pub open spec fn line_start(self) -> Option<usize> {
        match self.first_span() {
            Some(s) => s.line_start,
            None => None,
        }
    }

    pub open spec fn line_end(self) -> Option<usize> {
        match self.first_span() {
            Some(s) => s.line_end,
            None => None,
        }
    }

    pub open spec fn column_start(self) -> Option<usize> {
        match self.first_span() {
            Some(s) => s.column_start,
            None => None,
        }
    }

    pub open spec fn column_end(self) -> Option<usize> {
        match self.first_span() {
            Some(s) => s.column_end,
            None => None,
        }
    }

    /// The level string of the diagnostic names `level`; a missing level
    /// counts as the empty string, which names no level.
    pub open spec fn is_level(self, level: Level) -> bool {
        match self.level() {
            Some(l) => level_of(l) == Some(level),
            None => level_of(Seq::empty()) == Some(level),
        }
    }

    /// An error- or warning-level diagnostic: the lines that the reports keep.
    pub open spec fn is_finding(self) -> bool {
        self.is_level(Level::Error) || self.is_level(Level::Warning)
    }
}

impl Output {
    /// The `success` flag, `false` when it is absent.
    pub fn success(&self) -> (r: bool)
        ensures
            r == self@.success(),
    {
        match self.success {
            Some(b) => b,
            None => false,
        }
    }

    /// The `success` flag of a `build-finished` line; `None` on any other line.
    pub fn build_success(&self) -> (r: Option<bool>)
        ensures
            r == self@.build_success(),
    {
        match &self.reason {
            Some(reason) => if str_equals(reason.as_str(), "build-finished") {
                self.success
            } else {
                None
            },
            None => None,
        }
    }

    pub fn level(&self) -> (r: Option<&str>)
        ensures
            str_text(r) == self@.level(),
    {
        match &self.message {
            Some(m) => match &m.level {
                Some(l) => Some(l.as_str()),
                None => None,
            },
            None => None,
        }
    }

    fn first_span(&self) -> (r: Option<&Span>)
        ensures
            match r {
                Some(s) => self@.first_span() == Some(s@),
                None => self@.first_span() is None,
            },
    {
        match &self.message {
            Some(m) => if m.spans.len() > 0 {
                Some(&m.spans[0])
            } else {
                None
            },
            None => None,
        }
    }

    pub fn line_start(&self) -> (r: Option<usize>)
        ensures
            r == self@.line_start(),
    {
        match self.first_span() {
            Some(s) => s.line_start,
            None => None,
        }
    }

    pub fn line_end(&self) -> (r: Option<usize>)
        ensures
            r == self@.line_end(),
    {
        match self.first_span() {
            Some(s) => s.line_end,
            None => None,
        }
    }

    pub fn column_start(&self) -> (r: Option<usize>)
        ensures
            r == self@.column_start(),
    {
        match self.first_span() {
            Some(s) => s.column_start,
            None => None,
        }
    }

    pub fn column_end(&self) -> (r: Option<usize>)
        ensures
            r == self@.column_end(),
    {
        match self.first_span() {
            Some(s) => s.column_end,
            None => None,
        }
    }

    pub fn file_name(&self) -> (r: Option<&str>)
        ensures
            str_text(r) == self@.file_name(),
    {
        match self.first_span() {
            Some(s) => match &s.file_name {
                Some(f) => Some(f.as_str()),
                None => None,
            },
            None => None,
        }
    }

    /// The code of the diagnostic, if it carries one.
    pub fn rule(&self) -> (r: Option<&str>)
        ensures
            str_text(r) == self@.rule(),
    {
        match &self.message {
            Some(m) => match &m.code {
                Some(c) => match &c.code {
                    Some(code) => Some(code.as_str()),
                    None => None,
                },
                None => None,
            },
            None => None,
        }
    }

    pub fn is_level(&self, level: &Level) -> (r: bool)
        ensures
            r == self@.is_level(*level),
    {
        let parsed = match self.level() {
            Some(l) => Level::from_str(l),
            None => Level::from_str(""),
        };
        proof {
            reveal_strlit("");
            assert(""@ =~= Seq::<char>::empty());
        }
        match parsed {
            Some(l) => l == *level,
            None => false,
        }
    }

    pub fn rendered(&self) -> (r: Option<&str>)
        ensures
            str_text(r) == self@.rendered(),
    {
        match &self.message {
            Some(m) => match &m.rendered {
                Some(t) => Some(t.as_str()),
                None => None,
            },
            None => None,
        }
    }

    pub fn message(&self) -> (r: Option<String>)
        ensures
            text_of(r) == self@.text(),
    {
        match &self.message {
            Some(m) => match &m.message {
                Some(t) => Some(t.clone()),
                None => None,
            },
            None => None,
        }
    }
}

/// An output is of a level exactly when its level string is literally that
/// level's name: `error` for [`Level::Error`], `warning` for
/// [`Level::Warning`]; any other string (`note`, `help`, `failure-note`,
/// `ERROR`, …) and a missing level make it neither. So a finding's level
/// string is `error` or `warning`.
pub proof fn lemma_is_level_is_literal(o: OutputView)
    ensures
        o.is_level(Level::Error) <==> o.level() == Some("error"@),
        o.is_level(Level::Warning) <==> o.level() == Some("warning"@),
        o.is_finding() ==> (o.level() == Some("error"@) || o.level() == Some("warning"@)),
        !(o.is_level(Level::Error) && o.is_level(Level::Warning)),
{
    reveal_strlit("error");
    reveal_strlit("warning");
    assert("error"@ != "warning"@) by {
        assert("error"@.len() != "warning"@.len());
    }
    assert(Seq::<char>::empty() != "error"@) by {
        assert("error"@.len() != 0);
    }
    assert(Seq::<char>::empty() != "warning"@) by {
        assert("warning"@.len() != 0);
    }
}

} // verus!
