//! Severity, labeled spans and diagnostics: a severity-tagged,
//! source-located report of a problem, independent of rendering.

use vstd::prelude::*;

use crate::source::FileId;
use crate::span::Span;

verus! {

/// How serious a diagnostic is. The lexer and parser only produce
/// `Error`; the other severities exist for other producers.
#[derive(Debug, Clone, Copy, PartialEq, Eq, Structural)]
pub enum Severity {
    Error,
    Warning,
    Note,
    Help,
}

/// The display text of each severity.
pub open spec fn severity_text(s: Severity) -> Seq<char> {
    match s {
        Severity::Error => "error"@,
        Severity::Warning => "warning"@,
        Severity::Note => "note"@,
        Severity::Help => "help"@,
    }
}

impl Severity {
    pub fn as_str(&self) -> (r: &'static str)
        ensures
            r@ == severity_text(*self),
    {
        match self {
            Severity::Error => "error",
            Severity::Warning => "warning",
            Severity::Note => "note",
            Severity::Help => "help",
        }
    }
}

/// A span in a file with an optional message. A primary label marks
/// the main offending location; a secondary one marks supporting
/// context.
#[derive(Debug, Clone, PartialEq)]
pub struct Label {
    pub span: Span,
    pub file_id: FileId,
    pub message: Option<String>,
    pub is_primary: bool,
}

impl Label {
    pub fn primary(file_id: FileId, span: Span) -> (l: Label)
        ensures
            l.span == span,
            l.file_id == file_id,
            l.message is None,
            l.is_primary,
    {
        Label { span, file_id, message: None, is_primary: true }
    }

    pub fn secondary(file_id: FileId, span: Span) -> (l: Label)
        ensures
            l.span == span,
            l.file_id == file_id,
            l.message is None,
            !l.is_primary,
    {
        Label { span, file_id, message: None, is_primary: false }
    }

    pub fn with_message(self, message: &str) -> (l: Label)
        ensures
            l.span == self.span,
            l.file_id == self.file_id,
            l.is_primary == self.is_primary,
            l.message is Some && l.message->0@ == message@,
    {
        Label {
            span: self.span,
            file_id: self.file_id,
            message: Some(message.to_owned()),
            is_primary: self.is_primary,
        }
    }
}

/// A severity, a message, an optional machine-readable code, ordered
/// labels, ordered free-text notes, and optional help text.
#[derive(Debug, Clone, PartialEq)]
pub struct Diagnostic {
    pub message: String,
    pub severity: Severity,
    pub code: Option<String>,
    pub labels: Vec<Label>,
    pub notes: Vec<String>,
    pub help: Option<String>,
}

impl Diagnostic {
    pub fn new(severity: Severity) -> (d: Diagnostic)
        ensures
            d.severity == severity,
            d.message@.len() == 0,
            d.code is None,
            d.labels@.len() == 0,
            d.notes@.len() == 0,
            d.help is None,
    {
        Diagnostic {
            severity,
            message: String::new(),
            code: None,
            labels: Vec::new(),
            notes: Vec::new(),
            help: None,
        }
    }

    pub fn error(message: &str) -> (d: Diagnostic)
        ensures
            d.severity == Severity::Error,
            d.message@ == message@,
            d.code is None,
            d.labels@.len() == 0,
            d.notes@.len() == 0,
            d.help is None,
    {
        Diagnostic::new(Severity::Error).with_message(message)
    }

    pub fn warning(message: &str) -> (d: Diagnostic)
        ensures
            d.severity == Severity::Warning,
            d.message@ == message@,
            d.code is None,
            d.labels@.len() == 0,
            d.notes@.len() == 0,
            d.help is None,
    {
        Diagnostic::new(Severity::Warning).with_message(message)
    }

    pub fn note(message: &str) -> (d: Diagnostic)
        ensures
            d.severity == Severity::Note,
            d.message@ == message@,
            d.code is None,
            d.labels@.len() == 0,
            d.notes@.len() == 0,
            d.help is None,
    {
        Diagnostic::new(Severity::Note).with_message(message)
    }

    pub fn help(message: &str) -> (d: Diagnostic)
        ensures
            d.severity == Severity::Help,
            d.message@ == message@,
            d.code is None,
            d.labels@.len() == 0,
            d.notes@.len() == 0,
            d.help is None,
    {
        Diagnostic::new(Severity::Help).with_message(message)
    }

    pub fn with_message(self, message: &str) -> (d: Diagnostic)
        ensures
            d == (Diagnostic { message: d.message, ..self }),
            d.message@ == message@,
    {
        Diagnostic { message: message.to_owned(), ..self }
    }

    pub fn with_code(self, code: &str) -> (d: Diagnostic)
        ensures
            d == (Diagnostic { code: d.code, ..self }),
            d.code is Some && d.code->0@ == code@,
    {
        Diagnostic { code: Some(code.to_owned()), ..self }
    }

    pub fn with_notes(self, notes: Vec<String>) -> (d: Diagnostic)
        ensures
            d == (Diagnostic { notes: d.notes, ..self }),
            d.notes@ == self.notes@ + notes@,
    {
        let mut target = self.notes;
        let mut rest = notes;
        target.append(&mut rest);
        Diagnostic { notes: target, ..self }
    }

    pub fn with_note(self, note: &str) -> (d: Diagnostic)
        ensures
            d == (Diagnostic { notes: d.notes, ..self }),
            d.notes@.len() == self.notes@.len() + 1,
            d.notes@.subrange(0, self.notes@.len() as int) == self.notes@,
            d.notes@.last()@ == note@,
    {
        let mut target = self.notes;
        target.push(note.to_owned());
        Diagnostic { notes: target, ..self }
    }

    pub fn with_labels(self, labels: Vec<Label>) -> (d: Diagnostic)
        ensures
            d == (Diagnostic { labels: d.labels, ..self }),
            d.labels@ == self.labels@ + labels@,
    {
        let mut target = self.labels;
        let mut rest = labels;
        target.append(&mut rest);
        Diagnostic { labels: target, ..self }
    }

    pub fn with_label(self, label: Label) -> (d: Diagnostic)
        ensures
            d == (Diagnostic { labels: d.labels, ..self }),
            d.labels@ == self.labels@.push(label),
    {
        let mut target = self.labels;
        target.push(label);
        Diagnostic { labels: target, ..self }
    }

    pub fn with_help(self, help: &str) -> (d: Diagnostic)
        ensures
            d == (Diagnostic { help: d.help, ..self }),
            d.help is Some && d.help->0@ == help@,
    {
        Diagnostic { help: Some(help.to_owned()), ..self }
    }
}

/// An error that can present itself as a diagnostic. Each implementor
/// says in `diagnostic_spec` what its conversion promises.
pub trait DiagnosticConvertible {
    spec fn diagnostic_spec(&self, d: Diagnostic) -> bool;

    fn into_diagnostic(self) -> (d: Diagnostic)
        ensures
            self.diagnostic_spec(d),
    ;
}

} // verus!
