//! Lexical errors, recorded while the scan goes on.

use vstd::prelude::*;
use vstd::string::StringExecFns;

verus! {

/// The status of a scan that recorded at least one diagnostic.
pub const LEXICAL_ERROR: u8 = 65;

/// What went wrong.
#[derive(Debug, PartialEq, Eq, Clone, Copy, Structural)]
pub enum DiagnosticKind {
    /// A character that starts no token.
    UnexpectedCharacter(char),
    /// A string literal whose line ended before its closing quote.
    UnterminatedString,
}

/// One lexical error.
#[derive(Debug, PartialEq, Eq, Clone)]
pub struct Diagnostic {
    /// What went wrong.
    pub kind: DiagnosticKind,
    /// The line it was found on, counted from 1.
    pub line: usize,
    /// The error in words.
    pub message: String,
}

/// A diagnostic as a mathematical value.
pub struct DiagnosticView {
    pub kind: DiagnosticKind,
    pub line: nat,
    pub message: Seq<char>,
}

impl View for Diagnostic {
    type V = DiagnosticView;

    open spec fn view(&self) -> DiagnosticView {
        DiagnosticView { kind: self.kind, line: self.line as nat, message: self.message@ }
    }
}

/// The views of a sequence of diagnostics.
pub open spec fn diagnostic_views(diagnostics: Seq<Diagnostic>) -> Seq<DiagnosticView> {
    Seq::new(diagnostics.len(), |k: int| diagnostics[k]@)
}

/// The words for each kind of error.
pub open spec fn message_of(kind: DiagnosticKind) -> Seq<char> {
    match kind {
        DiagnosticKind::UnexpectedCharacter(c) => "Unexpected character: "@.push(c),
        DiagnosticKind::UnterminatedString => "Unterminated string."@,
    }
}

/// The diagnostic for an error of `kind` on `line`.
pub open spec fn diagnostic_at(kind: DiagnosticKind, line: nat) -> DiagnosticView {
    DiagnosticView { kind, line, message: message_of(kind) }
}

/// The status of a scan: zero where nothing was recorded,
/// [`LEXICAL_ERROR`] where anything was, however much.
pub open spec fn status_of(recorded: nat) -> u8 {
    if recorded == 0 {
        0
    } else {
        LEXICAL_ERROR
    }
}

impl Diagnostic {
    /// The diagnostic for an error of `kind` on `line`, with its message.
    pub fn new(kind: DiagnosticKind, line: usize) -> (diagnostic: Diagnostic)
        ensures
            diagnostic@ == diagnostic_at(kind, line as nat),
    {
        let message = match kind {
            DiagnosticKind::UnexpectedCharacter(c) => {
                let mut message = String::from_str("Unexpected character: ");
                message.push(c);
                message
            },
            DiagnosticKind::UnterminatedString => String::from_str("Unterminated string."),
        };
        Diagnostic { kind, line, message }
    }
}

} // verus!
