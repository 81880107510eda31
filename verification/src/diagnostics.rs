//! The structured-diagnostic model for error-tolerant parsing.
//!
//! A [`Diagnostic`] records one recovery decision of the parser: a byte range,
//! a message, a [`Severity`] and a stable namespaced [`DiagnosticCode`].
//! Codes and their default severities are a stable public contract: each code
//! maps one-to-one onto a `RON-Pxxxx` string.

use vstd::prelude::*;

verus! {

/// Fixed severity classification for a [`Diagnostic`].
///
/// The set of variants is closed; `Error` orders before `Warning`.
#[derive(Debug, Clone, Copy, PartialEq, Eq, PartialOrd, Ord, Hash, Structural)]
pub enum Severity {
    /// A recovery was required: the input is malformed or incomplete here.
    Error,
    /// A non-fatal concern, reserved for future lints.
    Warning,
}

/// The stable lowercase label of a severity.
pub open spec fn severity_label(s: Severity) -> Seq<char> {
    match s {
        Severity::Error => "error"@,
        Severity::Warning => "warning"@,
    }
}

impl Severity {
    /// The stable lowercase label for this severity (`"error"` / `"warning"`).
    pub fn as_str(self) -> (label: &'static str)
        ensures
            label@ == severity_label(self),
    {
        match self {
            Severity::Error => "error",
            Severity::Warning => "warning",
        }
    }

    /// The label as an owned string (what a `Display` rendering shows).
    pub fn to_string(&self) -> (text: String)
        ensures
            text@ == severity_label(*self),
    {
        String::from_str(self.as_str())
    }
}

/// A stable, namespaced diagnostic code from the `RON-Pxxxx` parse registry.
///
/// Every variant maps one-to-one onto a fixed `RON-Pxxxx` string via
/// [`DiagnosticCode::code`]; existing variants, their strings and their default
/// severities never change.
#[derive(Debug, Clone, Copy, PartialEq, Eq, PartialOrd, Ord, Hash, Structural)]
#[non_exhaustive]
pub enum DiagnosticCode {
    /// `RON-P0001`: an unexpected token where a value was expected.
    UnexpectedToken,
    /// `RON-P0002`: a delimiter was opened but never closed.
    UnclosedDelimiter,
    /// `RON-P0003`: nesting depth exceeded the configured guard.
    NestingDepthExceeded,
    /// `RON-P0004`: a `:` separator was expected but absent.
    MissingSeparator,
    /// `RON-P0005`: a field or map entry was missing its value.
    MissingValue,
}

/// The registry string of a code.
pub open spec fn code_text(c: DiagnosticCode) -> Seq<char> {
    match c {
        DiagnosticCode::UnexpectedToken => "RON-P0001"@,
        DiagnosticCode::UnclosedDelimiter => "RON-P0002"@,
        DiagnosticCode::NestingDepthExceeded => "RON-P0003"@,
        DiagnosticCode::MissingSeparator => "RON-P0004"@,
        DiagnosticCode::MissingValue => "RON-P0005"@,
    }
}

/// The default severity of a code: every parse-recovery code is an error.
pub open spec fn code_default_severity(c: DiagnosticCode) -> Severity {
    match c {
        DiagnosticCode::UnexpectedToken => Severity::Error,
        DiagnosticCode::UnclosedDelimiter => Severity::Error,
        DiagnosticCode::NestingDepthExceeded => Severity::Error,
        DiagnosticCode::MissingSeparator => Severity::Error,
        DiagnosticCode::MissingValue => Severity::Error,
    }
}

/// `true` when `s` has the shape `RON-P` followed by exactly four decimal digits.
pub open spec fn is_parse_namespace_code(s: Seq<char>) -> bool {
    &&& s.len() == 9
    &&& s.subrange(0, 5) == "RON-P"@
    &&& forall|i: int| 5 <= i < 9 ==> '0' <= #[trigger] s[i] <= '9'
}

impl DiagnosticCode {
    /// The stable `RON-Pxxxx` string for this code.
    pub fn code(self) -> (text: &'static str)
        ensures
            text@ == code_text(self),
    {
        match self {
            DiagnosticCode::UnexpectedToken => "RON-P0001",
            DiagnosticCode::UnclosedDelimiter => "RON-P0002",
            DiagnosticCode::NestingDepthExceeded => "RON-P0003",
            DiagnosticCode::MissingSeparator => "RON-P0004",
            DiagnosticCode::MissingValue => "RON-P0005",
        }
    }

    /// The default [`Severity`] for this code; every current code is an error.
    pub fn default_severity(self) -> (severity: Severity)
        ensures
            severity == code_default_severity(self),
            severity == Severity::Error,
    {
        match self {
            DiagnosticCode::UnexpectedToken
            | DiagnosticCode::UnclosedDelimiter
            | DiagnosticCode::NestingDepthExceeded
            | DiagnosticCode::MissingSeparator
            | DiagnosticCode::MissingValue => Severity::Error,
        }
    }

    /// The code string as an owned string (what a `Display` rendering shows).
    pub fn to_string(&self) -> (text: String)
        ensures
            text@ == code_text(*self),
    {
        String::from_str(self.code())
    }
}

/// Every registry code lies in the `RON-P` parse namespace and ends in four
/// decimal digits.
pub proof fn lemma_code_is_namespaced(c: DiagnosticCode)
    ensures
        is_parse_namespace_code(code_text(c)),
{
    reveal_strlit("RON-P");
    reveal_strlit("RON-P0001");
    reveal_strlit("RON-P0002");
    reveal_strlit("RON-P0003");
    reveal_strlit("RON-P0004");
    reveal_strlit("RON-P0005");
    assert(code_text(c).subrange(0, 5) =~= "RON-P"@);
}

/// Distinct codes have distinct registry strings (the mapping is one-to-one).
pub proof fn lemma_code_text_injective(c1: DiagnosticCode, c2: DiagnosticCode)
    ensures
        c1 != c2 ==> code_text(c1) != code_text(c2),
{
    reveal_strlit("RON-P0001");
    reveal_strlit("RON-P0002");
    reveal_strlit("RON-P0003");
    reveal_strlit("RON-P0004");
    reveal_strlit("RON-P0005");
    if c1 != c2 {
        assert(code_text(c1)[8] != code_text(c2)[8]);
    }
}

/// A half-open source byte range `[start, end)`.
#[derive(Debug, Clone, Copy, PartialEq, Eq, Hash, Structural)]
pub struct TextRange {
    start: u32,
    end: u32,
}

impl TextRange {
    /// The range `[start, end)`.
    pub fn new(start: u32, end: u32) -> (range: TextRange)
        ensures
            range.spec_start() == start,
            range.spec_end() == end,
    {
        TextRange { start, end }
    }

    /// The first byte offset of the range.
    pub closed spec fn spec_start(self) -> u32 {
        self.start
    }

    /// The byte offset one past the end of the range.
    pub closed spec fn spec_end(self) -> u32 {
        self.end
    }

    /// The first byte offset of the range.
    pub fn start(&self) -> (start: u32)
        ensures
            start == self.spec_start(),
    {
        self.start
    }

    /// The byte offset one past the end of the range.
    pub fn end(&self) -> (end: u32)
        ensures
            end == self.spec_end(),
    {
        self.end
    }
}

/// A single structured diagnostic produced during error-tolerant parsing.
#[derive(Debug, Clone, PartialEq, Eq)]
#[non_exhaustive]
pub struct Diagnostic {
    /// Byte range the diagnostic refers to.
    pub range: TextRange,
    /// Human-readable description of the recovery.
    pub message: String,
    /// Fixed severity classification.
    pub severity: Severity,
    /// Stable namespaced `RON-Pxxxx` code.
    pub code: DiagnosticCode,
}

impl Diagnostic {
    /// Construct a diagnostic with the code's default severity.
    pub fn new(code: DiagnosticCode, range: TextRange, message: &str) -> (d: Diagnostic)
        ensures
            d.code == code,
            d.range == range,
            d.message@ == message@,
            d.severity == code_default_severity(code),
    {
        Diagnostic { range, message: String::from_str(message), severity: code.default_severity(), code }
    }

    /// This diagnostic's stable code.
    pub fn code(&self) -> (code: DiagnosticCode)
        ensures
            code == self.code,
    {
        self.code
    }

    /// This diagnostic's severity.
    pub fn severity(&self) -> (severity: Severity)
        ensures
            severity == self.severity,
    {
        self.severity
    }

    /// This diagnostic's source byte range.
    pub fn range(&self) -> (range: TextRange)
        ensures
            range == self.range,
    {
        self.range
    }

    /// This diagnostic's human-readable message.
    pub fn message(&self) -> (message: &str)
        ensures
            message@ == self.message@,
    {
        self.message.as_str()
    }
}

} // verus!
