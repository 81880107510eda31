use ronin::diagnostics::{Diagnostic, DiagnosticCode, Severity, TextRange};

#[test]
fn severity_values_are_stable() {
    assert_eq!(Severity::Error.as_str(), "error");
    assert_eq!(Severity::Warning.as_str(), "warning");
    assert_eq!(Severity::Error.to_string(), "error");
    // Ord is well-defined (Error < Warning by declaration order).
    assert!(Severity::Error < Severity::Warning);
}

#[test]
fn codes_are_namespaced_unique_and_have_severity() {
    let all = [
        DiagnosticCode::UnexpectedToken,
        DiagnosticCode::UnclosedDelimiter,
        DiagnosticCode::NestingDepthExceeded,
        DiagnosticCode::MissingSeparator,
        DiagnosticCode::MissingValue,
    ];
    let mut seen = std::collections::BTreeSet::new();
    for c in all {
        let s = c.code();
        assert!(
            s.starts_with("RON-P"),
            "code {s:?} must be in the RON-P parse namespace"
        );
        assert_eq!(s.len(), "RON-P0000".len(), "codes are RON-Pxxxx (4 digits)");
        assert!(
            s["RON-P".len()..].chars().all(|ch| ch.is_ascii_digit()),
            "code {s:?} must end in 4 decimal digits"
        );
        assert!(seen.insert(s), "duplicate code string {s:?}");
        // default_severity must be total (no panic).
        let _ = c.default_severity();
        assert_eq!(c.to_string(), s);
    }
}

#[test]
fn code_strings_are_pinned() {
    assert_eq!(DiagnosticCode::UnexpectedToken.code(), "RON-P0001");
    assert_eq!(DiagnosticCode::UnclosedDelimiter.code(), "RON-P0002");
    assert_eq!(DiagnosticCode::NestingDepthExceeded.code(), "RON-P0003");
    assert_eq!(DiagnosticCode::MissingSeparator.code(), "RON-P0004");
    assert_eq!(DiagnosticCode::MissingValue.code(), "RON-P0005");
}

#[test]
fn new_uses_default_severity() {
    let r = TextRange::new(2, 5);
    let d = Diagnostic::new(DiagnosticCode::UnexpectedToken, r, "boom");
    assert_eq!(d.code(), DiagnosticCode::UnexpectedToken);
    assert_eq!(d.severity(), Severity::Error);
    assert_eq!(d.range(), r);
    assert_eq!(d.message(), "boom");
}

#[test]
fn warning_renders_its_label() {
    assert_eq!(Severity::Warning.to_string(), "warning");
}

#[test]
fn every_code_defaults_to_error_severity() {
    for c in [
        DiagnosticCode::UnexpectedToken,
        DiagnosticCode::UnclosedDelimiter,
        DiagnosticCode::NestingDepthExceeded,
        DiagnosticCode::MissingSeparator,
        DiagnosticCode::MissingValue,
    ] {
        assert_eq!(c.default_severity(), Severity::Error);
        let d = Diagnostic::new(c, TextRange::new(0, 1), "x");
        assert_eq!(d.severity(), Severity::Error);
    }
}

#[test]
fn text_range_keeps_its_bounds() {
    let r = TextRange::new(7, 11);
    assert_eq!(r.start(), 7);
    assert_eq!(r.end(), 11);
}
