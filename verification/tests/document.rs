use ronin::document::{
    completion_enabled, hash_bytes, title_from, ByteFidelityProfile, EditorDocument, LineEnding,
    SavedSnapshot,
};
use std::path::PathBuf;

#[test]
fn completion_suppressed_when_oversize() {
    // Oversize => completion off (mirrors highlighting/squiggles suppression).
    assert!(
        !completion_enabled(true, false),
        "completion must be suppressed on an oversize file (E003 degrade reuse)"
    );
    // Not oversize => completion on (when no snippet session is active).
    assert!(
        completion_enabled(false, false),
        "completion runs normally below the large-file threshold"
    );
}

#[test]
fn completion_also_suppressed_during_snippet_session() {
    // While a snippet tab-stop session is active, completion is off so `Tab`
    // unambiguously drives snippet navigation, independent of oversize.
    assert!(!completion_enabled(false, true));
    assert!(!completion_enabled(true, true));
}

#[test]
fn oversize_decision_matches_e003_threshold() {
    // A fresh document has no snippet session, so the snippet flag is `false`.
    let mut doc = EditorDocument::new_untitled(1, 1);
    doc.buffer = "x".repeat(1_000);
    let threshold = 100u64;
    assert!(doc.oversize(threshold), "1000 bytes > 100 threshold");
    assert!(
        !completion_enabled(doc.oversize(threshold), false),
        "an oversize document gates completion off via the E003 signal"
    );

    // A small buffer under the threshold is not oversize, so completion runs.
    doc.buffer = "x".repeat(10);
    assert!(!doc.oversize(threshold));
    assert!(completion_enabled(doc.oversize(threshold), false));
}

#[test]
fn oversize_is_strictly_greater_than() {
    let mut doc = EditorDocument::new_untitled(2, 1);
    doc.buffer = "x".repeat(100);
    assert!(!doc.oversize(100));
    assert!(doc.oversize(99));
    // Bytes, not characters: "é" is two bytes.
    doc.buffer = "é".to_string();
    assert!(doc.oversize(1));
    assert!(!doc.oversize(2));
}

#[test]
fn profile_of_crlf_file() {
    let p = ByteFidelityProfile::from_bytes(b"a\r\nb\r\n");
    assert_eq!(p.line_ending, LineEnding::Crlf);
    assert_eq!(p.dominant, LineEnding::Crlf);
    assert!(p.had_trailing_newline);
    assert!(!p.had_bom);
    assert_eq!(p.original_hash, hash_bytes(b"a\r\nb\r\n"));
}

#[test]
fn profile_of_lf_file_with_bom() {
    let p = ByteFidelityProfile::from_bytes(b"\xEF\xBB\xBFa\nb");
    assert_eq!(p.line_ending, LineEnding::Lf);
    assert_eq!(p.dominant, LineEnding::Lf);
    assert!(!p.had_trailing_newline);
    assert!(p.had_bom);
}

#[test]
fn profile_of_mixed_file_picks_dominant() {
    let p = ByteFidelityProfile::from_bytes(b"a\r\nb\r\nc\n");
    assert_eq!(p.line_ending, LineEnding::Mixed);
    assert_eq!(p.dominant, LineEnding::Crlf);
    // A tie resolves to LF.
    let q = ByteFidelityProfile::from_bytes(b"a\r\nb\n");
    assert_eq!(q.line_ending, LineEnding::Mixed);
    assert_eq!(q.dominant, LineEnding::Lf);
}

#[test]
fn profile_of_text_without_newline_is_lf() {
    let p = ByteFidelityProfile::from_bytes(b"abc");
    assert_eq!(p.line_ending, LineEnding::Lf);
    assert_eq!(p.dominant, LineEnding::Lf);
    assert!(!p.had_trailing_newline);
    let e = ByteFidelityProfile::from_bytes(b"");
    assert_eq!(e.line_ending, LineEnding::Lf);
    assert!(!e.had_bom);
    // A lone `\r` is not a line ending.
    let r = ByteFidelityProfile::from_bytes(b"a\rb");
    assert_eq!(r.line_ending, LineEnding::Lf);
}

#[test]
fn leading_lf_is_lone() {
    let p = ByteFidelityProfile::from_bytes(b"\na\r\n");
    assert_eq!(p.line_ending, LineEnding::Mixed);
    assert_eq!(p.dominant, LineEnding::Lf);
}

#[test]
fn snapshot_matches_its_own_buffer_only() {
    let s = SavedSnapshot::of("hello");
    assert!(s.matches("hello"));
    assert!(!s.matches("hello!"));
    assert!(!s.matches("hellp"));
}

#[test]
fn loaded_document_strips_bom_and_starts_clean() {
    let doc = EditorDocument::from_loaded(7, PathBuf::from("/tmp/x.ron"), b"\xEF\xBB\xBF(a: 1)\r\n")
        .expect("valid UTF-8");
    assert_eq!(doc.buffer, "(a: 1)\r\n");
    assert_eq!(doc.id(), 7);
    assert!(doc.byte_profile.had_bom);
    assert_eq!(doc.byte_profile.line_ending, LineEnding::Crlf);
    assert!(!doc.dirty());
    assert_eq!(doc.edit_generation(), 0);
    assert_eq!(doc.title(), "x.ron");
}

#[test]
fn non_utf8_bytes_are_rejected() {
    assert!(EditorDocument::from_loaded(1, PathBuf::from("/tmp/y.ron"), b"\xFF\xFE").is_err());
    // A BOM followed by an invalid sequence is rejected too.
    assert!(EditorDocument::from_loaded(1, PathBuf::from("/tmp/y.ron"), b"\xEF\xBB\xBF\xC0").is_err());
}

#[test]
fn editing_makes_dirty_and_saving_cleans() {
    let mut doc = EditorDocument::from_loaded(3, PathBuf::from("/tmp/z.ron"), b"()").unwrap();
    doc.buffer.push_str(" ");
    doc.on_edit();
    assert!(doc.dirty());
    assert_eq!(doc.edit_generation(), 1);
    doc.mark_saved();
    assert!(!doc.dirty());
}

#[test]
fn restored_document_keeps_its_dirty_state() {
    let saved = SavedSnapshot::of("old");
    let profile = ByteFidelityProfile::from_bytes(b"old");
    let doc = EditorDocument::from_restorable(9, None, "new".to_string(), saved, profile, Some(4));
    assert!(doc.dirty());
    assert_eq!(doc.title(), "Untitled-4");
    assert_eq!(doc.edit_generation(), 0);
    let clean = EditorDocument::from_restorable(10, None, "old".to_string(), saved, profile, None);
    assert!(!clean.dirty());
    assert_eq!(clean.title(), "Untitled");
}

#[test]
fn untitled_titles() {
    assert_eq!(EditorDocument::new_untitled(1, 1).title(), "Untitled-1");
    assert_eq!(EditorDocument::new_untitled(1, 0).title(), "Untitled-0");
    assert_eq!(EditorDocument::new_untitled(1, 42).title(), "Untitled-42");
    assert_eq!(EditorDocument::new_untitled(1, 4_294_967_295).title(), "Untitled-4294967295");
    assert_eq!(title_from(None, Some(1090)), "Untitled-1090");
    assert_eq!(title_from(Some("a.ron".to_string()), Some(3)), "a.ron");
    assert_eq!(title_from(None, None), "Untitled");
}

#[test]
fn new_untitled_profile_defaults() {
    let doc = EditorDocument::new_untitled(5, 2);
    assert_eq!(doc.buffer, "");
    assert!(doc.path.is_none());
    assert_eq!(doc.byte_profile.line_ending, LineEnding::Lf);
    assert_eq!(doc.byte_profile.dominant, LineEnding::Lf);
    assert!(!doc.byte_profile.had_trailing_newline);
    assert!(!doc.byte_profile.had_bom);
    assert_eq!(doc.byte_profile.original_hash, hash_bytes(b""));
    assert!(!doc.dirty());
}

#[test]
fn cursor_jump_is_clamped_and_taken_once() {
    let mut doc = EditorDocument::new_untitled(1, 1);
    doc.buffer = "héllo".to_string();
    assert_eq!(doc.char_len(), 5);
    assert!(!doc.has_pending_cursor_jump());
    doc.request_cursor_jump(99);
    assert!(doc.has_pending_cursor_jump());
    assert_eq!(doc.take_cursor_jump(), Some(5));
    assert_eq!(doc.take_cursor_jump(), None);
    doc.request_cursor_jump(2);
    assert_eq!(doc.take_cursor_jump(), Some(2));
}

#[test]
fn reparse_requests_coalesce() {
    let mut doc = EditorDocument::new_untitled(1, 1);
    assert!(doc.request_reparse().is_none());
    doc.buffer = "(".to_string();
    doc.on_edit();
    doc.buffer = "()".to_string();
    doc.on_edit();
    let (generation, text) = doc.request_reparse().expect("an edit makes a request due");
    assert_eq!(generation, 2);
    assert_eq!(text, "()");
    assert!(doc.request_reparse().is_none());
    assert!(doc.accepts_parse_result(2));
    assert!(!doc.accepts_parse_result(1));
}
