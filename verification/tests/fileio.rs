use ronin::document::{ByteFidelityProfile, EditorDocument, LineEnding};
use ronin::fileio::{
    classify_save_failure, save_bytes, IoErrorClass, OpenError, SaveError, SaveFailure, Stage,
};
use std::path::PathBuf;

fn profile(line_ending: LineEnding, dominant: LineEnding, trailing: bool, bom: bool) -> ByteFidelityProfile {
    ByteFidelityProfile {
        line_ending,
        dominant,
        had_trailing_newline: trailing,
        had_bom: bom,
        original_hash: 0,
    }
}

fn round_trip(raw: &[u8]) -> Vec<u8> {
    let doc = EditorDocument::from_loaded(1, PathBuf::from("/tmp/r.ron"), raw).unwrap();
    save_bytes(&doc.buffer, &doc.byte_profile)
}

#[test]
fn crlf_file_round_trips() {
    let raw = b"(\r\n  a: 1,\r\n)\r\n";
    assert_eq!(round_trip(raw), raw.to_vec());
}

#[test]
fn lf_file_with_bom_and_no_trailing_newline_round_trips() {
    let raw = b"\xEF\xBB\xBF[\n  1,\n]";
    assert_eq!(round_trip(raw), raw.to_vec());
}

#[test]
fn empty_and_bom_only_files_round_trip() {
    assert_eq!(round_trip(b""), b"".to_vec());
    assert_eq!(round_trip(b"\xEF\xBB\xBF"), b"\xEF\xBB\xBF".to_vec());
    assert_eq!(round_trip(b"\n"), b"\n".to_vec());
    assert_eq!(round_trip(b"\r\n"), b"\r\n".to_vec());
}

#[test]
fn mixed_file_normalises_to_dominant() {
    // Two CRLF against one LF: CRLF dominates.
    assert_eq!(round_trip(b"a\r\nb\r\nc\nd"), b"a\r\nb\r\nc\r\nd".to_vec());
    // A tie resolves to LF.
    assert_eq!(round_trip(b"a\r\nb\n"), b"a\nb\n".to_vec());
}

#[test]
fn lone_carriage_return_becomes_a_newline() {
    assert_eq!(
        save_bytes("a\rb", &profile(LineEnding::Lf, LineEnding::Lf, false, false)),
        b"a\nb".to_vec()
    );
    assert_eq!(
        save_bytes("a\r\r\nb", &profile(LineEnding::Crlf, LineEnding::Crlf, false, false)),
        b"a\r\n\r\nb".to_vec()
    );
}

#[test]
fn trailing_newline_follows_the_profile() {
    let with = profile(LineEnding::Lf, LineEnding::Lf, true, false);
    let without = profile(LineEnding::Lf, LineEnding::Lf, false, false);
    assert_eq!(save_bytes("a", &with), b"a\n".to_vec());
    assert_eq!(save_bytes("a\n", &without), b"a".to_vec());
    // Only one trailing newline is dropped.
    assert_eq!(save_bytes("a\n\n", &without), b"a\n".to_vec());
    let crlf = profile(LineEnding::Crlf, LineEnding::Crlf, true, true);
    assert_eq!(save_bytes("x\ny", &crlf), b"\xEF\xBB\xBFx\r\ny\r\n".to_vec());
}

#[test]
fn save_keeps_non_ascii_text_valid() {
    let out = save_bytes("é\n😀", &profile(LineEnding::Crlf, LineEnding::Crlf, true, true));
    assert!(std::str::from_utf8(&out).is_ok());
    assert_eq!(out, "\u{FEFF}é\r\n😀\r\n".as_bytes().to_vec());
}

#[test]
fn save_failure_classification() {
    assert_eq!(
        classify_save_failure(IoErrorClass::StorageFull, None, Stage::Temp),
        SaveFailure::DiskFull
    );
    assert_eq!(
        classify_save_failure(IoErrorClass::Other, Some(28), Stage::Replace),
        SaveFailure::DiskFull
    );
    assert_eq!(
        classify_save_failure(IoErrorClass::Other, Some(112), Stage::Temp),
        SaveFailure::DiskFull
    );
    assert_eq!(
        classify_save_failure(IoErrorClass::Other, Some(39), Stage::Temp),
        SaveFailure::DiskFull
    );
    assert_eq!(
        classify_save_failure(IoErrorClass::PermissionDenied, Some(13), Stage::Replace),
        SaveFailure::PermissionDenied
    );
    assert_eq!(
        classify_save_failure(IoErrorClass::Other, Some(5), Stage::Temp),
        SaveFailure::PartialWrite
    );
    assert_eq!(
        classify_save_failure(IoErrorClass::Other, None, Stage::Replace),
        SaveFailure::ReplaceFailed
    );
}

#[test]
fn from_io_reads_the_error() {
    let e = std::io::Error::from_raw_os_error(28);
    let s = SaveError::from_io(e, Stage::Temp);
    assert_eq!(s.failure(), SaveFailure::DiskFull);
    assert_eq!(s.io().raw_os_error(), Some(28));
    assert!(s.to_string().starts_with("disk full: "));

    let p = SaveError::from_io(
        std::io::Error::new(std::io::ErrorKind::PermissionDenied, "nope"),
        Stage::Replace,
    );
    assert_eq!(p.failure(), SaveFailure::PermissionDenied);
    assert_eq!(p.to_string(), "permission denied: nope");

    let w = SaveError::from_io(std::io::Error::new(std::io::ErrorKind::Other, "cut"), Stage::Temp);
    assert_eq!(w.failure(), SaveFailure::PartialWrite);
    assert_eq!(w.to_string(), "write interrupted: cut");

    let r = SaveError::from_io(std::io::Error::new(std::io::ErrorKind::Other, "swap"), Stage::Replace);
    assert_eq!(r.failure(), SaveFailure::ReplaceFailed);
    assert_eq!(r.to_string(), "atomic replace failed: swap");
}

#[test]
fn plain_io_errors_convert() {
    let s: SaveError = std::io::Error::new(std::io::ErrorKind::Other, "x").into();
    assert_eq!(s.failure(), SaveFailure::Io);
    assert_eq!(s.to_string(), "I/O error: x");
    let n = SaveError::new(
        SaveFailure::SameFilesystemImpossible,
        std::io::Error::new(std::io::ErrorKind::InvalidInput, "no parent"),
    );
    assert_eq!(n.to_string(), "atomic save not possible at this location: no parent");
    let o: OpenError = std::io::Error::new(std::io::ErrorKind::NotFound, "gone").into();
    assert_eq!(o.to_string(), "I/O error: gone");
    assert_eq!(OpenError::NotUtf8.to_string(), "not valid UTF-8");
}

#[test]
fn saved_bytes_reload_stably() {
    for raw in [
        &b"a\r\nb\nc\r\n"[..],
        &b"\xEF\xBB\xBFx\ry\n"[..],
        &b"\n\r\n\n"[..],
        &b"\r"[..],
    ] {
        let once = round_trip(raw);
        assert_ne!(ByteFidelityProfile::from_bytes(&once).line_ending, LineEnding::Mixed);
        assert_eq!(round_trip(&once), once);
    }
}

#[test]
fn save_never_writes_mixed_line_endings() {
    let crlf = save_bytes("a\r\nb\nc\rd\n", &profile(LineEnding::Mixed, LineEnding::Crlf, true, false));
    assert_eq!(crlf, b"a\r\nb\r\nc\r\nd\r\n".to_vec());
    let lf = save_bytes("a\r\nb\nc\rd\n", &profile(LineEnding::Mixed, LineEnding::Lf, false, false));
    assert_eq!(lf, b"a\nb\nc\nd".to_vec());
}
