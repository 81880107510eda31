//! Byte-faithful re-emission for saving, and the error model of opening and
//! atomically saving files.
//!
//! [`save_bytes`] re-applies a file's load-time byte fidelity (line-ending
//! style, trailing newline, BOM) to the editor buffer. The filesystem work of
//! atomic saving (temp file in the target's directory, durable flush, atomic
//! replace) lives with the application shell; the classification of its
//! failures into [`SaveError`] lives here.

use vstd::prelude::*;
use vstd::utf8::*;
use crate::document::{line_ending_of, profile_of, ByteFidelityProfile, LineEnding};
use crate::eol::{
    bom_bytes, cr, crlf_count, ends_with_lf, every_lf_after_cr, expand_crlf, is_crlf_at,
    lemma_bom_valid, lemma_crlf_count_zero, lemma_expand_concat, lemma_expand_normalise,
    lemma_expand_pairs, lemma_expand_single, lemma_expand_valid, lemma_lf_after_cr_lone_count,
    lemma_lone_lf_count_zero, lemma_no_cr_crlf_count, lemma_normalise_has_no_cr,
    lemma_normalise_last, lemma_normalise_no_cr, lemma_normalise_valid, lemma_valid_ascii_short,
    lemma_valid_drop_trailing_lf, lf, lone_lf_count, no_cr, no_lf, no_lone_cr, normalise_lf,
    starts_with_bom, strip_bom, count_byte, text_bytes, line_break_count, ends_in_line_break,
    lemma_count_byte_concat, lemma_text_bytes_concat, lemma_normalise_keeps_line_breaks,
    lemma_expand_keeps_line_breaks,
};

verus! {

broadcast use vstd::seq_lib::group_seq_properties;

#[verifier::external_type_specification]
#[verifier::external_body]
pub struct ExIoError(std::io::Error);

/// Why opening a file failed.
#[derive(Debug)]
#[non_exhaustive]
pub enum OpenError {
    /// The file's bytes are not valid UTF-8; no document was created.
    NotUtf8,
    /// A filesystem read error occurred.
    Io(std::io::Error),
}

impl From<std::io::Error> for OpenError {
    fn from(e: std::io::Error) -> (r: OpenError) {
        OpenError::Io(e)
    }
}

impl vstd::std_specs::convert::FromSpecImpl<std::io::Error> for OpenError {
    open spec fn obeys_from_spec() -> bool {
        true
    }

    open spec fn from_spec(e: std::io::Error) -> OpenError {
        OpenError::Io(e)
    }
}

/// The text `std` renders for an I/O error (`std::io::Error`'s `Display`).
///
/// Nothing is stated of the text: it comes from the operating system.
#[verifier::external_body]
fn io_error_text(e: &std::io::Error) -> (text: String) {
    e.to_string()
}

/// The fixed lead-in of an open failure's message.
pub open spec fn open_error_prefix(e: OpenError) -> Seq<char> {
    match e {
        OpenError::NotUtf8 => "not valid UTF-8"@,
        OpenError::Io(_) => "I/O error: "@,
    }
}

impl OpenError {
    /// The user-facing message: `not valid UTF-8`, or `I/O error: ` followed by
    /// the operating system's text for the error.
    pub fn to_string(&self) -> (text: String)
        ensures
            *self is NotUtf8 ==> text@ == open_error_prefix(*self),
            *self is Io ==> exists|detail: Seq<char>| text@ == open_error_prefix(*self) + detail,
    {
        match self {
            OpenError::NotUtf8 => String::from_str("not valid UTF-8"),
            OpenError::Io(e) => {
                let detail = io_error_text(e);
                let text = String::from_str("I/O error: ").concat(detail.as_str());
                assert(text@ == open_error_prefix(*self) + detail@);
                text
            },
        }
    }
}

/// Why an atomic save failed. In every case the target file is left
/// byte-identical; each variant wraps the underlying I/O error.
#[derive(Debug)]
#[non_exhaustive]
pub enum SaveError {
    /// The target's filesystem is full.
    DiskFull(std::io::Error),
    /// The target (or its directory) denied write/replace permission.
    PermissionDenied(std::io::Error),
    /// The temp-file write was interrupted before it was fully written.
    PartialWrite(std::io::Error),
    /// The temp file was written, but the atomic replace of the target failed.
    ReplaceFailed(std::io::Error),
    /// A same-filesystem temp could not be established, so no atomic replace
    /// is possible at this location.
    SameFilesystemImpossible(std::io::Error),
    /// Any other filesystem write failure.
    Io(std::io::Error),
}

/// The variant of a [`SaveError`], without its payload.
#[derive(Debug, Clone, Copy, PartialEq, Eq, Structural)]
pub enum SaveFailure {
    /// See [`SaveError::DiskFull`].
    DiskFull,
    /// See [`SaveError::PermissionDenied`].
    PermissionDenied,
    /// See [`SaveError::PartialWrite`].
    PartialWrite,
    /// See [`SaveError::ReplaceFailed`].
    ReplaceFailed,
    /// See [`SaveError::SameFilesystemImpossible`].
    SameFilesystemImpossible,
    /// See [`SaveError::Io`].
    Io,
}

/// Which stage of the atomic pipeline an I/O error came from.
#[derive(Debug, Clone, Copy, PartialEq, Eq, Structural)]
pub enum Stage {
    /// Establishing or writing the same-directory temp file.
    Temp,
    /// The atomic replace of the target.
    Replace,
}

/// The kinds of I/O error that save-failure classification tells apart.
#[derive(Debug, Clone, Copy, PartialEq, Eq, Structural)]
pub enum IoErrorClass {
    /// `std::io::ErrorKind::StorageFull`.
    StorageFull,
    /// `std::io::ErrorKind::PermissionDenied`.
    PermissionDenied,
    /// Any other kind.
    Other,
}

/// The kind of an I/O error, as far as save-failure classification cares.
///
/// Nothing is stated of the result: an I/O error is opaque here, so the class
/// is whatever `std::io::Error::kind` reports for it.
#[verifier::external_body]
fn io_error_class(e: &std::io::Error) -> (class: IoErrorClass) {
    match e.kind() {
        std::io::ErrorKind::StorageFull => IoErrorClass::StorageFull,
        std::io::ErrorKind::PermissionDenied => IoErrorClass::PermissionDenied,
        _ => IoErrorClass::Other,
    }
}

/// The operating-system error code of an I/O error, if it carries one
/// (`std::io::Error::raw_os_error`).
///
/// Nothing is stated of the result: an I/O error is opaque here.
#[verifier::external_body]
fn io_error_raw_os(e: &std::io::Error) -> (code: Option<i32>) {
    e.raw_os_error()
}

/// A full disk: the `StorageFull` kind, or the raw codes `ENOSPC` (28) and, on
/// Windows, `ERROR_DISK_FULL` (112) and `ERROR_HANDLE_DISK_FULL` (39).
pub open spec fn is_disk_full(class: IoErrorClass, raw_os: Option<i32>) -> bool {
    ||| class == IoErrorClass::StorageFull
    ||| raw_os == Some(28i32)
    ||| raw_os == Some(112i32)
    ||| raw_os == Some(39i32)
}

/// The save failure an I/O error of this class and code, met at this stage,
/// is reported as.
pub open spec fn classify(class: IoErrorClass, raw_os: Option<i32>, stage: Stage) -> SaveFailure {
    if is_disk_full(class, raw_os) {
        SaveFailure::DiskFull
    } else if class == IoErrorClass::PermissionDenied {
        SaveFailure::PermissionDenied
    } else if stage == Stage::Temp {
        SaveFailure::PartialWrite
    } else {
        SaveFailure::ReplaceFailed
    }
}

/// Classify an I/O failure of the atomic pipeline: disk-full first, then
/// permission, then by stage (a temp-write failure is a partial write, a
/// replace-stage failure a failed replace).
pub fn classify_save_failure(class: IoErrorClass, raw_os: Option<i32>, stage: Stage) -> (f: SaveFailure)
    ensures
        f == classify(class, raw_os, stage),
{
    let disk_full = match class {
        IoErrorClass::StorageFull => true,
        _ => match raw_os {
            Some(code) => code == 28 || code == 112 || code == 39,
            None => false,
        },
    };
    if disk_full {
        SaveFailure::DiskFull
    } else if class == IoErrorClass::PermissionDenied {
        SaveFailure::PermissionDenied
    } else {
        match stage {
            Stage::Temp => SaveFailure::PartialWrite,
            Stage::Replace => SaveFailure::ReplaceFailed,
        }
    }
}

/// The lead-in of a save failure's message.
pub open spec fn save_error_prefix(f: SaveFailure) -> Seq<char> {
    match f {
        SaveFailure::DiskFull => "disk full: "@,
        SaveFailure::PermissionDenied => "permission denied: "@,
        SaveFailure::PartialWrite => "write interrupted: "@,
        SaveFailure::ReplaceFailed => "atomic replace failed: "@,
        SaveFailure::SameFilesystemImpossible => "atomic save not possible at this location: "@,
        SaveFailure::Io => "I/O error: "@,
    }
}

impl SaveError {
    /// The variant of this error.
    pub open spec fn spec_failure(self) -> SaveFailure {
        match self {
            SaveError::DiskFull(_) => SaveFailure::DiskFull,
            SaveError::PermissionDenied(_) => SaveFailure::PermissionDenied,
            SaveError::PartialWrite(_) => SaveFailure::PartialWrite,
            SaveError::ReplaceFailed(_) => SaveFailure::ReplaceFailed,
            SaveError::SameFilesystemImpossible(_) => SaveFailure::SameFilesystemImpossible,
            SaveError::Io(_) => SaveFailure::Io,
        }
    }

    /// The I/O error this save failure wraps.
    pub open spec fn spec_io(self) -> std::io::Error {
        match self {
            SaveError::DiskFull(e) => e,
            SaveError::PermissionDenied(e) => e,
            SaveError::PartialWrite(e) => e,
            SaveError::ReplaceFailed(e) => e,
            SaveError::SameFilesystemImpossible(e) => e,
            SaveError::Io(e) => e,
        }
    }

    /// The save error of the given variant wrapping `e`.
    pub fn new(failure: SaveFailure, e: std::io::Error) -> (r: SaveError)
        ensures
            r.spec_failure() == failure,
            r.spec_io() == e,
    {
        match failure {
            SaveFailure::DiskFull => SaveError::DiskFull(e),
            SaveFailure::PermissionDenied => SaveError::PermissionDenied(e),
            SaveFailure::PartialWrite => SaveError::PartialWrite(e),
            SaveFailure::ReplaceFailed => SaveError::ReplaceFailed(e),
            SaveFailure::SameFilesystemImpossible => SaveError::SameFilesystemImpossible(e),
            SaveFailure::Io => SaveError::Io(e),
        }
    }

    /// The variant of this error.
    pub fn failure(&self) -> (f: SaveFailure)
        ensures
            f == self.spec_failure(),
    {
        match self {
            SaveError::DiskFull(_) => SaveFailure::DiskFull,
            SaveError::PermissionDenied(_) => SaveFailure::PermissionDenied,
            SaveError::PartialWrite(_) => SaveFailure::PartialWrite,
            SaveError::ReplaceFailed(_) => SaveFailure::ReplaceFailed,
            SaveError::SameFilesystemImpossible(_) => SaveFailure::SameFilesystemImpossible,
            SaveError::Io(_) => SaveFailure::Io,
        }
    }

    /// The underlying I/O error this save failure wraps.
    pub fn io(&self) -> (e: &std::io::Error)
        ensures
            *e == self.spec_io(),
    {
        match self {
            SaveError::DiskFull(e) => e,
            SaveError::PermissionDenied(e) => e,
            SaveError::PartialWrite(e) => e,
            SaveError::ReplaceFailed(e) => e,
            SaveError::SameFilesystemImpossible(e) => e,
            SaveError::Io(e) => e,
        }
    }

    /// Classify an I/O error from the atomic pipeline into the most specific
    /// variant (disk-full, permission, then partial write or failed replace by
    /// stage), wrapping the error itself.
    pub fn from_io(e: std::io::Error, stage: Stage) -> (r: SaveError)
        ensures
            r.spec_io() == e,
            exists|class: IoErrorClass, raw_os: Option<i32>| r.spec_failure() == classify(class, raw_os, stage),
    {
        let class = io_error_class(&e);
        let raw_os = io_error_raw_os(&e);
        let failure = classify_save_failure(class, raw_os, stage);
        SaveError::new(failure, e)
    }

    /// The user-facing message: a fixed lead-in naming the failure, followed by
    /// the operating system's text for the wrapped error.
    pub fn to_string(&self) -> (text: String)
        ensures
            exists|detail: Seq<char>| text@ == save_error_prefix(self.spec_failure()) + detail,
    {
        let prefix = match self {
            SaveError::DiskFull(_) => "disk full: ",
            SaveError::PermissionDenied(_) => "permission denied: ",
            SaveError::PartialWrite(_) => "write interrupted: ",
            SaveError::ReplaceFailed(_) => "atomic replace failed: ",
            SaveError::SameFilesystemImpossible(_) => "atomic save not possible at this location: ",
            SaveError::Io(_) => "I/O error: ",
        };
        let detail = io_error_text(self.io());
        let text = String::from_str(prefix).concat(detail.as_str());
        assert(text@ == save_error_prefix(self.spec_failure()) + detail@);
        text
    }
}

impl From<std::io::Error> for SaveError {
    fn from(e: std::io::Error) -> (r: SaveError) {
        SaveError::Io(e)
    }
}

impl vstd::std_specs::convert::FromSpecImpl<std::io::Error> for SaveError {
    open spec fn obeys_from_spec() -> bool {
        true
    }

    open spec fn from_spec(e: std::io::Error) -> SaveError {
        SaveError::Io(e)
    }
}

/// Whether saving with `p` writes `\r\n` line endings: a uniform file keeps its
/// own style, a mixed file uses its dominant style.
pub open spec fn emits_crlf(p: ByteFidelityProfile) -> bool {
    match p.line_ending {
        LineEnding::Crlf => true,
        LineEnding::Lf => false,
        LineEnding::Mixed => p.dominant == LineEnding::Crlf,
    }
}

/// The normalised buffer without its trailing `\n`, if it has one.
pub open spec fn save_core(n: Seq<u8>) -> Seq<u8> {
    if ends_with_lf(n) {
        n.drop_last()
    } else {
        n
    }
}

/// The newline bytes in the chosen style.
pub open spec fn newline_bytes(crlf: bool) -> Seq<u8> {
    if crlf {
        seq![cr(), lf()]
    } else {
        seq![lf()]
    }
}

/// The bytes written for a buffer whose UTF-8 encoding is `text`, under the
/// load-time profile `p`: normalise every line ending to `\n`, drop a trailing
/// `\n`, re-emit each `\n` in the chosen style, re-add the trailing newline iff
/// the loaded file had one, and prefix the BOM iff the loaded file carried one.
pub open spec fn spec_save_bytes(text: Seq<u8>, p: ByteFidelityProfile) -> Seq<u8> {
    let core = save_core(normalise_lf(text));
    let body = if emits_crlf(p) {
        expand_crlf(core)
    } else {
        core
    };
    let tail = if p.had_trailing_newline {
        newline_bytes(emits_crlf(p))
    } else {
        Seq::<u8>::empty()
    };
    let head = if p.had_bom {
        bom_bytes()
    } else {
        Seq::<u8>::empty()
    };
    head + body + tail
}

/// Normalise every `\r\n` and lone `\r` in `s` to a bare `\n`.
fn normalise_to_lf(s: &[u8]) -> (out: Vec<u8>)
    ensures
        out@ == normalise_lf(s@),
{
    let mut out: Vec<u8> = Vec::new();
    let mut i: usize = 0;
    proof {
        assert(s@.skip(0) =~= s@);
        assert(out@ + s@.skip(0) =~= s@);
    }
    while i < s.len()
        invariant
            i <= s@.len(),
            normalise_lf(s@) == out@ + normalise_lf(s@.skip(i as int)),
        decreases s@.len() - i,
    {
        let ghost rest = s@.skip(i as int);
        assert(rest[0] == s@[i as int]);
        if s[i] == 13u8 && i + 1 < s.len() && s[i + 1] == 10u8 {
            assert(rest[1] == s@[i + 1]);
            assert(rest.skip(2) =~= s@.skip(i + 2));
            out.push(10u8);
            i = i + 2;
        } else {
            assert(rest.len() >= 2 ==> rest[1] == s@[i + 1]);
            assert(rest.skip(1) =~= s@.skip(i + 1));
            if s[i] == 13u8 {
                out.push(10u8);
            } else {
                out.push(s[i]);
            }
            i = i + 1;
        }
        assert(normalise_lf(s@) =~= out@ + normalise_lf(s@.skip(i as int)));
    }
    proof {
        assert(s@.skip(i as int) =~= Seq::<u8>::empty());
        assert(out@ + Seq::<u8>::empty() =~= out@);
    }
    out
}

/// The re-emitted bytes are valid UTF-8 whenever the buffer's bytes are.
proof fn lemma_save_bytes_valid(text: Seq<u8>, p: ByteFidelityProfile)
    requires
        valid_utf8(text),
    ensures
        valid_utf8(spec_save_bytes(text, p)),
{
    let n = normalise_lf(text);
    lemma_normalise_valid(text);
    let core = save_core(n);
    if ends_with_lf(n) {
        lemma_valid_drop_trailing_lf(n);
    }
    assert(valid_utf8(core));
    let body = if emits_crlf(p) {
        expand_crlf(core)
    } else {
        core
    };
    if emits_crlf(p) {
        lemma_expand_valid(core);
    }
    let e = Seq::<u8>::empty();
    assert(valid_utf8(e));
    let tail = if p.had_trailing_newline {
        newline_bytes(emits_crlf(p))
    } else {
        e
    };
    lemma_valid_ascii_short(tail);
    let head = if p.had_bom {
        bom_bytes()
    } else {
        e
    };
    lemma_bom_valid();
    valid_utf8_concat(head, body);
    valid_utf8_concat(head + body, tail);
}

/// Re-emit `buffer` to raw bytes per the load-time fidelity `profile`.
///
/// A uniform file's line-ending style is re-emitted verbatim; a mixed file is
/// normalised to its dominant style. The trailing newline is present iff the
/// loaded file had one, and the BOM is prefixed iff the loaded file carried one. The
/// output is always valid UTF-8, holds one line ending per line break of the
/// buffer (the buffer's final one replaced by the profile's trailing newline),
/// and keeps every other byte of the buffer in order.
pub fn save_bytes(buffer: &str, profile: &ByteFidelityProfile) -> (out: Vec<u8>)
    ensures
        out@ == spec_save_bytes(encode_utf8(buffer@), *profile),
        valid_utf8(out@),
        profile.had_bom ==> out@.take(3) == bom_bytes(),
        profile.had_trailing_newline ==> out@.len() >= newline_bytes(emits_crlf(*profile)).len()
            && out@.skip(out@.len() - newline_bytes(emits_crlf(*profile)).len()) == newline_bytes(
            emits_crlf(*profile),
        ),
        count_byte(out@, lf()) == line_break_count(encode_utf8(buffer@)) - (if ends_in_line_break(
            encode_utf8(buffer@),
        ) {
            1int
        } else {
            0int
        }) + (if profile.had_trailing_newline {
            1int
        } else {
            0int
        }),
        text_bytes(out@) == (if profile.had_bom {
            bom_bytes()
        } else {
            Seq::<u8>::empty()
        }) + text_bytes(encode_utf8(buffer@)),
{
    let emit_crlf = match profile.line_ending {
        LineEnding::Crlf => true,
        LineEnding::Lf => false,
        LineEnding::Mixed => match profile.dominant {
            LineEnding::Crlf => true,
            _ => false,
        },
    };
    assert(emit_crlf == emits_crlf(*profile));

    let normalised = normalise_to_lf(buffer.as_bytes());
    let n = normalised.len();
    let core_len = if n > 0 && normalised[n - 1] == 10u8 {
        n - 1
    } else {
        n
    };
    let ghost core = save_core(normalised@);
    assert(core =~= normalised@.take(core_len as int));

    let mut out: Vec<u8> = Vec::new();
    if profile.had_bom {
        out.push(0xEFu8);
        out.push(0xBBu8);
        out.push(0xBFu8);
    }
    let ghost head = out@;
    assert(head == (if profile.had_bom { bom_bytes() } else { Seq::<u8>::empty() }));

    let mut j: usize = 0;
    proof {
        assert(core.take(0) =~= Seq::<u8>::empty());
        assert(expand_crlf(Seq::<u8>::empty()) == Seq::<u8>::empty());
        assert(head + Seq::<u8>::empty() =~= head);
    }
    while j < core_len
        invariant
            core_len <= normalised@.len(),
            core =~= normalised@.take(core_len as int),
            j <= core_len,
            emit_crlf == emits_crlf(*profile),
            out@ == head + (if emit_crlf {
                expand_crlf(core.take(j as int))
            } else {
                core.take(j as int)
            }),
        decreases core_len - j,
    {
        let b = normalised[j];
        proof {
            assert(core.take(j + 1) =~= core.take(j as int) + seq![b]);
            lemma_expand_concat(core.take(j as int), seq![b]);
            lemma_expand_single(b);
        }
        if emit_crlf && b == 10u8 {
            out.push(13u8);
            out.push(10u8);
        } else {
            out.push(b);
        }
        j = j + 1;
        assert(out@ =~= head + (if emit_crlf {
            expand_crlf(core.take(j as int))
        } else {
            core.take(j as int)
        }));
    }
    proof {
        assert(core.take(core_len as int) =~= core);
    }
    let ghost before_tail = out@;
    if profile.had_trailing_newline {
        if emit_crlf {
            out.push(13u8);
        }
        out.push(10u8);
    }
    proof {
        assert(out@ =~= spec_save_bytes(encode_utf8(buffer@), *profile));
        if profile.had_bom {
            assert(out@.take(3) =~= bom_bytes());
        }
        if profile.had_trailing_newline {
            let nl = newline_bytes(emit_crlf);
            assert(out@.skip(out@.len() - nl.len()) =~= nl);
        }
        encode_utf8_valid_utf8(buffer@);
        lemma_save_bytes_valid(encode_utf8(buffer@), *profile);
        lemma_save_keeps_line_breaks(encode_utf8(buffer@), *profile);
    }
    out
}

/// Saving restores a loaded file byte for byte: when a file's line endings are
/// uniform (all `\r\n` or all `\n`, not mixed) and every `\r` in it starts a
/// `\r\n` pair, re-emitting the buffer it loads into (its bytes without the
/// BOM) under its own profile gives back exactly the file's bytes, BOM,
/// line endings and trailing newline included.
#[verifier::spinoff_prover]
#[verifier::rlimit(30)]
pub proof fn lemma_save_restores_loaded_bytes(raw: Seq<u8>)
    requires
        no_lone_cr(raw),
        line_ending_of(raw) != LineEnding::Mixed,
    ensures
        spec_save_bytes(strip_bom(raw), profile_of(raw)) == raw,
{
    let p = profile_of(raw);
    let r = strip_bom(raw);
    let off: int = if starts_with_bom(raw) {
        3
    } else {
        0
    };
    let e = Seq::<u8>::empty();
    let head = if p.had_bom {
        bom_bytes()
    } else {
        e
    };
    assert(head + r =~= raw);
    assert(r.len() == raw.len() - off);
    assert forall|i: int| 0 <= i < r.len() implies #[trigger] r[i] == raw[i + off] by {}
    // The trailing newline of the file is the trailing newline of the buffer.
    assert(p.had_trailing_newline == ends_with_lf(r)) by {
        if r.len() > 0 {
            assert(raw.last() == r[r.len() - 1]);
        }
    }
    assert forall|i: int| 0 <= i < r.len() && #[trigger] r[i] == cr() implies i + 1 < r.len()
        && r[i + 1] == lf() by {
        assert(raw[i + off] == cr());
    }
    assert(no_lone_cr(r));
    let n = normalise_lf(r);
    if crlf_count(raw) == 0 {
        // A uniform `\n` file: it holds no `\r` at all.
        lemma_crlf_count_zero(raw);
        assert forall|i: int| 0 <= i < r.len() implies #[trigger] r[i] != cr() by {
            if r[i] == cr() {
                assert(is_crlf_at(raw, i + off + 1));
            }
        }
        assert(no_cr(r));
        lemma_normalise_no_cr(r);
        assert(!emits_crlf(p));
        if ends_with_lf(r) {
            assert(save_core(n) + seq![lf()] =~= r);
        } else {
            assert(save_core(n) + e =~= r);
        }
        assert(spec_save_bytes(r, p) =~= head + r);
    } else {
        // A uniform `\r\n` file: every `\n` follows a `\r`.
        assert(crate::eol::lone_lf_count(raw) == 0);
        lemma_lone_lf_count_zero(raw);
        assert forall|i: int| 0 <= i < r.len() && #[trigger] r[i] == lf() implies i > 0 && r[i
            - 1] == cr() by {
            assert(raw[i + off] == lf());
            if off == 3 && i == 0 {
                assert(raw[2] != cr());
            }
        }
        assert(every_lf_after_cr(r));
        lemma_expand_normalise(r);
        lemma_normalise_last(r);
        assert(emits_crlf(p));
        if ends_with_lf(r) {
            let core = save_core(n);
            assert(core + seq![lf()] =~= n);
            lemma_expand_concat(core, seq![lf()]);
            lemma_expand_single(lf());
            assert(expand_crlf(core) + newline_bytes(true) =~= r);
        } else if r.len() == 0 {
            assert(n.len() == 0);
            assert(expand_crlf(n) =~= e);
            assert(expand_crlf(save_core(n)) + e =~= r);
        } else {
            assert(r.last() != cr());
            assert(save_core(n) == n);
            assert(expand_crlf(save_core(n)) + e =~= r);
        }
        assert(spec_save_bytes(r, p) =~= head + r);
    }
}

/// Saving never writes mixed line endings: with `\r\n` emission every `\n` of
/// the output follows a `\r` and every `\r` starts a `\r\n` pair; with `\n`
/// emission the output holds no `\r` at all. Either way the output's own
/// line-ending style is uniform, whatever the buffer held.
pub proof fn lemma_save_single_line_ending(text: Seq<u8>, p: ByteFidelityProfile)
    ensures
        emits_crlf(p) ==> lone_lf_count(spec_save_bytes(text, p)) == 0 && no_lone_cr(
            spec_save_bytes(text, p),
        ),
        !emits_crlf(p) ==> no_cr(spec_save_bytes(text, p)) && crlf_count(spec_save_bytes(text, p))
            == 0,
        line_ending_of(spec_save_bytes(text, p)) != LineEnding::Mixed,
{
    let n = normalise_lf(text);
    lemma_normalise_has_no_cr(text);
    let core = save_core(n);
    assert(no_cr(core)) by {
        assert forall|i: int| 0 <= i < core.len() implies #[trigger] core[i] != cr() by {
            assert(core[i] == n[i]);
        }
    }
    let e = Seq::<u8>::empty();
    let head = if p.had_bom {
        bom_bytes()
    } else {
        e
    };
    assert(no_cr(head) && no_lf(head));
    let out = spec_save_bytes(text, p);
    if emits_crlf(p) {
        let body = expand_crlf(core);
        lemma_expand_pairs(core);
        let tail = if p.had_trailing_newline {
            seq![cr(), lf()]
        } else {
            e
        };
        assert(out == head + body + tail);
        let hb = head.len() + body.len();
        assert forall|i: int| 0 <= i < out.len() && #[trigger] out[i] == cr() implies i + 1
            < out.len() && out[i + 1] == lf() by {
            if i < head.len() {
                assert(out[i] == head[i]);
            } else if i < hb {
                assert(out[i] == body[i - head.len()]);
                assert(out[i + 1] == body[i + 1 - head.len()]);
            } else {
                assert(out[i] == tail[i - hb]);
                assert(out[i + 1] == tail[i + 1 - hb]);
            }
        }
        assert forall|i: int| 0 <= i < out.len() && #[trigger] out[i] == lf() implies i > 0 && out[i
            - 1] == cr() by {
            if i < head.len() {
                assert(out[i] == head[i]);
            } else if i < hb {
                assert(out[i] == body[i - head.len()]);
                assert(i - head.len() > 0);
                assert(out[i - 1] == body[i - 1 - head.len()]);
            } else {
                assert(out[i] == tail[i - hb]);
                assert(out[i - 1] == tail[i - 1 - hb]);
            }
        }
        lemma_lf_after_cr_lone_count(out);
    } else {
        let tail = if p.had_trailing_newline {
            seq![lf()]
        } else {
            e
        };
        assert(out == head + core + tail);
        assert forall|i: int| 0 <= i < out.len() implies #[trigger] out[i] != cr() by {
            if i < head.len() {
                assert(out[i] == head[i]);
            } else if i < head.len() + core.len() {
                assert(out[i] == core[i - head.len()]);
            } else {
                assert(out[i] == tail[i - head.len() - core.len()]);
            }
        }
        lemma_no_cr_crlf_count(out);
    }
}

/// Saving neither drops nor adds line breaks: the bytes written hold one `\n`
/// per line break of the buffer (a `\r\n` pair, a lone `\n` or a lone `\r`),
/// less the buffer's own final line break if it ends in one, plus one when the
/// profile records a trailing newline. Every other byte of the buffer comes out
/// unchanged and in order, after the BOM when the profile records one.
pub proof fn lemma_save_keeps_line_breaks(text: Seq<u8>, p: ByteFidelityProfile)
    ensures
        count_byte(spec_save_bytes(text, p), lf()) == line_break_count(text) - (if ends_in_line_break(
            text,
        ) {
            1int
        } else {
            0int
        }) + (if p.had_trailing_newline {
            1int
        } else {
            0int
        }),
        text_bytes(spec_save_bytes(text, p)) == (if p.had_bom {
            bom_bytes()
        } else {
            Seq::<u8>::empty()
        }) + text_bytes(text),
{
    let n = normalise_lf(text);
    lemma_normalise_keeps_line_breaks(text);
    lemma_normalise_last(text);
    let core = save_core(n);
    let e = Seq::<u8>::empty();
    let one_lf = seq![lf()];
    assert(count_byte(one_lf, lf()) == 1 && text_bytes(one_lf) =~= e) by {
        assert(one_lf.drop_last() =~= e);
        assert(count_byte(e, lf()) == 0);
        assert(text_bytes(e) =~= e);
    }
    assert(count_byte(e, lf()) == 0 && text_bytes(e) == e);
    if ends_with_lf(n) {
        assert(n =~= core + one_lf);
        lemma_count_byte_concat(core, one_lf, lf());
        lemma_text_bytes_concat(core, one_lf);
        assert(core + e =~= core);
    }
    assert(ends_with_lf(n) == ends_in_line_break(text));
    assert(count_byte(core, lf()) == line_break_count(text) - (if ends_in_line_break(text) {
        1int
    } else {
        0int
    }));
    assert(text_bytes(core) == text_bytes(text));
    let body = if emits_crlf(p) {
        expand_crlf(core)
    } else {
        core
    };
    lemma_expand_keeps_line_breaks(core);
    let tail = if p.had_trailing_newline {
        newline_bytes(emits_crlf(p))
    } else {
        e
    };
    let cr_lf = seq![cr(), lf()];
    assert(count_byte(cr_lf, lf()) == 1 && text_bytes(cr_lf) =~= e) by {
        assert(cr_lf.drop_last() =~= seq![cr()]);
        assert(seq![cr()].drop_last() =~= e);
        assert(count_byte(e, lf()) == 0);
        assert(text_bytes(e) =~= e);
        assert(count_byte(seq![cr()], lf()) == 0);
        assert(text_bytes(seq![cr()]) =~= e);
    }
    assert(count_byte(tail, lf()) == (if p.had_trailing_newline {
        1int
    } else {
        0int
    }));
    assert(text_bytes(tail) == e);
    let head = if p.had_bom {
        bom_bytes()
    } else {
        e
    };
    let b = bom_bytes();
    assert(count_byte(b, lf()) == 0 && text_bytes(b) == b) by {
        assert(b.drop_last() =~= seq![0xEFu8, 0xBBu8]);
        assert(seq![0xEFu8, 0xBBu8].drop_last() =~= seq![0xEFu8]);
        assert(seq![0xEFu8].drop_last() =~= e);
        assert(count_byte(e, lf()) == 0);
        assert(text_bytes(e) =~= e);
        assert(count_byte(seq![0xEFu8], lf()) == 0);
        assert(count_byte(seq![0xEFu8, 0xBBu8], lf()) == 0);
        assert(text_bytes(seq![0xEFu8]) =~= seq![0xEFu8]);
        assert(text_bytes(seq![0xEFu8, 0xBBu8]) =~= seq![0xEFu8, 0xBBu8]);
        assert(text_bytes(b) =~= b);
    }
    lemma_count_byte_concat(head, body, lf());
    lemma_count_byte_concat(head + body, tail, lf());
    lemma_text_bytes_concat(head, body);
    lemma_text_bytes_concat(head + body, tail);
    assert(spec_save_bytes(text, p) == head + body + tail);
    assert(head + text_bytes(text) + e =~= head + text_bytes(text));
}

/// Saving is stable: loading the bytes a save wrote and saving the resulting
/// buffer again under the reloaded file's own profile writes the very same
/// bytes (a mixed file, once normalised, stays normalised).
pub proof fn lemma_saved_bytes_reload_stably(text: Seq<u8>, p: ByteFidelityProfile)
    ensures
        spec_save_bytes(strip_bom(spec_save_bytes(text, p)), profile_of(spec_save_bytes(text, p)))
            == spec_save_bytes(text, p),
{
    let out = spec_save_bytes(text, p);
    lemma_save_single_line_ending(text, p);
    assert(no_lone_cr(out));
    lemma_save_restores_loaded_bytes(out);
}

} // verus!
