//! The in-memory editor document model and its byte-fidelity profile.
//!
//! * [`ByteFidelityProfile`] captures what a lossless save needs to re-emit a
//!   file as the user expects: the line-ending style (with a never-`Mixed`
//!   dominant style for re-emission), trailing-newline presence, BOM presence,
//!   and a content hash of the loaded bytes.
//! * [`SavedSnapshot`] is the hash-plus-length record that dirty tracking
//!   compares the live buffer against.
//! * [`EditorDocument`] is the per-tab document: the editable buffer, its
//!   on-disk identity, the saved snapshot, the edit generation that drives
//!   reparse coalescing, and the pending caret jump.

use std::hash::Hasher;
use vstd::prelude::*;
use vstd::std_specs::hash::DefaultHasherAdditionalSpecFns;
use vstd::utf8::*;
use crate::eol::{
    count_byte, cr, crlf_count, ends_with_lf, lemma_lf_is_pair_or_lone, lf, lone_lf_count,
    starts_with_bom, strip_bom,
};

verus! {

/// The newline convention detected in a loaded file.
///
/// `Crlf`/`Lf` describe a file that uses one style uniformly; `Mixed` marks a
/// file that contained both `\r\n` and lone `\n`.
#[derive(Debug, Clone, Copy, PartialEq, Eq, Hash, Structural)]
pub enum LineEnding {
    /// Carriage-return + line-feed (`\r\n`).
    Crlf,
    /// Line-feed (`\n`).
    Lf,
    /// The file mixed `\r\n` and lone `\n`.
    Mixed,
}

/// Byte-level fidelity metadata captured when a file is loaded.
#[derive(Debug, Clone, Copy, PartialEq, Eq, Structural)]
pub struct ByteFidelityProfile {
    /// The detected line-ending style of the loaded file.
    pub line_ending: LineEnding,
    /// The more frequent concrete style (ties resolve to `Lf`); never `Mixed`
    /// for a profile built from bytes.
    pub dominant: LineEnding,
    /// `true` when the loaded file ended with a newline (`\n`).
    pub had_trailing_newline: bool,
    /// `true` when the loaded bytes began with a UTF-8 BOM (`EF BB BF`).
    pub had_bom: bool,
    /// A hash of the loaded raw bytes, for change detection.
    pub original_hash: u64,
}

/// The hash that [`hash_bytes`] computes: the standard library's default
/// hasher fed the bytes in one write.
pub open spec fn spec_hash_bytes(bytes: Seq<u8>) -> u64 {
    std::collections::hash_map::DefaultHasher::spec_finish(seq![bytes])
}

/// Hash arbitrary bytes with the standard library's default hasher.
///
/// Used for cheap content-change detection; the exact value is an
/// implementation detail of the toolchain and is never persisted.
pub fn hash_bytes(bytes: &[u8]) -> (h: u64)
    ensures
        h == spec_hash_bytes(bytes@),
        h == std::collections::hash_map::DefaultHasher::spec_finish(seq![bytes@]),
{
    let mut hasher = std::collections::hash_map::DefaultHasher::new();
    hasher.write(bytes);
    hasher.finish()
}

/// The line-ending style of `s`: `Mixed` when both `\r\n` and lone `\n`
/// occur, `Crlf` when only `\r\n` occurs, `Lf` otherwise (including no
/// newline at all).
pub open spec fn line_ending_of(s: Seq<u8>) -> LineEnding {
    if crlf_count(s) > 0 && lone_lf_count(s) > 0 {
        LineEnding::Mixed
    } else if crlf_count(s) > 0 {
        LineEnding::Crlf
    } else {
        LineEnding::Lf
    }
}

/// The more frequent concrete style of `s`; ties resolve to `Lf`.
pub open spec fn dominant_of(s: Seq<u8>) -> LineEnding {
    if crlf_count(s) > lone_lf_count(s) {
        LineEnding::Crlf
    } else {
        LineEnding::Lf
    }
}

/// The fidelity profile of raw file bytes.
pub open spec fn profile_of(s: Seq<u8>) -> ByteFidelityProfile {
    ByteFidelityProfile {
        line_ending: line_ending_of(s),
        dominant: dominant_of(s),
        had_trailing_newline: ends_with_lf(s),
        had_bom: starts_with_bom(s),
        original_hash: spec_hash_bytes(s),
    }
}

impl ByteFidelityProfile {
    /// The profile's dominant style is a concrete one, and for a uniform file it
    /// is the file's own style.
    pub open spec fn wf(self) -> bool {
        &&& self.dominant != LineEnding::Mixed
        &&& self.line_ending != LineEnding::Mixed ==> self.dominant == self.line_ending
    }

    /// Analyse raw file bytes and capture the fidelity profile.
    ///
    /// `\r\n` pairs are counted against lone `\n`; all-CRLF gives `Crlf`,
    /// all-LF (or no newline) gives `Lf`, both gives `Mixed`. The dominant style
    /// is the more frequent one, ties resolving to `Lf`.
    pub fn from_bytes(raw: &[u8]) -> (p: ByteFidelityProfile)
        ensures
            p == profile_of(raw@),
            p.wf(),
            p.line_ending == (if crlf_count(raw@) > 0 && lone_lf_count(raw@) > 0 {
                LineEnding::Mixed
            } else if crlf_count(raw@) > 0 {
                LineEnding::Crlf
            } else {
                LineEnding::Lf
            }),
            p.dominant == (if crlf_count(raw@) > lone_lf_count(raw@) {
                LineEnding::Crlf
            } else {
                LineEnding::Lf
            }),
            p.had_trailing_newline == (raw@.len() > 0 && raw@.last() == 10u8),
            p.had_bom == (raw@.len() >= 3 && raw@[0] == 0xEFu8 && raw@[1] == 0xBBu8 && raw@[2]
                == 0xBFu8),
            p.original_hash == std::collections::hash_map::DefaultHasher::spec_finish(seq![raw@]),
    {
        let had_bom = raw.len() >= 3 && raw[0] == 0xEFu8 && raw[1] == 0xBBu8 && raw[2] == 0xBFu8;

        let mut crlf: usize = 0;
        let mut lone_lf: usize = 0;
        let mut prev_cr = false;
        let mut i: usize = 0;
        while i < raw.len()
            invariant
                i <= raw@.len(),
                crlf == crlf_count(raw@.take(i as int)),
                lone_lf == lone_lf_count(raw@.take(i as int)),
                crlf + lone_lf <= i,
                prev_cr == (i > 0 && raw@[i - 1] == cr()),
            decreases raw@.len() - i,
        {
            let b = raw[i];
            proof {
                let t = raw@.take(i + 1);
                assert(t.drop_last() =~= raw@.take(i as int));
                assert(t[i as int] == b);
                assert(i > 0 ==> t[i - 1] == raw@[i - 1]);
            }
            if b == 10u8 {
                if prev_cr {
                    crlf = crlf + 1;
                } else {
                    lone_lf = lone_lf + 1;
                }
            }
            prev_cr = b == 13u8;
            i = i + 1;
        }
        proof {
            assert(raw@.take(raw@.len() as int) =~= raw@);
        }

        let line_ending = if crlf > 0 && lone_lf > 0 {
            LineEnding::Mixed
        } else if crlf > 0 {
            LineEnding::Crlf
        } else {
            LineEnding::Lf
        };
        let dominant = if crlf > lone_lf {
            LineEnding::Crlf
        } else {
            LineEnding::Lf
        };
        let had_trailing_newline = raw.len() > 0 && raw[raw.len() - 1] == 10u8;
        let original_hash = hash_bytes(raw);

        ByteFidelityProfile { line_ending, dominant, had_trailing_newline, had_bom, original_hash }
    }
}

/// A snapshot of the last-saved (or last-loaded) buffer: a content hash plus
/// the byte length, so dirty tracking needs no second copy of the buffer.
#[derive(Debug, Clone, Copy, PartialEq, Eq, Structural)]
pub struct SavedSnapshot {
    content_hash: u64,
    len: usize,
}

/// The snapshot of a buffer with the given characters.
pub open spec fn snapshot_of(text: Seq<char>) -> SavedSnapshot {
    SavedSnapshot::spec_new(spec_hash_bytes(encode_utf8(text)), encode_utf8(text).len() as usize)
}

/// `true` when a buffer with the given characters still matches `snap`: same
/// byte length and same content hash.
pub open spec fn snapshot_matches(snap: SavedSnapshot, text: Seq<char>) -> bool {
    &&& snap.spec_len() == encode_utf8(text).len()
    &&& snap.spec_hash() == spec_hash_bytes(encode_utf8(text))
}

impl SavedSnapshot {
    /// The snapshot holding exactly this hash and length.
    pub closed spec fn spec_new(content_hash: u64, len: usize) -> SavedSnapshot {
        SavedSnapshot { content_hash, len }
    }

    /// The recorded content hash.
    pub closed spec fn spec_hash(self) -> u64 {
        self.content_hash
    }

    /// The recorded byte length.
    pub closed spec fn spec_len(self) -> usize {
        self.len
    }

    /// A snapshot's fields are the ones it was built from.
    pub proof fn lemma_spec_new(content_hash: u64, len: usize)
        ensures
            Self::spec_new(content_hash, len).spec_hash() == content_hash,
            Self::spec_new(content_hash, len).spec_len() == len,
    {
    }

    /// Capture a snapshot of the given buffer contents.
    pub fn of(buffer: &str) -> (snap: SavedSnapshot)
        ensures
            snap == snapshot_of(buffer@),
            snap.spec_hash() == spec_hash_bytes(encode_utf8(buffer@)),
            snap.spec_hash() == std::collections::hash_map::DefaultHasher::spec_finish(
                seq![encode_utf8(buffer@)],
            ),
            snap.spec_len() == encode_utf8(buffer@).len(),
    {
        let bytes = buffer.as_bytes();
        SavedSnapshot { content_hash: hash_bytes(bytes), len: bytes.len() }
    }

    /// `true` if `buffer` still matches this snapshot (same length and hash).
    pub fn matches(&self, buffer: &str) -> (m: bool)
        ensures
            m == snapshot_matches(*self, buffer@),
            m == (self.spec_len() == encode_utf8(buffer@).len() && self.spec_hash()
                == std::collections::hash_map::DefaultHasher::spec_finish(seq![encode_utf8(buffer@)])),
    {
        let bytes = buffer.as_bytes();
        self.len == bytes.len() && self.content_hash == hash_bytes(bytes)
    }
}

/// A snapshot of a buffer matches that same buffer: a document is clean right
/// after its snapshot is taken (when the buffer's byte length fits a `usize`,
/// as it does for every buffer in memory).
pub proof fn lemma_snapshot_matches_own_text(text: Seq<char>)
    requires
        encode_utf8(text).len() <= usize::MAX,
    ensures
        snapshot_matches(snapshot_of(text), text),
{
    SavedSnapshot::lemma_spec_new(spec_hash_bytes(encode_utf8(text)), encode_utf8(text).len() as usize);
}

/// A snapshot covers the whole buffer: a buffer matches the snapshot of another
/// only when the two have the same UTF-8 byte length and the default hasher
/// gives the same value on their complete UTF-8 encodings, so an edit anywhere
/// in the buffer is seen unless it collides in the full-content hash.
pub proof fn lemma_snapshot_match_means_same_content(saved: Seq<char>, live: Seq<char>)
    requires
        encode_utf8(saved).len() <= usize::MAX,
    ensures
        snapshot_matches(snapshot_of(saved), live) ==> {
            &&& encode_utf8(live).len() == encode_utf8(saved).len()
            &&& std::collections::hash_map::DefaultHasher::spec_finish(seq![encode_utf8(live)])
                == std::collections::hash_map::DefaultHasher::spec_finish(seq![encode_utf8(saved)])
        },
{
    SavedSnapshot::lemma_spec_new(spec_hash_bytes(encode_utf8(saved)), encode_utf8(saved).len() as usize);
}

/// The dominant style is the more frequent one: `Crlf` exactly when `\r\n`
/// pairs outnumber lone `\n`, `Lf` otherwise (ties included). Every `\n` of the
/// file is counted once, either as the end of a pair or as a lone `\n`.
pub proof fn lemma_dominant_is_more_frequent(s: Seq<u8>)
    ensures
        profile_of(s).dominant == LineEnding::Crlf <==> crlf_count(s) > lone_lf_count(s),
        profile_of(s).dominant == LineEnding::Lf <==> lone_lf_count(s) >= crlf_count(s),
        crlf_count(s) + lone_lf_count(s) == count_byte(s, lf()),
        profile_of(s).line_ending == LineEnding::Mixed <==> (crlf_count(s) > 0 && lone_lf_count(s)
            > 0),
{
    lemma_lf_is_pair_or_lone(s);
}

/// A placeholder for computed syntax-highlight spans.
#[derive(Debug, Clone, PartialEq, Eq)]
pub struct HighlightModel {
    /// The reparse generation the spans were computed from, when populated.
    pub generation: Option<u64>,
    /// Highlight spans; empty until computed from the syntax tree.
    pub spans: Vec<HighlightSpan>,
}

impl Default for HighlightModel {
    fn default() -> (m: HighlightModel)
        ensures
            m.generation.is_none(),
            m.spans@.len() == 0,
    {
        HighlightModel { generation: None, spans: Vec::new() }
    }
}

/// A single highlight span over character offsets.
#[derive(Debug, Clone, PartialEq, Eq)]
pub struct HighlightSpan {
    /// Inclusive start char offset.
    pub start: usize,
    /// Exclusive end char offset.
    pub end: usize,
    /// A stable, human-readable highlight class name (e.g. `"string"`).
    pub class: String,
}

#[verifier::external_type_specification]
#[verifier::external_body]
pub struct ExPathBuf(std::path::PathBuf);

#[verifier::external_type_specification]
#[verifier::external_body]
pub struct ExUtf8Error(std::str::Utf8Error);

/// `std::str::from_utf8`: the bytes as a string slice when they are valid
/// UTF-8, an error otherwise.
///
/// Claimed of `std`: the result is `Ok` exactly when the bytes are valid UTF-8
/// (the definition in `vstd::utf8`), and the slice it returns has exactly
/// those bytes. Nothing is stated of the error value.
#[verifier::external_body]
fn str_from_utf8(v: &[u8]) -> (r: Result<&str, std::str::Utf8Error>)
    ensures
        r is Ok <==> valid_utf8(v@),
        r matches Ok(s) ==> encode_utf8(s@) == v@,
{
    std::str::from_utf8(v)
}

/// The final component of a path as UTF-8 text (`Path::file_name`, then
/// `OsStr::to_str`), if there is one.
///
/// Nothing is stated of the result: how a path splits into components is the
/// platform's convention.
#[verifier::external_body]
fn path_file_name(path: &std::path::PathBuf) -> (name: Option<String>) {
    path.file_name().and_then(|n| n.to_str()).map(|n| n.to_string())
}

/// The character of a decimal digit.
pub open spec fn digit_char(d: nat) -> char {
    if d == 0 {
        '0'
    } else if d == 1 {
        '1'
    } else if d == 2 {
        '2'
    } else if d == 3 {
        '3'
    } else if d == 4 {
        '4'
    } else if d == 5 {
        '5'
    } else if d == 6 {
        '6'
    } else if d == 7 {
        '7'
    } else if d == 8 {
        '8'
    } else {
        '9'
    }
}

/// The decimal representation of `n`, without leading zeros.
pub open spec fn decimal(n: nat) -> Seq<char>
    decreases n,
{
    if n < 10 {
        seq![digit_char(n)]
    } else {
        decimal(n / 10) + seq![digit_char(n % 10)]
    }
}

/// The one-character string of a decimal digit.
fn digit_str(d: u32) -> (s: &'static str)
    requires
        d < 10,
    ensures
        s@ == seq![digit_char(d as nat)],
{
    proof {
        reveal_strlit("0");
        reveal_strlit("1");
        reveal_strlit("2");
        reveal_strlit("3");
        reveal_strlit("4");
        reveal_strlit("5");
        reveal_strlit("6");
        reveal_strlit("7");
        reveal_strlit("8");
        reveal_strlit("9");
    }
    let s = if d == 0 {
        "0"
    } else if d == 1 {
        "1"
    } else if d == 2 {
        "2"
    } else if d == 3 {
        "3"
    } else if d == 4 {
        "4"
    } else if d == 5 {
        "5"
    } else if d == 6 {
        "6"
    } else if d == 7 {
        "7"
    } else if d == 8 {
        "8"
    } else {
        "9"
    };
    assert(s@ =~= seq![digit_char(d as nat)]);
    s
}

/// Append the decimal representation of `n` to `out`.
fn push_decimal(out: &mut String, n: u32)
    ensures
        final(out)@ == old(out)@ + decimal(n as nat),
    decreases n,
{
    if n >= 10 {
        push_decimal(out, n / 10);
    }
    out.append(digit_str(n % 10));
    proof {
        if n >= 10 {
            assert(decimal(n as nat) == decimal((n / 10) as nat) + seq![digit_char((n % 10) as nat)]);
        }
    }
    assert(out@ =~= old(out)@ + decimal(n as nat));
}

/// The title of a document without a file name: `Untitled-N` for sequence
/// number `N`, or `Untitled` when it has none.
pub open spec fn untitled_title(seq: Option<u32>) -> Seq<char> {
    match seq {
        Some(n) => "Untitled-"@ + decimal(n as nat),
        None => "Untitled"@,
    }
}

/// The display title: the file name when there is one, else the untitled
/// placeholder.
pub open spec fn title_of(file_name: Option<Seq<char>>, seq: Option<u32>) -> Seq<char> {
    match file_name {
        Some(name) => name,
        None => untitled_title(seq),
    }
}

/// The view of an optional string.
pub open spec fn opt_text(s: Option<String>) -> Option<Seq<char>> {
    match s {
        Some(t) => Some(t@),
        None => None,
    }
}

/// The display title for a document whose path has the given file name (if
/// any) and whose workspace sequence number is `untitled_seq`.
pub fn title_from(file_name: Option<String>, untitled_seq: Option<u32>) -> (title: String)
    ensures
        title@ == title_of(opt_text(file_name), untitled_seq),
{
    match file_name {
        Some(name) => name,
        None => match untitled_seq {
            Some(n) => {
                let mut t = String::from_str("Untitled-");
                push_decimal(&mut t, n);
                t
            },
            None => String::from_str("Untitled"),
        },
    }
}

/// Whether structural completion runs: it is suppressed on an oversize
/// document and while a snippet tab-stop session is active.
pub fn completion_enabled(oversize: bool, snippet_active: bool) -> (enabled: bool)
    ensures
        enabled == (!oversize && !snippet_active),
{
    !oversize && !snippet_active
}

/// The abstract state of an [`EditorDocument`].
pub struct DocumentState {
    /// The identity token, stable for the document's lifetime.
    pub id: u64,
    /// The characters of the buffer.
    pub text: Seq<char>,
    /// The file the document maps to, if any.
    pub path: Option<std::path::PathBuf>,
    /// The snapshot dirty tracking compares against.
    pub last_saved: SavedSnapshot,
    /// The load-time byte-fidelity profile.
    pub byte_profile: ByteFidelityProfile,
    /// The installed highlight model, if any.
    pub highlight: Option<HighlightModel>,
    /// The workspace sequence number of an untitled document.
    pub untitled_seq: Option<u32>,
    /// The edit generation, bumped on every buffer mutation.
    pub edit_generation: u64,
    /// The generation last handed out for reparsing.
    pub last_requested_generation: u64,
    /// The queued caret jump, as a character offset.
    pub pending_cursor_jump: Option<usize>,
}

impl DocumentState {
    /// The buffer differs from the last saved/loaded snapshot.
    pub open spec fn dirty(self) -> bool {
        !snapshot_matches(self.last_saved, self.text)
    }

    /// A reparse request is due: the buffer was edited since the last one.
    pub open spec fn reparse_due(self) -> bool {
        self.edit_generation != self.last_requested_generation
    }

    /// The state every constructor leaves the bookkeeping in: generation zero,
    /// nothing requested, no caret jump queued, no highlight.
    pub open spec fn is_fresh(self, id: u64) -> bool {
        &&& self.id == id
        &&& self.edit_generation == 0
        &&& self.last_requested_generation == 0
        &&& self.pending_cursor_jump.is_none()
        &&& self.highlight.is_none()
    }
}

/// One editor tab's document: the editable text, its on-disk identity, the
/// saved snapshot for dirty tracking, and the edit-generation bookkeeping.
#[derive(Debug)]
pub struct EditorDocument {
    id: u64,
    /// The live, editable text buffer.
    pub buffer: String,
    /// The file this document maps to on disk, or `None` for an unsaved buffer.
    pub path: Option<std::path::PathBuf>,
    /// Snapshot of the content at the last save/load, for dirty tracking.
    pub last_saved: SavedSnapshot,
    /// Byte-fidelity metadata captured at load (or defaults for a new buffer).
    pub byte_profile: ByteFidelityProfile,
    /// The most recent computed highlight model, when one has been installed.
    pub highlight: Option<HighlightModel>,
    /// For untitled documents, the workspace-assigned sequence number.
    pub untitled_seq: Option<u32>,
    edit_generation: u64,
    last_requested_generation: u64,
    pending_cursor_jump: Option<usize>,
}

impl View for EditorDocument {
    type V = DocumentState;

    closed spec fn view(&self) -> DocumentState {
        DocumentState {
            id: self.id,
            text: self.buffer@,
            path: self.path,
            last_saved: self.last_saved,
            byte_profile: self.byte_profile,
            highlight: self.highlight,
            untitled_seq: self.untitled_seq,
            edit_generation: self.edit_generation,
            last_requested_generation: self.last_requested_generation,
            pending_cursor_jump: self.pending_cursor_jump,
        }
    }
}

impl EditorDocument {
    /// Build a document from a freshly loaded file's raw bytes.
    ///
    /// Fails exactly when the bytes are not valid UTF-8. Otherwise the buffer
    /// holds the text without a leading BOM (whose presence the profile keeps),
    /// and the document starts clean.
    pub fn from_loaded(id: u64, path: std::path::PathBuf, raw: &[u8]) -> (r: Result<EditorDocument, std::str::Utf8Error>)
        ensures
            r is Ok <==> valid_utf8(raw@),
            r matches Ok(doc) ==> {
                &&& doc@.is_fresh(id)
                &&& encode_utf8(doc@.text) == strip_bom(raw@)
                &&& doc@.path == Some(path)
                &&& doc@.byte_profile == profile_of(raw@)
                &&& doc@.last_saved == snapshot_of(doc@.text)
                &&& doc@.untitled_seq.is_none()
                &&& !doc@.dirty()
            },
    {
        let profile = ByteFidelityProfile::from_bytes(raw);
        let text = match str_from_utf8(raw) {
            Ok(t) => t,
            Err(e) => return Err(e),
        };
        let body: &str = if raw.len() >= 3 && raw[0] == 0xEFu8 && raw[1] == 0xBBu8 && raw[2] == 0xBFu8 {
            let tail = vstd::slice::slice_subrange(raw, 3, raw.len());
            proof {
                assert(pop_first_scalar(raw@) =~= tail@);
            }
            match str_from_utf8(tail) {
                Ok(t) => t,
                Err(e) => return Err(e),
            }
        } else {
            text
        };
        let buffer = body.to_owned();
        let last_saved = SavedSnapshot::of(buffer.as_str());
        proof {
            lemma_snapshot_matches_own_text(buffer@);
        }
        Ok(EditorDocument {
            id,
            buffer,
            path: Some(path),
            last_saved,
            byte_profile: profile,
            highlight: None,
            untitled_seq: None,
            edit_generation: 0,
            last_requested_generation: 0,
            pending_cursor_jump: None,
        })
    }

    /// Create a fresh, empty untitled document with a workspace-assigned
    /// sequence number for its `Untitled-N` title.
    pub fn new_untitled(id: u64, seq: u32) -> (doc: EditorDocument)
        ensures
            doc@.is_fresh(id),
            doc@.text.len() == 0,
            doc@.path.is_none(),
            doc@.untitled_seq == Some(seq),
            doc@.byte_profile == profile_of(Seq::<u8>::empty()),
            doc@.last_saved == snapshot_of(doc@.text),
            !doc@.dirty(),
    {
        let buffer = String::new();
        let last_saved = SavedSnapshot::of(buffer.as_str());
        let empty: Vec<u8> = Vec::new();
        let original_hash = hash_bytes(empty.as_slice());
        proof {
            lemma_snapshot_matches_own_text(buffer@);
            assert(crlf_count(Seq::<u8>::empty()) == 0);
            assert(lone_lf_count(Seq::<u8>::empty()) == 0);
        }
        EditorDocument {
            id,
            buffer,
            path: None,
            last_saved,
            byte_profile: ByteFidelityProfile {
                line_ending: LineEnding::Lf,
                dominant: LineEnding::Lf,
                had_trailing_newline: false,
                had_bom: false,
                original_hash,
            },
            highlight: None,
            untitled_seq: Some(seq),
            edit_generation: 0,
            last_requested_generation: 0,
            pending_cursor_jump: None,
        }
    }

    /// Reconstruct a document from a recently-closed record's fields: the
    /// buffer, the saved baseline it had (so a reopened unsaved buffer comes
    /// back dirty), and the byte profile captured when the file was loaded.
    pub fn from_restorable(
        id: u64,
        path: Option<std::path::PathBuf>,
        buffer: String,
        last_saved: SavedSnapshot,
        byte_profile: ByteFidelityProfile,
        untitled_seq: Option<u32>,
    ) -> (doc: EditorDocument)
        ensures
            doc@.is_fresh(id),
            doc@.path == path,
            doc@.text == buffer@,
            doc@.last_saved == last_saved,
            doc@.byte_profile == byte_profile,
            doc@.untitled_seq == untitled_seq,
    {
        EditorDocument {
            id,
            buffer,
            path,
            last_saved,
            byte_profile,
            highlight: None,
            untitled_seq,
            edit_generation: 0,
            last_requested_generation: 0,
            pending_cursor_jump: None,
        }
    }

    /// The identity token of this document.
    pub fn id(&self) -> (id: u64)
        ensures
            id == self@.id,
    {
        self.id
    }

    /// `true` when the buffer differs from the last saved/loaded snapshot.
    pub fn dirty(&self) -> (d: bool)
        ensures
            d == self@.dirty(),
            d == !(self@.last_saved.spec_len() == encode_utf8(self@.text).len()
                && self@.last_saved.spec_hash() == std::collections::hash_map::DefaultHasher::spec_finish(
                seq![encode_utf8(self@.text)],
            )),
    {
        !self.last_saved.matches(self.buffer.as_str())
    }

    /// Re-baseline the saved snapshot to the current buffer (after a save).
    pub fn mark_saved(&mut self)
        ensures
            final(self)@ == (DocumentState { last_saved: snapshot_of(old(self)@.text), ..old(self)@ }),
            !final(self)@.dirty(),
    {
        self.last_saved = SavedSnapshot::of(self.buffer.as_str());
        proof {
            lemma_snapshot_matches_own_text(self.buffer@);
        }
    }

    /// `true` when the buffer is strictly larger than `threshold` bytes.
    pub fn oversize(&self, threshold: u64) -> (o: bool)
        ensures
            o == (encode_utf8(self@.text).len() > threshold),
    {
        let len = self.buffer.as_str().as_bytes().len();
        len as u64 > threshold
    }

    /// The display title: the file name when saved, else `Untitled-N` (or
    /// `Untitled` without a sequence number).
    pub fn title(&self) -> (title: String)
        ensures
            self@.path.is_none() ==> title@ == untitled_title(self@.untitled_seq),
            self@.path.is_some() ==> exists|name: Option<Seq<char>>| title@ == title_of(name, self@.untitled_seq),
    {
        match &self.path {
            Some(p) => {
                let name = path_file_name(p);
                title_from(name, self.untitled_seq)
            },
            None => title_from(None, self.untitled_seq),
        }
    }

    /// The current edit generation.
    pub fn edit_generation(&self) -> (g: u64)
        ensures
            g == self@.edit_generation,
    {
        self.edit_generation
    }

    /// Record that the buffer was mutated: bump the edit generation (wrapping).
    pub fn on_edit(&mut self)
        ensures
            final(self)@ == (DocumentState { edit_generation: old(self)@.edit_generation.wrapping_add(1), ..old(self)@ }),
    {
        self.edit_generation = self.edit_generation.wrapping_add(1);
    }

    /// Coalesced reparse request: hand out the current generation and buffer
    /// only when the generation advanced past the last one handed out, so a
    /// burst of edits collapses to one request for the newest text.
    pub fn request_reparse(&mut self) -> (request: Option<(u64, String)>)
        ensures
            request.is_some() == old(self)@.reparse_due(),
            old(self)@.reparse_due() ==> (request matches Some((g, text)) && g == old(self)@.edit_generation && text@ == old(self)@.text),
            final(self)@ == (DocumentState { last_requested_generation: old(self)@.edit_generation, ..old(self)@ }),
    {
        if self.edit_generation == self.last_requested_generation {
            return None;
        }
        self.last_requested_generation = self.edit_generation;
        Some((self.edit_generation, self.buffer.clone()))
    }

    /// Whether a finished parse of generation `generation` is current and may
    /// be installed (a result for an older generation is stale).
    pub fn accepts_parse_result(&self, generation: u64) -> (current: bool)
        ensures
            current == (generation == self@.edit_generation),
    {
        generation == self.edit_generation
    }

    /// The number of characters (Unicode scalar values) in the buffer.
    pub fn char_len(&self) -> (n: usize)
        ensures
            n == self@.text.len(),
    {
        self.buffer.as_str().unicode_len()
    }

    /// Queue a caret jump to `char_offset` for the next frame.
    pub fn request_cursor_jump(&mut self, char_offset: usize)
        ensures
            final(self)@ == (DocumentState { pending_cursor_jump: Some(char_offset), ..old(self)@ }),
    {
        self.pending_cursor_jump = Some(char_offset);
    }

    /// Take the pending caret jump, if any, clamped to the buffer's character
    /// length; taking it clears it, so it applies exactly once.
    pub fn take_cursor_jump(&mut self) -> (jump: Option<usize>)
        ensures
            jump == clamped_jump(old(self)@.pending_cursor_jump, old(self)@.text.len()),
            final(self)@ == (DocumentState { pending_cursor_jump: None, ..old(self)@ }),
    {
        match self.pending_cursor_jump {
            Some(offset) => {
                self.pending_cursor_jump = None;
                let len = self.char_len();
                if offset <= len {
                    Some(offset)
                } else {
                    Some(len)
                }
            },
            None => None,
        }
    }

    /// `true` when a caret jump is queued for the next frame.
    pub fn has_pending_cursor_jump(&self) -> (pending: bool)
        ensures
            pending == self@.pending_cursor_jump.is_some(),
    {
        self.pending_cursor_jump.is_some()
    }
}

/// Reparse requests coalesce: right after a request no further request is due,
/// and the next edit makes one due again.
pub proof fn lemma_reparse_requests_coalesce(s: DocumentState)
    ensures
        !(DocumentState { last_requested_generation: s.edit_generation, ..s }).reparse_due(),
        (DocumentState {
            edit_generation: s.edit_generation.wrapping_add(1),
            last_requested_generation: s.edit_generation,
            ..s
        }).reparse_due(),
{
}

/// A queued caret jump is delivered once, within `[0, char_len]`: taking it
/// leaves nothing to take.
pub proof fn lemma_cursor_jump_taken_once(s: DocumentState)
    ensures
        s.pending_cursor_jump.is_some() ==> (clamped_jump(s.pending_cursor_jump, s.text.len())
            matches Some(c) && c <= s.text.len()),
        clamped_jump((DocumentState { pending_cursor_jump: None, ..s }).pending_cursor_jump, s.text.len()).is_none(),
{
}

/// A queued caret jump clamped to `[0, char_len]`.
pub open spec fn clamped_jump(pending: Option<usize>, char_len: nat) -> Option<usize> {
    match pending {
        Some(offset) => Some(if offset <= char_len { offset } else { char_len as usize }),
        None => None,
    }
}

} // verus!
