# ronin

The document model of the RONin editor, with its contracts proved by Verus.

* `src/diagnostics.rs` — the stable `RON-Pxxxx` diagnostic-code registry,
  severities, and the `Diagnostic` record.
* `src/eol.rs` — the byte-level model of line endings, the byte-order mark,
  newline normalisation and `\r\n` expansion, with the lemmas about them
  (including UTF-8 validity preservation).
* `src/document.rs` — `ByteFidelityProfile` (line-ending style, BOM, trailing
  newline, content hash), `SavedSnapshot` dirty tracking, and `EditorDocument`.
* `src/fileio.rs` — `save_bytes`, the byte-faithful re-emission used on save,
  the round-trip and single-line-ending laws, and the open/save error model.
* `app/` — the unverified shell: document identity tokens, the caret/scroll
  state, reading files, the atomic save through `atomicwrites`, and the
  reserved `egui` panel seams.
