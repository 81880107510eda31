//! Document model, diagnostics registry and byte-faithful persistence logic for
//! the RONin editor, with machine-checked contracts.

pub mod diagnostics;
pub mod eol;
pub mod document;
pub mod fileio;
