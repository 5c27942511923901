//! Output sanitization and input inspection for JSON/JSONL, CSV, TSV and
//! display contexts, against formula injection, bidi overrides, control
//! characters, JSON string injection and undecodable bytes.
mod sealed;
mod strings;

pub mod chars;
pub mod class_laws;
pub mod guard_input;
pub mod inspect;
pub mod inspect_laws;
pub mod json_laws;
pub mod laws;
pub mod serde_safe;
pub mod text;
pub mod types;
pub mod utf8;

pub use guard_input::GuardInput;
pub use inspect::inspect;
pub use serde_safe::JsonSafe;
pub use text::{
    bytes_to_utf8_lossy_safe, cap_display, csv_field, display_safe, jsonl_safe, tsv_safe,
};
pub use types::{DecodedStr, Findings, Guarded, Violation, ViolationKind};
