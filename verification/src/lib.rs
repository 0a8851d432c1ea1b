//! A document tree edit and synchronization engine for structured
//! configuration files.
//!
//! The crate models a YAML/JSON/TOML document as a single tagged value tree,
//! parses and serializes it through one format adapter per syntax, applies
//! tree edits (leaf replacement, type-inferred field insertion, sequence
//! element removal and appending) while tracking the most recently changed
//! location, and reconciles the in-memory text buffer with disk content
//! without mistaking the application's own writes for external edits.

pub mod adapter;
pub mod formats;
pub mod infer;
pub mod lex;
pub mod search;
pub mod session;
pub mod value;
pub mod walker;

pub use adapter::detect_file_type;
pub use adapter::parse_document;
pub use adapter::serialize_document;
pub use adapter::FileType;
pub use infer::unescape_string;
pub use infer::value_from_string;
pub use search::find_line;
pub use search::scroll_offset;
pub use session::init_file_state;
pub use session::YamlEditorApp;
pub use value::deep_eq;
pub use value::PathSeg;
pub use value::TreeValue;
pub use walker::apply_edit;
pub use walker::apply_edits;
pub use walker::Edit;
pub use walker::EditOp;
