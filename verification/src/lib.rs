//! Build-time classification of an installed OpenSSL-compatible library.
//!
//! The input is the text that a C preprocessor produced from a small probe
//! file. The output is the library variant, its encoded version and the
//! capability flags that conditional compilation depends on, or the reason
//! why the build cannot go on.
//!
//! The modules, leaves first: `text` and `numeral` read characters and
//! numbers; `version` encodes versions; `cfgs` holds the threshold tables
//! and `label` the legacy label table; `classify` reads the expanded text;
//! `gate` decides what is supported; `flags` derives the flags; `headers`
//! runs the whole path; `error` names the failures.

pub mod cfgs;
pub mod classify;
pub mod error;
pub mod flags;
pub mod gate;
pub mod headers;
pub mod label;
pub mod numeral;
pub mod text;
pub mod variant;
pub mod version;

pub use crate::cfgs::{binding_cfgs, get, get_fork_a};
pub use crate::classify::{classify, ClassificationResult};
pub use crate::error::{Error, SupportWindow};
pub use crate::flags::{derive_flags, Flag};
pub use crate::gate::{check_supported, version_error, Policy};
pub use crate::headers::{postprocess, validate_headers, Outcome, Report};
pub use crate::label::resolve_label;
pub use crate::variant::Variant;
pub use crate::version::{parse_new_version, parse_version};
