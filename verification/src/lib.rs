//! Path safety utilities: separator normalization, validation of untrusted
//! path strings, and a guarded join that keeps results inside a trusted root.
//!
//! The library works on plain strings. Every public operation carries a
//! contract stated over sequence views of its inputs, and the security
//! properties (idempotent normalization, rejection of traversal, NUL bytes
//! and reserved device names) are proved as lemmas alongside the code.

mod chars;
mod error;
mod laws;
mod normalize;
mod sanitize;
mod validate;

pub use error::{PathError, Violation};
pub use laws::{lemma_dotdot_rejected, lemma_nul_rejected, lemma_reserved_name_rejected};
pub use normalize::{
    is_normalized, join_and_normalize, join_norm_spec, lemma_join_and_normalize_associative,
    lemma_normalize_idempotent, lemma_normalize_well_formed, normalize_path_buf,
    normalize_path_str, normalize_spec,
};
pub use sanitize::{
    join_spec, lemma_sanitized_path_invariant, safe_repository_join, sanitize_directory_file_path,
    sanitize_spec,
};
pub use validate::{is_safe_path, is_safe_spec, validate_path, validate_spec};
