//! Embedding binary manifests invisibly in UTF-8 text, and checking the
//! structure of the nested-box container they travel in.
pub mod codec;
pub mod scan;
pub mod unicode;
pub mod validator;

pub use codec::{embed_manifest, encode_wrapper, Error, ExtractionResult};
pub use scan::extract_manifest;
pub use validator::{
    validate_jumbf_structure, validate_manifest, validate_wrapper_bytes, ValidationCode,
    ValidationIssue, ValidationResult,
};
