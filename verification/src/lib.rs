//! Verified core of a sandboxed archive extractor: path sanitization,
//! extraction limits against decompression bombs, and the per-entry
//! decisions that the extraction drivers follow.

pub mod text;
pub mod path;
pub mod security;
pub mod protocol;
pub mod extract;
pub mod sevenz;
pub mod host;
