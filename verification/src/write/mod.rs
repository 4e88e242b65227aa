//! Laying out members, their footers and the directory on a sink.

/// Compression writer stream
pub mod comp_writer;
/// File writer stream
pub mod file;
/// Hash wrapper stream
pub mod hash_writer;
/// Writer functionality
pub mod writer;
