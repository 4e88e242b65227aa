//! The data model that the write and the read pipeline share.

/// Compression type
pub mod compression;
/// Encryption type
pub mod encryption;
/// Shared error handling
pub mod error;
/// Hash, compressor and UTF-8 check
pub mod primitives;
/// Byte-level encoding of integers, flags and text
pub mod codec;
/// File metadata
pub mod file_metadata;
/// File info struct
pub mod file_info;
/// File header
pub mod file_header;
/// Directory & directory pointer
pub mod directory;
/// Archive header
pub mod archive_header;
/// Meaning of an archive's bytes
pub mod layout;
/// What holds of archives that are written and read
pub mod guarantees;
