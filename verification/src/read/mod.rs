//! Opening an archive and reading its members.

/// Archive struct
pub mod archive;
/// Compression reader stream wrapper
pub mod comp_reader;
/// File stream struct
pub mod file;
