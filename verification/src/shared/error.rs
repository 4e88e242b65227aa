use vstd::prelude::*;

verus! {

/// Library-wide error type
#[derive(Debug)]
pub enum Error {
    /// And unknown error has occured
    Unknown,
    /// Cant read the magic bytes
    CantReadMagicBytes,
    /// Cant write the magic bytes
    CantWriteMagicBytes,
    /// Incorrect first 3 bytes
    IncorrectMagicBytes([u8; 3]),
    /// Incorrect version
    VersionMismatch((u8, u8, u8), (u8, u8, u8)),
    /// Cant read header
    CantReadHeader,
    /// Cant write header
    CantWriteHeader,
    /// Corrupt archive header
    CorruptHeader,
    /// Corrupt file header
    CorruptFileHeader,
    /// Corrupt directory
    CorruptDirectory,
    /// Couldnt read directory
    CantReadDirectory,
    /// Couldnt write directory
    CantWriteDirectory,
    /// Couldnt read file
    CantReadFile,
    /// Couldnt write file
    CantWriteFile,
    /// Couldnt read file header
    CantReadFileHeader,
    /// Couldnt write file header
    CantWriteFileHeader,
    /// Couldnt find the file specified
    FileNotFound(String),
}

/// What an [`Error`] says, with its payload as plain sequences.
pub enum ErrorView {
    Unknown,
    CantReadMagicBytes,
    CantWriteMagicBytes,
    IncorrectMagicBytes(Seq<u8>),
    VersionMismatch((u8, u8, u8), (u8, u8, u8)),
    CantReadHeader,
    CantWriteHeader,
    CorruptHeader,
    CorruptFileHeader,
    CorruptDirectory,
    CantReadDirectory,
    CantWriteDirectory,
    CantReadFile,
    CantWriteFile,
    CantReadFileHeader,
    CantWriteFileHeader,
    FileNotFound(Seq<char>),
}

impl View for Error {
    type V = ErrorView;

    open spec fn view(&self) -> ErrorView {
        match self {
            Error::Unknown => ErrorView::Unknown,
            Error::CantReadMagicBytes => ErrorView::CantReadMagicBytes,
            Error::CantWriteMagicBytes => ErrorView::CantWriteMagicBytes,
            Error::IncorrectMagicBytes(found) => ErrorView::IncorrectMagicBytes(found@),
            Error::VersionMismatch(ours, theirs) => ErrorView::VersionMismatch(*ours, *theirs),
            Error::CantReadHeader => ErrorView::CantReadHeader,
            Error::CantWriteHeader => ErrorView::CantWriteHeader,
            Error::CorruptHeader => ErrorView::CorruptHeader,
            Error::CorruptFileHeader => ErrorView::CorruptFileHeader,
            Error::CorruptDirectory => ErrorView::CorruptDirectory,
            Error::CantReadDirectory => ErrorView::CantReadDirectory,
            Error::CantWriteDirectory => ErrorView::CantWriteDirectory,
            Error::CantReadFile => ErrorView::CantReadFile,
            Error::CantWriteFile => ErrorView::CantWriteFile,
            Error::CantReadFileHeader => ErrorView::CantReadFileHeader,
            Error::CantWriteFileHeader => ErrorView::CantWriteFileHeader,
            Error::FileNotFound(name) => ErrorView::FileNotFound(name@),
        }
    }
}

} // verus!
