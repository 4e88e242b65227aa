use vstd::prelude::*;
use std::ops::Range;
use vstd::string::StringExecFns;
use crate::read::file::File;
use crate::shared::archive_header::ArchiveHeader;
use crate::shared::compression::Compression;
use crate::shared::directory::Directory;
use crate::shared::error::{Error, ErrorView};
use crate::shared::file_header::{FileHeader, FileHeaderView};
use crate::shared::file_info::{FileInfo, FileInfoView};
use crate::shared::file_metadata::FileMetadata;
use crate::shared::layout::{header_in, info_of, member_of, opened, HEADER_OFFSET, MAGIC};

verus! {

/// The Archive struct
pub struct Archive {
    /// The source - the bytes of the archive
    source: Vec<u8>,
    /// The directory
    directory: Directory,
}

impl Archive {
    /// The bytes of the archive.
    pub closed spec fn source(&self) -> Seq<u8> {
        self.source@
    }

    /// The directory: the byte range of each member's file header by name.
    pub closed spec fn directory(&self) -> Map<Seq<char>, Range<u64>> {
        self.directory@
    }

    /// The directory is the one that opening the source yields.
    pub closed spec fn wf(&self) -> bool {
        &&& self.directory.wf()
        &&& opened(self.source@) == Ok::<Map<Seq<char>, Range<u64>>, ErrorView>(self.directory@)
    }

    /// The directory of an archive is what [`opened`] says of its bytes.
    pub proof fn lemma_directory_is_opened(&self)
        requires
            self.wf(),
        ensures
            opened(self.source()) == Ok::<Map<Seq<char>, Range<u64>>, ErrorView>(self.directory()),
    {
    }

    /// Creates a new archive, wrapping the given source: checks the magic
    /// bytes, reads the archive header, and reads the directory at the
    /// offset that the header names.
    pub fn new(source: Vec<u8>) -> (r: Result<Self, Error>)
        ensures
            match r {
                Ok(archive) => {
                    &&& archive.wf()
                    &&& archive.source() == source@
                    &&& opened(source@) == Ok::<Map<Seq<char>, Range<u64>>, ErrorView>(
                        archive.directory(),
                    )
                },
                Err(e) => opened(source@) == Err::<Map<Seq<char>, Range<u64>>, ErrorView>(e@),
            },
    {
        // Read the magic bytes
        if source.len() < HEADER_OFFSET {
            return Err(Error::CantReadMagicBytes);
        }
        let magic_bytes: [u8; 3] = [source[0], source[1], source[2]];
        assert(magic_bytes@ =~= source@.subrange(0, 3));
        if magic_bytes[0] != MAGIC[0] || magic_bytes[1] != MAGIC[1] || magic_bytes[2] != MAGIC[2] {
            return Err(Error::IncorrectMagicBytes(magic_bytes));
        }
        let header = match ArchiveHeader::decode(source.as_slice(), HEADER_OFFSET) {
            Some((header, _)) => header,
            None => return Err(Error::CorruptHeader),
        };
        let dir_begin = header.directory_range.start;
        if dir_begin > source.len() as u64 {
            return Err(Error::CorruptDirectory);
        }
        let directory = match Directory::decode(source.as_slice(), dir_begin as usize) {
            Some((directory, _)) => directory,
            None => return Err(Error::CorruptDirectory),
        };
        Ok(Self { directory, source })
    }

    /// Lists all files: each name of the directory once.
    pub fn get_file_list(&self) -> (list: Vec<String>)
        requires
            self.wf(),
        ensures
            list@.len() == self.directory().len(),
            forall|i: int, j: int|
                0 <= i < j < list@.len() ==> (#[trigger] list@[i])@ != (#[trigger] list@[j])@,
            forall|name: Seq<char>|
                self.directory().dom().contains(name) <==> exists|i: int|
                    0 <= i < list@.len() && (#[trigger] list@[i])@ == name,
    {
        proof {
            crate::shared::directory::lemma_entries_map_len(self.directory.entries());
        }
        self.directory.get_file_list()
    }

    /// Gets a File stream by path: looks the name up in the directory, reads
    /// the file header that the directory points to, and opens the data range
    /// that the file header names. Every error comes exactly where
    /// [`member_of`] says; a member that is not compressed opens wherever
    /// [`member_of`] says. Unpacking compressed data is the compressor's to
    /// refuse; what becomes of the unpacked bytes is said by [`File::over`].
    pub fn get_file<'r>(&'r self, path: &str) -> (r: Result<File<'r>, Error>)
        requires
            self.wf(),
        ensures
            member_of(self.source(), self.directory(), path@) matches Err(e) ==> r matches Err(
                got,
            ) && got@ == e,
            member_of(self.source(), self.directory(), path@) is Ok && (header_in(
                self.source(),
                self.directory()[path@],
            ) matches Ok(header) && header.file_info.compression != Compression::ZStandard)
                ==> r is Ok,
            match r {
                Ok(file) => {
                    &&& file.wf()
                    &&& file.position() == 0
                    &&& file.metadata() == None::<FileMetadata>
                    &&& member_of(self.source(), self.directory(), path@) == Ok::<
                        Seq<u8>,
                        ErrorView,
                    >(file.contents())
                },
                Err(e) => {
                    ||| member_of(self.source(), self.directory(), path@) == Err::<
                        Seq<u8>,
                        ErrorView,
                    >(e@)
                    ||| {
                        &&& e@ == ErrorView::CantReadFile
                        &&& self.directory().dom().contains(path@)
                        &&& header_in(self.source(), self.directory()[path@]) matches Ok(header)
                            && header.file_info.compression == Compression::ZStandard
                    }
                },
            },
    {
        let file_header_range = match self.directory.get_file(path) {
            Some(range) => range,
            None => return Err(Error::FileNotFound(String::from_str(path))),
        };
        let file_header = match self.get_file_header(file_header_range) {
            Ok(header) => header,
            Err(e) => return Err(e),
        };
        File::new(
            self.source.as_slice(),
            file_header.file_info.raw_size,
            file_header.data_range.start..file_header.data_range.end,
            file_header.file_info.compression,
        )
    }

    /// Gets a files info by path: the file info of the file header that the
    /// directory points to, with the name filled in.
    pub fn get_file_info(&self, path: &str) -> (r: Result<FileInfo, Error>)
        requires
            self.wf(),
        ensures
            match r {
                Ok(info) => info_of(self.source(), self.directory(), path@) == Ok::<
                    FileInfoView,
                    ErrorView,
                >(info@),
                Err(e) => info_of(self.source(), self.directory(), path@) == Err::<
                    FileInfoView,
                    ErrorView,
                >(e@),
            },
    {
        let file_header_range = match self.directory.get_file(path) {
            Some(range) => range,
            None => return Err(Error::FileNotFound(String::from_str(path))),
        };
        let file_header = match self.get_file_header(file_header_range) {
            Ok(header) => header,
            Err(e) => return Err(e),
        };
        let file_info = file_header.file_info.clone().with_filename(path);
        Ok(file_info)
    }

    /// Gets a file header: reads the bytes of the range and decodes them.
    pub fn get_file_header(&self, file_header_range: Range<u64>) -> (r: Result<FileHeader, Error>)
        ensures
            match r {
                Ok(header) => header_in(self.source(), file_header_range) == Ok::<
                    FileHeaderView,
                    ErrorView,
                >(header@),
                Err(e) => header_in(self.source(), file_header_range) == Err::<
                    FileHeaderView,
                    ErrorView,
                >(e@),
            },
    {
        if file_header_range.start > file_header_range.end || file_header_range.end
            > self.source.len() as u64 {
            return Err(Error::CantReadFileHeader);
        }
        let file_header_bytes = vstd::slice::slice_subrange(
            self.source.as_slice(),
            file_header_range.start as usize,
            file_header_range.end as usize,
        );
        match FileHeader::decode(file_header_bytes) {
            Some(header) => Ok(header),
            None => Err(Error::CorruptFileHeader),
        }
    }

    /// Hands the source back.
    pub fn into_inner(self) -> (source: Vec<u8>)
        ensures
            source@ == self.source(),
    {
        self.source
    }
}

} // verus!
