use vstd::prelude::*;
use std::ops::Range;
use crate::shared::archive_header::{
    current_header, enc_archive_header, ArchiveHeader, ARCHIVE_HEADER_SIZE,
};
use crate::shared::codec::lemma_enc_lengths;
use crate::shared::compression::Compression;
use crate::shared::directory::{enc_directory, Directory};
use crate::shared::encryption::Encryption;
use crate::shared::error::{Error, ErrorView};
use crate::shared::layout::{
    lemma_begun_wf, lemma_closed_archive_reads_back, magic, member_of, member_sealed, opened,
    Member, Session, HEADER_OFFSET, MAGIC, MEMBERS_OFFSET,
};
use crate::write::file::File;

verus! {

/// The Writer struct
///
/// Used for creating .var Archives
pub struct Writer {
    /// The bytes of the archive so far
    sink: Vec<u8>,
    /// The finished members by name
    directory: Directory,
    /// What was written to each finished member
    members: Ghost<Map<Seq<char>, Member>>,
}

impl View for Writer {
    type V = Session;

    /// The archive as it stands: the sink, the directory's entries, and the
    /// contents of the finished members.
    closed spec fn view(&self) -> Session {
        Session { sink: self.sink@, entries: self.directory.entries(), members: self.members@ }
    }
}

impl Writer {
    /// The archive so far is in order: see [`Session::wf`].
    pub open spec fn wf(&self) -> bool {
        self@.wf()
    }

    /// Creates a new Writer on an empty sink: writes the magic bytes and an
    /// archive header that points nowhere yet. A sink that already holds
    /// bytes has no room for the magic bytes at its start, and is refused.
    pub fn new(sink: Vec<u8>) -> (r: Result<Writer, Error>)
        ensures
            match r {
                Ok(writer) => sink@.len() == 0 && writer.wf() && writer@ == Session::begun(),
                Err(e) => sink@.len() != 0 && e@ == ErrorView::CantWriteMagicBytes,
            },
    {
        if sink.len() != 0 {
            return Err(Error::CantWriteMagicBytes);
        }
        let mut sink = sink;
        sink.extend_from_slice(MAGIC.as_slice());
        let archive_header = ArchiveHeader::default();
        archive_header.encode(&mut sink);
        let writer = Writer { sink, directory: Directory::default(), members: Ghost(Map::empty()) };
        proof {
            lemma_begun_wf();
            assert(writer.sink@ =~= Session::begun().sink);
        }
        Ok(writer)
    }

    /// Puts a writer together from its parts.
    pub(crate) fn from_parts(
        sink: Vec<u8>,
        directory: Directory,
        members: Ghost<Map<Seq<char>, Member>>,
    ) -> (writer: Writer)
        ensures
            writer@ == (Session { sink: sink@, entries: directory.entries(), members: members@ }),
    {
        Writer { sink, directory, members }
    }

    /// Takes a writer apart.
    pub(crate) fn into_parts(self) -> (parts: (
        Vec<u8>,
        Directory,
        Ghost<Map<Seq<char>, Member>>,
    ))
        ensures
            parts.0@ == self@.sink,
            parts.1.entries() == self@.entries,
            parts.2@ == self@.members,
    {
        (self.sink, self.directory, self.members)
    }

    /// Initiates a new file writer at the given path. The writer is handed
    /// to the file writer, which hands it back when it is finished: one
    /// member is written at a time.
    pub fn write_file(self, path: &str, compression_type: Compression) -> (r: Result<File, Error>)
        requires
            self.wf(),
            compression_type.is_supported(),
        ensures
            r matches Ok(file) && file.wf() && file.session() == self@ && file.name() == path@
                && file.compression() == compression_type && file.written() == Seq::<u8>::empty(),
    {
        File::new(self, path, compression_type, Encryption::default())
    }

    /// Finishes the archive: writes the directory behind the last member,
    /// rewrites the archive header so that it names the directory's byte
    /// range, and hands out the bytes of the archive.
    ///
    /// Opening these bytes yields the directory of this writer, and each of
    /// its members reads back as it was written.
    pub fn finish(self) -> (archive: Vec<u8>)
        requires
            self.wf(),
        ensures
            archive@ == self@.closed(),
            opened(archive@) == Ok::<Map<Seq<char>, Range<u64>>, ErrorView>(self@.directory()),
            forall|name: Seq<char>| #[trigger]
                self@.directory().dom().contains(name) ==> member_sealed(
                    archive@,
                    self@.directory()[name],
                    self@.members[name],
                ) && member_of(archive@, self@.directory(), name) == Ok::<Seq<u8>, ErrorView>(
                    self@.members[name].contents,
                ),
    {
        let ghost session = self@;
        let mut sink = self.sink;
        let directory_begin = sink.len() as u64;
        self.directory.encode(&mut sink);
        let directory_end = sink.len() as u64;
        let archive_header = ArchiveHeader::pointing_at(directory_begin..directory_end);
        let mut record: Vec<u8> = Vec::new();
        archive_header.encode(&mut record);
        let ghost appended = sink@;
        let mut i: usize = 0;
        while i < ARCHIVE_HEADER_SIZE
            invariant
                i <= ARCHIVE_HEADER_SIZE,
                record@.len() == ARCHIVE_HEADER_SIZE,
                sink@.len() == appended.len(),
                appended.len() >= MEMBERS_OFFSET,
                forall|j: int| 0 <= j < HEADER_OFFSET ==> sink@[j] == appended[j],
                forall|j: int|
                    HEADER_OFFSET <= j < HEADER_OFFSET + i ==> sink@[j] == record@[j
                        - HEADER_OFFSET],
                forall|j: int| HEADER_OFFSET + i <= j < sink@.len() ==> sink@[j] == appended[j],
            decreases ARCHIVE_HEADER_SIZE - i,
        {
            sink[HEADER_OFFSET + i] = record[i];
            i += 1;
        }
        proof {
            lemma_enc_lengths();
            assert forall|j: int| 0 <= j < 3 implies sink@[j] == magic()[j] by {
                assert(appended[j] == session.sink[j]);
            }
            assert forall|j: int| 0 <= j < sink@.len() implies sink@[j] == session.closed()[j] by {
                if j >= 35 {
                    assert(sink@[j] == appended[j]);
                }
            }
            lemma_closed_archive_reads_back(session);
        }
        sink
    }
}

} // verus!
