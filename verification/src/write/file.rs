use vstd::prelude::*;
use crate::shared::compression::Compression;
use crate::shared::directory::Directory;
use crate::shared::encryption::Encryption;
use crate::shared::error::{Error, ErrorView};
use crate::shared::file_header::FileHeader;
use crate::shared::file_info::FileInfo;
use crate::shared::file_metadata::FileMetadata;
use crate::shared::directory::lemma_with_entry;
use crate::shared::layout::{
    footer_range, lemma_with_member_wf, packed, sealed_header, Member, Session,
};
use crate::shared::primitives::blake2s;
use crate::write::comp_writer::CompWriter;
use crate::write::writer::Writer;

verus! {

/// File
///
/// Represents a File stream within the archive.
/// This wraps the sink within several layers of
/// supported compression and hashing, and holds the writer's directory
/// until the file is finished.
pub struct File {
    /// The compression writer. Corresponds to a supported compression type.
    comp_writer: CompWriter,
    /// Where this file's data begins on the sink.
    data_begin: u64,
    /// The bytes written to this file, for creating the raw checksum
    raw_tap: Vec<u8>,
    /// Raw data size
    raw_size: usize,
    /// Filename,
    filename: String,
    /// The directory of the archive
    directory: Directory,
    /// What was written to each finished member
    members: Ghost<Map<Seq<char>, Member>>,
}

impl File {
    /// The archive as it stood when this file was begun.
    pub closed spec fn session(&self) -> Session {
        Session {
            sink: self.comp_writer.sink().take(self.data_begin as int),
            entries: self.directory.entries(),
            members: self.members@,
        }
    }

    /// The name under which the file will stand in the directory.
    pub closed spec fn name(&self) -> Seq<char> {
        self.filename@
    }

    /// The algorithm by which the file's bytes are stored.
    pub closed spec fn compression(&self) -> Compression {
        self.comp_writer.compression_type()
    }

    /// The bytes written to the file so far.
    pub closed spec fn written(&self) -> Seq<u8> {
        self.raw_tap@
    }

    /// The file writer is in order: the archive it was begun on is, and the
    /// bytes written so far stand behind it on the sink or wait to be
    /// compressed.
    pub closed spec fn wf(&self) -> bool {
        &&& self.comp_writer.wf()
        &&& self.session().wf()
        &&& self.data_begin + self.comp_writer.tapped().len() == self.comp_writer.sink().len()
        &&& self.comp_writer.sink().skip(self.data_begin as int) == self.comp_writer.tapped()
        &&& self.raw_size == self.raw_tap@.len()
        &&& match self.comp_writer {
            CompWriter::Raw(_) => self.comp_writer.tapped() == self.raw_tap@,
            CompWriter::ZStandard(_) => self.comp_writer.tapped() == Seq::<u8>::empty()
                && self.comp_writer.pending() == self.raw_tap@,
            CompWriter::Misconfigured => false,
        }
    }

    /// The archive as it stands once this file is finished with the given
    /// metadata.
    pub open spec fn sealed(&self, metadata: FileMetadata) -> Session {
        self.session().with_member(self.name(), self.compression(), self.written(), metadata)
    }

    /// A file writer that is in order writes with an algorithm that this
    /// library supports.
    pub proof fn lemma_compression_supported(&self)
        requires
            self.wf(),
        ensures
            self.compression().is_supported(),
    {
    }

    /// Creates a new File Writer
    ///
    /// Takes the writer over and begins a new file at the end of its sink.
    pub fn new(
        writer: Writer,
        filename: &str,
        compression_type: Compression,
        _encryption_type: Encryption,
    ) -> (r: Result<Self, Error>)
        requires
            writer.wf(),
            compression_type.is_supported(),
        ensures
            r matches Ok(file) && file.wf() && file.session() == writer@ && file.name()
                == filename@ && file.compression() == compression_type && file.written()
                == Seq::<u8>::empty(),
    {
        let (sink, directory, members) = writer.into_parts();
        let data_start = sink.len() as u64;
        let file = File {
            comp_writer: CompWriter::new(sink, compression_type),
            data_begin: data_start,
            filename: filename.to_owned(),
            raw_tap: Vec::new(),
            raw_size: 0,
            directory,
            members,
        };
        proof {
            assert(file.comp_writer.sink().take(data_start as int) =~= writer@.sink);
            assert(file.comp_writer.sink().skip(data_start as int) =~= Seq::<u8>::empty());
        }
        Ok(file)
    }

    /// Writes all of `buf` to the file and returns its length.
    pub fn write(&mut self, buf: &[u8]) -> (written: usize)
        requires
            old(self).wf(),
        ensures
            final(self).wf(),
            written == buf@.len(),
            final(self).written() == old(self).written() + buf@,
            final(self).session() == old(self).session(),
            final(self).name() == old(self).name(),
            final(self).compression() == old(self).compression(),
    {
        let ghost before = self.comp_writer.sink();
        let written = self.comp_writer.write(buf);
        self.raw_tap.extend_from_slice(buf);
        let tapped = self.raw_tap.len();
        self.raw_size = self.raw_size + written;
        proof {
            let after = self.comp_writer.sink();
            let begin = self.data_begin as int;
            assert(after.take(begin) =~= before.take(begin));
            assert(after.skip(begin) =~= self.comp_writer.tapped());
            match old(self).comp_writer {
                CompWriter::Raw(_) => {
                    assert(self.comp_writer.tapped() == self.raw_tap@);
                },
                CompWriter::ZStandard(_) => {
                    assert(self.comp_writer.pending() == self.raw_tap@);
                },
                CompWriter::Misconfigured => {},
            }
        }
        written
    }

    /// Nothing is flushed before the file is finished.
    pub fn flush(&mut self)
        ensures
            *final(self) == *old(self),
    {
        self.comp_writer.flush();
    }

    /// Finishes the file with the given metadata: has what is pending
    /// compressed, writes the file header behind the stored bytes, enters
    /// the file header's byte range into the directory under the file's
    /// name, and hands the writer back. An uncompressed file is always
    /// finished; a compressed one unless the compressor refuses, in which
    /// case the file cannot be written.
    pub fn finish_with(self, metadata: FileMetadata) -> (r: Result<Writer, Error>)
        requires
            self.wf(),
        ensures
            self.compression() == Compression::Uncompressed ==> r is Ok,
            match r {
                Ok(writer) => {
                    &&& writer.wf()
                    &&& writer@ == self.sealed(metadata)
                    &&& writer@.directory() == self.session().directory().insert(
                        self.name(),
                        footer_range(self.session(), self.compression(), self.written(), metadata),
                    )
                },
                Err(e) => e@ == ErrorView::CantWriteFile,
            },
    {
        let ghost session = self.session();
        let ghost raw = self.raw_tap@;
        let mut comp_writer = self.comp_writer;
        let mut directory = self.directory;
        let compression_type = comp_writer.get_compression_type();
        let raw_checksum = blake2s(self.raw_tap.as_slice());
        let data_checksum = match comp_writer.get_data_hash() {
            Ok(hash) => hash,
            Err(e) => return Err(e),
        };
        let ghost stored = packed(compression_type, raw);
        let data_end = comp_writer.stream_position();
        let file_info = FileInfo::added(metadata.added_at).with_metadata(
            metadata,
        ).with_compression(compression_type).with_raw_size(self.raw_size as u64).with_data_size(
            data_end - self.data_begin,
        ).with_raw_checksum(raw_checksum).with_data_checksum(data_checksum);
        let file_header = FileHeader::added(metadata.added_at).with_data_range(
            self.data_begin..data_end,
        ).with_file_info(file_info);
        let mut footer: Vec<u8> = Vec::new();
        file_header.encode(&mut footer);
        comp_writer.write(footer.as_slice());
        let file_header_end = comp_writer.stream_position();
        directory.set_file(self.filename.as_str(), data_end..file_header_end);
        let ghost header = sealed_header(self.data_begin, compression_type, raw, stored, metadata);
        let ghost members = self.members@.insert(self.filename@, Member { contents: raw, header });
        let writer = Writer::from_parts(comp_writer.into_inner(), directory, Ghost(members));
        proof {
            assert(writer@.sink =~= session.sink + stored + footer@);
            lemma_with_member_wf(session, self.filename@, compression_type, raw, metadata);
            lemma_with_entry(
                session.entries,
                self.filename@,
                footer_range(session, compression_type, raw, metadata),
            );
        }
        Ok(writer)
    }

    /// Finishes the file as one that was added at `added_at`, with nothing
    /// else recorded of it: see [`File::finish_with`].
    pub fn finish(self, added_at: i64) -> (r: Result<Writer, Error>)
        requires
            self.wf(),
        ensures
            self.compression() == Compression::Uncompressed ==> r is Ok,
            match r {
                Ok(writer) => {
                    &&& writer.wf()
                    &&& writer@ == self.sealed(FileMetadata::blank(added_at))
                    &&& writer@.directory() == self.session().directory().insert(
                        self.name(),
                        footer_range(
                            self.session(),
                            self.compression(),
                            self.written(),
                            FileMetadata::blank(added_at),
                        ),
                    )
                },
                Err(e) => e@ == ErrorView::CantWriteFile,
            },
    {
        self.finish_with(FileMetadata::added(added_at))
    }
}

} // verus!
