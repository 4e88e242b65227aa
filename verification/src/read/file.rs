use vstd::prelude::*;
use std::ops::Range;
use crate::read::comp_reader::CompReader;
use crate::shared::compression::Compression;
use crate::shared::error::{Error, ErrorView};
use crate::shared::file_metadata::FileMetadata;
use crate::shared::layout::{contents_at, slice_of};

verus! {

/// Represents a single File in the archive
pub struct File<'r> {
    /// The unpacking reader over the file's stored bytes.
    comp_reader: CompReader<'r>,
    /// A counter for how many bytes were read.
    raw_bytes_read: usize,
    /// Total size of the uncompressed data.
    raw_size: usize,
    /// Optional Metadata override
    metadata_opt: Option<FileMetadata>,
    /// The uncompressed data
    contents: Ghost<Seq<u8>>,
}

impl<'r> File<'r> {
    /// The contents of the file: as many bytes as its uncompressed size
    /// says.
    pub closed spec fn contents(&self) -> Seq<u8> {
        self.contents@
    }

    /// How many bytes of the contents have been read.
    pub closed spec fn position(&self) -> nat {
        self.raw_bytes_read as nat
    }

    /// The metadata that was attached to the file, if any was.
    pub closed spec fn metadata(&self) -> Option<FileMetadata> {
        self.metadata_opt
    }

    /// The reader is in order, and holds what is left of the contents.
    pub closed spec fn wf(&self) -> bool {
        &&& self.comp_reader.wf()
        &&& self.contents@.len() == self.raw_size
        &&& self.raw_bytes_read <= self.raw_size
        &&& self.raw_size - self.raw_bytes_read <= self.comp_reader.remaining().len()
        &&& self.contents@.skip(self.raw_bytes_read as int) == self.comp_reader.remaining().take(
            self.raw_size - self.raw_bytes_read,
        )
    }

    /// The position never lies behind the end of the contents.
    pub proof fn lemma_position_in_contents(&self)
        requires
            self.wf(),
        ensures
            self.position() <= self.contents().len(),
    {
    }

    /// A file over `comp_reader`, the unpacking reader over a member's stored
    /// bytes, that hands out the first `raw_size` bytes of what the reader
    /// holds. A reader that holds fewer bytes than `raw_size` cannot be read
    /// as that member.
    pub fn over(comp_reader: CompReader<'r>, raw_size: u64) -> (r: Result<File<'r>, Error>)
        requires
            comp_reader.wf(),
        ensures
            r is Ok <==> raw_size <= comp_reader.remaining().len(),
            match r {
                Ok(file) => {
                    &&& file.wf()
                    &&& file.position() == 0
                    &&& file.metadata() == None::<FileMetadata>
                    &&& file.contents() == comp_reader.remaining().take(raw_size as int)
                },
                Err(e) => e@ == ErrorView::CantReadFile,
            },
    {
        let available = comp_reader.available();
        if raw_size > available as u64 {
            return Err(Error::CantReadFile);
        }
        let ghost contents = comp_reader.remaining().take(raw_size as int);
        let file = File {
            comp_reader,
            raw_bytes_read: 0,
            raw_size: raw_size as usize,
            metadata_opt: None,
            contents: Ghost(contents),
        };
        assert(contents.skip(0) =~= contents);
        Ok(file)
    }

    /// Creates a new File
    ///
    /// Given the bytes of the archive, the uncompressed size, the data range
    /// and the compression type of one of its members. The member cannot be
    /// read where its algorithm is none that this library reads, where the
    /// data range does not lie within the archive, where its bytes do not
    /// unpack, and where they unpack to fewer bytes than `raw_size`.
    /// Unpacking compressed bytes is the compressor's to refuse; what becomes
    /// of the unpacked bytes is said by [`File::over`].
    pub fn new(
        reader: &'r [u8],
        raw_size: u64,
        data_range: Range<u64>,
        compression_type: Compression,
    ) -> (r: Result<File<'r>, Error>)
        ensures
            compression_type != Compression::ZStandard ==> (r is Ok <==> contents_at(
                reader@,
                data_range,
                compression_type,
                raw_size,
            ) is Ok),
            contents_at(reader@, data_range, compression_type, raw_size) is Err ==> r is Err,
            !compression_type.is_supported() ==> r is Err,
            slice_of(reader@, data_range) is None ==> r is Err,
            match r {
                Ok(file) => {
                    &&& file.wf()
                    &&& file.position() == 0
                    &&& file.metadata() == None::<FileMetadata>
                    &&& file.contents().len() == raw_size
                    &&& contents_at(reader@, data_range, compression_type, raw_size) == Ok::<
                        Seq<u8>,
                        ErrorView,
                    >(file.contents())
                },
                Err(e) => e@ == ErrorView::CantReadFile,
            },
    {
        if !compression_type.supported() {
            return Err(Error::CantReadFile);
        }
        if data_range.start > data_range.end || data_range.end > reader.len() as u64 {
            return Err(Error::CantReadFile);
        }
        let stored = vstd::slice::slice_subrange(
            reader,
            data_range.start as usize,
            data_range.end as usize,
        );
        match CompReader::new(stored, compression_type) {
            Ok(comp_reader) => File::over(comp_reader, raw_size),
            Err(e) => Err(e),
        }
    }

    /// ...with given metadata
    pub fn with_metadata(self, metadata: FileMetadata) -> (file: Self)
        requires
            self.wf(),
        ensures
            file.wf(),
            file.metadata() == Some(metadata),
            file.contents() == self.contents(),
            file.position() == self.position(),
    {
        let mut file = self;
        file.metadata_opt = Some(metadata);
        file
    }

    /// The uncompressed size of the file.
    pub fn raw_size(&self) -> (n: usize)
        requires
            self.wf(),
        ensures
            n == self.contents().len(),
    {
        self.raw_size
    }

    /// Copies the next bytes of the contents to the front of `buf`, as many
    /// as `buf` takes and the contents still have, and returns their number:
    /// 0 once the contents have been read to their end. The bytes that are
    /// stored behind the file's contents are never handed out.
    pub fn read(&mut self, buf: &mut [u8]) -> (n: usize)
        requires
            old(self).wf(),
        ensures
            final(self).wf(),
            n == (if old(buf)@.len() <= old(self).contents().len() - old(self).position() {
                old(buf)@.len() as int
            } else {
                old(self).contents().len() - old(self).position()
            }),
            final(buf)@ == old(self).contents().subrange(
                old(self).position() as int,
                old(self).position() + n,
            ) + old(buf)@.skip(n as int),
            final(self).position() == old(self).position() + n,
            final(self).contents() == old(self).contents(),
            final(self).metadata() == old(self).metadata(),
    {
        let buffer_length = buf.len();
        let remaining_data = self.raw_size - self.raw_bytes_read;
        let read_length = if buffer_length > remaining_data {
            remaining_data
        } else {
            buffer_length
        };
        if read_length == 0 {
            0
        } else {
            let ghost stream = self.comp_reader.remaining();
            let (head, _) = buf.split_at_mut(read_length);
            self.comp_reader.read(head);
            self.raw_bytes_read = self.raw_bytes_read + read_length;
            proof {
                let at = old(self).raw_bytes_read as int;
                let contents = self.contents@;
                let left = self.comp_reader.remaining().take(self.raw_size - self.raw_bytes_read);
                assert(contents.skip(at + read_length) =~= left) by {
                    assert forall|j: int| 0 <= j < left.len() implies #[trigger] left[j]
                        == contents.skip(at + read_length)[j] by {
                        assert(contents.skip(at)[read_length + j] == stream.take(
                            remaining_data as int,
                        )[read_length + j]);
                    }
                }
            }
            read_length
        }
    }

    /// Appends what is left of the contents to `out` and returns the number
    /// of bytes appended.
    pub fn read_to_end(&mut self, out: &mut Vec<u8>) -> (n: usize)
        requires
            old(self).wf(),
        ensures
            final(self).wf(),
            n == old(self).contents().len() - old(self).position(),
            final(out)@ == old(out)@ + old(self).contents().skip(old(self).position() as int),
            final(self).position() == old(self).contents().len(),
            final(self).contents() == old(self).contents(),
            final(self).metadata() == old(self).metadata(),
    {
        let mut chunk: Vec<u8> = vec![0u8; 4096];
        let mut total: usize = 0;
        loop
            invariant
                chunk@.len() == 4096,
                self.wf(),
                self.contents() == old(self).contents(),
                self.metadata() == old(self).metadata(),
                old(self).position() + total == self.position(),
                out@ == old(out)@ + old(self).contents().subrange(
                    old(self).position() as int,
                    self.position() as int,
                ),
            ensures
                self.wf(),
                self.contents() == old(self).contents(),
                self.metadata() == old(self).metadata(),
                self.position() == self.contents().len(),
                old(self).position() + total == self.position(),
                out@ == old(out)@ + old(self).contents().subrange(
                    old(self).position() as int,
                    self.position() as int,
                ),
            decreases self.contents().len() - self.position(),
        {
            let n = self.read(chunk.as_mut_slice());
            if n == 0 {
                break ;
            }
            out.extend_from_slice(vstd::slice::slice_subrange(chunk.as_slice(), 0, n));
            total = total + n;
        }
        total
    }
}

} // verus!
