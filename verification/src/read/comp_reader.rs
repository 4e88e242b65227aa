use vstd::prelude::*;
use crate::shared::compression::Compression;
use crate::shared::error::{Error, ErrorView};
use crate::shared::layout::unpacked;
use crate::shared::primitives::{zstd_decode, zstd_decoded};

verus! {

/// The unpacked bytes of a Zstandard stream, and how far they have been
/// read.
pub struct Decoder {
    /// The unpacked bytes
    stream: Vec<u8>,
    /// How many of them have been read
    position: usize,
}

impl Decoder {
    /// The bytes that have not been read yet.
    pub closed spec fn remaining(&self) -> Seq<u8> {
        self.stream@.skip(self.position as int)
    }

    /// The position lies within the unpacked bytes.
    pub closed spec fn wf(&self) -> bool {
        self.position <= self.stream@.len()
    }

    /// A decoder over `stream`, the outcome of unpacking a member's stored
    /// bytes. Where unpacking failed, the member cannot be read.
    pub fn over(stream: Option<Vec<u8>>) -> (r: Result<Decoder, Error>)
        ensures
            match stream {
                Some(bytes) => r matches Ok(decoder) && decoder.wf() && decoder.remaining()
                    == bytes@,
                None => r matches Err(e) && e@ == ErrorView::CantReadFile,
            },
    {
        match stream {
            Some(bytes) => {
                let decoder = Decoder { stream: bytes, position: 0 };
                Ok(decoder)
            },
            None => Err(Error::CantReadFile),
        }
    }

    /// Has `reader`, the stored bytes of a member, unpacked. Unpacking is the
    /// compressor's to refuse: it does so on bytes that are no Zstandard
    /// stream.
    pub fn new(reader: &[u8]) -> (r: Result<Decoder, Error>)
        ensures
            match r {
                Ok(decoder) => decoder.wf() && zstd_decoded(reader@) == Some(decoder.remaining()),
                Err(e) => e@ == ErrorView::CantReadFile,
            },
    {
        Decoder::over(zstd_decode(reader))
    }

    /// The number of bytes that have not been read yet.
    pub fn available(&self) -> (n: usize)
        requires
            self.wf(),
        ensures
            n == self.remaining().len(),
    {
        self.stream.len() - self.position
    }

    /// Copies the next bytes to the front of `buf`: as many as `buf` takes
    /// and the stream still has.
    pub fn read(&mut self, buf: &mut [u8]) -> (n: usize)
        requires
            old(self).wf(),
        ensures
            final(self).wf(),
            n == (if old(buf)@.len() <= old(self).remaining().len() {
                old(buf)@.len()
            } else {
                old(self).remaining().len()
            }),
            final(buf)@ == old(self).remaining().take(n as int) + old(buf)@.skip(n as int),
            final(self).remaining() == old(self).remaining().skip(n as int),
    {
        let total = self.stream.len();
        let left = total - self.position;
        let n = if buf.len() <= left {
            buf.len()
        } else {
            left
        };
        let mut i: usize = 0;
        while i < n
            invariant
                i <= n,
                n <= buf@.len(),
                buf@.len() == old(buf)@.len(),
                self.position + n <= self.stream@.len() == total,
                forall|j: int| 0 <= j < i ==> buf@[j] == self.stream@[self.position + j],
                forall|j: int| i <= j < buf@.len() ==> buf@[j] == old(buf)@[j],
            decreases n - i,
        {
            buf[i] = self.stream[self.position + i];
            i += 1;
        }
        self.position = self.position + n;
        n
    }
}

/// CompReader Enum
///
/// Wraps the stored bytes of a member in one of the supported compression
/// algorithms.
pub enum CompReader<'r> {
    /// Misconfigured reader.
    Misconfigured,
    /// Raw. No compression.
    Raw(&'r [u8]),
    /// Zstd. Comparable to DEFLATE, but much faster.
    ZStandard(Decoder),
}

impl<'r> CompReader<'r> {
    /// The reader is in order.
    pub open spec fn wf(&self) -> bool {
        match self {
            CompReader::Misconfigured => false,
            CompReader::Raw(_) => true,
            CompReader::ZStandard(decoder) => decoder.wf(),
        }
    }

    /// The unpacked bytes that have not been read yet.
    pub open spec fn remaining(&self) -> Seq<u8> {
        match self {
            CompReader::Misconfigured => Seq::empty(),
            CompReader::Raw(reader) => reader@,
            CompReader::ZStandard(decoder) => decoder.remaining(),
        }
    }

    /// Creates a new CompReader with a given type, wrapping `reader`, the
    /// stored bytes of a member: a raw reader over the bytes as they are for
    /// a member that is not compressed, a Zstandard reader over the unpacked
    /// bytes for a compressed one. Stored bytes that are not compressed are
    /// always wrapped; compressed ones unless the compressor refuses them.
    pub fn new(reader: &'r [u8], compression_type: Compression) -> (r: Result<Self, Error>)
        requires
            compression_type.is_supported(),
        ensures
            compression_type == Compression::Uncompressed ==> r is Ok,
            match r {
                Ok(comp_reader) => {
                    &&& comp_reader.wf()
                    &&& (comp_reader is Raw) <==> (compression_type == Compression::Uncompressed)
                    &&& (comp_reader is ZStandard) <==> (compression_type
                        == Compression::ZStandard)
                    &&& compression_type == Compression::Uncompressed ==> comp_reader.remaining()
                        == reader@
                    &&& unpacked(compression_type, reader@) == Some(comp_reader.remaining())
                },
                Err(e) => e@ == ErrorView::CantReadFile && compression_type
                    == Compression::ZStandard,
            },
    {
        match compression_type {
            Compression::Uncompressed => Ok(CompReader::Raw(reader)),
            Compression::ZStandard => match Decoder::new(reader) {
                Ok(decoder) => Ok(CompReader::ZStandard(decoder)),
                Err(e) => Err(e),
            },
            _ => Err(Error::CantReadFile),
        }
    }

    /// The number of unpacked bytes that have not been read yet.
    pub fn available(&self) -> (n: usize)
        requires
            self.wf(),
        ensures
            n == self.remaining().len(),
    {
        match self {
            CompReader::Raw(reader) => reader.len(),
            CompReader::ZStandard(decoder) => decoder.available(),
            CompReader::Misconfigured => 0,
        }
    }

    /// Copies the next unpacked bytes to the front of `buf`: as many as
    /// `buf` takes and the reader still has.
    pub fn read(&mut self, buf: &mut [u8]) -> (n: usize)
        requires
            old(self).wf(),
        ensures
            final(self).wf(),
            n == (if old(buf)@.len() <= old(self).remaining().len() {
                old(buf)@.len()
            } else {
                old(self).remaining().len()
            }),
            final(buf)@ == old(self).remaining().take(n as int) + old(buf)@.skip(n as int),
            final(self).remaining() == old(self).remaining().skip(n as int),
    {
        match self {
            CompReader::Raw(reader) => {
                let source: &'r [u8] = *reader;
                let n = if buf.len() <= source.len() {
                    buf.len()
                } else {
                    source.len()
                };
                let mut i: usize = 0;
                while i < n
                    invariant
                        i <= n,
                        n <= buf@.len(),
                        n <= source@.len(),
                        buf@.len() == old(buf)@.len(),
                        forall|j: int| 0 <= j < i ==> buf@[j] == source@[j],
                        forall|j: int| i <= j < buf@.len() ==> buf@[j] == old(buf)@[j],
                    decreases n - i,
                {
                    buf[i] = source[i];
                    i += 1;
                }
                *reader = vstd::slice::slice_subrange(source, n, source.len());
                n
            },
            CompReader::ZStandard(decoder) => decoder.read(buf),
            CompReader::Misconfigured => 0,
        }
    }
}

} // verus!
