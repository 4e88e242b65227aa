use vstd::prelude::*;
use crate::shared::compression::Compression;
use crate::shared::error::{Error, ErrorView};
use crate::shared::layout::ZSTD_LEVEL;
use crate::shared::primitives::{blake2s_digest, zstd_decoded, zstd_encode, zstd_frame};
use crate::write::hash_writer::HashWriter;

verus! {

/// Collects the bytes of one member and, when it is finished, writes them to
/// the wrapped writer as one Zstandard frame.
pub struct Encoder {
    /// Where the frame goes
    writer: HashWriter,
    /// The bytes accepted so far
    pending: Vec<u8>,
    /// The compression level
    level: i32,
}

impl Encoder {
    /// All bytes that the sink holds.
    pub closed spec fn sink(&self) -> Seq<u8> {
        self.writer.sink()
    }

    /// The bytes that went through the wrapped writer.
    pub closed spec fn tapped(&self) -> Seq<u8> {
        self.writer.tapped()
    }

    /// The bytes accepted so far, none of them compressed yet.
    pub closed spec fn pending(&self) -> Seq<u8> {
        self.pending@
    }

    /// The compression level.
    pub closed spec fn level(&self) -> i32 {
        self.level
    }

    /// The wrapped writer is in order.
    pub closed spec fn wf(&self) -> bool {
        self.writer.wf()
    }

    /// Creates an encoder that will write its frame to `writer`.
    pub fn new(writer: HashWriter, level: i32) -> (encoder: Self)
        requires
            writer.wf(),
        ensures
            encoder.wf(),
            encoder.sink() == writer.sink(),
            encoder.tapped() == writer.tapped(),
            encoder.pending() == Seq::<u8>::empty(),
            encoder.level() == level,
    {
        Encoder { writer, pending: Vec::new(), level }
    }

    /// Accepts all of `buf`; nothing reaches the sink before the encoder is
    /// finished.
    pub fn write(&mut self, buf: &[u8]) -> (written: usize)
        requires
            old(self).wf(),
        ensures
            final(self).wf(),
            final(self).sink() == old(self).sink(),
            final(self).tapped() == old(self).tapped(),
            final(self).pending() == old(self).pending() + buf@,
            final(self).level() == old(self).level(),
            written == buf@.len(),
    {
        self.pending.extend_from_slice(buf);
        buf.len()
    }

    /// The position at which the frame will start: the length of the sink.
    pub fn stream_position(&self) -> (position: u64)
        ensures
            position == self.sink().len(),
    {
        self.writer.stream_position()
    }

    /// Writes `frame`, the outcome of compressing the accepted bytes, to the
    /// wrapped writer and hands that writer back. Where compression failed,
    /// nothing is written and the member cannot be written.
    pub fn emit(self, frame: Option<Vec<u8>>) -> (r: Result<HashWriter, Error>)
        requires
            self.wf(),
        ensures
            match frame {
                Some(f) => r matches Ok(writer) && writer.wf() && writer.sink() == self.sink()
                    + f@ && writer.tapped() == self.tapped() + f@,
                None => r matches Err(e) && e@ == ErrorView::CantWriteFile,
            },
    {
        match frame {
            Some(f) => {
                let mut writer = self.writer;
                writer.write(f.as_slice());
                Ok(writer)
            },
            None => Err(Error::CantWriteFile),
        }
    }

    /// Has the accepted bytes compressed and writes the frame to the wrapped
    /// writer, which is handed back. Compression is the compressor's to
    /// refuse; where it does, nothing is written.
    pub fn finish(self) -> (r: Result<HashWriter, Error>)
        requires
            self.wf(),
        ensures
            match r {
                Ok(writer) => {
                    let frame = zstd_frame(self.pending(), self.level());
                    &&& writer.wf()
                    &&& writer.sink() == self.sink() + frame
                    &&& writer.tapped() == self.tapped() + frame
                    &&& zstd_decoded(frame) == Some(self.pending())
                },
                Err(e) => e@ == ErrorView::CantWriteFile,
            },
    {
        let frame = zstd_encode(self.pending.as_slice(), self.level);
        self.emit(frame)
    }
}

/// CompWriter enum
///
/// Wraps a writer in one of the supported compression algorithms.
pub enum CompWriter {
    /// Misconfigured Writer.
    Misconfigured,
    /// Raw - no compression.
    Raw(HashWriter),
    /// Zstd compression.
    ZStandard(Encoder),
}

impl CompWriter {
    /// The writer wraps a sink and is in order.
    pub open spec fn wf(&self) -> bool {
        match self {
            CompWriter::Misconfigured => false,
            CompWriter::Raw(hash_writer) => hash_writer.wf(),
            CompWriter::ZStandard(encoder) => encoder.wf() && encoder.level() == ZSTD_LEVEL,
        }
    }

    /// All bytes that the sink holds.
    pub open spec fn sink(&self) -> Seq<u8> {
        match self {
            CompWriter::Misconfigured => Seq::empty(),
            CompWriter::Raw(hash_writer) => hash_writer.sink(),
            CompWriter::ZStandard(encoder) => encoder.sink(),
        }
    }

    /// The bytes that reached the sink through this writer since it was made
    /// or since its hash was last retrieved.
    pub open spec fn tapped(&self) -> Seq<u8> {
        match self {
            CompWriter::Misconfigured => Seq::empty(),
            CompWriter::Raw(hash_writer) => hash_writer.tapped(),
            CompWriter::ZStandard(encoder) => encoder.tapped(),
        }
    }

    /// The bytes that were accepted and have not reached the sink.
    pub open spec fn pending(&self) -> Seq<u8> {
        match self {
            CompWriter::ZStandard(encoder) => encoder.pending(),
            _ => Seq::empty(),
        }
    }

    /// The compression type corresponding to this writer variant.
    pub open spec fn compression_type(&self) -> Compression {
        match self {
            CompWriter::Raw(_) => Compression::Uncompressed,
            CompWriter::ZStandard(_) => Compression::ZStandard,
            CompWriter::Misconfigured => Compression::Unknown,
        }
    }

    /// Creates a new CompWriter
    ///
    /// Wraps a given sink first in a HashWriter and then in a CompWriter
    /// variant corresponding to the chosen compression algorithm.
    pub fn new(writer: Vec<u8>, compression_type: Compression) -> (comp_writer: Self)
        requires
            compression_type.is_supported(),
        ensures
            comp_writer.wf(),
            comp_writer.compression_type() == compression_type,
            comp_writer.sink() == writer@,
            comp_writer.tapped() == Seq::<u8>::empty(),
            comp_writer.pending() == Seq::<u8>::empty(),
    {
        match compression_type {
            Compression::Uncompressed => CompWriter::Raw(HashWriter::new(writer)),
            Compression::ZStandard => CompWriter::ZStandard(
                Encoder::new(HashWriter::new(writer), ZSTD_LEVEL),
            ),
            _ => CompWriter::Misconfigured,
        }
    }

    /// Gets the compression type corresponding to this writer variant
    pub fn get_compression_type(&self) -> (compression_type: Compression)
        ensures
            compression_type == self.compression_type(),
    {
        match self {
            CompWriter::Raw(_) => Compression::Uncompressed,
            CompWriter::ZStandard(_) => Compression::ZStandard,
            _ => Compression::Unknown,
        }
    }

    /// Accepts all of `buf`: an uncompressed writer hands it on to the sink,
    /// a compressing writer keeps it until the data hash is asked for.
    pub fn write(&mut self, buf: &[u8]) -> (written: usize)
        requires
            old(self).wf(),
        ensures
            final(self).wf(),
            written == buf@.len(),
            final(self).compression_type() == old(self).compression_type(),
            (*old(self) is Raw) ==> final(self).sink() == old(self).sink() + buf@,
            (*old(self) is Raw) ==> final(self).tapped() == old(self).tapped() + buf@,
            (*old(self) is ZStandard) ==> final(self).sink() == old(self).sink(),
            (*old(self) is ZStandard) ==> final(self).tapped() == old(self).tapped(),
            final(self).pending() == (if (*old(self) is ZStandard) {
                old(self).pending() + buf@
            } else {
                old(self).pending()
            }),
    {
        match self {
            CompWriter::Raw(hash_writer) => hash_writer.write(buf),
            CompWriter::ZStandard(encoder) => encoder.write(buf),
            _ => buf.len(),
        }
    }

    /// Nothing is flushed before the data hash is asked for: a compressing
    /// writer emits one frame per member.
    pub fn flush(&mut self)
        ensures
            *final(self) == *old(self),
    {
    }

    /// Finishes the member: has what is pending compressed and written to
    /// the sink, and gets the hash of all bytes that reached the sink. The
    /// writer is an uncompressed one from then on. Where the compressor
    /// refuses, nothing is written and the writer is left misconfigured.
    ///
    /// Only use this once you have finished writing.
    pub fn get_data_hash(&mut self) -> (r: Result<[u8; 32], Error>)
        requires
            old(self).wf(),
        ensures
            (*old(self) is Raw) ==> r is Ok,
            match r {
                Ok(hash) => {
                    let emitted = if (*old(self) is Raw) {
                        Seq::<u8>::empty()
                    } else {
                        zstd_frame(old(self).pending(), ZSTD_LEVEL)
                    };
                    &&& final(self).wf()
                    &&& (*final(self) is Raw)
                    &&& final(self).sink() == old(self).sink() + emitted
                    &&& final(self).tapped() == Seq::<u8>::empty()
                    &&& hash@ == blake2s_digest(old(self).tapped() + emitted)
                    &&& (*old(self) is ZStandard) ==> zstd_decoded(emitted) == Some(
                        old(self).pending(),
                    )
                },
                Err(e) => e@ == ErrorView::CantWriteFile && (*final(self) is Misconfigured),
            },
    {
        let mut taken = CompWriter::Misconfigured;
        core::mem::swap(self, &mut taken);
        let finished = match taken {
            CompWriter::Raw(hash_writer) => Ok(hash_writer),
            CompWriter::ZStandard(encoder) => encoder.finish(),
            _ => Err(Error::CantWriteFile),
        };
        match finished {
            Ok(mut hash_writer) => {
                let hash = hash_writer.get_hash();
                *self = CompWriter::Raw(hash_writer);
                Ok(hash)
            },
            Err(e) => Err(e),
        }
    }

    /// The position at which the next byte will reach the sink: the length
    /// of the sink.
    pub fn stream_position(&self) -> (position: u64)
        requires
            self.wf(),
        ensures
            position == self.sink().len(),
    {
        match self {
            CompWriter::Raw(hash_writer) => hash_writer.stream_position(),
            CompWriter::ZStandard(encoder) => encoder.stream_position(),
            _ => 0,
        }
    }

    /// Hands the sink back, without anything that is still pending.
    pub fn into_inner(self) -> (writer: Vec<u8>)
        requires
            self is Raw,
        ensures
            writer@ == self.sink(),
    {
        match self {
            CompWriter::Raw(hash_writer) => hash_writer.into_inner(),
            _ => Vec::new(),
        }
    }
}

} // verus!
