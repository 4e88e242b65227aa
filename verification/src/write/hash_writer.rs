use vstd::prelude::*;
use crate::shared::primitives::{blake2s, blake2s_digest};

verus! {

/// HashWriter struct
///
/// Wraps a sink and taps the bytes that are written through it, so that
/// their BLAKE2s hash can be retrieved later
pub struct HashWriter {
    /// The underlying sink
    writer: Vec<u8>,
    /// Where in the sink the tapped bytes start
    start: usize,
}

impl HashWriter {
    /// All bytes that the sink holds.
    pub closed spec fn sink(&self) -> Seq<u8> {
        self.writer@
    }

    /// The bytes written through this writer since it was made or since its
    /// hash was last retrieved.
    pub closed spec fn tapped(&self) -> Seq<u8> {
        self.writer@.skip(self.start as int)
    }

    /// The tapped bytes are the end of the sink.
    pub closed spec fn wf(&self) -> bool {
        self.start <= self.writer@.len()
    }

    /// The tapped bytes stand at the end of the sink.
    pub proof fn lemma_tapped_is_tail(&self)
        requires
            self.wf(),
        ensures
            self.tapped().len() <= self.sink().len(),
            self.tapped() == self.sink().skip(self.sink().len() - self.tapped().len()),
    {
    }

    /// Creates a new instance, wrapping the given sink
    pub fn new(writer: Vec<u8>) -> (hash_writer: Self)
        ensures
            hash_writer.wf(),
            hash_writer.sink() == writer@,
            hash_writer.tapped() == Seq::<u8>::empty(),
    {
        let start = writer.len();
        HashWriter { writer, start }
    }

    /// Appends `buf` to the sink and to the tapped bytes; all of it is
    /// accepted.
    pub fn write(&mut self, buf: &[u8]) -> (written: usize)
        requires
            old(self).wf(),
        ensures
            final(self).wf(),
            final(self).sink() == old(self).sink() + buf@,
            final(self).tapped() == old(self).tapped() + buf@,
            written == buf@.len(),
    {
        self.writer.extend_from_slice(buf);
        buf.len()
    }

    /// Nothing is held back by this writer, so there is nothing to flush.
    pub fn flush(&mut self)
        ensures
            *final(self) == *old(self),
    {
    }

    /// Retrieves the BLAKE2S hash of the tapped bytes as a 32B array,
    /// and starts tapping anew
    pub fn get_hash(&mut self) -> (hash: [u8; 32])
        requires
            old(self).wf(),
        ensures
            final(self).wf(),
            hash@ == blake2s_digest(old(self).tapped()),
            final(self).sink() == old(self).sink(),
            final(self).tapped() == Seq::<u8>::empty(),
    {
        let end = self.writer.len();
        let hash = blake2s(vstd::slice::slice_subrange(self.writer.as_slice(), self.start, end));
        self.start = end;
        hash
    }

    /// The position at which the next byte will be written: the length of
    /// the sink.
    pub fn stream_position(&self) -> (position: u64)
        ensures
            position == self.sink().len(),
    {
        self.writer.len() as u64
    }

    /// Hands the sink back.
    pub fn into_inner(self) -> (writer: Vec<u8>)
        ensures
            writer@ == self.sink(),
    {
        self.writer
    }
}

} // verus!
