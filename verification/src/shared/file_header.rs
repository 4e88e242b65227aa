use vstd::prelude::*;
use std::ops::Range;
use vstd::std_specs::convert::FromSpecImpl;
use crate::shared::codec::{
    enc_u64, get_u64, lemma_enc_lengths, lemma_split_at, lemma_u64_round_trip, put_u64, u64_at,
};
use crate::shared::compression::Compression;
use crate::shared::encryption::Encryption;
use crate::shared::file_info::{
    enc_file_info, file_info_at, lemma_file_info_round_trip, FileInfo, FileInfoView,
};

verus! {

/// A file header
///
/// Written behind a member's stored bytes: the byte range of those bytes and
/// the member's [`FileInfo`].
#[derive(Debug)]
pub struct FileHeader {
    /// Byte range of this files' data
    pub data_range: Range<u64>,
    /// Sizes, algorithms, metadata and checksums of this file
    pub file_info: FileInfo,
}

/// A [`FileHeader`] with its file info as a view.
pub struct FileHeaderView {
    pub data_range: Range<u64>,
    pub file_info: FileInfoView,
}

impl View for FileHeader {
    type V = FileHeaderView;

    open spec fn view(&self) -> FileHeaderView {
        FileHeaderView { data_range: self.data_range, file_info: self.file_info@ }
    }
}

impl FileHeaderView {
    /// What the record reads back as.
    pub open spec fn stored(self) -> FileHeaderView {
        FileHeaderView { data_range: self.data_range, file_info: self.file_info.stored() }
    }
}

/// The file header record: start and end of the data range, then the file
/// info record.
pub open spec fn enc_file_header(v: FileHeaderView) -> Seq<u8> {
    enc_u64(v.data_range.start) + (enc_u64(v.data_range.end) + enc_file_info(v.file_info))
}

/// Reads a file header record at `pos`.
#[verifier::opaque]
pub open spec fn file_header_at(s: Seq<u8>, pos: int) -> Option<(FileHeaderView, int)> {
    match u64_at(s, pos) {
        Some((start, p1)) => match u64_at(s, p1) {
            Some((end, p2)) => match file_info_at(s, p2) {
                Some((file_info, p3)) => Some(
                    (FileHeaderView { data_range: Range { start, end }, file_info }, p3),
                ),
                None => None,
            },
            None => None,
        },
        None => None,
    }
}

/// The file header that a byte sequence starts with, if it starts with one.
/// Bytes behind the record are not looked at.
pub open spec fn parse_file_header(s: Seq<u8>) -> Option<FileHeaderView> {
    match file_header_at(s, 0) {
        Some((v, _)) => Some(v),
        None => None,
    }
}

/// A file header record reads back as the header it was written from, but
/// for algorithms that have no code of their own.
pub proof fn lemma_file_header_round_trip(s: Seq<u8>, pos: int, v: FileHeaderView)
    requires
        0 <= pos,
        v.file_info.wf(),
        pos + enc_file_header(v).len() <= s.len(),
        s.subrange(pos, pos + enc_file_header(v).len()) == enc_file_header(v),
    ensures
        file_header_at(s, pos) == Some((v.stored(), pos + enc_file_header(v).len())),
{
    reveal(file_header_at);
    lemma_enc_lengths();
    let e1 = enc_u64(v.data_range.start);
    let e2 = enc_u64(v.data_range.end);
    let e3 = enc_file_info(v.file_info);
    lemma_split_at(s, pos, e1, e2 + e3);
    lemma_split_at(s, pos + 8, e2, e3);
    lemma_u64_round_trip(s, pos, v.data_range.start);
    lemma_u64_round_trip(s, pos + 8, v.data_range.end);
    lemma_file_info_round_trip(s, pos + 16, v.file_info);
}

/// A file header record, standing alone or followed by other bytes, parses
/// as the header it was written from.
pub proof fn lemma_parse_file_header(v: FileHeaderView, rest: Seq<u8>)
    requires
        v.file_info.wf(),
    ensures
        parse_file_header(enc_file_header(v) + rest) == Some(v.stored()),
{
    let s = enc_file_header(v) + rest;
    assert(s.subrange(0, enc_file_header(v).len() as int) =~= enc_file_header(v));
    lemma_file_header_round_trip(s, 0, v);
}

impl FileHeader {
    /// Returns a boolean indicating whether or not this file is compressed
    pub fn is_compressed(&self) -> (b: bool)
        ensures
            b == (self.file_info.compression != Compression::Uncompressed),
    {
        self.file_info.is_compressed()
    }

    /// Returns a boolean indicating whether or not this file is encrypted
    pub fn is_encrypted(&self) -> (b: bool)
        ensures
            b == (self.file_info.encryption != Encryption::Unencrypted),
    {
        self.file_info.is_encrypted()
    }

    /// Gets the compression type
    pub fn get_compression(&self) -> (c: Compression)
        ensures
            c == self.file_info.compression,
    {
        self.file_info.compression
    }

    /// With a given raw size
    pub fn with_raw_size(self, raw_size: u64) -> (header: Self)
        ensures
            header@ == (FileHeaderView {
                file_info: FileInfoView { raw_size, ..self@.file_info },
                ..self@
            }),
    {
        FileHeader {
            data_range: self.data_range,
            file_info: self.file_info.with_raw_size(raw_size),
        }
    }

    /// With a given compression type
    pub fn with_compression(self, compression_type: Compression) -> (header: Self)
        ensures
            header@ == (FileHeaderView {
                file_info: FileInfoView { compression: compression_type, ..self@.file_info },
                ..self@
            }),
    {
        FileHeader {
            data_range: self.data_range,
            file_info: self.file_info.with_compression(compression_type),
        }
    }

    /// With a given data range
    pub fn with_data_range(self, data_range: Range<u64>) -> (header: Self)
        ensures
            header@ == (FileHeaderView { data_range, ..self@ }),
    {
        FileHeader { data_range, file_info: self.file_info }
    }

    /// With a given data checksum
    pub fn with_data_checksum(self, data_checksum: [u8; 32]) -> (header: Self)
        ensures
            header@ == (FileHeaderView {
                file_info: FileInfoView { data_checksum: data_checksum@, ..self@.file_info },
                ..self@
            }),
    {
        FileHeader {
            data_range: self.data_range,
            file_info: self.file_info.with_data_checksum(data_checksum),
        }
    }

    /// With a given raw checksum
    pub fn with_raw_checksum(self, raw_checksum: [u8; 32]) -> (header: Self)
        ensures
            header@ == (FileHeaderView {
                file_info: FileInfoView { raw_checksum: raw_checksum@, ..self@.file_info },
                ..self@
            }),
    {
        FileHeader {
            data_range: self.data_range,
            file_info: self.file_info.with_raw_checksum(raw_checksum),
        }
    }

    /// With a given file info
    pub fn with_file_info(self, file_info: FileInfo) -> (header: Self)
        ensures
            header@ == (FileHeaderView { file_info: file_info@, ..self@ }),
    {
        FileHeader { data_range: self.data_range, file_info }
    }

    /// A header with an empty data range over the information of an empty
    /// member that was added at `added_at`.
    pub fn added(added_at: i64) -> (header: Self)
        ensures
            header@ == (FileHeaderView {
                data_range: Range { start: 0, end: 0 },
                file_info: FileInfoView::blank(added_at),
            }),
    {
        FileHeader { data_range: 0..0, file_info: FileInfo::added(added_at) }
    }

    /// Appends the file header record to `out`.
    pub fn encode(&self, out: &mut Vec<u8>)
        ensures
            final(out)@ == old(out)@ + enc_file_header(self@),
            self@.file_info.wf(),
    {
        put_u64(out, self.data_range.start);
        put_u64(out, self.data_range.end);
        self.file_info.encode(out);
    }

    /// Reads the file header record that `bytes` starts with. Bytes behind
    /// the record are not looked at.
    pub fn decode(bytes: &[u8]) -> (r: Option<FileHeader>)
        ensures
            match parse_file_header(bytes@) {
                Some(v) => r matches Some(got) && got@ == v,
                None => r is None,
            },
    {
        proof {
            reveal(file_header_at);
        }
        let (start, p1) = match get_u64(bytes, 0) {
            Some(x) => x,
            None => return None,
        };
        let (end, p2) = match get_u64(bytes, p1) {
            Some(x) => x,
            None => return None,
        };
        let (file_info, _) = match FileInfo::decode(bytes, p2) {
            Some(x) => x,
            None => return None,
        };
        Some(FileHeader { data_range: start..end, file_info })
    }
}

impl From<&FileHeader> for FileInfo {
    /// The file info that a file header holds.
    fn from(file_header: &FileHeader) -> (info: FileInfo) {
        file_header.file_info.clone()
    }
}

impl FromSpecImpl<&FileHeader> for FileInfo {
    open spec fn obeys_from_spec() -> bool {
        true
    }

    open spec fn from_spec(file_header: &FileHeader) -> FileInfo {
        file_header.file_info
    }
}

} // verus!
