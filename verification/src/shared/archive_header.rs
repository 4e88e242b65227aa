use vstd::prelude::*;
use std::ops::Range;
use crate::shared::codec::{
    bytes_at, enc_u64, get_bytes, get_u64, lemma_enc_lengths, lemma_split_at,
    lemma_u64_round_trip, put_bytes, put_u64, u64_at,
};
use crate::{get_version_bytes, version_field, VERSION_MAJOR, VERSION_MINOR, VERSION_PATCH};

verus! {

/// The archive header
///
/// Contains archive metadata and points to the most up-to-date directory.
#[derive(Debug)]
pub struct ArchiveHeader {
    /// The library version used to create the archive
    ///
    /// Format: 16B long array with a UTF-8 encoded version string,
    /// preferably using semantic versioning
    pub version: [u8; 16],
    /// Byte range that points to the most up-to-date directory
    pub directory_range: Range<u64>,
}

/// An [`ArchiveHeader`] with its version field as a sequence.
pub struct ArchiveHeaderView {
    pub version: Seq<u8>,
    pub directory_range: Range<u64>,
}

impl View for ArchiveHeader {
    type V = ArchiveHeaderView;

    open spec fn view(&self) -> ArchiveHeaderView {
        ArchiveHeaderView { version: self.version@, directory_range: self.directory_range }
    }
}

/// The number of bytes that an archive header record takes.
pub const ARCHIVE_HEADER_SIZE: usize = 32;

/// The archive header record: the 16 bytes of the version field, then start
/// and end of the directory's byte range.
pub open spec fn enc_archive_header(v: ArchiveHeaderView) -> Seq<u8> {
    v.version + (enc_u64(v.directory_range.start) + enc_u64(v.directory_range.end))
}

/// Reads an archive header record at `pos`.
pub open spec fn archive_header_at(s: Seq<u8>, pos: int) -> Option<(ArchiveHeaderView, int)> {
    match bytes_at(s, pos, 16) {
        Some((version, p1)) => match u64_at(s, p1) {
            Some((start, p2)) => match u64_at(s, p2) {
                Some((end, p3)) => Some(
                    (ArchiveHeaderView { version, directory_range: Range { start, end } }, p3),
                ),
                None => None,
            },
            None => None,
        },
        None => None,
    }
}

/// The header that this library writes for a directory at `directory_range`.
pub open spec fn current_header(directory_range: Range<u64>) -> ArchiveHeaderView {
    ArchiveHeaderView {
        version: version_field((VERSION_MAJOR, VERSION_MINOR, VERSION_PATCH)),
        directory_range,
    }
}

/// An archive header record takes 32 bytes and reads back as the header it
/// was written from.
pub proof fn lemma_archive_header_round_trip(s: Seq<u8>, pos: int, v: ArchiveHeaderView)
    requires
        0 <= pos,
        v.version.len() == 16,
        pos + 32 <= s.len(),
        s.subrange(pos, pos + 32) == enc_archive_header(v),
    ensures
        enc_archive_header(v).len() == 32,
        archive_header_at(s, pos) == Some((v, pos + 32)),
{
    lemma_enc_lengths();
    let e2 = enc_u64(v.directory_range.start);
    let e3 = enc_u64(v.directory_range.end);
    lemma_split_at(s, pos, v.version, e2 + e3);
    lemma_split_at(s, pos + 16, e2, e3);
    lemma_u64_round_trip(s, pos + 16, v.directory_range.start);
    lemma_u64_round_trip(s, pos + 24, v.directory_range.end);
}

/// Whatever 32 bytes stand at a position, they read as an archive header.
pub proof fn lemma_archive_header_total(s: Seq<u8>, pos: int)
    requires
        0 <= pos,
    ensures
        archive_header_at(s, pos) is Some <==> pos + 32 <= s.len(),
        archive_header_at(s, pos) matches Some((v, next)) ==> next == pos + 32 && v.version
            == s.subrange(pos, pos + 16),
{
}

impl ArchiveHeader {
    /// The header of this library's version for a directory at
    /// `directory_range`.
    pub fn pointing_at(directory_range: Range<u64>) -> (header: Self)
        ensures
            header@ == current_header(directory_range),
    {
        ArchiveHeader { version: get_version_bytes(), directory_range }
    }

    /// Appends the archive header record to `out`.
    pub fn encode(&self, out: &mut Vec<u8>)
        ensures
            final(out)@ == old(out)@ + enc_archive_header(self@),
            enc_archive_header(self@).len() == 32,
    {
        put_bytes(out, self.version.as_slice());
        put_u64(out, self.directory_range.start);
        put_u64(out, self.directory_range.end);
        proof {
            lemma_enc_lengths();
        }
    }

    /// Reads an archive header record at `pos`, and tells where it ends.
    pub fn decode(bytes: &[u8], pos: usize) -> (r: Option<(ArchiveHeader, usize)>)
        ensures
            match archive_header_at(bytes@, pos as int) {
                Some((v, next)) => r matches Some((got, after)) && got@ == v && after == next,
                None => r is None,
            },
    {
        let (field, p1) = match get_bytes(bytes, pos, 16) {
            Some(x) => x,
            None => return None,
        };
        let (start, p2) = match get_u64(bytes, p1) {
            Some(x) => x,
            None => return None,
        };
        let (end, p3) = match get_u64(bytes, p2) {
            Some(x) => x,
            None => return None,
        };
        let mut version = [0u8; 16];
        let mut i: usize = 0;
        while i < 16
            invariant
                i <= 16,
                field@.len() == 16,
                forall|j: int| 0 <= j < i ==> version@[j] == field@[j],
            decreases 16 - i,
        {
            version[i] = field[i];
            i += 1;
        }
        assert(version@ =~= field@);
        Some((ArchiveHeader { version, directory_range: start..end }, p3))
    }
}

impl Default for ArchiveHeader {
    /// The header of this library's version with an empty directory range:
    /// the placeholder that stands in an archive until it is closed.
    fn default() -> (header: Self)
        ensures
            header@ == current_header(Range { start: 0, end: 0 }),
    {
        ArchiveHeader { version: get_version_bytes(), directory_range: 0..0 }
    }
}

} // verus!
