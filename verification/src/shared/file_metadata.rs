use vstd::prelude::*;
use crate::shared::codec::{
    bool_at, enc_bool, enc_i64, enc_opt_i64, enc_opt_u32, get_bool, get_i64, get_opt_i64,
    get_opt_u32, i64_at, lemma_bool_round_trip, lemma_enc_lengths, lemma_i64_round_trip,
    lemma_opt_i64_round_trip, lemma_opt_u32_round_trip, lemma_split_at, opt_i64_at, opt_u32_at,
    put_bool, put_i64, put_opt_i64, put_opt_u32,
};

verus! {

/// FileMetadata struct
///
/// Represents a files metadata. Timestamps are milliseconds since the Unix
/// epoch, UTC. The library reads no clock: the time of adding is handed in.
#[derive(Debug, Clone, Copy, PartialEq, Eq, Structural)]
pub struct FileMetadata {
    /// Boolean indicating whether or not this file is readonly
    pub readonly: bool,
    /// Option possibly containing linux file permissions
    pub permissions_opt: Option<u32>,
    /// When this file was added to the archive
    pub added_at: i64,
    /// When this file was last modified
    pub modified_at: Option<i64>,
    /// When this file was created
    pub created_at: Option<i64>,
    /// When this file was last accessed
    pub accessed_at: Option<i64>,
}

/// What follows the flag in a metadata record.
pub open spec fn enc_metadata_times(m: FileMetadata) -> Seq<u8> {
    enc_i64(m.added_at) + (enc_opt_i64(m.modified_at) + (enc_opt_i64(m.created_at) + enc_opt_i64(
        m.accessed_at,
    )))
}

/// The metadata record: the read-only flag, the optional permission bits,
/// the time of adding, then the optional times of modification, creation and
/// access.
pub open spec fn enc_metadata(m: FileMetadata) -> Seq<u8> {
    enc_bool(m.readonly) + (enc_opt_u32(m.permissions_opt) + enc_metadata_times(m))
}

/// Reads a metadata record at `pos`.
#[verifier::opaque]
pub open spec fn metadata_at(s: Seq<u8>, pos: int) -> Option<(FileMetadata, int)> {
    match bool_at(s, pos) {
        Some((readonly, p1)) => match opt_u32_at(s, p1) {
            Some((permissions_opt, p2)) => match i64_at(s, p2) {
                Some((added_at, p3)) => match opt_i64_at(s, p3) {
                    Some((modified_at, p4)) => match opt_i64_at(s, p4) {
                        Some((created_at, p5)) => match opt_i64_at(s, p5) {
                            Some((accessed_at, p6)) => Some(
                                (
                                    FileMetadata {
                                        readonly,
                                        permissions_opt,
                                        added_at,
                                        modified_at,
                                        created_at,
                                        accessed_at,
                                    },
                                    p6,
                                ),
                            ),
                            None => None,
                        },
                        None => None,
                    },
                    None => None,
                },
                None => None,
            },
            None => None,
        },
        None => None,
    }
}

/// A metadata record reads back as the metadata it was written from.
pub proof fn lemma_metadata_round_trip(s: Seq<u8>, pos: int, m: FileMetadata)
    requires
        0 <= pos,
        pos + enc_metadata(m).len() <= s.len(),
        s.subrange(pos, pos + enc_metadata(m).len()) == enc_metadata(m),
    ensures
        metadata_at(s, pos) == Some((m, pos + enc_metadata(m).len())),
{
    reveal(metadata_at);
    lemma_enc_lengths();
    let e1 = enc_bool(m.readonly);
    let e2 = enc_opt_u32(m.permissions_opt);
    let e3 = enc_i64(m.added_at);
    let e4 = enc_opt_i64(m.modified_at);
    let e5 = enc_opt_i64(m.created_at);
    let e6 = enc_opt_i64(m.accessed_at);
    let p1 = pos + e1.len();
    let p2 = p1 + e2.len();
    let p3 = p2 + e3.len();
    let p4 = p3 + e4.len();
    let p5 = p4 + e5.len();
    lemma_split_at(s, pos, e1, e2 + enc_metadata_times(m));
    lemma_split_at(s, p1, e2, enc_metadata_times(m));
    lemma_split_at(s, p2, e3, e4 + (e5 + e6));
    lemma_split_at(s, p3, e4, e5 + e6);
    lemma_split_at(s, p4, e5, e6);
    lemma_bool_round_trip(s, pos, m.readonly);
    lemma_opt_u32_round_trip(s, p1, m.permissions_opt);
    lemma_i64_round_trip(s, p2, m.added_at);
    lemma_opt_i64_round_trip(s, p3, m.modified_at);
    lemma_opt_i64_round_trip(s, p4, m.created_at);
    lemma_opt_i64_round_trip(s, p5, m.accessed_at);
}

impl FileMetadata {
    /// Metadata of a file that was captured elsewhere, added at `added_at`.
    pub fn from_parts(
        readonly: bool,
        permissions_opt: Option<u32>,
        added_at: i64,
        modified_at: Option<i64>,
        created_at: Option<i64>,
        accessed_at: Option<i64>,
    ) -> (m: FileMetadata)
        ensures
            m == (FileMetadata {
                readonly,
                permissions_opt,
                added_at,
                modified_at,
                created_at,
                accessed_at,
            }),
    {
        FileMetadata { readonly, permissions_opt, added_at, modified_at, created_at, accessed_at }
    }

    /// Metadata that records the time of adding and nothing else.
    pub open spec fn blank(added_at: i64) -> FileMetadata {
        FileMetadata {
            readonly: false,
            permissions_opt: None,
            added_at,
            modified_at: None,
            created_at: None,
            accessed_at: None,
        }
    }

    /// Metadata that records `added_at` as the time of adding and nothing else.
    pub fn added(added_at: i64) -> (m: FileMetadata)
        ensures
            m == FileMetadata::blank(added_at),
    {
        FileMetadata {
            readonly: false,
            permissions_opt: None,
            added_at,
            modified_at: None,
            created_at: None,
            accessed_at: None,
        }
    }

    /// Appends the metadata record to `out`.
    pub fn encode(&self, out: &mut Vec<u8>)
        ensures
            final(out)@ == old(out)@ + enc_metadata(*self),
    {
        put_bool(out, self.readonly);
        put_opt_u32(out, self.permissions_opt);
        put_i64(out, self.added_at);
        put_opt_i64(out, self.modified_at);
        put_opt_i64(out, self.created_at);
        put_opt_i64(out, self.accessed_at);
    }

    /// Reads a metadata record at `pos`, and tells where it ends.
    pub fn decode(bytes: &[u8], pos: usize) -> (r: Option<(FileMetadata, usize)>)
        ensures
            match metadata_at(bytes@, pos as int) {
                Some((v, next)) => r matches Some((got, after)) && got == v && after == next,
                None => r is None,
            },
    {
        proof {
            reveal(metadata_at);
        }
        let (readonly, p1) = match get_bool(bytes, pos) {
            Some(x) => x,
            None => return None,
        };
        let (permissions_opt, p2) = match get_opt_u32(bytes, p1) {
            Some(x) => x,
            None => return None,
        };
        let (added_at, p3) = match get_i64(bytes, p2) {
            Some(x) => x,
            None => return None,
        };
        let (modified_at, p4) = match get_opt_i64(bytes, p3) {
            Some(x) => x,
            None => return None,
        };
        let (created_at, p5) = match get_opt_i64(bytes, p4) {
            Some(x) => x,
            None => return None,
        };
        let (accessed_at, p6) = match get_opt_i64(bytes, p5) {
            Some(x) => x,
            None => return None,
        };
        Some(
            (
                FileMetadata {
                    readonly,
                    permissions_opt,
                    added_at,
                    modified_at,
                    created_at,
                    accessed_at,
                },
                p6,
            ),
        )
    }
}

} // verus!
