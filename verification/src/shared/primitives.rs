//! The outside primitives the archive is built on: the BLAKE2s hash, the
//! Zstandard compressor and std's UTF-8 check. Nothing in this file is
//! proved; each contract states what the primitive is relied on to do.

use vstd::prelude::*;
use vstd::utf8::{decode_utf8, valid_utf8};
use blake2::{Blake2s, Digest};

verus! {

/// The BLAKE2s digest (32 bytes, unkeyed) of a byte sequence.
pub uninterp spec fn blake2s_digest(data: Seq<u8>) -> Seq<u8>;

/// The Zstandard frame that compressing a byte sequence at a given level
/// produces.
pub uninterp spec fn zstd_frame(data: Seq<u8>, level: i32) -> Seq<u8>;

/// What decompressing a sequence of Zstandard frames yields, or `None` where
/// the bytes are not in the Zstandard frame format.
pub uninterp spec fn zstd_decoded(stored: Seq<u8>) -> Option<Seq<u8>>;

/// Calls `blake2::Blake2s::digest` (through the `Digest` trait): hashes the
/// whole slice in one go. The digest is a function of the bytes alone.
#[verifier::external_body]
pub(crate) fn blake2s(data: &[u8]) -> (sum: [u8; 32])
    ensures
        sum@ == blake2s_digest(data@),
{
    Blake2s::digest(data).into()
}

/// Calls `zstd::stream::encode_all`: compresses the whole slice into one
/// frame. Compression may fail for lack of resources, so nothing is claimed
/// of `None`. A frame that was produced is a function of the bytes and the
/// level, and decompresses to the bytes it was made from.
#[verifier::external_body]
pub(crate) fn zstd_encode(data: &[u8], level: i32) -> (frame: Option<Vec<u8>>)
    ensures
        frame matches Some(f) ==> f@ == zstd_frame(data@, level) && zstd_decoded(f@) == Some(
            data@,
        ),
{
    zstd::stream::encode_all(data, level).ok()
}

/// Calls `zstd::stream::decode_all`: decompresses the whole slice. It fails
/// on bytes that are not in the frame format, and may fail for lack of
/// resources, so nothing is claimed of `None`.
#[verifier::external_body]
pub(crate) fn zstd_decode(stored: &[u8]) -> (data: Option<Vec<u8>>)
    ensures
        data matches Some(d) ==> zstd_decoded(stored@) == Some(d@),
{
    zstd::stream::decode_all(stored).ok()
}

/// Calls `core::str::from_utf8`: the bytes as a string slice where they are
/// well-formed UTF-8, and `None` where they are not.
#[verifier::external_body]
pub(crate) fn str_from_utf8(bytes: &[u8]) -> (text: Option<&str>)
    ensures
        text is Some <==> valid_utf8(bytes@),
        text matches Some(s) ==> s@ == decode_utf8(bytes@),
{
    core::str::from_utf8(bytes).ok()
}

} // verus!
