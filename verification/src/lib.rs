//! A seekable archive container: named members, each followed by a footer that
//! records its size, compression and checksums, and a trailing directory that a
//! fixed header at the start of the archive points to.
//!
//! An archive is laid out as the magic bytes `VAR`, the archive header, the
//! members in the order in which they were written (stored bytes, then the
//! file header), and the directory, which maps each name to the byte range of
//! its file header. Checksums are BLAKE2s digests; members are stored as they
//! are or as a Zstandard frame.

use vstd::prelude::*;

/// Read functionality module
pub mod read;
/// Shared functionality module
pub mod shared;
/// Write functionality module
pub mod write;

pub use blake2;
pub use read::archive::Archive as VarArchive;
pub use read::file::File as VarFile;

pub use shared::compression::Compression;
pub use write::writer::Writer as VarWriter;

verus! {

/// Full version
pub const VERSION: &'static str = "0.1.0";

/// Major version
pub const VERSION_MAJOR: u8 = 0;

/// Minor version
pub const VERSION_MINOR: u8 = 1;

/// Patch version
pub const VERSION_PATCH: u8 = 0;

/// The decimal digits of a number below 256, as ASCII bytes.
pub open spec fn decimal_digits(n: u8) -> Seq<u8> {
    if n < 10 {
        seq![(48 + n) as u8]
    } else if n < 100 {
        seq![(48 + n / 10) as u8, (48 + n % 10) as u8]
    } else {
        seq![(48 + n / 100) as u8, (48 + (n / 10) % 10) as u8, (48 + n % 10) as u8]
    }
}

/// A version as text: the three numbers in decimal, with a dot between them.
pub open spec fn version_text(version: (u8, u8, u8)) -> Seq<u8> {
    decimal_digits(version.0) + seq![46u8] + decimal_digits(version.1) + seq![46u8]
        + decimal_digits(version.2)
}

/// A version as it stands in an archive header: its text, filled up with
/// spaces to 16 bytes.
pub open spec fn version_field(version: (u8, u8, u8)) -> Seq<u8> {
    Seq::new(
        16,
        |i: int|
            if i < version_text(version).len() {
                version_text(version)[i]
            } else {
                32u8
            },
    )
}

/// The text of any version is at most 11 bytes long, so it fits into the
/// 16 bytes that an archive header has for it.
pub proof fn lemma_version_text_fits(version: (u8, u8, u8))
    ensures
        5 <= version_text(version).len() <= 11,
{
}

/// Gets the library version
///
/// In (MAJOR, MINOR, PATCH) format
pub fn get_version_tuple() -> (v: (u8, u8, u8))
    ensures
        v == (VERSION_MAJOR, VERSION_MINOR, VERSION_PATCH),
{
    (VERSION_MAJOR, VERSION_MINOR, VERSION_PATCH)
}

/// Appends the decimal digits of `n`.
fn push_decimal(out: &mut Vec<u8>, n: u8)
    ensures
        final(out)@ == old(out)@ + decimal_digits(n),
{
    if n >= 100 {
        out.push(48 + n / 100);
    }
    if n >= 10 {
        out.push(48 + (n / 10) % 10);
    }
    out.push(48 + n % 10);
}

/// Gets the library version
///
/// As a 16B long UTF-8 encoded string, formatted
/// as a semantic version number
pub fn get_version_bytes() -> (ret: [u8; 16])
    ensures
        ret@ == version_field((VERSION_MAJOR, VERSION_MINOR, VERSION_PATCH)),
{
    let version = get_version_tuple();
    let mut text: Vec<u8> = Vec::new();
    push_decimal(&mut text, version.0);
    text.push(46);
    push_decimal(&mut text, version.1);
    text.push(46);
    push_decimal(&mut text, version.2);
    let mut ret = [32u8; 16];
    let mut i: usize = 0;
    while i < text.len()
        invariant
            i <= text@.len() <= 11,
            text@ == version_text(version),
            forall|j: int| 0 <= j < i ==> ret@[j] == text@[j],
            forall|j: int| i <= j < 16 ==> ret@[j] == 32u8,
        decreases text@.len() - i,
    {
        ret[i] = text[i];
        i += 1;
    }
    ret
}

/// `VERSION` spells the version that the three numbers give.
pub proof fn lemma_version_constants_agree()
    ensures
        VERSION@ == Seq::new(
            version_text((VERSION_MAJOR, VERSION_MINOR, VERSION_PATCH)).len(),
            |i: int| version_text((VERSION_MAJOR, VERSION_MINOR, VERSION_PATCH))[i] as char,
        ),
{
    reveal_strlit("0.1.0");
    assert(VERSION@ =~= Seq::new(
        version_text((VERSION_MAJOR, VERSION_MINOR, VERSION_PATCH)).len(),
        |i: int| version_text((VERSION_MAJOR, VERSION_MINOR, VERSION_PATCH))[i] as char,
    ));
}

} // verus!
