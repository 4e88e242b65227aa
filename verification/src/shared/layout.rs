//! What the bytes of an archive mean: where the records stand, what opening
//! an archive yields, and what looking a member up yields. The write and the
//! read pipeline state their contracts over these functions.

use vstd::prelude::*;
use std::ops::Range;
use crate::shared::archive_header::{
    archive_header_at, current_header, enc_archive_header, lemma_archive_header_round_trip,
};
use crate::shared::codec::{lemma_enc_lengths, text_fits};
use crate::shared::compression::Compression;
use crate::shared::directory::{
    directory_at, enc_directory, entries_map, lemma_directory_round_trip, lemma_with_entry,
    names_fit, names_unique, with_entry,
};
use crate::shared::encryption::Encryption;
use crate::shared::error::ErrorView;
use crate::shared::file_header::{
    enc_file_header, lemma_parse_file_header, parse_file_header, FileHeaderView,
};
use crate::shared::file_info::FileInfoView;
use crate::shared::file_metadata::FileMetadata;
use crate::shared::primitives::{blake2s_digest, zstd_decoded, zstd_frame};

verus! {

/// The magic bytes `VAR` that every archive starts with.
pub const MAGIC: [u8; 3] = [86, 65, 82];

/// Where the archive header stands: behind the three magic bytes.
pub const HEADER_OFFSET: usize = 3;

/// Where the first member stands: behind the archive header.
pub const MEMBERS_OFFSET: usize = 35;

/// The level at which members are compressed.
pub const ZSTD_LEVEL: i32 = 9;

/// The magic bytes `VAR` that every archive starts with.
pub open spec fn magic() -> Seq<u8> {
    seq![86u8, 65u8, 82u8]
}

/// The bytes that a byte range selects, where it lies within the sequence.
pub open spec fn slice_of(a: Seq<u8>, range: Range<u64>) -> Option<Seq<u8>> {
    if range.start <= range.end && range.end <= a.len() {
        Some(a.subrange(range.start as int, range.end as int))
    } else {
        None
    }
}

/// What opening an archive yields: the directory as a mapping from names to
/// the byte ranges of their file headers, or the reason why the archive
/// cannot be opened. Fewer than three bytes: the magic bytes cannot be read.
/// Other bytes than `VAR`: the magic bytes are wrong. No 32 bytes of header
/// behind them: the header is corrupt. No directory record at the offset
/// that the header names: the directory is corrupt.
pub open spec fn opened(a: Seq<u8>) -> Result<Map<Seq<char>, Range<u64>>, ErrorView> {
    if a.len() < 3 {
        Err(ErrorView::CantReadMagicBytes)
    } else if a.subrange(0, 3) != magic() {
        Err(ErrorView::IncorrectMagicBytes(a.subrange(0, 3)))
    } else {
        match archive_header_at(a, 3) {
            None => Err(ErrorView::CorruptHeader),
            Some((header, _)) => match directory_at(a, header.directory_range.start as int) {
                None => Err(ErrorView::CorruptDirectory),
                Some((entries, _)) => Ok(entries_map(entries)),
            },
        }
    }
}

/// The file header that stands at a byte range of an archive. A range that
/// does not lie within the archive cannot be read; bytes that do not start
/// with a file header record are a corrupt file header.
pub open spec fn header_in(a: Seq<u8>, range: Range<u64>) -> Result<FileHeaderView, ErrorView> {
    match slice_of(a, range) {
        None => Err(ErrorView::CantReadFileHeader),
        Some(bytes) => match parse_file_header(bytes) {
            None => Err(ErrorView::CorruptFileHeader),
            Some(header) => Ok(header),
        },
    }
}

/// The byte stream that stored bytes stand for under a compression
/// algorithm, where the algorithm is one that this library reads.
pub open spec fn unpacked(compression: Compression, stored: Seq<u8>) -> Option<Seq<u8>> {
    match compression {
        Compression::Uncompressed => Some(stored),
        Compression::ZStandard => zstd_decoded(stored),
        _ => None,
    }
}

/// The contents of a member with the given data range, algorithm and
/// uncompressed size: the first `raw_size` bytes of the stream that the
/// stored bytes stand for. The member cannot be read where the data range
/// does not lie within the archive, where the stored bytes do not unpack, and
/// where they unpack to fewer bytes than `raw_size`.
pub open spec fn contents_at(
    a: Seq<u8>,
    data_range: Range<u64>,
    compression: Compression,
    raw_size: u64,
) -> Result<Seq<u8>, ErrorView> {
    match slice_of(a, data_range) {
        None => Err(ErrorView::CantReadFile),
        Some(stored) => match unpacked(compression, stored) {
            None => Err(ErrorView::CantReadFile),
            Some(stream) => if raw_size <= stream.len() {
                Ok(stream.take(raw_size as int))
            } else {
                Err(ErrorView::CantReadFile)
            },
        },
    }
}

/// The contents of the member that a file header describes.
pub open spec fn contents_in(a: Seq<u8>, header: FileHeaderView) -> Result<Seq<u8>, ErrorView> {
    contents_at(a, header.data_range, header.file_info.compression, header.file_info.raw_size)
}

/// What asking an archive with directory `directory` for the information on
/// `name` yields: the file info of the header that the directory points to,
/// with `name` filled in.
pub open spec fn info_of(
    a: Seq<u8>,
    directory: Map<Seq<char>, Range<u64>>,
    name: Seq<char>,
) -> Result<FileInfoView, ErrorView> {
    if !directory.dom().contains(name) {
        Err(ErrorView::FileNotFound(name))
    } else {
        match header_in(a, directory[name]) {
            Err(e) => Err(e),
            Ok(header) => Ok(FileInfoView { filename: name, ..header.file_info }),
        }
    }
}

/// What reading the member `name` of an archive with directory `directory`
/// to its end yields.
pub open spec fn member_of(
    a: Seq<u8>,
    directory: Map<Seq<char>, Range<u64>>,
    name: Seq<char>,
) -> Result<Seq<u8>, ErrorView> {
    if !directory.dom().contains(name) {
        Err(ErrorView::FileNotFound(name))
    } else {
        match header_in(a, directory[name]) {
            Err(e) => Err(e),
            Ok(header) => contents_in(a, header),
        }
    }
}

/// A member's header and contents depend on the bytes of its file header and
/// of its data alone: two archives that agree on both ranges agree on the
/// member.
pub proof fn lemma_member_depends_on_its_ranges(a: Seq<u8>, b: Seq<u8>, range: Range<u64>)
    requires
        header_in(a, range) is Ok,
        slice_of(b, range) == slice_of(a, range),
        slice_of(b, header_in(a, range)->Ok_0.data_range) == slice_of(
            a,
            header_in(a, range)->Ok_0.data_range,
        ),
    ensures
        header_in(b, range) == header_in(a, range),
        contents_in(b, header_in(a, range)->Ok_0) == contents_in(
            a,
            header_in(a, range)->Ok_0,
        ),
{
}

/// A range that lies within a sequence selects the same bytes from every
/// sequence that continues it.
pub proof fn lemma_slice_of_extended(a: Seq<u8>, more: Seq<u8>, range: Range<u64>)
    requires
        slice_of(a, range) is Some,
    ensures
        slice_of(a + more, range) == slice_of(a, range),
{
}

/// The bytes that are stored for a member's contents under a compression
/// algorithm that this library writes.
pub open spec fn packed(compression: Compression, raw: Seq<u8>) -> Seq<u8> {
    match compression {
        Compression::ZStandard => zstd_frame(raw, ZSTD_LEVEL),
        _ => raw,
    }
}

/// The file header that is written behind a member: the range of its
/// stored bytes, its sizes, its algorithm, an empty name, its metadata and
/// the checksums of the stored and of the uncompressed bytes.
pub open spec fn sealed_header(
    data_begin: u64,
    compression: Compression,
    raw: Seq<u8>,
    stored: Seq<u8>,
    metadata: FileMetadata,
) -> FileHeaderView {
    FileHeaderView {
        data_range: Range { start: data_begin, end: (data_begin + stored.len()) as u64 },
        file_info: FileInfoView {
            raw_size: raw.len() as u64,
            data_size: stored.len() as u64,
            compression,
            encryption: Encryption::Unencrypted,
            filename: Seq::empty(),
            metadata,
            data_checksum: blake2s_digest(stored),
            raw_checksum: blake2s_digest(raw),
        },
    }
}

/// A member as it was written: its contents, and the file header that was
/// written behind its stored bytes.
pub struct Member {
    pub contents: Seq<u8>,
    pub header: FileHeaderView,
}

/// The bytes at `range` are the file header of `member`: the header reads as
/// the member's, its data lies between the archive header and itself, the
/// data unpacks to the member's contents, and the header is the one that is
/// written for these contents and these stored bytes.
pub open spec fn member_sealed(a: Seq<u8>, range: Range<u64>, member: Member) -> bool {
    let header = member.header;
    &&& MEMBERS_OFFSET <= range.start
    &&& header_in(a, range) == Ok::<FileHeaderView, ErrorView>(header)
    &&& MEMBERS_OFFSET <= header.data_range.start
    &&& header.data_range.end <= range.start
    &&& contents_in(a, header) == Ok::<Seq<u8>, ErrorView>(member.contents)
    &&& slice_of(a, header.data_range) matches Some(stored) && header == sealed_header(
        header.data_range.start,
        header.file_info.compression,
        member.contents,
        stored,
        header.file_info.metadata,
    )
}

/// Two members lie apart: the bytes of the one, from the start of its data
/// to the end of its file header, end where those of the other begin, or
/// before.
pub open spec fn members_apart(
    first_range: Range<u64>,
    first: Member,
    second_range: Range<u64>,
    second: Member,
) -> bool {
    first_range.end <= second.header.data_range.start || second_range.end
        <= first.header.data_range.start
}

/// An archive that is being written: the bytes on the sink, the entries of
/// the directory, and the contents of the members by name.
pub struct Session {
    pub sink: Seq<u8>,
    pub entries: Seq<(Seq<char>, Range<u64>)>,
    pub members: Map<Seq<char>, Member>,
}

impl Session {
    /// The directory as a mapping.
    pub open spec fn directory(self) -> Map<Seq<char>, Range<u64>> {
        entries_map(self.entries)
    }

    /// The sink starts with the magic bytes and has room for the archive
    /// header, and the directory holds each name once.
    pub open spec fn directory_in_order(self) -> bool {
        &&& self.sink.len() >= MEMBERS_OFFSET
        &&& self.sink.subrange(0, 3) == magic()
        &&& names_unique(self.entries)
        &&& names_fit(self.entries)
        &&& self.entries.len() <= usize::MAX
    }

    /// The directory is in order and names the members, each name points to
    /// the sealed file header of its member, and no two members overlap.
    pub open spec fn wf(self) -> bool {
        &&& self.directory_in_order()
        &&& self.members.dom() == self.directory().dom()
        &&& forall|name: Seq<char>| #[trigger]
            self.directory().dom().contains(name) ==> member_sealed(
                self.sink,
                self.directory()[name],
                self.members[name],
            )
        &&& forall|first: Seq<char>, second: Seq<char>|
            #[trigger] self.directory().dom().contains(first)
                && #[trigger] self.directory().dom().contains(second) && first != second
                ==> members_apart(
                self.directory()[first],
                self.members[first],
                self.directory()[second],
                self.members[second],
            )
    }

    /// The session of a writer that was just made: the magic bytes and a
    /// header that points nowhere yet, and no member.
    pub open spec fn begun() -> Session {
        Session {
            sink: magic() + enc_archive_header(current_header(Range { start: 0, end: 0 })),
            entries: Seq::empty(),
            members: Map::empty(),
        }
    }

    /// The session after a member was written and finished: its stored bytes
    /// and its file header stand at the end of the sink, and its name points
    /// to that file header.
    pub open spec fn with_member(
        self,
        name: Seq<char>,
        compression: Compression,
        raw: Seq<u8>,
        metadata: FileMetadata,
    ) -> Session {
        let stored = packed(compression, raw);
        let header = sealed_header(self.sink.len() as u64, compression, raw, stored, metadata);
        let footer = enc_file_header(header);
        let footer_begin = self.sink.len() + stored.len();
        Session {
            sink: self.sink + stored + footer,
            entries: with_entry(
                self.entries,
                name,
                Range { start: footer_begin as u64, end: (footer_begin + footer.len()) as u64 },
            ),
            members: self.members.insert(name, Member { contents: raw, header }),
        }
    }

    /// The archive that closing the session yields: the directory record
    /// stands at the end, and the archive header names its byte range.
    pub open spec fn closed(self) -> Seq<u8> {
        let record = enc_directory(self.entries);
        let header = current_header(
            Range { start: self.sink.len() as u64, end: (self.sink.len() + record.len()) as u64 },
        );
        magic() + enc_archive_header(header) + self.sink.skip(MEMBERS_OFFSET as int) + record
    }
}

/// The byte range of the file header that finishing a member appends to a
/// session.
pub open spec fn footer_range(
    s: Session,
    compression: Compression,
    raw: Seq<u8>,
    metadata: FileMetadata,
) -> Range<u64> {
    let stored = packed(compression, raw);
    let footer = enc_file_header(
        sealed_header(s.sink.len() as u64, compression, raw, stored, metadata),
    );
    Range {
        start: (s.sink.len() + stored.len()) as u64,
        end: (s.sink.len() + stored.len() + footer.len()) as u64,
    }
}

/// The session of a writer that was just made is in order.
pub proof fn lemma_begun_wf()
    ensures
        Session::begun().wf(),
        Session::begun().sink.len() == MEMBERS_OFFSET,
{
    lemma_enc_lengths();
    let s = Session::begun();
    assert(s.sink.subrange(0, 3) =~= magic());
}

/// A member that is sealed stays sealed when bytes are appended.
pub proof fn lemma_sealed_member_kept(a: Seq<u8>, more: Seq<u8>, range: Range<u64>, member: Member)
    requires
        member_sealed(a, range, member),
    ensures
        member_sealed(a + more, range, member),
{
    let header = member.header;
    lemma_slice_of_extended(a, more, range);
    lemma_slice_of_extended(a, more, header.data_range);
    lemma_member_depends_on_its_ranges(a, a + more, range);
}

/// Stored bytes with their file header behind them are a sealed member. The
/// digests are 32 bytes long, and the stored bytes unpack to the contents:
/// that is what the hash and the compressor are relied on for.
pub proof fn lemma_new_member_sealed(
    a: Seq<u8>,
    compression: Compression,
    raw: Seq<u8>,
    metadata: FileMetadata,
)
    requires
        a.len() >= MEMBERS_OFFSET,
        compression.is_supported(),
        a.len() + packed(compression, raw).len() + enc_file_header(
            sealed_header(a.len() as u64, compression, raw, packed(compression, raw), metadata),
        ).len() <= u64::MAX,
        raw.len() <= u64::MAX,
        blake2s_digest(raw).len() == 32,
        blake2s_digest(packed(compression, raw)).len() == 32,
        unpacked(compression, packed(compression, raw)) == Some(raw),
    ensures
        ({
            let stored = packed(compression, raw);
            let footer = enc_file_header(
                sealed_header(a.len() as u64, compression, raw, stored, metadata),
            );
            let footer_begin = a.len() + stored.len();
            member_sealed(
                a + stored + footer,
                Range { start: footer_begin as u64, end: (footer_begin + footer.len()) as u64 },
                Member {
                    contents: raw,
                    header: sealed_header(a.len() as u64, compression, raw, stored, metadata),
                },
            )
        }),
{
    let stored = packed(compression, raw);
    let header = sealed_header(a.len() as u64, compression, raw, stored, metadata);
    let footer = enc_file_header(header);
    let footer_begin = a.len() + stored.len();
    let range = Range { start: footer_begin as u64, end: (footer_begin + footer.len()) as u64 };
    let after = a + stored + footer;
    assert(after.subrange(range.start as int, range.end as int) =~= footer);
    assert(parse_file_header(footer) == Some(header)) by {
        lemma_parse_file_header(header, Seq::empty());
    }
    assert(after.subrange(header.data_range.start as int, header.data_range.end as int)
        =~= stored);
    assert(raw.take(raw.len() as int) =~= raw);
}

/// Finishing a member keeps the session in order: the new member is sealed,
/// and every other member stays as it was. The digests are 32 bytes long,
/// and the stored bytes unpack to the contents: that is what the hash and
/// the compressor are relied on for.
pub proof fn lemma_with_member_wf(
    s: Session,
    name: Seq<char>,
    compression: Compression,
    raw: Seq<u8>,
    metadata: FileMetadata,
)
    requires
        s.wf(),
        compression.is_supported(),
        text_fits(name),
        s.with_member(name, compression, raw, metadata).sink.len() <= u64::MAX,
        s.with_member(name, compression, raw, metadata).entries.len() <= usize::MAX,
        raw.len() <= u64::MAX,
        blake2s_digest(raw).len() == 32,
        blake2s_digest(packed(compression, raw)).len() == 32,
        unpacked(compression, packed(compression, raw)) == Some(raw),
    ensures
        s.with_member(name, compression, raw, metadata).wf(),
{
    let after = s.with_member(name, compression, raw, metadata);
    let stored = packed(compression, raw);
    let header = sealed_header(s.sink.len() as u64, compression, raw, stored, metadata);
    let footer = enc_file_header(header);
    let footer_begin = s.sink.len() + stored.len();
    let range = Range { start: footer_begin as u64, end: (footer_begin + footer.len()) as u64 };
    lemma_with_entry(s.entries, name, range);
    assert(after.sink.subrange(0, 3) =~= s.sink.subrange(0, 3));
    lemma_new_member_sealed(s.sink, compression, raw, metadata);
    assert(s.sink + (stored + footer) =~= after.sink);
    assert forall|other: Seq<char>| #[trigger]
        after.directory().dom().contains(other) implies member_sealed(
        after.sink,
        after.directory()[other],
        after.members[other],
    ) by {
        if other != name {
            lemma_sealed_member_kept(
                s.sink,
                stored + footer,
                s.directory()[other],
                s.members[other],
            );
        }
    }
    assert forall|first: Seq<char>, second: Seq<char>|
        #[trigger] after.directory().dom().contains(first)
            && #[trigger] after.directory().dom().contains(second) && first
            != second implies members_apart(
        after.directory()[first],
        after.members[first],
        after.directory()[second],
        after.members[second],
    ) by {
        if first != name {
            assert(member_sealed(s.sink, s.directory()[first], s.members[first]));
        }
        if second != name {
            assert(member_sealed(s.sink, s.directory()[second], s.members[second]));
        }
    }
}

/// Opening a closed archive yields the directory of the session.
pub proof fn lemma_closed_archive_opens(s: Session)
    requires
        s.directory_in_order(),
        s.closed().len() <= u64::MAX,
    ensures
        opened(s.closed()) == Ok::<Map<Seq<char>, Range<u64>>, ErrorView>(s.directory()),
        s.closed().len() == s.sink.len() + enc_directory(s.entries).len(),
        archive_header_at(s.closed(), 3) == Some(
            (
                current_header(
                    Range { start: s.sink.len() as u64, end: s.closed().len() as u64 },
                ),
                MEMBERS_OFFSET as int,
            ),
        ),
        directory_at(s.closed(), s.sink.len() as int) == Some(
            (s.entries, s.closed().len() as int),
        ),
{
    lemma_enc_lengths();
    let a = s.closed();
    let record = enc_directory(s.entries);
    let header = current_header(
        Range { start: s.sink.len() as u64, end: (s.sink.len() + record.len()) as u64 },
    );
    assert(a.subrange(0, 3) =~= magic());
    assert(a.subrange(3, 35) =~= enc_archive_header(header));
    lemma_archive_header_round_trip(a, 3, header);
    assert(a.subrange(s.sink.len() as int, (s.sink.len() + record.len()) as int) =~= record);
    lemma_directory_round_trip(a, s.sink.len() as int, s.entries);
}

/// A closed archive reads back: opening it yields the directory of the
/// session, and every name of the directory points to the sealed file
/// header of its member, so that the member's contents, sizes and checksums
/// are those that were written.
pub proof fn lemma_closed_archive_reads_back(s: Session)
    requires
        s.wf(),
        s.closed().len() <= u64::MAX,
    ensures
        opened(s.closed()) == Ok::<Map<Seq<char>, Range<u64>>, ErrorView>(s.directory()),
        forall|name: Seq<char>| #[trigger]
            s.directory().dom().contains(name) ==> member_sealed(
                s.closed(),
                s.directory()[name],
                s.members[name],
            ) && member_of(s.closed(), s.directory(), name) == Ok::<Seq<u8>, ErrorView>(
                s.members[name].contents,
            ),
{
    let a = s.closed();
    lemma_closed_archive_opens(s);
    assert forall|name: Seq<char>| #[trigger]
        s.directory().dom().contains(name) implies member_sealed(
        a,
        s.directory()[name],
        s.members[name],
    ) && member_of(a, s.directory(), name) == Ok::<Seq<u8>, ErrorView>(
        s.members[name].contents,
    ) by {
        let range = s.directory()[name];
        let member_header = s.members[name].header;
        lemma_kept_between(s, range);
        lemma_kept_between(s, member_header.data_range);
        lemma_member_depends_on_its_ranges(s.sink, a, range);
    }
}

/// Closing leaves the bytes between the archive header and the directory
/// as they are.
pub proof fn lemma_kept_between(s: Session, range: Range<u64>)
    requires
        s.sink.len() >= MEMBERS_OFFSET,
        MEMBERS_OFFSET <= range.start,
        slice_of(s.sink, range) is Some,
    ensures
        slice_of(s.closed(), range) == slice_of(s.sink, range),
{
    lemma_enc_lengths();
}

} // verus!
