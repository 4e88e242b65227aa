//! What holds of every archive that a writer produces, and of every archive
//! that is read: stated over the meaning of the bytes, and proved.

use vstd::prelude::*;
use std::ops::Range;
use crate::shared::archive_header::{archive_header_at, lemma_archive_header_total};
use crate::shared::codec::{lemma_enc_lengths, text_fits};
use crate::shared::compression::Compression;
use crate::shared::directory::{
    lemma_directory_agree, lemma_directory_truncated, lemma_entries_map_dom,
    lemma_entries_map_len, lemma_with_entry, names_unique,
};
use crate::shared::error::ErrorView;
use crate::shared::file_info::FileInfoView;
use crate::shared::file_metadata::FileMetadata;
use crate::shared::layout::{
    contents_at, footer_range, header_in, info_of, lemma_begun_wf, lemma_closed_archive_opens,
    lemma_closed_archive_reads_back, lemma_member_depends_on_its_ranges,
    lemma_slice_of_extended, lemma_with_member_wf, magic, member_of, member_sealed,
    members_apart, opened, packed, slice_of, unpacked, Session, MEMBERS_OFFSET,
};
use crate::shared::primitives::blake2s_digest;

verus! {

/// One member as it is handed to a writer.
pub struct Written {
    pub name: Seq<char>,
    pub compression: Compression,
    pub contents: Seq<u8>,
    pub metadata: FileMetadata,
}

/// The session of a writer to which the given members were written, one
/// after the other.
pub open spec fn session_of(writes: Seq<Written>) -> Session
    decreases writes.len(),
{
    if writes.len() == 0 {
        Session::begun()
    } else {
        let last = writes.last();
        session_of(writes.drop_last()).with_member(
            last.name,
            last.compression,
            last.contents,
            last.metadata,
        )
    }
}

/// An archive without members can be opened, and lists no file.
pub proof fn lemma_empty_archive_opens()
    ensures
        opened(Session::begun().closed()) == Ok::<Map<Seq<char>, Range<u64>>, ErrorView>(
            Map::empty(),
        ),
{
    lemma_enc_lengths();
    lemma_begun_wf();
    let s = Session::begun();
    lemma_closed_archive_opens(s);
}

/// Finishing a member leaves the directory in order, and makes it name the
/// member beside the names that it held.
pub proof fn lemma_member_is_named(
    s: Session,
    name: Seq<char>,
    compression: Compression,
    raw: Seq<u8>,
    metadata: FileMetadata,
)
    requires
        s.directory_in_order(),
        text_fits(name),
        s.with_member(name, compression, raw, metadata).entries.len() <= usize::MAX,
    ensures
        s.with_member(name, compression, raw, metadata).directory_in_order(),
        s.with_member(name, compression, raw, metadata).directory() == s.directory().insert(
            name,
            footer_range(s, compression, raw, metadata),
        ),
        s.with_member(name, compression, raw, metadata).entries.len() <= s.entries.len() + 1,
        s.entries.len() <= s.with_member(name, compression, raw, metadata).entries.len(),
{
    let after = s.with_member(name, compression, raw, metadata);
    lemma_with_entry(s.entries, name, footer_range(s, compression, raw, metadata));
    assert(after.sink.subrange(0, 3) =~= s.sink.subrange(0, 3));
}

/// Whatever was written, the directory is in order and holds at most one
/// entry for each write.
pub proof fn lemma_session_in_order(writes: Seq<Written>)
    requires
        writes.len() <= usize::MAX,
        forall|i: int| 0 <= i < writes.len() ==> text_fits((#[trigger] writes[i]).name),
    ensures
        session_of(writes).directory_in_order(),
        session_of(writes).entries.len() <= writes.len(),
        forall|name: Seq<char>|
            session_of(writes).directory().dom().contains(name) <==> exists|i: int|
                0 <= i < writes.len() && (#[trigger] writes[i]).name == name,
    decreases writes.len(),
{
    if writes.len() == 0 {
        lemma_begun_wf();
    } else {
        let front = writes.drop_last();
        let last = writes.last();
        let before = session_of(front);
        let after = session_of(writes);
        lemma_session_in_order(front);
        lemma_with_entry(
            before.entries,
            last.name,
            footer_range(before, last.compression, last.contents, last.metadata),
        );
        lemma_member_is_named(before, last.name, last.compression, last.contents, last.metadata);
        assert forall|name: Seq<char>|
            after.directory().dom().contains(name) <==> exists|i: int|
                0 <= i < writes.len() && (#[trigger] writes[i]).name == name by {
            if after.directory().dom().contains(name) && name != last.name {
                let i = choose|i: int| 0 <= i < front.len() && (#[trigger] front[i]).name == name;
                assert(writes[i].name == name);
            }
            if exists|i: int| 0 <= i < writes.len() && (#[trigger] writes[i]).name == name {
                let i = choose|i: int| 0 <= i < writes.len() && (#[trigger] writes[i]).name == name;
                if i < writes.len() - 1 {
                    assert(front[i].name == name);
                }
            }
        }
    }
}

/// The directory of a closed archive lists exactly the names under which
/// members were written: opening the archive yields a directory that holds
/// a name if and only if a member was written under it.
pub proof fn lemma_directory_lists_what_was_written(writes: Seq<Written>)
    requires
        writes.len() <= usize::MAX,
        forall|i: int| 0 <= i < writes.len() ==> text_fits((#[trigger] writes[i]).name),
        session_of(writes).closed().len() <= u64::MAX,
    ensures
        opened(session_of(writes).closed()) matches Ok(directory) && forall|name: Seq<char>|
            directory.dom().contains(name) <==> exists|i: int|
                0 <= i < writes.len() && (#[trigger] writes[i]).name == name,
{
    lemma_session_in_order(writes);
    lemma_closed_archive_opens(session_of(writes));
}

/// No two of the members were written under one name.
pub open spec fn names_distinct(writes: Seq<Written>) -> bool {
    forall|i: int, j: int|
        0 <= i < j < writes.len() ==> (#[trigger] writes[i]).name != (#[trigger] writes[j]).name
}

/// Members written under names that are all distinct give as many directory
/// entries as there are members, under their names and in their order.
pub proof fn lemma_distinct_names_give_as_many_entries(writes: Seq<Written>)
    requires
        names_distinct(writes),
    ensures
        session_of(writes).entries.len() == writes.len(),
        forall|i: int|
            0 <= i < writes.len() ==> (#[trigger] session_of(writes).entries[i]).0
                == writes[i].name,
        names_unique(session_of(writes).entries),
    decreases writes.len(),
{
    if writes.len() > 0 {
        let front = writes.drop_last();
        let last = writes.last();
        let before = session_of(front);
        assert(names_distinct(front)) by {
            assert forall|i: int, j: int| 0 <= i < j < front.len() implies (#[trigger] front[i]).name
                != (#[trigger] front[j]).name by {
                assert(writes[i].name != writes[j].name);
            }
        }
        lemma_distinct_names_give_as_many_entries(front);
        assert forall|i: int| 0 <= i < before.entries.len() implies (#[trigger] before.entries[i]).0
            != last.name by {
            assert(writes[i].name != writes[writes.len() - 1].name);
        }
        let range = footer_range(before, last.compression, last.contents, last.metadata);
        assert(session_of(writes).entries == before.entries.push((last.name, range)));
        lemma_with_entry(before.entries, last.name, range);
    }
}

/// The directory of a closed archive to which members were written under
/// names that are all distinct holds exactly these names, each once: it has
/// as many names as members were written, and holds a name if and only if a
/// member was written under it.
pub proof fn lemma_directory_holds_each_name_once(writes: Seq<Written>)
    requires
        names_distinct(writes),
        writes.len() <= usize::MAX,
        forall|i: int| 0 <= i < writes.len() ==> text_fits((#[trigger] writes[i]).name),
        session_of(writes).closed().len() <= u64::MAX,
    ensures
        opened(session_of(writes).closed()) matches Ok(directory) && {
            &&& directory.dom().finite()
            &&& directory.len() == writes.len()
            &&& forall|name: Seq<char>|
                directory.dom().contains(name) <==> exists|i: int|
                    0 <= i < writes.len() && (#[trigger] writes[i]).name == name
        },
{
    lemma_distinct_names_give_as_many_entries(writes);
    lemma_session_in_order(writes);
    lemma_closed_archive_opens(session_of(writes));
    lemma_entries_map_len(session_of(writes).entries);
}

/// Of two members written under one name the second one stays: the
/// directory holds one entry for the name, as many entries as after the
/// first write, and the entry points to the file header of the second
/// member.
pub proof fn lemma_last_write_wins(
    s: Session,
    name: Seq<char>,
    first: (Compression, Seq<u8>, FileMetadata),
    second: (Compression, Seq<u8>, FileMetadata),
)
    requires
        s.directory_in_order(),
        text_fits(name),
        s.with_member(name, first.0, first.1, first.2).entries.len() <= usize::MAX,
    ensures
        ({
            let once = s.with_member(name, first.0, first.1, first.2);
            let twice = once.with_member(name, second.0, second.1, second.2);
            &&& twice.entries.len() == once.entries.len()
            &&& names_unique(twice.entries)
            &&& twice.directory().dom() == once.directory().dom()
            &&& twice.directory()[name] == footer_range(once, second.0, second.1, second.2)
            &&& twice.members[name].contents == second.1
        }),
{
    let once = s.with_member(name, first.0, first.1, first.2);
    lemma_member_is_named(s, name, first.0, first.1, first.2);
    lemma_entries_map_dom(once.entries, name);
    lemma_member_is_named(once, name, second.0, second.1, second.2);
}

/// A member that is written and finished reads back from the closed
/// archive: its contents are the bytes that were written, its sizes are
/// theirs and those of the stored bytes, and its checksums are the digests
/// of the contents and of the stored bytes. This rests on what the hash and
/// the compressor promise of every call: digests of 32 bytes, and stored
/// bytes that unpack to the contents.
pub proof fn lemma_written_member_reads_back(
    s: Session,
    name: Seq<char>,
    compression: Compression,
    raw: Seq<u8>,
    metadata: FileMetadata,
)
    requires
        s.wf(),
        compression.is_supported(),
        text_fits(name),
        raw.len() <= u64::MAX,
        s.with_member(name, compression, raw, metadata).entries.len() <= usize::MAX,
        s.with_member(name, compression, raw, metadata).closed().len() <= u64::MAX,
        blake2s_digest(raw).len() == 32,
        blake2s_digest(packed(compression, raw)).len() == 32,
        unpacked(compression, packed(compression, raw)) == Some(raw),
    ensures
        ({
            let after = s.with_member(name, compression, raw, metadata);
            let archive = after.closed();
            &&& opened(archive) == Ok::<Map<Seq<char>, Range<u64>>, ErrorView>(after.directory())
            &&& after.directory().dom().contains(name)
            &&& member_of(archive, after.directory(), name) == Ok::<Seq<u8>, ErrorView>(raw)
            &&& info_of(archive, after.directory(), name) matches Ok(info) && {
                &&& info.filename == name
                &&& info.compression == compression
                &&& info.raw_size == raw.len()
                &&& info.data_size == packed(compression, raw).len()
                &&& info.raw_checksum == blake2s_digest(raw)
                &&& info.data_checksum == blake2s_digest(packed(compression, raw))
                &&& info.metadata == metadata
            }
        }),
{
    lemma_enc_lengths();
    let after = s.with_member(name, compression, raw, metadata);
    lemma_member_is_named(s, name, compression, raw, metadata);
    lemma_with_member_wf(s, name, compression, raw, metadata);
    lemma_closed_archive_reads_back(after);
}

/// The member that was last written under a name, if any was.
pub open spec fn last_written(writes: Seq<Written>, name: Seq<char>) -> Option<Written>
    decreases writes.len(),
{
    if writes.len() == 0 {
        None
    } else if writes.last().name == name {
        Some(writes.last())
    } else {
        last_written(writes.drop_last(), name)
    }
}

/// What the hash and the compressor promise of every call, said of the
/// members that are written: their algorithm is one that this library
/// writes, the digests of their contents and of their stored bytes are 32
/// bytes long, and their stored bytes unpack to their contents.
pub open spec fn writable(writes: Seq<Written>) -> bool {
    forall|i: int|
        0 <= i < writes.len() ==> {
            let w = #[trigger] writes[i];
            &&& w.compression.is_supported()
            &&& text_fits(w.name)
            &&& w.contents.len() <= u64::MAX
            &&& blake2s_digest(w.contents).len() == 32
            &&& blake2s_digest(packed(w.compression, w.contents)).len() == 32
            &&& unpacked(w.compression, packed(w.compression, w.contents)) == Some(w.contents)
        }
}

/// Whatever was written, the session is in order, and holds under each name
/// the contents that were last written under it.
pub proof fn lemma_session_holds_what_was_written(writes: Seq<Written>)
    requires
        writes.len() <= usize::MAX,
        writable(writes),
        session_of(writes).sink.len() <= u64::MAX,
    ensures
        session_of(writes).wf(),
        forall|name: Seq<char>| #[trigger]
            session_of(writes).directory().dom().contains(name) ==> (last_written(
                writes,
                name,
            ) matches Some(w) && session_of(writes).members[name].contents == w.contents),
    decreases writes.len(),
{
    if writes.len() == 0 {
        lemma_begun_wf();
    } else {
        let front = writes.drop_last();
        let last = writes.last();
        let before = session_of(front);
        assert(writable(front)) by {
            assert forall|i: int| 0 <= i < front.len() implies (#[trigger] front[i])
                == writes[i] by {}
        }
        lemma_session_in_order(front);
        lemma_session_in_order(writes);
        lemma_session_holds_what_was_written(front);
        lemma_member_is_named(before, last.name, last.compression, last.contents, last.metadata);
        lemma_with_member_wf(before, last.name, last.compression, last.contents, last.metadata);
    }
}

/// A closed archive reads back what was written: it opens, and each name of
/// its directory yields the contents that were last written under that
/// name.
pub proof fn lemma_archive_reads_back_what_was_written(writes: Seq<Written>)
    requires
        writes.len() <= usize::MAX,
        writable(writes),
        session_of(writes).closed().len() <= u64::MAX,
    ensures
        opened(session_of(writes).closed()) == Ok::<Map<Seq<char>, Range<u64>>, ErrorView>(
            session_of(writes).directory(),
        ),
        forall|name: Seq<char>| #[trigger]
            session_of(writes).directory().dom().contains(name) ==> (last_written(
                writes,
                name,
            ) matches Some(w) && member_of(
                session_of(writes).closed(),
                session_of(writes).directory(),
                name,
            ) == Ok::<Seq<u8>, ErrorView>(w.contents)),
{
    lemma_enc_lengths();
    lemma_session_holds_what_was_written(writes);
    lemma_closed_archive_reads_back(session_of(writes));
}

/// A closed archive that is cut short behind its header and before its end
/// cannot be opened: its directory is corrupt.
pub proof fn lemma_truncated_archive_does_not_open(s: Session, cut: int)
    requires
        s.directory_in_order(),
        s.closed().len() <= u64::MAX,
        MEMBERS_OFFSET <= cut < s.closed().len(),
    ensures
        opened(s.closed().take(cut)) == Err::<Map<Seq<char>, Range<u64>>, ErrorView>(
            ErrorView::CorruptDirectory,
        ),
{
    let a = s.closed();
    let short = a.take(cut);
    lemma_closed_archive_opens(s);
    assert(short.subrange(0, 3) =~= a.subrange(0, 3));
    lemma_archive_header_total(a, 3);
    lemma_archive_header_total(short, 3);
    assert(archive_header_at(short, 3) == archive_header_at(a, 3)) by {
        lemma_archive_header_before_cut(a, cut);
    }
    lemma_directory_truncated(a, s.sink.len() as int, cut);
}

proof fn lemma_archive_header_before_cut(a: Seq<u8>, cut: int)
    requires
        MEMBERS_OFFSET <= cut <= a.len(),
    ensures
        archive_header_at(a.take(cut), 3) == archive_header_at(a, 3),
{
    let short = a.take(cut);
    assert(short.subrange(3, 19) =~= a.subrange(3, 19));
    assert(short.subrange(19, 27) =~= a.subrange(19, 27));
    assert(short.subrange(27, 35) =~= a.subrange(27, 35));
}

/// A closed archive that is cut short within its header cannot be opened:
/// with fewer than three bytes left the magic bytes cannot be read, with
/// fewer than 35 the header is corrupt.
pub proof fn lemma_archive_cut_in_its_header(s: Session, cut: int)
    requires
        s.directory_in_order(),
        0 <= cut < MEMBERS_OFFSET,
    ensures
        opened(s.closed().take(cut)) == Err::<Map<Seq<char>, Range<u64>>, ErrorView>(
            if cut < 3 {
                ErrorView::CantReadMagicBytes
            } else {
                ErrorView::CorruptHeader
            },
        ),
{
    lemma_enc_lengths();
    let a = s.closed();
    let short = a.take(cut);
    if cut >= 3 {
        assert(short.subrange(0, 3) =~= magic());
        lemma_archive_header_total(short, 3);
    }
}

/// Damage stays local: where the bytes of an archive that opens are changed
/// between the archive header and the directory, the archive still opens
/// with the same directory, and every member whose file header and data lie
/// outside the changed bytes reads as before.
pub proof fn lemma_damage_stays_local(a: Seq<u8>, b: Seq<u8>, lo: int, hi: int)
    requires
        a.len() == b.len(),
        MEMBERS_OFFSET <= lo <= hi <= a.len(),
        forall|i: int| 0 <= i < a.len() && !(lo <= i < hi) ==> a[i] == b[i],
        opened(a) is Ok,
        archive_header_at(a, 3) matches Some((header, _)) && hi <= header.directory_range.start,
    ensures
        opened(b) == opened(a),
        forall|name: Seq<char>|
            {
                &&& #[trigger] (opened(a)->Ok_0).dom().contains(name)
                &&& header_in(a, (opened(a)->Ok_0)[name]) matches Ok(member)
                    && outside(
                    (opened(a)->Ok_0)[name],
                    lo,
                    hi,
                ) && outside(member.data_range, lo, hi)
            } ==> {
                &&& info_of(b, opened(a)->Ok_0, name) == info_of(a, opened(a)->Ok_0, name)
                &&& member_of(b, opened(a)->Ok_0, name) == member_of(a, opened(a)->Ok_0, name)
            },
{
    let directory = opened(a)->Ok_0;
    let header = (archive_header_at(a, 3)->0).0;
    assert(b.subrange(0, 3) =~= a.subrange(0, 3));
    assert(archive_header_at(b, 3) == archive_header_at(a, 3)) by {
        assert(b.subrange(3, 19) =~= a.subrange(3, 19));
        assert(b.subrange(19, 27) =~= a.subrange(19, 27));
        assert(b.subrange(27, 35) =~= a.subrange(27, 35));
    }
    lemma_directory_agree(a, b, header.directory_range.start as int);
    assert forall|name: Seq<char>|
        {
            &&& #[trigger] directory.dom().contains(name)
            &&& header_in(a, directory[name]) matches Ok(member) && outside(
                directory[name],
                lo,
                hi,
            ) && outside(member.data_range, lo, hi)
        } implies {
        &&& info_of(b, directory, name) == info_of(a, directory, name)
        &&& member_of(b, directory, name) == member_of(a, directory, name)
    } by {
        let range = directory[name];
        let member = header_in(a, range)->Ok_0;
        lemma_slice_outside(a, b, range, lo, hi);
        lemma_slice_outside(a, b, member.data_range, lo, hi);
        lemma_member_depends_on_its_ranges(a, b, range);
    }
}

/// Damage to the file header of one member of a written archive spares the
/// others: where bytes of a closed archive are changed within the file header
/// of one member only, the archive still opens with the same directory, and
/// every other member gives the information and the contents that were
/// written.
pub proof fn lemma_damaged_footer_spares_the_others(
    s: Session,
    damaged: Seq<u8>,
    name: Seq<char>,
)
    requires
        s.wf(),
        s.closed().len() <= u64::MAX,
        s.directory().dom().contains(name),
        damaged.len() == s.closed().len(),
        forall|i: int|
            0 <= i < damaged.len() && !(s.directory()[name].start <= i < s.directory()[name].end)
                ==> damaged[i] == s.closed()[i],
    ensures
        opened(damaged) == Ok::<Map<Seq<char>, Range<u64>>, ErrorView>(s.directory()),
        forall|other: Seq<char>| #[trigger]
            s.directory().dom().contains(other) && other != name ==> {
                &&& member_of(damaged, s.directory(), other) == Ok::<Seq<u8>, ErrorView>(
                    s.members[other].contents,
                )
                &&& info_of(damaged, s.directory(), other) == Ok::<FileInfoView, ErrorView>(
                    FileInfoView { filename: other, ..s.members[other].header.file_info },
                )
            },
{
    let a = s.closed();
    let range = s.directory()[name];
    lemma_closed_archive_opens(s);
    lemma_closed_archive_reads_back(s);
    assert(member_sealed(s.sink, range, s.members[name]));
    lemma_damage_stays_local(a, damaged, range.start as int, range.end as int);
    assert forall|other: Seq<char>| #[trigger]
        s.directory().dom().contains(other) && other != name implies {
        &&& member_of(damaged, s.directory(), other) == Ok::<Seq<u8>, ErrorView>(
            s.members[other].contents,
        )
        &&& info_of(damaged, s.directory(), other) == Ok::<FileInfoView, ErrorView>(
            FileInfoView { filename: other, ..s.members[other].header.file_info },
        )
    } by {
        assert(member_sealed(s.sink, s.directory()[other], s.members[other]));
        assert(member_sealed(a, s.directory()[other], s.members[other]));
        assert(members_apart(
            s.directory()[name],
            s.members[name],
            s.directory()[other],
            s.members[other],
        ));
        assert(outside(s.directory()[other], range.start as int, range.end as int));
        assert(outside(
            s.members[other].header.data_range,
            range.start as int,
            range.end as int,
        ));
    }
}

/// A byte range that does not reach into the bytes from `lo` to `hi`.
pub open spec fn outside(range: Range<u64>, lo: int, hi: int) -> bool {
    range.end <= lo || hi <= range.start
}

/// Two sequences that differ between `lo` and `hi` only hold the same bytes
/// at every range outside.
pub proof fn lemma_slice_outside(a: Seq<u8>, b: Seq<u8>, range: Range<u64>, lo: int, hi: int)
    requires
        a.len() == b.len(),
        0 <= lo <= hi <= a.len(),
        forall|i: int| 0 <= i < a.len() && !(lo <= i < hi) ==> a[i] == b[i],
        outside(range, lo, hi),
    ensures
        slice_of(b, range) == slice_of(a, range),
{
}

/// A member that reads is as long as its file header says, whatever stands
/// behind its stored bytes and however many bytes these unpack to.
pub proof fn lemma_contents_are_bounded(
    a: Seq<u8>,
    data_range: Range<u64>,
    compression: Compression,
    raw_size: u64,
)
    ensures
        contents_at(a, data_range, compression, raw_size) matches Ok(contents) ==> contents.len()
            == raw_size,
        forall|more: Seq<u8>|
            contents_at(a, data_range, compression, raw_size) is Ok ==> #[trigger] contents_at(
                a + more,
                data_range,
                compression,
                raw_size,
            ) == contents_at(a, data_range, compression, raw_size),
{
    assert forall|more: Seq<u8>|
        contents_at(a, data_range, compression, raw_size) is Ok implies #[trigger] contents_at(
        a + more,
        data_range,
        compression,
        raw_size,
    ) == contents_at(a, data_range, compression, raw_size) by {
        lemma_slice_of_extended(a, more, data_range);
    }
}

} // verus!
