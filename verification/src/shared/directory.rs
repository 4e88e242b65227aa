use vstd::prelude::*;
use std::ops::Range;
use vstd::string::StringExecFns;
use crate::shared::codec::{
    agree_from, enc_text, enc_u64, get_text, get_u64, lemma_enc_lengths, lemma_split_at,
    lemma_text_agree, lemma_text_round_trip, lemma_text_truncated, lemma_u64_agree,
    lemma_u64_round_trip, lemma_u64_truncated, put_text, put_u64, text_at, text_fits, u64_at,
};

verus! {

/// Main directory struct.
///
/// Maps filenames to a byte range corresponding to the respective file header
pub struct Directory {
    /// Byte ranges of the file headers by filename: each name once, in the
    /// order in which the names were first set.
    file_headers: Vec<(String, Range<u64>)>,
}

/// No name stands at two places of a list of directory entries.
pub open spec fn names_unique(entries: Seq<(Seq<char>, Range<u64>)>) -> bool {
    forall|i: int, j: int|
        0 <= i < j < entries.len() ==> (#[trigger] entries[i]).0 != (#[trigger] entries[j]).0
}

/// Every name of a list of directory entries can be held in memory.
pub open spec fn names_fit(entries: Seq<(Seq<char>, Range<u64>)>) -> bool {
    forall|i: int| 0 <= i < entries.len() ==> text_fits((#[trigger] entries[i]).0)
}

/// The mapping that a list of directory entries stands for: where a name
/// occurs more than once, its last entry counts.
pub open spec fn entries_map(entries: Seq<(Seq<char>, Range<u64>)>) -> Map<
    Seq<char>,
    Range<u64>,
>
    decreases entries.len(),
{
    if entries.len() == 0 {
        Map::empty()
    } else {
        entries_map(entries.drop_last()).insert(entries.last().0, entries.last().1)
    }
}

/// A list of directory entries with `name` set to `range`: the entry of a name
/// that stands in the list is replaced where it stands, a new name is added
/// at the end.
pub open spec fn with_entry(
    entries: Seq<(Seq<char>, Range<u64>)>,
    name: Seq<char>,
    range: Range<u64>,
) -> Seq<(Seq<char>, Range<u64>)> {
    if exists|i: int| 0 <= i < entries.len() && (#[trigger] entries[i]).0 == name {
        let i = choose|i: int| 0 <= i < entries.len() && (#[trigger] entries[i]).0 == name;
        entries.update(i, (name, range))
    } else {
        entries.push((name, range))
    }
}

/// A list of directory entries with each name once: the entries are set one
/// after the other, so that of the entries of one name the first one gives
/// the place and the last one the range.
pub open spec fn merged(entries: Seq<(Seq<char>, Range<u64>)>) -> Seq<(Seq<char>, Range<u64>)>
    decreases entries.len(),
{
    if entries.len() == 0 {
        Seq::empty()
    } else {
        with_entry(merged(entries.drop_last()), entries.last().0, entries.last().1)
    }
}

/// One directory entry: the name, then start and end of the byte range.
pub open spec fn enc_entry(entry: (Seq<char>, Range<u64>)) -> Seq<u8> {
    enc_text(entry.0) + (enc_u64(entry.1.start) + enc_u64(entry.1.end))
}

/// The entries of a directory, one behind the other.
pub open spec fn enc_entries(entries: Seq<(Seq<char>, Range<u64>)>) -> Seq<u8>
    decreases entries.len(),
{
    if entries.len() == 0 {
        Seq::empty()
    } else {
        enc_entries(entries.drop_last()) + enc_entry(entries.last())
    }
}

/// The directory record: the number of entries as a 64-bit integer, then
/// the entries.
pub open spec fn enc_directory(entries: Seq<(Seq<char>, Range<u64>)>) -> Seq<u8> {
    enc_u64(entries.len() as u64) + enc_entries(entries)
}

/// Reads one directory entry at `pos`.
pub open spec fn entry_at(s: Seq<u8>, pos: int) -> Option<((Seq<char>, Range<u64>), int)> {
    match text_at(s, pos) {
        Some((name, p1)) => match u64_at(s, p1) {
            Some((start, p2)) => match u64_at(s, p2) {
                Some((end, p3)) => Some(((name, Range { start, end }), p3)),
                None => None,
            },
            None => None,
        },
        None => None,
    }
}

/// Reads `remaining` directory entries at `pos` and appends them to `found`.
pub open spec fn entries_from(
    s: Seq<u8>,
    pos: int,
    remaining: nat,
    found: Seq<(Seq<char>, Range<u64>)>,
) -> Option<(Seq<(Seq<char>, Range<u64>)>, int)>
    decreases remaining,
{
    if remaining == 0 {
        Some((found, pos))
    } else {
        match entry_at(s, pos) {
            Some((entry, next)) => entries_from(s, next, (remaining - 1) as nat, found.push(entry)),
            None => None,
        }
    }
}

/// Reads a directory record at `pos`: the entries in the order in which they
/// are stored, and the position behind the record.
pub open spec fn directory_at(s: Seq<u8>, pos: int) -> Option<
    (Seq<(Seq<char>, Range<u64>)>, int),
> {
    match u64_at(s, pos) {
        Some((count, next)) => entries_from(s, next, count as nat, Seq::empty()),
        None => None,
    }
}

/// The entries up to any index are encoded as the start of the whole list.
pub proof fn lemma_enc_entries_prefix(entries: Seq<(Seq<char>, Range<u64>)>, n: int)
    requires
        0 <= n <= entries.len(),
    ensures
        enc_entries(entries.take(n)).len() <= enc_entries(entries).len(),
        enc_entries(entries).subrange(0, enc_entries(entries.take(n)).len() as int)
            == enc_entries(entries.take(n)),
    decreases entries.len() - n,
{
    if n == entries.len() {
        assert(entries.take(n) =~= entries);
    } else {
        lemma_enc_entries_prefix(entries, n + 1);
        assert(entries.take(n + 1).drop_last() =~= entries.take(n));
    }
}

/// One directory entry reads back as it was written.
pub proof fn lemma_entry_round_trip(s: Seq<u8>, pos: int, entry: (Seq<char>, Range<u64>))
    requires
        0 <= pos,
        text_fits(entry.0),
        pos + enc_entry(entry).len() <= s.len(),
        s.subrange(pos, pos + enc_entry(entry).len()) == enc_entry(entry),
    ensures
        entry_at(s, pos) == Some((entry, pos + enc_entry(entry).len())),
{
    lemma_enc_lengths();
    let e1 = enc_text(entry.0);
    let e2 = enc_u64(entry.1.start);
    let e3 = enc_u64(entry.1.end);
    lemma_split_at(s, pos, e1, e2 + e3);
    lemma_split_at(s, pos + e1.len(), e2, e3);
    lemma_text_round_trip(s, pos, entry.0);
    lemma_u64_round_trip(s, pos + e1.len(), entry.1.start);
    lemma_u64_round_trip(s, pos + e1.len() + 8, entry.1.end);
}

/// With the first `n` entries read, reading the others yields the whole list.
pub proof fn lemma_entries_round_trip(
    s: Seq<u8>,
    pos: int,
    entries: Seq<(Seq<char>, Range<u64>)>,
    n: int,
)
    requires
        0 <= pos,
        0 <= n <= entries.len(),
        names_fit(entries),
        pos + enc_entries(entries).len() <= s.len(),
        s.subrange(pos, pos + enc_entries(entries).len()) == enc_entries(entries),
    ensures
        entries_from(
            s,
            pos + enc_entries(entries.take(n)).len(),
            (entries.len() - n) as nat,
            entries.take(n),
        ) == Some((entries, pos + enc_entries(entries).len())),
    decreases entries.len() - n,
{
    if n < entries.len() {
        let whole = enc_entries(entries);
        let done = entries.take(n);
        let longer = entries.take(n + 1);
        let entry = entries[n];
        assert(longer.drop_last() =~= done);
        lemma_enc_entries_prefix(entries, n + 1);
        assert(s.subrange(pos, pos + enc_entries(longer).len()) =~= whole.subrange(
            0,
            enc_entries(longer).len() as int,
        )) by {
            assert forall|i: int| 0 <= i < enc_entries(longer).len() implies s[pos + i]
                == whole[i] by {}
        }
        lemma_split_at(s, pos, enc_entries(done), enc_entry(entry));
        lemma_entry_round_trip(s, pos + enc_entries(done).len(), entry);
        assert(done.push(entry) =~= longer);
        lemma_entries_round_trip(s, pos, entries, n + 1);
    }
}

/// A directory record reads back as the entries it was written from, in
/// their order.
pub proof fn lemma_directory_round_trip(
    s: Seq<u8>,
    pos: int,
    entries: Seq<(Seq<char>, Range<u64>)>,
)
    requires
        0 <= pos,
        names_fit(entries),
        entries.len() <= u64::MAX,
        pos + enc_directory(entries).len() <= s.len(),
        s.subrange(pos, pos + enc_directory(entries).len()) == enc_directory(entries),
    ensures
        directory_at(s, pos) == Some((entries, pos + enc_directory(entries).len())),
{
    lemma_enc_lengths();
    lemma_split_at(s, pos, enc_u64(entries.len() as u64), enc_entries(entries));
    lemma_u64_round_trip(s, pos, entries.len() as u64);
    lemma_entries_round_trip(s, pos + 8, entries, 0);
    assert(entries.take(0) =~= Seq::empty());
}

/// Reading entries never moves backwards.
pub proof fn lemma_entries_from_advances(
    s: Seq<u8>,
    pos: int,
    remaining: nat,
    found: Seq<(Seq<char>, Range<u64>)>,
)
    requires
        0 <= pos,
        entries_from(s, pos, remaining, found) is Some,
    ensures
        pos <= entries_from(s, pos, remaining, found).unwrap().1,
    decreases remaining,
{
    if remaining > 0 {
        let (entry, next) = entry_at(s, pos).unwrap();
        lemma_entries_from_advances(s, next, (remaining - 1) as nat, found.push(entry));
    }
}

/// Cutting the bytes short behind an entry leaves it readable; cutting them
/// short within it makes reading it fail.
pub proof fn lemma_entry_truncated(s: Seq<u8>, pos: int, cut: int)
    requires
        0 <= pos,
        0 <= cut <= s.len(),
        entry_at(s, pos) is Some,
    ensures
        entry_at(s.take(cut), pos) == (if entry_at(s, pos).unwrap().1 <= cut {
            entry_at(s, pos)
        } else {
            None
        }),
{
    lemma_text_truncated(s, pos, cut);
    let (name, p1) = text_at(s, pos).unwrap();
    lemma_u64_truncated(s, p1, cut);
    let (start, p2) = u64_at(s, p1).unwrap();
    lemma_u64_truncated(s, p2, cut);
}

/// Cutting the bytes short behind the entries leaves them readable; cutting
/// them short within the entries makes reading them fail.
pub proof fn lemma_entries_truncated(
    s: Seq<u8>,
    pos: int,
    remaining: nat,
    found: Seq<(Seq<char>, Range<u64>)>,
    cut: int,
)
    requires
        0 <= pos <= cut <= s.len(),
        entries_from(s, pos, remaining, found) is Some,
    ensures
        entries_from(s.take(cut), pos, remaining, found) == (if entries_from(
            s,
            pos,
            remaining,
            found,
        ).unwrap().1 <= cut {
            entries_from(s, pos, remaining, found)
        } else {
            None
        }),
    decreases remaining,
{
    if remaining > 0 {
        lemma_entry_truncated(s, pos, cut);
        let (entry, next) = entry_at(s, pos).unwrap();
        let rest = (remaining - 1) as nat;
        lemma_entries_from_advances(s, next, rest, found.push(entry));
        if next <= cut {
            lemma_entries_truncated(s, next, rest, found.push(entry), cut);
        }
    }
}

/// Cutting the bytes short behind a directory record leaves it readable;
/// cutting them short within the record makes reading it fail.
pub proof fn lemma_directory_truncated(s: Seq<u8>, pos: int, cut: int)
    requires
        0 <= pos,
        0 <= cut <= s.len(),
        directory_at(s, pos) is Some,
    ensures
        directory_at(s.take(cut), pos) == (if directory_at(s, pos).unwrap().1 <= cut {
            directory_at(s, pos)
        } else {
            None
        }),
{
    lemma_u64_truncated(s, pos, cut);
    let (count, next) = u64_at(s, pos).unwrap();
    lemma_entries_from_advances(s, next, count as nat, Seq::empty());
    if next <= cut {
        lemma_entries_truncated(s, next, count as nat, Seq::empty(), cut);
    }
}

/// Reading an entry looks at nothing before its position.
pub proof fn lemma_entry_agree(a: Seq<u8>, b: Seq<u8>, pos: int)
    requires
        0 <= pos,
        agree_from(a, b, pos),
    ensures
        entry_at(a, pos) == entry_at(b, pos),
        entry_at(a, pos) matches Some((_, next)) ==> pos <= next,
{
    lemma_text_agree(a, b, pos);
    if text_at(a, pos) is Some {
        let (name, p1) = text_at(a, pos).unwrap();
        lemma_u64_agree(a, b, p1);
        if u64_at(a, p1) is Some {
            let (start, p2) = u64_at(a, p1).unwrap();
            lemma_u64_agree(a, b, p2);
        }
    }
}

/// Reading entries looks at nothing before their position.
pub proof fn lemma_entries_agree(
    a: Seq<u8>,
    b: Seq<u8>,
    pos: int,
    remaining: nat,
    found: Seq<(Seq<char>, Range<u64>)>,
)
    requires
        0 <= pos,
        agree_from(a, b, pos),
    ensures
        entries_from(a, pos, remaining, found) == entries_from(b, pos, remaining, found),
    decreases remaining,
{
    if remaining > 0 {
        lemma_entry_agree(a, b, pos);
        if entry_at(a, pos) is Some {
            let (entry, next) = entry_at(a, pos).unwrap();
            lemma_entries_agree(a, b, next, (remaining - 1) as nat, found.push(entry));
        }
    }
}

/// Reading a directory record looks at nothing before its position: on
/// sequences that agree from the position on, it yields the same.
pub proof fn lemma_directory_agree(a: Seq<u8>, b: Seq<u8>, pos: int)
    requires
        0 <= pos,
        agree_from(a, b, pos),
    ensures
        directory_at(a, pos) == directory_at(b, pos),
{
    lemma_u64_agree(a, b, pos);
    if u64_at(a, pos) is Some {
        let (count, next) = u64_at(a, pos).unwrap();
        lemma_entries_agree(a, b, next, count as nat, Seq::empty());
    }
}

/// A name is mapped exactly if it stands in the list.
pub proof fn lemma_entries_map_dom(entries: Seq<(Seq<char>, Range<u64>)>, name: Seq<char>)
    ensures
        entries_map(entries).dom().contains(name) <==> exists|i: int|
            0 <= i < entries.len() && (#[trigger] entries[i]).0 == name,
    decreases entries.len(),
{
    if entries.len() > 0 {
        let front = entries.drop_last();
        lemma_entries_map_dom(front, name);
        if entries_map(entries).dom().contains(name) && entries.last().0 != name {
            let i = choose|i: int| 0 <= i < front.len() && (#[trigger] front[i]).0 == name;
            assert(entries[i].0 == name);
        }
        if exists|i: int| 0 <= i < entries.len() && (#[trigger] entries[i]).0 == name {
            let i = choose|i: int| 0 <= i < entries.len() && (#[trigger] entries[i]).0 == name;
            if i < entries.len() - 1 {
                assert(front[i].0 == name);
            }
        }
    }
}

/// Where no name stands twice, the mapping has as many names as the list
/// has entries.
pub proof fn lemma_entries_map_len(entries: Seq<(Seq<char>, Range<u64>)>)
    requires
        names_unique(entries),
    ensures
        entries_map(entries).dom().finite(),
        entries_map(entries).len() == entries.len(),
    decreases entries.len(),
{
    if entries.len() > 0 {
        let front = entries.drop_last();
        assert(names_unique(front)) by {
            assert forall|a: int, b: int| 0 <= a < b < front.len() implies (#[trigger] front[a]).0
                != (#[trigger] front[b]).0 by {}
        }
        lemma_entries_map_len(front);
        lemma_entries_map_dom(front, entries.last().0);
        if entries_map(front).dom().contains(entries.last().0) {
            let i = choose|i: int|
                0 <= i < front.len() && (#[trigger] front[i]).0 == entries.last().0;
            assert(entries[i].0 == entries[entries.len() - 1].0);
        }
    }
}

/// Where no name stands twice, each entry's name is mapped to its range.
pub proof fn lemma_entries_map_lookup(entries: Seq<(Seq<char>, Range<u64>)>, i: int)
    requires
        names_unique(entries),
        0 <= i < entries.len(),
    ensures
        entries_map(entries).dom().contains(entries[i].0),
        entries_map(entries)[entries[i].0] == entries[i].1,
    decreases entries.len(),
{
    if i < entries.len() - 1 {
        lemma_entries_map_lookup(entries.drop_last(), i);
    }
}

impl View for Directory {
    type V = Map<Seq<char>, Range<u64>>;

    /// The mapping from names to the byte ranges of their file headers.
    open spec fn view(&self) -> Map<Seq<char>, Range<u64>> {
        entries_map(self.entries())
    }
}

impl Directory {
    /// The entries in the order in which they are stored.
    pub closed spec fn entries(&self) -> Seq<(Seq<char>, Range<u64>)> {
        Seq::new(
            self.file_headers@.len(),
            |i: int| (self.file_headers@[i].0@, self.file_headers@[i].1),
        )
    }

    /// Each name stands once, and each name can be held in memory.
    pub open spec fn wf(&self) -> bool {
        &&& names_unique(self.entries())
        &&& names_fit(self.entries())
        &&& self.entries().len() <= usize::MAX
    }

    /// A directory without entries.
    pub fn new() -> (directory: Self)
        ensures
            directory.wf(),
            directory.entries() == Seq::<(Seq<char>, Range<u64>)>::empty(),
            directory@ == Map::<Seq<char>, Range<u64>>::empty(),
    {
        Directory { file_headers: Vec::new() }
    }

    /// The number of names in the directory.
    pub fn len(&self) -> (n: usize)
        ensures
            n == self.entries().len(),
    {
        self.file_headers.len()
    }

    /// Where `path` stands among the entries.
    fn position(&self, path: &str) -> (found: Option<usize>)
        ensures
            match found {
                Some(i) => i < self.entries().len() && self.entries()[i as int].0 == path@,
                None => forall|i: int|
                    0 <= i < self.entries().len() ==> (#[trigger] self.entries()[i]).0 != path@,
            },
    {
        let key = String::from_str(path);
        let mut i: usize = 0;
        while i < self.file_headers.len()
            invariant
                i <= self.file_headers@.len(),
                key@ == path@,
                forall|j: int| 0 <= j < i ==> (#[trigger] self.entries()[j]).0 != path@,
            decreases self.file_headers@.len() - i,
        {
            if self.file_headers[i].0 == key {
                return Some(i);
            }
            i += 1;
        }
        None
    }

    /// Get a files header byte range by filename
    pub fn get_file(&self, path: &str) -> (range: Option<Range<u64>>)
        requires
            self.wf(),
        ensures
            range == (if self@.dom().contains(path@) {
                Some(self@[path@])
            } else {
                None
            }),
    {
        proof {
            lemma_entries_map_dom(self.entries(), path@);
        }
        match self.position(path) {
            Some(i) => {
                proof {
                    lemma_entries_map_lookup(self.entries(), i as int);
                }
                let range = &self.file_headers[i].1;
                Some(range.start..range.end)
            },
            None => None,
        }
    }

    /// Gets a list of all files: each name of the directory once, in the
    /// order of the entries.
    pub fn get_file_list(&self) -> (list: Vec<String>)
        requires
            self.wf(),
        ensures
            list@.len() == self.entries().len(),
            forall|i: int| 0 <= i < list@.len() ==> (#[trigger] list@[i])@ == self.entries()[i].0,
            forall|i: int, j: int|
                0 <= i < j < list@.len() ==> (#[trigger] list@[i])@ != (#[trigger] list@[j])@,
            forall|name: Seq<char>|
                self@.dom().contains(name) <==> exists|i: int|
                    0 <= i < list@.len() && (#[trigger] list@[i])@ == name,
    {
        let mut list: Vec<String> = Vec::new();
        let mut i: usize = 0;
        while i < self.file_headers.len()
            invariant
                i <= self.file_headers@.len(),
                list@.len() == i,
                forall|j: int| 0 <= j < i ==> (#[trigger] list@[j])@ == self.entries()[j].0,
            decreases self.file_headers@.len() - i,
        {
            list.push(self.file_headers[i].0.clone());
            i += 1;
        }
        proof {
            assert forall|name: Seq<char>|
                self@.dom().contains(name) <==> exists|i: int|
                    0 <= i < list@.len() && (#[trigger] list@[i])@ == name by {
                lemma_entries_map_dom(self.entries(), name);
                if self@.dom().contains(name) {
                    let k = choose|k: int|
                        0 <= k < self.entries().len() && (#[trigger] self.entries()[k]).0 == name;
                    assert(list@[k]@ == name);
                }
                if exists|i: int| 0 <= i < list@.len() && (#[trigger] list@[i])@ == name {
                    let k = choose|k: int| 0 <= k < list@.len() && (#[trigger] list@[k])@ == name;
                    assert(self.entries()[k].0 == name);
                }
            }
        }
        list
    }

    /// Sets a file range: the range of a name that the directory holds is
    /// replaced, a new name is added.
    pub fn set_file(&mut self, path: &str, header_range: Range<u64>)
        requires
            old(self).wf(),
        ensures
            final(self).wf(),
            final(self).entries() == with_entry(old(self).entries(), path@, header_range),
            final(self)@ == old(self)@.insert(path@, header_range),
    {
        let ghost before = self.entries();
        proof {
            lemma_entries_map_dom(before, path@);
            lemma_with_entry(before, path@, header_range);
        }
        let name_length = path.as_bytes().len();
        assert(text_fits(path@));
        match self.position(path) {
            Some(i) => {
                let name = String::from_str(path);
                self.file_headers[i] = (name, header_range);
                proof {
                    let after = self.entries();
                    lemma_entries_map_update(before, i as int, header_range);
                    assert(before.update(i as int, (before[i as int].0, header_range)) =~= after);
                    let k = choose|k: int|
                        0 <= k < before.len() && (#[trigger] before[k]).0 == path@;
                    assert(k == i);
                }
            },
            None => {
                let name = String::from_str(path);
                self.file_headers.push((name, header_range));
                let count = self.file_headers.len();
                proof {
                    assert(self.entries() =~= before.push((path@, header_range)));
                    assert(self.entries().len() == count);
                }
            },
        }
    }

    /// Appends the directory record to `out`.
    pub fn encode(&self, out: &mut Vec<u8>)
        ensures
            final(out)@ == old(out)@ + enc_directory(self.entries()),
    {
        put_u64(out, self.file_headers.len() as u64);
        let ghost start = out@;
        let mut i: usize = 0;
        while i < self.file_headers.len()
            invariant
                i <= self.file_headers@.len(),
                out@ == start + enc_entries(self.entries().take(i as int)),
            decreases self.file_headers@.len() - i,
        {
            put_text(out, self.file_headers[i].0.as_str());
            put_u64(out, self.file_headers[i].1.start);
            put_u64(out, self.file_headers[i].1.end);
            proof {
                let longer = self.entries().take(i + 1);
                assert(longer.drop_last() =~= self.entries().take(i as int));
            }
            i += 1;
        }
        proof {
            assert(self.entries().take(i as int) =~= self.entries());
        }
    }

    /// Reads a directory record at `pos`, and tells where it ends. Where the
    /// record holds a name more than once, its last entry counts.
    pub fn decode(bytes: &[u8], pos: usize) -> (r: Option<(Directory, usize)>)
        ensures
            match directory_at(bytes@, pos as int) {
                Some((entries, next)) => r matches Some((got, after)) && got.wf()
                    && got.entries() == merged(entries) && got@ == entries_map(entries) && after
                    == next,
                None => r is None,
            },
    {
        let (count, start) = match get_u64(bytes, pos) {
            Some(x) => x,
            None => return None,
        };
        let mut directory = Directory::new();
        let mut at: usize = start;
        let mut i: u64 = 0;
        let ghost mut found: Seq<(Seq<char>, Range<u64>)> = Seq::empty();
        while i < count
            invariant
                i <= count,
                directory.wf(),
                directory.entries() == merged(found),
                directory@ == entries_map(found),
                directory_at(bytes@, pos as int) == entries_from(
                    bytes@,
                    start as int,
                    count as nat,
                    Seq::empty(),
                ),
                entries_from(bytes@, start as int, count as nat, Seq::empty()) == entries_from(
                    bytes@,
                    at as int,
                    (count - i) as nat,
                    found,
                ),
            decreases count - i,
        {
            let (name, p1) = match get_text(bytes, at) {
                Some(x) => x,
                None => return None,
            };
            let (first, p2) = match get_u64(bytes, p1) {
                Some(x) => x,
                None => return None,
            };
            let (end, p3) = match get_u64(bytes, p2) {
                Some(x) => x,
                None => return None,
            };
            directory.set_file(name.as_str(), first..end);
            proof {
                let entry = (name@, Range { start: first, end });
                assert(found.push(entry).drop_last() =~= found);
                found = found.push(entry);
            }
            at = p3;
            i += 1;
        }
        Some((directory, at))
    }
}

/// Setting a name in a list without duplicates leaves it without duplicates
/// and maps the name to the new range.
pub proof fn lemma_with_entry(
    entries: Seq<(Seq<char>, Range<u64>)>,
    name: Seq<char>,
    range: Range<u64>,
)
    requires
        names_unique(entries),
    ensures
        names_unique(with_entry(entries, name, range)),
        entries_map(with_entry(entries, name, range)) == entries_map(entries).insert(name, range),
        names_fit(entries) && text_fits(name) ==> names_fit(with_entry(entries, name, range)),
{
    let after = with_entry(entries, name, range);
    if exists|i: int| 0 <= i < entries.len() && (#[trigger] entries[i]).0 == name {
        let i = choose|i: int| 0 <= i < entries.len() && (#[trigger] entries[i]).0 == name;
        lemma_entries_map_update(entries, i, range);
    } else {
        assert(after.drop_last() =~= entries);
    }
}

/// A list in which no name stands twice is merged already.
pub proof fn lemma_merged_of_unique(entries: Seq<(Seq<char>, Range<u64>)>)
    requires
        names_unique(entries),
    ensures
        merged(entries) == entries,
    decreases entries.len(),
{
    if entries.len() > 0 {
        let front = entries.drop_last();
        lemma_merged_of_unique(front);
        assert(front.push(entries.last()) =~= entries);
    }
}

/// Replacing the range of an entry maps its name to the new range.
pub proof fn lemma_entries_map_update(
    entries: Seq<(Seq<char>, Range<u64>)>,
    i: int,
    range: Range<u64>,
)
    requires
        names_unique(entries),
        0 <= i < entries.len(),
    ensures
        entries_map(entries.update(i, (entries[i].0, range))) == entries_map(entries).insert(
            entries[i].0,
            range,
        ),
    decreases entries.len(),
{
    let changed = entries.update(i, (entries[i].0, range));
    let front = entries.drop_last();
    if i == entries.len() - 1 {
        assert(changed.drop_last() =~= front);
    } else {
        lemma_entries_map_update(front, i, range);
        assert(changed.drop_last() =~= front.update(i, (front[i].0, range)));
    }
}

impl Default for Directory {
    fn default() -> (directory: Self)
        ensures
            directory.wf(),
            directory.entries() == Seq::<(Seq<char>, Range<u64>)>::empty(),
            directory@ == Map::<Seq<char>, Range<u64>>::empty(),
    {
        Directory::new()
    }
}

} // verus!
