use vstd::prelude::*;

use core::cmp::Ordering;

use crate::memcard::entry::{entry_from_bytes, entry_name, has_flag, lemma_entry_unique, Entry};
use crate::memcard::timestamp::{field_cmp, lemma_field_cmp_total_order, later_of, Timestamp};
use crate::memcard::MemcardError;
use crate::reader::ByteReader;
use crate::util::{consumed, le_u16, le_u32};

verus! {

/// A directory: its "." and ".." entries, then the entries it holds.
#[derive(Debug, Clone)]
pub struct Directory {
    /// The first entry, ".".
    pub dot: Entry,
    /// The second entry, "..".
    pub dotdot: Entry,
    pub entries: Vec<Entry>,
}

/// The entry whose name is `name` among `entries`, searching from the front:
/// its index, or `None`.
pub open spec fn first_named(entries: Seq<Entry>, name: Seq<char>) -> Option<int>
    decreases entries.len(),
{
    if entries.len() == 0 {
        None
    } else if entry_name(entries[0]) == name {
        Some(0)
    } else {
        match first_named(entries.drop_first(), name) {
            Some(k) => Some(k + 1),
            None => None,
        }
    }
}

/// Starting from `start`, replaces the running value by each entry's
/// modification time that is greater in field order (`>` on timestamps).
pub open spec fn latest_modified(start: Timestamp, entries: Seq<Entry>) -> Timestamp
    decreases entries.len(),
{
    if entries.len() == 0 {
        start
    } else {
        let prev = latest_modified(start, entries.drop_last());
        if field_cmp(entries.last().modified, prev) == Ordering::Greater {
            entries.last().modified
        } else {
            prev
        }
    }
}

/// The entry of `d` called `name`: "." and ".." name the directory's own
/// entries, any other name the first entry with that name.
pub open spec fn entry_named(d: Directory, name: Seq<char>) -> Option<Entry> {
    if name == "."@ {
        Some(d.dot)
    } else if name == ".."@ {
        Some(d.dotdot)
    } else {
        match first_named(d.entries@, name) {
            Some(k) => Some(d.entries@[k]),
            None => None,
        }
    }
}

/// The sum of the lengths of the file entries.
pub open spec fn files_size(entries: Seq<Entry>) -> int
    decreases entries.len(),
{
    if entries.len() == 0 {
        0
    } else {
        files_size(entries.drop_last()) + if has_flag(entries.last().mode, 0x0010) {
            entries.last().len as int
        } else {
            0
        }
    }
}

/// `entries` are the `n` consecutive entries stored at the start of `b`.
pub open spec fn entries_from_bytes(entries: Seq<Entry>, b: Seq<u8>, n: int) -> bool {
    &&& entries.len() == n
    &&& forall|i: int| 0 <= i < n ==> #[trigger] entry_from_bytes(entries[i], b.skip(512 * i))
}

/// The first two entries of `b`, where present, are directories.
pub open spec fn dir_header_ok(b: Seq<u8>) -> bool {
    b.len() >= 1024 ==> has_flag(le_u16(b), 0x0020) && has_flag(le_u16(b.skip(512)), 0x0020)
}

/// The `len` field of the entry at the start of `b`.
pub open spec fn entry_len_field(b: Seq<u8>) -> u32 {
    le_u32(b.subrange(4, 8))
}

/// `d` is the directory of `count` entries (its two own ones included)
/// stored at the start of `b`.
pub open spec fn directory_from_bytes(d: Directory, b: Seq<u8>, count: int) -> bool {
    &&& entry_from_bytes(d.dot, b)
    &&& entry_from_bytes(d.dotdot, b.skip(512))
    &&& entries_from_bytes(d.entries@, b.skip(1024), count - 2)
}

/// Directories read from the same bytes have the same entries.
pub proof fn lemma_directory_unique(d1: Directory, d2: Directory, b: Seq<u8>, count: int)
    requires
        directory_from_bytes(d1, b, count),
        directory_from_bytes(d2, b, count),
    ensures
        d1.dot == d2.dot,
        d1.dotdot == d2.dotdot,
        d1.entries@ == d2.entries@,
{
    lemma_entry_unique(d1.dot, d2.dot, b);
    lemma_entry_unique(d1.dotdot, d2.dotdot, b.skip(512));
    assert forall|i: int| 0 <= i < d1.entries@.len() implies d1.entries@[i] == d2.entries@[i] by {
        lemma_entry_unique(d1.entries@[i], d2.entries@[i], b.skip(1024).skip(512 * i));
    }
    assert(d1.entries@ =~= d2.entries@);
}

proof fn lemma_first_named_found(entries: Seq<Entry>, name: Seq<char>, k: int)
    requires
        0 <= k < entries.len(),
        entry_name(entries[k]) == name,
        forall|j: int| 0 <= j < k ==> entry_name(#[trigger] entries[j]) != name,
    ensures
        first_named(entries, name) == Some(k),
    decreases k,
{
    if k > 0 {
        lemma_first_named_found(entries.drop_first(), name, k - 1);
    }
}

proof fn lemma_first_named_absent(entries: Seq<Entry>, name: Seq<char>)
    requires
        forall|j: int| 0 <= j < entries.len() ==> entry_name(#[trigger] entries[j]) != name,
    ensures
        first_named(entries, name) is None,
    decreases entries.len(),
{
    if entries.len() > 0 {
        lemma_first_named_absent(entries.drop_first(), name);
    }
}

proof fn lemma_files_size_prefix(entries: Seq<Entry>, i: int)
    requires
        0 <= i <= entries.len(),
    ensures
        0 <= files_size(entries.take(i)) <= files_size(entries),
    decreases entries.len(),
{
    if i < entries.len() {
        assert(entries.drop_last().take(i) =~= entries.take(i));
        lemma_files_size_prefix(entries.drop_last(), i);
    } else {
        assert(entries.take(i) =~= entries);
        if entries.len() > 0 {
            lemma_files_size_prefix(entries.drop_last(), i - 1);
            assert(entries.drop_last().take(i - 1) =~= entries.drop_last());
        }
    }
}

/// Reads `n` consecutive entries.
fn read_entries(reader: &mut ByteReader, n: usize) -> (res: Result<Vec<Entry>, MemcardError>)
    ensures
        res is Ok <==> old(reader)@.len() >= 512 * n,
        res matches Ok(v) ==> entries_from_bytes(v@, old(reader)@, n as int) && consumed(
            old(reader)@,
            final(reader)@,
            512 * n,
        ),
        res is Err ==> res->Err_0 is Io,
{
    let ghost b = reader@;
    let mut entries: Vec<Entry> = Vec::new();
    let mut i: usize = 0;
    while i < n
        invariant
            i <= n,
            b == old(reader)@,
            512 * i <= b.len(),
            reader@ == b.skip(512 * i),
            entries_from_bytes(entries@, b, i as int),
        decreases n - i,
    {
        let e = match Entry::read(reader) {
            Ok(e) => e,
            Err(err) => {
                assert(b.len() < 512 * n);
                return Err(err);
            },
        };
        proof {
            assert(b.skip(512 * i).skip(512) =~= b.skip(512 * (i + 1)));
        }
        let ghost prev = entries@;
        entries.push(e);
        i = i + 1;
        proof {
            assert forall|j: int| 0 <= j < i implies #[trigger] entry_from_bytes(
                entries@[j],
                b.skip(512 * j),
            ) by {
                if j < i - 1 {
                    assert(entries@[j] == prev[j]);
                }
            }
        }
    }
    Ok(entries)
}

impl Default for Directory {
    fn default() -> (d: Self)
        ensures
            d.entries@.len() == 0,
    {
        Directory { dot: Entry::default(), dotdot: Entry::default(), entries: Vec::new() }
    }
}

impl Directory {
    /// The entry called `filename`: "." and ".." name the directory's own
    /// entries, any other name the first entry with that name.
    pub fn entry_by_name(&self, filename: &str) -> (r: Option<&Entry>)
        ensures
            r == (if filename@ == "."@ {
                Some(&self.dot)
            } else if filename@ == ".."@ {
                Some(&self.dotdot)
            } else {
                match first_named(self.entries@, filename@) {
                    Some(k) => Some(&self.entries@[k]),
                    None => None,
                }
            }),
            r is None <==> entry_named(*self, filename@) is None,
            r matches Some(e) ==> entry_named(*self, filename@) == Some(*e),
    {
        let wanted = filename.to_owned();
        if wanted == ".".to_owned() {
            return Some(&self.dot);
        }
        if wanted == "..".to_owned() {
            return Some(&self.dotdot);
        }
        let mut i: usize = 0;
        while i < self.entries.len()
            invariant
                i <= self.entries@.len(),
                wanted@ == filename@,
                filename@ != "."@,
                filename@ != ".."@,
                forall|j: int| 0 <= j < i ==> entry_name(#[trigger] self.entries@[j]) != filename@,
            decreases self.entries@.len() - i,
        {
            let entry = &self.entries[i];
            if entry.name() == wanted {
                proof {
                    lemma_first_named_found(self.entries@, filename@, i as int);
                }
                return Some(entry);
            }
            i = i + 1;
        }
        proof {
            lemma_first_named_absent(self.entries@, filename@);
        }
        None
    }

    /// The later of the two own entries' modification times (chronological
    /// order), then replaced by every entry's modification time that is
    /// greater in field order.
    pub fn last_modified(&self) -> (t: Timestamp)
        ensures
            t == latest_modified(later_of(self.dot.modified, self.dotdot.modified), self.entries@),
    {
        let mut last = self.dot.modified.max(self.dotdot.modified);
        let ghost start = last;
        let mut i: usize = 0;
        while i < self.entries.len()
            invariant
                i <= self.entries@.len(),
                start == later_of(self.dot.modified, self.dotdot.modified),
                last == latest_modified(start, self.entries@.take(i as int)),
            decreases self.entries@.len() - i,
        {
            let entry = &self.entries[i];
            proof {
                assert(self.entries@.take(i + 1).drop_last() =~= self.entries@.take(i as int));
            }
            if entry.modified > last {
                last = entry.modified;
            }
            i = i + 1;
        }
        proof {
            assert(self.entries@.take(i as int) =~= self.entries@);
        }
        last
    }

    /// The sum of the lengths of the file entries.
    pub fn total_size(&self) -> (size: u32)
        requires
            files_size(self.entries@) <= u32::MAX,
        ensures
            size == files_size(self.entries@),
    {
        let mut total: u32 = 0;
        let mut i: usize = 0;
        while i < self.entries.len()
            invariant
                i <= self.entries@.len(),
                files_size(self.entries@) <= u32::MAX,
                total == files_size(self.entries@.take(i as int)),
            decreases self.entries@.len() - i,
        {
            let entry = &self.entries[i];
            proof {
                assert(self.entries@.take(i + 1).drop_last() =~= self.entries@.take(i as int));
                lemma_files_size_prefix(self.entries@, i + 1);
            }
            if entry.is_file() {
                total = total + entry.len;
            }
            i = i + 1;
        }
        proof {
            assert(self.entries@.take(i as int) =~= self.entries@);
        }
        total
    }

    /// Reads the directory that `entry` describes: its two own entries, then
    /// `entry.len - 2` more.
    pub fn read(reader: &mut ByteReader, entry: &Entry) -> (res: Result<Self, MemcardError>)
        requires
            dir_header_ok(old(reader)@),
            old(reader)@.len() >= 1024 ==> entry.len >= 2,
        ensures
            res is Ok <==> old(reader)@.len() >= 1024 && old(reader)@.len() >= 512 * entry.len,
            res matches Ok(d) ==> directory_from_bytes(d, old(reader)@, entry.len as int)
                && consumed(old(reader)@, final(reader)@, 512 * entry.len),
            res is Err ==> res->Err_0 is Io,
    {
        let ghost b = reader@;
        let dot = Entry::read(reader)?;
        let dotdot = Entry::read(reader)?;
        proof {
            assert(has_flag(dot.mode, 0x0020) && has_flag(dotdot.mode, 0x0020));
        }
        let num_entries = entry.len as usize - 2;
        let entries = read_entries(reader, num_entries)?;
        proof {
            assert(b.skip(512).skip(512) =~= b.skip(1024));
            assert(reader@ =~= b.skip(512 * entry.len));
        }
        Ok(Directory { dot, dotdot, entries })
    }

    /// Reads the root directory, whose "." entry gives the number of entries.
    pub fn read_root(reader: &mut ByteReader) -> (res: Result<Self, MemcardError>)
        requires
            dir_header_ok(old(reader)@),
            old(reader)@.len() >= 1024 ==> entry_len_field(old(reader)@) >= 2,
        ensures
            res is Ok <==> old(reader)@.len() >= 1024 && old(reader)@.len() >= 512
                * entry_len_field(old(reader)@),
            res matches Ok(d) ==> directory_from_bytes(
                d,
                old(reader)@,
                entry_len_field(old(reader)@) as int,
            ) && consumed(old(reader)@, final(reader)@, 512 * entry_len_field(old(reader)@)),
            res is Err ==> res->Err_0 is Io,
    {
        let ghost b = reader@;
        let dot = Entry::read(reader)?;
        let dotdot = Entry::read(reader)?;
        proof {
            assert(has_flag(dot.mode, 0x0020) && has_flag(dotdot.mode, 0x0020));
        }
        let num_entries = dot.len as usize - 2;
        let entries = read_entries(reader, num_entries)?;
        proof {
            assert(b.skip(512).skip(512) =~= b.skip(1024));
            assert(reader@ =~= b.skip(512 * dot.len));
        }
        Ok(Directory { dot, dotdot, entries })
    }
}

/// The running latest modification time is the start or one of the
/// entries' times, and neither the start nor any entry's time is greater in
/// field order.
proof fn lemma_latest_modified_bounds(start: Timestamp, entries: Seq<Entry>)
    ensures
        ({
            let t = latest_modified(start, entries);
            &&& t == start || exists|i: int| 0 <= i < entries.len() && #[trigger] entries[i].modified == t
            &&& field_cmp(start, t) != Ordering::Greater
            &&& forall|i: int|
                0 <= i < entries.len() ==> field_cmp(#[trigger] entries[i].modified, t)
                    != Ordering::Greater
        }),
    decreases entries.len(),
{
    if entries.len() > 0 {
        let rest = entries.drop_last();
        let prev = latest_modified(start, rest);
        let last = entries.last();
        lemma_latest_modified_bounds(start, rest);
        let t = latest_modified(start, entries);
        lemma_field_cmp_total_order(start, prev, t);
        lemma_field_cmp_total_order(last.modified, t, t);
        if t != prev {
            assert(entries[entries.len() - 1].modified == t);
        } else if t != start {
            let i = choose|i: int| 0 <= i < rest.len() && #[trigger] rest[i].modified == t;
            assert(entries[i].modified == t);
        }
        assert forall|i: int| 0 <= i < entries.len() implies field_cmp(
            #[trigger] entries[i].modified,
            t,
        ) != Ordering::Greater by {
            lemma_field_cmp_total_order(entries[i].modified, prev, t);
            if i < entries.len() - 1 {
                assert(entries[i] == rest[i]);
            }
        }
    } else {
        lemma_field_cmp_total_order(start, start, start);
    }
}

/// What [`Directory::last_modified`] gives is the modification time of the
/// directory's "." or ".." entry or of one of its entries, and no entry of
/// the directory, nor the later of "." and "..", was modified later in field
/// order (the order of `>` on timestamps).
pub proof fn lemma_last_modified_is_latest(d: Directory)
    ensures
        ({
            let start = later_of(d.dot.modified, d.dotdot.modified);
            let t = latest_modified(start, d.entries@);
            &&& t == d.dot.modified || t == d.dotdot.modified || exists|i: int|
                0 <= i < d.entries@.len() && #[trigger] d.entries@[i].modified == t
            &&& field_cmp(start, t) != Ordering::Greater
            &&& forall|i: int|
                0 <= i < d.entries@.len() ==> field_cmp(#[trigger] d.entries@[i].modified, t)
                    != Ordering::Greater
        }),
{
    lemma_latest_modified_bounds(later_of(d.dot.modified, d.dotdot.modified), d.entries@);
}

} // verus!
