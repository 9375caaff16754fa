use vstd::prelude::*;

use crate::memcard::timestamp::{parse_timestamp, timestamp_text, Timestamp};
use crate::memcard::MemcardError;
use crate::reader::ByteReader;
use crate::util::{
    ascii_chars, is_ascii_bytes, consumed, decimal, le_u16, le_u32, push_decimal, read_u16, read_u32, trim_nul,
    trim_nuls, utf8_lossy_owned, utf8_lossy_text,
};

verus! {

/// A directory entry: a file or a directory, 512 bytes on the card.
#[derive(Debug, Clone, Copy)]
pub struct Entry {
    pub mode: u16,
    pub len: u32,
    pub created: Timestamp,
    pub cluster: u32,
    pub dir_entry: u32,
    pub modified: Timestamp,
    pub attr: u32,
    pub name: [u8; 32],
}

/// `e` is the entry stored in the first 512 bytes of `b`.
pub open spec fn entry_from_bytes(e: Entry, b: Seq<u8>) -> bool {
    &&& e.mode == le_u16(b)
    &&& e.len == le_u32(b.subrange(4, 8))
    &&& e.created == parse_timestamp(b.subrange(8, 16))
    &&& e.cluster == le_u32(b.subrange(16, 20))
    &&& e.dir_entry == le_u32(b.subrange(20, 24))
    &&& e.modified == parse_timestamp(b.subrange(24, 32))
    &&& e.attr == le_u32(b.subrange(32, 36))
    &&& e.name@ == b.subrange(64, 96)
}

/// Entries read from the same bytes are the same.
pub proof fn lemma_entry_unique(e1: Entry, e2: Entry, b: Seq<u8>)
    requires
        entry_from_bytes(e1, b),
        entry_from_bytes(e2, b),
    ensures
        e1 == e2,
{
    assert(e1.name =~= e2.name);
}

/// The name of an entry: its name field decoded leniently as UTF-8, without
/// trailing NULs.
pub open spec fn entry_name(e: Entry) -> Seq<char> {
    trim_nul(utf8_lossy_text(e.name@))
}

/// Whether `mode` has the bit `flag` set.
pub open spec fn has_flag(mode: u16, flag: u16) -> bool {
    mode & flag != 0
}

/// `c` when the flag is set, `-` otherwise.
pub open spec fn flag_text(set: bool, c: Seq<char>) -> Seq<char> {
    if set {
        c
    } else {
        "-"@
    }
}

/// The sixteen mode letters, lowest bit first.
pub open spec fn mode_text(m: u16) -> Seq<char> {
    flag_text(has_flag(m, 0x0001), "r"@) + flag_text(has_flag(m, 0x0002), "w"@) + flag_text(
        has_flag(m, 0x0004),
        "x"@,
    ) + flag_text(has_flag(m, 0x0008), "p"@) + flag_text(has_flag(m, 0x0010), "f"@) + flag_text(
        has_flag(m, 0x0020),
        "d"@,
    ) + flag_text(has_flag(m, 0x0040), "i"@) + flag_text(has_flag(m, 0x0080), "c"@) + flag_text(
        has_flag(m, 0x0100),
        "?"@,
    ) + flag_text(has_flag(m, 0x0200), "C"@) + flag_text(has_flag(m, 0x0400), "?"@) + flag_text(
        has_flag(m, 0x0800),
        "P"@,
    ) + flag_text(has_flag(m, 0x1000), "X"@) + flag_text(has_flag(m, 0x2000), "h"@) + flag_text(
        has_flag(m, 0x4000),
        "?"@,
    ) + flag_text(has_flag(m, 0x8000), "e"@)
}

/// The first line of an entry's description and the start of the second:
/// the name in quotes, then the type word.
pub open spec fn entry_head(e: Entry) -> Seq<char> {
    "'"@ + entry_name(e) + "'\n    type:       "@ + (if has_flag(e.mode, 0x0020) {
        "dir"@
    } else {
        "file"@
    })
}

/// The rest of an entry's description: length, times, cluster, directory
/// entry, mode letters and attributes, one per line.
pub open spec fn entry_tail(e: Entry) -> Seq<char> {
    "\n    len:        "@ + decimal(e.len as nat) + "\n    created:    "@ + timestamp_text(
        e.created,
    ) + "\n    modified:   "@ + timestamp_text(e.modified) + "\n    cluster:    "@ + decimal(
        e.cluster as nat,
    ) + "\n    dir_entry:  "@ + decimal(e.dir_entry as nat) + "\n    mode:       "@ + mode_text(
        e.mode,
    ) + "\n    attr:       "@ + decimal(e.attr as nat)
}

/// The multi-line description of an entry.
pub open spec fn entry_text(e: Entry) -> Seq<char> {
    entry_head(e) + entry_tail(e)
}

fn push_flag(s: &mut String, set: bool, c: &str)
    ensures
        final(s)@ == old(s)@ + flag_text(set, c@),
{
    if set {
        s.append(c);
    } else {
        s.append("-");
    }
}

impl Default for Entry {
    fn default() -> (e: Self)
        ensures
            e.mode == 0 && e.len == 0 && e.cluster == 0 && e.dir_entry == 0 && e.attr == 0,
            e.created == Timestamp::default_value() && e.modified == Timestamp::default_value(),
            e.name@ == Seq::new(32, |i: int| 0u8),
    {
        let e = Entry {
            mode: 0,
            len: 0,
            created: Timestamp::default(),
            cluster: 0,
            dir_entry: 0,
            modified: Timestamp::default(),
            attr: 0,
            name: [0u8; 32],
        };
        assert(e.name@ =~= Seq::new(32, |i: int| 0u8));
        e
    }
}

impl Entry {
    pub const FLAG_READ: u16 = 0x0001;
    pub const FLAG_WRITE: u16 = 0x0002;
    pub const FLAG_EXECUTE: u16 = 0x0004;
    pub const FLAG_PROTECTED: u16 = 0x0008;
    pub const FLAG_FILE: u16 = 0x0010;
    pub const FLAG_DIRECTORY: u16 = 0x0020;
    pub const FLAG_DIR_INTERNAL: u16 = 0x0040;
    pub const FLAG_COPIED_MAYBE: u16 = 0x0080;
    pub const FLAG_0X0100: u16 = 0x0100;
    pub const FLAG_CREATE: u16 = 0x0200;
    pub const FLAG_0X0400: u16 = 0x0400;
    pub const FLAG_POCKETSTN: u16 = 0x0800;
    pub const FLAG_PSX: u16 = 0x1000;
    pub const FLAG_HIDDEN: u16 = 0x2000;
    pub const FLAG_0X4000: u16 = 0x4000;
    pub const FLAG_EXISTS: u16 = 0x8000;

    /// Reads the 512 bytes of an entry.
    pub fn read(reader: &mut ByteReader) -> (res: Result<Self, MemcardError>)
        ensures
            res is Ok <==> old(reader)@.len() >= 512,
            res matches Ok(e) ==> entry_from_bytes(e, old(reader)@) && consumed(
                old(reader)@,
                final(reader)@,
                512,
            ),
            res is Err ==> res->Err_0 is Io,
    {
        let ghost b = reader@;
        let mode = read_u16(reader)?;
        let mut align = [0u8; 2];
        reader.read_exact(&mut align)?;
        let len = read_u32(reader)?;
        let created = Timestamp::read(reader)?;
        let cluster = read_u32(reader)?;
        let dir_entry = read_u32(reader)?;
        let modified = Timestamp::read(reader)?;
        let attr = read_u32(reader)?;
        let mut align2 = [0u8; 0x1c];
        reader.read_exact(&mut align2)?;
        let mut name = [0u8; 32];
        reader.read_exact(&mut name)?;
        let mut unused = [0u8; 0x1a0];
        reader.read_exact(&mut unused)?;
        let e = Entry { mode, len, created, cluster, dir_entry, modified, attr, name };
        proof {
            assert(reader@ =~= b.skip(512));
            assert(b.skip(4).take(4) =~= b.subrange(4, 8));
            assert(b.skip(8).take(8) =~= b.subrange(8, 16));
            assert(b.skip(16).take(4) =~= b.subrange(16, 20));
            assert(b.skip(20).take(4) =~= b.subrange(20, 24));
            assert(b.skip(24).take(8) =~= b.subrange(24, 32));
            assert(b.skip(32).take(4) =~= b.subrange(32, 36));
            assert(name@ =~= b.subrange(64, 96));
        }
        Ok(e)
    }

    /// Readable (`FLAG_READ`).
    pub fn can_read(&self) -> (b: bool)
        ensures
            b == has_flag(self.mode, 0x0001),
    {
        self.mode & 0x0001 != 0
    }

    /// Writable (`FLAG_WRITE`).
    pub fn can_write(&self) -> (b: bool)
        ensures
            b == has_flag(self.mode, 0x0002),
    {
        self.mode & 0x0002 != 0
    }

    /// Executable (`FLAG_EXECUTE`).
    pub fn can_execute(&self) -> (b: bool)
        ensures
            b == has_flag(self.mode, 0x0004),
    {
        self.mode & 0x0004 != 0
    }

    /// Copy-protected (`FLAG_PROTECTED`).
    pub fn is_protected(&self) -> (b: bool)
        ensures
            b == has_flag(self.mode, 0x0008),
    {
        self.mode & 0x0008 != 0
    }

    /// A file (`FLAG_FILE`).
    pub fn is_file(&self) -> (b: bool)
        ensures
            b == has_flag(self.mode, 0x0010),
    {
        self.mode & 0x0010 != 0
    }

    /// A directory (`FLAG_DIRECTORY`).
    pub fn is_dir(&self) -> (b: bool)
        ensures
            b == has_flag(self.mode, 0x0020),
    {
        self.mode & 0x0020 != 0
    }

    /// The `FLAG_DIR_INTERNAL` bit.
    pub fn flag_dir_internal(&self) -> (b: bool)
        ensures
            b == has_flag(self.mode, 0x0040),
    {
        self.mode & 0x0040 != 0
    }

    /// The `FLAG_COPIED_MAYBE` bit.
    pub fn is_copied_maybe(&self) -> (b: bool)
        ensures
            b == has_flag(self.mode, 0x0080),
    {
        self.mode & 0x0080 != 0
    }

    /// The `FLAG_0X0100` bit.
    pub fn flag_0x0100(&self) -> (b: bool)
        ensures
            b == has_flag(self.mode, 0x0100),
    {
        self.mode & 0x0100 != 0
    }

    /// The `FLAG_CREATE` bit.
    pub fn flag_create(&self) -> (b: bool)
        ensures
            b == has_flag(self.mode, 0x0200),
    {
        self.mode & 0x0200 != 0
    }

    /// The `FLAG_0X0400` bit.
    pub fn flag_0x0400(&self) -> (b: bool)
        ensures
            b == has_flag(self.mode, 0x0400),
    {
        self.mode & 0x0400 != 0
    }

    /// A PocketStation save (`FLAG_POCKETSTN`).
    pub fn is_pocketstn_save(&self) -> (b: bool)
        ensures
            b == has_flag(self.mode, 0x0800),
    {
        self.mode & 0x0800 != 0
    }

    /// A PlayStation save (`FLAG_PSX`).
    pub fn is_psx_save(&self) -> (b: bool)
        ensures
            b == has_flag(self.mode, 0x1000),
    {
        self.mode & 0x1000 != 0
    }

    /// Hidden (`FLAG_HIDDEN`).
    pub fn is_hidden(&self) -> (b: bool)
        ensures
            b == has_flag(self.mode, 0x2000),
    {
        self.mode & 0x2000 != 0
    }

    /// The `FLAG_0X4000` bit.
    pub fn flag_0x4000(&self) -> (b: bool)
        ensures
            b == has_flag(self.mode, 0x4000),
    {
        self.mode & 0x4000 != 0
    }

    /// The entry is in use (`FLAG_EXISTS`).
    pub fn is_existing(&self) -> (b: bool)
        ensures
            b == has_flag(self.mode, 0x8000),
    {
        self.mode & 0x8000 != 0
    }

    /// A PlayStation 2 save directory, the kind that has a preview: a
    /// directory that is neither a PlayStation nor a PocketStation save.
    pub fn is_ps2_save_dir(&self) -> (b: bool)
        ensures
            b == (has_flag(self.mode, 0x0020) && !has_flag(self.mode, 0x1000) && !has_flag(
                self.mode,
                0x0800,
            )),
    {
        self.is_dir() && !self.is_psx_save() && !self.is_pocketstn_save()
    }

    /// The entry's name: the name field decoded leniently as UTF-8, without
    /// trailing NULs.
    pub fn name(&self) -> (s: String)
        ensures
            s@ == entry_name(*self),
            is_ascii_bytes(self.name@) ==> s@ == trim_nul(ascii_chars(self.name@)),
    {
        let text = utf8_lossy_owned(self.name.as_slice());
        trim_nuls(text.as_str())
    }

    /// The sixteen mode letters (`rwxpfdic?C?PXh?e`, `-` for a clear bit).
    pub fn mode_string(&self) -> (s: String)
        ensures
            s@ == mode_text(self.mode),
    {
        let mut s = String::new();
        push_flag(&mut s, self.can_read(), "r");
        push_flag(&mut s, self.can_write(), "w");
        push_flag(&mut s, self.can_execute(), "x");
        push_flag(&mut s, self.is_protected(), "p");
        push_flag(&mut s, self.is_file(), "f");
        push_flag(&mut s, self.is_dir(), "d");
        push_flag(&mut s, self.flag_dir_internal(), "i");
        push_flag(&mut s, self.is_copied_maybe(), "c");
        push_flag(&mut s, self.flag_0x0100(), "?");
        push_flag(&mut s, self.flag_create(), "C");
        push_flag(&mut s, self.flag_0x0400(), "?");
        push_flag(&mut s, self.is_pocketstn_save(), "P");
        push_flag(&mut s, self.is_psx_save(), "X");
        push_flag(&mut s, self.is_hidden(), "h");
        push_flag(&mut s, self.flag_0x4000(), "?");
        push_flag(&mut s, self.is_existing(), "e");
        assert(s@ =~= mode_text(self.mode));
        s
    }

    /// A multi-line description: name, type, length, times, cluster,
    /// directory entry, mode letters and attributes.
    pub fn to_string(&self) -> (s: String)
        ensures
            s@ == entry_text(*self),
    {
        let mut s = String::new();
        self.push_head(&mut s);
        self.push_tail(&mut s);
        assert(s@ =~= entry_text(*self));
        s
    }

    fn push_head(&self, s: &mut String)
        ensures
            final(s)@ == old(s)@ + entry_head(*self),
    {
        let name = self.name();
        s.append("'");
        s.append(name.as_str());
        s.append("'\n    type:       ");
        if self.is_dir() {
            s.append("dir");
        } else {
            s.append("file");
        }
        assert(s@ =~= old(s)@ + entry_head(*self));
    }

    fn push_tail(&self, s: &mut String)
        ensures
            final(s)@ == old(s)@ + entry_tail(*self),
    {
        s.append("\n    len:        ");
        push_decimal(s, self.len);
        s.append("\n    created:    ");
        let created = self.created.to_string();
        s.append(created.as_str());
        s.append("\n    modified:   ");
        let modified = self.modified.to_string();
        s.append(modified.as_str());
        s.append("\n    cluster:    ");
        push_decimal(s, self.cluster);
        s.append("\n    dir_entry:  ");
        push_decimal(s, self.dir_entry);
        s.append("\n    mode:       ");
        let mode = self.mode_string();
        s.append(mode.as_str());
        s.append("\n    attr:       ");
        push_decimal(s, self.attr);
        assert(s@ =~= old(s)@ + entry_tail(*self));
    }
}

/// The description of an entry ([`Entry::to_string`]) starts with its name
/// in quotes, then a line whose type word is `dir` when the entry is a
/// directory (its mode has `FLAG_DIRECTORY`, 0x0020), and `file` otherwise.
pub proof fn lemma_description_type_line(e: Entry)
    ensures
        ({
            let t = entry_text(e);
            let k: int = entry_name(e).len() as int + 19;
            &&& t.len() > k + 4
            &&& t[0] == '\''
            &&& t[k - 18] == '\''
            &&& t[k - 1] == ' '
            &&& e.mode & 0x0020 != 0 ==> t[k] == 'd' && t[k + 1] == 'i' && t[k + 2] == 'r' && t[k + 3] == '\n'
            &&& e.mode & 0x0020 == 0 ==> t[k] == 'f' && t[k + 1] == 'i' && t[k + 2] == 'l' && t[k + 3] == 'e'
                && t[k + 4] == '\n'
        }),
{
    reveal_strlit("'");
    reveal_strlit("'\n    type:       ");
    reveal_strlit("dir");
    reveal_strlit("file");
    reveal_strlit("\n    len:        ");
    let h = entry_head(e);
    let tail = entry_tail(e);
    assert(tail[0] == '\n');
    assert(tail.len() > 0);
}

} // verus!
