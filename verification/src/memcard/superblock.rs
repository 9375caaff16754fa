use vstd::prelude::*;

use crate::memcard::page::Page;
use crate::memcard::MemcardError;
use crate::reader::ByteReader;
use crate::util::{consumed, read_u16, read_u32, read_u8};

verus! {

/// The card's first page: format, geometry and the root of the file
/// allocation table.
#[derive(Debug, Clone, Copy)]
pub struct Superblock {
    pub magic: [u8; 28],
    pub version: [u8; 12],
    pub page_len: u16,
    pub pages_per_cluster: u16,
    pub pages_per_block: u16,
    pub unused_0x2e: [u8; 2],
    pub clusters_total: u32,
    pub alloc_start: u32,
    pub alloc_end: u32,
    pub rootdir_cluster: u32,
    pub backup_block1: u32,
    pub backup_block2: u32,
    pub unused_0x48: [u8; 8],
    /// Standard 8mb card uses only one indirect table.
    pub ind_fat_table: [u32; 32],
    pub bad_block_table: [u32; 32],
    pub card_type: u8,
    pub card_flags: u8,
    pub unused_0x152: [u8; 2],
    pub unk_0x0154: [u8; 172],
}

/// "Sony PS2 Memory Card Format ".
pub open spec fn superblock_magic() -> Seq<u8> {
    seq![
        0x53, 0x6f, 0x6e, 0x79, 0x20, 0x50, 0x53, 0x32, 0x20, 0x4d, 0x65, 0x6d, 0x6f, 0x72,
        0x79, 0x20, 0x43, 0x61, 0x72, 0x64, 0x20, 0x46, 0x6f, 0x72, 0x6d, 0x61, 0x74, 0x20,
    ]
}

/// "1.2.0.0" padded with NULs to 12 bytes.
pub open spec fn superblock_version() -> Seq<u8> {
    seq![0x31, 0x2e, 0x32, 0x2e, 0x30, 0x2e, 0x30, 0x00, 0x00, 0x00, 0x00, 0x00]
}

/// Little-endian `u16` at `off` in `b`.
pub open spec fn u16_at(b: Seq<u8>, off: int) -> u16 {
    (b[off] as int + b[off + 1] as int * 0x100) as u16
}

/// Little-endian `u32` at `off` in `b`.
pub open spec fn u32_at(b: Seq<u8>, off: int) -> u32 {
    (b[off] as int + b[off + 1] as int * 0x100 + b[off + 2] as int * 0x1_0000 + b[off + 3] as int
        * 0x100_0000) as u32
}

/// `s` is the superblock stored in the first 512 bytes of `b`.
pub open spec fn superblock_from_bytes(s: Superblock, b: Seq<u8>) -> bool {
    &&& s.magic@ == b.subrange(0, 28)
    &&& s.version@ == b.subrange(28, 40)
    &&& s.page_len == u16_at(b, 40)
    &&& s.pages_per_cluster == u16_at(b, 42)
    &&& s.pages_per_block == u16_at(b, 44)
    &&& s.unused_0x2e@ == b.subrange(46, 48)
    &&& s.clusters_total == u32_at(b, 48)
    &&& s.alloc_start == u32_at(b, 52)
    &&& s.alloc_end == u32_at(b, 56)
    &&& s.rootdir_cluster == u32_at(b, 60)
    &&& s.backup_block1 == u32_at(b, 64)
    &&& s.backup_block2 == u32_at(b, 68)
    &&& s.unused_0x48@ == b.subrange(72, 80)
    &&& forall|k: int| 0 <= k < 32 ==> #[trigger] s.ind_fat_table@[k] == u32_at(b, 80 + 4 * k)
    &&& forall|k: int| 0 <= k < 32 ==> #[trigger] s.bad_block_table@[k] == u32_at(b, 208 + 4 * k)
    &&& s.card_type == b[336]
    &&& s.card_flags == b[337]
    &&& s.unused_0x152@ == b.subrange(338, 340)
    &&& s.unk_0x0154@ == b.subrange(340, 512)
}

/// Only the first 512 bytes matter.
pub proof fn lemma_superblock_from_prefix(s: Superblock, b: Seq<u8>, c: Seq<u8>)
    requires
        b.len() >= 512,
        c.len() >= 512,
        b.take(512) == c.take(512),
        superblock_from_bytes(s, b),
    ensures
        superblock_from_bytes(s, c),
{
    assert forall|i: int| 0 <= i < 512 implies b[i] == c[i] by {
        assert(b.take(512)[i] == b[i]);
        assert(c.take(512)[i] == c[i]);
    }
    assert(b.subrange(0, 28) =~= c.subrange(0, 28));
    assert(b.subrange(28, 40) =~= c.subrange(28, 40));
    assert(b.subrange(46, 48) =~= c.subrange(46, 48));
    assert(b.subrange(72, 80) =~= c.subrange(72, 80));
    assert(b.subrange(338, 340) =~= c.subrange(338, 340));
    assert(b.subrange(340, 512) =~= c.subrange(340, 512));
    assert forall|k: int| 0 <= k < 32 implies #[trigger] s.ind_fat_table@[k] == u32_at(
        c,
        80 + 4 * k,
    ) by {
        assert(b[80 + 4 * k] == c[80 + 4 * k]);
        assert(b[81 + 4 * k] == c[81 + 4 * k]);
        assert(b[82 + 4 * k] == c[82 + 4 * k]);
        assert(b[83 + 4 * k] == c[83 + 4 * k]);
    }
    assert forall|k: int| 0 <= k < 32 implies #[trigger] s.bad_block_table@[k] == u32_at(
        c,
        208 + 4 * k,
    ) by {
        assert(b[208 + 4 * k] == c[208 + 4 * k]);
        assert(b[209 + 4 * k] == c[209 + 4 * k]);
        assert(b[210 + 4 * k] == c[210 + 4 * k]);
        assert(b[211 + 4 * k] == c[211 + 4 * k]);
    }
}

/// The verdict of [`Superblock::validate`]: the first field that differs
/// from a formatted standard 8 MB card decides the error.
pub open spec fn superblock_status(s: Superblock) -> Result<(), MemcardError> {
    if s.magic@ != superblock_magic() {
        Err(MemcardError::InvalidMagic)
    } else if s.version@ != superblock_version() {
        Err(MemcardError::InvalidVersion)
    } else if s.rootdir_cluster != 0 {
        Err(MemcardError::InvalidRootdirCluster)
    } else if s.card_type != 2 {
        Err(MemcardError::InvalidType)
    } else if s.page_len != 512 {
        Err(MemcardError::UnsupportedPageLen(s.page_len))
    } else if s.pages_per_cluster != 2 {
        Err(MemcardError::UnsupportedPagesPerCluster(s.pages_per_cluster))
    } else if s.pages_per_block != 16 {
        Err(MemcardError::UnsupportedPagesPerBlock(s.pages_per_block))
    } else if s.clusters_total != 8192 {
        Err(MemcardError::UnsupportedClustersTotal(s.clusters_total))
    } else {
        Ok(())
    }
}

fn bytes_equal(a: &[u8], b: &[u8]) -> (r: bool)
    ensures
        r == (a@ == b@),
{
    if a.len() != b.len() {
        return false;
    }
    let mut i: usize = 0;
    while i < a.len()
        invariant
            i <= a@.len(),
            a@.len() == b@.len(),
            forall|j: int| 0 <= j < i ==> a@[j] == b@[j],
        decreases a@.len() - i,
    {
        if a[i] != b[i] {
            return false;
        }
        i = i + 1;
    }
    assert(a@ =~= b@);
    true
}

fn read_u32_array(reader: &mut ByteReader) -> (res: Result<[u32; 32], MemcardError>)
    ensures
        res is Ok <==> old(reader)@.len() >= 128,
        res matches Ok(a) ==> {
            &&& forall|k: int| 0 <= k < 32 ==> #[trigger] a@[k] == u32_at(old(reader)@, 4 * k)
            &&& consumed(old(reader)@, final(reader)@, 128)
        },
        res is Err ==> res->Err_0 is Io,
{
    let ghost b = reader@;
    let mut a = [0u32; 32];
    let mut i: usize = 0;
    while i < 32
        invariant
            i <= 32,
            b == old(reader)@,
            4 * i <= b.len(),
            reader@ == b.skip(4 * i),
            forall|k: int| 0 <= k < i ==> #[trigger] a@[k] == u32_at(b, 4 * k),
        decreases 32 - i,
    {
        let v = match read_u32(reader) {
            Ok(v) => v,
            Err(e) => {
                assert(b.len() < 128);
                return Err(e);
            },
        };
        proof {
            assert(b.skip(4 * i).skip(4) =~= b.skip(4 * (i + 1)));
        }
        a[i] = v;
        i = i + 1;
    }
    Ok(a)
}

impl Default for Superblock {
    fn default() -> (s: Self)
        ensures
            s.page_len == 0 && s.pages_per_cluster == 0 && s.pages_per_block == 0,
            s.clusters_total == 0 && s.alloc_start == 0 && s.alloc_end == 0,
            s.rootdir_cluster == 0 && s.backup_block1 == 0 && s.backup_block2 == 0,
            s.card_type == 0 && s.card_flags == 0,
            forall|k: int| 0 <= k < 28 ==> s.magic@[k] == 0,
            forall|k: int| 0 <= k < 12 ==> s.version@[k] == 0,
            forall|k: int| 0 <= k < 32 ==> s.ind_fat_table@[k] == 0 && s.bad_block_table@[k] == 0,
            forall|k: int| 0 <= k < 2 ==> s.unused_0x2e@[k] == 0 && s.unused_0x152@[k] == 0,
            forall|k: int| 0 <= k < 8 ==> s.unused_0x48@[k] == 0,
            forall|k: int| 0 <= k < 172 ==> s.unk_0x0154@[k] == 0,
    {
        Superblock {
            magic: [0; 28],
            version: [0; 12],
            page_len: 0,
            pages_per_cluster: 0,
            pages_per_block: 0,
            unused_0x2e: [0; 2],
            clusters_total: 0,
            alloc_start: 0,
            alloc_end: 0,
            rootdir_cluster: 0,
            backup_block1: 0,
            backup_block2: 0,
            unused_0x48: [0; 8],
            ind_fat_table: [0; 32],
            bad_block_table: [0; 32],
            card_type: 0,
            card_flags: 0,
            unused_0x152: [0; 2],
            unk_0x0154: [0; 172],
        }
    }
}

impl Superblock {
    /// Reads the superblock from a page's data.
    pub fn from_page(page: &Page) -> (res: Result<Self, MemcardError>)
        ensures
            res matches Ok(s) && superblock_from_bytes(s, page.raw@),
    {
        let mut reader = ByteReader::new(page.raw.as_slice());
        Self::read(&mut reader)
    }

    /// Reads the 512 bytes of a superblock.
    #[verifier::rlimit(60)]
    pub fn read(reader: &mut ByteReader) -> (res: Result<Self, MemcardError>)
        ensures
            res is Ok <==> old(reader)@.len() >= 512,
            res matches Ok(s) ==> superblock_from_bytes(s, old(reader)@) && consumed(
                old(reader)@,
                final(reader)@,
                512,
            ),
            res is Err ==> res->Err_0 is Io,
    {
        let ghost b = reader@;
        let mut magic = [0u8; 28];
        reader.read_exact(&mut magic)?;
        let mut version = [0u8; 12];
        reader.read_exact(&mut version)?;
        let page_len = read_u16(reader)?;
        let pages_per_cluster = read_u16(reader)?;
        let pages_per_block = read_u16(reader)?;
        let mut unused_0x2e = [0u8; 2];
        reader.read_exact(&mut unused_0x2e)?;
        let clusters_total = read_u32(reader)?;
        let alloc_start = read_u32(reader)?;
        let alloc_end = read_u32(reader)?;
        let rootdir_cluster = read_u32(reader)?;
        let backup_block1 = read_u32(reader)?;
        let backup_block2 = read_u32(reader)?;
        let mut unused_0x48 = [0u8; 8];
        reader.read_exact(&mut unused_0x48)?;
        let ghost at_ind = reader@;
        let ind_fat_table = read_u32_array(reader)?;
        let ghost at_bad = reader@;
        let bad_block_table = read_u32_array(reader)?;
        let card_type = read_u8(reader)?;
        let card_flags = read_u8(reader)?;
        let mut unused_0x152 = [0u8; 2];
        reader.read_exact(&mut unused_0x152)?;
        let mut unk_0x0154 = [0u8; 172];
        reader.read_exact(&mut unk_0x0154)?;
        let s = Superblock {
            magic,
            version,
            page_len,
            pages_per_cluster,
            pages_per_block,
            unused_0x2e,
            clusters_total,
            alloc_start,
            alloc_end,
            rootdir_cluster,
            backup_block1,
            backup_block2,
            unused_0x48,
            ind_fat_table,
            bad_block_table,
            card_type,
            card_flags,
            unused_0x152,
            unk_0x0154,
        };
        proof {
            assert(reader@ =~= b.skip(512));
            assert(magic@ =~= b.subrange(0, 28));
            assert(version@ =~= b.subrange(28, 40));
            assert(unused_0x2e@ =~= b.subrange(46, 48));
            assert(unused_0x48@ =~= b.subrange(72, 80));
            assert(unused_0x152@ =~= b.subrange(338, 340));
            assert(unk_0x0154@ =~= b.subrange(340, 512));
            assert(at_ind =~= b.skip(80));
            assert(at_bad =~= b.skip(208));
            assert forall|k: int| 0 <= k < 32 implies #[trigger] ind_fat_table@[k] == u32_at(
                b,
                80 + 4 * k,
            ) by {
                assert(at_ind[4 * k] == b[80 + 4 * k]);
                assert(at_ind[4 * k + 1] == b[81 + 4 * k]);
                assert(at_ind[4 * k + 2] == b[82 + 4 * k]);
                assert(at_ind[4 * k + 3] == b[83 + 4 * k]);
            }
            assert forall|k: int| 0 <= k < 32 implies #[trigger] bad_block_table@[k] == u32_at(
                b,
                208 + 4 * k,
            ) by {
                assert(at_bad[4 * k] == b[208 + 4 * k]);
                assert(at_bad[4 * k + 1] == b[209 + 4 * k]);
                assert(at_bad[4 * k + 2] == b[210 + 4 * k]);
                assert(at_bad[4 * k + 3] == b[211 + 4 * k]);
            }
        }
        Ok(s)
    }

    /// Checks that this is a formatted standard 8 MB card: magic, version,
    /// root directory cluster, card type, then page length, pages per
    /// cluster, pages per block and cluster count, in that order.
    pub fn validate(&self) -> (res: Result<(), MemcardError>)
        ensures
            res == superblock_status(*self),
    {
        let magic: [u8; 28] = [
            0x53, 0x6f, 0x6e, 0x79, 0x20, 0x50, 0x53, 0x32, 0x20, 0x4d, 0x65, 0x6d, 0x6f, 0x72,
            0x79, 0x20, 0x43, 0x61, 0x72, 0x64, 0x20, 0x46, 0x6f, 0x72, 0x6d, 0x61, 0x74, 0x20,
        ];
        let version: [u8; 12] = [0x31, 0x2e, 0x32, 0x2e, 0x30, 0x2e, 0x30, 0, 0, 0, 0, 0];
        assert(magic@ =~= superblock_magic());
        assert(version@ =~= superblock_version());
        if !bytes_equal(self.magic.as_slice(), magic.as_slice()) {
            return Err(MemcardError::InvalidMagic);
        }
        if !bytes_equal(self.version.as_slice(), version.as_slice()) {
            return Err(MemcardError::InvalidVersion);
        }
        if self.rootdir_cluster != 0 {
            return Err(MemcardError::InvalidRootdirCluster);
        }
        if self.card_type != 2 {
            return Err(MemcardError::InvalidType);
        }
        if self.page_len != 512 {
            return Err(MemcardError::UnsupportedPageLen(self.page_len));
        }
        if self.pages_per_cluster != 2 {
            return Err(MemcardError::UnsupportedPagesPerCluster(self.pages_per_cluster));
        }
        if self.pages_per_block != 16 {
            return Err(MemcardError::UnsupportedPagesPerBlock(self.pages_per_block));
        }
        if self.clusters_total != 8192 {
            return Err(MemcardError::UnsupportedClustersTotal(self.clusters_total));
        }
        Ok(())
    }
}

} // verus!
