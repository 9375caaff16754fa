pub mod block;
pub mod directory;
pub mod dump;
pub mod entry;
pub mod error;
pub mod fat;
pub mod icon_sys;
pub mod page;
pub mod save_icon;
pub mod save_preview;
pub mod superblock;
pub mod timestamp;

pub use block::Block;
pub use directory::Directory;
pub use dump::DumpStep;
pub use entry::Entry;
pub use error::MemcardError;
pub use fat::Fat;
pub use icon_sys::{IconSys, Vec4};
pub use page::Page;
pub use save_icon::{SaveIcon, Vertex, VertexCoord};
pub use save_preview::SavePreview;
pub use superblock::Superblock;
pub use timestamp::Timestamp;

use vstd::prelude::*;

use crate::memcard::fat::{
    fat_new_possible,
    chain_cluster, chain_ends, chain_outcome, chain_within, fat_from_pages, fat_new_ok,
    fat_table_values, ind_table_values, lemma_chain_distinct, lemma_chain_outcome, lemma_chain_shape,
    lemma_next_cluster_range, lemma_two_page_values, next_cluster, page_values, prepend_chain,
};
use crate::memcard::page::page_from_bytes;
use crate::util::{i32_at, le_i32, u16_from, u32_from};
use crate::memcard::directory::{dir_header_ok, directory_from_bytes, entry_len_field};
use crate::memcard::superblock::{lemma_superblock_from_prefix, superblock_from_bytes, superblock_status};
use crate::reader::ByteReader;

verus! {

/// A memory card image: its superblock and all its bytes, pages with their
/// ECC one after the other.
#[derive(Debug, Clone)]
pub struct MemoryCard {
    pub superblock: Superblock,
    pub data: Vec<u8>,
}

impl MemoryCard {
    pub const DEFAULT_PAGE_LEN: u16 = 512;
    pub const DEFAULT_PAGES_PER_CLUSTER: u16 = 2;
    pub const DEFAULT_PAGES_PER_BLOCK: u16 = 16;
    pub const DEFAULT_CLUSTERS_TOTAL: u32 = 8192;

    /// Page `i` lies wholly inside the image.
    pub open spec fn page_ok(&self, i: int) -> bool {
        0 <= i && i * 528 + 512 <= self.data@.len()
    }

    /// The 512 data bytes of page `i` (without ECC).
    pub open spec fn page_bytes(&self, i: int) -> Seq<u8> {
        self.data@.subrange(i * 528, i * 528 + 512)
    }

    /// Opens a card image held in memory: reads and validates its superblock.
    pub fn new(data: Vec<u8>) -> (res: Result<Self, MemcardError>)
        ensures
            data@.len() < 512 ==> (res matches Err(e) && e is Io),
            data@.len() >= 512 ==> match res {
                Ok(card) => card.data@ == data@ && superblock_from_bytes(card.superblock, data@)
                    && superblock_status(card.superblock) is Ok,
                Err(e) => exists|s: Superblock|
                    superblock_from_bytes(s, data@) && superblock_status(s) == Err::<
                        (),
                        MemcardError,
                    >(e),
            },
    {
        let superblock = {
            let mut reader = ByteReader::new(data.as_slice());
            Superblock::read(&mut reader)?
        };
        superblock.validate()?;
        Ok(Self { superblock, data })
    }

    /// Reads a card image from `reader`: the first page holds the
    /// superblock, which must describe a standard 8 MB card; then the rest of
    /// its 16384 pages (with ECC) are read.
    pub fn read(reader: &mut ByteReader) -> (res: Result<Self, MemcardError>)
        ensures
            old(reader)@.len() < 528 ==> (res matches Err(e) && e is Io),
            old(reader)@.len() >= 528 ==> {
                let s = choose|s: Superblock| superblock_from_bytes(s, old(reader)@);
                &&& superblock_status(s) is Err ==> (res matches Err(e) && superblock_status(s)
                    == Err::<(), MemcardError>(e))
                &&& superblock_status(s) is Ok ==> if old(reader)@.len() < 16384 * 528 {
                    (res matches Err(e) && e is Io)
                } else {
                    (res matches Ok(card) && card.superblock == s && card.data@ == old(
                        reader,
                    )@.take(16384 * 528int) && final(reader)@ == old(reader)@.skip(16384 * 528int))
                }
            },
            res matches Ok(card) ==> superblock_from_bytes(card.superblock, old(reader)@),
    {
        let ghost b = reader@;
        let page0 = Page::read(reader)?;
        let superblock = Superblock::from_page(&page0)?;
        proof {
            let s = choose|s: Superblock| superblock_from_bytes(s, b);
            assert(page0.raw@.take(512) =~= b.take(512));
            lemma_superblock_from_prefix(superblock, page0.raw@, b);
            lemma_superblock_unique(s, superblock, b);
        }
        superblock.validate()?;
        let num_pages = superblock.pages_per_cluster as usize * superblock.clusters_total as usize;
        let mut data: Vec<u8> = Vec::new();
        push_bytes(&mut data, page0.raw.as_slice());
        push_bytes(&mut data, page0.ecc.as_slice());
        proof {
            assert(data@ =~= b.take(528));
        }
        let mut i: usize = 1;
        while i < num_pages
            invariant
                1 <= i <= num_pages,
                num_pages == 16384,
                superblock == choose|s: Superblock| superblock_from_bytes(s, b),
                superblock_from_bytes(superblock, b),
                superblock_status(superblock) is Ok,
                b == old(reader)@,
                528 * i <= b.len(),
                reader@ == b.skip(528 * i),
                data@ == b.take(528 * i),
            decreases num_pages - i,
        {
            let page = match Page::read(reader) {
                Ok(p) => p,
                Err(e) => {
                    assert(b.len() < 16384 * 528);
                    return Err(e);
                },
            };
            push_bytes(&mut data, page.raw.as_slice());
            push_bytes(&mut data, page.ecc.as_slice());
            proof {
                assert(b.skip(528 * i).skip(528) =~= b.skip(528 * (i + 1)));
                assert(data@ =~= b.take(528 * (i + 1)));
            }
            i = i + 1;
        }
        Ok(Self { superblock, data })
    }

    /// Size of a page in bytes.
    pub fn page_len(&self) -> (n: usize)
        ensures
            n == self.superblock.page_len,
    {
        self.superblock.page_len as usize
    }

    /// Size of a cluster in bytes.
    pub fn cluster_len(&self) -> (n: usize)
        ensures
            n == self.superblock.page_len * self.superblock.pages_per_cluster,
    {
        proof {
            assert(self.superblock.page_len * self.superblock.pages_per_cluster <= 0xffff * 0xffff)
                by (nonlinear_arith);
        }
        self.page_len() * self.pages_per_cluster()
    }

    /// Number of pages in a cluster.
    pub fn pages_per_cluster(&self) -> (n: usize)
        ensures
            n == self.superblock.pages_per_cluster,
    {
        self.superblock.pages_per_cluster as usize
    }

    /// Offset of page `page_index` in the image (pages are 512 bytes of data
    /// and 16 of ECC).
    pub fn page_off(&self, page_index: usize) -> (off: usize)
        requires
            page_index * 528 <= usize::MAX,
        ensures
            off == page_index * 528,
    {
        page_index * (512 + 16)
    }

    /// Offset of cluster `index` in the image (two pages per cluster).
    pub fn cluster_off(&self, index: usize) -> (off: usize)
        requires
            index * 1056 <= usize::MAX,
        ensures
            off == index * 1056,
    {
        assert(index * 528 <= index * 1056) by (nonlinear_arith)
            requires
                index >= 0,
        ;
        index * (512 + 16) * 2
    }

    /// The 512 data bytes of page `index`.
    pub fn page(&self, index: usize) -> (p: &[u8])
        requires
            self.page_ok(index as int),
        ensures
            p@ == self.page_bytes(index as int),
    {
        assert(self.data@.len() == self.data.len());
        let off = self.page_off(index);
        vstd::slice::slice_subrange(self.data.as_slice(), off, off + 512)
    }
}

/// Two superblocks read from the same bytes are the same.
pub proof fn lemma_superblock_unique(s1: Superblock, s2: Superblock, b: Seq<u8>)
    requires
        superblock_from_bytes(s1, b),
        superblock_from_bytes(s2, b),
    ensures
        s1 == s2,
{
    assert(s1.magic =~= s2.magic);
    assert(s1.version =~= s2.version);
    assert(s1.unused_0x2e =~= s2.unused_0x2e);
    assert(s1.unused_0x48 =~= s2.unused_0x48);
    assert(s1.ind_fat_table =~= s2.ind_fat_table);
    assert(s1.bad_block_table =~= s2.bad_block_table);
    assert(s1.unused_0x152 =~= s2.unused_0x152);
    assert(s1.unk_0x0154 =~= s2.unk_0x0154);
}

/// Appends `bytes` to `v`.
fn push_bytes(v: &mut Vec<u8>, bytes: &[u8])
    ensures
        final(v)@ == old(v)@ + bytes@,
{
    let mut i: usize = 0;
    while i < bytes.len()
        invariant
            i <= bytes@.len(),
            v@ == old(v)@ + bytes@.take(i as int),
        decreases bytes@.len() - i,
    {
        v.push(bytes[i]);
        i = i + 1;
        assert(v@ =~= old(v)@ + bytes@.take(i as int));
    }
    assert(bytes@.take(i as int) =~= bytes@);
}


impl MemoryCard {
    /// Pages per cluster, as an integer.
    pub open spec fn ppc(&self) -> int {
        self.superblock.pages_per_cluster as int
    }

    /// The page of the indirect FAT table that holds the entry for `cluster`.
    pub open spec fn ind_page_index(&self, cluster: usize) -> int {
        self.superblock.ind_fat_table@[0] as int * self.ppc() + if cluster / 256 >= 128 {
            1int
        } else {
            0int
        }
    }

    /// The indirect FAT entry for `cluster` can be read.
    pub open spec fn ind_value_ok(&self, cluster: usize) -> bool {
        self.page_ok(self.ind_page_index(cluster))
    }

    /// The indirect FAT entry for `cluster`: the cluster of the FAT table
    /// that holds its value.
    pub open spec fn ind_value(&self, cluster: usize) -> i32 {
        let off = (cluster / 256) % 128 * 4;
        le_i32(self.page_bytes(self.ind_page_index(cluster)).subrange(off, off + 4))
    }

    /// The page of the FAT table that holds the value for `cluster`.
    pub open spec fn fat_page_index(&self, cluster: usize) -> int {
        (self.ind_value(cluster) as usize) as int * self.ppc() + if cluster % 256 >= 128 {
            1int
        } else {
            0int
        }
    }

    /// The FAT value of `cluster` can be read.
    pub open spec fn fat_value_ok(&self, cluster: usize) -> bool {
        &&& self.ind_value_ok(cluster)
        &&& self.page_ok(self.fat_page_index(cluster))
    }

    /// The FAT value of `cluster`.
    pub open spec fn fat_value_spec(&self, cluster: usize) -> i32 {
        let off = (cluster % 256) % 128 * 4;
        le_i32(self.page_bytes(self.fat_page_index(cluster)).subrange(off, off + 4))
    }

    pub open spec fn value_fn(&self) -> spec_fn(usize) -> i32 {
        |c: usize| self.fat_value_spec(c)
    }

    pub open spec fn defined_fn(&self) -> spec_fn(usize) -> bool {
        |c: usize| self.fat_value_ok(c)
    }

    /// The chain from `cluster` ends (at the end marker or at a free
    /// cluster) without reaching an unreadable FAT entry.
    pub open spec fn fat_chain_ends(&self, cluster: usize) -> bool {
        chain_ends(self.value_fn(), self.defined_fn(), cluster)
    }

    /// The outcome of following the chain from `cluster`.
    pub open spec fn fat_chain_result(&self, cluster: usize) -> Result<Seq<i32>, ()> {
        chain_outcome(self.value_fn(), self.defined_fn(), cluster)
    }

    /// First page of cluster `index` (relative to the allocation start).
    pub open spec fn cluster_first_page(&self, index: usize) -> int {
        (index as int + self.superblock.alloc_start as int) * 2
    }

    /// Cluster `index` lies wholly inside the image.
    pub open spec fn read_cluster_ok(&self, index: usize) -> bool {
        &&& self.cluster_first_page(index) + self.ppc() <= usize::MAX
        &&& self.ppc() > 0 ==> self.page_ok(self.cluster_first_page(index) + self.ppc() - 1)
    }

    /// The data bytes of `n` consecutive pages from `start`.
    pub open spec fn pages_concat(&self, start: int, n: nat) -> Seq<u8>
        decreases n,
    {
        if n == 0 {
            Seq::empty()
        } else {
            self.pages_concat(start, (n - 1) as nat) + self.page_bytes(start + n - 1)
        }
    }

    /// The data bytes of cluster `index`.
    pub open spec fn cluster_bytes(&self, index: usize) -> Seq<u8> {
        self.pages_concat(self.cluster_first_page(index), self.ppc() as nat)
    }

    /// The data bytes of the clusters of a chain, in order.
    pub open spec fn chain_bytes(&self, chain: Seq<i32>) -> Seq<u8>
        decreases chain.len(),
    {
        if chain.len() == 0 {
            Seq::empty()
        } else {
            self.chain_bytes(chain.drop_last()) + self.cluster_bytes(chain.last() as usize)
        }
    }

    /// Reading the entry that starts at `cluster` does not fail on a bound:
    /// its chain ends, and every cluster of a chain that was found lies in
    /// the image.
    pub open spec fn read_entry_ok(&self, cluster: usize) -> bool {
        &&& self.fat_chain_ends(cluster)
        &&& self.fat_chain_result(cluster) matches Ok(s) ==> forall|k: int|
            0 <= k < s.len() ==> #[trigger] self.read_cluster_ok(s[k] as usize)
    }

    /// The bytes of the entry that starts at `cluster`, where its chain was
    /// found.
    pub open spec fn entry_data(&self, cluster: usize) -> Seq<u8> {
        self.chain_bytes(self.fat_chain_result(cluster)->Ok_0)
    }

    /// The cluster of the indirect FAT table.
    pub fn indirect_fat_cluster(&self) -> (c: usize)
        ensures
            c == self.superblock.ind_fat_table@[0],
    {
        self.superblock.ind_fat_table[0] as usize
    }

    /// The indirect FAT entry for `cluster`: which cluster holds the FAT
    /// table with its value.
    pub fn fat_indirect_value(&self, cluster: usize) -> (v: i32)
        requires
            self.ind_value_ok(cluster),
        ensures
            v == self.ind_value(cluster),
    {
        let index = cluster / 0x100;
        proof {
            assert(self.data@.len() == self.data.len());
            let p = self.superblock.ind_fat_table@[0] as int * self.ppc();
            assert(p * 528 <= usize::MAX);
            assert(p <= p * 528) by (nonlinear_arith)
                requires
                    p >= 0,
            ;
        }
        let page_index = self.indirect_fat_cluster() * self.pages_per_cluster() + if index >= 0x80 {
            1
        } else {
            0
        };
        let byte_off = (index % 0x80) * 4;
        i32_at(self.page(page_index), byte_off)
    }

    /// The FAT value of `cluster`: -1 for the last cluster of a chain, a
    /// negative link (top bit set) to the next cluster, or a free cluster.
    pub fn fat_value(&self, cluster: usize) -> (v: i32)
        requires
            self.fat_value_ok(cluster),
        ensures
            v == self.fat_value_spec(cluster),
    {
        let table_cluster = self.fat_indirect_value(cluster) as usize;
        let index = cluster & 0xff;
        proof {
            assert(cluster & 0xff == cluster % 256) by (bit_vector);
            assert(self.data@.len() == self.data.len());
            let p = table_cluster as int * self.ppc();
            assert(p * 528 <= usize::MAX);
            assert(p <= p * 528) by (nonlinear_arith)
                requires
                    p >= 0,
            ;
        }
        let page_index = table_cluster * self.pages_per_cluster() + if index >= 0x80 {
            1
        } else {
            0
        };
        let page = self.page(page_index);
        let byte_off = (index % 0x80) * 4;
        i32_at(page, byte_off)
    }

    /// The whole chain of clusters starting at `cluster`: each cluster's
    /// FAT value links to the next, until the end marker (-1). A cluster
    /// whose FAT value is positive (free) in the chain is an error.
    pub fn fat_chain(&self, cluster: usize) -> (res: Result<Vec<i32>, MemcardError>)
        requires
            self.fat_chain_ends(cluster),
        ensures
            res is Ok <==> self.fat_chain_result(cluster) is Ok,
            res matches Ok(v) ==> self.fat_chain_result(cluster) == Ok::<Seq<i32>, ()>(v@),
            res matches Err(e) ==> e is FreeClusterAllocated,
    {
        let ghost value = self.value_fn();
        let ghost defined = self.defined_fn();
        let ghost n = choose|n: nat| #[trigger] chain_within(value, defined, cluster, n) is Some;
        proof {
            lemma_chain_outcome(value, defined, cluster, n);
        }
        let mut chain: Vec<i32> = Vec::new();
        let mut c = cluster;
        let ghost mut fuel: nat = n;
        loop
            invariant
                value == self.value_fn(),
                defined == self.defined_fn(),
                chain_within(value, defined, c, fuel) is Some,
                Some(self.fat_chain_result(cluster)) == prepend_chain(
                    chain@,
                    chain_within(value, defined, c, fuel),
                ),
            decreases fuel,
        {
            let ghost before = chain@;
            chain.push(c as i32);
            let mut next = self.fat_value(c);
            if next == -1 {
                assert(chain@ =~= before + seq![c as i32]);
                return Ok(chain);
            }
            if next > 0 {
                return Err(MemcardError::FreeClusterAllocated);
            }
            next = next & 0x7fff_ffff;
            proof {
                lemma_next_cluster_range(self.fat_value_spec(c));
                let r = chain_within(value, defined, next_cluster(self.fat_value_spec(c)), (fuel - 1) as nat);
                match r {
                    Some(Ok(rest)) => {
                        assert(before + (seq![c as i32] + rest) =~= chain@ + rest);
                    },
                    _ => {},
                }
                fuel = (fuel - 1) as nat;
            }
            c = next as usize;
        }
    }

    /// The data bytes of cluster `index` (relative to the allocation start):
    /// its pages without their ECC, one after the other.
    pub fn read_cluster(&self, index: usize) -> (v: Vec<u8>)
        requires
            self.read_cluster_ok(index),
        ensures
            v@ == self.cluster_bytes(index),
    {
        let absolute = index + self.superblock.alloc_start as usize;
        let num_pages = self.pages_per_cluster();
        let mut vec: Vec<u8> = Vec::new();
        let start_page = absolute * 2;
        let mut p = start_page;
        while p < start_page + num_pages
            invariant
                start_page <= p <= start_page + num_pages,
                start_page == self.cluster_first_page(index),
                num_pages == self.ppc(),
                self.read_cluster_ok(index),
                vec@ == self.pages_concat(start_page as int, (p - start_page) as nat),
            decreases start_page + num_pages - p,
        {
            let ghost before = vec@;
            push_bytes(&mut vec, self.page(p));
            p = p + 1;
            assert(vec@ == self.pages_concat(start_page as int, (p - start_page) as nat));
        }
        vec
    }

    /// The data of the entry whose chain starts at `cluster`: its clusters'
    /// bytes in chain order.
    pub fn read_entry(&self, cluster: usize) -> (res: Result<Vec<u8>, MemcardError>)
        requires
            self.read_entry_ok(cluster),
        ensures
            res is Ok <==> self.fat_chain_result(cluster) is Ok,
            res matches Ok(v) ==> v@ == self.entry_data(cluster),
            res matches Err(e) ==> e is FreeClusterAllocated,
    {
        let fat_chain = self.fat_chain(cluster)?;
        let mut vec: Vec<u8> = Vec::new();
        let mut k: usize = 0;
        while k < fat_chain.len()
            invariant
                k <= fat_chain@.len(),
                self.read_entry_ok(cluster),
                self.fat_chain_result(cluster) == Ok::<Seq<i32>, ()>(fat_chain@),
                vec@ == self.chain_bytes(fat_chain@.take(k as int)),
            decreases fat_chain@.len() - k,
        {
            proof {
                let s = self.fat_chain_result(cluster)->Ok_0;
                assert(s == fat_chain@);
                assert(self.read_cluster_ok(s[k as int] as usize));
            }
            let mut c = self.read_cluster(fat_chain[k] as usize);
            vec.append(&mut c);
            k = k + 1;
            assert(fat_chain@.take(k as int).drop_last() =~= fat_chain@.take(k - 1));
        }
        assert(fat_chain@.take(k as int) =~= fat_chain@);
        Ok(vec)
    }
}


impl MemoryCard {
    /// What reading the root directory needs: its entry can be read, and
    /// where its chain was found the data starts with two directory entries
    /// and the first counts at least those two.
    pub open spec fn root_directory_ok(&self) -> bool {
        let c = self.superblock.rootdir_cluster as usize;
        &&& self.read_entry_ok(c)
        &&& self.fat_chain_result(c) is Ok ==> {
            let b = self.entry_data(c);
            &&& dir_header_ok(b)
            &&& b.len() >= 1024 ==> entry_len_field(b) >= 2
        }
    }

    /// What reading the directory of `entry` needs: its entry data can be
    /// read, and where its chain was found the data starts with two
    /// directory entries and `entry` counts at least those two.
    pub open spec fn directory_ok(&self, entry: Entry) -> bool {
        let c = entry.cluster as usize;
        &&& self.read_entry_ok(c)
        &&& self.fat_chain_result(c) is Ok ==> {
            let b = self.entry_data(c);
            &&& dir_header_ok(b)
            &&& b.len() >= 1024 ==> entry.len >= 2
        }
    }

    fn page_available(&self, i: usize) -> (b: bool)
        ensures
            b == self.page_ok(i as int),
    {
        assert(self.data@.len() == self.data.len());
        match i.checked_mul(528) {
            Some(off) => off <= self.data.len() && self.data.len() - off >= 512,
            None => false,
        }
    }

    fn fat_value_available(&self, cluster: usize) -> (b: bool)
        ensures
            b == self.fat_value_ok(cluster),
    {
        let index = cluster / 0x100;
        let k: usize = if index >= 0x80 {
            1
        } else {
            0
        };
        let ind_page = match self.indirect_fat_cluster().checked_mul(self.pages_per_cluster()) {
            Some(p) => p.checked_add(k),
            None => None,
        };
        let ind_page = match ind_page {
            Some(p) => p,
            None => {
                proof {
                    assert(self.data@.len() == self.data.len());
                    let p = self.superblock.ind_fat_table@[0] as int * self.ppc();
                    assert(p <= p * 528) by (nonlinear_arith)
                        requires
                            p >= 0,
                    ;
                }
                return false;
            },
        };
        if !self.page_available(ind_page) {
            return false;
        }
        let table_cluster = self.fat_indirect_value(cluster) as usize;
        let k2: usize = if cluster & 0xff >= 0x80 {
            1
        } else {
            0
        };
        proof {
            assert(cluster & 0xff == cluster % 256) by (bit_vector);
        }
        let fat_page = match table_cluster.checked_mul(self.pages_per_cluster()) {
            Some(p) => p.checked_add(k2),
            None => None,
        };
        match fat_page {
            Some(p) => self.page_available(p),
            None => {
                proof {
                    assert(self.data@.len() == self.data.len());
                    let p = table_cluster as int * self.ppc();
                    assert(p <= p * 528) by (nonlinear_arith)
                        requires
                            p >= 0,
                    ;
                }
                false
            },
        }
    }

    /// Whether the chain from `cluster` ends (at the end marker or at a free
    /// cluster) within `max_clusters` clusters without reaching an unreadable
    /// FAT entry; where it does, [`MemoryCard::fat_chain`] may be called.
    pub fn fat_chain_ends_within(&self, cluster: usize, max_clusters: usize) -> (b: bool)
        ensures
            b == chain_within(self.value_fn(), self.defined_fn(), cluster, max_clusters as nat) is Some,
            b ==> self.fat_chain_ends(cluster),
    {
        let ghost value = self.value_fn();
        let ghost defined = self.defined_fn();
        let mut c = cluster;
        let mut left = max_clusters;
        loop
            invariant
                value == self.value_fn(),
                defined == self.defined_fn(),
                (chain_within(value, defined, cluster, max_clusters as nat) is Some) == (
                chain_within(value, defined, c, left as nat) is Some),
            decreases left,
        {
            if left == 0 || !self.fat_value_available(c) {
                return false;
            }
            let v = self.fat_value(c);
            if v == -1 || v > 0 {
                proof {
                    lemma_chain_outcome(value, defined, c, left as nat);
                    if chain_within(value, defined, cluster, max_clusters as nat) is Some {
                        lemma_chain_outcome(value, defined, cluster, max_clusters as nat);
                    }
                }
                return true;
            }
            proof {
                lemma_next_cluster_range(v);
            }
            c = (v & 0x7fff_ffff) as usize;
            left = left - 1;
        }
    }

    fn read_cluster_available(&self, index: usize) -> (b: bool)
        ensures
            b == self.read_cluster_ok(index),
    {
        let absolute = match index.checked_add(self.superblock.alloc_start as usize) {
            Some(a) => a,
            None => return false,
        };
        let start = match absolute.checked_mul(2) {
            Some(s) => s,
            None => return false,
        };
        let ppc = self.pages_per_cluster();
        let end = match start.checked_add(ppc) {
            Some(e) => e,
            None => return false,
        };
        if ppc == 0 {
            return true;
        }
        self.page_available(end - 1)
    }

    /// Whether the chain from `cluster` ends within `max_clusters` clusters
    /// and, where a chain was found, all its clusters lie in the image; where
    /// this holds, [`MemoryCard::read_entry`] may be called.
    pub fn can_read_entry(&self, cluster: usize, max_clusters: usize) -> (b: bool)
        ensures
            b == (chain_within(self.value_fn(), self.defined_fn(), cluster, max_clusters as nat)
                matches Some(r) && (r matches Ok(s) ==> forall|k: int|
                0 <= k < s.len() ==> #[trigger] self.read_cluster_ok(s[k] as usize))),
            b ==> self.read_entry_ok(cluster),
    {
        if !self.fat_chain_ends_within(cluster, max_clusters) {
            return false;
        }
        proof {
            lemma_chain_outcome(self.value_fn(), self.defined_fn(), cluster, max_clusters as nat);
        }
        let chain = match self.fat_chain(cluster) {
            Ok(chain) => chain,
            Err(_) => return true,
        };
        let mut k: usize = 0;
        while k < chain.len()
            invariant
                k <= chain@.len(),
                self.fat_chain_result(cluster) == Ok::<Seq<i32>, ()>(chain@),
                chain_within(self.value_fn(), self.defined_fn(), cluster, max_clusters as nat)
                    == Some(Ok::<Seq<i32>, ()>(chain@)),
                forall|j: int| 0 <= j < k ==> #[trigger] self.read_cluster_ok(chain@[j] as usize),
            decreases chain@.len() - k,
        {
            if !self.read_cluster_available(chain[k] as usize) {
                proof {
                    let r = chain_within(self.value_fn(), self.defined_fn(), cluster, max_clusters as nat);
                    let s = r->Some_0->Ok_0;
                    assert(s == chain@);
                    assert(!self.read_cluster_ok(s[k as int] as usize));
                }
                return false;
            }
            k = k + 1;
        }
        true
    }

    /// The root directory.
    pub fn root_directory(&self) -> (res: Result<Directory, MemcardError>)
        requires
            self.root_directory_ok(),
        ensures
            ({
                let c = self.superblock.rootdir_cluster as usize;
                let b = self.entry_data(c);
                &&& res is Ok <==> self.fat_chain_result(c) is Ok && b.len() >= 1024 && b.len()
                    >= 512 * entry_len_field(b)
                &&& res matches Ok(d) ==> directory_from_bytes(d, b, entry_len_field(b) as int)
                &&& res matches Err(e) ==> if self.fat_chain_result(c) is Err {
                    e is FreeClusterAllocated
                } else {
                    e is Io
                }
            }),
    {
        let raw = self.read_entry(self.superblock.rootdir_cluster as usize)?;
        let mut reader = ByteReader::new(raw.as_slice());
        Directory::read_root(&mut reader)
    }

    /// The directory that `entry` describes.
    pub fn read_directory(&self, entry: &Entry) -> (res: Result<Directory, MemcardError>)
        requires
            self.directory_ok(*entry),
        ensures
            ({
                let c = entry.cluster as usize;
                let b = self.entry_data(c);
                &&& res is Ok <==> self.fat_chain_result(c) is Ok && b.len() >= 1024 && b.len()
                    >= 512 * entry.len
                &&& res matches Ok(d) ==> directory_from_bytes(d, b, entry.len as int)
                &&& res matches Err(e) ==> if self.fat_chain_result(c) is Err {
                    e is FreeClusterAllocated
                } else {
                    e is Io
                }
            }),
    {
        let raw = self.read_entry(entry.cluster as usize)?;
        let mut reader = ByteReader::new(raw.as_slice());
        Directory::read(&mut reader, entry)
    }

    /// Checks the requirements of reading a directory from `b`: two
    /// directory entries first, the first one counting `count` entries (or
    /// `count` given) of at least two.
    fn dir_bytes_ok(b: &[u8], count: Option<u32>) -> (ok: bool)
        ensures
            ok == (dir_header_ok(b@) && (b@.len() >= 1024 ==> match count {
                Some(n) => n >= 2,
                None => entry_len_field(b@) >= 2,
            })),
    {
        if b.len() < 1024 {
            return true;
        }
        let mode0 = u16_from(b, 0);
        let mode1 = u16_from(b, 512);
        proof {
            assert(b@.skip(0) =~= b@);
        }
        if mode0 & 0x0020 == 0 || mode1 & 0x0020 == 0 {
            return false;
        }
        let n = match count {
            Some(n) => n,
            None => u32_from(b, 4),
        };
        n >= 2
    }

    /// Whether [`MemoryCard::root_directory`] may be called, following the
    /// root directory's chain for at most `max_clusters` clusters.
    pub fn can_read_root_directory(&self, max_clusters: usize) -> (b: bool)
        ensures
            b == (self.can_read_entry_spec(self.superblock.rootdir_cluster as usize, max_clusters)
                && self.root_directory_ok()),
    {
        let c = self.superblock.rootdir_cluster as usize;
        if !self.can_read_entry(c, max_clusters) {
            return false;
        }
        match self.read_entry(c) {
            Ok(raw) => Self::dir_bytes_ok(raw.as_slice(), None),
            Err(_) => true,
        }
    }

    /// Whether [`MemoryCard::read_directory`] may be called on `entry`,
    /// following its chain for at most `max_clusters` clusters.
    pub fn can_read_directory(&self, entry: &Entry, max_clusters: usize) -> (b: bool)
        ensures
            b == (self.can_read_entry_spec(entry.cluster as usize, max_clusters)
                && self.directory_ok(*entry)),
    {
        let c = entry.cluster as usize;
        if !self.can_read_entry(c, max_clusters) {
            return false;
        }
        match self.read_entry(c) {
            Ok(raw) => Self::dir_bytes_ok(raw.as_slice(), Some(entry.len)),
            Err(_) => true,
        }
    }

    /// What [`MemoryCard::can_read_entry`] answers.
    pub open spec fn can_read_entry_spec(&self, cluster: usize, max_clusters: usize) -> bool {
        chain_within(self.value_fn(), self.defined_fn(), cluster, max_clusters as nat) matches Some(r)
            && (r matches Ok(s) ==> forall|k: int|
            0 <= k < s.len() ==> #[trigger] self.read_cluster_ok(s[k] as usize))
    }
}

/// A chain found from `cluster` is the FAT's linked list: it starts at
/// `cluster`; the FAT value of each of its clusters but the last is an
/// allocated link (at most 0, not the end marker) to the next cluster of the
/// chain, and the FAT value of the last is the end marker -1.
pub proof fn lemma_fat_chain_links(card: MemoryCard, cluster: usize)
    requires
        card.fat_chain_ends(cluster),
        card.fat_chain_result(cluster) is Ok,
    ensures
        ({
            let s = card.fat_chain_result(cluster)->Ok_0;
            &&& s.len() >= 1
            &&& s[0] == cluster as i32
            &&& card.fat_value_spec(chain_cluster(cluster, s, s.len() - 1)) == -1
            &&& forall|k: int|
                0 <= k < s.len() - 1 ==> {
                    let v = #[trigger] card.fat_value_spec(chain_cluster(cluster, s, k));
                    &&& v <= 0
                    &&& v != -1
                    &&& s[k + 1] as usize == next_cluster(v)
                }
        }),
{
    let value = card.value_fn();
    let defined = card.defined_fn();
    let n = choose|n: nat| #[trigger] chain_within(value, defined, cluster, n) is Some;
    lemma_chain_outcome(value, defined, cluster, n);
    lemma_chain_shape(value, defined, cluster, n);
    let s = card.fat_chain_result(cluster)->Ok_0;
    assert forall|k: int| 0 <= k < s.len() - 1 implies {
        let v = #[trigger] card.fat_value_spec(chain_cluster(cluster, s, k));
        &&& v <= 0
        &&& v != -1
        &&& s[k + 1] as usize == next_cluster(v)
    } by {
        assert(value(chain_cluster(cluster, s, k)) == card.fat_value_spec(chain_cluster(cluster, s, k)));
    }
}

/// A chain found from `cluster` visits no cluster twice.
pub proof fn lemma_fat_chain_distinct(card: MemoryCard, cluster: usize)
    requires
        card.fat_chain_ends(cluster),
        card.fat_chain_result(cluster) is Ok,
    ensures
        ({
            let s = card.fat_chain_result(cluster)->Ok_0;
            forall|i: int, j: int|
                0 <= i < j < s.len() ==> #[trigger] chain_cluster(cluster, s, i) != #[trigger] chain_cluster(
                    cluster,
                    s,
                    j,
                )
        }),
{
    let value = card.value_fn();
    let defined = card.defined_fn();
    let n = choose|n: nat| #[trigger] chain_within(value, defined, cluster, n) is Some;
    lemma_chain_outcome(value, defined, cluster, n);
    let s = card.fat_chain_result(cluster)->Ok_0;
    assert forall|i: int, j: int| 0 <= i < j < s.len() implies #[trigger] chain_cluster(
        cluster,
        s,
        i,
    ) != #[trigger] chain_cluster(cluster, s, j) by {
        lemma_chain_distinct(value, defined, cluster, n, i, j);
    }
}

/// `n` consecutive pages that lie in the image give `512 * n` bytes.
proof fn lemma_pages_concat_len(card: MemoryCard, start: int, n: nat)
    requires
        start >= 0,
        n > 0 ==> card.page_ok(start + n - 1),
    ensures
        card.pages_concat(start, n).len() == 512 * n,
    decreases n,
{
    if n > 0 {
        if n > 1 {
            assert(card.page_ok(start + n - 2));
        }
        lemma_pages_concat_len(card, start, (n - 1) as nat);
    }
}

/// The clusters of a chain that all lie in the image give `512` bytes per
/// page of each cluster.
proof fn lemma_chain_bytes_len(card: MemoryCard, chain: Seq<i32>)
    requires
        forall|k: int| 0 <= k < chain.len() ==> #[trigger] card.read_cluster_ok(chain[k] as usize),
    ensures
        card.chain_bytes(chain).len() == chain.len() * (512 * card.ppc()),
    decreases chain.len(),
{
    if chain.len() > 0 {
        let rest = chain.drop_last();
        assert forall|k: int| 0 <= k < rest.len() implies #[trigger] card.read_cluster_ok(
            rest[k] as usize,
        ) by {
            assert(rest[k] == chain[k]);
        }
        lemma_chain_bytes_len(card, rest);
        let last = chain.last() as usize;
        assert(card.read_cluster_ok(chain[chain.len() - 1] as usize));
        lemma_pages_concat_len(card, card.cluster_first_page(last), card.ppc() as nat);
        let m = 512 * card.ppc();
        let l = chain.len();
        assert((l - 1) * m + m == l * m) by (nonlinear_arith);
    }
}

/// Reading an entry gives, for each cluster of its chain, that cluster's
/// pages of 512 bytes: on a card whose superblock validates, `cluster_len`
/// bytes per cluster.
pub proof fn lemma_entry_data_len(card: MemoryCard, cluster: usize)
    requires
        card.read_entry_ok(cluster),
        card.fat_chain_result(cluster) is Ok,
    ensures
        card.entry_data(cluster).len() == card.fat_chain_result(cluster)->Ok_0.len() * (512
            * card.ppc()),
        superblock_status(card.superblock) is Ok ==> card.entry_data(cluster).len()
            == card.fat_chain_result(cluster)->Ok_0.len() * (card.superblock.page_len
            * card.superblock.pages_per_cluster),
{
    let s = card.fat_chain_result(cluster)->Ok_0;
    lemma_chain_bytes_len(card, s);
}

/// Reading a card from a stream and opening the bytes it holds agree: the
/// superblock that [`MemoryCard::read`] found is the one that
/// [`MemoryCard::new`] finds in the card's data.
pub proof fn lemma_read_agrees_with_new(card: MemoryCard, b: Seq<u8>)
    requires
        b.len() >= 16384 * 528,
        card.data@ == b.take(16384 * 528int),
        superblock_from_bytes(card.superblock, b),
    ensures
        card.data@.len() >= 512,
        superblock_from_bytes(card.superblock, card.data@),
{
    assert(card.data@.take(512) =~= b.take(512));
    lemma_superblock_from_prefix(card.superblock, b, card.data@);
}

/// `pages` are the first pages of `card`'s image, in order.
pub open spec fn pages_of(card: MemoryCard, pages: Seq<Page>) -> bool {
    forall|i: int| 0 <= i < pages.len() ==> card.page_ok(i) && #[trigger] pages[i].raw@ == card.page_bytes(i)
}

/// `pages` are all the whole pages of `card`'s image, data and ECC, in
/// order.
pub open spec fn card_pages(card: MemoryCard, pages: Seq<Page>) -> bool {
    &&& pages.len() == card.data@.len() / 528
    &&& forall|i: int|
        0 <= i < pages.len() ==> #[trigger] page_from_bytes(pages[i], card.data@.skip(528 * i))
}

/// The pages of an image are determined by it.
pub proof fn lemma_card_pages_unique(card: MemoryCard, p1: Seq<Page>, p2: Seq<Page>)
    requires
        card_pages(card, p1),
        card_pages(card, p2),
    ensures
        p1 == p2,
{
    assert forall|i: int| 0 <= i < p1.len() implies p1[i] == p2[i] by {
        assert(page_from_bytes(p1[i], card.data@.skip(528 * i)));
        assert(page_from_bytes(p2[i], card.data@.skip(528 * i)));
        assert(p1[i].raw =~= p2[i].raw);
        assert(p1[i].ecc =~= p2[i].ecc);
    }
    assert(p1 =~= p2);
}

/// The whole pages of a card's image are its pages.
pub proof fn lemma_card_pages_are_pages_of(card: MemoryCard, pages: Seq<Page>)
    requires
        card_pages(card, pages),
    ensures
        pages_of(card, pages),
{
    assert forall|i: int| 0 <= i < pages.len() implies card.page_ok(i) && #[trigger] pages[i].raw@
        == card.page_bytes(i) by {
        assert(page_from_bytes(pages[i], card.data@.skip(528 * i)));
        assert(528 * i + 528 <= card.data@.len()) by (nonlinear_arith)
            requires
                0 <= i < card.data@.len() / 528,
        ;
        assert(pages[i].raw@ =~= card.page_bytes(i));
    }
}

impl MemoryCard {
    /// The card's pages, data and ECC, as many as the image holds whole.
    pub fn pages(&self) -> (v: Vec<Page>)
        ensures
            card_pages(*self, v@),
    {
        let n = self.data.len() / 528;
        let mut reader = ByteReader::new(self.data.as_slice());
        let ghost b = self.data@;
        let mut v: Vec<Page> = Vec::new();
        let mut i: usize = 0;
        while i < n
            invariant
                i <= n,
                n == b.len() / 528,
                b == self.data@,
                reader@ == b.skip(528 * i),
                v@.len() == i,
                forall|j: int| 0 <= j < i ==> #[trigger] page_from_bytes(v@[j], b.skip(528 * j)),
            decreases n - i,
        {
            assert(528 * i + 528 <= b.len()) by (nonlinear_arith)
                requires
                    i < n,
                    n == b.len() / 528,
            ;
            let page = match Page::read(&mut reader) {
                Ok(p) => p,
                Err(_) => {
                    assert(false);
                    return v;
                },
            };
            proof {
                assert(b.skip(528 * i).skip(528) =~= b.skip(528 * (i + 1)));
            }
            let ghost prev = v@;
            v.push(page);
            i = i + 1;
            proof {
                assert forall|j: int| 0 <= j < i implies #[trigger] page_from_bytes(
                    v@[j],
                    b.skip(528 * j),
                ) by {
                    if j < i - 1 {
                        assert(v@[j] == prev[j]);
                    }
                }
            }
        }
        v
    }

    /// The FAT read into memory from the card's pages ([`Fat::new`]), where
    /// the indirect table's cluster and every cluster it points to lie in
    /// the image; `None` otherwise.
    pub fn fat(&self) -> (r: Option<Fat>)
        ensures
            forall|pages: Seq<Page>|
                card_pages(*self, pages) ==> {
                    &&& r is Some <==> fat_new_ok(self.superblock, pages)
                    &&& r matches Some(f) ==> fat_from_pages(f, self.superblock, pages)
                },
    {
        let pages = self.pages();
        proof {
            assert forall|p: Seq<Page>| card_pages(*self, p) implies p == pages@ by {
                lemma_card_pages_unique(*self, p, pages@);
            }
        }
        if fat_new_possible(&self.superblock, pages.as_slice()) {
            Some(Fat::new(&self.superblock, pages.as_slice()))
        } else {
            None
        }
    }
}

/// The FAT read into memory from a card's pages ([`Fat::new`]) gives every
/// cluster that it has a value for the value that the card itself gives
/// ([`MemoryCard::fat_value`]).
pub proof fn lemma_fat_agrees_with_card(card: MemoryCard, pages: Seq<Page>, fat: Fat, cluster: usize)
    requires
        pages_of(card, pages),
        card.superblock.pages_per_cluster == 2,
        fat_new_ok(card.superblock, pages),
        fat_from_pages(fat, card.superblock, pages),
        fat.has_value(cluster),
    ensures
        card.fat_value_ok(cluster),
        fat.value_at(cluster) == card.fat_value_spec(cluster),
{
    let sb = card.superblock;
    let first = sb.ind_fat_table@[0] as int * 2;
    let ind = ind_table_values(sb, pages);
    let k = cluster as int / 256;
    let e = cluster as int % 256;
    lemma_two_page_values(pages, first, 0);
    assert(k < 256);
    lemma_two_page_values(pages, first, k);
    let t = ind[k];
    assert(t > 0) by {
        if t <= 0 {
            assert(fat.indirect_table@[k]@ == Seq::<i32>::empty());
        }
    }
    let ind_page = first + k / 128;
    assert(pages[ind_page].raw@ == card.page_bytes(ind_page));
    assert(card.ind_page_index(cluster) == ind_page);
    assert(card.ind_value(cluster) == t);
    let fat_page = t as int * 2 + e / 128;
    lemma_two_page_values(pages, t as int * 2, e);
    assert(fat.indirect_table@[k]@ == fat_table_values(sb, pages, t as int));
    assert(card.fat_page_index(cluster) == fat_page);
    assert(pages[fat_page].raw@ == card.page_bytes(fat_page));
}

} // verus!
