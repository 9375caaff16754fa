use vstd::prelude::*;

use crate::memcard::page::Page;
use crate::memcard::superblock::Superblock;
use crate::memcard::MemcardError;
use crate::util::{i32_at, le_i32};

verus! {

/// The FAT value that marks the last cluster of a chain.
pub const FAT_EOF: i32 = -1;

/// The cluster a (negative, allocated) FAT value links to: the value
/// without its top bit.
pub open spec fn next_cluster(v: i32) -> usize {
    (v & 0x7fff_ffff) as usize
}

/// Follows the chain of clusters from `c` for at most `fuel` clusters, with
/// `value` giving each cluster's FAT value where `defined` holds.
///
/// `Some(Ok(chain))`: the chain ended (FAT value -1) after the clusters in
/// `chain`; `Some(Err(()))`: it reached a cluster whose FAT value is positive
/// (a free cluster); `None`: it reached a cluster without a value, or ran out
/// of fuel.
pub open spec fn chain_within(
    value: spec_fn(usize) -> i32,
    defined: spec_fn(usize) -> bool,
    c: usize,
    fuel: nat,
) -> Option<Result<Seq<i32>, ()>>
    decreases fuel,
{
    if fuel == 0 || !defined(c) {
        None
    } else {
        let v = value(c);
        if v == -1 {
            Some(Ok(seq![c as i32]))
        } else if v > 0 {
            Some(Err(()))
        } else {
            prepend_chain(seq![c as i32], chain_within(value, defined, next_cluster(v), (fuel - 1) as nat))
        }
    }
}

/// `prefix` put in front of a chain that was found; anything else unchanged.
pub open spec fn prepend_chain(prefix: Seq<i32>, r: Option<Result<Seq<i32>, ()>>) -> Option<
    Result<Seq<i32>, ()>,
> {
    match r {
        Some(Ok(rest)) => Some(Ok(prefix + rest)),
        other => other,
    }
}

/// The chain from `c` ends, one way or the other, within some number of
/// clusters.
pub open spec fn chain_ends(value: spec_fn(usize) -> i32, defined: spec_fn(usize) -> bool, c: usize) -> bool {
    exists|n: nat| #[trigger] chain_within(value, defined, c, n) is Some
}

/// The outcome of following the chain from `c` (meaningful where
/// `chain_ends` holds).
pub open spec fn chain_outcome(value: spec_fn(usize) -> i32, defined: spec_fn(usize) -> bool, c: usize) -> Result<
    Seq<i32>,
    (),
> {
    chain_within(value, defined, c, choose|n: nat| #[trigger] chain_within(value, defined, c, n) is Some).unwrap()
}

/// More fuel does not change a chain that ended.
pub proof fn lemma_chain_within_monotonic(
    value: spec_fn(usize) -> i32,
    defined: spec_fn(usize) -> bool,
    c: usize,
    n: nat,
    m: nat,
)
    requires
        chain_within(value, defined, c, n) is Some,
        n <= m,
    ensures
        chain_within(value, defined, c, m) == chain_within(value, defined, c, n),
    decreases n,
{
    let v = value(c);
    if v != -1 && v <= 0 {
        lemma_chain_within_monotonic(value, defined, next_cluster(v), (n - 1) as nat, (m - 1) as nat);
    }
}

/// Where the chain ends within `n` clusters, that is its outcome.
pub proof fn lemma_chain_outcome(
    value: spec_fn(usize) -> i32,
    defined: spec_fn(usize) -> bool,
    c: usize,
    n: nat,
)
    requires
        chain_within(value, defined, c, n) is Some,
    ensures
        chain_ends(value, defined, c),
        Some(chain_outcome(value, defined, c)) == chain_within(value, defined, c, n),
{
    let k = choose|k: nat| #[trigger] chain_within(value, defined, c, k) is Some;
    if k <= n {
        lemma_chain_within_monotonic(value, defined, c, k, n);
    } else {
        lemma_chain_within_monotonic(value, defined, c, n, k);
    }
}

/// The cluster at position `k` of a chain `s` that starts at `c`.
pub open spec fn chain_cluster(c: usize, s: Seq<i32>, k: int) -> usize {
    if k == 0 {
        c
    } else {
        s[k] as usize
    }
}

/// A linked cluster is below 2^31.
pub proof fn lemma_next_cluster_range(v: i32)
    ensures
        0 <= next_cluster(v) <= 0x7fff_ffff,
        (next_cluster(v) as i32) as usize == next_cluster(v),
{
    assert(0 <= v & 0x7fff_ffff <= 0x7fff_ffff) by (bit_vector);
}

/// The shape of a chain that was found: it starts at `c`; the FAT value of
/// each cluster but the last is an allocated link (at most 0, not -1) to the
/// next cluster of the chain; the FAT value of the last cluster is -1.
pub proof fn lemma_chain_shape(
    value: spec_fn(usize) -> i32,
    defined: spec_fn(usize) -> bool,
    c: usize,
    n: nat,
)
    requires
        chain_within(value, defined, c, n) matches Some(Ok(_)),
    ensures
        ({
            let s = chain_within(value, defined, c, n)->Some_0->Ok_0;
            &&& s.len() >= 1
            &&& s[0] == c as i32
            &&& value(chain_cluster(c, s, s.len() - 1)) == -1
            &&& forall|k: int|
                0 <= k < s.len() - 1 ==> {
                    let v = #[trigger] value(chain_cluster(c, s, k));
                    &&& v <= 0
                    &&& v != -1
                    &&& s[k + 1] as usize == next_cluster(v)
                }
        }),
    decreases n,
{
    let v = value(c);
    if v != -1 && v <= 0 {
        let c2 = next_cluster(v);
        lemma_chain_shape(value, defined, c2, (n - 1) as nat);
        lemma_next_cluster_range(v);
        let rest = chain_within(value, defined, c2, (n - 1) as nat)->Some_0->Ok_0;
        let s = chain_within(value, defined, c, n)->Some_0->Ok_0;
        assert(s == seq![c as i32] + rest);
        assert forall|k: int| 1 <= k < s.len() implies chain_cluster(c, s, k) == chain_cluster(
            c2,
            rest,
            k - 1,
        ) by {
            assert(s[k] == rest[k - 1]);
        }
        assert forall|k: int| 0 <= k < s.len() - 1 implies {
            let w = #[trigger] value(chain_cluster(c, s, k));
            &&& w <= 0
            &&& w != -1
            &&& s[k + 1] as usize == next_cluster(w)
        } by {
            if k == 0 {
                assert(s[1] == rest[0]);
            } else {
                assert(chain_cluster(c, s, k) == chain_cluster(c2, rest, k - 1));
                assert(s[k + 1] == rest[k]);
            }
        }
    }
}


/// The chain found from `c` with `n` clusters of fuel, taken from its
/// position `k` on, is the chain found from the cluster at that position
/// with `k` clusters less of fuel.
pub proof fn lemma_chain_suffix(
    value: spec_fn(usize) -> i32,
    defined: spec_fn(usize) -> bool,
    c: usize,
    n: nat,
    k: int,
)
    requires
        chain_within(value, defined, c, n) matches Some(Ok(s)) && 0 <= k < s.len(),
    ensures
        k <= n,
        ({
            let s = chain_within(value, defined, c, n)->Some_0->Ok_0;
            chain_within(value, defined, chain_cluster(c, s, k), (n - k) as nat) == Some(
                Ok::<Seq<i32>, ()>(s.skip(k)),
            )
        }),
    decreases k,
{
    let s = chain_within(value, defined, c, n)->Some_0->Ok_0;
    if k == 0 {
        assert(s.skip(0) =~= s);
    } else {
        lemma_chain_suffix(value, defined, c, n, k - 1);
        let x = chain_cluster(c, s, k - 1);
        let f = (n - (k - 1)) as nat;
        let v = value(x);
        lemma_next_cluster_range(v);
        let r = chain_within(value, defined, next_cluster(v), (f - 1) as nat);
        let rest = r->Some_0->Ok_0;
        let head = seq![x as i32];
        assert(s.skip(k - 1) == head + rest);
        assert forall|m: int| 0 <= m < rest.len() implies rest[m] == s.skip(k)[m] by {
            assert((head + rest)[m + 1] == rest[m]);
            assert(s.skip(k - 1)[m + 1] == s[k + m]);
        }
        assert(rest =~= s.skip(k));
        assert(s[k] == rest[0]);
        assert(chain_cluster(c, s, k) == next_cluster(v));
    }
}

/// A chain that was found visits no cluster twice: a cluster that came
/// back would start the same chain again, and the chain would not end.
pub proof fn lemma_chain_distinct(
    value: spec_fn(usize) -> i32,
    defined: spec_fn(usize) -> bool,
    c: usize,
    n: nat,
    i: int,
    j: int,
)
    requires
        chain_within(value, defined, c, n) matches Some(Ok(s)) && 0 <= i < j < s.len(),
    ensures
        ({
            let s = chain_within(value, defined, c, n)->Some_0->Ok_0;
            chain_cluster(c, s, i) != chain_cluster(c, s, j)
        }),
{
    let s = chain_within(value, defined, c, n)->Some_0->Ok_0;
    lemma_chain_suffix(value, defined, c, n, i);
    lemma_chain_suffix(value, defined, c, n, j);
    if chain_cluster(c, s, i) == chain_cluster(c, s, j) {
        lemma_chain_within_monotonic(
            value,
            defined,
            chain_cluster(c, s, j),
            (n - j) as nat,
            (n - i) as nat,
        );
        assert(s.skip(i).len() != s.skip(j).len());
    }
}

/// The file allocation table, read into memory: for each entry of the
/// indirect table, the FAT table it points to (empty where it points to no
/// cluster).
#[derive(Debug, Clone)]
pub struct Fat {
    pub indirect_table: Vec<Vec<i32>>,
}

/// The 128 little-endian `i32` values stored in a page's data.
pub open spec fn page_values(p: Page) -> Seq<i32> {
    Seq::new(128, |i: int| le_i32(p.raw@.subrange(4 * i, 4 * i + 4)))
}

/// The values of `n` consecutive pages from `first`, one page after the
/// other.
pub open spec fn table_values(pages: Seq<Page>, first: int, n: nat) -> Seq<i32>
    decreases n,
{
    if n == 0 {
        Seq::empty()
    } else {
        table_values(pages, first, (n - 1) as nat) + page_values(pages[first + n - 1])
    }
}

/// The pages of cluster `cluster` lie among `pages`.
pub open spec fn cluster_pages_ok(superblock: Superblock, pages: Seq<Page>, cluster: int) -> bool {
    cluster * superblock.pages_per_cluster + superblock.pages_per_cluster <= pages.len()
}

/// The values of the FAT table held by cluster `cluster`.
pub open spec fn fat_table_values(superblock: Superblock, pages: Seq<Page>, cluster: int) -> Seq<i32> {
    table_values(
        pages,
        cluster * superblock.pages_per_cluster,
        superblock.pages_per_cluster as nat,
    )
}

/// The values of the indirect FAT table.
pub open spec fn ind_table_values(superblock: Superblock, pages: Seq<Page>) -> Seq<i32> {
    fat_table_values(superblock, pages, superblock.ind_fat_table@[0] as int)
}

/// What building the FAT from pages needs: the indirect table's cluster and
/// every cluster it points to (positive values) lie among the pages.
pub open spec fn fat_new_ok(superblock: Superblock, pages: Seq<Page>) -> bool {
    let ind = ind_table_values(superblock, pages);
    &&& cluster_pages_ok(superblock, pages, superblock.ind_fat_table@[0] as int)
    &&& forall|i: int|
        0 <= i < ind.len() && #[trigger] ind[i] > 0 ==> cluster_pages_ok(superblock, pages, ind[i] as int)
}

/// `fat` holds, for each entry of the indirect table, the FAT table of the
/// cluster it points to, or nothing where it points to no cluster (at most
/// 0).
pub open spec fn fat_from_pages(fat: Fat, superblock: Superblock, pages: Seq<Page>) -> bool {
    let ind = ind_table_values(superblock, pages);
    &&& fat.indirect_table@.len() == ind.len()
    &&& forall|i: int|
        0 <= i < ind.len() ==> #[trigger] fat.indirect_table@[i]@ == if ind[i] > 0 {
            fat_table_values(superblock, pages, ind[i] as int)
        } else {
            Seq::<i32>::empty()
        }
}

/// Value `k` of the two pages from `first`: value `k % 128` of page
/// `first + k / 128`.
pub proof fn lemma_two_page_values(pages: Seq<Page>, first: int, k: int)
    requires
        0 <= k < 256,
    ensures
        table_values(pages, first, 2).len() == 256,
        table_values(pages, first, 2)[k] == page_values(pages[first + k / 128])[k % 128],
{
    assert(table_values(pages, first, 0) =~= Seq::<i32>::empty());
    assert(table_values(pages, first, 1) =~= page_values(pages[first]));
}

/// The values of `n` pages from `first`.
fn table_from_pages(pages: &[Page], first: usize, n: usize) -> (table: Vec<i32>)
    requires
        first + n <= pages@.len(),
    ensures
        table@ == table_values(pages@, first as int, n as nat),
{
    let mut table: Vec<i32> = Vec::new();
    let mut pg: usize = 0;
    while pg < n
        invariant
            pg <= n,
            first + n <= pages.len(),
            table@ == table_values(pages@, first as int, pg as nat),
        decreases n - pg,
    {
        let page = &pages[first + pg];
        let ghost before = table@;
        let mut ii: usize = 0;
        while ii < 128
            invariant
                ii <= 128,
                table@ == before + page_values(*page).take(ii as int),
            decreases 128 - ii,
        {
            let v = i32_at(page.raw.as_slice(), ii * 4);
            table.push(v);
            ii = ii + 1;
            assert(table@ =~= before + page_values(*page).take(ii as int));
        }
        pg = pg + 1;
        assert(page_values(*page).take(128) =~= page_values(*page));
    }
    table
}

/// The indirect FAT table: the values of the pages of its cluster.
pub fn ind_fat_table(superblock: &Superblock, pages: &[Page]) -> (table: Vec<i32>)
    requires
        cluster_pages_ok(*superblock, pages@, superblock.ind_fat_table@[0] as int),
    ensures
        table@ == ind_table_values(*superblock, pages@),
{
    let cluster = superblock.ind_fat_table[0] as usize;
    let pages_per_cluster = superblock.pages_per_cluster as usize;
    assert(pages@.len() == pages.len());
    let page = cluster * pages_per_cluster;
    table_from_pages(pages, page, pages_per_cluster)
}

/// The FAT table held by cluster `cluster`: the values of its pages.
pub fn fat_table(superblock: &Superblock, pages: &[Page], cluster: usize) -> (table: Vec<i32>)
    requires
        cluster_pages_ok(*superblock, pages@, cluster as int),
    ensures
        table@ == fat_table_values(*superblock, pages@, cluster as int),
{
    let pages_per_cluster = superblock.pages_per_cluster as usize;
    assert(pages@.len() == pages.len());
    let page = cluster * pages_per_cluster;
    table_from_pages(pages, page, pages_per_cluster)
}

/// Whether the pages of cluster `cluster` lie among `pages`.
fn cluster_pages_available(superblock: &Superblock, pages: &[Page], cluster: u32) -> (b: bool)
    ensures
        b == cluster_pages_ok(*superblock, pages@, cluster as int),
{
    let ppc = superblock.pages_per_cluster as u64;
    assert(cluster * ppc <= 0xffff_ffff * 0xffff) by (nonlinear_arith)
        requires
            cluster <= 0xffff_ffff,
            ppc <= 0xffff,
    ;
    (cluster as u64) * ppc + ppc <= pages.len() as u64
}

/// Whether [`Fat::new`] can be called on `pages`: the indirect table's
/// cluster and every cluster it points to lie among them.
pub fn fat_new_possible(superblock: &Superblock, pages: &[Page]) -> (b: bool)
    ensures
        b == fat_new_ok(*superblock, pages@),
{
    if !cluster_pages_available(superblock, pages, superblock.ind_fat_table[0]) {
        return false;
    }
    let ind = ind_fat_table(superblock, pages);
    let mut i: usize = 0;
    while i < ind.len()
        invariant
            i <= ind@.len(),
            ind@ == ind_table_values(*superblock, pages@),
            forall|j: int|
                0 <= j < i && #[trigger] ind@[j] > 0 ==> cluster_pages_ok(*superblock, pages@, ind@[j] as int),
        decreases ind@.len() - i,
    {
        let v = ind[i];
        if v > 0 && !cluster_pages_available(superblock, pages, v as u32) {
            return false;
        }
        i = i + 1;
    }
    true
}

impl Fat {
    /// The FAT value of `cluster`: entry `cluster % 256` of table
    /// `cluster / 256`.
    pub open spec fn value_at(&self, cluster: usize) -> i32 {
        self.indirect_table@[cluster as int / 256]@[cluster as int % 256]
    }

    /// The table has a value for `cluster`.
    pub open spec fn has_value(&self, cluster: usize) -> bool {
        &&& cluster / 256 < self.indirect_table@.len()
        &&& cluster % 256 < self.indirect_table@[cluster as int / 256]@.len()
    }

    pub open spec fn value_fn(&self) -> spec_fn(usize) -> i32 {
        |c: usize| self.value_at(c)
    }

    pub open spec fn defined_fn(&self) -> spec_fn(usize) -> bool {
        |c: usize| self.has_value(c)
    }

    /// Reads the indirect FAT table and every FAT table it points to.
    pub fn new(superblock: &Superblock, pages: &[Page]) -> (fat: Self)
        requires
            fat_new_ok(*superblock, pages@),
        ensures
            fat_from_pages(fat, *superblock, pages@),
    {
        let ind = ind_fat_table(superblock, pages);
        let mut indirect_table: Vec<Vec<i32>> = Vec::new();
        let mut i: usize = 0;
        while i < ind.len()
            invariant
                i <= ind@.len(),
                ind@ == ind_table_values(*superblock, pages@),
                fat_new_ok(*superblock, pages@),
                indirect_table@.len() == i,
                forall|j: int|
                    0 <= j < i ==> #[trigger] indirect_table@[j]@ == if ind@[j] > 0 {
                        fat_table_values(*superblock, pages@, ind@[j] as int)
                    } else {
                        Seq::<i32>::empty()
                    },
            decreases ind@.len() - i,
        {
            let v = ind[i];
            let ghost before = indirect_table@;
            if v > 0 {
                assert(cluster_pages_ok(*superblock, pages@, ind@[i as int] as int));
                indirect_table.push(fat_table(superblock, pages, v as usize));
            } else {
                indirect_table.push(Vec::new());
            }
            i = i + 1;
            assert forall|j: int| 0 <= j < i implies #[trigger] indirect_table@[j]@ == if ind@[j] > 0 {
                fat_table_values(*superblock, pages@, ind@[j] as int)
            } else {
                Seq::<i32>::empty()
            } by {
                if j < i - 1 {
                    assert(indirect_table@[j] == before[j]);
                }
            }
        }
        Fat { indirect_table }
    }

    /// Fat table value for a cluster: entry `cluster % 256` of table
    /// `cluster / 256`.
    pub fn fat_value(&self, cluster: usize) -> (v: i32)
        requires
            self.has_value(cluster),
        ensures
            v == self.value_at(cluster),
    {
        let tbl = cluster / 0x100;
        let off = cluster & 0xff;
        proof {
            assert(cluster & 0xff == cluster % 256) by (bit_vector);
        }
        self.indirect_table[tbl][off]
    }

    /// Gets the whole chain of clusters starting at `cluster`, as
    /// [`crate::memcard::MemoryCard::fat_chain`] does with the table in memory.
    pub fn fat_chain(&self, cluster: usize) -> (res: Result<Vec<i32>, MemcardError>)
        requires
            chain_ends(self.value_fn(), self.defined_fn(), cluster),
        ensures
            res is Ok <==> chain_outcome(self.value_fn(), self.defined_fn(), cluster) is Ok,
            res matches Ok(v) ==> chain_outcome(self.value_fn(), self.defined_fn(), cluster)
                == Ok::<Seq<i32>, ()>(v@),
            res matches Err(e) ==> e is FreeClusterAllocated,
    {
        let ghost value = self.value_fn();
        let ghost defined = self.defined_fn();
        let ghost n = choose|n: nat| #[trigger] chain_within(value, defined, cluster, n) is Some;
        proof {
            lemma_chain_outcome(value, defined, cluster, n);
        }
        let mut chain: Vec<i32> = Vec::new();
        let mut c = cluster;
        let ghost mut fuel: nat = n;
        loop
            invariant
                value == self.value_fn(),
                defined == self.defined_fn(),
                chain_within(value, defined, c, fuel) is Some,
                Some(chain_outcome(value, defined, cluster)) == prepend_chain(
                    chain@,
                    chain_within(value, defined, c, fuel),
                ),
            decreases fuel,
        {
            let ghost before = chain@;
            chain.push(c as i32);
            let mut next = self.fat_value(c);
            if next == FAT_EOF {
                assert(chain@ =~= before + seq![c as i32]);
                return Ok(chain);
            }
            if next > 0 {
                return Err(MemcardError::FreeClusterAllocated);
            }
            next = next & 0x7fff_ffff;
            proof {
                lemma_next_cluster_range(self.value_at(c));
                let r = chain_within(value, defined, next_cluster(self.value_at(c)), (fuel - 1) as nat);
                match r {
                    Some(Ok(rest)) => {
                        assert(before + (seq![c as i32] + rest) =~= chain@ + rest);
                    },
                    _ => {},
                }
                fuel = (fuel - 1) as nat;
            }
            c = next as usize;
        }
    }
}

} // verus!
