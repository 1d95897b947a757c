//! The guest's W^X identity stage-1 map. Every 32 MiB L2 entry starts as a read-write,
//! never-executable data block; a block holding a page that must be executable is promoted to
//! an L3 table, identity-filled with data pages, and then the pages of the range get their own
//! attribute. The tables are held here as plain values; the caller copies them into the guest
//! pages at `PT_L1_IPA`, `PT_L2_IPA` and the L3 window, and maps any newly created L3.
use vstd::prelude::*;
use vstd::bytes::spec_u64_from_le_bytes;
use crate::cache::u64le;
use crate::trace::Region;
use crate::layout::{
    ATTR_CODE, ATTR_DATA, BLK, DESC_BLOCK, DESC_PAGE, DESC_TABLE, GRANULE, PT_L2_IPA, PT_L3_BASE,
    UXN,
};

verus! {

/// Entries per translation table (one 16 KiB page of 8-byte descriptors).
pub const TABLE_ENTRIES: usize = 2048;

/// How many L3 tables fit in the L3 window.
pub const L3_CAPACITY: usize = 1536;

/// The L2 block descriptor of block `bi`: identity, data.
pub open spec fn block_desc(bi: int) -> u64 {
    ((bi * BLK) as u64) | ATTR_DATA | DESC_BLOCK
}

/// The IPA of the `k`-th L3 table.
pub open spec fn l3_ipa(k: int) -> u64 {
    (PT_L3_BASE + k * GRANULE) as u64
}

/// The L2 table descriptor pointing at the `k`-th L3 table.
pub open spec fn table_desc(k: int) -> u64 {
    l3_ipa(k) | DESC_TABLE
}

/// The L3 page descriptor mapping the page at `p` to itself with attributes `attr`.
pub open spec fn page_desc(p: int, attr: u64) -> u64 {
    (p as u64) | attr | DESC_PAGE
}

/// The address of page `j` of block `bi`.
pub open spec fn page_addr(bi: int, j: int) -> int {
    bi * BLK + j * GRANULE
}

/// The first page of a range `[ipa, ipa + len)`: its start rounded down to a granule.
pub open spec fn range_start(ipa: int) -> int {
    ipa - ipa % (GRANULE as int)
}

/// The page at `p` belongs to the range `[ipa, ipa + len)`.
pub open spec fn page_in(p: int, ipa: int, len: int) -> bool {
    range_start(ipa) <= p < ipa + len
}

/// Entry `q` of the `k`-th L3 table in the flat descriptor sequence `s`.
pub open spec fn slot(s: Seq<u64>, k: int, q: int) -> u64 {
    s[k * (TABLE_ENTRIES as int) + q]
}

/// The translation tables.
#[derive(Debug, Clone)]
pub struct PageTables {
    /// The 2048 L2 descriptors.
    l2: Vec<u64>,
    /// The L3 tables, 2048 descriptors each, in allocation order: the `k`-th sits at `l3_ipa(k)`.
    l3: Vec<u64>,
}

impl PageTables {
    /// The L2 descriptors.
    pub closed spec fn l2s(&self) -> Seq<u64> {
        self.l2@
    }

    /// The L3 descriptors, table after table.
    pub closed spec fn l3s(&self) -> Seq<u64> {
        self.l3@
    }

    /// How many L3 tables exist.
    pub open spec fn l3_count(&self) -> int {
        self.l3s().len() as int / (TABLE_ENTRIES as int)
    }

    /// The next L3 table's IPA.
    pub open spec fn next_l3(&self) -> u64 {
        l3_ipa(self.l3_count())
    }

    /// The L3 table block `bi` points at.
    pub open spec fn owner_table(&self, bi: int) -> int {
        choose|k: int| 0 <= k < self.l3_count() && self.l2s()[bi] == table_desc(k)
    }

    /// Block `bi` has been promoted to an L3 table.
    pub open spec fn promoted(&self, bi: int) -> bool {
        self.l2s()[bi] & 3 == DESC_TABLE
    }

    /// Well formed: 2048 L2 entries, whole L3 tables inside the window, every L2 entry either its
    /// identity data block or a table descriptor of its own L3 table (no two blocks share one).
    pub open spec fn wf(&self) -> bool {
        &&& self.l2s().len() == TABLE_ENTRIES
        &&& self.l3s().len() as int % (TABLE_ENTRIES as int) == 0
        &&& self.l3_count() <= L3_CAPACITY
        &&& forall|bi: int|
            0 <= bi < TABLE_ENTRIES ==> self.l2s()[bi] == block_desc(bi) || exists|k: int|
                0 <= k < self.l3_count() && self.l2s()[bi] == table_desc(k)
        &&& forall|b1: int, b2: int, k: int|
            0 <= b1 < TABLE_ENTRIES && 0 <= b2 < TABLE_ENTRIES && b1 != b2 && 0 <= k < self.l3_count()
                && self.l2s()[b1] == table_desc(k) ==> self.l2s()[b2] != table_desc(k)
    }

    /// The effective page descriptor of page `j` of block `bi`: its L3 entry when the block is
    /// promoted, and otherwise the identity data page the block maps it as.
    pub open spec fn eff(&self, bi: int, j: int) -> u64 {
        if self.promoted(bi) {
            slot(self.l3s(), self.owner_table(bi), j)
        } else {
            page_desc(page_addr(bi, j), ATTR_DATA)
        }
    }
}

/// The block descriptor of a block and the table descriptor of an L3 table are told apart by
/// their two low bits, and a table descriptor's address bits name its table.
proof fn lemma_desc_bits(bi: int, k: int)
    requires
        0 <= bi < 2048,
        0 <= k < 1536,
    ensures
        block_desc(bi) & 3 == DESC_BLOCK,
        table_desc(k) & 3 == DESC_TABLE,
        table_desc(k) & !0x3fffu64 == l3_ipa(k),
{
    let b: u64 = (bi * 0x200_0000) as u64;
    let t: u64 = (0x80_0000 + k * 0x4000) as u64;
    assert((bi * 0x200_0000) % 4 == 0) by (nonlinear_arith);
    assert((k * 0x4000 + 0x80_0000) % 0x4000 == 0) by (nonlinear_arith);
    assert(b % 4 == 0);
    assert(t % 0x4000 == 0);
    assert(b % 4 == 0 ==> (b | 0x0060_0000_0000_0740u64 | 1u64) & 3u64 == 1u64) by (bit_vector);
    assert(t % 0x4000 == 0 ==> (t | 3u64) & 3u64 == 3u64) by (bit_vector);
    assert(t % 0x4000 == 0 ==> (t | 3u64) & !0x3fffu64 == t) by (bit_vector);
}

/// Distinct tables have distinct descriptors.
proof fn lemma_table_desc_injective(k1: int, k2: int)
    requires
        0 <= k1 < 1536,
        0 <= k2 < 1536,
        table_desc(k1) == table_desc(k2),
    ensures
        k1 == k2,
{
    lemma_desc_bits(0, k1);
    lemma_desc_bits(0, k2);
}

/// How many blocks in `[lo, hi]` are not yet promoted.
pub open spec fn unpromoted_in(t: PageTables, lo: int, hi: int) -> int
    decreases hi - lo + 1,
{
    if hi < lo {
        0
    } else {
        unpromoted_in(t, lo, hi - 1) + if t.promoted(hi) { 0int } else { 1int }
    }
}

/// The first page of block `bi` the range writes: its index.
pub open spec fn first_page(bi: int, ipa: int) -> int {
    if ipa > bi * BLK { (ipa - bi * BLK) / (GRANULE as int) } else { 0 }
}

proof fn lemma_unpromoted_step(t: PageTables, lo: int, hi: int)
    requires
        lo <= hi + 1,
    ensures
        unpromoted_in(t, lo, hi) >= 0,
        unpromoted_in(t, lo, hi) <= hi - lo + 1,
    decreases hi - lo + 1,
{
    if hi >= lo {
        lemma_unpromoted_step(t, lo, hi - 1);
    }
}

/// The pages of block `bi` in the range are exactly those from `first_page` on, below `ipa + len`.
proof fn lemma_first_page(bi: int, j: int, ipa: int, len: int)
    requires
        0 <= bi,
        0 <= j < TABLE_ENTRIES,
        0 <= ipa,
        0 < len,
    ensures
        page_in(page_addr(bi, j), ipa, len) <==> (first_page(bi, ipa) <= j && page_addr(bi, j) < ipa + len),
{
    let g = GRANULE as int;
    let base = bi * BLK;
    assert(base % g == 0) by (nonlinear_arith)
        requires
            base == bi * 0x200_0000,
            g == 0x4000;
    if ipa > base {
        let x = ipa - base;
        vstd::arithmetic::div_mod::lemma_fundamental_div_mod(x, g);
        vstd::arithmetic::div_mod::lemma_fundamental_div_mod(ipa, g);
        assert(base == g * (bi * 2048)) by (nonlinear_arith)
            requires
                base == bi * 0x200_0000,
                g == 0x4000;
        vstd::arithmetic::div_mod::lemma_mod_multiples_vanish(bi * 2048, x, g);
        assert(ipa % g == x % g);
        assert(range_start(ipa) == base + (x / g) * g);
        assert(page_addr(bi, j) == base + j * g);
        if j >= x / g {
            assert(j * g >= (x / g) * g) by (nonlinear_arith)
                requires
                    j >= x / g,
                    g > 0;
        } else {
            assert(j * g < (x / g) * g) by (nonlinear_arith)
                requires
                    j < x / g,
                    g > 0;
        }
    } else {
        vstd::arithmetic::div_mod::lemma_fundamental_div_mod(ipa, g);
        assert(range_start(ipa) <= ipa);
        assert(page_addr(bi, j) >= base);
    }
}

impl PageTables {
    /// Every block an identity data block, no L3 table.
    pub fn new() -> (t: PageTables)
        ensures
            t.wf(),
            t.l3_count() == 0,
            forall|bi: int| 0 <= bi < TABLE_ENTRIES ==> !t.promoted(bi) && t.l2s()[bi] == block_desc(bi),
    {
        let mut l2: Vec<u64> = Vec::new();
        let mut i: usize = 0;
        while i < TABLE_ENTRIES
            invariant
                i <= TABLE_ENTRIES,
                l2@.len() == i,
                forall|b: int| 0 <= b < i ==> l2@[b] == block_desc(b),
            decreases TABLE_ENTRIES - i,
        {
            l2.push(((i as u64) * BLK) | ATTR_DATA | DESC_BLOCK);
            i += 1;
        }
        let t = PageTables { l2, l3: Vec::new() };
        assert(forall|bi: int| 0 <= bi < TABLE_ENTRIES ==> t.l2s()[bi] == block_desc(bi));
        assert forall|bi: int| 0 <= bi < TABLE_ENTRIES implies !t.promoted(bi) by {
            lemma_desc_bits(bi, 0);
            assert(t.l2s()[bi] == block_desc(bi));
            assert(block_desc(bi) & 3 == 1);
        }
        t
    }

    /// The L2 descriptors, for the guest page at `PT_L2_IPA`.
    pub fn l2_entries(&self) -> (r: &[u64])
        ensures
            r@ == self.l2s(),
    {
        self.l2.as_slice()
    }

    /// The L3 descriptors, table after table from `PT_L3_BASE`.
    pub fn l3_entries(&self) -> (r: &[u64])
        ensures
            r@ == self.l3s(),
    {
        self.l3.as_slice()
    }

    /// The IPA the next L3 table takes.
    pub fn next_l3_ipa(&self) -> (r: u64)
        requires
            self.wf(),
        ensures
            r == self.next_l3(),
    {
        let n = self.l3.len() / TABLE_ENTRIES;
        assert(n <= 1536);
        assert((n as u64) * 0x4000 <= 1536 * 0x4000) by (nonlinear_arith)
            requires
                n <= 1536;
        PT_L3_BASE + (n as u64) * (GRANULE as u64)
    }

    /// The index of the L3 table that promoted block `bi` points at.
    fn table_of(&self, bi: usize) -> (k: usize)
        requires
            self.wf(),
            bi < TABLE_ENTRIES,
            self.promoted(bi as int),
        ensures
            k == self.owner_table(bi as int),
            k < self.l3_count(),
            self.l2s()[bi as int] == table_desc(k as int),
    {
        let d = self.l2[bi];
        proof {
            lemma_desc_bits(bi as int, 0);
            if d == block_desc(bi as int) {
                assert(false);
            }
            let k0 = choose|k: int| 0 <= k < self.l3_count() && self.l2s()[bi as int] == table_desc(k);
            lemma_desc_bits(bi as int, k0);
            assert forall|k1: int| 0 <= k1 < self.l3_count() && self.l2s()[bi as int] == table_desc(k1) implies k1 == k0 by {
                lemma_table_desc_injective(k0, k1);
            }
        }
        let a = d & !(GRANULE as u64 - 1);
        ((a - PT_L3_BASE) / GRANULE as u64) as usize
    }
}

/// A block whose L2 entry is the descriptor of table `k` is owned by that table.
proof fn lemma_owner(t: PageTables, b: int, k: int)
    requires
        0 <= k < t.l3_count(),
        t.l3_count() <= L3_CAPACITY,
        0 <= b < t.l2s().len(),
        t.l2s()[b] == table_desc(k),
    ensures
        t.owner_table(b) == k,
        t.promoted(b),
{
    lemma_desc_bits(0, k);
    let k0 = t.owner_table(b);
    assert(0 <= k0 < t.l3_count() && t.l2s()[b] == table_desc(k0));
    lemma_table_desc_injective(k0, k);
}

/// In a well-formed table set, a block is either its identity data block or owned by one table.
proof fn lemma_block_state(t: PageTables, b: int)
    requires
        t.wf(),
        0 <= b < TABLE_ENTRIES,
    ensures
        !t.promoted(b) ==> t.l2s()[b] == block_desc(b),
        t.promoted(b) ==> 0 <= t.owner_table(b) < t.l3_count() && t.l2s()[b] == table_desc(t.owner_table(b)),
{
    lemma_desc_bits(b, 0);
    if t.l2s()[b] != block_desc(b) {
        let k = choose|k: int| 0 <= k < t.l3_count() && t.l2s()[b] == table_desc(k);
        lemma_owner(t, b, k);
    }
}

impl PageTables {
    /// Promote block `bi` if it is still a data block, then give the pages of `[ipa, ipa + len)`
    /// inside it attribute `attr`. Returns the new L3 table's IPA when one was made.
    fn set_block(&mut self, bi: usize, ipa: u64, len: u64, attr: u64) -> (made: Option<u64>)
        requires
            old(self).wf(),
            bi < TABLE_ENTRIES,
            0 < len,
            ipa + len <= 0x10_0000_0000u64,
            !old(self).promoted(bi as int) ==> old(self).l3_count() < L3_CAPACITY,
        ensures
            final(self).wf(),
            final(self).l3_count() == old(self).l3_count() + if old(self).promoted(bi as int) { 0int } else { 1int },
            made == if old(self).promoted(bi as int) { None } else { Some(l3_ipa(old(self).l3_count())) },
            forall|b: int| 0 <= b < TABLE_ENTRIES ==> final(self).promoted(b) == (old(self).promoted(b) || b == bi),
            forall|b: int, j: int|
                0 <= b < TABLE_ENTRIES && 0 <= j < TABLE_ENTRIES ==> final(self).eff(b, j) == if b == bi
                    && page_in(page_addr(b, j), ipa as int, len as int) {
                    page_desc(page_addr(b, j), attr)
                } else {
                    old(self).eff(b, j)
                },
    {
        let ghost t0 = *self;
        proof {
            lemma_block_state(t0, bi as int);
        }
        let was = self.l2[bi] & 0x3 == DESC_TABLE;
        let mut made: Option<u64> = None;
        let k: usize = if was {
            self.table_of(bi)
        } else {
            let k = self.l3.len() / TABLE_ENTRIES;
            assert((bi as u64) * BLK <= 2047 * 0x200_0000) by (nonlinear_arith)
                requires
                    bi < 2048,
                    BLK == 0x200_0000;
            let mut j: usize = 0;
            while j < TABLE_ENTRIES
                invariant
                    j <= TABLE_ENTRIES,
                    k == t0.l3_count(),
                    self.l3@.len() == t0.l3s().len() + j,
                    self.l2@ == t0.l2s(),
                    t0.l3s().len() == k * TABLE_ENTRIES,
                    k < L3_CAPACITY,
                    bi < TABLE_ENTRIES,
                    (bi as u64) * BLK <= 2047 * 0x200_0000,
                    forall|q: int| 0 <= q < t0.l3s().len() ==> self.l3@[q] == t0.l3s()[q],
                    forall|q: int| 0 <= q < j ==> self.l3@[k * TABLE_ENTRIES + q] == page_desc(page_addr(bi as int, q), ATTR_DATA),
                decreases TABLE_ENTRIES - j,
            {
                assert((j as u64) * (GRANULE as u64) <= 2047 * 0x4000) by (nonlinear_arith)
                    requires
                        j < 2048,
                        GRANULE == 0x4000;
                self.l3.push(((bi as u64) * BLK + (j as u64) * (GRANULE as u64)) | ATTR_DATA | DESC_PAGE);
                j += 1;
            }
            let d = (PT_L3_BASE + (k as u64) * (GRANULE as u64)) | DESC_TABLE;
            self.l2.set(bi, d);
            made = Some(PT_L3_BASE + (k as u64) * (GRANULE as u64));
            proof {
                assert(self.l3@.len() == (k + 1) * TABLE_ENTRIES);
                assert(self.l3_count() == k + 1) by (nonlinear_arith)
                    requires
                        self.l3@.len() == (k + 1) * 2048,
                        self.l3_count() == self.l3@.len() as int / 2048;
                assert(d == table_desc(k as int));
                lemma_owner(*self, bi as int, k as int);
                assert forall|b1: int, b2: int, kk: int|
                    0 <= b1 < TABLE_ENTRIES && 0 <= b2 < TABLE_ENTRIES && b1 != b2 && 0 <= kk < self.l3_count()
                        && self.l2s()[b1] == table_desc(kk) implies self.l2s()[b2] != table_desc(kk) by {
                    lemma_block_state(t0, b1);
                    lemma_block_state(t0, b2);
                    lemma_desc_bits(b1, kk);
                    lemma_desc_bits(b2, kk);
                    lemma_desc_bits(b1, k as int);
                    if self.l2s()[b2] == table_desc(kk) {
                        if kk == k {
                            if b1 != bi {
                                if t0.promoted(b1) {
                                    lemma_table_desc_injective(t0.owner_table(b1), kk);
                                }
                            } else {
                                if t0.promoted(b2) {
                                    lemma_table_desc_injective(t0.owner_table(b2), kk);
                                }
                            }
                        } else {
                            if b1 == bi {
                                lemma_table_desc_injective(k as int, kk);
                            } else if b2 == bi {
                                lemma_table_desc_injective(k as int, kk);
                            } else {
                                if t0.promoted(b1) {
                                    lemma_table_desc_injective(t0.owner_table(b1), kk);
                                }
                                if t0.promoted(b2) {
                                    lemma_table_desc_injective(t0.owner_table(b2), kk);
                                }
                            }
                        }
                        assert(false);
                    }
                }
                assert forall|b: int| 0 <= b < TABLE_ENTRIES implies self.l2s()[b] == block_desc(b) || exists|kk: int|
                    0 <= kk < self.l3_count() && self.l2s()[b] == table_desc(kk) by {
                    lemma_block_state(t0, b);
                    if b != bi && t0.promoted(b) {
                        assert(self.l2s()[b] == table_desc(t0.owner_table(b)));
                    }
                }
                assert forall|b: int| 0 <= b < TABLE_ENTRIES && b != bi && t0.promoted(b) implies
                    self.owner_table(b) == t0.owner_table(b) by {
                    lemma_block_state(t0, b);
                    lemma_owner(*self, b, t0.owner_table(b));
                }
                assert forall|b: int, q: int| 0 <= b < TABLE_ENTRIES && 0 <= q < TABLE_ENTRIES implies
                    #[trigger] self.eff(b, q) == t0.eff(b, q) by {
                    lemma_block_state(t0, b);
                    if b == bi {
                        assert(self.l3@[k * TABLE_ENTRIES + q] == page_desc(page_addr(bi as int, q), ATTR_DATA));
                    } else if t0.promoted(b) {
                        let kb = t0.owner_table(b);
                        assert(kb * TABLE_ENTRIES + q < t0.l3s().len()) by (nonlinear_arith)
                            requires
                                0 <= kb < t0.l3_count(),
                                0 <= q < 2048,
                                t0.l3_count() == t0.l3s().len() / 2048,
                                t0.l3s().len() % 2048 == 0;
                        assert(self.l3@[kb * TABLE_ENTRIES + q] == t0.l3s()[kb * TABLE_ENTRIES + q]);
                    }
                }
            }
            k
        };
        let ghost t1 = *self;
        proof {
            lemma_owner(t1, bi as int, k as int);
            assert(forall|b: int, q: int| 0 <= b < TABLE_ENTRIES && 0 <= q < TABLE_ENTRIES ==>
                #[trigger] t1.eff(b, q) == t0.eff(b, q));
            assert(forall|b: int| 0 <= b < TABLE_ENTRIES ==> #[trigger] t1.promoted(b) == (t0.promoted(b) || b == bi));
        }
        assert((bi as u64) * BLK <= 2047 * 0x200_0000) by (nonlinear_arith)
            requires
                bi < 2048,
                BLK == 0x200_0000;
        let base = (bi as u64) * BLK;
        let mut j: usize = if ipa > base {
            ((ipa - base) / (GRANULE as u64)) as usize
        } else {
            0
        };
        assert(j == first_page(bi as int, ipa as int));
        while j < TABLE_ENTRIES && base + (j as u64) * 0x4000 < ipa + len
            invariant
                t1.wf(),
                self.l2@ == t1.l2s(),
                self.l3@.len() == t1.l3s().len(),
                k == t1.owner_table(bi as int),
                k < t1.l3_count(),
                bi < TABLE_ENTRIES,
                base == bi * BLK,
                base <= 2047 * 0x200_0000,
                ipa + len <= 0x10_0000_0000u64,
                first_page(bi as int, ipa as int) <= j,
                j > first_page(bi as int, ipa as int) ==> page_addr(bi as int, j - 1) < ipa + len,
                forall|q: int| 0 <= q < t1.l3s().len() && !(k * TABLE_ENTRIES <= q < k * TABLE_ENTRIES + TABLE_ENTRIES)
                    ==> self.l3@[q] == t1.l3s()[q],
                forall|q: int|
                    0 <= q < TABLE_ENTRIES ==> #[trigger] slot(self.l3@, k as int, q) == if first_page(bi as int, ipa as int) <= q < j {
                        page_desc(page_addr(bi as int, q), attr)
                    } else {
                        slot(t1.l3s(), k as int, q)
                    },
            decreases TABLE_ENTRIES - j,
        {
            let ghost before = self.l3@;
            assert(k * TABLE_ENTRIES + j < t1.l3s().len()) by (nonlinear_arith)
                requires
                    k < t1.l3_count(),
                    j < 2048,
                    t1.l3_count() == t1.l3s().len() / 2048,
                    t1.l3s().len() % 2048 == 0;
            let v = (base + (j as u64) * 0x4000) | attr | DESC_PAGE;
            assert(v == page_desc(page_addr(bi as int, j as int), attr));
            self.l3.set(k * TABLE_ENTRIES + j, v);
            assert(self.l3@ == before.update(k * TABLE_ENTRIES + j, v));
            assert forall|q: int| 0 <= q < TABLE_ENTRIES implies #[trigger] slot(self.l3@, k as int, q) == if first_page(bi as int, ipa as int) <= q < j + 1 {
                page_desc(page_addr(bi as int, q), attr)
            } else {
                slot(t1.l3s(), k as int, q)
            } by {
                assert(slot(before, k as int, q) == if first_page(bi as int, ipa as int) <= q < j {
                    page_desc(page_addr(bi as int, q), attr)
                } else {
                    slot(t1.l3s(), k as int, q)
                });
            }
            assert forall|q: int| 0 <= q < t1.l3s().len() && !(k * TABLE_ENTRIES <= q < k * TABLE_ENTRIES + TABLE_ENTRIES)
                implies self.l3@[q] == t1.l3s()[q] by {
                assert(before[q] == t1.l3s()[q]);
            }
            j += 1;
        }
        proof {
            assert forall|b: int| 0 <= b < TABLE_ENTRIES && self.promoted(b) implies self.owner_table(b) == t1.owner_table(b) by {
                lemma_block_state(t1, b);
                lemma_owner(*self, b, t1.owner_table(b));
            }
            assert forall|b: int, q: int|
                0 <= b < TABLE_ENTRIES && 0 <= q < TABLE_ENTRIES implies self.eff(b, q) == if b == bi
                    && page_in(page_addr(b, q), ipa as int, len as int) {
                    page_desc(page_addr(b, q), attr)
                } else {
                    t0.eff(b, q)
                } by {
                lemma_block_state(t1, b);
                lemma_block_state(t0, b);
                if b == bi {
                    lemma_first_page(b, q, ipa as int, len as int);
                    if q >= j {
                        assert(page_addr(b, q) >= page_addr(b, j as int));
                    }
                } else if t1.promoted(b) {
                    let kb = t1.owner_table(b);
                    assert(kb != k) by {
                        if kb == k {
                            assert(t1.l2s()[b] == table_desc(k as int));
                            assert(t1.l2s()[bi as int] == table_desc(k as int));
                        }
                    }
                    assert(kb * TABLE_ENTRIES + q < k * TABLE_ENTRIES || kb * TABLE_ENTRIES + q >= k * TABLE_ENTRIES
                        + TABLE_ENTRIES) by (nonlinear_arith)
                        requires
                            kb != k,
                            0 <= q < 2048,
                            0 <= kb,
                            0 <= k;
                    assert(kb * TABLE_ENTRIES + q < t1.l3s().len()) by (nonlinear_arith)
                        requires
                            0 <= kb < t1.l3_count(),
                            0 <= q < 2048,
                            t1.l3_count() == t1.l3s().len() / 2048,
                            t1.l3s().len() % 2048 == 0;
                }
            }
        }
        made
    }
}

/// A larger range of blocks holds at least as many unpromoted ones.
proof fn lemma_unpromoted_mono(t: PageTables, lo: int, m: int, hi: int)
    requires
        lo <= m + 1,
        m <= hi,
    ensures
        unpromoted_in(t, lo, m) <= unpromoted_in(t, lo, hi),
    decreases hi - m,
{
    if m < hi {
        lemma_unpromoted_mono(t, lo, m, hi - 1);
        lemma_unpromoted_step(t, lo, hi - 1);
    }
}

/// The L3 tables a range would need: how many of the blocks it covers are still data blocks.
pub open spec fn tables_needed_for(t: PageTables, ipa: int, len: int) -> int {
    unpromoted_in(t, ipa / (BLK as int), (ipa + len - 1) / (BLK as int))
}

/// A descriptor that maps its page executable at EL0: valid, and UXN clear.
pub open spec fn is_exec_desc(d: u64) -> bool {
    d & 3 != 0 && d & UXN == 0
}

/// The block an address falls in.
pub open spec fn block_of(x: int) -> int {
    x / (BLK as int)
}

/// The page index of an address inside its block.
pub open spec fn page_of(x: int) -> int {
    (x % (BLK as int)) / (GRANULE as int)
}

/// The guest may execute the page holding `x`: it lies below the 36-bit IPA limit and its
/// effective descriptor is executable.
pub open spec fn exec_at(t: PageTables, x: int) -> bool {
    0 <= x < 0x10_0000_0000 && is_exec_desc(t.eff(block_of(x), page_of(x)))
}

/// The address of the page holding `x` is that of page `page_of(x)` of block `block_of(x)`.
proof fn lemma_page_of(x: int)
    requires
        0 <= x < 0x10_0000_0000,
    ensures
        0 <= block_of(x) < TABLE_ENTRIES,
        0 <= page_of(x) < TABLE_ENTRIES,
        page_addr(block_of(x), page_of(x)) == x - x % (GRANULE as int),
        page_addr(block_of(x), page_of(x)) <= x < page_addr(block_of(x), page_of(x)) + GRANULE,
{
    let b = BLK as int;
    let g = GRANULE as int;
    vstd::arithmetic::div_mod::lemma_fundamental_div_mod(x, b);
    vstd::arithmetic::div_mod::lemma_fundamental_div_mod(x % b, g);
    vstd::arithmetic::div_mod::lemma_fundamental_div_mod(x, g);
    assert(x % g == (x % b) % g) by (nonlinear_arith)
        requires
            b == 0x200_0000,
            g == 0x4000,
            x == b * (x / b) + x % b,
            0 <= x % b < b,
            x % b == g * ((x % b) / g) + (x % b) % g,
            0 <= (x % b) % g < g,
            x == g * (x / g) + x % g,
            0 <= x % g < g;
    assert(0 <= x / b < 2048) by (nonlinear_arith)
        requires
            b == 0x200_0000,
            0 <= x < 0x10_0000_0000;
    assert(0 <= (x % b) / g < 2048) by (nonlinear_arith)
        requires
            b == 0x200_0000,
            g == 0x4000,
            0 <= x % b < b;
}

/// `t1` is `t0` with the pages of `[ipa, ipa + len)` made executable and nothing else changed:
/// an address is executable in `t1` exactly when its page is in the range or it already was.
pub open spec fn exec_extended(t0: PageTables, t1: PageTables, ipa: int, len: int) -> bool {
    forall|x: int|
        0 <= x < 0x10_0000_0000 ==> #[trigger] exec_at(t1, x) == (page_in(x - x % (GRANULE as int), ipa, len)
            || exec_at(t0, x))
}

/// Once a range is made executable, every address in it is: the guest can run code anywhere in
/// `[ipa, ipa + len)`, not merely on the pages the range starts or ends in.
pub proof fn lemma_exec_range_is_executable(t0: PageTables, t1: PageTables, ipa: u64, len: u64, x: int)
    requires
        exec_extended(t0, t1, ipa as int, len as int),
        ipa + len <= 0x10_0000_0000,
        ipa <= x < ipa + len,
    ensures
        exec_at(t1, x),
{
    let g = GRANULE as int;
    let a = ipa as int;
    vstd::arithmetic::div_mod::lemma_fundamental_div_mod(x, g);
    vstd::arithmetic::div_mod::lemma_fundamental_div_mod(a, g);
    assert(a - a % g <= x - x % g) by (nonlinear_arith)
        requires
            g == 0x4000,
            a <= x,
            x == g * (x / g) + x % g,
            a == g * (a / g) + a % g,
            0 <= x % g < g,
            0 <= a % g < g;
    assert(page_in(x - x % g, ipa as int, len as int));
}

/// A data block, and a data page, never map executable; a page given `attr` is executable
/// exactly when `attr` clears UXN.
proof fn lemma_exec_bits(bi: int, p: int, attr: u64)
    requires
        0 <= bi < 2048,
        0 <= p < 0x10_0000_0000,
    ensures
        !is_exec_desc(block_desc(bi)),
        !is_exec_desc(page_desc(p, ATTR_DATA)),
        is_exec_desc(page_desc(p, attr)) <==> attr & UXN == 0,
{
    let b: u64 = (bi * 0x200_0000) as u64;
    let q: u64 = p as u64;
    assert(b < 0x10_0000_0000) by (nonlinear_arith)
        requires
            0 <= bi < 2048,
            b == bi * 0x200_0000;
    assert(b < 0x10_0000_0000u64 ==> (b | 0x0060_0000_0000_0740u64 | 1u64) & 0x0040_0000_0000_0000u64 != 0)
        by (bit_vector);
    assert(q < 0x10_0000_0000u64 ==> (q | 0x0060_0000_0000_0740u64 | 3u64) & 0x0040_0000_0000_0000u64 != 0)
        by (bit_vector);
    assert(q < 0x10_0000_0000u64 ==> ((q | attr | 3u64) & 3u64 != 0 && ((q | attr | 3u64) & 0x0040_0000_0000_0000u64
        == 0 <==> attr & 0x0040_0000_0000_0000u64 == 0))) by (bit_vector);
}

impl PageTables {
    /// How many fresh L3 tables giving `[ipa, ipa + len)` its own attribute would take.
    pub fn tables_needed(&self, ipa: u64, len: u64) -> (n: usize)
        requires
            self.wf(),
            0 < len,
            ipa + len <= 0x10_0000_0000u64,
        ensures
            n == tables_needed_for(*self, ipa as int, len as int),
    {
        let lo = ipa / BLK;
        let hi = (ipa + len - 1) / BLK;
        assert(hi < 2048) by (nonlinear_arith)
            requires
                hi == (ipa + len - 1) / 0x200_0000,
                ipa + len <= 0x10_0000_0000u64,
                0 < len;
        assert(lo <= hi) by (nonlinear_arith)
            requires
                lo == ipa / 0x200_0000,
                hi == (ipa + len - 1) / 0x200_0000,
                0 < len;
        let mut n: usize = 0;
        let mut b: u64 = lo;
        while b <= hi
            invariant
                lo <= b <= hi + 1,
                hi < 2048,
                self.wf(),
                n == unpromoted_in(*self, lo as int, b - 1),
                n <= b - lo,
            decreases hi + 1 - b,
        {
            if self.l2[b as usize] & 0x3 != DESC_TABLE {
                n += 1;
            }
            b += 1;
        }
        n
    }

    /// Give the pages of `[ipa, ipa + len)` attribute `attr`: each 32 MiB block the range covers
    /// is promoted to an identity-filled L3 table first (a block already promoted keeps its table),
    /// then the range's pages are rewritten. Returns the IPAs of the L3 tables it made, in order;
    /// the caller maps them.
    pub fn set_region_exec_attr(&mut self, ipa: u64, len: u64, attr: u64) -> (made: Vec<u64>)
        requires
            old(self).wf(),
            0 < len,
            ipa + len <= 0x10_0000_0000u64,
            old(self).l3_count() + tables_needed_for(*old(self), ipa as int, len as int) <= L3_CAPACITY,
        ensures
            final(self).wf(),
            final(self).l3_count() == old(self).l3_count() + tables_needed_for(*old(self), ipa as int, len as int),
            made@ == Seq::new(
                tables_needed_for(*old(self), ipa as int, len as int) as nat,
                |i: int| l3_ipa(old(self).l3_count() + i),
            ),
            forall|b: int| 0 <= b < TABLE_ENTRIES ==> #[trigger] final(self).promoted(b) == (old(self).promoted(b)
                || block_of(ipa as int) <= b <= block_of(ipa + len - 1)),
            forall|b: int, j: int|
                0 <= b < TABLE_ENTRIES && 0 <= j < TABLE_ENTRIES ==> #[trigger] final(self).eff(b, j) == if page_in(
                    page_addr(b, j),
                    ipa as int,
                    len as int,
                ) {
                    page_desc(page_addr(b, j), attr)
                } else {
                    old(self).eff(b, j)
                },
    {
        let ghost t0 = *self;
        let lo = ipa / BLK;
        let hi = (ipa + len - 1) / BLK;
        assert(hi < 2048) by (nonlinear_arith)
            requires
                hi == (ipa + len - 1) / 0x200_0000,
                ipa + len <= 0x10_0000_0000u64,
                0 < len;
        assert(lo <= hi) by (nonlinear_arith)
            requires
                lo == ipa / 0x200_0000,
                hi == (ipa + len - 1) / 0x200_0000,
                0 < len;
        proof {
            lemma_unpromoted_step(t0, lo as int, hi as int);
        }
        let mut made: Vec<u64> = Vec::new();
        let mut b: u64 = lo;
        while b <= hi
            invariant
                lo <= b <= hi + 1,
                hi < 2048,
                lo == ipa / BLK,
                hi == (ipa + len - 1) / (BLK as int),
                0 < len,
                ipa + len <= 0x10_0000_0000u64,
                t0.wf(),
                self.wf(),
                t0.l3_count() + unpromoted_in(t0, lo as int, hi as int) <= L3_CAPACITY,
                self.l3_count() == t0.l3_count() + unpromoted_in(t0, lo as int, b - 1),
                made@ == Seq::new(unpromoted_in(t0, lo as int, b - 1) as nat, |i: int| l3_ipa(t0.l3_count() + i)),
                forall|x: int| 0 <= x < TABLE_ENTRIES ==> #[trigger] self.promoted(x) == (t0.promoted(x) || lo <= x < b),
                forall|x: int, j: int|
                    0 <= x < TABLE_ENTRIES && 0 <= j < TABLE_ENTRIES ==> #[trigger] self.eff(x, j) == if lo <= x < b
                        && page_in(page_addr(x, j), ipa as int, len as int) {
                        page_desc(page_addr(x, j), attr)
                    } else {
                        t0.eff(x, j)
                    },
            decreases hi + 1 - b,
        {
            proof {
                lemma_unpromoted_step(t0, lo as int, b as int);
                lemma_unpromoted_step(t0, lo as int, b - 1);
                lemma_unpromoted_mono(t0, lo as int, b as int, hi as int);
            }
            let ghost before = *self;
            let ghost mb = made@;
            let r = self.set_block(b as usize, ipa, len, attr);
            match r {
                Some(a) => {
                    made.push(a);
                    assert(!t0.promoted(b as int));
                    assert(unpromoted_in(t0, lo as int, b as int) == unpromoted_in(t0, lo as int, b - 1) + 1);
                    assert(a == l3_ipa(t0.l3_count() + unpromoted_in(t0, lo as int, b - 1)));
                    assert(made@ == mb.push(a));
                    assert(mb.len() == unpromoted_in(t0, lo as int, b - 1));
                    assert(made@ =~= Seq::new(unpromoted_in(t0, lo as int, b as int) as nat, |i: int| l3_ipa(t0.l3_count() + i)));
                },
                None => {
                    assert(t0.promoted(b as int));
                    assert(made@ =~= Seq::new(unpromoted_in(t0, lo as int, b as int) as nat, |i: int| l3_ipa(t0.l3_count() + i)));
                },
            }
            proof {
                assert forall|x: int, j: int|
                    0 <= x < TABLE_ENTRIES && 0 <= j < TABLE_ENTRIES implies #[trigger] self.eff(x, j) == if lo <= x < b + 1
                        && page_in(page_addr(x, j), ipa as int, len as int) {
                        page_desc(page_addr(x, j), attr)
                    } else {
                        t0.eff(x, j)
                    } by {
                    assert(before.eff(x, j) == if lo <= x < b && page_in(page_addr(x, j), ipa as int, len as int) {
                        page_desc(page_addr(x, j), attr)
                    } else {
                        t0.eff(x, j)
                    });
                }
                assert forall|x: int| 0 <= x < TABLE_ENTRIES implies #[trigger] self.promoted(x) == (t0.promoted(x) || lo <= x < b + 1) by {
                    assert(before.promoted(x) == (t0.promoted(x) || lo <= x < b));
                }
            }
            b += 1;
        }
        proof {
            assert(block_of(ipa as int) == lo);
            assert(block_of(ipa + len - 1) == hi);
            assert forall|x: int, j: int|
                0 <= x < TABLE_ENTRIES && 0 <= j < TABLE_ENTRIES && page_in(page_addr(x, j), ipa as int, len as int)
                implies lo <= x <= hi by {
                lemma_block_range(x, j, ipa as int, len as int);
            }
        }
        made
    }

    /// Make the pages of `[ipa, ipa + len)` executable guest code (`ATTR_CODE`).
    pub fn set_region_exec(&mut self, ipa: u64, len: u64) -> (made: Vec<u64>)
        requires
            old(self).wf(),
            0 < len,
            ipa + len <= 0x10_0000_0000u64,
            old(self).l3_count() + tables_needed_for(*old(self), ipa as int, len as int) <= L3_CAPACITY,
        ensures
            final(self).wf(),
            final(self).l3_count() == old(self).l3_count() + tables_needed_for(*old(self), ipa as int, len as int),
            made@ == Seq::new(
                tables_needed_for(*old(self), ipa as int, len as int) as nat,
                |i: int| l3_ipa(old(self).l3_count() + i),
            ),
            exec_extended(*old(self), *final(self), ipa as int, len as int),
    {
        let ghost t0 = *self;
        let made = self.set_region_exec_attr(ipa, len, ATTR_CODE);
        proof {
            assert forall|x: int| 0 <= x < 0x10_0000_0000 implies #[trigger] exec_at(*self, x) == (page_in(
                x - x % (GRANULE as int),
                ipa as int,
                len as int,
            ) || exec_at(t0, x)) by {
                lemma_page_of(x);
                let p = page_addr(block_of(x), page_of(x));
                lemma_exec_bits(block_of(x), p, ATTR_CODE);
                assert(0x0020_0000_0000_07C0u64 & 0x0040_0000_0000_0000u64 == 0) by (bit_vector);
            }
        }
        made
    }

    /// Whether the guest may execute the page holding `ipa` at EL0, read off the walk's leaf: an
    /// L2 block descriptor (a data block, never executable) or the block's L3 page descriptor.
    pub fn ipa_is_exec(&self, ipa: u64) -> (r: bool)
        requires
            self.wf(),
        ensures
            r == exec_at(*self, ipa as int),
    {
        let bi = ipa / BLK;
        if bi >= 2048 {
            return false;
        }
        proof {
            lemma_page_of(ipa as int);
            lemma_block_state(*self, bi as int);
        }
        let leaf = if self.l2[bi as usize] & 0x3 == DESC_TABLE {
            let k = self.table_of(bi as usize);
            let idx = ((ipa - bi * BLK) / (GRANULE as u64)) as usize;
            assert(idx == page_of(ipa as int));
            assert(k * TABLE_ENTRIES + idx < self.l3s().len()) by (nonlinear_arith)
                requires
                    k < self.l3_count(),
                    idx < 2048,
                    self.l3_count() == self.l3s().len() / 2048,
                    self.l3s().len() % 2048 == 0;
            self.l3[k * TABLE_ENTRIES + idx]
        } else {
            proof {
                lemma_exec_bits(bi as int, page_addr(bi as int, page_of(ipa as int)), ATTR_DATA);
            }
            self.l2[bi as usize]
        };
        leaf & 0x3 != 0 && leaf & UXN == 0
    }
}

/// A page of the range lies in a block between the range's first and last.
proof fn lemma_block_range(x: int, j: int, ipa: int, len: int)
    requires
        0 <= x < TABLE_ENTRIES,
        0 <= j < TABLE_ENTRIES,
        0 <= ipa,
        0 < len,
        page_in(page_addr(x, j), ipa, len),
    ensures
        block_of(ipa) <= x <= block_of(ipa + len - 1),
{
    let b = BLK as int;
    let g = GRANULE as int;
    let p = page_addr(x, j);
    vstd::arithmetic::div_mod::lemma_fundamental_div_mod(ipa, g);
    vstd::arithmetic::div_mod::lemma_fundamental_div_mod(ipa, b);
    vstd::arithmetic::div_mod::lemma_fundamental_div_mod(ipa + len - 1, b);
    assert(x * b <= p < x * b + b) by (nonlinear_arith)
        requires
            p == x * b + j * g,
            0 <= j < 2048,
            g == 0x4000,
            b == 0x200_0000;
    assert((ipa / b) * b <= ipa - ipa % g) by (nonlinear_arith)
        requires
            b == 0x200_0000,
            g == 0x4000,
            ipa == b * (ipa / b) + ipa % b,
            0 <= ipa % b < b,
            ipa == g * (ipa / g) + ipa % g,
            0 <= ipa % g < g;
    assert(ipa / b <= x) by (nonlinear_arith)
        requires
            (ipa / b) * b <= p,
            p < x * b + b,
            b > 0;
    assert(x <= (ipa + len - 1) / b) by (nonlinear_arith)
        requires
            x * b <= p,
            p <= ipa + len - 1,
            ipa + len - 1 == b * ((ipa + len - 1) / b) + (ipa + len - 1) % b,
            0 <= (ipa + len - 1) % b < b,
            b > 0;
}

/// A range `(ipa, len, attr)` reaches block `x`: `x` lies between the blocks of its first and
/// last byte.
pub open spec fn spans(r: (u64, u64, u64), x: int) -> bool {
    block_of(r.0 as int) <= x <= block_of(r.0 + r.1 - 1)
}

/// Some range of `rs` reaches block `x`.
pub open spec fn covered_by(rs: Seq<(u64, u64, u64)>, x: int) -> bool
    decreases rs.len(),
{
    rs.len() > 0 && (spans(rs.last(), x) || covered_by(rs.drop_last(), x))
}

/// How many of the blocks below `n` some range of `rs` reaches.
pub open spec fn covered_count(rs: Seq<(u64, u64, u64)>, n: int) -> int
    decreases n,
{
    if n <= 0 {
        0
    } else {
        covered_count(rs, n - 1) + if covered_by(rs, n - 1) { 1int } else { 0int }
    }
}

/// The attribute the last range of `rs` holding page `p` gives it, if one does.
pub open spec fn last_attr(rs: Seq<(u64, u64, u64)>, p: int) -> Option<u64>
    decreases rs.len(),
{
    if rs.len() == 0 {
        None
    } else if page_in(p, rs.last().0 as int, rs.last().1 as int) {
        Some(rs.last().2)
    } else {
        last_attr(rs.drop_last(), p)
    }
}

/// Adding a range that reaches blocks `[lo, hi]` to `s0` adds to the count of reached blocks
/// exactly those of `[lo, hi]` that were not yet reached, which are `t`'s unpromoted ones.
proof fn lemma_count_step(t: PageTables, s0: Seq<(u64, u64, u64)>, s1: Seq<(u64, u64, u64)>, lo: int, hi: int, n: int)
    requires
        0 <= lo <= hi,
        0 <= n,
        forall|x: int| 0 <= x < n ==> t.promoted(x) == covered_by(s0, x),
        forall|x: int| 0 <= x < n ==> covered_by(s1, x) == (covered_by(s0, x) || lo <= x <= hi),
    ensures
        covered_count(s1, n) == covered_count(s0, n) + unpromoted_in(t, lo, if hi < n - 1 { hi } else { n - 1 }),
    decreases n,
{
    if n > 0 {
        lemma_count_step(t, s0, s1, lo, hi, n - 1);
        assert(t.promoted(n - 1) == covered_by(s0, n - 1));
        assert(covered_by(s1, n - 1) == (covered_by(s0, n - 1) || lo <= n - 1 <= hi));
    }
}

/// Where every block `s1` reaches `s2` reaches too, `s2` reaches at least as many.
proof fn lemma_count_mono(s1: Seq<(u64, u64, u64)>, s2: Seq<(u64, u64, u64)>, n: int)
    requires
        forall|x: int| 0 <= x < n ==> covered_by(s1, x) ==> covered_by(s2, x),
    ensures
        covered_count(s1, n) <= covered_count(s2, n),
    decreases n,
{
    if n > 0 {
        lemma_count_mono(s1, s2, n - 1);
        assert(covered_by(s1, n - 1) ==> covered_by(s2, n - 1));
    }
}

/// A block a prefix of `s` reaches, `s` reaches.
proof fn lemma_covered_prefix(s: Seq<(u64, u64, u64)>, k: int, x: int)
    requires
        0 <= k <= s.len(),
        covered_by(s.take(k), x),
    ensures
        covered_by(s, x),
    decreases s.len() - k,
{
    if k == s.len() {
        assert(s.take(k) =~= s);
    } else {
        assert(s.take(k + 1).drop_last() =~= s.take(k));
        lemma_covered_prefix(s, k + 1, x);
    }
}

/// Does some range of `exec` reach block `x`?
fn reaches(exec: &[(u64, u64, u64)], x: u64) -> (b: bool)
    requires
        forall|i: int| 0 <= i < exec@.len() ==> 0 < (#[trigger] exec@[i]).1 && exec@[i].0 + exec@[i].1 <= 0x10_0000_0000u64,
    ensures
        b == covered_by(exec@, x as int),
{
    let mut i: usize = 0;
    let mut b = false;
    while i < exec.len()
        invariant
            i <= exec@.len(),
            forall|q: int| 0 <= q < exec@.len() ==> 0 < (#[trigger] exec@[q]).1 && exec@[q].0 + exec@[q].1 <= 0x10_0000_0000u64,
            b == covered_by(exec@.take(i as int), x as int),
        decreases exec@.len() - i,
    {
        let (ipa, len, _) = exec[i];
        assert(exec@.take(i + 1).drop_last() =~= exec@.take(i as int));
        assert(exec@.take(i + 1).last() == exec@[i as int]);
        if ipa / BLK <= x && x <= (ipa + len - 1) / BLK {
            b = true;
        }
        i += 1;
    }
    assert(exec@.take(exec@.len() as int) =~= exec@);
    b
}

/// How many L3 tables the map for `exec` needs: the blocks its ranges reach. `build_tables`
/// takes at most `L3_CAPACITY` of them.
pub fn blocks_reached(exec: &[(u64, u64, u64)]) -> (n: usize)
    requires
        forall|i: int| 0 <= i < exec@.len() ==> 0 < (#[trigger] exec@[i]).1 && exec@[i].0 + exec@[i].1 <= 0x10_0000_0000u64,
    ensures
        n == covered_count(exec@, TABLE_ENTRIES as int),
{
    let mut n: usize = 0;
    let mut x: usize = 0;
    while x < TABLE_ENTRIES
        invariant
            x <= TABLE_ENTRIES,
            n <= x,
            forall|i: int| 0 <= i < exec@.len() ==> 0 < (#[trigger] exec@[i]).1 && exec@[i].0 + exec@[i].1 <= 0x10_0000_0000u64,
            n == covered_count(exec@, x as int),
        decreases TABLE_ENTRIES - x,
    {
        if reaches(exec, x as u64) {
            n += 1;
        }
        x += 1;
    }
    n
}

/// The L1 table: its first entry points at the L2 table (one L1 entry spans the whole 64 GiB IPA
/// space), the others are invalid.
pub fn l1_table() -> (v: Vec<u64>)
    ensures
        v@.len() == TABLE_ENTRIES,
        v@[0] == PT_L2_IPA | DESC_TABLE,
        forall|i: int| 1 <= i < TABLE_ENTRIES ==> v@[i] == 0,
{
    let mut v: Vec<u64> = Vec::new();
    v.push(PT_L2_IPA | DESC_TABLE);
    let mut i: usize = 1;
    while i < TABLE_ENTRIES
        invariant
            1 <= i <= TABLE_ENTRIES,
            v@.len() == i,
            v@[0] == PT_L2_IPA | DESC_TABLE,
            forall|q: int| 1 <= q < i ==> v@[q] == 0,
        decreases TABLE_ENTRIES - i,
    {
        v.push(0);
        i += 1;
    }
    v
}

/// The W^X tables for a fresh address space: every block a data block, then each range of `exec`
/// in turn given its attribute, a later range overriding an earlier one where they share a page.
pub fn build_tables(exec: &[(u64, u64, u64)]) -> (t: PageTables)
    requires
        forall|i: int| 0 <= i < exec@.len() ==> 0 < (#[trigger] exec@[i]).1 && exec@[i].0 + exec@[i].1 <= 0x10_0000_0000u64,
        covered_count(exec@, TABLE_ENTRIES as int) <= L3_CAPACITY,
    ensures
        t.wf(),
        t.l3_count() == covered_count(exec@, TABLE_ENTRIES as int),
        forall|b: int| 0 <= b < TABLE_ENTRIES ==> #[trigger] t.promoted(b) == covered_by(exec@, b),
        forall|b: int, j: int|
            0 <= b < TABLE_ENTRIES && 0 <= j < TABLE_ENTRIES ==> #[trigger] t.eff(b, j) == match last_attr(
                exec@,
                page_addr(b, j),
            ) {
                Some(a) => page_desc(page_addr(b, j), a),
                None => page_desc(page_addr(b, j), ATTR_DATA),
            },
{
    let mut t = PageTables::new();
    proof {
        assert(exec@.take(0) =~= Seq::<(u64, u64, u64)>::empty());
        lemma_count_zero(exec@.take(0), TABLE_ENTRIES as int);
        assert forall|b: int| 0 <= b < TABLE_ENTRIES implies #[trigger] t.promoted(b) == covered_by(exec@.take(0), b) by {
            assert(t.l2s()[b] == block_desc(b));
            assert(!covered_by(exec@.take(0), b));
        }
        assert forall|b: int, j: int| 0 <= b < TABLE_ENTRIES && 0 <= j < TABLE_ENTRIES implies #[trigger] t.eff(b, j)
            == match last_attr(exec@.take(0), page_addr(b, j)) {
            Some(a) => page_desc(page_addr(b, j), a),
            None => page_desc(page_addr(b, j), ATTR_DATA),
        } by {
            assert(last_attr(exec@.take(0), page_addr(b, j)) == None::<u64>);
        }
    }
    let mut i: usize = 0;
    while i < exec.len()
        invariant
            i <= exec@.len(),
            t.wf(),
            forall|q: int| 0 <= q < exec@.len() ==> 0 < (#[trigger] exec@[q]).1 && exec@[q].0 + exec@[q].1 <= 0x10_0000_0000u64,
            covered_count(exec@, TABLE_ENTRIES as int) <= L3_CAPACITY,
            t.l3_count() == covered_count(exec@.take(i as int), TABLE_ENTRIES as int),
            forall|b: int| 0 <= b < TABLE_ENTRIES ==> #[trigger] t.promoted(b) == covered_by(exec@.take(i as int), b),
            forall|b: int, j: int|
                0 <= b < TABLE_ENTRIES && 0 <= j < TABLE_ENTRIES ==> #[trigger] t.eff(b, j) == match last_attr(
                    exec@.take(i as int),
                    page_addr(b, j),
                ) {
                    Some(a) => page_desc(page_addr(b, j), a),
                    None => page_desc(page_addr(b, j), ATTR_DATA),
                },
        decreases exec@.len() - i,
    {
        let (ipa, len, attr) = exec[i];
        let ghost s0 = exec@.take(i as int);
        let ghost s1 = exec@.take(i + 1);
        let ghost t0 = t;
        let ghost lo = block_of(ipa as int);
        let ghost hi = block_of(ipa + len - 1);
        proof {
            assert(s1.drop_last() =~= s0);
            assert(s1.last() == exec@[i as int]);
            assert(0 <= lo <= hi < 2048) by (nonlinear_arith)
                requires
                    lo == ipa / 0x200_0000,
                    hi == (ipa + len - 1) / 0x200_0000,
                    0 < len,
                    ipa + len <= 0x10_0000_0000u64;
            lemma_count_step(t0, s0, s1, lo, hi, TABLE_ENTRIES as int);
            assert forall|x: int| 0 <= x < TABLE_ENTRIES && covered_by(s1, x) implies covered_by(exec@, x) by {
                lemma_covered_prefix(exec@, i + 1, x);
            }
            lemma_count_mono(s1, exec@, TABLE_ENTRIES as int);
        }
        t.set_region_exec_attr(ipa, len, attr);
        proof {
            assert forall|b: int, j: int| 0 <= b < TABLE_ENTRIES && 0 <= j < TABLE_ENTRIES implies #[trigger] t.eff(b, j)
                == match last_attr(s1, page_addr(b, j)) {
                Some(a) => page_desc(page_addr(b, j), a),
                None => page_desc(page_addr(b, j), ATTR_DATA),
            } by {
                assert(t0.eff(b, j) == match last_attr(s0, page_addr(b, j)) {
                    Some(a) => page_desc(page_addr(b, j), a),
                    None => page_desc(page_addr(b, j), ATTR_DATA),
                });
            }
            assert forall|b: int| 0 <= b < TABLE_ENTRIES implies #[trigger] t.promoted(b) == covered_by(s1, b) by {
                assert(t0.promoted(b) == covered_by(s0, b));
            }
        }
        i += 1;
    }
    proof {
        assert(exec@.take(exec@.len() as int) =~= exec@);
    }
    t
}

/// No range, no block reached.
proof fn lemma_count_zero(s: Seq<(u64, u64, u64)>, n: int)
    requires
        s.len() == 0,
    ensures
        covered_count(s, n) == 0,
    decreases n,
{
    if n > 0 {
        lemma_count_zero(s, n - 1);
    }
}

/// The L2 descriptors `l2` and the L3 descriptors `l3` (tables back to back) make well-formed
/// tables: what `PageTables::wf` asks of its two halves.
pub open spec fn parts_wf(l2: Seq<u64>, l3: Seq<u64>) -> bool {
    let count = l3.len() as int / (TABLE_ENTRIES as int);
    &&& l2.len() == TABLE_ENTRIES
    &&& l3.len() as int % (TABLE_ENTRIES as int) == 0
    &&& count <= L3_CAPACITY
    &&& forall|bi: int|
        0 <= bi < TABLE_ENTRIES ==> l2[bi] == block_desc(bi) || exists|k: int| 0 <= k < count && l2[bi] == table_desc(k)
    &&& forall|b1: int, b2: int, k: int|
        0 <= b1 < TABLE_ENTRIES && 0 <= b2 < TABLE_ENTRIES && b1 != b2 && 0 <= k < count && l2[b1] == table_desc(k)
            ==> l2[b2] != table_desc(k)
}

/// A table descriptor is its table's IPA plus the two type bits.
proof fn lemma_table_desc_value(k: int)
    requires
        0 <= k < 1536,
    ensures
        table_desc(k) == 0x80_0000 + k * 0x4000 + 3,
{
    let t: u64 = (0x80_0000 + k * 0x4000) as u64;
    assert((k * 0x4000 + 0x80_0000) % 4 == 0) by (nonlinear_arith);
    assert(t % 4 == 0 ==> t | 3u64 == t + 3) by (bit_vector);
}

/// The table a descriptor names, when it is the descriptor of one of the first `count` tables.
fn table_index(d: u64, count: usize) -> (r: Option<usize>)
    requires
        count <= L3_CAPACITY,
    ensures
        r matches Some(k) ==> k < count && d == table_desc(k as int),
        r is None ==> forall|k: int| 0 <= k < count ==> d != table_desc(k),
{
    if d < PT_L3_BASE + 3 {
        proof {
            assert forall|k: int| 0 <= k < count implies d != table_desc(k) by {
                lemma_table_desc_value(k);
            }
        }
        return None;
    }
    let off = d - 3 - PT_L3_BASE;
    let k = off / (GRANULE as u64);
    if off % (GRANULE as u64) != 0 || k >= count as u64 {
        proof {
            assert forall|kk: int| 0 <= kk < count implies d != table_desc(kk) by {
                lemma_table_desc_value(kk);
                if d == table_desc(kk) {
                    assert(off == kk * 0x4000);
                    assert(off % 0x4000 == 0) by (nonlinear_arith)
                        requires
                            off == kk * 0x4000;
                    assert(off / 0x4000 == kk) by (nonlinear_arith)
                        requires
                            off == kk * 0x4000;
                }
            }
        }
        return None;
    }
    proof {
        lemma_table_desc_value(k as int);
        vstd::arithmetic::div_mod::lemma_fundamental_div_mod(off as int, 0x4000);
    }
    Some(k as usize)
}

impl PageTables {
    /// Take over tables read back from guest memory, when they are well formed.
    pub fn from_parts(l2: Vec<u64>, l3: Vec<u64>) -> (r: Option<PageTables>)
        ensures
            r is Some <==> parts_wf(l2@, l3@),
            r matches Some(t) ==> t.wf() && t.l2s() == l2@ && t.l3s() == l3@,
    {
        if l2.len() != TABLE_ENTRIES || l3.len() % TABLE_ENTRIES != 0 || l3.len() / TABLE_ENTRIES > L3_CAPACITY {
            return None;
        }
        let count = l3.len() / TABLE_ENTRIES;
        let mut used: Vec<bool> = Vec::new();
        let mut i: usize = 0;
        while i < count
            invariant
                i <= count,
                used@.len() == i,
                forall|k: int| 0 <= k < i ==> !used@[k],
            decreases count - i,
        {
            used.push(false);
            i += 1;
        }
        let mut bi: usize = 0;
        while bi < TABLE_ENTRIES
            invariant
                bi <= TABLE_ENTRIES,
                l2@.len() == TABLE_ENTRIES,
                count == l3@.len() as int / (TABLE_ENTRIES as int),
                count <= L3_CAPACITY,
                used@.len() == count,
                forall|b: int|
                    0 <= b < bi ==> l2@[b] == block_desc(b) || exists|k: int| 0 <= k < count && l2@[b] == table_desc(k),
                forall|k: int|
                    0 <= k < count ==> (#[trigger] used@[k] <==> exists|b: int| 0 <= b < bi && l2@[b] == table_desc(k)),
                forall|b1: int, b2: int, k: int|
                    0 <= b1 < bi && 0 <= b2 < bi && b1 != b2 && 0 <= k < count && l2@[b1] == table_desc(k) ==> l2@[b2]
                        != table_desc(k),
            decreases TABLE_ENTRIES - bi,
        {
            let d = l2[bi];
            let bd = ((bi as u64) * BLK) | ATTR_DATA | DESC_BLOCK;
            assert(bd == block_desc(bi as int));
            proof {
                lemma_desc_bits(bi as int, 0);
            }
            if d != bd {
                match table_index(d, count) {
                    Some(k) => {
                        if used[k] {
                            proof {
                                let b0 = choose|b: int| 0 <= b < bi && l2@[b] == table_desc(k as int);
                                assert(!parts_wf(l2@, l3@)) by {
                                    assert(l2@[b0] == table_desc(k as int) && l2@[bi as int] == table_desc(k as int));
                                }
                            }
                            return None;
                        }
                        let ghost used0 = used@;
                        used.set(k, true);
                        proof {
                            assert(!used0[k as int]);
                            assert forall|b1: int, b2: int, kk: int|
                                0 <= b1 < bi + 1 && 0 <= b2 < bi + 1 && b1 != b2 && 0 <= kk < count && l2@[b1]
                                    == table_desc(kk) implies l2@[b2] != table_desc(kk) by {
                                if l2@[b2] == table_desc(kk) {
                                    if b1 == bi {
                                        lemma_table_desc_injective(k as int, kk);
                                        assert(used0[kk]);
                                    } else if b2 == bi {
                                        lemma_table_desc_injective(k as int, kk);
                                        assert(used0[kk]);
                                    }
                                }
                            }
                            assert forall|kk: int| 0 <= kk < count implies (#[trigger] used@[kk] <==> exists|b: int|
                                0 <= b < bi + 1 && l2@[b] == table_desc(kk)) by {
                                if kk == k {
                                    assert(l2@[bi as int] == table_desc(kk));
                                } else {
                                    assert(used0[kk] == used@[kk]);
                                    if l2@[bi as int] == table_desc(kk) {
                                        lemma_table_desc_injective(k as int, kk);
                                    }
                                    if exists|b: int| 0 <= b < bi + 1 && l2@[b] == table_desc(kk) {
                                        let b = choose|b: int| 0 <= b < bi + 1 && l2@[b] == table_desc(kk);
                                        if b == bi {
                                            lemma_table_desc_injective(k as int, kk);
                                        }
                                    }
                                }
                            }
                        }
                    },
                    None => {
                        proof {
                            assert(!parts_wf(l2@, l3@)) by {
                                if l2@[bi as int] == block_desc(bi as int) {
                                    assert(false);
                                }
                            }
                        }
                        return None;
                    },
                }
            } else {
                proof {
                    assert forall|kk: int| 0 <= kk < count implies l2@[bi as int] != table_desc(kk) by {
                        lemma_desc_bits(bi as int, kk);
                    }
                }
            }
            bi += 1;
        }
        let t = PageTables { l2, l3 };
        assert(t.wf());
        Some(t)
    }
}

/// The 2048 little-endian descriptors of a table page `b` (at least 16 KiB long).
pub open spec fn table_of_bytes(b: Seq<u8>) -> Seq<u64> {
    Seq::new(TABLE_ENTRIES as nat, |i: int| spec_u64_from_le_bytes(b.subrange(8 * i, 8 * i + 8)))
}

/// The first region of `regions` from `i` on that starts at `ipa` and holds a whole table page.
pub open spec fn table_region_from(regions: Seq<Region>, ipa: u64, i: int) -> Option<int>
    decreases regions.len() - i,
{
    if i >= regions.len() {
        None
    } else if regions[i].ipa == ipa && regions[i].bytes@.len() >= GRANULE {
        Some(i)
    } else {
        table_region_from(regions, ipa, i + 1)
    }
}

/// The L3 descriptors found in `regions` for tables `0..k`, back to back, when each is there.
pub open spec fn l3_words(regions: Seq<Region>, k: int) -> Seq<u64>
    decreases k,
{
    if k <= 0 {
        Seq::empty()
    } else {
        l3_words(regions, k - 1) + match table_region_from(regions, l3_ipa(k - 1), 0) {
            Some(i) => table_of_bytes(regions[i].bytes@),
            None => Seq::empty(),
        }
    }
}

/// How many L3 tables `regions` holds in a row from the start of the L3 window, counting on from
/// table `k` (at most the window's capacity).
pub open spec fn l3_run_from(regions: Seq<Region>, k: int) -> int
    decreases L3_CAPACITY - k,
{
    if k >= L3_CAPACITY || table_region_from(regions, l3_ipa(k), 0) is None {
        k
    } else {
        l3_run_from(regions, k + 1)
    }
}

/// A region found from `i` on is one at `ipa` holding a whole table page.
proof fn lemma_table_region_from(regions: Seq<Region>, ipa: u64, i: int)
    requires
        0 <= i,
    ensures
        table_region_from(regions, ipa, i) matches Some(j) ==> i <= j < regions.len() && regions[j].ipa == ipa
            && regions[j].bytes@.len() >= GRANULE,
    decreases regions.len() - i,
{
    if i < regions.len() {
        lemma_table_region_from(regions, ipa, i + 1);
    }
}

/// The first region starting at `ipa` that holds a whole table page.
fn find_table_region(regions: &[Region], ipa: u64) -> (r: Option<usize>)
    ensures
        r == match table_region_from(regions@, ipa, 0) {
            Some(i) => Some(i as usize),
            None => None::<usize>,
        },
        r matches Some(i) ==> i < regions@.len() && regions@[i as int].ipa == ipa && regions@[i as int].bytes@.len()
            >= GRANULE && table_region_from(regions@, ipa, 0) == Some(i as int),
{
    proof {
        lemma_table_region_from(regions@, ipa, 0);
    }
    let _n = regions.len();
    let mut i: usize = 0;
    while i < regions.len()
        invariant
            i <= regions@.len(),
            table_region_from(regions@, ipa, 0) == table_region_from(regions@, ipa, i as int),
        decreases regions@.len() - i,
    {
        if regions[i].ipa == ipa && regions[i].bytes.len() >= GRANULE {
            return Some(i);
        }
        i += 1;
    }
    None
}

/// The 2048 descriptors of a table page, appended to `out`.
fn push_table(out: &mut Vec<u64>, b: &[u8])
    requires
        b@.len() >= GRANULE,
    ensures
        final(out)@ == old(out)@ + table_of_bytes(b@),
{
    let ghost start = out@;
    let mut i: usize = 0;
    while i < TABLE_ENTRIES
        invariant
            i <= TABLE_ENTRIES,
            b@.len() >= GRANULE,
            out@ == start + table_of_bytes(b@).take(i as int),
        decreases TABLE_ENTRIES - i,
    {
        out.push(u64le(b, 8 * i));
        assert(out@ =~= start + table_of_bytes(b@).take(i + 1));
        i += 1;
    }
    assert(table_of_bytes(b@).take(TABLE_ENTRIES as int) =~= table_of_bytes(b@));
}

/// Read the tables back out of a snapshot's memory: the L2 page at `PT_L2_IPA` and the L3 tables
/// found one after another from the start of the L3 window (the next table, the one after the last
/// found, is where new promotions continue). `None` when the L2 page is missing or what was found
/// is not a well-formed set of tables.
pub fn tables_from_regions(regions: &[Region]) -> (r: Option<PageTables>)
    ensures
        r is Some <==> (table_region_from(regions@, PT_L2_IPA, 0) is Some && parts_wf(
            table_of_bytes(regions@[table_region_from(regions@, PT_L2_IPA, 0).unwrap()].bytes@),
            l3_words(regions@, l3_run_from(regions@, 0)),
        )),
        r matches Some(t) ==> {
            &&& t.wf()
            &&& t.l2s() == table_of_bytes(regions@[table_region_from(regions@, PT_L2_IPA, 0).unwrap()].bytes@)
            &&& t.l3s() == l3_words(regions@, l3_run_from(regions@, 0))
        },
{
    let i2 = match find_table_region(regions, PT_L2_IPA) {
        Some(i) => i,
        None => {
            return None;
        },
    };
    let mut l2: Vec<u64> = Vec::new();
    push_table(&mut l2, regions[i2].bytes.as_slice());
    assert(l2@ =~= table_of_bytes(regions@[i2 as int].bytes@));
    let mut l3: Vec<u64> = Vec::new();
    let mut k: usize = 0;
    let mut done = false;
    while k < L3_CAPACITY && !done
        invariant
            k <= L3_CAPACITY,
            l3@ == l3_words(regions@, k as int),
            done ==> l3_run_from(regions@, k as int) == k,
            l3_run_from(regions@, 0) == l3_run_from(regions@, k as int),
        decreases L3_CAPACITY - k, if done { 0int } else { 1int },
    {
        assert((k as u64) * 0x4000 <= 1536 * 0x4000) by (nonlinear_arith)
            requires
                k <= 1536;
        let ipa = PT_L3_BASE + (k as u64) * (GRANULE as u64);
        assert(ipa == l3_ipa(k as int));
        match find_table_region(regions, ipa) {
            Some(i) => {
                push_table(&mut l3, regions[i].bytes.as_slice());
                k += 1;
            },
            None => {
                done = true;
            },
        }
    }
    assert(l3_run_from(regions@, k as int) == k);
    PageTables::from_parts(l2, l3)
}

} // verus!
