//! The box's bookkeeping of the guest's 36-bit physical address space: which extents are backed
//! by host memory, which are `PROT_NONE` reservations, and the cursor anonymous mappings are bumped
//! from. Every placement is a pure function of this state and the request, so record and replay
//! place identically. The stage-2 mapping calls themselves are made by the caller, with the plans
//! these functions return.
use vstd::prelude::*;
use crate::layout::{BLK, GRANULE, MMAP_BASE, SHARED_REGION_END, SHARED_REGION_START};

verus! {

/// The top of the guest's IPA space: 64 GiB.
pub const IPA_LIMIT: u64 = 0x10_0000_0000;

/// A host allocation's guest-physical extent `[ipa, ipa + len)`.
#[derive(Debug, Clone, Copy, PartialEq, Eq, Structural)]
pub struct Backing {
    pub ipa: u64,
    pub len: usize,
}

/// `x` rounded down to a granule.
pub open spec fn page_down(x: u64) -> u64 {
    x & !((GRANULE - 1) as u64)
}

/// `x` rounded up to a granule (for `x` at least a granule below the top of `u64`).
pub open spec fn page_up(x: u64) -> u64 {
    ((x + (GRANULE - 1)) as u64) & !((GRANULE - 1) as u64)
}

/// `a + b`, saturating at `u64::MAX`.
pub open spec fn sat_add(a: u64, b: u64) -> u64 {
    if a + b > u64::MAX {
        u64::MAX
    } else {
        (a + b) as u64
    }
}

/// `[s, s + l)` and `[a, e)` share an address.
pub open spec fn overlaps(s: int, l: int, a: int, e: int) -> bool {
    a < s + l && s < e
}

/// The highest end an extent may have: granule-aligned, and far enough below the top of `u64`
/// that rounding an end up to a granule cannot overflow.
pub const EXTENT_LIMIT: u64 = 0xFFFF_FFFF_FFFF_0000;

/// An extent whose end stays at or below `EXTENT_LIMIT`.
pub open spec fn extent_ok(s: u64, l: int) -> bool {
    s + l <= EXTENT_LIMIT
}

/// Is `[ipa, ipa + len)` (end saturating) inside the IPA space, clear of the shared-cache window,
/// and clear of every backing and every reservation?
pub open spec fn free_in(bs: Seq<Backing>, rs: Seq<(u64, u64)>, ipa: u64, len: u64) -> bool {
    let end = sat_add(ipa, len);
    &&& end <= IPA_LIMIT
    &&& !(ipa < SHARED_REGION_END && SHARED_REGION_START < end)
    &&& forall|i: int| 0 <= i < bs.len() ==> !overlaps(bs[i].ipa as int, bs[i].len as int, ipa as int, end as int)
    &&& forall|j: int| 0 <= j < rs.len() ==> !overlaps(rs[j].0 as int, rs[j].1 as int, ipa as int, end as int)
}

/// A candidate among the base, the first `i` backings' rounded ends, the first `j` reservations'
/// rounded ends, and (when `sre`) the end of the shared-cache window; the ends only above `base`.
pub open spec fn cand_upto(bs: Seq<Backing>, rs: Seq<(u64, u64)>, base: u64, i: int, j: int, sre: bool, c: u64) -> bool {
    ||| c == base
    ||| (sre && SHARED_REGION_END > base && c == SHARED_REGION_END)
    ||| exists|k: int| 0 <= k < i && c > base && c == page_up((bs[k].ipa + bs[k].len) as u64)
    ||| exists|k: int| 0 <= k < j && c > base && c == page_up((rs[k].0 + rs[k].1) as u64)
}

/// The addresses `first_fit` considers for a hint rounded down to `base`: the base itself, the
/// granule-rounded end of every occupied extent above it, and the end of the shared-cache window
/// when that is above it. The lowest free one is always among these: sliding right from the hint
/// until the range clears stops exactly at an extent's end.
pub open spec fn fit_candidate(bs: Seq<Backing>, rs: Seq<(u64, u64)>, base: u64, c: u64) -> bool {
    cand_upto(bs, rs, base, bs.len() as int, rs.len() as int, true, c)
}

/// How a `FIXED` request for `[addr, addr + len)` meets the live backings.
#[derive(Debug, Clone, Copy, PartialEq, Eq, Structural)]
pub enum FixedCase {
    /// Every backing it touches lies wholly inside it (including touching none): those are
    /// dropped and a fresh backing is installed.
    Covers,
    /// It lies wholly inside backing `i`, which is reused in place.
    Contained(usize),
    /// It overlaps a backing it neither covers nor lies inside.
    Straddles,
}

/// Every backing the request overlaps lies wholly inside it.
pub open spec fn covers_all(bs: Seq<Backing>, addr: int, end: int) -> bool {
    forall|i: int|
        0 <= i < bs.len() && overlaps(bs[i].ipa as int, bs[i].len as int, addr, end) ==> addr
            <= bs[i].ipa && bs[i].ipa + bs[i].len <= end
}

/// The backing wholly contains the request.
pub open spec fn contains(b: Backing, addr: int, end: int) -> bool {
    addr >= b.ipa && end <= b.ipa + b.len
}

/// Can the guest's address space hold a `FIXED` request: granule-aligned, no overflow, and ending
/// at or below the 36-bit ceiling?
pub open spec fn fits_fixed(addr: u64, rlen: usize) -> bool {
    &&& addr % (GRANULE as u64) == 0
    &&& addr + rlen <= IPA_LIMIT
}

/// The reservations that remain when `[s, e)` is cut out of each: a disjoint entry stays whole,
/// an overlapped one keeps its head below `s` and its tail above `e`, in that order.
pub open spec fn cut(rs: Seq<(u64, u64)>, s: u64, e: u64) -> Seq<(u64, u64)>
    decreases rs.len(),
{
    if rs.len() == 0 {
        Seq::empty()
    } else {
        let prev = cut(rs.drop_last(), s, e);
        let (start, len) = rs.last();
        let end = start + len;
        if e <= start || s >= end {
            prev.push((start, len))
        } else {
            let with_head = if s > start { prev.push((start, (s - start) as u64)) } else { prev };
            if e < end { with_head.push((e, (end - e) as u64)) } else { with_head }
        }
    }
}

/// Address `x` lies in some extent of `rs`.
pub open spec fn reserved(rs: Seq<(u64, u64)>, x: int) -> bool {
    exists|j: int| 0 <= j < rs.len() && (#[trigger] rs[j]).0 <= x < rs[j].0 + rs[j].1
}

/// The backings that do not overlap `[a, e)`, in order.
pub open spec fn disjoint_from(bs: Seq<Backing>, a: int, e: int) -> Seq<Backing>
    decreases bs.len(),
{
    if bs.len() == 0 {
        Seq::empty()
    } else {
        let prev = disjoint_from(bs.drop_last(), a, e);
        if overlaps(bs.last().ipa as int, bs.last().len as int, a, e) {
            prev
        } else {
            prev.push(bs.last())
        }
    }
}

/// The backings that overlap `[a, e)`, in order.
pub open spec fn overlapping(bs: Seq<Backing>, a: int, e: int) -> Seq<Backing>
    decreases bs.len(),
{
    if bs.len() == 0 {
        Seq::empty()
    } else {
        let prev = overlapping(bs.drop_last(), a, e);
        if overlaps(bs.last().ipa as int, bs.last().len as int, a, e) {
            prev.push(bs.last())
        } else {
            prev
        }
    }
}

/// The guest's physical address space as the box tracks it.
#[derive(Debug, Clone)]
pub struct AddressSpace {
    backings: Vec<Backing>,
    reservations: Vec<(u64, u64)>,
    mmap_next: u64,
}

impl AddressSpace {
    /// The backed extents.
    pub closed spec fn bs(&self) -> Seq<Backing> {
        self.backings@
    }

    /// The `PROT_NONE` reservations `(start, len)`.
    pub closed spec fn rs(&self) -> Seq<(u64, u64)> {
        self.reservations@
    }

    /// The bump cursor for anonymous placements.
    pub closed spec fn next(&self) -> u64 {
        self.mmap_next
    }

    /// No extent's end, rounded up to a granule, overflows.
    pub open spec fn wf(&self) -> bool {
        &&& forall|i: int| 0 <= i < self.bs().len() ==> extent_ok(self.bs()[i].ipa, self.bs()[i].len as int)
        &&& forall|j: int| 0 <= j < self.rs().len() ==> extent_ok(self.rs()[j].0, self.rs()[j].1 as int)
    }

    /// Nothing backed, nothing reserved, the cursor at `MMAP_BASE`.
    pub fn new() -> (a: AddressSpace)
        ensures
            a.wf(),
            a.bs() == Seq::<Backing>::empty(),
            a.rs() == Seq::<(u64, u64)>::empty(),
            a.next() == MMAP_BASE,
    {
        AddressSpace { backings: Vec::new(), reservations: Vec::new(), mmap_next: MMAP_BASE }
    }

    /// Take over backings, reservations and a cursor carried by a checkpoint; `None` when an
    /// extent ends past `EXTENT_LIMIT`.
    pub fn from_parts(backings: Vec<Backing>, reservations: Vec<(u64, u64)>, mmap_next: u64) -> (r: Option<
        AddressSpace,
    >)
        ensures
            r is Some <==> (forall|i: int| 0 <= i < backings@.len() ==> extent_ok(backings@[i].ipa, backings@[i].len as int))
                && (forall|j: int| 0 <= j < reservations@.len() ==> extent_ok(reservations@[j].0, reservations@[j].1 as int)),
            r matches Some(a) ==> a.wf() && a.bs() == backings@ && a.rs() == reservations@ && a.next() == mmap_next,
    {
        let mut i: usize = 0;
        while i < backings.len()
            invariant
                i <= backings@.len(),
                forall|k: int| 0 <= k < i ==> extent_ok(backings@[k].ipa, backings@[k].len as int),
            decreases backings@.len() - i,
        {
            let b = backings[i];
            if b.ipa as u128 + b.len as u128 > EXTENT_LIMIT as u128 {
                return None;
            }
            i += 1;
        }
        let mut j: usize = 0;
        while j < reservations.len()
            invariant
                j <= reservations@.len(),
                forall|k: int| 0 <= k < j ==> extent_ok(reservations@[k].0, reservations@[k].1 as int),
            decreases reservations@.len() - j,
        {
            let (s, l) = reservations[j];
            if s as u128 + l as u128 > EXTENT_LIMIT as u128 {
                return None;
            }
            j += 1;
        }
        Some(AddressSpace { backings, reservations, mmap_next })
    }

    /// The reservations, in the order they were made and split.
    pub fn reservations(&self) -> (r: &[(u64, u64)])
        ensures
            r@ == self.rs(),
    {
        self.reservations.as_slice()
    }

    /// The backed extents.
    pub fn backings(&self) -> (r: &[Backing])
        ensures
            r@ == self.bs(),
    {
        self.backings.as_slice()
    }

    /// The bump cursor.
    pub fn mmap_next(&self) -> (r: u64)
        ensures
            r == self.next(),
    {
        self.mmap_next
    }

    /// Is `[ipa, ipa + len)` free of every backing and reservation, clear of the shared-cache
    /// window, and inside the 36-bit IPA space? A reservation occupies its range as a real
    /// `vm_map_entry` does, so an `ANYWHERE` placement never lands inside one.
    pub fn range_is_free(&self, ipa: u64, len: u64) -> (b: bool)
        ensures
            b == free_in(self.bs(), self.rs(), ipa, len),
    {
        let end = ipa.saturating_add(len);
        if end > IPA_LIMIT {
            return false;
        }
        if ipa < SHARED_REGION_END && SHARED_REGION_START < end {
            return false;
        }
        let mut i: usize = 0;
        while i < self.backings.len()
            invariant
                i <= self.backings@.len(),
                end == sat_add(ipa, len),
                forall|k: int|
                    0 <= k < i ==> !overlaps(
                        self.backings@[k].ipa as int,
                        self.backings@[k].len as int,
                        ipa as int,
                        end as int,
                    ),
            decreases self.backings@.len() - i,
        {
            let b = self.backings[i];
            if (ipa as u128) < b.ipa as u128 + b.len as u128 && b.ipa < end {
                return false;
            }
            i += 1;
        }
        let mut j: usize = 0;
        while j < self.reservations.len()
            invariant
                j <= self.reservations@.len(),
                end == sat_add(ipa, len),
                forall|k: int|
                    0 <= k < j ==> !overlaps(
                        self.reservations@[k].0 as int,
                        self.reservations@[k].1 as int,
                        ipa as int,
                        end as int,
                    ),
            decreases self.reservations@.len() - j,
        {
            let (s, l) = self.reservations[j];
            if (ipa as u128) < s as u128 + l as u128 && s < end {
                return false;
            }
            j += 1;
        }
        true
    }
}

impl AddressSpace {
    /// Consider candidate `c` for `first_fit`: take it when it is free and below the best so far.
    fn consider(&self, c: u64, len: u64, best: Option<u64>) -> (r: Option<u64>)
        ensures
            r == if free_in(self.bs(), self.rs(), c, len) && (best matches Some(a) ==> c < a) {
                Some(c)
            } else {
                best
            },
    {
        let better = match best {
            Some(a) => c < a,
            None => true,
        };
        if better && self.range_is_free(c, len) {
            Some(c)
        } else {
            best
        }
    }

    /// `ANYWHERE`-with-hint placement as the kernel does it: the lowest address at or above the
    /// granule-rounded `hint` whose `[a, a + len)` is free (`range_is_free`), or `None` when nothing
    /// fits below the 36-bit ceiling (the caller then falls back to the bump cursor).
    pub fn first_fit(&self, hint: u64, len: u64) -> (r: Option<u64>)
        requires
            self.wf(),
        ensures
            ({
                let base = page_down(hint);
                match r {
                    Some(a) => {
                        &&& fit_candidate(self.bs(), self.rs(), base, a)
                        &&& free_in(self.bs(), self.rs(), a, len)
                        &&& forall|c: u64|
                            #[trigger] fit_candidate(self.bs(), self.rs(), base, c) && c < a ==> !free_in(
                                self.bs(),
                                self.rs(),
                                c,
                                len,
                            )
                    },
                    None => forall|c: u64|
                        #[trigger] fit_candidate(self.bs(), self.rs(), base, c) ==> !free_in(
                            self.bs(),
                            self.rs(),
                            c,
                            len,
                        ),
                }
            }),
    {
        let g = GRANULE as u64;
        let base = hint & !(g - 1);
        let ghost bs = self.bs();
        let ghost rs = self.rs();
        let mut best = self.consider(base, len, None);
        let mut i: usize = 0;
        while i < self.backings.len()
            invariant
                self.wf(),
                bs == self.bs(),
                rs == self.rs(),
                base == page_down(hint),
                g == GRANULE as u64,
                i <= bs.len(),
                best matches Some(a) ==> cand_upto(bs, rs, base, i as int, 0, false, a) && free_in(bs, rs, a, len),
                forall|c: u64|
                    #[trigger] cand_upto(bs, rs, base, i as int, 0, false, c) && free_in(bs, rs, c, len)
                        ==> (best matches Some(a) && a <= c),
            decreases bs.len() - i,
        {
            let b = self.backings[i];
            assert(extent_ok(bs[i as int].ipa, bs[i as int].len as int));
            let c = (b.ipa + b.len as u64 + (g - 1)) & !(g - 1);
            assert(c == page_up((bs[i as int].ipa + bs[i as int].len) as u64));
            if c > base {
                best = self.consider(c, len, best);
            }
            assert forall|c2: u64|
                #[trigger] cand_upto(bs, rs, base, i + 1, 0, false, c2) && free_in(bs, rs, c2, len)
                    implies (best matches Some(a) && a <= c2) by {
                if !cand_upto(bs, rs, base, i as int, 0, false, c2) {
                    assert(c2 == c);
                }
            }
            i += 1;
        }
        let mut j: usize = 0;
        while j < self.reservations.len()
            invariant
                self.wf(),
                bs == self.bs(),
                rs == self.rs(),
                base == page_down(hint),
                g == GRANULE as u64,
                j <= rs.len(),
                best matches Some(a) ==> cand_upto(bs, rs, base, bs.len() as int, j as int, false, a)
                    && free_in(bs, rs, a, len),
                forall|c: u64|
                    #[trigger] cand_upto(bs, rs, base, bs.len() as int, j as int, false, c) && free_in(bs, rs, c, len)
                        ==> (best matches Some(a) && a <= c),
            decreases rs.len() - j,
        {
            let (s, l) = self.reservations[j];
            assert(extent_ok(rs[j as int].0, rs[j as int].1 as int));
            let c = (s + l + (g - 1)) & !(g - 1);
            assert(c == page_up((rs[j as int].0 + rs[j as int].1) as u64));
            if c > base {
                best = self.consider(c, len, best);
            }
            assert forall|c2: u64|
                #[trigger] cand_upto(bs, rs, base, bs.len() as int, j + 1, false, c2) && free_in(bs, rs, c2, len)
                    implies (best matches Some(a) && a <= c2) by {
                if !cand_upto(bs, rs, base, bs.len() as int, j as int, false, c2) {
                    assert(c2 == c);
                }
            }
            j += 1;
        }
        let ghost before = best;
        if SHARED_REGION_END > base {
            best = self.consider(SHARED_REGION_END, len, best);
        }
        assert forall|c2: u64|
            #[trigger] fit_candidate(bs, rs, base, c2) && free_in(bs, rs, c2, len)
                implies (best matches Some(a) && a <= c2) by {
            if cand_upto(bs, rs, base, bs.len() as int, rs.len() as int, false, c2) {
                assert(before matches Some(a) && a <= c2);
            } else {
                assert(c2 == SHARED_REGION_END && SHARED_REGION_END > base);
            }
        }
        best
    }
}

impl AddressSpace {
    /// Classify a `FIXED` request for `[addr, addr + rlen)` against the live backings: covering
    /// every backing it touches, contained in one (the first such is reused), or straddling.
    pub fn classify_fixed(&self, addr: u64, rlen: usize) -> (r: FixedCase)
        requires
            addr + rlen <= u64::MAX,
        ensures
            ({
                let end = addr + rlen;
                &&& r is Covers <==> covers_all(self.bs(), addr as int, end)
                &&& r matches FixedCase::Contained(i) ==> {
                    &&& !covers_all(self.bs(), addr as int, end)
                    &&& i < self.bs().len()
                    &&& contains(self.bs()[i as int], addr as int, end)
                    &&& forall|k: int| 0 <= k < i ==> !contains(self.bs()[k], addr as int, end)
                }
                &&& r is Straddles ==> !covers_all(self.bs(), addr as int, end) && forall|k: int|
                    0 <= k < self.bs().len() ==> !contains(self.bs()[k], addr as int, end)
            }),
    {
        let end = addr + rlen as u64;
        let ghost bs = self.bs();
        let mut i: usize = 0;
        let mut all = true;
        while i < self.backings.len()
            invariant
                bs == self.bs(),
                i <= bs.len(),
                end == addr + rlen,
                all <==> forall|k: int|
                    0 <= k < i && overlaps(bs[k].ipa as int, bs[k].len as int, addr as int, end as int)
                        ==> addr <= bs[k].ipa && bs[k].ipa + bs[k].len <= end,
            decreases bs.len() - i,
        {
            let b = self.backings[i];
            let bend = b.ipa as u128 + b.len as u128;
            if (addr as u128) < bend && b.ipa < end {
                if !(addr <= b.ipa && bend <= end as u128) {
                    all = false;
                }
            }
            i += 1;
        }
        if all {
            return FixedCase::Covers;
        }
        let mut k: usize = 0;
        while k < self.backings.len()
            invariant
                bs == self.bs(),
                k <= bs.len(),
                end == addr + rlen,
                !covers_all(bs, addr as int, end as int),
                forall|m: int| 0 <= m < k ==> !contains(bs[m], addr as int, end as int),
            decreases bs.len() - k,
        {
            let b = self.backings[k];
            if addr >= b.ipa && (end as u128) <= b.ipa as u128 + b.len as u128 {
                return FixedCase::Contained(k);
            }
            k += 1;
        }
        FixedCase::Straddles
    }
}

impl AddressSpace {
    /// Cut the deallocated range out of every overlapping reservation, the range rounded out to
    /// whole granules as the kernel rounds it (start down, end up). A covered entry disappears, a
    /// head or tail overlap trims it, and an interior cut splits it in two; the cut pages are then
    /// neither reserved nor committable.
    pub fn subtract_reservations(&mut self, addr: u64, len: u64)
        requires
            old(self).wf(),
            sat_add(addr, len) + GRANULE <= u64::MAX,
        ensures
            final(self).wf(),
            final(self).bs() == old(self).bs(),
            final(self).next() == old(self).next(),
            ({
                let s = page_down(addr);
                let e = page_up(sat_add(addr, len));
                &&& e <= s ==> final(self).rs() == old(self).rs()
                &&& e > s ==> final(self).rs() == cut(old(self).rs(), s, e)
            }),
    {
        let g = GRANULE as u64;
        let s = addr & !(g - 1);
        let e = (addr.saturating_add(len) + (g - 1)) & !(g - 1);
        if e <= s {
            return;
        }
        let ghost rs = self.rs();
        let mut out: Vec<(u64, u64)> = Vec::new();
        let mut i: usize = 0;
        while i < self.reservations.len()
            invariant
                rs == self.rs(),
                self.wf(),
                i <= rs.len(),
                out@ == cut(rs.take(i as int), s, e),
                forall|k: int| 0 <= k < out@.len() ==> extent_ok(out@[k].0, out@[k].1 as int),
            decreases rs.len() - i,
        {
            assert(rs.take(i as int + 1).drop_last() =~= rs.take(i as int));
            assert(extent_ok(rs[i as int].0, rs[i as int].1 as int));
            let (start, rlen) = self.reservations[i];
            let end = start + rlen;
            if e <= start || s >= end {
                out.push((start, rlen));
            } else {
                if s > start {
                    out.push((start, s - start));
                }
                if e < end {
                    out.push((e, end - e));
                }
            }
            i += 1;
        }
        assert(rs.take(rs.len() as int) =~= rs);
        let ghost kept = out@;
        let ghost bs0 = self.bs();
        assert(forall|k: int| 0 <= k < bs0.len() ==> extent_ok(bs0[k].ipa, bs0[k].len as int));
        self.reservations = out;
        assert(self.rs() == kept);
        assert(self.bs() == bs0);
        assert(forall|k: int| 0 <= k < self.rs().len() ==> extent_ok(self.rs()[k].0, self.rs()[k].1 as int));
    }
}

/// A reservation list with one more entry covers `x` exactly when the list or the entry does.
proof fn lemma_reserved_push(rs: Seq<(u64, u64)>, p: (u64, u64), x: int)
    ensures
        reserved(rs.push(p), x) <==> reserved(rs, x) || (p.0 <= x < p.0 + p.1),
{
    let q = rs.push(p);
    if reserved(rs, x) {
        let j = choose|j: int| 0 <= j < rs.len() && (#[trigger] rs[j]).0 <= x < rs[j].0 + rs[j].1;
        assert(q[j] == rs[j]);
    }
    if p.0 <= x < p.0 + p.1 {
        assert(q[rs.len() as int] == p);
    }
    if reserved(q, x) {
        let j = choose|j: int| 0 <= j < q.len() && (#[trigger] q[j]).0 <= x < q[j].0 + q[j].1;
        if j < rs.len() {
            assert(q[j] == rs[j]);
        }
    }
}

/// Cutting `[s, e)` out of the reservations removes exactly the addresses of `[s, e)`: afterwards
/// an address is reserved iff it was reserved before and lies outside the cut.
pub proof fn lemma_cut_removes_exactly_the_cut(rs: Seq<(u64, u64)>, s: u64, e: u64, x: int)
    requires
        s < e,
        forall|j: int| 0 <= j < rs.len() ==> rs[j].0 + rs[j].1 <= u64::MAX,
    ensures
        reserved(cut(rs, s, e), x) <==> reserved(rs, x) && !(s <= x < e),
    decreases rs.len(),
{
    if rs.len() == 0 {
        assert(!reserved(rs, x));
        assert(!reserved(cut(rs, s, e), x));
    } else {
        let prev = rs.drop_last();
        let (start, len) = rs.last();
        let end = start + len;
        lemma_cut_removes_exactly_the_cut(prev, s, e, x);
        lemma_reserved_push(prev, rs.last(), x);
        assert(rs == prev.push(rs.last()));
        let pc = cut(prev, s, e);
        if e <= start || s >= end {
            lemma_reserved_push(pc, (start, len), x);
        } else {
            let with_head = if s > start { pc.push((start, (s - start) as u64)) } else { pc };
            if s > start {
                lemma_reserved_push(pc, (start, (s - start) as u64), x);
            }
            if e < end {
                lemma_reserved_push(with_head, (e, (end - e) as u64), x);
            }
        }
    }
}

/// `x` rounded up to a 32 MiB block.
pub open spec fn blk_up(x: u64) -> u64 {
    ((x + (BLK - 1)) as u64) & !((BLK - 1) as u64)
}

/// `a`'s larger with `b`.
pub open spec fn max_u64(a: u64, b: u64) -> u64 {
    if a >= b { a } else { b }
}

/// Backing `b` holds address `x`.
pub open spec fn holds(b: Backing, x: int) -> bool {
    b.ipa <= x < b.ipa + b.len
}

/// The first backing that holds all of `[x, x + n)`.
pub open spec fn first_containing(bs: Seq<Backing>, x: int, n: int) -> Option<int>
    decreases bs.len(),
{
    if bs.len() == 0 {
        None
    } else {
        match first_containing(bs.drop_last(), x, n) {
            Some(i) => Some(i),
            None => if contains(bs.last(), x, x + n) {
                Some(bs.len() - 1)
            } else {
                None
            },
        }
    }
}

/// The first backing containing the span is the one after every earlier backing fails to.
proof fn lemma_first_containing_is(bs: Seq<Backing>, x: int, n: int, i: int)
    requires
        0 <= i < bs.len(),
        contains(bs[i], x, x + n),
        forall|k: int| 0 <= k < i ==> !contains(#[trigger] bs[k], x, x + n),
    ensures
        first_containing(bs, x, n) == Some(i),
    decreases bs.len(),
{
    if i < bs.len() - 1 {
        lemma_first_containing_is(bs.drop_last(), x, n, i);
    } else {
        lemma_first_containing_none(bs.drop_last(), x, n);
    }
}

/// When no backing contains the span, there is no first one.
proof fn lemma_first_containing_none(bs: Seq<Backing>, x: int, n: int)
    requires
        forall|k: int| 0 <= k < bs.len() ==> !contains(#[trigger] bs[k], x, x + n),
    ensures
        first_containing(bs, x, n) is None,
    decreases bs.len(),
{
    if bs.len() > 0 {
        lemma_first_containing_none(bs.drop_last(), x, n);
    }
}

/// The first backing holding `x` does hold it.
proof fn lemma_first_holding_holds(bs: Seq<Backing>, x: int)
    ensures
        first_holding(bs, x) matches Some(i) ==> 0 <= i < bs.len() && holds(bs[i], x),
    decreases bs.len(),
{
    if bs.len() > 0 {
        lemma_first_holding_holds(bs.drop_last(), x);
    }
}

/// The first backing that holds `x`.
pub open spec fn first_holding(bs: Seq<Backing>, x: int) -> Option<int>
    decreases bs.len(),
{
    if bs.len() == 0 {
        None
    } else {
        match first_holding(bs.drop_last(), x) {
            Some(i) => Some(i),
            None => if holds(bs.last(), x) {
                Some(bs.len() - 1)
            } else {
                None
            },
        }
    }
}

/// The total length of the backings.
pub open spec fn total_len(bs: Seq<Backing>) -> int
    decreases bs.len(),
{
    if bs.len() == 0 {
        0
    } else {
        total_len(bs.drop_last()) + bs.last().len
    }
}

/// `bs` without entry `i`.
pub open spec fn without(bs: Seq<Backing>, i: int) -> Seq<Backing> {
    bs.subrange(0, i) + bs.subrange(i + 1, bs.len() as int)
}

/// What the caller maps after a placement.
#[derive(Debug, Clone, PartialEq, Eq)]
pub enum MapPlan {
    /// Map a fresh backing at `ipa`; `dropped` are the backings it replaces, which the caller
    /// unmaps and frees first.
    Fresh { ipa: u64, dropped: Vec<Backing> },
    /// The request lies wholly inside live backing `backing`: the caller copies its pages in
    /// place and maps nothing new.
    Reuse { ipa: u64, backing: usize },
}

/// `MAP_FIXED`.
pub const MAP_FIXED: u64 = 0x10;

/// `PROT_EXEC`.
pub const PROT_EXEC: u64 = 0x4;

/// The host allocation length for a request of `len` bytes: whole granules.
pub fn page_round(len: usize) -> (r: usize)
    requires
        len + GRANULE <= usize::MAX,
    ensures
        r as int == page_up(len as u64),
        r >= len,
        r % GRANULE == 0,
        r < len + GRANULE,
{
    let l = len as u64;
    let r = (l + 0x3fff) & !0x3fffu64;
    assert(l + 0x4000u64 <= 0xffff_ffff_ffff_ffffu64 ==> ({
        let q = ((l + 0x3fffu64) as u64) & !0x3fffu64;
        &&& q >= l
        &&& q % 0x4000u64 == 0
        &&& q < l + 0x4000u64
    })) by (bit_vector);
    r as usize
}

impl AddressSpace {
    /// Drop every backing that overlaps `[ipa, ipa + len)` and hand them back for the caller to
    /// unmap and free. Only sound when each lies wholly inside the range; `place_fixed` calls it
    /// only then.
    pub fn unmap_overlapping(&mut self, ipa: u64, len: u64) -> (dropped: Vec<Backing>)
        requires
            old(self).wf(),
            ipa + len <= u64::MAX,
        ensures
            final(self).wf(),
            final(self).rs() == old(self).rs(),
            final(self).next() == old(self).next(),
            final(self).bs() == disjoint_from(old(self).bs(), ipa as int, ipa + len),
            dropped@ == overlapping(old(self).bs(), ipa as int, ipa + len),
    {
        let end = ipa + len;
        let ghost bs = self.bs();
        let mut keep: Vec<Backing> = Vec::new();
        let mut dropped: Vec<Backing> = Vec::new();
        let mut i: usize = 0;
        while i < self.backings.len()
            invariant
                bs == self.bs(),
                self.wf(),
                i <= bs.len(),
                end == ipa + len,
                keep@ == disjoint_from(bs.take(i as int), ipa as int, end as int),
                dropped@ == overlapping(bs.take(i as int), ipa as int, end as int),
                forall|k: int| 0 <= k < keep@.len() ==> extent_ok(keep@[k].ipa, keep@[k].len as int),
            decreases bs.len() - i,
        {
            assert(bs.take(i as int + 1).drop_last() =~= bs.take(i as int));
            assert(extent_ok(bs[i as int].ipa, bs[i as int].len as int));
            let b = self.backings[i];
            if b.ipa < end && (ipa as u128) < b.ipa as u128 + b.len as u128 {
                dropped.push(b);
            } else {
                keep.push(b);
            }
            i += 1;
        }
        assert(bs.take(bs.len() as int) =~= bs);
        let ghost rs0 = self.rs();
        assert(forall|k: int| 0 <= k < rs0.len() ==> extent_ok(rs0[k].0, rs0[k].1 as int));
        self.backings = keep;
        assert(self.rs() == rs0);
        dropped
    }

    /// Place a `FIXED` request at `addr`: when it covers every backing it touches, those are
    /// dropped and a fresh backing `[addr, addr + rlen)` is recorded; when it lies inside one
    /// backing, that backing is reused in place and nothing changes. A request that straddles a
    /// backing is refused before this is called.
    pub fn place_fixed(&mut self, addr: u64, rlen: usize) -> (p: MapPlan)
        requires
            old(self).wf(),
            fits_fixed(addr, rlen),
            covers_all(old(self).bs(), addr as int, addr + rlen) || exists|i: int|
                0 <= i < old(self).bs().len() && contains(old(self).bs()[i], addr as int, addr + rlen),
        ensures
            final(self).wf(),
            final(self).rs() == old(self).rs(),
            final(self).next() == old(self).next(),
            covers_all(old(self).bs(), addr as int, addr + rlen) ==> {
                &&& p matches MapPlan::Fresh { ipa, dropped } && ipa == addr && dropped@
                    == overlapping(old(self).bs(), addr as int, addr + rlen)
                &&& final(self).bs() == disjoint_from(old(self).bs(), addr as int, addr + rlen).push(
                    Backing { ipa: addr, len: rlen },
                )
            },
            !covers_all(old(self).bs(), addr as int, addr + rlen) ==> {
                &&& p matches MapPlan::Reuse { ipa, backing } && ipa == addr && backing < old(self).bs().len()
                    && contains(old(self).bs()[backing as int], addr as int, addr + rlen)
                    && forall|k: int| 0 <= k < backing ==> !contains(old(self).bs()[k], addr as int, addr + rlen)
                &&& final(self).bs() == old(self).bs()
            },
    {
        match self.classify_fixed(addr, rlen) {
            FixedCase::Covers => {
                let dropped = self.unmap_overlapping(addr, rlen as u64);
                self.backings.push(Backing { ipa: addr, len: rlen });
                MapPlan::Fresh { ipa: addr, dropped }
            },
            FixedCase::Contained(i) => MapPlan::Reuse { ipa: addr, backing: i },
            FixedCase::Straddles => {
                proof {
                    assert(false);
                }
                MapPlan::Reuse { ipa: addr, backing: 0 }
            },
        }
    }

    /// Place an `ANYWHERE` request of `rlen` bytes with hint `hint` and record its backing. A
    /// non-zero hint takes the first fit at or above it, and the cursor floats past the placement;
    /// otherwise (or when nothing fits) the cursor hands out the address, first rounded up to a
    /// fresh 32 MiB block for an executable region.
    pub fn place_anywhere(&mut self, hint: u64, rlen: usize, exec: bool) -> (a: u64)
        requires
            old(self).wf(),
            old(self).next() + BLK + rlen <= EXTENT_LIMIT,
        ensures
            final(self).wf(),
            final(self).rs() == old(self).rs(),
            final(self).bs() == old(self).bs().push(Backing { ipa: a, len: rlen }),
            final(self).next() >= a + rlen,
            hint != 0 && free_in(old(self).bs(), old(self).rs(), a, rlen as u64) && fit_candidate(
                old(self).bs(),
                old(self).rs(),
                page_down(hint),
                a,
            ) && (forall|c: u64|
                #[trigger] fit_candidate(old(self).bs(), old(self).rs(), page_down(hint), c) && c < a
                    ==> !free_in(old(self).bs(), old(self).rs(), c, rlen as u64))
                ==> final(self).next() == max_u64(old(self).next(), page_up((a + rlen) as u64)),
            (hint == 0 || forall|c: u64|
                #[trigger] fit_candidate(old(self).bs(), old(self).rs(), page_down(hint), c) ==> !free_in(
                    old(self).bs(),
                    old(self).rs(),
                    c,
                    rlen as u64,
                )) ==> {
                let start = if exec { blk_up(old(self).next()) } else { old(self).next() };
                &&& a == start
                &&& final(self).next() == start + rlen
            },
    {
        let ghost rs0 = self.rs();
        let ghost bs0 = self.bs();
        assert(forall|k: int| 0 <= k < rs0.len() ==> extent_ok(rs0[k].0, rs0[k].1 as int));
        assert(forall|k: int| 0 <= k < bs0.len() ==> extent_ok(bs0[k].ipa, bs0[k].len as int));
        let n = self.mmap_next;
        assert(n == old(self).next());
        let fit = if hint != 0 {
            self.first_fit(hint, rlen as u64)
        } else {
            None
        };
        let g = GRANULE as u64;
        let a = match fit {
            Some(a) => {
                assert(sat_add(a, rlen as u64) <= IPA_LIMIT);
                let x = a + rlen as u64;
                let up = (x + (g - 1)) & !(g - 1);
                assert(x <= 0x10_0000_0000u64 ==> ((x + 0x3fffu64) as u64) & !0x3fffu64 >= x) by (bit_vector);
                if up > self.mmap_next {
                    self.mmap_next = up;
                }
                a
            },
            None => {
                if exec {
                    self.mmap_next = (n + (BLK - 1)) & !(BLK - 1);
                    assert(((n + 0x1ff_ffffu64) as u64) & !0x1ff_ffffu64 <= n + 0x1ff_ffffu64) by (bit_vector);
                }
                let a = self.mmap_next;
                self.mmap_next = a + rlen as u64;
                a
            },
        };
        self.backings.push(Backing { ipa: a, len: rlen });
        assert(self.rs() == rs0);
        assert(self.bs() == bs0.push(Backing { ipa: a, len: rlen }));
        a
    }

    /// Service a `PROT_NONE` reservation: bookkeeping only, nothing is backed. `FIXED` honours
    /// `addr` (and moves the cursor past the band if it sat inside it); `ANYWHERE` takes the cursor.
    /// The extent is recorded in whole granules so its pages can be committed on first touch.
    pub fn guest_vm_reserve(&mut self, addr: u64, size: u64, anywhere: bool) -> (base: u64)
        requires
            old(self).wf(),
            size + GRANULE <= u64::MAX,
            anywhere ==> old(self).next() + page_up(size) <= IPA_LIMIT,
            !anywhere ==> addr + page_up(size) <= EXTENT_LIMIT,
        ensures
            final(self).wf(),
            final(self).bs() == old(self).bs(),
            final(self).rs() == old(self).rs().push((base, page_up(size))),
            anywhere ==> base == old(self).next() && final(self).next() == old(self).next() + page_up(size),
            !anywhere ==> base == addr && final(self).next() == if old(self).next() >= addr
                && old(self).next() < sat_add(addr, size) {
                sat_add(addr, size)
            } else {
                old(self).next()
            },
    {
        let ghost rs0 = self.rs();
        let ghost bs0 = self.bs();
        assert(forall|k: int| 0 <= k < rs0.len() ==> extent_ok(rs0[k].0, rs0[k].1 as int));
        assert(forall|k: int| 0 <= k < bs0.len() ==> extent_ok(bs0[k].ipa, bs0[k].len as int));
        let rounded = (size + 0x3fff) & !0x3fffu64;
        assert(rounded == page_up(size));
        let base = if anywhere {
            let end = self.mmap_next + rounded;
            let a = self.mmap_next;
            self.mmap_next = end;
            a
        } else {
            let end = addr.saturating_add(size);
            if self.mmap_next >= addr && self.mmap_next < end {
                self.mmap_next = end;
            }
            addr
        };
        self.reservations.push((base, rounded));
        assert(self.bs() == bs0);
        assert(self.rs() == rs0.push((base, rounded)));
        base
    }

    /// The first backing holding `ipa`.
    pub fn backing_of(&self, ipa: u64) -> (r: Option<usize>)
        ensures
            r matches Some(i) ==> first_holding(self.bs(), ipa as int) == Some(i as int),
            r is None ==> first_holding(self.bs(), ipa as int) is None,
    {
        let ghost bs = self.bs();
        let mut i: usize = 0;
        while i < self.backings.len()
            invariant
                bs == self.bs(),
                i <= bs.len(),
                first_holding(bs.take(i as int), ipa as int) is None,
            decreases bs.len() - i,
        {
            assert(bs.take(i as int + 1).drop_last() =~= bs.take(i as int));
            let b = self.backings[i];
            if ipa >= b.ipa && (ipa as u128) < b.ipa as u128 + b.len as u128 {
                proof {
                    lemma_first_holding_prefix(bs, i as int + 1, ipa as int);
                }
                return Some(i);
            }
            i += 1;
        }
        assert(bs.take(bs.len() as int) =~= bs);
        None
    }

    /// Where `ipa` lives: the first backing holding it and the offset into that backing.
    pub fn span_of(&self, ipa: u64) -> (r: Option<(usize, usize)>)
        ensures
            match first_holding(self.bs(), ipa as int) {
                Some(i) => r == Some((i as usize, (ipa - self.bs()[i].ipa) as usize)),
                None => r is None,
            },
    {
        match self.backing_of(ipa) {
            Some(i) => {
                proof {
                    lemma_first_holding_holds(self.bs(), ipa as int);
                }
                Some((i, (ipa - self.backings[i].ipa) as usize))
            },
            None => None,
        }
    }

    /// Where all of `[ipa, ipa + len)` lives in one backing: the first such backing and the
    /// offset into it. `None` when no single backing holds the whole span.
    pub fn containing(&self, ipa: u64, len: usize) -> (r: Option<(usize, usize)>)
        ensures
            match first_containing(self.bs(), ipa as int, len as int) {
                Some(i) => r == Some((i as usize, (ipa - self.bs()[i].ipa) as usize)),
                None => r is None,
            },
    {
        let ghost bs = self.bs();
        let mut i: usize = 0;
        while i < self.backings.len()
            invariant
                bs == self.bs(),
                i <= bs.len(),
                forall|k: int| 0 <= k < i ==> !contains(#[trigger] bs[k], ipa as int, ipa + len),
            decreases bs.len() - i,
        {
            let b = self.backings[i];
            if ipa >= b.ipa && ipa as u128 + len as u128 <= b.ipa as u128 + b.len as u128 {
                proof {
                    lemma_first_containing_is(bs, ipa as int, len as int, i as int);
                }
                return Some((i, (ipa - b.ipa) as usize));
            }
            i += 1;
        }
        proof {
            lemma_first_containing_none(bs, ipa as int, len as int);
        }
        None
    }

    /// Is `ipa` inside any backing?
    pub fn is_mapped(&self, ipa: u64) -> (b: bool)
        ensures
            b == first_holding(self.bs(), ipa as int) is Some,
    {
        self.backing_of(ipa).is_some()
    }

    /// Demand-commit the granule holding `ipa` if it lies inside a reservation and is not yet
    /// backed: record a one-granule backing there and answer `true` (the caller maps a zeroed
    /// page). Anything else stays fatal: `false`, and nothing changes.
    pub fn commit_reserved_page(&mut self, ipa: u64) -> (b: bool)
        requires
            old(self).wf(),
        ensures
            final(self).wf(),
            final(self).rs() == old(self).rs(),
            final(self).next() == old(self).next(),
            b == (reserved(old(self).rs(), page_down(ipa) as int) && first_holding(
                old(self).bs(),
                page_down(ipa) as int,
            ) is None),
            b ==> final(self).bs() == old(self).bs().push(
                Backing { ipa: page_down(ipa), len: GRANULE },
            ),
            !b ==> final(self).bs() == old(self).bs(),
    {
        let page_base = ipa & !(GRANULE as u64 - 1);
        let ghost rs = self.rs();
        let mut j: usize = 0;
        let mut inside = false;
        while j < self.reservations.len()
            invariant
                rs == self.rs(),
                self.wf(),
                j <= rs.len(),
                page_base == page_down(ipa),
                inside ==> reserved(rs, page_base as int) && page_base < EXTENT_LIMIT,
                !inside ==> forall|k: int| 0 <= k < j ==> !((#[trigger] rs[k]).0 <= page_base < rs[k].0 + rs[k].1),
            decreases rs.len() - j,
        {
            let (start, len) = self.reservations[j];
            assert(extent_ok(rs[j as int].0, rs[j as int].1 as int));
            if page_base >= start && (page_base as u128) < start as u128 + len as u128 {
                assert(rs[j as int].0 <= page_base < rs[j as int].0 + rs[j as int].1);
                inside = true;
            }
            j += 1;
        }
        if !inside {
            return false;
        }
        if self.backing_of(page_base).is_some() {
            return false;
        }
        assert(page_base & 0x3fffu64 == 0 && page_base < 0xFFFF_FFFF_FFFF_0000u64 ==> page_base + 0x4000u64
            <= 0xFFFF_FFFF_FFFF_0000u64) by (bit_vector);
        assert((ipa & !0x3fffu64) & 0x3fffu64 == 0) by (bit_vector);
        let ghost bs0 = self.bs();
        assert(forall|k: int| 0 <= k < rs.len() ==> extent_ok(rs[k].0, rs[k].1 as int));
        assert(forall|k: int| 0 <= k < bs0.len() ==> extent_ok(bs0[k].ipa, bs0[k].len as int));
        self.backings.push(Backing { ipa: page_base, len: GRANULE });
        assert(self.rs() == rs);
        assert(self.bs() == bs0.push(Backing { ipa: page_base, len: GRANULE }));
        true
    }

    /// Honour `munmap`: cut the range out of every reservation, then drop the first backing that
    /// holds `ipa` and hand it back for the caller to unmap and free.
    pub fn guest_munmap(&mut self, ipa: u64, len: u64) -> (r: Option<Backing>)
        requires
            old(self).wf(),
            sat_add(ipa, len) + GRANULE <= u64::MAX,
        ensures
            final(self).wf(),
            final(self).next() == old(self).next(),
            ({
                let s = page_down(ipa);
                let e = page_up(sat_add(ipa, len));
                &&& e <= s ==> final(self).rs() == old(self).rs()
                &&& e > s ==> final(self).rs() == cut(old(self).rs(), s, e)
            }),
            match first_holding(old(self).bs(), ipa as int) {
                Some(i) => r == Some(old(self).bs()[i]) && final(self).bs() == without(old(self).bs(), i),
                None => r is None && final(self).bs() == old(self).bs(),
            },
    {
        self.subtract_reservations(ipa, len);
        match self.backing_of(ipa) {
            Some(i) => {
                proof {
                    lemma_first_holding_facts(self.bs(), ipa as int);
                }
                let ghost bs0 = self.bs();
                let ghost rs0 = self.rs();
                assert(forall|k: int| 0 <= k < rs0.len() ==> extent_ok(rs0[k].0, rs0[k].1 as int));
                assert(forall|k: int| 0 <= k < bs0.len() ==> extent_ok(bs0[k].ipa, bs0[k].len as int));
                let b = self.backings.remove(i);
                assert(self.bs() =~= without(bs0, i as int));
                assert(self.rs() == rs0);
                assert(forall|k: int| 0 <= k < self.bs().len() ==> extent_ok(self.bs()[k].ipa, self.bs()[k].len as int)) by {
                    assert forall|k: int| 0 <= k < self.bs().len() implies extent_ok(self.bs()[k].ipa, self.bs()[k].len as int) by {
                        if k < i {
                            assert(self.bs()[k] == bs0[k]);
                        } else {
                            assert(self.bs()[k] == bs0[k + 1]);
                        }
                    }
                }
                Some(b)
            },
            None => None,
        }
    }

    /// The total length of the backings.
    pub fn mapped_len(&self) -> (n: usize)
        requires
            total_len(self.bs()) <= usize::MAX,
        ensures
            n == total_len(self.bs()),
    {
        let ghost bs = self.bs();
        let mut n: usize = 0;
        let mut i: usize = 0;
        while i < self.backings.len()
            invariant
                bs == self.bs(),
                i <= bs.len(),
                total_len(bs) <= usize::MAX,
                n == total_len(bs.take(i as int)),
            decreases bs.len() - i,
        {
            assert(bs.take(i as int + 1).drop_last() =~= bs.take(i as int));
            proof {
                lemma_total_len_prefix(bs, i as int + 1);
            }
            n = n + self.backings[i].len;
            i += 1;
        }
        assert(bs.take(bs.len() as int) =~= bs);
        n
    }
}

/// A prefix's total length is at most the whole's.
proof fn lemma_total_len_prefix(bs: Seq<Backing>, k: int)
    requires
        0 <= k <= bs.len(),
    ensures
        total_len(bs.take(k)) <= total_len(bs),
    decreases bs.len() - k,
{
    if k < bs.len() {
        lemma_total_len_prefix(bs, k + 1);
        assert(bs.take(k + 1).drop_last() =~= bs.take(k));
        assert(total_len(bs.take(k + 1)) == total_len(bs.take(k)) + bs[k].len);
    } else {
        assert(bs.take(k) =~= bs);
    }
}

/// The first holder in a prefix that has one is the first holder overall, and the facts about it.
proof fn lemma_first_holding_prefix(bs: Seq<Backing>, k: int, x: int)
    requires
        0 <= k <= bs.len(),
        first_holding(bs.take(k), x) is Some,
    ensures
        first_holding(bs, x) == first_holding(bs.take(k), x),
        ({
            let i = first_holding(bs, x)->0;
            0 <= i < bs.len() && holds(bs[i], x)
        }),
    decreases bs.len() - k,
{
    if k < bs.len() {
        assert(bs.take(k + 1).drop_last() =~= bs.take(k));
        lemma_first_holding_prefix(bs, k + 1, x);
    } else {
        assert(bs.take(k) =~= bs);
        lemma_first_holding_facts(bs, x);
    }
}

proof fn lemma_first_holding_facts(bs: Seq<Backing>, x: int)
    requires
        first_holding(bs, x) is Some,
    ensures
        ({
            let i = first_holding(bs, x)->0;
            0 <= i < bs.len() && holds(bs[i], x)
        }),
    decreases bs.len(),
{
    if bs.len() > 0 {
        if first_holding(bs.drop_last(), x) is Some {
            lemma_first_holding_facts(bs.drop_last(), x);
        }
    }
}

impl AddressSpace {
    /// `mach_vm_map`'s placement: `ANYWHERE` goes through `place_anywhere` and maps fresh;
    /// `FIXED` through `place_fixed`. The returned plan says what the caller maps.
    pub fn guest_vm_map(&mut self, addr: u64, rlen: usize, anywhere: bool, exec: bool) -> (p: MapPlan)
        requires
            old(self).wf(),
            anywhere ==> old(self).next() + BLK + rlen <= EXTENT_LIMIT,
            !anywhere ==> fits_fixed(addr, rlen) && (covers_all(old(self).bs(), addr as int, addr + rlen)
                || exists|i: int|
                0 <= i < old(self).bs().len() && contains(old(self).bs()[i], addr as int, addr + rlen)),
        ensures
            final(self).wf(),
            final(self).rs() == old(self).rs(),
            anywhere ==> {
                &&& p matches MapPlan::Fresh { ipa, dropped }
                &&& dropped@.len() == 0
                &&& final(self).bs() == old(self).bs().push(Backing { ipa, len: rlen })
                &&& final(self).next() >= ipa + rlen
            },
            !anywhere ==> final(self).next() == old(self).next(),
            !anywhere ==> (covers_all(old(self).bs(), addr as int, addr + rlen) <==> (p is Fresh)),
            !anywhere ==> (p matches MapPlan::Fresh { ipa, dropped } ==> {
                &&& ipa == addr
                &&& dropped@ == overlapping(old(self).bs(), addr as int, addr + rlen)
                &&& final(self).bs() == disjoint_from(old(self).bs(), addr as int, addr + rlen).push(
                    Backing { ipa: addr, len: rlen },
                )
            }),
            !anywhere ==> (p matches MapPlan::Reuse { ipa, backing } ==> {
                &&& ipa == addr
                &&& final(self).bs() == old(self).bs()
                &&& contains(old(self).bs()[backing as int], addr as int, addr + rlen)
            }),
    {
        if anywhere {
            let a = self.place_anywhere(addr, rlen, exec);
            MapPlan::Fresh { ipa: a, dropped: Vec::new() }
        } else {
            self.place_fixed(addr, rlen)
        }
    }

    /// `mmap`'s placement. A non-`FIXED` executable mapping first moves the cursor to a fresh
    /// 32 MiB block. `FIXED`: an address the guest's space cannot hold is `EINVAL` with nothing
    /// changed; otherwise `place_fixed`. Not `FIXED`: the cursor hands out the address.
    pub fn guest_mmap(&mut self, addr: u64, rlen: usize, prot: u64, flags: u64) -> (r: Result<MapPlan, u64>)
        requires
            old(self).wf(),
            flags & MAP_FIXED == 0 ==> old(self).next() + BLK + rlen <= EXTENT_LIMIT,
            flags & MAP_FIXED != 0 && fits_fixed(addr, rlen) ==> covers_all(
                old(self).bs(),
                addr as int,
                addr + rlen,
            ) || exists|i: int|
                0 <= i < old(self).bs().len() && contains(old(self).bs()[i], addr as int, addr + rlen),
        ensures
            final(self).wf(),
            final(self).rs() == old(self).rs(),
            r is Err <==> flags & MAP_FIXED != 0 && !fits_fixed(addr, rlen),
            r is Err ==> r == Err::<MapPlan, u64>(crate::arch::EINVAL) && final(self).bs() == old(self).bs()
                && final(self).next() == old(self).next(),
            flags & MAP_FIXED == 0 ==> {
                let start = if prot & PROT_EXEC != 0 { blk_up(old(self).next()) } else { old(self).next() };
                &&& r matches Ok(MapPlan::Fresh { ipa, dropped }) && ipa == start && dropped@.len() == 0
                &&& final(self).bs() == old(self).bs().push(Backing { ipa: start, len: rlen })
                &&& final(self).next() == start + rlen
            },
            flags & MAP_FIXED != 0 && fits_fixed(addr, rlen) ==> final(self).next() == old(self).next(),
            flags & MAP_FIXED != 0 && fits_fixed(addr, rlen) ==> (covers_all(old(self).bs(), addr as int, addr + rlen)
                <==> (r matches Ok(MapPlan::Fresh { .. }))),
            flags & MAP_FIXED != 0 ==> (r matches Ok(MapPlan::Fresh { ipa, dropped }) ==> {
                &&& ipa == addr
                &&& dropped@ == overlapping(old(self).bs(), addr as int, addr + rlen)
                &&& final(self).bs() == disjoint_from(old(self).bs(), addr as int, addr + rlen).push(
                    Backing { ipa: addr, len: rlen },
                )
            }),
            flags & MAP_FIXED != 0 ==> (r matches Ok(MapPlan::Reuse { ipa, backing }) ==> {
                &&& ipa == addr
                &&& final(self).bs() == old(self).bs()
                &&& contains(old(self).bs()[backing as int], addr as int, addr + rlen)
            }),
    {
        if flags & MAP_FIXED != 0 {
            if !fixed_fits(addr, rlen) {
                return Err(crate::arch::EINVAL);
            }
            return Ok(self.place_fixed(addr, rlen));
        }
        let ghost rs0 = self.rs();
        let ghost bs0 = self.bs();
        assert(forall|k: int| 0 <= k < rs0.len() ==> extent_ok(rs0[k].0, rs0[k].1 as int));
        assert(forall|k: int| 0 <= k < bs0.len() ==> extent_ok(bs0[k].ipa, bs0[k].len as int));
        let n = self.mmap_next;
        if prot & PROT_EXEC != 0 {
            self.mmap_next = (n + (BLK - 1)) & !(BLK - 1);
            assert(((n + 0x1ff_ffffu64) as u64) & !0x1ff_ffffu64 <= n + 0x1ff_ffffu64) by (bit_vector);
        }
        let ipa = self.mmap_next;
        self.backings.push(Backing { ipa, len: rlen });
        self.mmap_next = ipa + rlen as u64;
        assert(self.rs() == rs0);
        assert(self.bs() == bs0.push(Backing { ipa, len: rlen }));
        Ok(MapPlan::Fresh { ipa, dropped: Vec::new() })
    }
}

/// When the hint is granule-aligned and its own range is free, `first_fit` returns the hint
/// itself: every candidate lies at or above it.
pub proof fn lemma_first_fit_honours_a_free_hint(
    bs: Seq<Backing>,
    rs: Seq<(u64, u64)>,
    hint: u64,
    len: u64,
    a: u64,
)
    requires
        page_down(hint) == hint,
        free_in(bs, rs, hint, len),
        fit_candidate(bs, rs, hint, a),
        free_in(bs, rs, a, len),
        forall|c: u64| #[trigger] fit_candidate(bs, rs, hint, c) && c < a ==> !free_in(bs, rs, c, len),
    ensures
        a == hint,
{
    assert(fit_candidate(bs, rs, hint, hint));
}

/// Can the guest's address space hold a `FIXED` request for `[addr, addr + rlen)`? A misaligned,
/// overflowing or too-high request is one the kernel refuses with `EINVAL`.
pub fn fixed_fits(addr: u64, rlen: usize) -> (b: bool)
    ensures
        b == fits_fixed(addr, rlen),
{
    let aligned = addr & (GRANULE as u64 - 1) == 0;
    assert(addr & 0x3fffu64 == 0 <==> addr % 0x4000u64 == 0) by (bit_vector);
    aligned && (addr as u128 + rlen as u128) <= IPA_LIMIT as u128
}

} // verus!
