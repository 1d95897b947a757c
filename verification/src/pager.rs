//! Demand paging of the shared cache window: what to do when the guest faults on a cache IPA,
//! the guard against a mapped cache page that keeps faulting, and patching re-signed auth slots
//! back into a staged page. Reading the page, signing and mapping are the caller's.
use vstd::prelude::*;
use crate::cache::{first_mapping, route_via, cache_maps_ok, AuthSlot, CacheMeta, CacheRoute};
use crate::layout::GRANULE;
use crate::le::{put, write_arr};
use vstd::bytes::{spec_u64_to_le_bytes, u64_to_le_bytes};

verus! {

/// After this many consecutive faults on one already-mapped cache page the pager gives up: the
/// fault is one re-running cannot fix (a stale translation), and would otherwise hang the guest.
pub const REFAULT_LIMIT: u64 = 8;

/// The page holding `ipa`.
pub open spec fn page_base_of(ipa: u64) -> u64 {
    (ipa - ipa % 0x4000) as u64
}

/// What a cache-window fault calls for.
#[derive(Debug, Clone, Copy, PartialEq, Eq, Structural)]
pub enum PageIn {
    /// Not a cache IPA: a genuine fault, left unhandled.
    Miss,
    /// The page is already mapped: nothing to stage.
    Resident,
    /// A page of the kernel-made dynamic data region: a zero page, carrying the region's header
    /// when it is the region's first page.
    DynamicData { page_base: u64, with_header: bool },
    /// A text page: stage its bytes as they are and make the page executable.
    Text { page_base: u64, route: CacheRoute },
    /// A data page with fixups: stage it, rebase its chain and re-sign its auth slots.
    Fixups { page_base: u64, route: CacheRoute },
    /// A data page without fixups: stage its bytes as they are.
    Plain { page_base: u64, route: CacheRoute },
}

/// The dynamic data region `(address, size)` holds `x`, its end taken modulo 2^64.
pub open spec fn in_dynamic(region: (u64, u64), x: u64) -> bool {
    region.0 <= x < ((region.0 + region.1) % 0x1_0000_0000_0000_0000) as u64
}

/// The plan for a fault at `ipa`, given the cache's routing and whether the page is mapped.
pub open spec fn page_in_of(scs: Seq<crate::cache::Subcache>, dynamic: (u64, u64), ipa: u64, mapped: bool) -> PageIn {
    let pb = page_base_of(ipa);
    match first_mapping(scs, ipa) {
        Some((k, j)) => {
            let r = route_via(scs, k, j, ipa);
            if mapped {
                PageIn::Resident
            } else if r.is_exec {
                PageIn::Text { page_base: pb, route: r }
            } else if scs[k].mappings@[j].slide_info is Some {
                PageIn::Fixups { page_base: pb, route: r }
            } else {
                PageIn::Plain { page_base: pb, route: r }
            }
        },
        None => {
            if dynamic.0 != 0 && dynamic.1 != 0 && in_dynamic(dynamic, pb) {
                if mapped {
                    PageIn::Resident
                } else {
                    PageIn::DynamicData { page_base: pb, with_header: pb == dynamic.0 }
                }
            } else {
                PageIn::Miss
            }
        },
    }
}

/// Decide how to service a guest fault at `ipa` inside the cache window; `mapped` says whether
/// the page holding it is already backed. A cache mapping takes precedence over the dynamic data
/// region; anything else is a genuine fault.
pub fn plan_page_in(cache: &CacheMeta, ipa: u64, mapped: bool) -> (p: PageIn)
    requires
        cache_maps_ok(cache.scs()),
    ensures
        p == page_in_of(cache.scs(), cache.dynamic_spec(), ipa, mapped),
{
    let page_base = ipa - ipa % (GRANULE as u64);
    match cache.route(ipa) {
        Some(r) => {
            if mapped {
                PageIn::Resident
            } else if r.is_exec {
                PageIn::Text { page_base, route: r }
            } else {
                match cache.slide_info_of(r.subcache, r.mapping) {
                    Some(_) => PageIn::Fixups { page_base, route: r },
                    None => PageIn::Plain { page_base, route: r },
                }
            }
        },
        None => match cache.dynamic_data_region() {
            Some((dda, dds)) => {
                if dda <= page_base && page_base < dda.wrapping_add(dds) {
                    if mapped {
                        PageIn::Resident
                    } else {
                        PageIn::DynamicData { page_base, with_header: page_base == dda }
                    }
                } else {
                    PageIn::Miss
                }
            },
            None => PageIn::Miss,
        },
    }
}

/// Consecutive faults on one already-mapped page.
#[derive(Debug, Clone, Copy, PartialEq, Eq, Structural)]
pub struct RefaultGuard {
    /// The page last seen faulting while mapped (0 when the last fault was on an unmapped page).
    pub ipa: u64,
    /// How many times in a row it has faulted.
    pub count: u64,
}

impl RefaultGuard {
    /// No fault seen yet.
    pub fn new() -> (g: RefaultGuard)
        ensures
            g.ipa == 0 && g.count == 0,
    {
        RefaultGuard { ipa: 0, count: 0 }
    }

    /// Record a fault on the page at `page_base`. A fault on an unmapped page clears the streak; a
    /// fault on a mapped page extends the streak on the same page or starts one on a new page.
    /// Returns `true` when the streak has reached `REFAULT_LIMIT`: the pager must stop.
    pub fn note_fault(&mut self, page_base: u64, mapped: bool) -> (tripped: bool)
        ensures
            *final(self) == if !mapped {
                RefaultGuard { ipa: 0, count: 0 }
            } else if old(self).ipa == page_base {
                RefaultGuard { ipa: page_base, count: if old(self).count < u64::MAX { (old(self).count + 1) as u64 } else { u64::MAX } }
            } else {
                RefaultGuard { ipa: page_base, count: 1 }
            },
            tripped == (mapped && old(self).ipa == page_base && old(self).count + 1 >= REFAULT_LIMIT),
    {
        if mapped {
            if self.ipa == page_base {
                let tripped = self.count >= REFAULT_LIMIT - 1;
                self.count = self.count.saturating_add(1);
                tripped
            } else {
                self.ipa = page_base;
                self.count = 1;
                false
            }
        } else {
            self.ipa = 0;
            self.count = 0;
            false
        }
    }
}

/// `page` after writing the first `n` signed values over their slots, in order, each as 8
/// little-endian bytes.
pub open spec fn patched(page: Seq<u8>, slots: Seq<AuthSlot>, signed: Seq<u64>, n: int) -> Seq<u8>
    decreases n,
{
    if n <= 0 {
        page
    } else {
        put(patched(page, slots, signed, n - 1), slots[n - 1].offset as int, spec_u64_to_le_bytes(signed[n - 1]))
    }
}

/// Write each re-signed value over its auth slot, pairing slots and values in order (extra
/// entries on either side are ignored). Every slot lies inside the page.
pub fn patch_signed(page: &mut [u8; 16384], slots: &[AuthSlot], signed: &[u64])
    requires
        forall|i: int| 0 <= i < slots@.len() ==> (#[trigger] slots@[i]).offset + 8 <= 16384,
    ensures
        final(page)@ == patched(
            old(page)@,
            slots@,
            signed@,
            if slots@.len() < signed@.len() { slots@.len() as int } else { signed@.len() as int },
        ),
{
    let n = if slots.len() < signed.len() { slots.len() } else { signed.len() };
    let mut i: usize = 0;
    while i < n
        invariant
            i <= n,
            n == if slots@.len() < signed@.len() { slots@.len() } else { signed@.len() },
            forall|q: int| 0 <= q < slots@.len() ==> (#[trigger] slots@[q]).offset + 8 <= 16384,
            page@ == patched(old(page)@, slots@, signed@, i as int),
        decreases n - i,
    {
        let off = slots[i].offset;
        assert(slots@[i as int].offset + 8 <= 16384);
        let bytes = u64_to_le_bytes(signed[i]);
        write_arr(page, off, bytes.as_slice());
        i += 1;
    }
}

} // verus!
