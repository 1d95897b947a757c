//! The guest's fixed geometry: where the box puts things in the 36-bit IPA space, the stage-1
//! descriptor attributes, the system-register values derived from the guest's pointer-auth
//! posture, and the facts the box re-derives from a snapshot's own memory.
use vstd::prelude::*;
use vstd::bytes::{spec_u32_from_le_bytes, spec_u64_to_le_bytes, u32_from_le_bytes, u64_to_le_bytes};
use crate::arch::CPU_SUBTYPE_ARM64E;
use crate::trace::Region;

verus! {

/// The exception trampoline (16 KiB-aligned).
pub const TRAMPOLINE_IPA: u64 = 0x0000_4000;

/// Top of the static guest's one-granule stack.
pub const STACK_TOP_IPA: u64 = 0x0002_0000;

/// Where the dynamic linker is slid to.
pub const DYLD_BASE: u64 = 0x1_4000_0000;

/// Top of the dynamic guest's stack: high enough that libstd's guard page, computed from
/// libpthread's constant 8 MiB-minus-a-granule main-thread stack size, lands above the L3
/// page-table window and below the stack.
pub const DYN_STACK_TOP: u64 = 0x0280_0000;

/// The dynamic guest's backed stack size (256 KiB).
pub const DYN_STACK_SIZE: u64 = 0x0004_0000;

/// Cap on the window of guest memory captured around a pointer argument.
pub const PTR_WINDOW_CAP: usize = 64 * 1024;

/// libmalloc's nano "pointer range" reservation, kept pristine.
pub const NANO_BAND_START: u64 = 0x4_0000_0000;

/// End of the nano band (24 GiB past its start).
pub const NANO_BAND_END: u64 = 0xA_0000_0000;

/// The bump-allocation base for anonymous mappings, above the nano band.
pub const MMAP_BASE: u64 = NANO_BAND_END;

/// The stage-1 granule: 16 KiB.
pub const GRANULE: usize = 0x4000;

/// The dyld shared cache's fixed window.
pub const SHARED_REGION_START: u64 = 0x1_8000_0000;

/// End of the shared cache's window.
pub const SHARED_REGION_END: u64 = 0x3_0000_0000;

/// The frozen copy of the data commpage.
pub const COMMPAGE_IPA: u64 = 0x0000_000F_FFFF_C000;

/// The frozen copy of the second commpage-region page.
pub const COMMPAGE2_IPA: u64 = 0x0000_000F_FFFF_4000;

/// The main thread's thread pointer (`TPIDRRO_EL0`).
pub const TSD_IPA: u64 = 0x0003_0000;

/// The staged TSD region's base, 0x8000 below the thread pointer.
pub const TSD_REGION_BASE: u64 = 0x0002_8000;

/// The staged TSD region's size: four granules.
pub const TSD_REGION_SIZE: u64 = 0x0001_0000;

/// The L2 translation table.
pub const PT_L2_IPA: u64 = 0x8000;

/// The L1 translation table (the `TTBR0_EL1` target).
pub const PT_L1_IPA: u64 = 0xC000;

/// Base of the window L3 tables are allocated from.
pub const PT_L3_BASE: u64 = 0x0080_0000;

/// End of the L3 table window: the 32 MiB block boundary.
pub const PT_L3_CEIL: u64 = 0x0200_0000;

/// `TCR_EL1`: 47-bit VA, 16 KiB granule, TBI0 and TBID0.
pub const TCR_EL1_V: u64 = 0x8_0021_0080_B511;

/// `MAIR_EL1`: attribute 0 is Normal write-back.
pub const MAIR_EL1_V: u64 = 0xFF;

/// `SCTLR_EL1` with the MMU and caches on, pointer authentication off: the reset value
/// 0x30d0_0800 with M (1), C (4) and I (0x1000).
pub const SCTLR_MMU_ON_BASE: u64 = 0x30d0_1805;

/// `SCTLR_EL1`'s pointer-authentication enables: EnIA (bit 31), EnIB (30), EnDA (27), EnDB (13).
pub const SCTLR_PAC_EN: u64 = 0xC800_2000;

/// The main executable's load address.
pub const EXE_BASE: u64 = 0x1_0000_0000;

/// `MH_MAGIC_64`.
pub const MH_MAGIC_64: u32 = 0xfeed_facf;

/// Descriptor bits common to every mapping: access flag (0x400), inner shareable (0x300),
/// attribute index 0.
pub const A_COMMON: u64 = 0x700;

/// EL0 execute-never (bit 54).
pub const UXN: u64 = 0x0040_0000_0000_0000;

/// EL1 execute-never (bit 53).
pub const PXN: u64 = 0x0020_0000_0000_0000;

/// Data: `A_COMMON`, AP = EL0 read-write (0x40), `UXN`, `PXN`: never executable.
pub const ATTR_DATA: u64 = 0x0060_0000_0000_0740;

/// Code: `A_COMMON`, AP = read-only at both levels (0xC0), `PXN`: EL0-executable.
pub const ATTR_CODE: u64 = 0x0020_0000_0000_07C0;

/// The trampoline: `A_COMMON`, AP = EL1 read-only (0x80), `UXN`: EL1-executable, no EL0 access.
pub const ATTR_TRAMP: u64 = 0x0040_0000_0000_0780;

/// `A_COMMON`, AP = EL1 only (0x00), `UXN`, `PXN`: no EL0 access, never executable.
pub const ATTR_NONE: u64 = 0x0060_0000_0000_0700;

/// An L2 block descriptor.
pub const DESC_BLOCK: u64 = 0x1;

/// An L2-to-L3 table descriptor.
pub const DESC_TABLE: u64 = 0x3;

/// An L3 page descriptor.
pub const DESC_PAGE: u64 = 0x3;

/// One L2 entry's span: 32 MiB.
pub const BLK: u64 = 0x200_0000;

/// The low 24 bits of a CPU subtype carry the subtype proper; the high byte holds capability bits.
pub open spec fn subtype_is_arm64e(cpusubtype: u32) -> bool {
    cpusubtype & 0x00ff_ffff == CPU_SUBTYPE_ARM64E
}

/// Pointer authentication is on for a process exactly when its main executable is `arm64e`;
/// a plain `arm64` process sees the `PAC*`/`AUT*` hint instructions as no-ops.
pub fn pac_posture(cpusubtype: u32) -> (b: bool)
    ensures
        b == subtype_is_arm64e(cpusubtype),
{
    (cpusubtype & 0x00ff_ffff) == CPU_SUBTYPE_ARM64E
}

/// `SCTLR_EL1` for a guest with the given posture.
pub fn sctlr_mmu_on(pac_enabled: bool) -> (r: u64)
    ensures
        r == SCTLR_MMU_ON_BASE | if pac_enabled { SCTLR_PAC_EN } else { 0 },
{
    SCTLR_MMU_ON_BASE | if pac_enabled { SCTLR_PAC_EN } else { 0 }
}

/// Some region starts exactly at `base` and holds at least `size` bytes.
pub open spec fn region_at(regions: Seq<Region>, base: u64, size: u64) -> bool {
    exists|i: int| 0 <= i < regions.len() && regions[i].ipa == base && regions[i].bytes@.len() >= size
}

/// The dynamic stack's backing is in the snapshot.
pub open spec fn has_dynamic_stack(regions: Seq<Region>) -> bool {
    region_at(regions, (DYN_STACK_TOP - DYN_STACK_SIZE) as u64, DYN_STACK_SIZE)
}

/// The static stack's backing is in the snapshot.
pub open spec fn has_static_stack(regions: Seq<Region>) -> bool {
    region_at(regions, (STACK_TOP_IPA - GRANULE) as u64, GRANULE as u64)
}

/// Does any region start at `base` with at least `size` bytes?
fn covers(regions: &[Region], base: u64, size: u64) -> (b: bool)
    ensures
        b == region_at(regions@, base, size),
{
    let mut i: usize = 0;
    while i < regions.len()
        invariant
            i <= regions@.len(),
            forall|j: int| 0 <= j < i ==> !(regions@[j].ipa == base && regions@[j].bytes@.len() >= size),
        decreases regions@.len() - i,
    {
        if regions[i].ipa == base && regions[i].bytes.len() as u64 >= size {
            return true;
        }
        i += 1;
    }
    false
}

/// Re-derive the guest's stack geometry `(top, size)` from a snapshot's own memory: the two load
/// paths place their stacks at disjoint addresses, so exactly one of them names the path. Never
/// guesses: the snapshot must hold exactly one of the two stacks.
pub fn stack_geometry_from_memory(regions: &[Region]) -> (r: (u64, u64))
    requires
        has_dynamic_stack(regions@) != has_static_stack(regions@),
    ensures
        has_dynamic_stack(regions@) ==> r == (DYN_STACK_TOP, DYN_STACK_SIZE),
        has_static_stack(regions@) ==> r == (STACK_TOP_IPA, GRANULE as u64),
{
    let dynamic = covers(regions, DYN_STACK_TOP - DYN_STACK_SIZE, DYN_STACK_SIZE);
    if dynamic {
        (DYN_STACK_TOP, DYN_STACK_SIZE)
    } else {
        (STACK_TOP_IPA, GRANULE as u64)
    }
}

/// The region holds the 12 bytes of the main executable's header fields at `EXE_BASE`.
pub open spec fn holds_exe_header(r: Region) -> bool {
    r.ipa <= EXE_BASE && EXE_BASE + 12 <= r.ipa + r.bytes@.len()
}

/// The first region holding the executable's header.
pub open spec fn first_header_region(regions: Seq<Region>) -> int
    decreases regions.len(),
{
    if regions.len() == 0 {
        0
    } else if holds_exe_header(regions[0]) {
        0
    } else {
        1 + first_header_region(regions.drop_first())
    }
}

/// Some region holds the executable's header.
pub open spec fn has_exe_header(regions: Seq<Region>) -> bool {
    exists|i: int| 0 <= i < regions.len() && holds_exe_header(regions[i])
}

/// The 32-bit little-endian word at offset `o` of `b`.
pub open spec fn word_at(b: Seq<u8>, o: int) -> u32 {
    spec_u32_from_le_bytes(b.subrange(o, o + 4))
}

/// The header word at `EXE_BASE + k` in the first region that holds the header.
pub open spec fn exe_header_word(regions: Seq<Region>, k: int) -> u32 {
    let r = regions[first_header_region(regions)];
    word_at(r.bytes@, EXE_BASE - r.ipa + k)
}

proof fn lemma_first_header_region(regions: Seq<Region>)
    requires
        has_exe_header(regions),
    ensures
        0 <= first_header_region(regions) < regions.len(),
        holds_exe_header(regions[first_header_region(regions)]),
        forall|j: int| 0 <= j < first_header_region(regions) ==> !holds_exe_header(regions[j]),
    decreases regions.len(),
{
    if !holds_exe_header(regions[0]) {
        let w = choose|i: int| 0 <= i < regions.len() && holds_exe_header(regions[i]);
        assert(regions.drop_first()[w - 1] == regions[w]);
        lemma_first_header_region(regions.drop_first());
        assert forall|j: int| 0 <= j < first_header_region(regions) implies !holds_exe_header(regions[j]) by {
            if j > 0 {
                assert(regions.drop_first()[j - 1] == regions[j]);
            }
        }
    }
}

/// Re-derive the pointer-auth posture from a snapshot's own memory: the main executable's Mach-O
/// header is mapped from file offset 0 at `EXE_BASE`, so its `cputype`/`cpusubtype` are in the
/// snapshot. Never defaults: the header must be there and carry `MH_MAGIC_64`.
pub fn pac_posture_from_memory(regions: &[Region]) -> (b: bool)
    requires
        has_exe_header(regions@),
        exe_header_word(regions@, 0) == MH_MAGIC_64,
    ensures
        b == subtype_is_arm64e(exe_header_word(regions@, 8)),
{
    proof {
        lemma_first_header_region(regions@);
    }
    let mut i: usize = 0;
    while i < regions.len()
        invariant
            i <= regions@.len(),
            has_exe_header(regions@),
            0 <= first_header_region(regions@) < regions@.len(),
            holds_exe_header(regions@[first_header_region(regions@)]),
            forall|j: int| 0 <= j < first_header_region(regions@) ==> !holds_exe_header(regions@[j]),
            i <= first_header_region(regions@),
        decreases regions@.len() - i,
    {
        let r = &regions[i];
        if r.ipa <= EXE_BASE && r.bytes.len() as u64 >= 12 && EXE_BASE - r.ipa <= r.bytes.len() as u64 - 12 {
            let o = (EXE_BASE - r.ipa) as usize;
            assert(i as int == first_header_region(regions@));
            let w8 = u32_from_le_bytes(vstd::slice::slice_subrange(r.bytes.as_slice(), o + 8, o + 12));
            return pac_posture(w8);
        }
        i += 1;
    }
    proof {
        assert(false);
    }
    false
}

/// The writes `sysctl({CTL_KERN, KERN_USRSTACK64})` performs, from the guest's own stack top.
/// `args` is `(name, namelen, oldp, oldlenp, ..)`: the top goes to `oldp` unless it is null (a size
/// probe), and its length, 8, to `oldlenp` unless that is null.
pub fn usrstack64_reply(stack_top: u64, args: [u64; 8]) -> (out: Vec<Region>)
    ensures
        out@.len() == (if args[2] != 0 { 1nat } else { 0nat }) + (if args[3] != 0 { 1nat } else { 0nat }),
        args[2] != 0 ==> out@[0].ipa == args[2] && out@[0].bytes@ == spec_u64_to_le_bytes(stack_top),
        args[3] != 0 ==> ({
            let k = if args[2] != 0 { 1int } else { 0int };
            out@[k].ipa == args[3] && out@[k].bytes@ == spec_u64_to_le_bytes(8)
        }),
{
    let oldp = args[2];
    let oldlenp = args[3];
    let mut out: Vec<Region> = Vec::new();
    if oldp != 0 {
        out.push(Region { ipa: oldp, bytes: u64_to_le_bytes(stack_top) });
    }
    if oldlenp != 0 {
        out.push(Region { ipa: oldlenp, bytes: u64_to_le_bytes(8) });
    }
    out
}

/// `getrlimit(RLIMIT_STACK)` answered from the guest's own stack size: `{ rlim_cur, rlim_max }`
/// both the mapped size, written to `args[1]`; nothing when that pointer is null.
pub fn rlimit_stack_reply(stack_size: u64, args: [u64; 8]) -> (out: Vec<Region>)
    ensures
        args[1] == 0 ==> out@.len() == 0,
        args[1] != 0 ==> out@.len() == 1 && out@[0].ipa == args[1] && out@[0].bytes@
            == spec_u64_to_le_bytes(stack_size) + spec_u64_to_le_bytes(stack_size),
{
    let rlp = args[1];
    if rlp == 0 {
        return Vec::new();
    }
    let mut bytes = u64_to_le_bytes(stack_size);
    let tail = u64_to_le_bytes(stack_size);
    let mut k: usize = 0;
    let ghost head = bytes@;
    while k < tail.len()
        invariant
            k <= tail@.len(),
            bytes@ == head + tail@.take(k as int),
        decreases tail@.len() - k,
    {
        assert(tail@.take(k as int + 1) =~= tail@.take(k as int).push(tail@[k as int]));
        bytes.push(tail[k]);
        k += 1;
    }
    assert(tail@.take(tail@.len() as int) =~= tail@);
    let mut out: Vec<Region> = Vec::new();
    out.push(Region { ipa: rlp, bytes });
    out
}

/// A descriptor's output-address bits, 47:14.
pub const PT_ADDR: u64 = 0x0000_FFFF_FFFF_C000;

/// The L1 index of a VA: bits 46:36.
pub open spec fn l1_index(va: u64) -> u64 {
    (va >> 36u64) & 0x7FF
}

/// The L2 index of a VA: bits 35:25.
pub open spec fn l2_index(va: u64) -> u64 {
    (va >> 25u64) & 0x7FF
}

/// The L3 index of a VA: bits 24:14.
pub open spec fn l3_index(va: u64) -> u64 {
    (va >> 14u64) & 0x7FF
}

/// The IPA an L2 block descriptor maps `va` to.
pub open spec fn block_ipa(l2e: u64, va: u64) -> u64 {
    (l2e & PT_ADDR & !((BLK - 1) as u64)) | (va & ((BLK - 1) as u64))
}

/// The IPA an L3 page descriptor maps `va` to.
pub open spec fn page_ipa(l3e: u64, va: u64) -> u64 {
    (l3e & PT_ADDR) | (va & ((GRANULE - 1) as u64))
}

/// Read-only walk of the guest's own stage-1 tables: VA to IPA. With the MMU off (`SCTLR_EL1.M`
/// clear) the map is the identity. A VA above the 47-bit space, an unreadable table, or an
/// invalid descriptor at any level gives `None`. The tables are the ones `build_tables` makes:
/// 16 KiB granule, 2048-entry tables, L1 a table, L2 a block or a table, L3 pages. `read(t, i)`
/// is the 8-byte descriptor `i` of the table at `t`, or `None` when that page is not backed.
pub fn va_to_ipa<F: Fn(u64, u64) -> Option<u64>>(sctlr: u64, va: u64, read: F) -> (r: Option<u64>)
    requires
        forall|t: u64, i: u64| read.requires((t, i)),
    ensures
        sctlr & 1 == 0 ==> r == Some(va),
        sctlr & 1 != 0 && va >> 47u64 != 0 ==> r is None,
        sctlr & 1 != 0 && va >> 47u64 == 0 ==> exists|d1: Option<u64>|
            #![trigger read.ensures((PT_L1_IPA, l1_index(va)), d1)]
            read.ensures((PT_L1_IPA, l1_index(va)), d1) && match d1 {
                None => r is None,
                Some(e1) => if e1 & 3 != DESC_TABLE {
                    r is None
                } else {
                    exists|d2: Option<u64>|
                        #![trigger read.ensures((e1 & PT_ADDR, l2_index(va)), d2)]
                        read.ensures((e1 & PT_ADDR, l2_index(va)), d2) && match d2 {
                            None => r is None,
                            Some(e2) => if e2 & 3 == DESC_BLOCK {
                                r == Some(block_ipa(e2, va))
                            } else if e2 & 3 == DESC_TABLE {
                                exists|d3: Option<u64>|
                                    #![trigger read.ensures((e2 & PT_ADDR, l3_index(va)), d3)]
                                    read.ensures((e2 & PT_ADDR, l3_index(va)), d3) && match d3 {
                                        None => r is None,
                                        Some(e3) => if e3 & 3 != DESC_PAGE {
                                            r is None
                                        } else {
                                            r == Some(page_ipa(e3, va))
                                        },
                                    }
                            } else {
                                r is None
                            },
                        }
                },
            },
{
    if sctlr & 1 == 0 {
        return Some(va);
    }
    if va >> 47 != 0 {
        return None;
    }
    let d1 = read(PT_L1_IPA, (va >> 36) & 0x7FF);
    let l1e = match d1 {
        Some(e) => e,
        None => {
            return None;
        },
    };
    if l1e & 0x3 != DESC_TABLE {
        return None;
    }
    let d2 = read(l1e & PT_ADDR, (va >> 25) & 0x7FF);
    let l2e = match d2 {
        Some(e) => e,
        None => {
            return None;
        },
    };
    if l2e & 0x3 == DESC_BLOCK {
        return Some((l2e & PT_ADDR & !(BLK - 1)) | (va & (BLK - 1)));
    }
    if l2e & 0x3 != DESC_TABLE {
        return None;
    }
    let d3 = read(l2e & PT_ADDR, (va >> 14) & 0x7FF);
    let l3e = match d3 {
        Some(e) => e,
        None => {
            return None;
        },
    };
    if l3e & 0x3 != DESC_PAGE {
        return None;
    }
    Some((l3e & PT_ADDR) | (va & (GRANULE as u64 - 1)))
}

} // verus!
