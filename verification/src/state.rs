//! The recorder's own state beside the vCPU and guest memory, and the checkpoint that carries
//! all of it across a seek: taking one, and rebuilding from one.
use vstd::prelude::*;
use crate::aspace::{extent_ok, AddressSpace, Backing};
use crate::fdtable::{restored_host, FdSlot, FdTable};
use crate::layout::{pac_posture_from_memory, stack_geometry_from_memory, has_exe_header, exe_header_word, subtype_is_arm64e, MMAP_BASE, MH_MAGIC_64, GRANULE, has_dynamic_stack, has_static_stack, DYN_STACK_SIZE, DYN_STACK_TOP, STACK_TOP_IPA};
use crate::loader::{region_len, region_len_of};
use crate::pager::RefaultGuard;
use crate::sig::SigTable;
use crate::thread::{fresh_thread, ThreadCtx, ThreadTable};
use crate::trace::{Region, Regs};

verus! {

/// The vCPU state a checkpoint carries besides memory: the general registers, the SIMD/FP file,
/// `TPIDR_EL0`, and the EL1 return pair (live at a syscall trap).
#[derive(Debug, Clone, Copy, PartialEq, Eq)]
pub struct CpuState {
    pub regs: Regs,
    pub fp: [u128; 32],
    pub fpcr: u64,
    pub fpsr: u64,
    pub tpidr_el0: u64,
    pub elr: u64,
    pub spsr: u64,
}

/// Everything the recorder keeps besides the vCPU and the bytes of guest memory.
#[derive(Debug)]
pub struct BoxCore {
    pub space: AddressSpace,
    pub fds: FdTable,
    pub sigtable: SigTable,
    pub threads: ThreadTable,
    pub guard: RefaultGuard,
    pub bootstrap_port: Option<u32>,
    pub last_far: u64,
    pub synthetic_tsc: u64,
    pub pac_enabled: bool,
    pub stack_top: u64,
    pub stack_size: u64,
    pub cache_installed: bool,
}

/// A checkpoint at an arbitrary position: the vCPU state, every backing's bytes, and the
/// recorder's state. Guest-visible descriptor slots only; host descriptors are never carried.
#[derive(Debug)]
pub struct BoxState {
    pub regs: Regs,
    pub fp: [u128; 32],
    pub fpcr: u64,
    pub fpsr: u64,
    pub tpidr_el0: u64,
    pub elr: u64,
    pub spsr: u64,
    pub mem: Vec<Region>,
    pub reservations: Vec<(u64, u64)>,
    pub mmap_next: u64,
    pub bootstrap_port: Option<u32>,
    pub cache_installed: bool,
    pub last_far: u64,
    pub synthetic_tsc: u64,
    pub cache_refault_ipa: u64,
    pub cache_refault_count: u64,
    pub pac_enabled: bool,
    pub stack_top: u64,
    pub stack_size: u64,
    pub fd_slots: Vec<FdSlot>,
    pub sigtable: SigTable,
    pub threads: ThreadTable,
}

/// The bytes `mem` were read from the backings `bs`, one region per backing, in order.
pub open spec fn mem_of(mem: Seq<Region>, bs: Seq<Backing>) -> bool {
    &&& mem.len() == bs.len()
    &&& forall|i: int| 0 <= i < mem.len() ==> (#[trigger] mem[i]).ipa == bs[i].ipa && mem[i].bytes@.len() == bs[i].len
}

/// The backing a region of a checkpoint is mapped back into: whole granules, at least one.
pub open spec fn backing_for(r: Region) -> Backing {
    Backing { ipa: r.ipa, len: region_len_of(0, r.bytes@.len() as int) as usize }
}

/// State `s` carries `c`, `cpu` and the memory `mem`.
pub open spec fn carries(s: BoxState, c: BoxCore, cpu: CpuState) -> bool {
    &&& s.regs == cpu.regs && s.fp == cpu.fp && s.fpcr == cpu.fpcr && s.fpsr == cpu.fpsr
    &&& s.tpidr_el0 == cpu.tpidr_el0 && s.elr == cpu.elr && s.spsr == cpu.spsr
    &&& s.reservations@ == c.space.rs()
    &&& s.mmap_next == c.space.next()
    &&& s.bootstrap_port == c.bootstrap_port
    &&& s.cache_installed == c.cache_installed
    &&& s.last_far == c.last_far
    &&& s.synthetic_tsc == c.synthetic_tsc
    &&& s.cache_refault_ipa == c.guard.ipa
    &&& s.cache_refault_count == c.guard.count
    &&& s.pac_enabled == c.pac_enabled
    &&& s.stack_top == c.stack_top
    &&& s.stack_size == c.stack_size
    &&& s.fd_slots@ == c.fds.slot_seq()
    &&& s.sigtable@ == c.sigtable@
    &&& s.threads.ts() == c.threads.ts()
    &&& s.threads.cur() == c.threads.cur()
}

/// `c` is rebuilt from `s`: everything carried is taken back, the backings are the regions'
/// own, and descriptors keep their guest-visible slots (only the console keeps a host mapping).
pub open spec fn rebuilt_from(c: BoxCore, s: BoxState) -> bool {
    &&& c.space.wf()
    &&& c.space.bs() == s.mem@.map_values(|r: Region| backing_for(r))
    &&& c.space.rs() == s.reservations@
    &&& c.space.next() == s.mmap_next
    &&& c.bootstrap_port == s.bootstrap_port
    &&& c.cache_installed == s.cache_installed
    &&& c.last_far == s.last_far
    &&& c.synthetic_tsc == s.synthetic_tsc
    &&& c.guard == RefaultGuard { ipa: s.cache_refault_ipa, count: s.cache_refault_count }
    &&& c.pac_enabled == s.pac_enabled
    &&& c.stack_top == s.stack_top
    &&& c.stack_size == s.stack_size
    &&& c.fds.wf()
    &&& c.fds.slot_seq() == s.fd_slots@
    &&& c.fds.host_seq() == restored_host(s.fd_slots@)
    &&& c.sigtable@ == s.sigtable@
    &&& c.threads.ts() == s.threads.ts()
    &&& c.threads.cur() == s.threads.cur()
}

fn copy_pairs(v: &[(u64, u64)]) -> (r: Vec<(u64, u64)>)
    ensures
        r@ == v@,
{
    let mut r: Vec<(u64, u64)> = Vec::new();
    let mut i: usize = 0;
    while i < v.len()
        invariant
            i <= v@.len(),
            r@ == v@.take(i as int),
        decreases v@.len() - i,
    {
        r.push(v[i]);
        assert(r@ =~= v@.take(i + 1));
        i += 1;
    }
    assert(v@.take(v@.len() as int) =~= v@);
    r
}

impl BoxCore {
    /// Take a checkpoint: `cpu` as read from the vCPU, and `mem`, each backing's bytes in order.
    pub fn checkpoint(&self, cpu: &CpuState, mem: Vec<Region>) -> (s: BoxState)
        requires
            mem_of(mem@, self.space.bs()),
        ensures
            carries(s, *self, *cpu),
            s.mem@ == mem@,
    {
        BoxState {
            regs: cpu.regs,
            fp: cpu.fp,
            fpcr: cpu.fpcr,
            fpsr: cpu.fpsr,
            tpidr_el0: cpu.tpidr_el0,
            elr: cpu.elr,
            spsr: cpu.spsr,
            mem,
            reservations: copy_pairs(self.space.reservations()),
            mmap_next: self.space.mmap_next(),
            bootstrap_port: self.bootstrap_port,
            cache_installed: self.cache_installed,
            last_far: self.last_far,
            synthetic_tsc: self.synthetic_tsc,
            cache_refault_ipa: self.guard.ipa,
            cache_refault_count: self.guard.count,
            pac_enabled: self.pac_enabled,
            stack_top: self.stack_top,
            stack_size: self.stack_size,
            fd_slots: self.fds.slots(),
            sigtable: self.sigtable.copied(),
            threads: self.threads.copied(),
        }
    }

    /// Rebuild the recorder's state from a checkpoint taken at any position; the caller maps
    /// `s.mem` and restores the vCPU. `None` when a region or reservation ends past the extent
    /// limit (no checkpoint of a live guest does).
    pub fn from_checkpoint(s: &BoxState) -> (r: Option<BoxCore>)
        requires
            forall|i: int| 0 <= i < s.mem@.len() ==> (#[trigger] s.mem@[i]).bytes@.len() + GRANULE <= usize::MAX,
        ensures
            r is Some <==> (forall|i: int| 0 <= i < s.mem@.len() ==> extent_ok(
                backing_for(#[trigger] s.mem@[i]).ipa,
                backing_for(s.mem@[i]).len as int,
            )) && (forall|j: int| 0 <= j < s.reservations@.len() ==> extent_ok(
                s.reservations@[j].0,
                s.reservations@[j].1 as int,
            )),
            r matches Some(c) ==> rebuilt_from(c, *s),
    {
        let mut bs: Vec<Backing> = Vec::new();
        let mut i: usize = 0;
        while i < s.mem.len()
            invariant
                i <= s.mem@.len(),
                forall|k: int| 0 <= k < s.mem@.len() ==> (#[trigger] s.mem@[k]).bytes@.len() + GRANULE <= usize::MAX,
                bs@ == s.mem@.take(i as int).map_values(|r: Region| backing_for(r)),
            decreases s.mem@.len() - i,
        {
            let r = &s.mem[i];
            let len = region_len(0, r.bytes.len());
            bs.push(Backing { ipa: r.ipa, len });
            assert(bs@ =~= s.mem@.take(i + 1).map_values(|r: Region| backing_for(r)));
            i += 1;
        }
        assert(s.mem@.take(s.mem@.len() as int) =~= s.mem@);
        let ghost want = s.mem@.map_values(|r: Region| backing_for(r));
        assert(bs@ == want);
        assert forall|i: int| 0 <= i < s.mem@.len() implies #[trigger] want[i] == backing_for(s.mem@[i]) by {}
        assert((forall|i: int| 0 <= i < want.len() ==> extent_ok(want[i].ipa, want[i].len as int)) <==> (forall|i: int|
            0 <= i < s.mem@.len() ==> extent_ok(backing_for(#[trigger] s.mem@[i]).ipa, backing_for(s.mem@[i]).len as int)))
            by {
            if forall|i: int| 0 <= i < want.len() ==> extent_ok(want[i].ipa, want[i].len as int) {
                assert forall|i: int| 0 <= i < s.mem@.len() implies extent_ok(
                    backing_for(#[trigger] s.mem@[i]).ipa,
                    backing_for(s.mem@[i]).len as int,
                ) by {
                    assert(want[i] == backing_for(s.mem@[i]));
                }
            }
            if forall|i: int| 0 <= i < s.mem@.len() ==> extent_ok(backing_for(#[trigger] s.mem@[i]).ipa, backing_for(s.mem@[i]).len as int) {
                assert forall|i: int| 0 <= i < want.len() implies extent_ok(want[i].ipa, want[i].len as int) by {
                    assert(want[i] == backing_for(s.mem@[i]));
                }
            }
        }
        let space = match AddressSpace::from_parts(bs, copy_pairs(s.reservations.as_slice()), s.mmap_next) {
            Some(a) => a,
            None => {
                return None;
            },
        };
        Some(BoxCore {
            space,
            fds: FdTable::from_slots(s.fd_slots.as_slice()),
            sigtable: s.sigtable.copied(),
            threads: s.threads.copied(),
            guard: RefaultGuard { ipa: s.cache_refault_ipa, count: s.cache_refault_count },
            bootstrap_port: s.bootstrap_port,
            last_far: s.last_far,
            synthetic_tsc: s.synthetic_tsc,
            pac_enabled: s.pac_enabled,
            stack_top: s.stack_top,
            stack_size: s.stack_size,
            cache_installed: s.cache_installed,
        })
    }
}

/// Rebuilding from a checkpoint gives back what was carried: the reservations, the cursor, every
/// descriptor slot, every signal action, every thread (its context, state, blocked mask, pending set
/// and alternate stack) and which one is current, the pager's guard, the posture and the stack geometry are
/// the checkpointed state's own, and the backings are the ones the memory was read from when they
/// were whole granules. Only host descriptors are not carried: the console alone keeps its mapping.
pub proof fn lemma_checkpoint_round_trip(c: BoxCore, cpu: CpuState, s: BoxState, c2: BoxCore)
    requires
        carries(s, c, cpu),
        mem_of(s.mem@, c.space.bs()),
        forall|i: int| 0 <= i < c.space.bs().len() ==> (#[trigger] c.space.bs()[i]).len % GRANULE == 0 && c.space.bs()[i].len
            >= GRANULE,
        rebuilt_from(c2, s),
    ensures
        c2.space.bs() == c.space.bs(),
        c2.space.rs() == c.space.rs(),
        c2.space.next() == c.space.next(),
        c2.fds.slot_seq() == c.fds.slot_seq(),
        c2.fds.host_seq() == restored_host(c.fds.slot_seq()),
        c2.sigtable@ == c.sigtable@,
        c2.threads.ts() == c.threads.ts(),
        c2.threads.cur() == c.threads.cur(),
        c2.guard == c.guard,
        c2.bootstrap_port == c.bootstrap_port,
        c2.cache_installed == c.cache_installed,
        c2.last_far == c.last_far,
        c2.synthetic_tsc == c.synthetic_tsc,
        c2.pac_enabled == c.pac_enabled,
        c2.stack_top == c.stack_top,
        c2.stack_size == c.stack_size,
{
    assert forall|i: int| 0 <= i < c.space.bs().len() implies c2.space.bs()[i] == c.space.bs()[i] by {
        let b = c.space.bs()[i];
        let r = s.mem@[i];
        assert(r.ipa == b.ipa && r.bytes@.len() == b.len);
        let n = b.len as int;
        assert(region_len_of(0, n) == n) by {
            vstd::arithmetic::div_mod::lemma_fundamental_div_mod(n, 0x4000);
            assert(((n + 0x4000 - 1) / 0x4000) == n / 0x4000) by (nonlinear_arith)
                requires
                    n % 0x4000 == 0,
                    n >= 0x4000,
                    n == 0x4000 * (n / 0x4000) + n % 0x4000;
        }
    }
    assert(c2.space.bs() =~= c.space.bs());
}

/// The state a landmark-0 snapshot restores: nothing reserved, the cursor at `MMAP_BASE`, a fresh
/// descriptor table and default signal actions, a single fresh main thread with nothing blocked,
/// pending or on an alternate stack, the pager's guard clear, and the posture and
/// stack geometry read back from the snapshot's own memory (the main header and the stack region).
pub fn restored_core(regions: &[Region]) -> (r: Option<BoxCore>)
    requires
        has_exe_header(regions@),
        exe_header_word(regions@, 0) == MH_MAGIC_64,
        has_dynamic_stack(regions@) != has_static_stack(regions@),
        forall|i: int| 0 <= i < regions@.len() ==> (#[trigger] regions@[i]).bytes@.len() + GRANULE <= usize::MAX,
    ensures
        r is Some <==> forall|i: int| 0 <= i < regions@.len() ==> extent_ok(
            backing_for(#[trigger] regions@[i]).ipa,
            backing_for(regions@[i]).len as int,
        ),
        r matches Some(c) ==> {
            &&& c.space.wf()
            &&& c.space.bs() == regions@.map_values(|r: Region| backing_for(r))
            &&& c.space.rs() == Seq::<(u64, u64)>::empty()
            &&& c.space.next() == MMAP_BASE
            &&& c.fds.wf()
            &&& c.fds.slot_seq() == seq![FdSlot::Console(0), FdSlot::Console(1), FdSlot::Console(2)]
            &&& c.sigtable@.len() == 32
            &&& forall|i: int| 0 <= i < 32 ==> c.sigtable@[i] == crate::sig::default_sigaction()
            &&& c.threads.wf()
            &&& c.threads.ts().len() == 1
            &&& c.threads.cur() == 0
            &&& c.threads.ts()[0] == fresh_thread(c.threads.ts()[0].ctx, (0, 0), 0)
            &&& c.guard == RefaultGuard { ipa: 0, count: 0 }
            &&& c.bootstrap_port is None
            &&& !c.cache_installed
            &&& c.last_far == 0
            &&& c.synthetic_tsc == crate::trap::SYNTH_TSC_START
            &&& c.pac_enabled == subtype_is_arm64e(exe_header_word(regions@, 8))
            &&& has_dynamic_stack(regions@) ==> (c.stack_top, c.stack_size) == (DYN_STACK_TOP, DYN_STACK_SIZE)
            &&& !has_dynamic_stack(regions@) ==> (c.stack_top, c.stack_size) == (STACK_TOP_IPA, GRANULE as u64)
        },
{
    let mut bs: Vec<Backing> = Vec::new();
    let mut i: usize = 0;
    while i < regions.len()
        invariant
            i <= regions@.len(),
            forall|k: int| 0 <= k < regions@.len() ==> (#[trigger] regions@[k]).bytes@.len() + GRANULE <= usize::MAX,
            bs@ == regions@.take(i as int).map_values(|r: Region| backing_for(r)),
        decreases regions@.len() - i,
    {
        let r = &regions[i];
        let len = region_len(0, r.bytes.len());
        bs.push(Backing { ipa: r.ipa, len });
        assert(bs@ =~= regions@.take(i + 1).map_values(|r: Region| backing_for(r)));
        i += 1;
    }
    assert(regions@.take(regions@.len() as int) =~= regions@);
    let ghost want = regions@.map_values(|r: Region| backing_for(r));
    assert((forall|i: int| 0 <= i < want.len() ==> extent_ok(want[i].ipa, want[i].len as int)) <==> (forall|i: int|
        0 <= i < regions@.len() ==> extent_ok(backing_for(#[trigger] regions@[i]).ipa, backing_for(regions@[i]).len as int)))
        by {
        if forall|i: int| 0 <= i < want.len() ==> extent_ok(want[i].ipa, want[i].len as int) {
            assert forall|i: int| 0 <= i < regions@.len() implies extent_ok(
                backing_for(#[trigger] regions@[i]).ipa,
                backing_for(regions@[i]).len as int,
            ) by {
                assert(want[i] == backing_for(regions@[i]));
            }
        }
        if forall|i: int| 0 <= i < regions@.len() ==> extent_ok(backing_for(#[trigger] regions@[i]).ipa, backing_for(regions@[i]).len as int) {
            assert forall|i: int| 0 <= i < want.len() implies extent_ok(want[i].ipa, want[i].len as int) by {
                assert(want[i] == backing_for(regions@[i]));
            }
        }
    }
    let space = match AddressSpace::from_parts(bs, Vec::new(), MMAP_BASE) {
        Some(a) => a,
        None => {
            return None;
        },
    };
    let pac = pac_posture_from_memory(regions);
    let (stack_top, stack_size) = stack_geometry_from_memory(regions);
    Some(BoxCore {
        space,
        fds: FdTable::new(),
        sigtable: SigTable::default(),
        threads: ThreadTable::new(ThreadCtx::zeroed()),
        guard: RefaultGuard::new(),
        bootstrap_port: None,
        last_far: 0,
        synthetic_tsc: crate::trap::SYNTH_TSC_START,
        pac_enabled: pac,
        stack_top,
        stack_size,
        cache_installed: false,
    })
}

} // verus!
