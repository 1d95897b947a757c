//! Checkpoints: what they carry and what rebuilding from one gives back.
use retrace_box::aspace::{AddressSpace, Backing};
use retrace_box::arch::{SA_SIGINFO, SIG_SETMASK};
use retrace_box::fdtable::{FdSlot, FdTable};
use retrace_box::pager::RefaultGuard;
use retrace_box::sig::{Disposition, SigAction, SigTable};
use retrace_box::state::{BoxCore, CpuState};
use retrace_box::thread::{ThreadCtx, ThreadTable};
use retrace_box::trace::{Region, Regs};

fn cpu() -> CpuState {
    let mut regs = Regs::zeroed();
    regs.x[3] = 0x33;
    regs.pc = 0x1_0000_0460;
    CpuState { regs, fp: [7u128; 32], fpcr: 1, fpsr: 2, tpidr_el0: 0x5000, elr: 0x1_0000_0464, spsr: 0x2000_0000 }
}

fn sample_core() -> BoxCore {
    let mut space = AddressSpace::new();
    space.guest_vm_reserve(0, 0x8000, true);
    space.guest_mmap(0, 0x4000, 3, 0x1002).unwrap();
    let mut fds = FdTable::new();
    let g = fds.allocate();
    fds.bind(g, 44);
    let mut sigtable = SigTable::default();
    sigtable.set_action(2, SigAction { disp: Disposition::Ign, tramp: 0, mask: 0, flags: SA_SIGINFO });
    BoxCore {
        space,
        fds,
        sigtable,
        threads: ThreadTable::new(ThreadCtx::zeroed()),
        guard: RefaultGuard { ipa: 0x1_8000_4000, count: 3 },
        bootstrap_port: Some(0x1103),
        last_far: 0xdead,
        synthetic_tsc: 0x1_0000_2400,
        pac_enabled: true,
        stack_top: 0x280_0000,
        stack_size: 0x4_0000,
        cache_installed: true,
    }
}

fn mem_of(c: &BoxCore) -> Vec<Region> {
    c.space.backings().iter().map(|b| Region { ipa: b.ipa, bytes: vec![0xab; b.len] }).collect()
}

#[test]
fn checkpoint_round_trip_is_lossless_mid_run() {
    let c = sample_core();
    let s = c.checkpoint(&cpu(), mem_of(&c));
    assert_eq!(s.regs.pc, 0x1_0000_0460);
    assert_eq!((s.elr, s.spsr, s.tpidr_el0), (0x1_0000_0464, 0x2000_0000, 0x5000));
    let c2 = BoxCore::from_checkpoint(&s).unwrap();
    assert_eq!(c2.space.backings(), c.space.backings());
    assert_eq!(c2.space.reservations(), c.space.reservations());
    assert_eq!(c2.space.mmap_next(), c.space.mmap_next());
    assert_eq!(c2.fds.slots(), c.fds.slots());
    assert_eq!(c2.fds.host(3), None, "host descriptors are never carried");
    assert_eq!(c2.fds.host(1), Some(1), "the console keeps its mapping");
    assert_eq!(c2.sigtable.action(2).disp, Disposition::Ign);
    assert_eq!(c2.guard, c.guard);
    assert_eq!((c2.bootstrap_port, c2.last_far, c2.synthetic_tsc), (Some(0x1103), 0xdead, 0x1_0000_2400));
    assert!(c2.pac_enabled && c2.cache_installed);
    assert_eq!((c2.stack_top, c2.stack_size), (0x280_0000, 0x4_0000));
    let s2 = c2.checkpoint(&cpu(), mem_of(&c2));
    assert_eq!(s2.fd_slots, s.fd_slots);
    assert_eq!(s2.reservations, s.reservations);
}

#[test]
fn a_short_region_is_mapped_back_as_a_whole_granule() {
    let c = BoxCore { space: AddressSpace::new(), ..sample_core() };
    let mut s = c.checkpoint(&cpu(), vec![]);
    s.mem.push(Region { ipa: 0x4000, bytes: vec![1, 2, 3] });
    let c2 = BoxCore::from_checkpoint(&s).unwrap();
    assert_eq!(c2.space.backings(), &[Backing { ipa: 0x4000, len: 0x4000 }]);
    assert_eq!(c2.fds.slots()[3], FdSlot::Open);
}

#[test]
fn from_checkpoint_carries_the_signal_table_and_per_thread_signal_state() {
    let mut b = sample_core();
    let a = SigAction { disp: Disposition::Ign, tramp: 0, mask: 0xf, flags: 0x2 };
    b.sigtable.set_action(6, a);
    b.threads.set_mask_of(0, SIG_SETMASK, 0b1010);
    b.threads.set_altstack_of(0, Some((0x9000, 0x4000, 0)));
    b.threads.pend(0, 17);
    let st = b.checkpoint(&cpu(), mem_of(&b));
    drop(b);
    let r = BoxCore::from_checkpoint(&st).unwrap();
    assert_eq!(r.sigtable.action(6), a, "a seek must not resurrect a default disposition");
    assert_eq!(r.threads.mask_of(0), 0b1010, "the blocked mask must survive the restore");
    assert_eq!(r.threads.altstack_of(0), Some((0x9000, 0x4000, 0)));
    assert_eq!(r.threads.pending_of(0), 1 << 16, "a pending signal must survive the restore too");
    assert!(r.pac_enabled);
    assert_eq!(r.fds.slots(), st.fd_slots);
}

#[test]
fn every_thread_and_the_current_one_survive_a_checkpoint() {
    let mut b = sample_core();
    let t1 = b.threads.spawn(ThreadCtx::zeroed(), (0x7000, 0x1000));
    b.threads.switch_to(t1);
    let s = b.checkpoint(&cpu(), mem_of(&b));
    let r = BoxCore::from_checkpoint(&s).unwrap();
    assert_eq!(r.threads.len(), 2);
    assert_eq!(r.threads.current(), t1);
}
