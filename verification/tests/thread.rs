//! The thread table: per-thread masks, pending sets and alternate stacks.
use retrace_box::thread::{ThreadCtx, ThreadTable};
use retrace_box::arch::{SIG_BLOCK, SIG_SETMASK, SIG_UNBLOCK};

#[test]
fn a_spawned_thread_inherits_the_creators_mask_by_value() {
    let mut t = ThreadTable::new(ThreadCtx::zeroed());
    t.set_mask_of(0, SIG_BLOCK, 1 << 29);
    let child = t.spawn(ThreadCtx::zeroed(), (0, 0));
    assert_eq!(t.mask_of(child), 1 << 29, "POSIX inherits the mask at creation");
    t.set_mask_of(0, SIG_SETMASK, 0);
    assert_eq!(t.mask_of(child), 1 << 29, "inheritance is a copy, not a reference");
    assert_eq!(t.mask_of(0), 0);
}

#[test]
fn set_mask_of_honours_block_unblock_setmask_and_returns_the_old_mask() {
    let mut t = ThreadTable::new(ThreadCtx::zeroed());
    assert_eq!(t.set_mask_of(0, SIG_BLOCK, 0b0110), 0, "returns the OLD mask");
    assert_eq!(t.mask_of(0), 0b0110);
    assert_eq!(t.set_mask_of(0, SIG_BLOCK, 0b1000), 0b0110);
    assert_eq!(t.mask_of(0), 0b1110, "BLOCK is a union");
    assert_eq!(t.set_mask_of(0, SIG_UNBLOCK, 0b0100), 0b1110);
    assert_eq!(t.mask_of(0), 0b1010, "UNBLOCK clears");
    assert_eq!(t.set_mask_of(0, SIG_SETMASK, 0b0001), 0b1010);
    assert_eq!(t.mask_of(0), 0b0001, "SETMASK replaces");
}

#[test]
fn masks_are_independent_between_threads() {
    let mut t = ThreadTable::new(ThreadCtx::zeroed());
    let child = t.spawn(ThreadCtx::zeroed(), (0, 0));
    t.set_mask_of(0, SIG_BLOCK, 1 << 29);
    assert!(t.is_blocked_for(0, 30));
    assert!(!t.is_blocked_for(child, 30),
        "this is the whole per-thread claim: main blocking a signal must not block it for the child");
}

#[test]
fn is_blocked_for_indexes_by_sig_minus_one() {
    let mut t = ThreadTable::new(ThreadCtx::zeroed());
    t.set_mask_of(0, SIG_SETMASK, 1 << 5);
    assert!(t.is_blocked_for(0, 6), "bit (sig-1) is the encoding");
    assert!(!t.is_blocked_for(0, 5));
    assert!(!t.is_blocked_for(0, 7));
}

#[test]
fn a_pended_signal_is_taken_only_once_and_lowest_first() {
    let mut t = ThreadTable::new(ThreadCtx::zeroed());
    t.set_mask_of(0, SIG_BLOCK, (1 << 29) | (1 << 30));
    t.pend(0, 31);
    t.pend(0, 30);
    assert_eq!(t.take_deliverable(0), None, "both are still masked");
    t.set_mask_of(0, SIG_UNBLOCK, 1 << 29);
    assert_eq!(t.take_deliverable(0), Some(30), "lowest deliverable first");
    assert_eq!(t.take_deliverable(0), None, "taking clears the bit; 31 is still masked");
    t.set_mask_of(0, SIG_UNBLOCK, 1 << 30);
    assert_eq!(t.take_deliverable(0), Some(31));
    assert_eq!(t.take_deliverable(0), None);
}

#[test]
fn alternate_stacks_are_per_thread() {
    let mut t = ThreadTable::new(ThreadCtx::zeroed());
    let child = t.spawn(ThreadCtx::zeroed(), (0, 0));
    t.set_altstack_of(0, Some((0x9000, 0x1000, 0)));
    assert_eq!(t.altstack_of(0), Some((0x9000, 0x1000, 0)));
    assert_eq!(t.altstack_of(child), None,
        "sigaltstack is per-thread, and is NOT inherited across pthread_create");
}

#[test]
fn set_altstack_of_returns_the_previous_value() {
    let mut t = ThreadTable::new(ThreadCtx::zeroed());
    assert_eq!(t.set_altstack_of(0, Some((0x9000, 0x4000, 0))), None);
    assert_eq!(t.altstack_of(0), Some((0x9000, 0x4000, 0)));
    assert_eq!(t.set_altstack_of(0, None), Some((0x9000, 0x4000, 0)));
}
