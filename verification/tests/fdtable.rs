//! The guest descriptor table: allocation, close, dup aliasing, console seeding.
use retrace_box::fdtable::{DUP2_MAX_FD, EBADF, FdSlot, FdTable};

#[test]
fn console_fds_are_preseeded_open() {
    let t = FdTable::new();
    for gfd in 0..=2 {
        assert!(t.is_open(gfd), "fd {gfd} is the console and starts open");
    }
    assert!(!t.is_open(3), "fd 3 starts free");
}

#[test]
fn alloc_returns_lowest_free_starting_at_three() {
    let mut t = FdTable::new();
    assert_eq!(t.allocate(), 3);
    assert_eq!(t.allocate(), 4);
    assert_eq!(t.allocate(), 5);
}

#[test]
fn close_frees_the_slot_for_reuse_and_reports_bad_closes() {
    let mut t = FdTable::new();
    let a = t.allocate();
    let b = t.allocate();
    assert!(t.close(a));
    assert!(!t.is_open(a));
    assert!(!t.close(a), "closing an already-closed fd reports failure (the caller answers EBADF)");
    assert!(!t.close(99), "closing a never-opened fd reports failure");
    assert_eq!(t.allocate(), a, "the freed slot is the lowest free and is reused");
    assert!(t.is_open(b), "closing one fd must not disturb another");
}

#[test]
fn bind_and_host_map_the_guest_fd_to_a_host_fd() {
    let mut t = FdTable::new();
    let g = t.allocate();
    t.bind(g, 17);
    assert_eq!(t.host(g), Some(17));
    assert_eq!(t.host(99), None, "an unallocated guest fd has no host mapping");
    t.close(g);
    assert_eq!(t.host(g), None, "closing clears the host mapping");
}

#[test]
fn dup_aliases_two_guest_fds_onto_one_host_fd() {
    let mut t = FdTable::new();
    let g = t.allocate();
    t.bind(g, 17);
    let d = t.allocate();
    t.bind(d, 17);
    assert_ne!(g, d);
    assert_eq!(t.host(g), t.host(d));
    t.close(d);
    assert_eq!(t.host(g), Some(17));
}

#[test]
fn console_fds_map_identically_onto_retraces_own() {
    let t = FdTable::new();
    for gfd in 0..=2 {
        assert_eq!(t.host(gfd), Some(gfd as i32),
            "console fd {gfd} must map identically onto retrace's own descriptor");
    }
}

#[test]
fn a_closed_console_fd_loses_its_identity_mapping() {
    let mut t = FdTable::new();
    assert!(t.close(1));
    assert_eq!(t.host(1), None);
    assert!(!t.is_open(1));
}

#[test]
fn slots_round_trip_through_from_slots() {
    let mut t = FdTable::new();
    let a = t.allocate();
    let b = t.allocate();
    t.close(a);
    let restored = FdTable::from_slots(&t.slots());
    assert!(!restored.is_open(a), "a closed fd stays closed across a round trip");
    assert!(restored.is_open(b));
    for gfd in 0..=2 {
        assert!(restored.is_open(gfd));
    }
    assert_eq!(restored.slots(), t.slots());
    assert_eq!(restored.slots()[a as usize], FdSlot::Closed,
        "Closed must stay distinguishable from Free across the round trip");
}

#[test]
fn fd_table_survives_checkpoint_restore() {
    let mut t = FdTable::new();
    let a = t.allocate();
    let b = t.allocate();
    t.bind(a, 17);
    t.close(b);

    let restored = FdTable::from_slots(&t.slots());
    assert!(restored.is_open(a), "an open fd must survive the restore");
    assert!(!restored.is_open(b), "a CLOSED fd must stay closed — else a seek resurrects it");
    assert_eq!(restored.slots()[b as usize], FdSlot::Closed,
        "Closed must stay distinguishable from Free across the restore");
    for gfd in 0..=2 {
        assert!(restored.is_open(gfd), "console fd {gfd} must survive the restore open");
        assert_eq!(restored.host(gfd), Some(gfd as i32),
            "the console identity mapping is a CONSTANT and must be rederived on restore — \
             without it a seeked session answers EBADF to fstat(1)");
    }
    assert_eq!(restored.host(a), None, "a guest fd's host mapping is record-only");
}

#[test]
fn from_slots_carries_no_host_mapping() {
    let mut t = FdTable::new();
    let g = t.allocate();
    t.bind(g, 17);
    let restored = FdTable::from_slots(&t.slots());
    assert!(restored.is_open(g), "guest-visible state survives");
    assert_eq!(restored.host(g), None, "host mapping does NOT survive");
}

#[test]
fn dup2_propagates_the_console_kind_to_the_target_slot() {
    let mut t = FdTable::new();
    let (ret, displaced) = t.dup2(1, 17, Some(41)).expect("dup2(1, 17) succeeds");
    assert_eq!(ret, 17);
    assert_eq!(displaced, None, "17 was free: nothing displaced");
    assert_eq!(t.slots()[17], FdSlot::Console(1), "17 is an alias of stdout");
    assert_eq!(t.console_of(17), Some(1));
    assert_eq!(t.host(17), Some(41));
    assert!(t.is_open(17));
    assert_eq!(t.allocate(), 3, "alloc still takes the lowest free slot; 17 is open, not in the way");
}

#[test]
fn dup2_onto_an_open_slot_displaces_it_and_hands_back_its_host_fd() {
    let mut t = FdTable::new();
    let a = t.allocate(); t.bind(a, 30);
    let (ret, displaced) = t.dup2(0, a, Some(31)).unwrap();
    assert_eq!(ret, a);
    assert_eq!(displaced, Some(30), "the caller closes the displaced host fd");
    assert_eq!(t.slots()[a as usize], FdSlot::Console(0));
    assert_eq!(t.host(a), Some(31));
}

#[test]
fn dup2_onto_a_console_slot_makes_it_a_plain_open_descriptor() {
    let mut t = FdTable::new();
    let f = t.allocate(); t.bind(f, 30);
    let (ret, displaced) = t.dup2(f, 1, Some(32)).unwrap();
    assert_eq!(ret, 1);
    assert_eq!(displaced, Some(1), "the identity mapping is handed back; the CALLER must not close it (<= 2)");
    assert_eq!(t.slots()[1], FdSlot::Open, "stdout's slot is now a plain descriptor of f's file");
    assert_eq!(t.console_of(1), None, "a write to 1 is no longer a console write");
    assert_eq!(t.host(1), Some(32));
}

#[test]
fn dup2_self_is_a_no_op_and_a_closed_source_is_ebadf() {
    let mut t = FdTable::new();
    let f = t.allocate(); t.bind(f, 30);
    assert_eq!(t.dup2(f, f, None).unwrap(), (f, None), "dup2(fd, fd) returns fd and changes nothing");
    assert_eq!(t.host(f), Some(30));
    assert!(t.close(f));
    assert_eq!(t.dup2(f, 9, Some(33)), Err(EBADF));
    assert!(!t.is_open(9), "a failed dup2 opens nothing");
    let mut r = FdTable::from_slots(&t.slots());
    assert_eq!(r.dup2(2, 18, None).unwrap(), (18, None));
    assert_eq!(r.slots()[18], FdSlot::Console(2));
    assert_eq!(r.host(18), None, "replay carries no host mapping for an alias");
}

#[test]
fn dup2_rejects_a_negative_or_out_of_range_target_with_ebadf() {
    let mut t = FdTable::new();
    assert_eq!(t.dup2(0, 0xffff_ffff, Some(41)), Err(EBADF), "dup2(0, -1) is EBADF");
    assert_eq!(t.dup2(0, DUP2_MAX_FD, Some(41)), Err(EBADF),
        "the bound is exclusive: dup2(0, OPEN_MAX) is EBADF");
    assert_eq!(t.dup2(0, u64::MAX, Some(41)), Err(EBADF), "no overflow in grow_to");
    assert!(t.slots().len() <= 3, "a rejected target grows nothing");
    assert_eq!(t.dup2(0, DUP2_MAX_FD - 1, Some(41)).unwrap(), (DUP2_MAX_FD - 1, None),
        "one below the bound is a legal target");
    assert_eq!(t.slots()[(DUP2_MAX_FD - 1) as usize], FdSlot::Console(0));
}
