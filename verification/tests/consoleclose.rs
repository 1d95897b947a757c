//! The table-aware console predicates after `dup`/`dup2`: an alias of stdout is a console write
//! but closes the generic way; a displaced or closed console slot is neither; only an identity
//! slot still mapped onto the host's own descriptor has its close faked.
use retrace_box::arch::{SYS_CLOSE, SYS_CLOSE_NOCANCEL, SYS_WRITE, SYS_WRITE_NOCANCEL};
use retrace_box::fdtable::{EBADF, FdSlot, FdTable};

#[test]
fn an_alias_of_stdout_is_a_console_write_but_closes_the_generic_way() {
    let mut t = FdTable::new();
    for num in [SYS_CLOSE, SYS_CLOSE_NOCANCEL] {
        assert!(t.is_console_close(num, 1), "close(1) on the identity slot is faked");
        assert!(t.is_console_close(num, 0), "close(0) on the identity slot is faked");
        assert!(!t.is_console_close(num, 3), "an ordinary fd is not the console");
    }
    assert_eq!(t.dup2(1, 17, Some(41)).unwrap(), (17, None));
    assert_eq!(t.slots()[17], FdSlot::Console(1));
    for num in [SYS_WRITE, SYS_WRITE_NOCANCEL] {
        assert!(t.is_console_write(num, 17), "a write to the alias is mirrored");
        assert!(t.is_console_write(num, 1), "and to stdout itself, still");
    }
    for num in [SYS_CLOSE, SYS_CLOSE_NOCANCEL] {
        assert!(!t.is_console_close(num, 17), "close(17) must not be faked: its host mapping is the dup");
        assert!(t.is_console_close(num, 1), "close(1) is still the identity slot");
    }
    assert!(t.close(17));
    assert_eq!(t.slots()[17], FdSlot::Closed);
    assert!(!t.is_console_write(SYS_WRITE, 17), "a closed alias is not a console write");
}

#[test]
fn a_displaced_console_slot_is_neither_a_console_write_nor_a_console_close() {
    let mut t = FdTable::new();
    let f = t.allocate();
    t.bind(f, 30);
    assert_eq!(t.dup2(f, 1, Some(32)).unwrap(), (1, Some(1)));
    assert_eq!(t.slots()[1], FdSlot::Open);
    assert!(!t.is_console_write(SYS_WRITE, 1), "a write to 1 now goes to the file");
    assert!(!t.is_console_close(SYS_CLOSE, 1), "close(1) now closes the dup through the generic path");
    assert!(t.is_console_close(SYS_CLOSE, 2), "stderr's identity slot is untouched");
    assert!(t.is_console_write(SYS_WRITE, 2));
}

#[test]
fn a_closed_identity_slot_is_no_longer_the_console_on_either_predicate() {
    let mut t = FdTable::new();
    assert!(t.is_console_close(SYS_CLOSE, 1));
    assert!(t.close(1));
    assert_eq!(t.slots()[1], FdSlot::Closed);
    assert!(!t.is_console_write(SYS_WRITE, 1));
    assert!(!t.is_console_close(SYS_CLOSE, 1));
    assert_eq!(t.host(1), None, "the host mapping is dropped");
    assert_eq!(t.dup2(1, 17, Some(41)), Err(EBADF), "dup2 from a closed console slot is EBADF");
}

#[test]
fn a_re_aliased_identity_slot_closes_the_generic_way() {
    let mut t = FdTable::new();
    let saved = t.dup(1).unwrap();
    t.bind(saved, 41);
    let f = t.allocate();
    t.bind(f, 30);
    assert_eq!(t.dup2(f, 1, Some(32)).unwrap(), (1, Some(1)), "redirect: the identity mapping is displaced");
    assert!(!t.is_console_close(SYS_CLOSE, 1), "a displaced slot is not the console");
    assert_eq!(t.dup2(saved, 1, Some(43)).unwrap(), (1, Some(32)), "restore: stdout's kind is back");
    assert_eq!(t.slots()[1], FdSlot::Console(1));
    assert_eq!(t.host(1), Some(43), "but its host mapping is the dup, not the host's own fd 1");
    assert!(t.is_console_write(SYS_WRITE, 1), "a write to 1 is mirrored again");
    for num in [SYS_CLOSE, SYS_CLOSE_NOCANCEL] {
        assert!(!t.is_console_close(num, 1), "close(1) on the re-aliased slot must not be faked");
    }
    assert!(t.is_console_close(SYS_CLOSE, 2), "stderr's identity slot is untouched");
    assert!(t.is_console_close(SYS_CLOSE, 0), "and stdin's");
}

#[test]
fn dup_takes_the_lowest_free_slot_and_the_source_kind() {
    let mut t = FdTable::new();
    assert_eq!(t.dup(2), Ok(3));
    assert_eq!(t.slots()[3], FdSlot::Console(2));
    assert_eq!(t.host(3), None, "no host descriptor until one is bound");
    let f = t.allocate();
    assert_eq!(f, 4);
    assert_eq!(t.dup(f), Ok(5));
    assert_eq!(t.slots()[5], FdSlot::Open);
    assert!(t.close(3));
    assert_eq!(t.dup(1), Ok(3), "a closed slot is reused");
    assert_eq!(t.dup(9), Err(EBADF), "a source that is not open is EBADF");
    assert_eq!(t.slots().len(), 6, "and nothing changes");
}
