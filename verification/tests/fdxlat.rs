//! Descriptor translation and EBADF, stated against a bare table.
use retrace_box::fdtable::{EBADF, FdTable, translate_fds};
use retrace_box::arch::{
    AT_FDCWD, MWL_MAX_REGION_COUNT, MWL_REGION_STRIDE, SYS_CLOSE, SYS_FCNTL_NOCANCEL,
    SYS_MAP_WITH_LINKING_NP, SYS_MMAP, SYS_OPENAT, SYS_PREAD, SYS_READ_NOCANCEL, allocates_fd,
    fd_operands,
};

fn translate(fds: &FdTable, num: u64, args: &mut [u64; 8]) -> Result<(), u64> {
    translate_fds(fds, num, args)
}

#[test]
fn translate_rewrites_the_guest_fd_to_its_host_fd() {
    let mut t = FdTable::new();
    let g = t.allocate();
    t.bind(g, 17);
    let mut args = [0u64; 8];
    args[0] = g;
    assert!(translate(&t, SYS_PREAD, &mut args).is_ok());
    assert_eq!(args[0], 17, "the host kernel must see the HOST fd, never the guest's");
}

#[test]
fn translate_rejects_a_closed_or_never_opened_fd_with_ebadf() {
    let mut t = FdTable::new();
    let g = t.allocate();
    t.bind(g, 17);
    t.close(g);
    let mut args = [0u64; 8];
    args[0] = g;
    assert_eq!(translate(&t, SYS_CLOSE, &mut args), Err(EBADF), "a closed fd is EBADF");
    args[0] = 42;
    assert_eq!(translate(&t, SYS_CLOSE, &mut args), Err(EBADF), "a never-opened fd is EBADF");
}

#[test]
fn translate_uses_x4_for_mmap() {
    let mut t = FdTable::new();
    let g = t.allocate();
    t.bind(g, 17);
    let mut args = [0u64; 8];
    args[4] = g;
    assert!(translate(&t, SYS_MMAP, &mut args).is_ok());
    assert_eq!(args[4], 17);
    assert_eq!(args[0], 0, "mmap's x0 is an address hint, not an fd — it must be untouched");
}

#[test]
fn at_fdcwd_passes_through_untranslated() {
    let t = FdTable::new();
    let mut args = [0u64; 8];
    args[0] = AT_FDCWD as u64;
    assert!(translate(&t, SYS_OPENAT, &mut args).is_ok(),
        "AT_FDCWD is a sentinel, not a descriptor — it must not be rejected as EBADF");
    assert_eq!(args[0], AT_FDCWD as u64);
}

#[test]
fn nocancel_variants_translate_identically_to_their_plain_forms() {
    let mut t = FdTable::new();
    let g = t.allocate();
    t.bind(g, 17);
    for num in [SYS_READ_NOCANCEL, SYS_FCNTL_NOCANCEL] {
        let mut args = [0u64; 8];
        args[0] = g;
        assert!(translate(&t, num, &mut args).is_ok(), "syscall {num} must translate");
        assert_eq!(args[0], 17, "syscall {num} must reach the kernel with the HOST fd");
    }
}

#[test]
fn console_fds_translate_to_themselves() {
    let t = FdTable::new();
    for fd in 0..=2u64 {
        let mut args = [0u64; 8];
        args[0] = fd;
        assert!(translate(&t, SYS_PREAD, &mut args).is_ok(), "console fd {fd} must translate");
        assert_eq!(args[0], fd, "console fds map identically onto retrace's own");
    }
}

#[test]
fn mwl_region_layout_matches_the_sdk_header() {
    assert_eq!(MWL_REGION_STRIDE, 32);
    assert_eq!(MWL_MAX_REGION_COUNT, 5);
    assert_eq!(fd_operands(SYS_MAP_WITH_LINKING_NP), &[] as &[usize]);
    assert!(!allocates_fd(SYS_MAP_WITH_LINKING_NP));
}
