//! What is handed to the host kernel for a forwarded syscall, and what is kept of its answer.
use retrace_box::arch::{SYS_CLOSE, SYS_OPEN, SYS_PREAD, SYS_READ, SYS_READ_NOCANCEL, SYS_WRITE};
use retrace_box::fdtable::{clamp_count, FdSlot, FdTable, EBADF};
use retrace_box::layout::PTR_WINDOW_CAP;
use retrace_box::syscall::{capture_writes, read_count_operand, settle_fds, translate_mwl, window_len, Window};
use retrace_box::syscall::snapshot_len;

#[test]
fn count_is_clamped_to_backing() {
    assert_eq!(clamp_count(8, 1 << 30), 8);
    assert_eq!(clamp_count(4096, 100), 100);
    assert_eq!(clamp_count(4096, 1 << 30), 4096);
    assert_eq!(clamp_count(0, 16), 0);
}

#[test]
fn only_the_read_family_has_its_count_capped() {
    assert_eq!(read_count_operand(SYS_READ, 0x10000, Some(0x4000)), Some(0x4000));
    assert_eq!(read_count_operand(SYS_PREAD, 0x100, Some(0x4000)), Some(0x100));
    assert_eq!(read_count_operand(SYS_READ_NOCANCEL, 0x10000, Some(0x20)), Some(0x20));
    assert_eq!(read_count_operand(SYS_READ, 0x4000, None), Some(0x4000), "an unmapped buffer keeps its count");
    assert_eq!(read_count_operand(SYS_WRITE, 0x10000, Some(0x4000)), None);
}

#[test]
fn a_pointer_window_is_capped() {
    assert_eq!(window_len(100), 100);
    assert_eq!(window_len(PTR_WINDOW_CAP + 1), PTR_WINDOW_CAP);
}

fn region(fd: i32, tail: u8) -> Vec<u8> {
    let mut r = fd.to_le_bytes().to_vec();
    r.extend(std::iter::repeat(tail).take(28));
    r
}

#[test]
fn map_with_linking_regions_are_forwarded_with_host_descriptors() {
    let mut fds = FdTable::new();
    let g = fds.allocate();
    fds.bind(g, 40);
    let mut regions = region(g as i32, 0xaa);
    regions.extend(region(-1, 0xbb));
    let out = translate_mwl(&fds, &regions, 2).unwrap();
    assert_eq!(&out[0..4], &40i32.to_le_bytes());
    assert_eq!(&out[4..32], &regions[4..32]);
    assert_eq!(&out[32..64], &regions[32..64], "a negative descriptor is a sentinel, left alone");
}

#[test]
fn map_with_linking_naming_a_closed_descriptor_is_ebadf() {
    let fds = FdTable::new();
    let regions = region(9, 0);
    assert_eq!(translate_mwl(&fds, &regions, 1), Err(EBADF));
    assert_eq!(translate_mwl(&fds, &regions, 0), Ok(regions.clone()), "no region named, nothing checked");
}

#[test]
fn map_with_linking_counts_at_most_five_regions() {
    let fds = FdTable::new();
    let mut regions = Vec::new();
    for _ in 0..5 {
        regions.extend(region(-2, 0));
    }
    regions.extend(region(9, 0));
    assert_eq!(translate_mwl(&fds, &regions, 6).unwrap(), regions, "the sixth region is past the kernel's cap");
}

#[test]
fn only_changed_windows_are_captured_and_none_on_failure() {
    let ws = vec![
        Window { ipa: 0x1000, pre: vec![0, 0], post: vec![0, 0] },
        Window { ipa: 0x2000, pre: vec![1, 2], post: vec![1, 3] },
        Window { ipa: 0x3000, pre: vec![], post: vec![] },
        Window { ipa: 0x4000, pre: vec![7], post: vec![8] },
    ];
    let w = capture_writes(&ws, false);
    assert_eq!(w.len(), 2);
    assert_eq!((w[0].ipa, w[0].bytes.clone()), (0x2000, vec![1, 3]));
    assert_eq!((w[1].ipa, w[1].bytes.clone()), (0x4000, vec![8]));
    assert!(capture_writes(&ws, true).is_empty());
}

#[test]
fn an_opened_host_descriptor_is_bound_to_the_lowest_free_guest_slot() {
    let mut fds = FdTable::new();
    let g = settle_fds(&mut fds, SYS_OPEN, 0, 57, false);
    assert_eq!(g, 3);
    assert_eq!(fds.host(3), Some(57));
    assert_eq!(settle_fds(&mut fds, SYS_OPEN, 0, 9, true), 9, "a failed open binds nothing");
    assert_eq!(fds.slots().len(), 4);
}

#[test]
fn a_successful_close_retires_the_guest_slot() {
    let mut fds = FdTable::new();
    let g = settle_fds(&mut fds, SYS_OPEN, 0, 57, false);
    assert_eq!(settle_fds(&mut fds, SYS_CLOSE, g, 0, false), 0);
    assert_eq!(fds.slots()[g as usize], FdSlot::Closed);
    assert_eq!(fds.host(g), None);
    let g2 = settle_fds(&mut fds, SYS_OPEN, 0, 60, false);
    assert_eq!(g2, g, "the retired slot is reused");
    assert_eq!(settle_fds(&mut fds, SYS_CLOSE, g2, 9, true), 9);
    assert!(fds.is_open(g2), "a failed close leaves the slot open");
    assert_eq!(settle_fds(&mut fds, SYS_WRITE, g2, 5, false), 5);
    assert!(fds.is_open(g2));
}

#[test]
fn a_file_snapshot_never_reads_past_the_object() {
    assert_eq!(snapshot_len(0x10000, 0x100), 0x4000, "one granule at least");
    assert_eq!(snapshot_len(0x10000, 0x4001), 0x8000);
    assert_eq!(snapshot_len(0x4000, 0x100000), 0x4000, "never more than the mapping");
    assert_eq!(snapshot_len(0x10000, 0), 0x4000);
}
