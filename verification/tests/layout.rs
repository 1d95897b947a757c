//! The guest geometry the box lays out.
use retrace_box::layout::{DYN_STACK_SIZE, DYN_STACK_TOP, GRANULE, PT_L3_BASE, PT_L3_CEIL, STACK_TOP_IPA, stack_geometry_from_memory};

#[test]
fn the_guard_page_libstd_computes_is_a_mappable_guest_address() {
    const LIBPTHREAD_MAIN_STACK_SIZE: u64 = 0x7fc000;
    let guard = DYN_STACK_TOP.checked_sub(LIBPTHREAD_MAIN_STACK_SIZE).unwrap_or_else(|| panic!(
        "DYN_STACK_TOP {DYN_STACK_TOP:#x} is below libpthread's constant main-thread stack size \
         {LIBPTHREAD_MAIN_STACK_SIZE:#x}: libstd's guard-page subtraction underflows to a wild \
         address and the mmap is refused"));

    assert_eq!(guard % GRANULE as u64, 0, "guard page {guard:#x} must be granule-aligned");
    assert!(guard >= PT_L3_CEIL,
        "guard page {guard:#x} lands in the L3 page-table window [{PT_L3_BASE:#x}, \
         {PT_L3_CEIL:#x}) — mapping it would overwrite live translation tables");
    assert!(guard + GRANULE as u64 <= DYN_STACK_TOP - DYN_STACK_SIZE,
        "guard page {guard:#x} overlaps the stack backing [{:#x}, {DYN_STACK_TOP:#x}) — it must \
         sit BELOW the stack it guards", DYN_STACK_TOP - DYN_STACK_SIZE);
    const { assert!(DYN_STACK_TOP <= 1 << 36, "the stack must fit in the 36-bit guest IPA space") };
}

fn region(ipa: u64, len: u64) -> retrace_box::trace::Region {
    retrace_box::trace::Region { ipa, bytes: vec![0u8; len as usize] }
}

#[test]
fn derives_the_static_geometry_from_a_static_snapshot() {
    let regions = vec![region(STACK_TOP_IPA - GRANULE as u64, GRANULE as u64)];
    assert_eq!(stack_geometry_from_memory(&regions), (STACK_TOP_IPA, GRANULE as u64));
}

#[test]
fn derives_the_dynamic_geometry_from_a_dynamic_snapshot() {
    let regions = vec![region(DYN_STACK_TOP - DYN_STACK_SIZE, DYN_STACK_SIZE)];
    assert_eq!(stack_geometry_from_memory(&regions), (DYN_STACK_TOP, DYN_STACK_SIZE));
}
