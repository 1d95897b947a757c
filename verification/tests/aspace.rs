//! Guest address-space bookkeeping: reservations and their carve-outs, first-fit placement,
//! `MAP_FIXED` validation and demand commits.
use retrace_box::arch::EINVAL;
use retrace_box::aspace::{fixed_fits, page_round, AddressSpace, Backing, FixedCase, MapPlan};
use retrace_box::layout::MMAP_BASE;

fn ipa_of(p: &MapPlan) -> u64 {
    match p {
        MapPlan::Fresh { ipa, .. } => *ipa,
        MapPlan::Reuse { ipa, .. } => *ipa,
    }
}

const WILD: u64 = 0xffff_ffff_ffa0_4000;
const IPA_CEILING: u64 = 1 << 36;
const RW: u64 = 3;
const ANON_FIXED: u64 = 0x1012;

#[test]
fn interior_dealloc_splits_reservation_into_two_exact_remnants() {
    let mut b = AddressSpace::new();
    let base = b.guest_vm_reserve(0, 0x40000, true);
    assert_eq!(base, MMAP_BASE, "the first ANYWHERE reservation bumps from MMAP_BASE");
    assert_eq!(b.reservations(), &[(base, 0x40000)]);
    b.guest_munmap(base + 0x10000, 0x10000);
    assert_eq!(b.reservations(), &[(base, 0x10000), (base + 0x20000, 0x20000)]);
}

#[test]
fn dealloc_trims_head_then_tail_then_removes_on_full_cover() {
    let mut b = AddressSpace::new();
    let base = b.guest_vm_reserve(0, 0x40000, true);
    b.guest_munmap(base, 0x10000);
    assert_eq!(b.reservations(), &[(base + 0x10000, 0x30000)], "head trim");
    b.guest_munmap(base + 0x30000, 0x10000);
    assert_eq!(b.reservations(), &[(base + 0x10000, 0x20000)], "tail trim");
    b.guest_munmap(base + 0x10000, 0x20000);
    assert_eq!(b.reservations(), &[] as &[(u64, u64)], "a full-cover dealloc removes the entry");
}

#[test]
fn hinted_anywhere_map_lands_in_the_carveout_hole() {
    let mut b = AddressSpace::new();
    let base = b.guest_vm_reserve(0, 0x40000, true);
    b.guest_munmap(base + 0x10000, 0x10000);
    let before = b.mapped_len();
    let got = b.guest_vm_map(base, 0x10000, true, false);
    assert_eq!(ipa_of(&got), base + 0x10000);
    assert_eq!(b.mapped_len(), before + 0x10000, "the full requested length is backed");
}

#[test]
fn hole_outside_backing_is_fatal_reserved_remnants_still_commit() {
    let mut b = AddressSpace::new();
    let base = b.guest_vm_reserve(0, 0x40000, true);
    b.guest_munmap(base + 0x10000, 0x20000);
    assert_eq!(b.reservations(), &[(base, 0x10000), (base + 0x30000, 0x10000)]);
    let got = b.guest_vm_map(base, 0x10000, true, false);
    assert_eq!(ipa_of(&got), base + 0x10000);
    assert!(!b.commit_reserved_page(base + 0x20000), "a hole page outside the new backing stays fatal");
    assert!(b.commit_reserved_page(base), "a head-remnant page still demand-commits");
    assert!(b.commit_reserved_page(base + 0x30000), "a tail-remnant page still demand-commits");
}

#[test]
fn nano_fixed_commit_lands_at_requested_base_inside_a_reservation() {
    let mut b = AddressSpace::new();
    let base = b.guest_vm_reserve(0, 0x40000, true);
    let commit = b.guest_vm_map(base + 0x10000, 0x10000, false, false);
    assert_eq!(ipa_of(&commit), base + 0x10000);
}

#[test]
fn anywhere_hint_into_intact_reservation_is_pushed_past_it() {
    let mut b = AddressSpace::new();
    let base = b.guest_vm_reserve(0, 0x40000, true);
    let got = ipa_of(&b.guest_vm_map(base, 0x10000, true, false));
    assert!(got >= base + 0x40000, "got {got:#x}, base {base:#x}");
}

#[test]
fn wild_map_fixed_is_rejected_with_einval() {
    let mut b = AddressSpace::new();
    assert_eq!(b.guest_mmap(WILD, 0x4000, RW, ANON_FIXED), Err(EINVAL));
}

#[test]
fn map_fixed_crossing_the_ipa_ceiling_is_rejected() {
    let mut b = AddressSpace::new();
    assert_eq!(b.guest_mmap(IPA_CEILING - 0x4000, 0x8000, RW, ANON_FIXED), Err(EINVAL));
}

#[test]
fn misaligned_map_fixed_is_rejected() {
    let mut b = AddressSpace::new();
    let base = ipa_of(&b.guest_mmap(0, 0x10000, RW, 0x1002).unwrap());
    assert_eq!(b.guest_mmap(base + 0x1000, 0x4000, RW, ANON_FIXED), Err(EINVAL));
}

#[test]
fn a_rejected_map_fixed_changes_no_state() {
    let mut b = AddressSpace::new();
    let first = ipa_of(&b.guest_mmap(0, 0x4000, RW, 0x1002).unwrap());
    let mapped = b.mapped_len();
    assert_eq!(b.guest_mmap(WILD, 0x4000, RW, ANON_FIXED), Err(EINVAL));
    assert_eq!(b.mapped_len(), mapped, "a rejected mmap must not add or drop a backing");
    let next = b.guest_mmap(0, 0x4000, RW, 0x1002).unwrap();
    assert_eq!(ipa_of(&next), first + 0x4000);
}

#[test]
fn an_in_range_map_fixed_still_succeeds() {
    let mut b = AddressSpace::new();
    let base = ipa_of(&b.guest_mmap(0, 0x10000, RW, 0x1002).unwrap());
    let got = b.guest_mmap(base + 0x4000, 0x4000, RW, ANON_FIXED).unwrap();
    assert_eq!(got, MapPlan::Reuse { ipa: base + 0x4000, backing: 0 });
}

#[test]
fn anywhere_mmap_packs_data_and_gives_exec_a_fresh_block() {
    let mut b = AddressSpace::new();
    let d = ipa_of(&b.guest_mmap(0, 0x4000, RW, 0x1002).unwrap());
    assert_eq!(d, MMAP_BASE);
    let x = ipa_of(&b.guest_mmap(0, 0x4000, 5, 0x1002).unwrap());
    assert_eq!(x, MMAP_BASE + 0x200_0000, "an exec mmap starts a fresh 32 MiB block");
    assert_eq!(b.mmap_next(), x + 0x4000);
}

#[test]
fn covering_fixed_map_drops_what_it_covers() {
    let mut b = AddressSpace::new();
    let base = ipa_of(&b.guest_mmap(0, 0x4000, RW, 0x1002).unwrap());
    assert_eq!(b.classify_fixed(base, 0x8000), FixedCase::Covers);
    let p = b.guest_mmap(base, 0x8000, RW, ANON_FIXED).unwrap();
    assert_eq!(p, MapPlan::Fresh { ipa: base, dropped: vec![Backing { ipa: base, len: 0x4000 }] });
    assert_eq!(b.backings(), &[Backing { ipa: base, len: 0x8000 }]);
}

#[test]
fn a_partial_straddle_is_classified_as_such() {
    let mut b = AddressSpace::new();
    let base = ipa_of(&b.guest_mmap(0, 0x8000, RW, 0x1002).unwrap());
    assert_eq!(b.classify_fixed(base + 0x4000, 0x8000), FixedCase::Straddles);
    assert_eq!(b.classify_fixed(base + 0x4000, 0x4000), FixedCase::Contained(0));
}

#[test]
fn page_round_and_fixed_fits_edges() {
    assert_eq!(page_round(1), 0x4000);
    assert_eq!(page_round(0x4000), 0x4000);
    assert_eq!(page_round(0x4001), 0x8000);
    assert_eq!(page_round(0), 0);
    assert!(fixed_fits(0x4000, 0x4000));
    assert!(!fixed_fits(0x4001, 0x4000));
    assert!(!fixed_fits(IPA_CEILING - 0x4000, 0x8000));
    assert!(fixed_fits(IPA_CEILING - 0x4000, 0x4000));
}

#[test]
fn munmap_of_a_whole_backing_hands_it_back() {
    let mut b = AddressSpace::new();
    let base = ipa_of(&b.guest_mmap(0, 0x8000, RW, 0x1002).unwrap());
    assert!(b.is_mapped(base + 0x4000));
    assert_eq!(b.backing_of(base + 0x7fff), Some(0));
    assert_eq!(b.guest_munmap(base, 0x8000), Some(Backing { ipa: base, len: 0x8000 }));
    assert!(!b.is_mapped(base));
    assert_eq!(b.mapped_len(), 0);
}

#[test]
fn a_reservation_commits_each_page_once() {
    let mut b = AddressSpace::new();
    let base = b.guest_vm_reserve(0, 0x8000, true);
    assert!(b.commit_reserved_page(base + 0x10));
    assert_eq!(b.backings(), &[Backing { ipa: base, len: 0x4000 }]);
    assert!(!b.commit_reserved_page(base + 0x20), "an already-backed page is not committed twice");
    assert!(b.commit_reserved_page(base + 0x4000));
    assert!(!b.commit_reserved_page(base + 0x8000), "past the reservation stays fatal");
}

#[test]
fn first_fit_takes_a_free_hint_and_skips_occupied_space() {
    let mut b = AddressSpace::new();
    assert_eq!(b.first_fit(0x8_0000_0000, 0x4000), Some(0x8_0000_0000));
    let base = b.guest_vm_reserve(0x8_0000_0000, 0x4000, false);
    assert_eq!(base, 0x8_0000_0000);
    assert_eq!(b.first_fit(0x8_0000_0000, 0x4000), Some(0x8_0000_4000));
    assert!(!b.range_is_free(0x8_0000_0000, 0x4000));
    assert!(b.range_is_free(0x8_0000_4000, 0x4000));
}

#[test]
fn subtract_reservations_cuts_exactly_the_range() {
    let mut b = AddressSpace::new();
    let base = b.guest_vm_reserve(0, 0x10000, true);
    let other = b.guest_vm_reserve(0, 0x8000, true);
    b.subtract_reservations(base + 0x4000, 0x8000);
    assert_eq!(b.reservations(), &[(base, 0x4000), (base + 0xc000, 0x4000), (other, 0x8000)]);
}

#[test]
fn a_span_is_found_in_the_backing_that_holds_it() {
    let mut b = AddressSpace::new();
    let base = ipa_of(&b.guest_mmap(0, 0x8000, RW, 0x1002).unwrap());
    assert_eq!(b.span_of(base + 0x10), Some((0, 0x10)));
    assert_eq!(b.span_of(base + 0x8000), None);
    assert_eq!(b.containing(base + 0x7ff8, 8), Some((0, 0x7ff8)));
    assert_eq!(b.containing(base + 0x7ff8, 9), None, "a span running off the backing's end");
    assert_eq!(b.containing(base - 1, 2), None);
}
