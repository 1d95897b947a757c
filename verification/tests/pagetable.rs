//! The W^X identity map: data blocks by default, L3 tables for blocks holding code.
use retrace_box::layout::{ATTR_CODE, ATTR_DATA, ATTR_TRAMP, PT_L2_IPA, PT_L3_BASE};
use retrace_box::pagetable::{blocks_reached, build_tables, l1_table, tables_from_regions, PageTables, L3_CAPACITY, TABLE_ENTRIES};
use retrace_box::trace::Region;

const BLK: u64 = 0x200_0000;

#[test]
fn a_fresh_map_is_all_data_blocks() {
    let t = PageTables::new();
    assert_eq!(t.l2_entries().len(), TABLE_ENTRIES);
    assert_eq!(t.l2_entries()[0], ATTR_DATA | 1);
    assert_eq!(t.l2_entries()[5], (5 * BLK) | ATTR_DATA | 1);
    assert!(t.l3_entries().is_empty());
    assert_eq!(t.next_l3_ipa(), PT_L3_BASE);
    assert!(!t.ipa_is_exec(0x1_0000_0000));
}

#[test]
fn making_a_range_executable_promotes_its_block_and_only_its_pages() {
    let mut t = PageTables::new();
    let made = t.set_region_exec(0x1_0000_4000, 0x8000);
    assert_eq!(made, vec![PT_L3_BASE]);
    let bi = (0x1_0000_4000 / BLK) as usize;
    assert_eq!(t.l2_entries()[bi], PT_L3_BASE | 3, "the block now points at its L3 table");
    assert!(t.ipa_is_exec(0x1_0000_4000));
    assert!(t.ipa_is_exec(0x1_0000_bfff));
    assert!(!t.ipa_is_exec(0x1_0000_c000), "the page after the range stays data");
    assert!(!t.ipa_is_exec(0x1_0000_0000), "the page before the range stays data");
    let l3 = t.l3_entries();
    assert_eq!(l3.len(), TABLE_ENTRIES);
    assert_eq!(l3[0], 0x1_0000_0000 | ATTR_DATA | 3);
    assert_eq!(l3[1], 0x1_0000_4000 | ATTR_CODE | 3);
    assert_eq!(l3[2], 0x1_0000_8000 | ATTR_CODE | 3);
    assert_eq!(l3[3], 0x1_0000_c000 | ATTR_DATA | 3);
}

#[test]
fn a_promoted_block_is_reused_not_promoted_again() {
    let mut t = PageTables::new();
    assert_eq!(t.tables_needed(0x1_0000_0000, 0x4000), 1);
    t.set_region_exec(0x1_0000_0000, 0x4000);
    assert_eq!(t.tables_needed(0x1_0000_0000, 0x4000), 0);
    let made = t.set_region_exec(0x1_0100_0000, 0x4000);
    assert!(made.is_empty(), "same 32 MiB block: its table is reused");
    assert_eq!(t.l3_entries().len(), TABLE_ENTRIES);
    assert!(t.ipa_is_exec(0x1_0000_0000) && t.ipa_is_exec(0x1_0100_0000));
    assert_eq!(t.next_l3_ipa(), PT_L3_BASE + 0x4000);
}

#[test]
fn a_range_across_a_block_boundary_promotes_both_blocks_in_order() {
    let mut t = PageTables::new();
    let made = t.set_region_exec_attr(BLK * 9 - 0x4000, 0x8000, ATTR_TRAMP);
    assert_eq!(made, vec![PT_L3_BASE, PT_L3_BASE + 0x4000]);
    assert_eq!(t.l2_entries()[8], PT_L3_BASE | 3);
    assert_eq!(t.l2_entries()[9], (PT_L3_BASE + 0x4000) | 3);
    assert_eq!(t.l3_entries()[2047], (BLK * 9 - 0x4000) | ATTR_TRAMP | 3);
    assert_eq!(t.l3_entries()[2048], (BLK * 9) | ATTR_TRAMP | 3);
    assert!(!t.ipa_is_exec(BLK * 9), "ATTR_TRAMP is EL1 code, never EL0-executable");
}

#[test]
fn a_later_range_overrides_an_earlier_one() {
    let t = build_tables(&[(0x4000, 0x800, ATTR_TRAMP), (0x4000, 0x4000, ATTR_CODE), (0x1_0000_0000, 0x4000, ATTR_CODE)]);
    assert_eq!(t.l3_entries().len(), 2 * TABLE_ENTRIES);
    assert_eq!(t.l3_entries()[1], 0x4000 | ATTR_CODE | 3);
    assert!(t.ipa_is_exec(0x4000));
    assert!(t.ipa_is_exec(0x1_0000_0000));
    assert!(!t.ipa_is_exec(0x8000));
}

#[test]
fn the_l1_table_points_only_at_the_l2() {
    let l1 = l1_table();
    assert_eq!(l1.len(), TABLE_ENTRIES);
    assert_eq!(l1[0], PT_L2_IPA | 3);
    assert!(l1[1..].iter().all(|&e| e == 0));
}

#[test]
fn tables_read_back_are_taken_over_only_when_well_formed() {
    let mut t = PageTables::new();
    t.set_region_exec(0x1_0000_0000, 0x4000);
    let back = PageTables::from_parts(t.l2_entries().to_vec(), t.l3_entries().to_vec()).expect("well formed");
    assert!(back.ipa_is_exec(0x1_0000_0000));
    let mut l2 = t.l2_entries().to_vec();
    l2[3] = PT_L3_BASE | 3;
    assert!(PageTables::from_parts(l2, t.l3_entries().to_vec()).is_none());
    assert!(PageTables::from_parts(vec![0; 10], vec![]).is_none());
    let mut l2 = t.l2_entries().to_vec();
    l2[7] = (PT_L3_BASE + 0x4000) | 3;
    assert!(PageTables::from_parts(l2, t.l3_entries().to_vec()).is_none());
}

#[test]
fn the_l3_window_holds_exactly_its_capacity() {
    assert_eq!(L3_CAPACITY as u64 * 0x4000, 0x200_0000 - PT_L3_BASE);
}

fn page_bytes(words: &[u64]) -> Vec<u8> {
    words.iter().flat_map(|w| w.to_le_bytes()).collect()
}

#[test]
fn tables_are_read_back_from_a_snapshot() {
    let mut t = PageTables::new();
    t.set_region_exec(0x1_0000_0000, 0x4000);
    t.set_region_exec(0x2_0000_0000, 0x4000);
    let regions = vec![
        Region { ipa: 0x4000, bytes: vec![0; 0x800] },
        Region { ipa: PT_L2_IPA, bytes: page_bytes(t.l2_entries()) },
        Region { ipa: PT_L3_BASE + 0x4000, bytes: page_bytes(&t.l3_entries()[2048..]) },
        Region { ipa: PT_L3_BASE, bytes: page_bytes(&t.l3_entries()[..2048]) },
    ];
    let back = tables_from_regions(&regions).expect("a snapshot of well-formed tables");
    assert_eq!(back.l2_entries(), t.l2_entries());
    assert_eq!(back.l3_entries(), t.l3_entries());
    assert_eq!(back.next_l3_ipa(), PT_L3_BASE + 0x8000, "promotions continue after the last table");
    assert!(tables_from_regions(&regions[..1]).is_none(), "no L2 page");
    assert!(tables_from_regions(&regions[..3]).is_none(), "an L2 entry names a table that is not there");
}

#[test]
fn the_tables_a_map_needs_are_the_blocks_its_ranges_reach() {
    assert_eq!(blocks_reached(&[]), 0);
    assert_eq!(blocks_reached(&[(0x4000, 0x800, ATTR_TRAMP), (0x4000, 0x4000, ATTR_CODE)]), 1, "one block, reached twice");
    assert_eq!(blocks_reached(&[(BLK - 0x4000, 0x8000, ATTR_CODE)]), 2, "a range across a boundary");
    assert_eq!(blocks_reached(&[(0, 3 * BLK, ATTR_CODE), (BLK * 10, 1, ATTR_CODE)]), 4);
}
