//! Servicing faults in the shared-cache window.
use retrace_box::cache::{AuthSlot, CacheMeta, Mapping, SlideInfo5, Subcache};
use retrace_box::pager::{patch_signed, plan_page_in, PageIn, RefaultGuard, REFAULT_LIMIT};

const BASE: u64 = 0x1_8000_0000;

fn meta(dyn_off: u64) -> CacheMeta {
    let text = Mapping { address: BASE, size: 0x8000, file_offset: 0, is_exec: true, slide_info: None };
    let data = Mapping {
        address: BASE + 0x8000,
        size: 0x8000,
        file_offset: 0x8000,
        is_exec: false,
        slide_info: Some(SlideInfo5 { page_size: 0x4000, value_add: BASE, page_starts: vec![0, 0xFFFF] }),
    };
    let ro = Mapping { address: BASE + 0x10000, size: 0x4000, file_offset: 0x10000, is_exec: false, slide_info: None };
    let subs = vec![
        Subcache { path: b"main".to_vec(), mappings: vec![text] },
        Subcache { path: b".01".to_vec(), mappings: vec![data, ro] },
    ];
    CacheMeta::new(BASE, 0x20000, dyn_off, 0x8000, 7, 9, subs)
}

#[test]
fn each_kind_of_cache_page_gets_its_own_plan() {
    let m = meta(0x18000);
    match plan_page_in(&m, BASE + 0x4010, false) {
        PageIn::Text { page_base, route } => {
            assert_eq!(page_base, BASE + 0x4000);
            assert_eq!((route.subcache, route.mapping, route.page_index), (0, 0, 1));
        }
        p => panic!("{p:?}"),
    }
    match plan_page_in(&m, BASE + 0xc008, false) {
        PageIn::Fixups { page_base, route } => {
            assert_eq!(page_base, BASE + 0xc000);
            assert_eq!((route.subcache, route.mapping, route.page_index), (1, 0, 1));
            assert_eq!(route.file_offset_of_page, 0xc000);
        }
        p => panic!("{p:?}"),
    }
    assert!(matches!(plan_page_in(&m, BASE + 0x10000, false), PageIn::Plain { page_base, .. } if page_base == BASE + 0x10000));
    assert_eq!(plan_page_in(&m, BASE + 0x4010, true), PageIn::Resident);
}

#[test]
fn the_dynamic_data_region_is_staged_with_its_header_on_its_first_page() {
    let m = meta(0x18000);
    assert_eq!(plan_page_in(&m, BASE + 0x18010, false), PageIn::DynamicData { page_base: BASE + 0x18000, with_header: true });
    assert_eq!(plan_page_in(&m, BASE + 0x1c000, false), PageIn::DynamicData { page_base: BASE + 0x1c000, with_header: false });
    assert_eq!(plan_page_in(&m, BASE + 0x1c000, true), PageIn::Resident);
    assert_eq!(plan_page_in(&m, BASE + 0x20000, false), PageIn::Miss, "past the region");
}

#[test]
fn without_a_dynamic_region_an_unmapped_window_address_is_a_miss() {
    let m = meta(0);
    assert_eq!(plan_page_in(&m, BASE + 0x18010, false), PageIn::Miss);
    assert_eq!(plan_page_in(&m, 0x1000, false), PageIn::Miss);
}

#[test]
fn a_mapped_page_that_keeps_faulting_trips_the_guard() {
    let mut g = RefaultGuard::new();
    for i in 1..REFAULT_LIMIT {
        assert!(!g.note_fault(0x1_8000_4000, true), "fault {i} is still tolerated");
    }
    assert!(g.note_fault(0x1_8000_4000, true), "the limit-th consecutive refault trips");
}

#[test]
fn an_unmapped_fault_or_another_page_resets_the_streak() {
    let mut g = RefaultGuard::new();
    for _ in 0..5 {
        g.note_fault(0x1_8000_4000, true);
    }
    assert!(!g.note_fault(0x1_8000_8000, true));
    assert_eq!(g, RefaultGuard { ipa: 0x1_8000_8000, count: 1 });
    assert!(!g.note_fault(0x1_8000_8000, false));
    assert_eq!(g, RefaultGuard { ipa: 0, count: 0 });
}

#[test]
fn re_signed_values_land_on_their_slots() {
    let mut page = [0u8; 16384];
    let slots = [
        AuthSlot { offset: 8, target_va: 0, key_is_data: false, modifier: 0 },
        AuthSlot { offset: 0x100, target_va: 0, key_is_data: true, modifier: 0 },
    ];
    patch_signed(&mut page, &slots, &[0x1122_3344_5566_7788, 0xaabb]);
    assert_eq!(&page[8..16], &0x1122_3344_5566_7788u64.to_le_bytes());
    assert_eq!(&page[0x100..0x108], &0xaabbu64.to_le_bytes());
    assert!(page[..8].iter().all(|&b| b == 0));
    let mut page2 = [0u8; 16384];
    patch_signed(&mut page2, &slots, &[5]);
    assert_eq!(page2[8], 5);
    assert!(page2[0x100..0x108].iter().all(|&b| b == 0), "a slot without a value is left alone");
}
