//! The v5 slide-info decoder and the page walk that rebases a shared-cache page.
use retrace_box::cache::{CACHE_PAGE_SIZE, CoverageGap, SlideInfo5, blend, decode5, modifier, target_va, walk_page, window_coverage};

fn encode5(auth: bool, runtime_offset: u64, diversity: u16, addr_div: bool, key_is_data: bool, high8: u8, next: u16) -> u64 {
    let mut v = (runtime_offset & 0x3_FFFF_FFFF) | ((next as u64) << 52);
    if auth {
        v |= 1u64 << 63;
        v |= (diversity as u64) << 34;
        if addr_div {
            v |= 1u64 << 50;
        }
        if key_is_data {
            v |= 1u64 << 51;
        }
    } else {
        v |= (high8 as u64) << 34;
    }
    v
}

#[test]
fn walk_page_rebases_regular_in_place_and_collects_auth_slots() {
    let value_add = 0x1_8000_0000u64;
    let page_size = 0x4000u32;
    let mapping_base = 0x1_ec00_0000u64;
    let page_index = 3usize;
    let slide = 0u64;

    let mut page = [0u8; 16384];
    let start_off = 0x100usize;

    let reg_runtime_offset = 0x0012_3456u64;
    let reg_high8 = 0xABu8;
    let reg_raw = encode5(false, reg_runtime_offset, 0, false, false, reg_high8, 1);
    page[start_off..start_off + 8].copy_from_slice(&reg_raw.to_le_bytes());

    let auth1_off = start_off + 8;
    let auth1_runtime_offset = 0x0abc_def0u64;
    let auth1_div = 0x6ae1u16;
    let auth1_raw = encode5(true, auth1_runtime_offset, auth1_div, true, true, 0, 1);
    page[auth1_off..auth1_off + 8].copy_from_slice(&auth1_raw.to_le_bytes());

    let auth2_off = auth1_off + 8;
    let auth2_runtime_offset = 0x0011_2233u64;
    let auth2_div = 0x1234u16;
    let auth2_raw = encode5(true, auth2_runtime_offset, auth2_div, false, true, 0, 1);
    page[auth2_off..auth2_off + 8].copy_from_slice(&auth2_raw.to_le_bytes());

    let auth3_off = auth2_off + 8;
    let auth3_runtime_offset = 0x0099_8877u64;
    let auth3_div = 0x5566u16;
    let auth3_raw = encode5(true, auth3_runtime_offset, auth3_div, true, false, 0, 0);
    page[auth3_off..auth3_off + 8].copy_from_slice(&auth3_raw.to_le_bytes());

    let mut page_starts = vec![0xFFFFu16; page_index + 1];
    page_starts[page_index] = start_off as u16;
    let si = SlideInfo5 { page_size, value_add, page_starts };

    let orig_auth_bytes: Vec<([u8; 8], usize)> = [auth1_off, auth2_off, auth3_off]
        .iter()
        .map(|&o| (page[o..o + 8].try_into().unwrap(), o))
        .collect();

    let auth_slots = walk_page(&mut page, &si, page_index, slide, mapping_base);

    let expected_reg = value_add.wrapping_add(reg_runtime_offset).wrapping_add(slide) | ((reg_high8 as u64) << 56);
    let got_reg = u64::from_le_bytes(page[start_off..start_off + 8].try_into().unwrap());
    assert_eq!(got_reg, expected_reg);

    for (orig, off) in &orig_auth_bytes {
        assert_eq!(&page[*off..*off + 8], &orig[..]);
    }

    assert_eq!(auth_slots.len(), 3);

    let slot1_va = mapping_base + page_index as u64 * page_size as u64 + auth1_off as u64 + slide;
    assert_eq!(auth_slots[0].offset, auth1_off);
    assert_eq!(auth_slots[0].target_va, value_add.wrapping_add(auth1_runtime_offset).wrapping_add(slide));
    assert!(auth_slots[0].key_is_data);
    assert_eq!(auth_slots[0].modifier, blend(slot1_va, auth1_div));

    assert_eq!(auth_slots[1].offset, auth2_off);
    assert_eq!(auth_slots[1].target_va, value_add.wrapping_add(auth2_runtime_offset).wrapping_add(slide));
    assert!(auth_slots[1].key_is_data);
    assert_eq!(auth_slots[1].modifier, auth2_div as u64);

    let slot3_va = mapping_base + page_index as u64 * page_size as u64 + auth3_off as u64 + slide;
    assert_eq!(auth_slots[2].offset, auth3_off);
    assert_eq!(auth_slots[2].target_va, value_add.wrapping_add(auth3_runtime_offset).wrapping_add(slide));
    assert!(!auth_slots[2].key_is_data);
    assert_eq!(auth_slots[2].modifier, blend(slot3_va, auth3_div));
}

#[test]
fn walk_page_no_rebase_returns_empty_and_leaves_page_unchanged() {
    let si = SlideInfo5 { page_size: 0x4000, value_add: 0x1_8000_0000, page_starts: vec![0xFFFF] };
    let mut page = [0u8; 16384];
    for (i, b) in page.iter_mut().enumerate() {
        *b = (i % 256) as u8;
    }
    let before = page;

    let auth_slots = walk_page(&mut page, &si, 0, 0, 0x1_ec00_0000);

    assert!(auth_slots.is_empty());
    assert_eq!(page, before);
}

#[test]
fn decodes_spike_auth_slot() {
    let p = decode5(0x801dab846c2f15c8);
    assert!(p.auth && p.key_is_data /*DA*/ && p.addr_div);
    assert_eq!(p.runtime_offset, 0x6c2f15c8);
    assert_eq!(p.diversity, 0x6ae1);
    assert_eq!(p.next, 1);
    assert_eq!(target_va(&p, 0x180000000, 0), 0x1ec2f15c8);
    let slot = 0x1ec06c2d0u64;
    assert_eq!(modifier(&p, slot), (slot & 0x0000_FFFF_FFFF_FFFF) | (0x6ae1u64 << 48));
    let r = decode5(0x001000010f3bec00);
    assert!(!r.auth);
    assert_eq!(target_va(&r, 0x180000000, 0), 0x28f3bec00);
}

fn fake_subcache(name: &str, ranges: &[(u64, u64)]) -> retrace_box::cache::Subcache {
    retrace_box::cache::Subcache {
        path: name.as_bytes().to_vec(),
        mappings: ranges
            .iter()
            .map(|&(address, size)| retrace_box::cache::Mapping { address, size, file_offset: 0, is_exec: false, slide_info: None })
            .collect(),
    }
}

#[test]
fn coverage_assertion_accepts_contiguous_subcaches_and_trailing_guard_page() {
    let base = 0x1_8000_0000u64;
    let subcaches = vec![
        fake_subcache("main", &[(base, 0x1000)]),
        fake_subcache(".01", &[(base + 0x1000, 0x2000)]),
    ];
    let covered_end = base + 0x1000 + 0x2000;
    let size = (covered_end - base) + CACHE_PAGE_SIZE;
    assert_eq!(window_coverage(base, size, &subcaches), Ok(()));
}

#[test]
fn coverage_reports_an_enumeration_that_stopped_early() {
    let base = 0x1_8000_0000u64;
    let subcaches = vec![fake_subcache("main", &[(base, 0x1000)])];
    assert_eq!(window_coverage(base, 0x10_0000, &subcaches), Err(CoverageGap::Short { covered_to: base + 0x1000 }));
}

#[test]
fn coverage_reports_a_gap_between_subcache_files() {
    let base = 0x1_8000_0000u64;
    let subcaches = vec![
        fake_subcache("main", &[(base, 0x1000)]),
        fake_subcache(".01", &[(base + 0x2000, 0x1000)]),
    ];
    assert_eq!(
        window_coverage(base, 0x3000, &subcaches),
        Err(CoverageGap::Skipped { starts_at: base + 0x2000, covered_to: base + 0x1000 })
    );
}
