//! The in-guest signing stub's code page and its table pages.
use retrace_box::cache::AuthSlot;
use retrace_box::pac::{
    auth_entries, decode_results, encode_table, sign_stub_page, sign_work, OP_AUTDA, OP_AUTIA, OP_PACDA, OP_PACIA,
    PAC_ENTRY_BYTES, SIGN_CHUNK,
};
use retrace_box::pac::tlbi_stub_page;

#[test]
fn the_stub_page_holds_the_stub_and_ends_in_svc() {
    let p = sign_stub_page();
    assert_eq!(p.len(), 0x4000);
    assert_eq!(&p[0..4], &0xb400_024au32.to_le_bytes(), "cbz x10, done");
    assert_eq!(&p[72..76], &0xd400_0001u32.to_le_bytes(), "svc #0");
    assert!(p[76..].iter().all(|&b| b == 0));
}

#[test]
fn a_table_page_holds_a_whole_chunk() {
    assert!(SIGN_CHUNK * PAC_ENTRY_BYTES <= 0x4000);
    assert!((SIGN_CHUNK + 1) * PAC_ENTRY_BYTES > 0x4000);
}

fn slot(target_va: u64, modifier: u64, key_is_data: bool) -> AuthSlot {
    AuthSlot { offset: 0, target_va, key_is_data, modifier }
}

#[test]
fn with_pac_off_the_targets_are_the_answer() {
    let slots = [slot(0x1000, 7, false), slot(0x2000, 9, true)];
    assert_eq!(sign_work(false, &slots), Ok(vec![0x1000, 0x2000]));
    assert_eq!(sign_work(true, &slots), Err(vec![(0x1000, 7, OP_PACIA), (0x2000, 9, OP_PACDA)]));
}

#[test]
fn authenticate_entries_pick_the_key_by_kind() {
    assert_eq!(auth_entries(&[(5, 6, true), (7, 8, false)]), vec![(5, 6, OP_AUTDA), (7, 8, OP_AUTIA)]);
}

#[test]
fn a_table_reads_back_its_values_until_the_stub_overwrites_them() {
    let entries = [(0x1111, 0x2222, OP_PACIA), (0x3333, 0x4444, OP_AUTDA)];
    let t = encode_table(&entries);
    assert_eq!(t.len(), 0x4000);
    assert_eq!(&t[8..16], &0x2222u64.to_le_bytes());
    assert_eq!(&t[16..24], &OP_PACIA.to_le_bytes());
    assert_eq!(&t[40..48], &OP_AUTDA.to_le_bytes());
    assert_eq!(decode_results(&t, 2), vec![0x1111, 0x3333]);
    let mut done = t.clone();
    done[24..32].copy_from_slice(&0xdead_beefu64.to_le_bytes());
    assert_eq!(decode_results(&done, 2), vec![0x1111, 0xdead_beef]);
}

#[test]
fn the_flush_stub_page_invalidates_then_exits_to_the_vmm() {
    let p = tlbi_stub_page();
    assert_eq!(&p[0..4], &0xd508_871fu32.to_le_bytes(), "tlbi vmalle1");
    assert_eq!(&p[12..16], &0xd400_0002u32.to_le_bytes(), "hvc #0");
    assert!(p[16..].iter().all(|&b| b == 0));
}
