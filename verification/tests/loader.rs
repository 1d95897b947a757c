//! Laying out a fresh guest: vector table, executable ranges, the main header and dyld's start
//! stack.
use retrace_box::layout::{ATTR_CODE, ATTR_TRAMP, DYLD_BASE, DYN_STACK_SIZE, DYN_STACK_TOP, STACK_TOP_IPA, TRAMPOLINE_IPA, TSD_IPA};
use retrace_box::loader::{
    dynamic_boot, dynamic_exec_ranges, main_header, region_len, start_stack, static_boot, static_exec_ranges,
    vector_table, Segment, CPACR_FP_ON,
};

fn seg(vaddr: u64, data: &[u8], memsz: usize, is_exec: bool) -> Segment {
    Segment { vaddr, data: data.to_vec(), memsz, is_exec }
}

#[test]
fn every_vector_slot_starts_with_hvc() {
    let v = vector_table();
    assert_eq!(v.len(), 0x800);
    for slot in 0..16 {
        assert_eq!(&v[slot * 0x80..slot * 0x80 + 4], &0xd400_0002u32.to_le_bytes());
        assert!(v[slot * 0x80 + 4..(slot + 1) * 0x80].iter().all(|&b| b == 0));
    }
}

#[test]
fn regions_are_whole_granules_of_at_least_one() {
    assert_eq!(region_len(0, 0), 0x4000);
    assert_eq!(region_len(0x4001, 0x10), 0x8000);
    assert_eq!(region_len(0x10, 0x8000), 0x8000);
}

#[test]
fn executable_ranges_put_the_trampoline_first() {
    let segs = [seg(0x1_0000_0000, &[1], 0x4000, true), seg(0x1_0000_4000, &[], 0x4000, false)];
    assert_eq!(
        static_exec_ranges(&segs),
        vec![(TRAMPOLINE_IPA, 0x800, ATTR_TRAMP), (0x1_0000_0000, 0x4000, ATTR_CODE)]
    );
    let dyld = [seg(0, &[], 0x8000, true)];
    assert_eq!(
        dynamic_exec_ranges(&segs, &dyld, &[(0x1_8000_0000, 0x10000)]),
        vec![
            (TRAMPOLINE_IPA, 0x800, ATTR_TRAMP),
            (0x1_0000_0000, 0x4000, ATTR_CODE),
            (DYLD_BASE, 0x8000, ATTR_CODE),
            (0x1_8000_0000, 0x10000, ATTR_CODE),
        ]
    );
}

#[test]
fn the_main_header_is_the_first_segment_carrying_the_magic() {
    let segs = [
        seg(0x1000, &[], 0x4000, false),
        seg(0x1_0000_0000, &[0xcf, 0xfa, 0xed, 0xfe, 0x0c], 0x4000, true),
        seg(0x2_0000_0000, &[0xcf, 0xfa, 0xed, 0xfe], 0x4000, false),
    ];
    assert_eq!(main_header(&segs), Some(0x1_0000_0000));
    assert_eq!(main_header(&segs[..1]), None);
    assert_eq!(main_header(&[seg(0, &[0xcf, 0xfa, 0xed], 3, false)]), None);
}

fn word(img: &[u8], off: usize) -> u64 {
    u64::from_le_bytes(img[off..off + 8].try_into().unwrap())
}

fn cstr(img: &[u8], sp: u64, addr: u64) -> Vec<u8> {
    let off = (addr - sp) as usize;
    let end = img[off..].iter().position(|&b| b == 0).unwrap();
    img[off..off + end].to_vec()
}

#[test]
fn the_start_stack_carries_kernel_args_and_the_apple_strings() {
    let top = 0x2800_0000u64;
    let argv = vec![b"/bin/hello".to_vec(), b"-v".to_vec()];
    let (sp, img) = start_stack(top - 0x4_0000, top, &argv, 0x1_0000_0000).unwrap();
    assert_eq!(sp % 16, 0);
    assert_eq!(img.len() as u64, top - sp);
    assert_eq!(word(&img, 0), 0x1_0000_0000, "mainExecutable");
    assert_eq!(word(&img, 8), 2, "argc");
    assert_eq!(cstr(&img, sp, word(&img, 16)), b"/bin/hello");
    assert_eq!(cstr(&img, sp, word(&img, 24)), b"-v");
    assert_eq!(word(&img, 32), 0, "argv terminator");
    assert_eq!(word(&img, 40), 0, "empty environment");
    assert_eq!(cstr(&img, sp, word(&img, 48)), b"executable_path=/bin/hello");
    assert_eq!(cstr(&img, sp, word(&img, 56)), b"ptr_munge=0x1a2b3c4d5e6f7a8b");
    assert_eq!(cstr(&img, sp, word(&img, 64)), b"stack_guard=0x000a0b0c0d0e0f00");
    assert_eq!(cstr(&img, sp, word(&img, 72)), b"malloc_entropy=0x00112233445566778899aabbccddeeff");
    assert_eq!(word(&img, 80), 0, "apple terminator");
    assert_eq!(word(&img, 16) + 11, top, "the first string sits at the very top");
}

#[test]
fn a_start_stack_that_does_not_fit_is_refused() {
    let top = 0x1000u64;
    assert!(start_stack(top - 0x40, top, &[b"x".to_vec()], 0).is_none());
    assert!(start_stack(0, 0x80, &[], 0).is_none(), "the strings and words alone overflow it");
    assert!(start_stack(0x40, 0x100, &[], 0).is_none(), "the aligned sp would fall below the base");
    assert!(start_stack(0, 0x100, &[], 0).is_some());
}

#[test]
fn a_dynamic_guest_boots_in_dyld_with_the_executables_posture() {
    let b = dynamic_boot(0x1000, 0x8000_0002, 0x27f_ff00);
    assert!(b.pac_enabled, "an arm64e executable gets PAC");
    assert_eq!(b.pc, DYLD_BASE + 0x1000);
    assert_eq!(b.sp_el0, 0x27f_ff00);
    assert_eq!((b.cpacr, b.tpidrro_el0, b.tpidr_el0), (Some(CPACR_FP_ON), Some(TSD_IPA), Some(0)));
    assert_eq!((b.stack_top, b.stack_size), (DYN_STACK_TOP, DYN_STACK_SIZE));
    assert!(!dynamic_boot(0x1000, 0, 0x27f_ff00).pac_enabled, "plain arm64");
}

#[test]
fn a_static_guest_boots_at_its_entry_on_its_granule_stack() {
    let b = static_boot(0x1_0000_0460, false);
    assert_eq!(b.pc, 0x1_0000_0460);
    assert_eq!(b.sp_el0, STACK_TOP_IPA);
    assert_eq!(b.sctlr, 0x30d0_1805);
    assert_eq!(static_boot(0, true).sctlr, 0x30d0_1805 | 0xC800_2000);
    assert_eq!(b.cpacr, None);
}
