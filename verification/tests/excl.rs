//! Store-exclusive emulation and the backward scan that infers a lost monitor.
use retrace_box::excl::{
    Excl, SetBy, StxPlan, base_aliases_dest, dests_match, el0_writable, plan_stx, regs_written,
    scan_back,
};
use retrace_box::arch::{ExclInsn};
use retrace_box::layout::{ATTR_CODE, ATTR_DATA, ATTR_NONE, ATTR_TRAMP};
use retrace_box::excl::infer;

const A_STX: ExclInsn = ExclInsn::Store { size: 4, pair: false, rs: 31, rt: 0, rt2: 31, rn: 9 };

const B_STX: ExclInsn = ExclInsn::Store { size: 8, pair: false, rs: 2, rt: 1, rt2: 31, rn: 0 };

const D_STX: ExclInsn = ExclInsn::Store { size: 8, pair: true, rs: 3, rt: 4, rt2: 5, rn: 0 };

const CELLA: u64 = 0x1_0000_4000;

const CTR: u64 = 0x1_0000_4040;

const CAS: u64 = 0x1_0000_4080;

const PAIR: u64 = 0x1_0000_40c0;

const CELLF: u64 = 0x1_0000_4180;

const A_P: u64 = 0x1_0000_0394;

const A_L: u64 = 0x1_0000_038c;

const A_WORDS: [u32; 5] = [0x3500_004a, 0x885f_7d2a, 0x5288_4840, 0x9100_0129, 0x9000_0029];

const A_ENTRY: u64 = 0x1_0000_0380;

const B_P: u64 = 0x1_0000_03e8;

const B_WORDS: [u32; 4] = [0x9100_0421, 0xc85f_fc01, 0x9100_0694, 0xd280_0014];

const B_ENTRY: u64 = 0x1_0000_03cc;

const C_P: u64 = 0x1_0000_0440;

const C_WORDS: [u32; 4] = [0x5400_0061, 0xeb03_003f, 0xc85f_fc01, 0x9100_0694];

const C_ENTRY: u64 = 0x1_0000_041c;

const D_P: u64 = 0x1_0000_0488;

const D_WORDS: [u32; 4] = [0x9100_5045, 0x9100_2824, 0xc87f_0801, 0x9100_0694];

const D_ENTRY: u64 = 0x1_0000_046c;

const F_P: u64 = 0x1_0000_0500;

const F_WORDS: [u32; 4] = [0xd53b_e047, 0x885f_7c06, 0x5280_00e1, 0x9106_0000];

struct Pe { x: [u64; 31], sp: u64, cell: u64, mem: Vec<u8> }

impl Pe {
    fn new(cell: u64, mem: &[u8]) -> Pe { Pe { x: [0; 31], sp: 0, cell, mem: mem.to_vec() } }
    fn x(mut self, r: usize, v: u64) -> Pe { self.x[r] = v; self }
    fn infer(&self, words: &[u32], p: u64, entry_pc: u64) -> Option<Excl> {
        infer(words, p, entry_pc, &self.x, self.sp, |va, len| {
            if va == self.cell && len <= self.mem.len() { Some(self.mem[..len].to_vec()) } else { None }
        })
    }
}

fn shadow(va: u64, size: u8, pair: bool, loaded: &[u8]) -> Excl {
    Excl { va, size, pair, loaded: loaded.to_vec(), by: SetBy::Stepped }
}

#[test]
fn a_matching_store_plans_its_bytes_and_its_status() {
    let ex = shadow(0x1_0000_4000, 4, false, &[0; 4]);
    assert_eq!(plan_stx(&ex, A_STX, 0x1_0000_4000, 0x4242, 0, Some(&[0; 4]), true),
        Ok(StxPlan { va: 0x1_0000_4000, bytes: vec![0x42, 0x42, 0, 0], status: None }));
    let two = 2u64.to_le_bytes();
    let ex = shadow(0x1_0000_4040, 8, false, &two);
    assert_eq!(plan_stx(&ex, B_STX, 0x1_0000_4040, 3, 0, Some(&two), true),
        Ok(StxPlan { va: 0x1_0000_4040, bytes: 3u64.to_le_bytes().to_vec(), status: Some(2) }));
}

#[test]
fn a_pair_writes_both_elements_in_order() {
    let loaded: Vec<u8> = [1u64.to_le_bytes(), 2u64.to_le_bytes()].concat();
    let ex = shadow(0x1_0000_40c0, 8, true, &loaded);
    let p = plan_stx(&ex, D_STX, 0x1_0000_40c0, 11, 22, Some(&loaded), true).unwrap();
    assert_eq!(p.bytes, [11u64.to_le_bytes(), 22u64.to_le_bytes()].concat());
    assert_eq!(p.status, Some(3));
}

#[test]
fn a_tagged_base_is_stripped_before_it_is_compared() {
    let ex = shadow(0x1_0000_4000, 4, false, &[0; 4]);
    let p = plan_stx(&ex, A_STX, 0x5a00_0001_0000_4000, 7, 0, Some(&[0; 4]), true).unwrap();
    assert_eq!(p.va, 0x1_0000_4000);
}

#[test]
fn a_store_that_does_not_match_the_load_is_refused() {
    let ex = shadow(0x1_0000_4000, 4, false, &[0; 4]);
    let other_va = plan_stx(&ex, A_STX, 0x1_0000_4004, 0, 0, Some(&[0; 4]), true).unwrap_err().message();
    assert!(other_va.contains("does not match the load"), "{other_va}");
    let wider = ExclInsn::Store { size: 8, pair: false, rs: 31, rt: 0, rt2: 31, rn: 9 };
    assert!(plan_stx(&ex, wider, 0x1_0000_4000, 0, 0, Some(&[0; 8]), true).unwrap_err().message().contains("does not match"));
    let paired = ExclInsn::Store { size: 4, pair: true, rs: 31, rt: 0, rt2: 1, rn: 9 };
    assert!(plan_stx(&ex, paired, 0x1_0000_4000, 0, 0, Some(&[0; 8]), true).unwrap_err().message().contains("does not match"));
}

#[test]
fn a_misaligned_address_is_refused() {
    let ex = shadow(0x1_0000_4002, 4, false, &[0; 4]);
    assert!(plan_stx(&ex, A_STX, 0x1_0000_4002, 0, 0, Some(&[0; 4]), true).unwrap_err().message().contains("aligned"));
}

#[test]
fn every_aliasing_status_register_is_refused_and_an_sp_base_is_not_wzr() {
    let ex = shadow(0x1_0000_4000, 8, false, &[0; 8]);
    let s_is_t = ExclInsn::Store { size: 8, pair: false, rs: 1, rt: 1, rt2: 31, rn: 0 };
    let s_is_n = ExclInsn::Store { size: 8, pair: false, rs: 0, rt: 1, rt2: 31, rn: 0 };
    let zr_zr = ExclInsn::Store { size: 8, pair: false, rs: 31, rt: 31, rt2: 31, rn: 0 };
    for st in [s_is_t, s_is_n, zr_zr] {
        let e = plan_stx(&ex, st, 0x1_0000_4000, 0, 0, Some(&[0; 8]), true).unwrap_err().message();
        assert!(e.contains("aliases"), "{st:?}: {e}");
    }
    let exp = shadow(0x1_0000_40c0, 8, true, &[0; 16]);
    let s_is_t2 = ExclInsn::Store { size: 8, pair: true, rs: 5, rt: 4, rt2: 5, rn: 0 };
    assert!(plan_stx(&exp, s_is_t2, 0x1_0000_40c0, 0, 0, Some(&[0; 16]), true).unwrap_err().message().contains("aliases"));
    let sp = ExclInsn::Store { size: 8, pair: false, rs: 31, rt: 1, rt2: 31, rn: 31 };
    assert!(plan_stx(&ex, sp, 0x1_0000_4000, 9, 0, Some(&[0; 8]), true).is_ok());
}

#[test]
fn drifted_bytes_an_unmapped_target_and_a_read_only_page_are_refused() {
    let ex = shadow(0x1_0000_4000, 4, false, &[0; 4]);
    assert!(plan_stx(&ex, A_STX, 0x1_0000_4000, 0, 0, Some(&[1, 0, 0, 0]), true).unwrap_err().message().contains("changed since the load"));
    assert!(plan_stx(&ex, A_STX, 0x1_0000_4000, 0, 0, None, true).unwrap_err().message().contains("unmapped"));
    assert!(plan_stx(&ex, A_STX, 0x1_0000_4000, 0, 0, Some(&[0; 4]), false).unwrap_err().message().contains("EL0-writable"));
}

#[test]
fn only_the_data_attribute_is_el0_writable() {
    assert!(el0_writable(ATTR_DATA));
    assert!(!el0_writable(ATTR_CODE));
    assert!(!el0_writable(ATTR_TRAMP));
    assert!(!el0_writable(ATTR_NONE));
}

#[test]
fn a_base_that_is_also_a_destination_is_flagged_and_sp_never_is() {
    assert!(base_aliases_dest(ExclInsn::Load { size: 8, pair: false, rt: 0, rt2: 31, rn: 0 }));
    assert!(base_aliases_dest(ExclInsn::Load { size: 8, pair: true, rt: 1, rt2: 0, rn: 0 }));
    assert!(!base_aliases_dest(ExclInsn::Load { size: 8, pair: false, rt: 31, rt2: 31, rn: 31 }));
    assert!(!base_aliases_dest(ExclInsn::Load { size: 4, pair: false, rt: 10, rt2: 31, rn: 9 }));
}

#[test]
fn the_scan_finds_the_nearest_load_across_neutral_instructions() {
    assert_eq!(scan_back(&[0x3500_004a, 0x885f_7d2a]).map(|(i, _)| i), Some(1));
    assert_eq!(scan_back(&[0x9100_0421, 0xc85f_fc01]).map(|(i, _)| i), Some(1));
    assert!(scan_back(&[0xd53b_e047, 0x885f_7c06]).is_some());
}

#[test]
fn the_scan_stops_at_a_store_exclusive_a_clrex_or_a_barrier() {
    assert_eq!(scan_back(&[0x881f_7d20, 0x885f_7d2a]), None);
    assert_eq!(scan_back(&[0xd503_3f5f, 0x885f_7d2a]), None);
    assert_eq!(scan_back(&[0xd400_1001, 0x885f_7d2a]), None);
    assert_eq!(scan_back(&[0x1400_0002, 0x885f_7d2a]), None);
    assert_eq!(scan_back(&[0xd65f_03c0, 0x885f_7d2a]), None);
    assert_eq!(scan_back(&[0xd503_201f; 16]), None);
}

#[test]
fn the_destination_check_compares_each_element_and_skips_xzr() {
    let ldxr = ExclInsn::Load { size: 4, pair: false, rt: 10, rt2: 31, rn: 9 };
    assert!(dests_match(ldxr, 0x4242, 0, &[0x42, 0x42, 0, 0]));
    assert!(!dests_match(ldxr, 0x4343, 0, &[0x42, 0x42, 0, 0]));
    let ldxp = ExclInsn::Load { size: 8, pair: true, rt: 1, rt2: 2, rn: 0 };
    let b: Vec<u8> = [1u64.to_le_bytes(), 2u64.to_le_bytes()].concat();
    assert!(dests_match(ldxp, 1, 2, &b));
    assert!(!dests_match(ldxp, 1, 3, &b));
    let xzr = ExclInsn::Load { size: 8, pair: false, rt: 31, rt2: 31, rn: 0 };
    assert!(dests_match(xzr, 99, 0, &[7; 8]), "ldxr xzr loads nothing to compare");
}

#[test]
fn a_data_processing_instruction_writes_its_rd() {
    assert_eq!(regs_written(&[0x9100_0421]), Some(1 << 1));
    assert_eq!(regs_written(&[0x9100_5045, 0x9100_2824]), Some(1 << 4 | 1 << 5));
    assert_eq!(regs_written(&[0x1a8a_516c, 0x7100_054a, 0x1280_000b]), Some(1 << 10 | 1 << 11 | 1 << 12));
    assert_eq!(regs_written(&[0xeb03_003f]), Some(1 << 31));
    assert_eq!(regs_written(&[]), Some(0), "an adjacent pair has nothing between its halves");
}

#[test]
fn a_conditional_branch_writes_nothing() {
    assert_eq!(regs_written(&[0x3500_004a]), Some(0));
    assert_eq!(regs_written(&[0x5400_0141]), Some(0));
    assert_eq!(regs_written(&[0x3618_0122]), Some(0));
}

#[test]
fn an_instruction_with_unknown_register_effects_infers_nothing() {
    assert_eq!(regs_written(&[0xb940_012b]), None);
    assert_eq!(regs_written(&[0xf800_8521]), None);
    assert_eq!(regs_written(&[0xd53b_e047]), None);
    assert_eq!(regs_written(&[0x9e67_0020]), None);
    assert_eq!(regs_written(&[0x9100_0421, 0xb940_012b, 0x3500_004a]), None);
}

#[test]
fn an_sp_base_is_refused_by_any_rd_of_31() {
    let written = regs_written(&[0x9100_43ff]).unwrap();
    assert_ne!(written & (1 << 31), 0);
    assert_ne!(regs_written(&[0xeb03_003f]).unwrap() & (1 << 31), 0);
}

fn inferred(va: u64, size: u8, pair: bool, loaded: &[u8]) -> Option<Excl> {
    Some(Excl { va, size, pair, loaded: loaded.to_vec(), by: SetBy::Inferred })
}

fn pe_a() -> Pe { Pe::new(CELLA, &[0; 4]).x(9, CELLA).x(0, 0x4242) }

fn pe_b() -> Pe { Pe::new(CTR, &[0; 8]).x(0, CTR).x(1, 1) }

#[test]
fn infer_positive_the_fixtures_stores_infer_their_shadow() {
    assert_eq!(pe_a().infer(&A_WORDS, A_P, A_ENTRY), inferred(CELLA, 4, false, &[0; 4]));
    assert_eq!(pe_b().infer(&B_WORDS, B_P, B_ENTRY), inferred(CTR, 8, false, &[0; 8]));
    let five = 5u64.to_le_bytes();
    let c = Pe::new(CAS, &five).x(0, CAS).x(1, 5).x(3, 5).x(4, 9);
    assert_eq!(c.infer(&C_WORDS, C_P, C_ENTRY), inferred(CAS, 8, false, &five));
    let pair: Vec<u8> = [1u64.to_le_bytes(), 2u64.to_le_bytes()].concat();
    let d = Pe::new(PAIR, &pair).x(0, PAIR).x(1, 1).x(2, 2).x(4, 11).x(5, 22);
    assert_eq!(d.infer(&D_WORDS, D_P, D_ENTRY), inferred(PAIR, 8, true, &pair));
}

#[test]
fn infer_positive_a_tagged_base_is_stripped() {
    let a = pe_a().x(9, 0x5a00_0000_0000_0000 | CELLA);
    assert_eq!(a.infer(&A_WORDS, A_P, A_ENTRY), inferred(CELLA, 4, false, &[0; 4]));
}

#[test]
fn infer_condition_1_an_entry_inside_l_to_p_infers_nothing() {
    assert_eq!(pe_a().infer(&A_WORDS, A_P, A_P), None, "entry at P itself");
    assert_eq!(pe_a().infer(&A_WORDS, A_P, A_L + 4), None, "entry just after the load");
    assert!(pe_a().infer(&A_WORDS, A_P, A_L).is_some(), "entry AT the load");
    assert!(pe_a().infer(&A_WORDS, A_P, A_ENTRY).is_some(), "entry before the load");
}

#[test]
fn infer_condition_1_and_5_each_refuse_the_fixtures_reentry_shape() {
    let f = Pe::new(CELLF, &[0; 4]).x(0, CELLF).x(1, 7);
    assert_eq!(f.infer(&F_WORDS, F_P, F_P), None);
    assert_eq!(f.infer(&F_WORDS, F_P, 0x1_0000_04ec), None);
}

#[test]
fn infer_condition_2_a_base_that_the_load_overwrote_infers_nothing() {
    let e = Pe::new(CELLA, &CELLA.to_le_bytes()).x(9, CELLA);
    assert_eq!(e.infer(&[0xc85f_7d29], A_P, A_ENTRY), None);
}

#[test]
fn infer_condition_3_an_untouched_destination_that_differs_infers_nothing() {
    assert_eq!(pe_a().x(10, 0x4343).infer(&A_WORDS, A_P, A_ENTRY), None);
    let pair: Vec<u8> = [1u64.to_le_bytes(), 2u64.to_le_bytes()].concat();
    let d = Pe::new(PAIR, &pair).x(0, PAIR).x(1, 1).x(2, 3);
    assert_eq!(d.infer(&D_WORDS, D_P, D_ENTRY), None);
    assert!(pe_b().infer(&B_WORDS, B_P, B_ENTRY).is_some());
}

#[test]
fn infer_condition_4_an_unmapped_target_infers_nothing() {
    let unmapped = Pe::new(0xdead_0000, &[0; 8]).x(0, CTR).x(1, 1);
    assert_eq!(unmapped.infer(&B_WORDS, B_P, B_ENTRY), None);
}

#[test]
fn infer_condition_5_an_unknown_instruction_between_the_halves_infers_nothing() {
    let a = pe_a();
    assert_eq!(a.infer(&[0xb940_012b, 0x885f_7d2a], A_P, A_ENTRY), None);
}

#[test]
fn infer_condition_5_an_instruction_that_writes_the_base_infers_nothing() {
    assert_eq!(pe_a().infer(&[0x9100_2129, 0x885f_7d2a], A_P, A_ENTRY), None);
}

#[test]
fn infer_condition_5_an_sp_base_is_refused_by_any_rd_of_31() {
    let sp_base = |mut pe: Pe| { pe.sp = CELLA; pe };
    let pe = || sp_base(Pe::new(CELLA, &7u64.to_le_bytes()).x(1, 7));
    assert_eq!(pe().infer(&[0x9100_43ff, 0xc85f_7fe1], A_P, A_ENTRY), None);
    assert_eq!(pe().infer(&[0xeb03_003f, 0xc85f_7fe1], A_P, A_ENTRY), None);
    assert_eq!(pe().infer(&[0xb500_0061, 0xc85f_7fe1], A_P, A_ENTRY), inferred(CELLA, 8, false, &7u64.to_le_bytes()));
}

#[test]
fn a_store_wider_than_any_element_is_refused_as_a_mismatch() {
    let ex = shadow(0x1_0000_4000, 8, false, &[0; 8]);
    let huge = ExclInsn::Store { size: 16, pair: false, rs: 31, rt: 0, rt2: 31, rn: 9 };
    let e = plan_stx(&ex, huge, 0x1_0000_4000, 0, 0, Some(&[0; 8]), true).unwrap_err().message();
    assert!(e.contains("does not match"), "{e}");
}
