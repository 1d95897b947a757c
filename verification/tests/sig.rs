//! The disposition table, the sigaction and sigaltstack layouts, and the signal frame.
use retrace_box::sig::{
    Disposition, FRAME_LEN, FRAME_MCONTEXT_OFF, FRAME_SIGINFO_OFF, FRAME_UCONTEXT_OFF, FrameInput,
    NeonState, SigAction, SigTable, ThreadState, build_frame, choose_frame_base, decode_act,
    decode_stack, encode_oldact, encode_oldstack, sigreturn_token,
};
use retrace_box::arch::{SA_ONSTACK, SA_SIGINFO, SS_ONSTACK};

#[test]
fn fresh_table_is_all_default() {
    let t = SigTable::default();
    for sig in 1..32u64 {
        assert_eq!(t.action(sig).disp, Disposition::Dfl, "sig {sig}");
    }
}

#[test]
fn set_action_returns_the_previous_action() {
    let mut t = SigTable::default();
    let old = t.set_action(6, SigAction { disp: Disposition::Ign, tramp: 0, mask: 0, flags: 0 });
    assert_eq!(old.disp, Disposition::Dfl, "first install returns the default");
    let old = t.set_action(6, SigAction { disp: Disposition::Handler(0x1_0000), tramp: 0, mask: 3, flags: 4 });
    assert_eq!(old.disp, Disposition::Ign, "second install returns what the first set");
    assert_eq!(
        t.action(6),
        SigAction { disp: Disposition::Handler(0x1_0000), tramp: 0, mask: 3, flags: 4 }
    );
}

#[test]
fn decode_act_reads_mask_and_flags_from_past_sa_tramp() {
    let mut b = [0u8; 24];
    b[0..8].copy_from_slice(&0xdead_0000u64.to_le_bytes());
    b[8..16].copy_from_slice(&0xbeef_0000u64.to_le_bytes());
    b[16..20].copy_from_slice(&0x0000_00ffu32.to_le_bytes());
    b[20..24].copy_from_slice(&0x0000_0042u32.to_le_bytes());
    let a = decode_act(&b);
    assert_eq!(a.disp, Disposition::Handler(0xdead_0000));
    assert_eq!(a.mask, 0xff);
    assert_eq!(a.flags, 0x42);
}

#[test]
fn decode_act_maps_sig_dfl_and_sig_ign() {
    let mut b = [0u8; 24];
    b[0..8].copy_from_slice(&0u64.to_le_bytes());
    assert_eq!(decode_act(&b).disp, Disposition::Dfl);
    b[0..8].copy_from_slice(&1u64.to_le_bytes());
    assert_eq!(decode_act(&b).disp, Disposition::Ign);
}

#[test]
fn encode_oldact_is_exactly_16_bytes_with_no_sa_tramp() {
    let out = encode_oldact(SigAction {
        disp: Disposition::Handler(0xdead_0000),
        tramp: 0,
        mask: 0xff,
        flags: 0x42,
    });
    assert_eq!(out.len(), 16, "struct sigaction is 16 bytes — NOT struct __sigaction's 24");
    assert_eq!(u64::from_le_bytes(out[0..8].try_into().unwrap()), 0xdead_0000);
    assert_eq!(
        u32::from_le_bytes(out[8..12].try_into().unwrap()),
        0xff,
        "sa_mask sits at offset 8, where sa_tramp would be in the INPUT struct"
    );
    assert_eq!(u32::from_le_bytes(out[12..16].try_into().unwrap()), 0x42);
}

#[test]
fn encode_oldact_round_trips_dfl_and_ign_as_0_and_1() {
    let d = encode_oldact(SigAction { disp: Disposition::Dfl, tramp: 0, mask: 0, flags: 0 });
    assert_eq!(u64::from_le_bytes(d[0..8].try_into().unwrap()), 0);
    let i = encode_oldact(SigAction { disp: Disposition::Ign, tramp: 0, mask: 0, flags: 0 });
    assert_eq!(u64::from_le_bytes(i[0..8].try_into().unwrap()), 1);
}

#[test]
fn decode_stack_and_encode_oldstack_round_trip() {
    let mut b = [0u8; 24];
    b[0..8].copy_from_slice(&0x7000_0000u64.to_le_bytes());
    b[8..16].copy_from_slice(&0x4000u64.to_le_bytes());
    b[16..20].copy_from_slice(&0x1u32.to_le_bytes());
    let ss = decode_stack(&b);
    assert_eq!(ss, (0x7000_0000, 0x4000, 0x1));
    let out = encode_oldstack(ss);
    assert_eq!(
        out[0..20], b[0..20],
        "round trip must reproduce the same bytes decode_stack read"
    );
}

#[test]
fn encode_oldstack_is_24_bytes_with_ss_flags_at_16_and_zero_padding() {
    let out = encode_oldstack((0x9_0000, 0x2000, SS_ONSTACK));
    assert_eq!(out.len(), 24);
    assert_eq!(u64::from_le_bytes(out[0..8].try_into().unwrap()), 0x9_0000, "ss_sp at 0");
    assert_eq!(u64::from_le_bytes(out[8..16].try_into().unwrap()), 0x2000, "ss_size at 8");
    assert_eq!(
        u32::from_le_bytes(out[16..20].try_into().unwrap()),
        SS_ONSTACK as u32,
        "ss_flags at 16, narrowed to u32"
    );
    assert_eq!(&out[20..24], &[0u8; 4], "bytes 20..24 are padding and must be zero");
}

fn probe_ts() -> ThreadState {
    let mut x = [0u64; 29];
    for (i, xi) in x.iter_mut().enumerate() {
        *xi = 0x1000 + i as u64;
    }
    ThreadState { x, fp: 0xf000, lr: 0x1_0000, sp: 0x7fff_0000, pc: 0x1_2340, cpsr: 0x6000_0000 }
}

fn probe_input(base: u64) -> FrameInput {
    FrameInput {
        sig: 11,
        si_code: 1,
        si_addr: 0xdead_0000,
        esr: 0x9200_0046,
        far: 0xdead_0000,
        ts: probe_ts(),
        ns: NeonState { v: [0; 32], fpsr: 0, fpcr: 0 },
        mask: 0,
        act: SigAction {
            disp: Disposition::Handler(0xabc0),
            tramp: 0xdef0,
            mask: 0,
            flags: SA_SIGINFO,
        },
        frame_base: base,
        on_alt: false,
    }
}

#[test]
fn frame_offsets_match_the_measured_layout() {
    assert_eq!((FRAME_SIGINFO_OFF, FRAME_UCONTEXT_OFF, FRAME_MCONTEXT_OFF), (0, 104, 160));
    assert_eq!(FRAME_LEN, 976, "104 + 56 + 816");
}

#[test]
fn build_frame_lays_out_siginfo_at_offset_zero() {
    let (bytes, _) = build_frame(&probe_input(0x7000_0000));
    assert_eq!(bytes.len(), FRAME_LEN);
    let si = &bytes[FRAME_SIGINFO_OFF..];
    assert_eq!(u32::from_le_bytes(si[0..4].try_into().unwrap()), 11, "si_signo at 0");
    assert_eq!(u32::from_le_bytes(si[8..12].try_into().unwrap()), 1, "si_code at 8");
    assert_eq!(u64::from_le_bytes(si[24..32].try_into().unwrap()), 0xdead_0000, "si_addr at 24");
}

#[test]
fn build_frame_points_uc_mcontext_at_the_separate_block() {
    let base = 0x7000_0000u64;
    let (bytes, _) = build_frame(&probe_input(base));
    let uc = &bytes[FRAME_UCONTEXT_OFF..];
    assert_eq!(u32::from_le_bytes(uc[0..4].try_into().unwrap()), 0, "uc_onstack at 0");
    assert_eq!(u32::from_le_bytes(uc[4..8].try_into().unwrap()), 0, "uc_sigmask at 4");
    assert_eq!(u64::from_le_bytes(uc[40..48].try_into().unwrap()), 816, "uc_mcsize at 40");
    assert_eq!(
        u64::from_le_bytes(uc[48..56].try_into().unwrap()),
        base + FRAME_MCONTEXT_OFF as u64,
        "uc_mcontext at 48 is a POINTER to the mcontext block, not the mcontext itself"
    );
}

#[test]
fn build_frame_reports_uc_onstack_when_the_frame_is_on_the_alt_stack() {
    let base = 0x9_0000u64;
    let mut inp = probe_input(base);
    inp.on_alt = true;
    let (bytes, _) = build_frame(&inp);
    assert_eq!(
        u32::from_le_bytes(bytes[FRAME_UCONTEXT_OFF..FRAME_UCONTEXT_OFF + 4].try_into().unwrap()),
        SS_ONSTACK as u32,
        "uc_onstack must mirror choose_frame_base's on_alt"
    );
}

#[test]
fn build_frame_writes_the_exception_and_thread_state() {
    let base = 0x7000_0000u64;
    let (bytes, _) = build_frame(&probe_input(base));
    let mc = &bytes[FRAME_MCONTEXT_OFF..];
    assert_eq!(u64::from_le_bytes(mc[0..8].try_into().unwrap()), 0xdead_0000, "__es.__far");
    assert_eq!(u32::from_le_bytes(mc[8..12].try_into().unwrap()), 0x9200_0046, "__es.__esr");
    assert_eq!(u32::from_le_bytes(mc[12..16].try_into().unwrap()), 0, "__es.__exception");
    let ss = &mc[16..];
    assert_eq!(u64::from_le_bytes(ss[0..8].try_into().unwrap()), 0x1000, "__ss.__x[0]");
    assert_eq!(u64::from_le_bytes(ss[224..232].try_into().unwrap()), 0x1000 + 28, "__ss.__x[28]");
    assert_eq!(u64::from_le_bytes(ss[232..240].try_into().unwrap()), 0xf000, "__ss.__fp");
    assert_eq!(u64::from_le_bytes(ss[240..248].try_into().unwrap()), 0x1_0000, "__ss.__lr");
    assert_eq!(u64::from_le_bytes(ss[248..256].try_into().unwrap()), 0x7fff_0000, "__ss.__sp");
    assert_eq!(u64::from_le_bytes(ss[256..264].try_into().unwrap()), 0x1_2340, "__ss.__pc");
    assert_eq!(u32::from_le_bytes(ss[264..268].try_into().unwrap()), 0x6000_0000, "__ss.__cpsr");
}

#[test]
fn build_frame_writes_the_neon_block() {
    let base = 0x7000_0000u64;
    let mut inp = probe_input(base);
    inp.ns.v[8] = 0x1122_3344_5566_7788_99aa_bbcc_ddee_ff00;
    inp.ns.fpsr = 0x1234;
    inp.ns.fpcr = 0x5678;
    let (bytes, _) = build_frame(&inp);
    let ns = &bytes[FRAME_MCONTEXT_OFF + 288..];
    assert_eq!(
        u128::from_le_bytes(ns[128..144].try_into().unwrap()),
        0x1122_3344_5566_7788_99aa_bbcc_ddee_ff00,
        "v8 at neon+8*16"
    );
    assert_eq!(u32::from_le_bytes(ns[512..516].try_into().unwrap()), 0x1234, "fpsr");
    assert_eq!(u32::from_le_bytes(ns[516..520].try_into().unwrap()), 0x5678, "fpcr");
}

#[test]
fn build_frame_returns_the_measured_entry_registers() {
    let base = 0x7000_0000u64;
    let (_, regs) = build_frame(&probe_input(base));
    assert_eq!(regs.x[0], 0xabc0, "x0 = the catcher (handler VA)");
    assert_eq!(regs.x[1], 30, "x1 = infostyle UC_FLAVOR");
    assert_eq!(regs.x[2], 11, "x2 = the signal number");
    assert_eq!(regs.x[3], base, "x3 = siginfo*, which is the frame base");
    assert_eq!(regs.x[4], base + FRAME_UCONTEXT_OFF as u64, "x4 = ucontext*");
    assert_eq!(regs.x[5], sigreturn_token(base + FRAME_UCONTEXT_OFF as u64), "x5 = the token");
    assert_eq!(regs.sp, base, "sp == x3: the frame base IS sp");
    assert_eq!(regs.pc, 0xdef0, "pc = sa_tramp, NOT the handler — the kernel enters the trampoline");
}

#[test]
fn choose_frame_base_uses_the_current_stack_by_default() {
    let act = SigAction { disp: Disposition::Handler(1), tramp: 2, mask: 0, flags: 0 };
    let (base, on_alt) = choose_frame_base(0x7fff_1000, act, None, false);
    assert_eq!(base, 0x7fff_1000 - 128 - 976);
    assert_eq!(base % 16, 0, "arm64 requires a 16-byte aligned sp");
    assert!(!on_alt);
}

#[test]
fn choose_frame_base_honours_sa_onstack_when_an_altstack_is_installed() {
    let act = SigAction { disp: Disposition::Handler(1), tramp: 2, mask: 0, flags: SA_ONSTACK };
    let (base, on_alt) = choose_frame_base(0x7fff_1000, act, Some((0x9_0000, 0x4000, 0)), false);
    assert!(on_alt, "SA_ONSTACK + an installed alt stack means run on it");
    assert!(
        (0x9_0000..0x9_0000 + 0x4000).contains(&base),
        "the frame must sit INSIDE the alt stack [{:#x}, {:#x})",
        0x9_0000,
        0x9_0000 + 0x4000
    );
    assert_eq!(base, (0x9_0000 + 0x4000 - FRAME_LEN as u64) & !15);
}

#[test]
fn choose_frame_base_does_not_re_enter_an_altstack_it_is_already_on() {
    let act = SigAction { disp: Disposition::Handler(1), tramp: 2, mask: 0, flags: SA_ONSTACK };
    let sp_on_alt = 0x9_2000;
    let (base, on_alt) = choose_frame_base(sp_on_alt, act, Some((0x9_0000, 0x4000, 0)), true);
    assert!(on_alt, "still on the alt stack");
    assert_eq!(
        base,
        sp_on_alt - 128 - 976,
        "already on it: keep growing DOWN from the current sp, do not reset to its top and \
         clobber the frame the outer handler is running on"
    );
}

#[test]
fn choose_frame_base_ignores_sa_onstack_with_no_altstack_installed() {
    let act = SigAction { disp: Disposition::Handler(1), tramp: 2, mask: 0, flags: SA_ONSTACK };
    let (base, on_alt) = choose_frame_base(0x7fff_1000, act, None, false);
    assert_eq!(base, 0x7fff_1000 - 128 - 976);
    assert!(!on_alt);
}

#[test]
fn sigreturn_token_is_deterministic_and_address_dependent() {
    assert_eq!(
        sigreturn_token(0x7000_0068),
        sigreturn_token(0x7000_0068),
        "a CONSTANT, unlike the host's process-randomized token, which must not enter a recording"
    );
    assert_ne!(sigreturn_token(0x7000_0068), sigreturn_token(0x7000_0078));
}

#[test]
fn decode_act_now_captures_sa_tramp() {
    let mut b = [0u8; 24];
    b[0..8].copy_from_slice(&0xdead_0000u64.to_le_bytes());
    b[8..16].copy_from_slice(&0xbeef_0000u64.to_le_bytes());
    let a = decode_act(&b);
    assert_eq!(a.disp, Disposition::Handler(0xdead_0000));
    assert_eq!(a.tramp, 0xbeef_0000, "the kernel enters the TRAMPOLINE, not the handler");
}

#[test]
fn encode_oldact_still_omits_sa_tramp() {
    let out = encode_oldact(SigAction {
        disp: Disposition::Handler(0xdead_0000),
        tramp: 0xbeef_0000,
        mask: 0xff,
        flags: 0x42,
    });
    assert_eq!(out.len(), 16, "struct sigaction is 16 bytes and has NO sa_tramp");
    assert_eq!(
        u32::from_le_bytes(out[8..12].try_into().unwrap()),
        0xff,
        "sa_mask sits at offset 8 — if tramp leaked in here it would land at 8 and corrupt it"
    );
}
