//! Planning entry into a guest signal handler.
use retrace_box::arch::{SA_NODEFER, SA_ONSTACK, SA_RESETHAND, SA_SIGINFO, UC_FLAVOR};
use retrace_box::deliver::{action_after_delivery, handler_mask, on_altstack, plan_delivery};
use retrace_box::sig::{
    sigreturn_token, Disposition, NeonState, SigAction, ThreadState, FRAME_LEN, FRAME_SLACK,
};

const HANDLER: u64 = 0x1_0000_4000;
const TRAMP: u64 = 0x1_0000_8000;

fn ts(sp: u64) -> ThreadState {
    let mut x = [0u64; 29];
    for (i, r) in x.iter_mut().enumerate() {
        *r = 0x100 + i as u64;
    }
    ThreadState { x, fp: 0xf0, lr: 0xf8, sp, pc: 0x1_0000_1234, cpsr: 0x6000_0000 }
}

fn ns() -> NeonState {
    let mut v = [0u128; 32];
    v[0] = 0x1111_2222_3333_4444_5555_6666_7777_8888;
    NeonState { v, fpsr: 0x10, fpcr: 0x20 }
}

fn act(flags: u32, mask: u32) -> SigAction {
    SigAction { disp: Disposition::Handler(HANDLER), tramp: TRAMP, mask, flags }
}

fn u32_at(b: &[u8], o: usize) -> u32 {
    u32::from_le_bytes(b[o..o + 4].try_into().unwrap())
}

fn u64_at(b: &[u8], o: usize) -> u64 {
    u64::from_le_bytes(b[o..o + 8].try_into().unwrap())
}

#[test]
fn the_handler_runs_with_the_signal_and_its_sa_mask_blocked() {
    assert_eq!(handler_mask(0b1, act(SA_SIGINFO, 0b100), 5), 0b1 | 0b100 | (1 << 4));
    assert_eq!(handler_mask(0b1, act(SA_SIGINFO | SA_NODEFER, 0b100), 5), 0b101, "SA_NODEFER");
}

#[test]
fn sa_resethand_leaves_the_default_installed() {
    let a = act(SA_SIGINFO | SA_RESETHAND, 0);
    let after = action_after_delivery(a);
    assert_eq!(after.disp, Disposition::Dfl);
    assert_eq!(after.tramp, TRAMP);
    assert_eq!(action_after_delivery(act(SA_SIGINFO, 0)), act(SA_SIGINFO, 0));
}

#[test]
fn the_alternate_stack_holds_its_own_range_only() {
    let alt = Some((0x2000_0000u64, 0x8000u64, 0u64));
    assert!(on_altstack(alt, 0x2000_0000));
    assert!(on_altstack(alt, 0x2000_7fff));
    assert!(!on_altstack(alt, 0x2000_8000));
    assert!(!on_altstack(None, 0x2000_0000));
}

#[test]
fn a_plain_delivery_writes_the_frame_below_sp_and_enters_the_trampoline() {
    let sp = 0x3000_0000u64;
    let d = plan_delivery(11, 2, 0xdead_0000, 0x9200_0046, 0xdead_0000, ts(sp), ns(), 0b10, act(SA_SIGINFO, 0), None);
    let base = (sp - FRAME_SLACK - FRAME_LEN as u64) & !15;
    assert_eq!(d.frame_base, base);
    assert!(!d.on_alt);
    assert_eq!(d.bytes.len(), FRAME_LEN);
    assert_eq!(u32_at(&d.bytes, 0), 11, "si_signo");
    assert_eq!(u32_at(&d.bytes, 8), 2, "si_code");
    assert_eq!(u64_at(&d.bytes, 24), 0xdead_0000, "si_addr");
    assert_eq!(u32_at(&d.bytes, 104 + 4), 0b10, "the frame records the pre-signal mask");
    assert_eq!(u64_at(&d.bytes, 104 + 48), base + 160, "uc_mcontext points at the mcontext");
    assert_eq!(u64_at(&d.bytes, 160), 0xdead_0000, "far");
    assert_eq!(u64_at(&d.bytes, 160 + 16), 0x100, "x0");
    assert_eq!(u64_at(&d.bytes, 160 + 16 + 232), 0xf0, "fp");
    assert_eq!(u64_at(&d.bytes, 160 + 16 + 240), 0xf8, "lr");
    assert_eq!(u64_at(&d.bytes, 160 + 16 + 248), sp, "sp");
    assert_eq!(u64_at(&d.bytes, 160 + 16 + 256), 0x1_0000_1234, "pc");
    assert_eq!(d.entry.pc, TRAMP);
    assert_eq!(d.entry.sp, base);
    assert_eq!(d.entry.x, [HANDLER, UC_FLAVOR, 11, base, base + 104, sigreturn_token(base + 104)]);
    assert_eq!(d.mask, 0b10 | (1 << 10));
    assert_eq!(d.resume_pc, 0x1_0000_1234);
}

#[test]
fn an_onstack_delivery_uses_the_top_of_the_alternate_stack() {
    let alt = Some((0x2000_0000u64, 0x8000u64, 0u64));
    let d = plan_delivery(30, 0, 0, 0, 0, ts(0x3000_0000), ns(), 0, act(SA_SIGINFO | SA_ONSTACK, 0), alt);
    assert!(d.on_alt);
    assert_eq!(d.frame_base, (0x2000_8000 - FRAME_LEN as u64) & !15);
    assert_eq!(u32_at(&d.bytes, 104), 1, "uc_onstack says so");
}
