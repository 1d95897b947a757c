//! Entering a guest signal handler, as a pure plan: where the frame goes, its bytes, the
//! registers the handler starts with, and the mask and action it leaves behind. Record and replay
//! both compute it, which is what makes them push identical frames.
use vstd::prelude::*;
use crate::arch::{SA_NODEFER, SA_RESETHAND};
use crate::sig::{
    build_frame, choose_frame_base, entry_of, frame_base_in_range, frame_base_of, frame_bytes,
    frame_deliverable, valid_signal, Disposition, EntryRegs, FrameInput, NeonState, SigAction,
    ThreadState,
};
use crate::thread::sig_mask_bit;

verus! {

/// The stack pointer lies inside the installed alternate stack `[ss_sp, ss_sp + ss_size)`.
pub open spec fn within_altstack(altstack: Option<(u64, u64, u64)>, sp: u64) -> bool {
    match altstack {
        Some((base, size, _)) => base <= sp < base + size,
        None => false,
    }
}

/// Is the thread running on its alternate signal stack?
pub fn on_altstack(altstack: Option<(u64, u64, u64)>, sp: u64) -> (b: bool)
    ensures
        b == within_altstack(altstack, sp),
{
    match altstack {
        Some((base, size, _)) => sp >= base && (sp as u128) < base as u128 + size as u128,
        None => false,
    }
}

/// The mask a handler runs with: the pre-signal mask and `sa_mask`, and the signal itself unless
/// `SA_NODEFER`.
pub open spec fn handler_mask_of(mask: u32, act: SigAction, sig: u64) -> u32 {
    let m = mask | act.mask;
    if act.flags & SA_NODEFER == 0 {
        m | sig_mask_bit(sig)
    } else {
        m
    }
}

/// The mask a handler for `sig` runs with.
pub fn handler_mask(mask: u32, act: SigAction, sig: u64) -> (m: u32)
    requires
        valid_signal(sig),
    ensures
        m == handler_mask_of(mask, act, sig),
{
    let mut m = mask | act.mask;
    if act.flags & SA_NODEFER == 0 {
        let k = (sig - 1) as u32;
        m = m | (1u32 << k);
    }
    m
}

/// The action left installed after delivery: `SA_RESETHAND` resets the disposition to default
/// and keeps the rest.
pub open spec fn action_after_of(act: SigAction) -> SigAction {
    if act.flags & SA_RESETHAND != 0 {
        SigAction { disp: Disposition::Dfl, ..act }
    } else {
        act
    }
}

/// The action left installed after delivering with `act`.
pub fn action_after_delivery(act: SigAction) -> (a: SigAction)
    ensures
        a == action_after_of(act),
{
    if act.flags & SA_RESETHAND != 0 {
        SigAction { disp: Disposition::Dfl, ..act }
    } else {
        act
    }
}

/// Everything entering a handler changes.
#[derive(Debug, Clone)]
pub struct Delivery {
    /// Where the frame is written.
    pub frame_base: u64,
    /// The frame runs on the alternate stack.
    pub on_alt: bool,
    /// The frame's bytes.
    pub bytes: Vec<u8>,
    /// The registers the handler is entered with.
    pub entry: EntryRegs,
    /// The mask the handler runs with.
    pub mask: u32,
    /// The action left installed for the signal.
    pub action: SigAction,
    /// The interrupted pc: where `sigreturn` resumes.
    pub resume_pc: u64,
}

/// The frame input delivery builds.
pub open spec fn delivery_input(
    sig: u64,
    si_code: u64,
    si_addr: u64,
    esr: u64,
    far: u64,
    ts: ThreadState,
    ns: NeonState,
    mask: u32,
    act: SigAction,
    altstack: Option<(u64, u64, u64)>,
) -> FrameInput {
    let (base, on_alt) = frame_base_of(ts.sp, act, altstack, within_altstack(altstack, ts.sp));
    FrameInput {
        sig,
        si_code,
        si_addr,
        esr,
        far,
        ts,
        ns,
        mask,
        act,
        frame_base: base as u64,
        on_alt,
    }
}

/// Plan the entry into the handler for `sig` with action `act`, for a thread whose registers are
/// `ts`/`ns`, whose pre-signal mask is `mask` (what `sigreturn` restores), and whose alternate
/// stack is `altstack`. `esr`/`far` are the fault's syndrome for a fault-derived signal and 0 for a
/// self-raise.
pub fn plan_delivery(
    sig: u64,
    si_code: u64,
    si_addr: u64,
    esr: u64,
    far: u64,
    ts: ThreadState,
    ns: NeonState,
    mask: u32,
    act: SigAction,
    altstack: Option<(u64, u64, u64)>,
) -> (d: Delivery)
    requires
        valid_signal(sig),
        frame_base_in_range(ts.sp, act, altstack, within_altstack(altstack, ts.sp)),
        frame_deliverable(delivery_input(sig, si_code, si_addr, esr, far, ts, ns, mask, act, altstack)),
    ensures
        ({
            let inp = delivery_input(sig, si_code, si_addr, esr, far, ts, ns, mask, act, altstack);
            &&& d.frame_base == inp.frame_base
            &&& d.on_alt == inp.on_alt
            &&& d.bytes@ == frame_bytes(inp)
            &&& (d.entry.x@, d.entry.sp, d.entry.pc) == entry_of(inp)
            &&& d.mask == handler_mask_of(mask, act, sig)
            &&& d.action == action_after_of(act)
            &&& d.resume_pc == ts.pc
        }),
{
    let here = on_altstack(altstack, ts.sp);
    let (frame_base, on_alt) = choose_frame_base(ts.sp, act, altstack, here);
    let inp = FrameInput { sig, si_code, si_addr, esr, far, ts, ns, mask, act, frame_base, on_alt };
    let (bytes, entry) = build_frame(&inp);
    Delivery {
        frame_base,
        on_alt,
        bytes,
        entry,
        mask: handler_mask(mask, act, sig),
        action: action_after_delivery(act),
        resume_pc: ts.pc,
    }
}

} // verus!
