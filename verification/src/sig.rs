//! The guest's signal dispositions and the pure layout of a delivered signal frame.
//!
//! The disposition table is a function of the guest's own `sigaction` calls, identical on record
//! and replay, so nothing here enters the trace. The frame a real kernel pushes before entering
//! `sa_tramp` is a function of its inputs alone, which is why record and replay produce identical
//! bytes.
use vstd::prelude::*;
use vstd::bytes::{
    spec_u128_to_le_bytes, spec_u32_from_le_bytes, spec_u32_to_le_bytes, spec_u64_from_le_bytes,
    spec_u64_to_le_bytes, u128_to_le_bytes, u32_from_le_bytes, u32_to_le_bytes,
    u64_from_le_bytes, u64_to_le_bytes,
};
use crate::arch::{NSIG, SA_ONSTACK, SA_SIGINFO, SIG_DFL, SIG_IGN, SS_ONSTACK, UC_FLAVOR};
use crate::le::{put, write_arr, write_at, zeroed, zeros};

verus! {

/// What the guest asked to happen when a signal arrives.
#[derive(Debug, Clone, Copy, PartialEq, Eq, Structural)]
pub enum Disposition {
    Dfl,
    Ign,
    Handler(u64),
}

/// One signal's action, as installed by `sigaction`.
#[derive(Debug, Clone, Copy, PartialEq, Eq, Structural)]
pub struct SigAction {
    pub disp: Disposition,
    /// `sa_tramp`, offset 8 of the 24-byte input struct: the kernel enters the trampoline, not
    /// the handler.
    pub tramp: u64,
    pub mask: u32,
    pub flags: u32,
}

/// The action of a fresh process: default disposition, nothing else set.
pub open spec fn default_sigaction() -> SigAction {
    SigAction { disp: Disposition::Dfl, tramp: 0, mask: 0, flags: 0 }
}

impl Default for SigAction {
    fn default() -> (r: Self)
        ensures
            r == default_sigaction(),
    {
        SigAction { disp: Disposition::Dfl, tramp: 0, mask: 0, flags: 0 }
    }
}

/// Per-signal dispositions, process-wide. Indexed by signal number; entry 0 is unused so
/// indexing mirrors signal numbering (1..=31).
#[derive(Debug, Clone)]
pub struct SigTable {
    disp: [SigAction; 32],
}

/// A signal number the table can represent: 1..NSIG.
pub open spec fn valid_signal(sig: u64) -> bool {
    1 <= sig < NSIG
}

impl View for SigTable {
    type V = Seq<SigAction>;

    closed spec fn view(&self) -> Seq<SigAction> {
        self.disp@
    }
}

impl Default for SigTable {
    /// All-default, which is correct for a fresh process.
    fn default() -> (r: Self)
        ensures
            r@.len() == NSIG,
            forall|i: int| 0 <= i < NSIG ==> r@[i] == default_sigaction(),
    {
        SigTable { disp: [SigAction { disp: Disposition::Dfl, tramp: 0, mask: 0, flags: 0 }; 32] }
    }
}

impl SigTable {
    fn idx(sig: u64) -> (i: usize)
        requires
            valid_signal(sig),
        ensures
            i == sig,
            i < 32,
    {
        sig as usize
    }

    /// The action installed for `sig`.
    pub fn action(&self, sig: u64) -> (a: SigAction)
        requires
            valid_signal(sig),
        ensures
            a == self@[sig as int],
            self@.len() == NSIG,
    {
        self.disp[Self::idx(sig)]
    }

    /// A copy of the table.
    pub fn copied(&self) -> (r: SigTable)
        ensures
            r@ == self@,
            r@.len() == NSIG,
    {
        SigTable { disp: self.disp }
    }

    /// Install `a` for `sig`, returning the previous action.
    pub fn set_action(&mut self, sig: u64, a: SigAction) -> (prev: SigAction)
        requires
            valid_signal(sig),
        ensures
            prev == old(self)@[sig as int],
            final(self)@ == old(self)@.update(sig as int, a),
            old(self)@.len() == NSIG,
            final(self)@.len() == NSIG,
    {
        let i = Self::idx(sig);
        let prev = self.disp[i];
        self.disp[i] = a;
        prev
    }
}

/// Installing `a` for `sig` is read back by `action(sig)`, and every other signal keeps the action
/// it had.
pub proof fn lemma_set_action_reads_back(before: SigTable, after: SigTable, sig: u64, a: SigAction)
    requires
        valid_signal(sig),
        before@.len() == NSIG,
        after@ == before@.update(sig as int, a),
    ensures
        after@[sig as int] == a,
        forall|s: u64| valid_signal(s) && s != sig ==> after@[s as int] == before@[s as int],
{
}

/// The handler word a disposition is encoded as: `SIG_DFL` (0), `SIG_IGN` (1), or the handler VA.
pub open spec fn disposition_word(d: Disposition) -> u64 {
    match d {
        Disposition::Dfl => SIG_DFL,
        Disposition::Ign => SIG_IGN,
        Disposition::Handler(va) => va,
    }
}

/// The disposition a handler word decodes to.
pub open spec fn disposition_of(h: u64) -> Disposition {
    if h == SIG_DFL {
        Disposition::Dfl
    } else if h == SIG_IGN {
        Disposition::Ign
    } else {
        Disposition::Handler(h)
    }
}

/// The `struct __sigaction` (24 bytes) the bytes hold: handler at 0, `sa_tramp` at 8, `sa_mask`
/// at 16 and `sa_flags` at 20.
pub open spec fn sigaction_of(b: Seq<u8>) -> SigAction {
    SigAction {
        disp: disposition_of(spec_u64_from_le_bytes(b.subrange(0, 8))),
        tramp: spec_u64_from_le_bytes(b.subrange(8, 16)),
        mask: spec_u32_from_le_bytes(b.subrange(16, 20)),
        flags: spec_u32_from_le_bytes(b.subrange(20, 24)),
    }
}

/// Decode the ACT argument of `sigaction`: `struct __sigaction`, 24 bytes.
pub fn decode_act(bytes: &[u8]) -> (a: SigAction)
    requires
        bytes@.len() >= 24,
    ensures
        a == sigaction_of(bytes@),
{
    let h = u64_from_le_bytes(&bytes[0..8]);
    let disp = if h == SIG_DFL {
        Disposition::Dfl
    } else if h == SIG_IGN {
        Disposition::Ign
    } else {
        Disposition::Handler(h)
    };
    SigAction {
        disp,
        tramp: u64_from_le_bytes(&bytes[8..16]),
        mask: u32_from_le_bytes(&bytes[16..20]),
        flags: u32_from_le_bytes(&bytes[20..24]),
    }
}

/// The OLDACT writeback, `struct sigaction`: 16 bytes, handler at 0, `sa_mask` at 8, `sa_flags`
/// at 12 (the input struct's `sa_tramp` is absent).
pub open spec fn oldact_bytes(a: SigAction) -> Seq<u8> {
    spec_u64_to_le_bytes(disposition_word(a.disp)) + spec_u32_to_le_bytes(a.mask)
        + spec_u32_to_le_bytes(a.flags)
}

/// Encode the OLDACT writeback: exactly 16 bytes, so it cannot write past the guest's struct.
pub fn encode_oldact(a: SigAction) -> (o: [u8; 16])
    ensures
        o@ == oldact_bytes(a),
{
    let h = match a.disp {
        Disposition::Dfl => SIG_DFL,
        Disposition::Ign => SIG_IGN,
        Disposition::Handler(va) => va,
    };
    proof {
        vstd::bytes::lemma_auto_spec_u64_to_from_le_bytes();
        vstd::bytes::lemma_auto_spec_u32_to_from_le_bytes();
    }
    let mut o = [0u8; 16];
    let hb = u64_to_le_bytes(h);
    let mb = u32_to_le_bytes(a.mask);
    let fb = u32_to_le_bytes(a.flags);
    write_arr(&mut o, 0, hb.as_slice());
    write_arr(&mut o, 8, mb.as_slice());
    write_arr(&mut o, 12, fb.as_slice());
    assert(o@ =~= oldact_bytes(a));
    o
}

/// The `struct sigaltstack` (24 bytes) the bytes hold, as `(ss_sp, ss_size, ss_flags)`: `ss_sp`
/// at 0, `ss_size` at 8, the 32-bit `ss_flags` at 16.
pub open spec fn stack_of(b: Seq<u8>) -> (u64, u64, u64) {
    (
        spec_u64_from_le_bytes(b.subrange(0, 8)),
        spec_u64_from_le_bytes(b.subrange(8, 16)),
        spec_u32_from_le_bytes(b.subrange(16, 20)) as u64,
    )
}

/// Decode the `sigaltstack` NEW argument: `struct sigaltstack`, 24 bytes with padding.
pub fn decode_stack(bytes: &[u8]) -> (ss: (u64, u64, u64))
    requires
        bytes@.len() >= 24,
    ensures
        ss == stack_of(bytes@),
{
    (
        u64_from_le_bytes(&bytes[0..8]),
        u64_from_le_bytes(&bytes[8..16]),
        u32_from_le_bytes(&bytes[16..20]) as u64,
    )
}

/// The OLDSTACK writeback: the same 24-byte `struct sigaltstack`, `ss_flags` narrowed to 32 bits
/// and bytes 20..24 zero.
pub open spec fn oldstack_bytes(ss: (u64, u64, u64)) -> Seq<u8> {
    spec_u64_to_le_bytes(ss.0) + spec_u64_to_le_bytes(ss.1) + spec_u32_to_le_bytes(
        ss.2 as u32,
    ) + zeros(4)
}

/// Encode the OLDSTACK writeback: exactly 24 bytes.
pub fn encode_oldstack(ss: (u64, u64, u64)) -> (o: [u8; 24])
    ensures
        o@ == oldstack_bytes(ss),
{
    let (sp, size, flags) = ss;
    proof {
        vstd::bytes::lemma_auto_spec_u64_to_from_le_bytes();
        vstd::bytes::lemma_auto_spec_u32_to_from_le_bytes();
    }
    let mut o = [0u8; 24];
    let a = u64_to_le_bytes(sp);
    let b = u64_to_le_bytes(size);
    let c = u32_to_le_bytes(flags as u32);
    write_arr(&mut o, 0, a.as_slice());
    write_arr(&mut o, 8, b.as_slice());
    write_arr(&mut o, 16, c.as_slice());
    assert(o@ =~= oldstack_bytes(ss));
    o
}

/// Reading back what `encode_oldstack` wrote gives the same stack, with `ss_flags` narrowed to
/// its 32-bit wire width.
pub proof fn lemma_oldstack_round_trips(ss: (u64, u64, u64))
    ensures
        stack_of(oldstack_bytes(ss)) == (ss.0, ss.1, (ss.2 as u32) as u64),
{
    vstd::bytes::lemma_auto_spec_u64_to_from_le_bytes();
    vstd::bytes::lemma_auto_spec_u32_to_from_le_bytes();
    let b = oldstack_bytes(ss);
    assert(b.subrange(0, 8) =~= spec_u64_to_le_bytes(ss.0));
    assert(b.subrange(8, 16) =~= spec_u64_to_le_bytes(ss.1));
    assert(b.subrange(16, 20) =~= spec_u32_to_le_bytes(ss.2 as u32));
}

/// The writeback of an action read from the guest is the input struct without its `sa_tramp`:
/// bytes 0..8 and 16..24 of what was read.
pub proof fn lemma_oldact_drops_only_the_trampoline(b: Seq<u8>)
    requires
        b.len() >= 24,
    ensures
        oldact_bytes(sigaction_of(b)) == b.subrange(0, 8) + b.subrange(16, 24),
{
    vstd::bytes::lemma_auto_spec_u64_to_from_le_bytes();
    vstd::bytes::lemma_auto_spec_u32_to_from_le_bytes();
    let h = spec_u64_from_le_bytes(b.subrange(0, 8));
    assert(disposition_word(disposition_of(h)) == h);
    assert(spec_u64_to_le_bytes(h) == b.subrange(0, 8));
    assert(spec_u32_to_le_bytes(spec_u32_from_le_bytes(b.subrange(16, 20))) == b.subrange(16, 20));
    assert(spec_u32_to_le_bytes(spec_u32_from_le_bytes(b.subrange(20, 24))) == b.subrange(20, 24));
    assert(b.subrange(16, 20) + b.subrange(20, 24) =~= b.subrange(16, 24));
    assert(oldact_bytes(sigaction_of(b)) =~= b.subrange(0, 8) + b.subrange(16, 24));
}

// ---- The signal frame -------------------------------------------------------------------------

/// Offset of `siginfo_t` in the frame; the frame is one block at the new `sp`.
pub const FRAME_SIGINFO_OFF: usize = 0;
/// Offset of `ucontext_t` (== `sizeof(siginfo_t)`).
pub const FRAME_UCONTEXT_OFF: usize = 104;
/// Offset of the `mcontext64` block `uc_mcontext` points at (104 + `sizeof(ucontext_t)`).
pub const FRAME_MCONTEXT_OFF: usize = 160;
/// Length of the frame: 104 + 56 + 816.
pub const FRAME_LEN: usize = 976;
/// Bytes the kernel leaves between the frame top and the pre-signal `sp` (measured).
pub const FRAME_SLACK: u64 = 128;

/// `sizeof(mcontext64)`.
pub const MCONTEXT_LEN: u64 = 816;
/// Offset of `thread_state64` within `mcontext64`.
pub const TS_OFF: usize = 16;
/// Offset of `neon_state64` within `mcontext64`.
pub const NS_OFF: usize = 288;

/// Fixed key for the `sigreturn` token: the host randomizes its own per process, so a recorder
/// that synthesizes the whole frame must own it as a constant.
pub const SIGRETURN_TOKEN_KEY: u64 = 0x5265_7472_6163_6512;

/// `x` rotated left by 17 bits.
pub open spec fn rotl17(x: u64) -> u64 {
    (x << 17) | (x >> 47)
}

/// The `sigreturn` token for a ucontext address.
pub open spec fn token_of(uctx_ipa: u64) -> u64 {
    SIGRETURN_TOKEN_KEY ^ rotl17(uctx_ipa)
}

/// The `sigreturn` token: the fixed key XOR the ucontext address rotated left by 17.
pub fn sigreturn_token(uctx_ipa: u64) -> (t: u64)
    ensures
        t == token_of(uctx_ipa),
{
    SIGRETURN_TOKEN_KEY ^ ((uctx_ipa << 17) | (uctx_ipa >> 47))
}

/// The token is deterministic and tells ucontext addresses apart: two addresses share a token
/// exactly when they are equal.
pub proof fn lemma_sigreturn_token_is_injective(a: u64, b: u64)
    ensures
        token_of(a) == token_of(b) <==> a == b,
{
    assert((0x5265_7472_6163_6512u64 ^ ((a << 17) | (a >> 47))) == (0x5265_7472_6163_6512u64 ^ ((b
        << 17) | (b >> 47))) <==> a == b) by (bit_vector);
}

/// General registers as the frame's `thread_state64` records them.
#[derive(Debug, Clone, Copy, PartialEq, Eq)]
pub struct ThreadState {
    pub x: [u64; 29],
    pub fp: u64,
    pub lr: u64,
    pub sp: u64,
    pub pc: u64,
    pub cpsr: u64,
}

/// SIMD/FP registers as the frame's `neon_state64` records them.
#[derive(Debug, Clone, Copy, PartialEq, Eq)]
pub struct NeonState {
    pub v: [u128; 32],
    pub fpsr: u32,
    pub fpcr: u32,
}

/// Everything a delivered frame is a function of.
#[derive(Debug, Clone, Copy)]
pub struct FrameInput {
    pub sig: u64,
    pub si_code: u64,
    pub si_addr: u64,
    pub esr: u64,
    pub far: u64,
    pub ts: ThreadState,
    pub ns: NeonState,
    pub mask: u32,
    pub act: SigAction,
    pub frame_base: u64,
    /// `choose_frame_base`'s second result, fed back in: what `uc_onstack` reports.
    pub on_alt: bool,
}

/// What the vCPU is set to on entry. `pc` is the trampoline, never the handler.
#[derive(Debug, Clone, Copy, PartialEq, Eq)]
pub struct EntryRegs {
    pub x: [u64; 6],
    pub sp: u64,
    pub pc: u64,
}

/// `v` rounded down to a multiple of 16.
pub open spec fn align16_down(v: int) -> int {
    v - v % 16
}

/// Where the frame goes and whether the handler runs on the alternate stack: at the top of the
/// alternate stack when the action asks for it (`SA_ONSTACK`), one is installed and the guest is
/// not already on it; otherwise below the current `sp` by the measured slack, still on the
/// alternate stack if the guest already is and asked for it. Always 16-byte aligned.
pub open spec fn frame_base_of(sp: u64, act: SigAction, altstack: Option<(u64, u64, u64)>, on_alt: bool) -> (
    int,
    bool,
) {
    let wants_alt = act.flags & SA_ONSTACK != 0;
    match altstack {
        Some((ss_sp, ss_size, _)) if wants_alt && !on_alt => (
            align16_down(ss_sp + ss_size - FRAME_LEN),
            true,
        ),
        Some(_) if wants_alt && on_alt => (align16_down(sp - FRAME_SLACK - FRAME_LEN), true),
        _ => (align16_down(sp - FRAME_SLACK - FRAME_LEN), false),
    }
}

/// The arithmetic `choose_frame_base` does stays in range: the alternate stack's top does not
/// overflow and holds a frame, and the current stack has room for the slack and a frame.
pub open spec fn frame_base_in_range(sp: u64, act: SigAction, altstack: Option<(u64, u64, u64)>, on_alt: bool) -> bool {
    let wants_alt = act.flags & SA_ONSTACK != 0;
    match altstack {
        Some((ss_sp, ss_size, _)) if wants_alt && !on_alt => ss_sp + ss_size <= u64::MAX && ss_sp
            + ss_size >= FRAME_LEN,
        _ => sp >= FRAME_SLACK + FRAME_LEN,
    }
}

/// Where the frame goes, and whether the handler runs on the alternate stack. `on_alt` means the
/// guest is already running on its alternate stack: then the frame grows down from the current
/// `sp` instead of resetting to the stack's top, which would clobber an outer handler's frame.
pub fn choose_frame_base(
    sp: u64,
    act: SigAction,
    altstack: Option<(u64, u64, u64)>,
    on_alt: bool,
) -> (r: (u64, bool))
    requires
        frame_base_in_range(sp, act, altstack, on_alt),
    ensures
        (r.0 as int, r.1) == frame_base_of(sp, act, altstack, on_alt),
        r.0 % 16 == 0,
{
    let wants_alt = act.flags & SA_ONSTACK != 0;
    let v: u64;
    let alt: bool;
    match altstack {
        Some((ss_sp, ss_size, _)) => {
            if wants_alt && !on_alt {
                v = (ss_sp + ss_size) - FRAME_LEN as u64;
                alt = true;
            } else if wants_alt && on_alt {
                v = sp - FRAME_SLACK - FRAME_LEN as u64;
                alt = true;
            } else {
                v = sp - FRAME_SLACK - FRAME_LEN as u64;
                alt = false;
            }
        },
        None => {
            v = sp - FRAME_SLACK - FRAME_LEN as u64;
            alt = false;
        },
    }
    let base = v & !15u64;
    assert(v & !15u64 == v - v % 16 && (v - v % 16) % 16 == 0) by (bit_vector);
    (base, alt)
}

/// A frame placed fresh on an alternate stack lies wholly inside it, provided the stack is
/// 16-byte aligned and holds a frame.
pub proof fn lemma_fresh_altstack_frame_is_inside(
    sp: u64,
    act: SigAction,
    ss_sp: u64,
    ss_size: u64,
    ss_flags: u64,
)
    requires
        act.flags & SA_ONSTACK != 0,
        ss_sp % 16 == 0,
        ss_size >= FRAME_LEN,
        ss_sp + ss_size <= u64::MAX,
    ensures
        ({
            let (base, alt) = frame_base_of(sp, act, Some((ss_sp, ss_size, ss_flags)), false);
            alt && ss_sp <= base && base + FRAME_LEN <= ss_sp + ss_size
        }),
{
}

/// A frame placed on the current stack lies below the pre-signal `sp` by at least the slack.
pub proof fn lemma_frame_sits_below_the_slack(
    sp: u64,
    act: SigAction,
    altstack: Option<(u64, u64, u64)>,
    on_alt: bool,
)
    requires
        frame_base_in_range(sp, act, altstack, on_alt),
        !(act.flags & SA_ONSTACK != 0 && altstack is Some && !on_alt),
    ensures
        frame_base_of(sp, act, altstack, on_alt).0 + FRAME_LEN + FRAME_SLACK <= sp,
{
}

/// `s` with each of `xs` placed as 8 little-endian bytes, consecutively from `off`.
pub open spec fn put_words(s: Seq<u8>, off: int, xs: Seq<u64>) -> Seq<u8>
    decreases xs.len(),
{
    if xs.len() == 0 {
        s
    } else {
        put(put_words(s, off, xs.drop_last()), off + 8 * (xs.len() - 1), spec_u64_to_le_bytes(xs.last()))
    }
}

/// `s` with each of `vs` placed as 16 little-endian bytes, consecutively from `off`.
pub open spec fn put_vregs(s: Seq<u8>, off: int, vs: Seq<u128>) -> Seq<u8>
    decreases vs.len(),
{
    if vs.len() == 0 {
        s
    } else {
        put(
            put_vregs(s, off, vs.drop_last()),
            off + 16 * (vs.len() - 1),
            spec_u128_to_le_bytes(vs.last()),
        )
    }
}

/// The 976-byte frame: `siginfo_t` at 0 (`si_signo` at 0, `si_code` at 8, `si_addr` at 24),
/// `ucontext_t` at 104 (`uc_onstack` at 0, `uc_sigmask` at 4, `uc_mcsize` 816 at 40, and at 48
/// `uc_mcontext`, a pointer to the block at 160), and `mcontext64` at 160: the exception state
/// (`far` at 0, `esr` at 8), `thread_state64` at 16 (x0..x28, then fp, lr, sp, pc at 232..256 and
/// cpsr at 264) and `neon_state64` at 288 (v0..v31, then fpsr at 512 and fpcr at 516). Every
/// other byte is zero.
pub open spec fn frame_bytes(inp: FrameInput) -> Seq<u8> {
    let mc = inp.frame_base + FRAME_MCONTEXT_OFF;
    let u = FRAME_UCONTEXT_OFF as int;
    let m = FRAME_MCONTEXT_OFF as int;
    let t = m + TS_OFF;
    let n = m + NS_OFF;
    let onstack: u32 = if inp.on_alt { SS_ONSTACK as u32 } else { 0 };
    let step1 = put(zeros(FRAME_LEN as nat), 0, spec_u32_to_le_bytes(#[verifier::truncate] (inp.sig as u32)));
    let step2 = put(step1, 8, spec_u32_to_le_bytes(#[verifier::truncate] (inp.si_code as u32)));
    let step3 = put(step2, 24, spec_u64_to_le_bytes(inp.si_addr));
    let step4 = put(step3, u, spec_u32_to_le_bytes(onstack));
    let step5 = put(step4, u + 4, spec_u32_to_le_bytes(inp.mask));
    let step6 = put(step5, u + 40, spec_u64_to_le_bytes(MCONTEXT_LEN));
    let step7 = put(step6, u + 48, spec_u64_to_le_bytes(mc as u64));
    let step8 = put(step7, m, spec_u64_to_le_bytes(inp.far));
    let step9 = put(step8, m + 8, spec_u32_to_le_bytes(#[verifier::truncate] (inp.esr as u32)));
    let step10 = put_words(step9, t, inp.ts.x@);
    let step11 = put(step10, t + 232, spec_u64_to_le_bytes(inp.ts.fp));
    let step12 = put(step11, t + 240, spec_u64_to_le_bytes(inp.ts.lr));
    let step13 = put(step12, t + 248, spec_u64_to_le_bytes(inp.ts.sp));
    let step14 = put(step13, t + 256, spec_u64_to_le_bytes(inp.ts.pc));
    let step15 = put(step14, t + 264, spec_u32_to_le_bytes(#[verifier::truncate] (inp.ts.cpsr as u32)));
    let step16 = put_vregs(step15, n, inp.ns.v@);
    let step17 = put(step16, n + 512, spec_u32_to_le_bytes(inp.ns.fpsr));
    put(step17, n + 516, spec_u32_to_le_bytes(inp.ns.fpcr))
}

/// The registers the handler is entered with: x0 the catcher, x1 the infostyle `UC_FLAVOR`,
/// x2 the signal, x3 the siginfo pointer (the frame base), x4 the ucontext pointer, x5 the
/// `sigreturn` token; `sp` the frame base and `pc` the trampoline.
pub open spec fn entry_of(inp: FrameInput) -> (Seq<u64>, u64, u64) {
    let base = inp.frame_base;
    let uc = (base + FRAME_UCONTEXT_OFF) as u64;
    (
        seq![disposition_word(inp.act.disp), UC_FLAVOR, inp.sig, base, uc, token_of(uc)],
        base,
        inp.act.tramp,
    )
}

/// A frame can be built for the input: it delivers to a handler installed with `SA_SIGINFO`
/// (the only infostyle modelled), and the frame's addresses do not overflow.
pub open spec fn frame_deliverable(inp: FrameInput) -> bool {
    &&& inp.act.disp is Handler
    &&& inp.act.flags & SA_SIGINFO != 0
    &&& inp.frame_base + FRAME_LEN <= u64::MAX
}

/// Lay out the signal frame and the entry registers. Pure: every byte is a function of the
/// inputs, which is what makes record and replay produce identical frames.
pub fn build_frame(inp: &FrameInput) -> (r: (Vec<u8>, EntryRegs))
    requires
        frame_deliverable(*inp),
    ensures
        r.0@ == frame_bytes(*inp),
        (r.1.x@, r.1.sp, r.1.pc) == entry_of(*inp),
{
    proof {
        vstd::bytes::lemma_auto_spec_u64_to_from_le_bytes();
        vstd::bytes::lemma_auto_spec_u32_to_from_le_bytes();
        vstd::bytes::lemma_auto_spec_u128_to_from_le_bytes();
    }
    let mut f = zeroed(FRAME_LEN);
    let base = inp.frame_base;
    let uc = base + FRAME_UCONTEXT_OFF as u64;
    let mc = base + FRAME_MCONTEXT_OFF as u64;
    let u = FRAME_UCONTEXT_OFF;
    let m = FRAME_MCONTEXT_OFF;
    let t = m + TS_OFF;
    let n = m + NS_OFF;
    write_at(&mut f, 0, u32_to_le_bytes(#[verifier::truncate] (inp.sig as u32)).as_slice());
    write_at(&mut f, 8, u32_to_le_bytes(#[verifier::truncate] (inp.si_code as u32)).as_slice());
    write_at(&mut f, 24, u64_to_le_bytes(inp.si_addr).as_slice());
    let onstack: u32 = if inp.on_alt { SS_ONSTACK as u32 } else { 0 };
    write_at(&mut f, u, u32_to_le_bytes(onstack).as_slice());
    write_at(&mut f, u + 4, u32_to_le_bytes(inp.mask).as_slice());
    write_at(&mut f, u + 40, u64_to_le_bytes(MCONTEXT_LEN).as_slice());
    write_at(&mut f, u + 48, u64_to_le_bytes(mc).as_slice());
    write_at(&mut f, m, u64_to_le_bytes(inp.far).as_slice());
    write_at(&mut f, m + 8, u32_to_le_bytes(#[verifier::truncate] (inp.esr as u32)).as_slice());
    let ghost after_exc = f@;
    let mut i: usize = 0;
    while i < 29
        invariant
            i <= 29,
            t == FRAME_MCONTEXT_OFF + TS_OFF,
            f@.len() == FRAME_LEN,
            f@ == put_words(after_exc, t as int, inp.ts.x@.take(i as int)),
        decreases 29 - i,
    {
        assert(inp.ts.x@.take(i as int + 1).drop_last() =~= inp.ts.x@.take(i as int));
        write_at(&mut f, t + i * 8, u64_to_le_bytes(inp.ts.x[i]).as_slice());
        i += 1;
    }
    assert(inp.ts.x@.take(29) =~= inp.ts.x@);
    write_at(&mut f, t + 232, u64_to_le_bytes(inp.ts.fp).as_slice());
    write_at(&mut f, t + 240, u64_to_le_bytes(inp.ts.lr).as_slice());
    write_at(&mut f, t + 248, u64_to_le_bytes(inp.ts.sp).as_slice());
    write_at(&mut f, t + 256, u64_to_le_bytes(inp.ts.pc).as_slice());
    write_at(&mut f, t + 264, u32_to_le_bytes(#[verifier::truncate] (inp.ts.cpsr as u32)).as_slice());
    let ghost after_gprs = f@;
    let mut k: usize = 0;
    while k < 32
        invariant
            k <= 32,
            n == FRAME_MCONTEXT_OFF + NS_OFF,
            f@.len() == FRAME_LEN,
            f@ == put_vregs(after_gprs, n as int, inp.ns.v@.take(k as int)),
        decreases 32 - k,
    {
        assert(inp.ns.v@.take(k as int + 1).drop_last() =~= inp.ns.v@.take(k as int));
        write_at(&mut f, n + k * 16, u128_to_le_bytes(inp.ns.v[k]).as_slice());
        k += 1;
    }
    assert(inp.ns.v@.take(32) =~= inp.ns.v@);
    write_at(&mut f, n + 512, u32_to_le_bytes(inp.ns.fpsr).as_slice());
    write_at(&mut f, n + 516, u32_to_le_bytes(inp.ns.fpcr).as_slice());
    let catcher = match inp.act.disp {
        Disposition::Handler(va) => va,
        _ => {
            proof { assert(false); }
            0
        },
    };
    let regs = EntryRegs {
        x: [catcher, UC_FLAVOR, inp.sig, base, uc, sigreturn_token(uc)],
        sp: base,
        pc: inp.act.tramp,
    };
    assert(regs.x@ =~= entry_of(*inp).0);
    (f, regs)
}

proof fn lemma_put_words_outside(s: Seq<u8>, off: int, xs: Seq<u64>)
    ensures
        put_words(s, off, xs).len() == s.len(),
        forall|k: int| 0 <= k < s.len() && (k < off || off + 8 * xs.len() <= k) ==> #[trigger] put_words(s, off, xs)[k]
            == s[k],
    decreases xs.len(),
{
    if xs.len() > 0 {
        lemma_put_words_outside(s, off, xs.drop_last());
        vstd::bytes::lemma_auto_spec_u64_to_from_le_bytes();
        assert(spec_u64_to_le_bytes(xs.last()).len() == 8);
    }
}

proof fn lemma_put_words_reads_back(s: Seq<u8>, off: int, xs: Seq<u64>)
    requires
        0 <= off,
        off + 8 * xs.len() <= s.len(),
    ensures
        forall|i: int| 0 <= i < xs.len() ==> #[trigger] put_words(s, off, xs).subrange(off + 8 * i, off + 8 * i + 8)
            == spec_u64_to_le_bytes(xs[i]),
    decreases xs.len(),
{
    vstd::bytes::lemma_auto_spec_u64_to_from_le_bytes();
    if xs.len() > 0 {
        let t = xs.drop_last();
        lemma_put_words_reads_back(s, off, t);
        lemma_put_words_outside(s, off, t);
        let n = xs.len() - 1;
        assert forall|i: int| 0 <= i < xs.len() implies #[trigger] put_words(s, off, xs).subrange(off + 8 * i, off + 8 * i + 8)
            == spec_u64_to_le_bytes(xs[i]) by {
            if i < n {
                assert(put_words(s, off, t).subrange(off + 8 * i, off + 8 * i + 8) == spec_u64_to_le_bytes(t[i]));
                assert(put_words(s, off, xs).subrange(off + 8 * i, off + 8 * i + 8) =~= put_words(s, off, t).subrange(
                    off + 8 * i,
                    off + 8 * i + 8,
                ));
            } else {
                assert(put_words(s, off, xs).subrange(off + 8 * i, off + 8 * i + 8) =~= spec_u64_to_le_bytes(xs[i]));
            }
        }
    }
}

proof fn lemma_put_vregs_outside(s: Seq<u8>, off: int, vs: Seq<u128>)
    ensures
        put_vregs(s, off, vs).len() == s.len(),
        forall|k: int| 0 <= k < s.len() && (k < off || off + 16 * vs.len() <= k) ==> #[trigger] put_vregs(s, off, vs)[k]
            == s[k],
    decreases vs.len(),
{
    if vs.len() > 0 {
        lemma_put_vregs_outside(s, off, vs.drop_last());
        vstd::bytes::lemma_auto_spec_u128_to_from_le_bytes();
        assert(spec_u128_to_le_bytes(vs.last()).len() == 16);
    }
}

/// The frame reads back what it was built from: `si_signo`, `si_code`, `si_addr`, `uc_onstack`,
/// the saved mask, `uc_mcsize`, the `uc_mcontext` pointer to the machine context, the fault
/// address and syndrome, the interrupted x0..x28, `sp`, `pc` and `fpcr` each sit at their offset
/// in little-endian order; the handler is entered with `sp` and x3 at the frame base and x4 at
/// the `ucontext`.
pub proof fn lemma_frame_reads_back(inp: FrameInput)
    requires
        inp.frame_base + FRAME_LEN <= u64::MAX,
    ensures
        frame_bytes(inp).len() == FRAME_LEN,
        spec_u32_from_le_bytes(frame_bytes(inp).subrange(0, 4)) == #[verifier::truncate] (inp.sig as u32),
        spec_u64_from_le_bytes(frame_bytes(inp).subrange(24, 32)) == inp.si_addr,
        spec_u32_from_le_bytes(frame_bytes(inp).subrange(108, 112)) == inp.mask,
        spec_u64_from_le_bytes(frame_bytes(inp).subrange(152, 160)) == inp.frame_base + FRAME_MCONTEXT_OFF,
        spec_u64_from_le_bytes(frame_bytes(inp).subrange(160, 168)) == inp.far,
        spec_u64_from_le_bytes(frame_bytes(inp).subrange(424, 432)) == inp.ts.sp,
        spec_u64_from_le_bytes(frame_bytes(inp).subrange(432, 440)) == inp.ts.pc,
        spec_u32_from_le_bytes(frame_bytes(inp).subrange(964, 968)) == inp.ns.fpcr,
        spec_u32_from_le_bytes(frame_bytes(inp).subrange(8, 12)) == #[verifier::truncate] (inp.si_code as u32),
        spec_u32_from_le_bytes(frame_bytes(inp).subrange(104, 108)) == if inp.on_alt { SS_ONSTACK as u32 } else { 0u32 },
        spec_u64_from_le_bytes(frame_bytes(inp).subrange(144, 152)) == MCONTEXT_LEN,
        spec_u32_from_le_bytes(frame_bytes(inp).subrange(168, 172)) == #[verifier::truncate] (inp.esr as u32),
        forall|i: int| 0 <= i < 29 ==> spec_u64_from_le_bytes(#[trigger] frame_bytes(inp).subrange(176 + 8 * i, 184 + 8 * i))
            == inp.ts.x@[i],
        entry_of(inp).1 == inp.frame_base,
        entry_of(inp).0[3] == inp.frame_base,
        entry_of(inp).0[4] == inp.frame_base + FRAME_UCONTEXT_OFF,
{
    vstd::bytes::lemma_auto_spec_u64_to_from_le_bytes();
    vstd::bytes::lemma_auto_spec_u32_to_from_le_bytes();
    let mc = inp.frame_base + FRAME_MCONTEXT_OFF;
    let onstack: u32 = if inp.on_alt { SS_ONSTACK as u32 } else { 0 };
    let step1 = put(zeros(FRAME_LEN as nat), 0, spec_u32_to_le_bytes(#[verifier::truncate] (inp.sig as u32)));
    let step2 = put(step1, 8, spec_u32_to_le_bytes(#[verifier::truncate] (inp.si_code as u32)));
    let step3 = put(step2, 24, spec_u64_to_le_bytes(inp.si_addr));
    let step4 = put(step3, 104, spec_u32_to_le_bytes(onstack));
    let step5 = put(step4, 108, spec_u32_to_le_bytes(inp.mask));
    let step6 = put(step5, 144, spec_u64_to_le_bytes(MCONTEXT_LEN));
    let step7 = put(step6, 152, spec_u64_to_le_bytes(mc as u64));
    let step8 = put(step7, 160, spec_u64_to_le_bytes(inp.far));
    let step9 = put(step8, 168, spec_u32_to_le_bytes(#[verifier::truncate] (inp.esr as u32)));
    let step10 = put_words(step9, 176, inp.ts.x@);
    let step11 = put(step10, 408, spec_u64_to_le_bytes(inp.ts.fp));
    let step12 = put(step11, 416, spec_u64_to_le_bytes(inp.ts.lr));
    let step13 = put(step12, 424, spec_u64_to_le_bytes(inp.ts.sp));
    let step14 = put(step13, 432, spec_u64_to_le_bytes(inp.ts.pc));
    let step15 = put(step14, 440, spec_u32_to_le_bytes(#[verifier::truncate] (inp.ts.cpsr as u32)));
    let step16 = put_vregs(step15, 448, inp.ns.v@);
    let step17 = put(step16, 960, spec_u32_to_le_bytes(inp.ns.fpsr));
    let f = put(step17, 964, spec_u32_to_le_bytes(inp.ns.fpcr));
    assert(f == frame_bytes(inp));
    lemma_put_words_outside(step9, 176, inp.ts.x@);
    lemma_put_vregs_outside(step15, 448, inp.ns.v@);
    assert(f.subrange(0, 4) =~= spec_u32_to_le_bytes(#[verifier::truncate] (inp.sig as u32)));
    assert(f.subrange(24, 32) =~= spec_u64_to_le_bytes(inp.si_addr));
    assert(f.subrange(108, 112) =~= spec_u32_to_le_bytes(inp.mask));
    assert(f.subrange(152, 160) =~= spec_u64_to_le_bytes(mc as u64));
    assert(f.subrange(160, 168) =~= spec_u64_to_le_bytes(inp.far));
    assert(f.subrange(424, 432) =~= spec_u64_to_le_bytes(inp.ts.sp));
    assert(f.subrange(432, 440) =~= spec_u64_to_le_bytes(inp.ts.pc));
    assert(f.subrange(964, 968) =~= spec_u32_to_le_bytes(inp.ns.fpcr));
    assert(f.subrange(8, 12) =~= spec_u32_to_le_bytes(#[verifier::truncate] (inp.si_code as u32)));
    assert(f.subrange(104, 108) =~= spec_u32_to_le_bytes(onstack));
    assert(f.subrange(144, 152) =~= spec_u64_to_le_bytes(MCONTEXT_LEN));
    assert(f.subrange(168, 172) =~= spec_u32_to_le_bytes(#[verifier::truncate] (inp.esr as u32)));
    lemma_put_words_reads_back(step9, 176, inp.ts.x@);
    assert forall|i: int| 0 <= i < 29 implies spec_u64_from_le_bytes(#[trigger] f.subrange(176 + 8 * i, 184 + 8 * i))
        == inp.ts.x@[i] by {
        assert(step10.subrange(176 + 8 * i, 176 + 8 * i + 8) == spec_u64_to_le_bytes(inp.ts.x@[i]));
        assert(f.subrange(176 + 8 * i, 184 + 8 * i) =~= step10.subrange(176 + 8 * i, 176 + 8 * i + 8));
    }
}

} // verus!
