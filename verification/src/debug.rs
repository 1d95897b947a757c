//! The debugger's hardware aids: breakpoint and watchpoint register values, the shared
//! `MDSCR_EL1.MDE` enable, single-step arming, which watched range a replayed write hits, and
//! where replayed memory first diverges from the recording.
use vstd::prelude::*;

verus! {

/// `MDSCR_EL1.MDE`: enables hardware breakpoints and watchpoints.
pub const MDSCR_MDE: u64 = 0x8000;

/// `MDSCR_EL1.SS`: software step.
pub const MDSCR_SS: u64 = 0x1;

/// `PSTATE.SS`: the step is armed for the next instruction.
pub const PSTATE_SS: u64 = 0x20_0000;

/// A breakpoint control value: enabled, EL0 only, all four bytes of the instruction.
pub const DBGBCR_ARM: u64 = 0x1E5;

/// A watchpoint control value before its byte-select mask: enabled, EL0 only, stores only.
pub const DBGWCR_BASE: u64 = 0x15;

/// How many breakpoint and watchpoint slots there are.
pub const HW_BREAKPOINTS: usize = 6;
pub const HW_WATCHPOINTS: usize = 4;

/// `MDSCR_EL1` with `MDE` set exactly when a breakpoint or watchpoint is armed.
pub fn mdscr_with(mdscr: u64, armed: bool) -> (r: u64)
    ensures
        r == if armed { mdscr | MDSCR_MDE } else { mdscr & !MDSCR_MDE },
{
    if armed {
        mdscr | MDSCR_MDE
    } else {
        mdscr & !MDSCR_MDE
    }
}

/// `(MDSCR_EL1, CPSR)` with the software step armed for one instruction.
pub fn arm_step(mdscr: u64, cpsr: u64) -> (r: (u64, u64))
    ensures
        r == (mdscr | MDSCR_SS, cpsr | PSTATE_SS),
{
    (mdscr | MDSCR_SS, cpsr | PSTATE_SS)
}

/// `(MDSCR_EL1, CPSR)` with the software step disarmed, so nothing steps outside a step.
pub fn disarm_step(mdscr: u64, cpsr: u64) -> (r: (u64, u64))
    ensures
        r == (mdscr & !MDSCR_SS, cpsr & !PSTATE_SS),
{
    (mdscr & !MDSCR_SS, cpsr & !PSTATE_SS)
}

/// A watchable length: a byte, halfword, word or doubleword.
pub open spec fn watch_len_ok(len: u64) -> bool {
    len == 1 || len == 2 || len == 4 || len == 8
}

/// `len` low bits set.
pub open spec fn byte_mask(len: u64) -> u64 {
    if len == 1 {
        1
    } else if len == 2 {
        3
    } else if len == 4 {
        0xf
    } else {
        0xff
    }
}

/// The byte-select mask of a watch of `len` bytes at `va`: `len` ones, shifted to `va`'s place in
/// its doubleword.
pub open spec fn watch_bas(va: u64, len: u64) -> u64 {
    byte_mask(len) << (va % 8)
}

/// The `(DBGWVR, DBGWCR)` pair watching stores to `[va, va + len)`: the doubleword's address and
/// the control value with the byte-select mask in bits 12:5. The range, `len`-aligned, lies in one
/// doubleword.
pub fn watchpoint_regs(va: u64, len: u64) -> (r: (u64, u64))
    requires
        watch_len_ok(len),
        va % len == 0,
    ensures
        r == ((va - va % 8) as u64, DBGWCR_BASE | (watch_bas(va, len) << 5u64)),
{
    let mask: u64 = if len == 1 {
        1
    } else if len == 2 {
        3
    } else if len == 4 {
        0xf
    } else {
        0xff
    };
    let bas = mask << (va % 8);
    (va - va % 8, DBGWCR_BASE | (bas << 5u64))
}

/// `[a, a + la)` and `[b, b + lb)` share a byte.
pub open spec fn ranges_meet(a: int, la: int, b: int, lb: int) -> bool {
    a < b + lb && b < a + la
}

/// The first watch (`(va, len)` with the guest-physical address `va` translates to, if any) that
/// a write of `n` bytes at `ipa` meets, by its index.
pub open spec fn first_hit_from(watches: Seq<(u64, u64, Option<u64>)>, ipa: u64, n: u64, i: int) -> Option<int>
    decreases watches.len() - i,
{
    if i >= watches.len() {
        None
    } else if watches[i].2 matches Some(w) && ranges_meet(ipa as int, n as int, w as int, watches[i].1 as int) {
        Some(i)
    } else {
        first_hit_from(watches, ipa, n, i + 1)
    }
}

/// The watched address a replayed write of `n` bytes at `ipa` hits: the first watch whose
/// translated range it meets (a watch whose address does not translate cannot be hit).
pub fn watch_hit(watches: &[(u64, u64, Option<u64>)], ipa: u64, n: u64) -> (r: Option<u64>)
    ensures
        r == match first_hit_from(watches@, ipa, n, 0) {
            Some(i) => Some(watches@[i].0),
            None => None,
        },
{
    let mut i: usize = 0;
    while i < watches.len()
        invariant
            i <= watches@.len(),
            first_hit_from(watches@, ipa, n, 0) == first_hit_from(watches@, ipa, n, i as int),
        decreases watches@.len() - i,
    {
        let (va, len, t) = watches[i];
        match t {
            Some(w) => {
                if (ipa as u128) < w as u128 + len as u128 && (w as u128) < ipa as u128 + n as u128 {
                    return Some(va);
                }
            },
            None => {},
        }
        i += 1;
    }
    None
}

/// The first offset below the shorter length at which `current` and `expected` differ.
pub open spec fn first_diff_from(current: Seq<u8>, expected: Seq<u8>, i: int) -> Option<int>
    decreases current.len() - i,
{
    if i >= current.len() || i >= expected.len() {
        None
    } else if current[i] != expected[i] {
        Some(i)
    } else {
        first_diff_from(current, expected, i + 1)
    }
}

/// Where replayed bytes first differ from the recorded ones, comparing as many bytes as both
/// have; `None` when they agree there.
pub fn first_divergence(current: &[u8], expected: &[u8]) -> (r: Option<usize>)
    ensures
        r == match first_diff_from(current@, expected@, 0) {
            Some(i) => Some(i as usize),
            None => None,
        },
{
    let n = if current.len() < expected.len() { current.len() } else { expected.len() };
    let mut i: usize = 0;
    while i < n
        invariant
            i <= n,
            n <= current@.len(),
            n <= expected@.len(),
            n == current@.len() || n == expected@.len(),
            first_diff_from(current@, expected@, 0) == first_diff_from(current@, expected@, i as int),
        decreases n - i,
    {
        if current[i] != expected[i] {
            return Some(i);
        }
        i += 1;
    }
    None
}

/// A frame pointer worth following: non-zero, 8-byte aligned and mapped.
pub fn frame_readable(fp: u64, mapped: bool) -> (b: bool)
    ensures
        b == (fp != 0 && mapped && fp % 8 == 0),
{
    fp != 0 && mapped && fp % 8 == 0
}

/// What one frame record `(saved fp, saved lr)` read at `fp` adds to a backtrace.
#[derive(Debug, Clone, Copy, PartialEq, Eq, Structural)]
pub enum FrameStep {
    /// A zero return address ends the walk.
    End,
    /// A return address; the walk stops after it, the saved frame pointer not lying above this one.
    Last(u64),
    /// A return address, and the walk goes on at the saved frame pointer.
    Next(u64, u64),
}

/// The return address a saved link register holds: its low 36 bits, any signature stripped.
pub open spec fn stripped_ret(lr: u64) -> u64 {
    lr % 0x10_0000_0000
}

/// Read one frame record: the return address is the saved link register stripped of its
/// signature; stacks grow down, so the walk continues only to a higher frame pointer.
pub fn frame_step(fp: u64, saved_fp: u64, saved_lr: u64) -> (r: FrameStep)
    ensures
        r == if stripped_ret(saved_lr) == 0 {
            FrameStep::End
        } else if saved_fp <= fp {
            FrameStep::Last(stripped_ret(saved_lr))
        } else {
            FrameStep::Next(stripped_ret(saved_lr), saved_fp)
        },
{
    let ret = saved_lr % 0x10_0000_0000;
    if ret == 0 {
        FrameStep::End
    } else if saved_fp <= fp {
        FrameStep::Last(ret)
    } else {
        FrameStep::Next(ret, saved_fp)
    }
}

} // verus!
