//! The guest's thread table and its cooperative scheduler, and the per-thread signal state: the
//! blocked mask, the pending set and the alternate stack. Dispositions stay process-wide in `sig`.
//!
//! The scheduler is a pure function: `pick_next` returns the lowest-indexed runnable thread, so
//! given the guest's own syscall sequence the choice is forced and record and replay schedule
//! identically with nothing recorded.
use vstd::prelude::*;
use crate::arch::{SIG_BLOCK, SIG_SETMASK, SIG_UNBLOCK};
use crate::sig::valid_signal;
use crate::trace::Regs;

verus! {

/// One thread's register context: the general-purpose file, the SIMD file, the FP control and
/// status, the thread pointer `tpidrro_el0`, and the exception return state.
#[derive(Debug, Clone, Copy, PartialEq, Eq)]
pub struct ThreadCtx {
    pub regs: Regs,
    pub fp: [u128; 32],
    pub fpcr: u64,
    pub fpsr: u64,
    pub tpidrro_el0: u64,
    pub elr: u64,
    pub spsr: u64,
}

impl ThreadCtx {
    /// Every register zero.
    pub fn zeroed() -> (c: ThreadCtx)
        ensures
            forall|i: int| 0 <= i < 31 ==> c.regs.x@[i] == 0,
            c.regs.pc == 0 && c.regs.sp_el0 == 0 && c.regs.cpsr == 0,
            forall|i: int| 0 <= i < 32 ==> c.fp@[i] == 0,
            c.fpcr == 0 && c.fpsr == 0 && c.tpidrro_el0 == 0 && c.elr == 0 && c.spsr == 0,
    {
        ThreadCtx {
            regs: Regs::zeroed(),
            fp: [0u128; 32],
            fpcr: 0,
            fpsr: 0,
            tpidrro_el0: 0,
            elr: 0,
            spsr: 0,
        }
    }
}

/// Why a thread cannot currently run; the reason names its target so an exit or a wake can tell
/// whom it releases.
#[derive(Debug, Clone, Copy, PartialEq, Eq, Structural)]
pub enum BlockReason {
    /// Waiting for thread `target` to exit (`pthread_join`).
    Join { target: usize },
    /// Waiting on a futex-shaped address.
    Wait { addr: u64 },
}

/// A thread's scheduling state. An exited thread stays in the table: a `join` may arrive after the
/// exit, and indices must stay stable.
#[derive(Debug, Clone, Copy, PartialEq, Eq, Structural)]
pub enum ThreadState {
    Runnable,
    Blocked(BlockReason),
    Exited(u64),
}

/// One guest thread.
#[derive(Debug, Clone, Copy)]
pub struct Thread {
    pub ctx: ThreadCtx,
    pub state: ThreadState,
    /// `(base, len)` of the guest-allocated stack, for teardown and diagnostics.
    pub stack: (u64, u64),
    /// Blocked signals: bit `sig - 1`. Inherited by value at `spawn`.
    pub mask: u32,
    /// Signals raised for this thread while its mask blocked them.
    pub pending: u32,
    /// The alternate signal stack `(ss_sp, ss_size, ss_flags)`; not inherited.
    pub altstack: Option<(u64, u64, u64)>,
    /// Redirected into a handler and not scheduled since.
    pub redirected: bool,
}

/// The bit of signal `sig` in a mask or a pending set.
pub open spec fn sig_mask_bit(sig: u64) -> u32 {
    1u32 << ((sig - 1) as u32)
}

/// Signal `sig` is in `set`.
pub open spec fn has_sig(set: u32, sig: u64) -> bool {
    set & sig_mask_bit(sig) != 0
}

/// A fresh thread: runnable, nothing pending, no alternate stack, not redirected.
pub open spec fn fresh_thread(ctx: ThreadCtx, stack: (u64, u64), mask: u32) -> Thread {
    Thread {
        ctx,
        state: ThreadState::Runnable,
        stack,
        mask,
        pending: 0,
        altstack: None,
        redirected: false,
    }
}

/// The mask after `sigprocmask(how, set)`: `SIG_BLOCK` adds, `SIG_UNBLOCK` removes, `SIG_SETMASK`
/// replaces.
pub open spec fn masked(how: u64, old: u32, set: u32) -> u32 {
    if how == SIG_BLOCK {
        old | set
    } else if how == SIG_UNBLOCK {
        old & !set
    } else {
        set
    }
}

/// How many of `ts` have not exited.
pub open spec fn live_count(ts: Seq<Thread>) -> nat
    decreases ts.len(),
{
    if ts.len() == 0 {
        0
    } else {
        live_count(ts.drop_last()) + if ts.last().state is Exited {
            0nat
        } else {
            1nat
        }
    }
}

/// How many of `ts` are blocked waiting on exactly `addr`.
pub open spec fn waiting_on_count(ts: Seq<Thread>, addr: u64) -> nat
    decreases ts.len(),
{
    if ts.len() == 0 {
        0
    } else {
        waiting_on_count(ts.drop_last(), addr) + if ts.last().state == ThreadState::Blocked(
            BlockReason::Wait { addr },
        ) {
            1nat
        } else {
            0nat
        }
    }
}

/// `t` made runnable when it is blocked on `reason`, unchanged otherwise.
pub open spec fn released(t: Thread, reason: BlockReason) -> Thread {
    if t.state == ThreadState::Blocked(reason) {
        Thread { state: ThreadState::Runnable, ..t }
    } else {
        t
    }
}

/// The guest's threads and which one is current.
#[derive(Debug, Clone)]
pub struct ThreadTable {
    threads: Vec<Thread>,
    current: usize,
}

impl ThreadTable {
    /// The threads, by index.
    pub closed spec fn ts(&self) -> Seq<Thread> {
        self.threads@
    }

    /// The index of the current thread.
    pub closed spec fn cur(&self) -> int {
        self.current as int
    }

    /// The current thread exists, and every pending set holds only signals `1..=31`.
    pub open spec fn wf(&self) -> bool {
        &&& 0 <= self.cur() < self.ts().len()
        &&& forall|t: int| 0 <= t < self.ts().len() ==> self.ts()[t].pending < 0x8000_0000u32
    }

    /// A guest starts with exactly one runnable thread, current, with nothing blocked.
    pub fn new(main: ThreadCtx) -> (t: ThreadTable)
        ensures
            t.wf(),
            t.ts() == seq![fresh_thread(main, (0, 0), 0)],
            t.cur() == 0,
    {
        let t = ThreadTable {
            threads: vec![
                Thread {
                    ctx: main,
                    state: ThreadState::Runnable,
                    stack: (0, 0),
                    mask: 0,
                    pending: 0,
                    altstack: None,
                    redirected: false,
                },
            ],
            current: 0,
        };
        assert(t.threads@ =~= seq![fresh_thread(main, (0, 0), 0)]);
        t
    }

    /// A copy of the table: every thread, with its context, state, mask, pending set and
    /// alternate stack, and the same current thread.
    pub fn copied(&self) -> (r: ThreadTable)
        ensures
            r.ts() == self.ts(),
            r.cur() == self.cur(),
    {
        let mut threads: Vec<Thread> = Vec::new();
        let mut i: usize = 0;
        while i < self.threads.len()
            invariant
                i <= self.threads@.len(),
                threads@ == self.threads@.take(i as int),
            decreases self.threads@.len() - i,
        {
            threads.push(self.threads[i]);
            assert(threads@ =~= self.threads@.take(i + 1));
            i += 1;
        }
        assert(self.threads@.take(self.threads@.len() as int) =~= self.threads@);
        ThreadTable { threads, current: self.current }
    }

    /// The current thread's index.
    pub fn current(&self) -> (r: usize)
        ensures
            r == self.cur(),
    {
        self.current
    }

    /// The number of threads, exited ones included.
    pub fn len(&self) -> (r: usize)
        ensures
            r == self.ts().len(),
    {
        self.threads.len()
    }

    /// No thread at all.
    pub fn is_empty(&self) -> (r: bool)
        ensures
            r == (self.ts().len() == 0),
    {
        self.threads.len() == 0
    }

    /// Thread `tid`'s scheduling state.
    pub fn state_of(&self, tid: usize) -> (r: ThreadState)
        requires
            tid < self.ts().len(),
        ensures
            r == self.ts()[tid as int].state,
    {
        self.threads[tid].state
    }

    /// Thread `tid`'s register context.
    pub fn ctx_of(&self, tid: usize) -> (r: &ThreadCtx)
        requires
            tid < self.ts().len(),
        ensures
            *r == self.ts()[tid as int].ctx,
    {
        &self.threads[tid].ctx
    }

    /// Thread `tid`'s register context, to change in place.
    pub fn ctx_mut(&mut self, tid: usize) -> (r: &mut ThreadCtx)
        requires
            tid < old(self).ts().len(),
        ensures
            *r == old(self).ts()[tid as int].ctx,
            old(self).wf() ==> final(self).wf(),
            final(self).cur() == old(self).cur(),
            final(self).ts() == old(self).ts().update(
                tid as int,
                Thread { ctx: *final(r), ..old(self).ts()[tid as int] },
            ),
    {
        &mut self.threads[tid].ctx
    }

    /// Replace thread `tid`'s register context.
    pub fn set_ctx(&mut self, tid: usize, ctx: ThreadCtx)
        requires
            old(self).wf(),
            tid < old(self).ts().len(),
        ensures
            final(self).wf(),
            final(self).cur() == old(self).cur(),
            final(self).ts() == old(self).ts().update(
                tid as int,
                Thread { ctx, ..old(self).ts()[tid as int] },
            ),
    {
        let mut t = self.threads[tid];
        t.ctx = ctx;
        self.threads.set(tid, t);
    }

    /// The bit of `sig` in a mask, for a signal the disposition table can represent.
    fn sig_bit(sig: u64) -> (b: u32)
        requires
            valid_signal(sig),
        ensures
            b == sig_mask_bit(sig),
            b < 0x8000_0000u32,
    {
        let k = (sig - 1) as u32;
        assert(k < 31u32 ==> (1u32 << k) < 0x8000_0000u32) by (bit_vector);
        1u32 << k
    }

    /// Thread `tid`'s blocked mask.
    pub fn mask_of(&self, tid: usize) -> (r: u32)
        requires
            tid < self.ts().len(),
        ensures
            r == self.ts()[tid as int].mask,
    {
        self.threads[tid].mask
    }

    /// `sigprocmask` for thread `tid`: `SIG_BLOCK` adds `set`, `SIG_UNBLOCK` removes it,
    /// `SIG_SETMASK` replaces the mask. Returns the old mask.
    pub fn set_mask_of(&mut self, tid: usize, how: u64, set: u32) -> (r: u32)
        requires
            old(self).wf(),
            tid < old(self).ts().len(),
            how == SIG_BLOCK || how == SIG_UNBLOCK || how == SIG_SETMASK,
        ensures
            final(self).wf(),
            final(self).cur() == old(self).cur(),
            r == old(self).ts()[tid as int].mask,
            final(self).ts() == old(self).ts().update(
                tid as int,
                Thread { mask: masked(how, r, set), ..old(self).ts()[tid as int] },
            ),
    {
        let mut t = self.threads[tid];
        let old_mask = t.mask;
        t.mask = if how == SIG_BLOCK {
            old_mask | set
        } else if how == SIG_UNBLOCK {
            old_mask & !set
        } else {
            set
        };
        self.threads.set(tid, t);
        old_mask
    }

    /// Does thread `tid`'s mask block `sig`?
    pub fn is_blocked_for(&self, tid: usize, sig: u64) -> (r: bool)
        requires
            tid < self.ts().len(),
            valid_signal(sig),
        ensures
            r == has_sig(self.ts()[tid as int].mask, sig),
    {
        self.threads[tid].mask & Self::sig_bit(sig) != 0
    }

    /// Mark `sig` pending for thread `tid`.
    pub fn pend(&mut self, tid: usize, sig: u64)
        requires
            old(self).wf(),
            tid < old(self).ts().len(),
            valid_signal(sig),
        ensures
            final(self).wf(),
            final(self).cur() == old(self).cur(),
            final(self).ts() == old(self).ts().update(
                tid as int,
                Thread {
                    pending: old(self).ts()[tid as int].pending | sig_mask_bit(sig),
                    ..old(self).ts()[tid as int]
                },
            ),
    {
        let b = Self::sig_bit(sig);
        let mut t = self.threads[tid];
        let p = t.pending;
        assert(p < 0x8000_0000u32 && b < 0x8000_0000u32 ==> (p | b) < 0x8000_0000u32) by (bit_vector);
        t.pending = p | b;
        self.threads.set(tid, t);
    }

    /// Thread `tid`'s pending set.
    pub fn pending_of(&self, tid: usize) -> (r: u32)
        requires
            tid < self.ts().len(),
        ensures
            r == self.ts()[tid as int].pending,
    {
        self.threads[tid].pending
    }

    /// The lowest-numbered pending signal that thread `tid`'s mask does not block, cleared from
    /// the pending set as it is taken; `None` when there is none.
    pub fn take_deliverable(&mut self, tid: usize) -> (r: Option<u64>)
        requires
            old(self).wf(),
            tid < old(self).ts().len(),
        ensures
            final(self).wf(),
            final(self).cur() == old(self).cur(),
            ({
                let t = old(self).ts()[tid as int];
                let ready = t.pending & !t.mask;
                match r {
                    None => {
                        &&& ready == 0
                        &&& final(self).ts() == old(self).ts()
                    },
                    Some(sig) => {
                        &&& valid_signal(sig)
                        &&& has_sig(ready, sig)
                        &&& forall|s: u64| 1 <= s < sig ==> !has_sig(ready, s)
                        &&& final(self).ts() == old(self).ts().update(
                            tid as int,
                            Thread { pending: t.pending & !sig_mask_bit(sig), ..t },
                        )
                    },
                }
            }),
    {
        let mut t = self.threads[tid];
        let ready = t.pending & !t.mask;
        if ready == 0 {
            return None;
        }
        let tz = ready.trailing_zeros();
        proof {
            vstd::std_specs::bits::axiom_u32_trailing_zeros(ready);
        }
        let p = t.pending;
        let m = t.mask;
        assert(p < 0x8000_0000u32 && (ready >> tz) & 1u32 == 1u32 && ready == p & !m ==> tz < 31u32)
            by (bit_vector);
        let sig = tz as u64 + 1;
        assert(((ready >> tz) & 1u32 == 1u32) ==> (ready & (1u32 << tz)) != 0u32) by (bit_vector);
        assert forall|s: u64| 1 <= s < sig implies !has_sig(ready, s) by {
            let j = (s - 1) as u32;
            assert(j < tz);
            assert((ready >> j) & 1u32 == 0u32);
            assert(((ready >> j) & 1u32 == 0u32) ==> (ready & (1u32 << j)) == 0u32) by (bit_vector);
        }
        let b = Self::sig_bit(sig);
        assert(p < 0x8000_0000u32 ==> (p & !b) < 0x8000_0000u32) by (bit_vector);
        t.pending = p & !b;
        self.threads.set(tid, t);
        Some(sig)
    }

    /// Thread `tid`'s alternate signal stack.
    pub fn altstack_of(&self, tid: usize) -> (r: Option<(u64, u64, u64)>)
        requires
            tid < self.ts().len(),
        ensures
            r == self.ts()[tid as int].altstack,
    {
        self.threads[tid].altstack
    }

    /// Has `tid` been redirected into a handler it has not yet run?
    pub fn is_redirected(&self, tid: usize) -> (r: bool)
        requires
            tid < self.ts().len(),
        ensures
            r == self.ts()[tid as int].redirected,
    {
        self.threads[tid].redirected
    }

    /// Mark or clear `tid`'s redirected flag.
    pub fn set_redirected(&mut self, tid: usize, redirected: bool)
        requires
            old(self).wf(),
            tid < old(self).ts().len(),
        ensures
            final(self).wf(),
            final(self).cur() == old(self).cur(),
            final(self).ts() == old(self).ts().update(
                tid as int,
                Thread { redirected, ..old(self).ts()[tid as int] },
            ),
    {
        let mut t = self.threads[tid];
        t.redirected = redirected;
        self.threads.set(tid, t);
    }

    /// Install `ss` as `tid`'s alternate stack and return the previous one.
    pub fn set_altstack_of(&mut self, tid: usize, ss: Option<(u64, u64, u64)>) -> (r: Option<(u64, u64, u64)>)
        requires
            old(self).wf(),
            tid < old(self).ts().len(),
        ensures
            final(self).wf(),
            final(self).cur() == old(self).cur(),
            r == old(self).ts()[tid as int].altstack,
            final(self).ts() == old(self).ts().update(
                tid as int,
                Thread { altstack: ss, ..old(self).ts()[tid as int] },
            ),
    {
        let mut t = self.threads[tid];
        let prev = t.altstack;
        t.altstack = ss;
        self.threads.set(tid, t);
        prev
    }

    /// How many threads have not exited.
    pub fn live(&self) -> (r: usize)
        ensures
            r == live_count(self.ts()),
    {
        let mut n: usize = 0;
        let mut i: usize = 0;
        while i < self.threads.len()
            invariant
                i <= self.threads@.len(),
                n == live_count(self.threads@.take(i as int)),
                n <= i,
            decreases self.threads@.len() - i,
        {
            assert(self.threads@.take(i as int + 1).drop_last() =~= self.threads@.take(i as int));
            if !matches!(self.threads[i].state, ThreadState::Exited(_)) {
                n += 1;
            }
            i += 1;
        }
        assert(self.threads@.take(i as int) =~= self.threads@);
        n
    }

    /// Append a runnable thread and return its index; the current thread keeps running. The new
    /// thread inherits the current thread's mask by value and starts with no alternate stack.
    pub fn spawn(&mut self, ctx: ThreadCtx, stack: (u64, u64)) -> (r: usize)
        requires
            old(self).wf(),
            old(self).ts().len() < usize::MAX,
        ensures
            final(self).wf(),
            final(self).cur() == old(self).cur(),
            r == old(self).ts().len(),
            final(self).ts() == old(self).ts().push(
                fresh_thread(ctx, stack, old(self).ts()[old(self).cur()].mask),
            ),
    {
        let mask = self.threads[self.current].mask;
        self.threads.push(
            Thread {
                ctx,
                state: ThreadState::Runnable,
                stack,
                mask,
                pending: 0,
                altstack: None,
                redirected: false,
            },
        );
        self.threads.len() - 1
    }

    /// Block the current thread on `reason`. Joining a thread that has already exited does not
    /// block: the wake it would wait for has already happened.
    pub fn block(&mut self, reason: BlockReason)
        requires
            old(self).wf(),
            reason matches BlockReason::Join { target } ==> target < old(self).ts().len(),
        ensures
            final(self).wf(),
            final(self).cur() == old(self).cur(),
            final(self).ts() == if (reason matches BlockReason::Join { target } && old(
                self,
            ).ts()[target as int].state is Exited) {
                old(self).ts()
            } else {
                old(self).ts().update(
                    old(self).cur(),
                    Thread {
                        state: ThreadState::Blocked(reason),
                        ..old(self).ts()[old(self).cur()]
                    },
                )
            },
    {
        if let BlockReason::Join { target } = reason {
            if matches!(self.state_of(target), ThreadState::Exited(_)) {
                return;
            }
        }
        let c = self.current;
        let mut t = self.threads[c];
        t.state = ThreadState::Blocked(reason);
        self.threads.set(c, t);
    }

    /// Make `tid` current; it is about to run whatever handler it was redirected into, so its
    /// redirected flag clears.
    pub fn switch_to(&mut self, tid: usize)
        requires
            old(self).wf(),
            tid < old(self).ts().len(),
        ensures
            final(self).wf(),
            final(self).cur() == tid,
            final(self).ts() == old(self).ts().update(
                tid as int,
                Thread { redirected: false, ..old(self).ts()[tid as int] },
            ),
    {
        self.current = tid;
        let mut t = self.threads[tid];
        t.redirected = false;
        self.threads.set(tid, t);
    }

    /// The current thread exits with `code`.
    pub fn exit_current(&mut self, code: u64)
        requires
            old(self).wf(),
        ensures
            final(self).wf(),
            final(self).cur() == old(self).cur(),
            final(self).ts() == old(self).ts().update(
                old(self).cur(),
                Thread { state: ThreadState::Exited(code), ..old(self).ts()[old(self).cur()] },
            ),
    {
        let c = self.current;
        let mut t = self.threads[c];
        t.state = ThreadState::Exited(code);
        self.threads.set(c, t);
    }

    /// Wake every thread joined on `tid` (called at `tid`'s exit).
    pub fn unblock_joiners_of(&mut self, tid: usize)
        requires
            old(self).wf(),
        ensures
            final(self).wf(),
            final(self).cur() == old(self).cur(),
            final(self).ts().len() == old(self).ts().len(),
            forall|i: int|
                0 <= i < old(self).ts().len() ==> final(self).ts()[i] == released(
                    old(self).ts()[i],
                    BlockReason::Join { target: tid },
                ),
    {
        let ghost t0 = self.threads@;
        let mut i: usize = 0;
        while i < self.threads.len()
            invariant
                self.wf(),
                self.cur() == old(self).cur(),
                t0 == old(self).ts(),
                i <= self.threads@.len(),
                self.threads@.len() == t0.len(),
                forall|j: int| 0 <= j < i ==> self.threads@[j] == released(t0[j], BlockReason::Join { target: tid }),
                forall|j: int| i <= j < t0.len() ==> self.threads@[j] == t0[j],
            decreases t0.len() - i,
        {
            let mut t = self.threads[i];
            if t.state == ThreadState::Blocked(BlockReason::Join { target: tid }) {
                t.state = ThreadState::Runnable;
                self.threads.set(i, t);
            }
            i += 1;
        }
    }

    /// Wake every thread waiting on exactly `addr`; returns how many were woken.
    pub fn unblock_waiters_on(&mut self, addr: u64) -> (r: usize)
        requires
            old(self).wf(),
        ensures
            final(self).wf(),
            final(self).cur() == old(self).cur(),
            r == waiting_on_count(old(self).ts(), addr),
            final(self).ts().len() == old(self).ts().len(),
            forall|i: int|
                0 <= i < old(self).ts().len() ==> final(self).ts()[i] == released(
                    old(self).ts()[i],
                    BlockReason::Wait { addr },
                ),
    {
        let ghost t0 = self.threads@;
        let mut woken: usize = 0;
        let mut i: usize = 0;
        while i < self.threads.len()
            invariant
                self.wf(),
                self.cur() == old(self).cur(),
                t0 == old(self).ts(),
                i <= self.threads@.len(),
                self.threads@.len() == t0.len(),
                woken == waiting_on_count(t0.take(i as int), addr),
                woken <= i,
                forall|j: int| 0 <= j < i ==> self.threads@[j] == released(t0[j], BlockReason::Wait { addr }),
                forall|j: int| i <= j < t0.len() ==> self.threads@[j] == t0[j],
            decreases t0.len() - i,
        {
            assert(t0.take(i as int + 1).drop_last() =~= t0.take(i as int));
            let mut t = self.threads[i];
            if t.state == ThreadState::Blocked(BlockReason::Wait { addr }) {
                t.state = ThreadState::Runnable;
                self.threads.set(i, t);
                woken += 1;
            }
            i += 1;
        }
        assert(t0.take(i as int) =~= t0);
        woken
    }

    /// Must the vCPU move to another thread before it can run again? Only when the current thread
    /// is not runnable, so a single-threaded guest never reschedules.
    pub fn needs_reschedule(&self) -> (r: bool)
        requires
            self.wf(),
        ensures
            r == !(self.ts()[self.cur()].state is Runnable),
    {
        !matches!(self.state_of(self.current), ThreadState::Runnable)
    }

    /// The scheduler: the lowest-indexed runnable thread, or `None` (a deadlock) when none is.
    pub fn pick_next(&self) -> (r: Option<usize>)
        ensures
            match r {
                Some(t) => {
                    &&& t < self.ts().len()
                    &&& self.ts()[t as int].state is Runnable
                    &&& forall|j: int| 0 <= j < t ==> !(self.ts()[j].state is Runnable)
                },
                None => forall|j: int| 0 <= j < self.ts().len() ==> !(self.ts()[j].state is Runnable),
            },
    {
        let mut i: usize = 0;
        while i < self.threads.len()
            invariant
                i <= self.threads@.len(),
                forall|j: int| 0 <= j < i ==> !(self.threads@[j].state is Runnable),
            decreases self.threads@.len() - i,
        {
            if matches!(self.threads[i].state, ThreadState::Runnable) {
                return Some(i);
            }
            i += 1;
        }
        None
    }
}

} // verus!
