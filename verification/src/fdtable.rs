//! The guest's file-descriptor table: guest-visible slots, and the record-only map from a guest
//! descriptor to the host descriptor that backs it.
use vstd::prelude::*;
use crate::arch::{fd_positions, syscall_row, Ret, SYS_CLOSE, SYS_CLOSE_NOCANCEL, SYS_WRITE, SYS_WRITE_NOCANCEL};

verus! {

/// `EBADF`: the answer for a guest descriptor that is not open, with nothing forwarded.
pub const EBADF: u64 = 9;

/// `dup2` accepts a target strictly below this bound (`OPEN_MAX`); anything else is `EBADF`.
pub const DUP2_MAX_FD: u64 = 10240;

/// One entry of the guest's descriptor space.
///
/// `Closed` is distinct from `Free`: both answer `EBADF`, but a checkpoint restore must tell "the
/// guest closed this" from "never used". `Console(k)` is an open descriptor that aliases the
/// console descriptor `k`, so a write through it is still a console write.
#[derive(Debug, Clone, Copy, PartialEq, Eq, Structural)]
pub enum FdSlot {
    Free,
    Open,
    Closed,
    Console(u64),
}

/// A slot the guest holds open.
pub open spec fn slot_open(s: FdSlot) -> bool {
    s is Open || s is Console
}

/// The slot of descriptor `g` in `slots`; a descriptor past the end is `Free`.
pub open spec fn slot_in(slots: Seq<FdSlot>, g: int) -> FdSlot {
    if 0 <= g < slots.len() {
        slots[g]
    } else {
        FdSlot::Free
    }
}

/// The first descriptor `>= i` that is not open (`slots.len()` when all from `i` on are open).
pub open spec fn first_not_open_from(slots: Seq<FdSlot>, i: int) -> int
    decreases slots.len() - i,
{
    if i >= slots.len() {
        i
    } else if !slot_open(slots[i]) {
        i
    } else {
        first_not_open_from(slots, i + 1)
    }
}

/// The descriptor `alloc` hands out: the lowest one `>= 3` that is not open.
pub open spec fn alloc_target(slots: Seq<FdSlot>) -> int {
    first_not_open_from(slots, 3)
}

/// `s` extended with `fill` up to length `n` (unchanged when it is already that long).
pub open spec fn grown<T>(s: Seq<T>, n: int, fill: T) -> Seq<T> {
    if s.len() >= n {
        s
    } else {
        s + Seq::new((n - s.len()) as nat, |k: int| fill)
    }
}

/// The slots `from_slots` rebuilds the host map for: 0, 1 and 2, when open, map onto themselves.
pub open spec fn restored_host(slots: Seq<FdSlot>) -> Seq<Option<i32>> {
    Seq::new(
        slots.len(),
        |g: int|
            if g < 3 && slot_open(slots[g]) {
                Some(g as i32)
            } else {
                None
            },
    )
}

/// The slot `dup2` writes at its target: the console kind travels with the alias.
pub open spec fn dup_kind(src: FdSlot) -> FdSlot {
    match src {
        FdSlot::Console(k) => FdSlot::Console(k),
        _ => FdSlot::Open,
    }
}

/// The step `translate_fds` applies to one operand: a negative value is a sentinel and passes
/// through; a descriptor becomes its host descriptor.
pub open spec fn xlat_value(host: Seq<Option<i32>>, v: u64) -> u64 {
    if (v as i64) < 0 {
        v
    } else {
        match slot_host(host, v as int) {
            Some(h) => h as u64,
            None => v,
        }
    }
}

/// The host descriptor recorded for `g`; none past the end.
pub open spec fn slot_host(host: Seq<Option<i32>>, g: int) -> Option<i32> {
    if 0 <= g < host.len() {
        host[g]
    } else {
        None
    }
}

/// An operand value `translate_fds` accepts: a sentinel, or a descriptor with a host mapping.
pub open spec fn xlat_ok(host: Seq<Option<i32>>, v: u64) -> bool {
    (v as i64) < 0 || slot_host(host, v as int) is Some
}

/// The guest's descriptor table.
///
/// `slots` is guest-visible state, a function of the guest's own open/dup/close sequence and the
/// sole authority on `EBADF`; `host` maps a guest descriptor to the host one behind it and exists
/// only while recording. Both have the same length.
#[derive(Debug, Clone)]
pub struct FdTable {
    slots: Vec<FdSlot>,
    host: Vec<Option<i32>>,
}

impl FdTable {
    /// The guest-visible slots.
    pub closed spec fn slot_seq(&self) -> Seq<FdSlot> {
        self.slots@
    }

    /// The host descriptor of each slot.
    pub closed spec fn host_seq(&self) -> Seq<Option<i32>> {
        self.host@
    }

    /// The two halves describe the same descriptors.
    pub open spec fn wf(&self) -> bool {
        self.slot_seq().len() == self.host_seq().len()
    }

    /// Fresh table: 0, 1 and 2 open as the console, mapped identically onto the host's 0, 1, 2.
    pub fn new() -> (t: FdTable)
        ensures
            t.wf(),
            t.slot_seq() == seq![FdSlot::Console(0), FdSlot::Console(1), FdSlot::Console(2)],
            t.host_seq() == seq![Some(0i32), Some(1i32), Some(2i32)],
    {
        let t = FdTable {
            slots: vec![FdSlot::Console(0), FdSlot::Console(1), FdSlot::Console(2)],
            host: vec![Some(0), Some(1), Some(2)],
        };
        assert(t.slots@ =~= seq![FdSlot::Console(0), FdSlot::Console(1), FdSlot::Console(2)]);
        assert(t.host@ =~= seq![Some(0i32), Some(1i32), Some(2i32)]);
        t
    }

    /// Make `gfd` an index of both halves, filling new slots with `Free` and no host descriptor.
    fn grow_to(&mut self, gfd: usize)
        requires
            old(self).wf(),
            gfd < usize::MAX,
        ensures
            final(self).wf(),
            final(self).slot_seq() == grown(old(self).slot_seq(), gfd + 1, FdSlot::Free),
            final(self).host_seq() == grown(old(self).host_seq(), gfd + 1, None),
    {
        let ghost s0 = self.slots@;
        let ghost h0 = self.host@;
        if self.slots.len() <= gfd {
            while self.slots.len() <= gfd
                invariant
                    gfd < usize::MAX,
                    s0.len() <= self.slots@.len() <= gfd + 1,
                    self.slots@.len() == self.host@.len(),
                    s0.len() == h0.len(),
                    self.slots@ =~= s0 + Seq::new(
                        (self.slots@.len() - s0.len()) as nat,
                        |k: int| FdSlot::Free,
                    ),
                    self.host@ =~= h0 + Seq::new(
                        (self.host@.len() - h0.len()) as nat,
                        |k: int| None::<i32>,
                    ),
                decreases gfd + 1 - self.slots@.len(),
            {
                self.slots.push(FdSlot::Free);
                self.host.push(None);
            }
        }
    }

    /// Lowest descriptor `>= 3` that is not open, POSIX-style, now marked open. Deterministic: a
    /// recorded guest descriptor is a function of the guest, not of the host's open files.
    /// A `Closed` slot is reused like a `Free` one.
    pub fn allocate(&mut self) -> (r: u64)
        requires
            old(self).wf(),
            old(self).slot_seq().len() < usize::MAX,
        ensures
            final(self).wf(),
            r == alloc_target(old(self).slot_seq()),
            final(self).slot_seq() == grown(old(self).slot_seq(), r + 1, FdSlot::Free).update(
                r as int,
                FdSlot::Open,
            ),
            final(self).host_seq() == grown(old(self).host_seq(), r + 1, None),
    {
        let n = self.slots.len();
        let mut i: usize = 3;
        let mut found = false;
        while i < n
            invariant_except_break
                3 <= i,
                n >= 3 ==> i <= n,
                n == self.slots@.len(),
                first_not_open_from(self.slots@, 3) == first_not_open_from(self.slots@, i as int),
                !found,
            ensures
                n == self.slots@.len(),
                found ==> i < n && first_not_open_from(self.slots@, 3) == i,
                !found ==> first_not_open_from(self.slots@, 3) == if n < 3 { 3 } else { n as int },
            decreases n - i,
        {
            if !matches!(self.slots[i], FdSlot::Open | FdSlot::Console(_)) {
                found = true;
                break;
            }
            i += 1;
        }
        let gfd: usize = if found {
            i
        } else if n < 3 {
            3
        } else {
            n
        };
        self.grow_to(gfd);
        self.slots.set(gfd, FdSlot::Open);
        gfd as u64
    }

    /// Record the host descriptor behind guest descriptor `gfd`.
    pub fn bind(&mut self, gfd: u64, host_fd: i32)
        requires
            old(self).wf(),
            gfd < usize::MAX,
        ensures
            final(self).wf(),
            final(self).slot_seq() == grown(old(self).slot_seq(), gfd + 1, FdSlot::Free),
            final(self).host_seq() == grown(old(self).host_seq(), gfd + 1, None).update(
                gfd as int,
                Some(host_fd),
            ),
    {
        self.grow_to(gfd as usize);
        self.host.set(gfd as usize, Some(host_fd));
    }

    /// The host descriptor behind guest descriptor `gfd`, if any.
    pub fn host(&self, gfd: u64) -> (r: Option<i32>)
        ensures
            r == slot_host(self.host_seq(), gfd as int),
    {
        if gfd < self.host.len() as u64 {
            self.host[gfd as usize]
        } else {
            None
        }
    }

    /// Does the guest hold `gfd` open?
    pub fn is_open(&self, gfd: u64) -> (b: bool)
        ensures
            b == slot_open(slot_in(self.slot_seq(), gfd as int)),
    {
        if gfd < self.slots.len() as u64 {
            matches!(self.slots[gfd as usize], FdSlot::Open | FdSlot::Console(_))
        } else {
            false
        }
    }

    /// The console descriptor that `gfd` aliases, if it is a console slot.
    pub fn console_of(&self, gfd: u64) -> (r: Option<u64>)
        ensures
            r == match slot_in(self.slot_seq(), gfd as int) {
                FdSlot::Console(k) => Some(k),
                _ => None,
            },
    {
        if gfd < self.slots.len() as u64 {
            match self.slots[gfd as usize] {
                FdSlot::Console(k) => Some(k),
                _ => None,
            }
        } else {
            None
        }
    }

    /// Mark `gfd` closed and drop its host mapping. `false`: the guest closed something it did not
    /// have open, and nothing changes (the caller answers `EBADF`).
    pub fn close(&mut self, gfd: u64) -> (b: bool)
        requires
            old(self).wf(),
        ensures
            final(self).wf(),
            b == slot_open(slot_in(old(self).slot_seq(), gfd as int)),
            b ==> final(self).slot_seq() == old(self).slot_seq().update(gfd as int, FdSlot::Closed),
            b ==> final(self).host_seq() == old(self).host_seq().update(gfd as int, None),
            !b ==> final(self).slot_seq() == old(self).slot_seq(),
            !b ==> final(self).host_seq() == old(self).host_seq(),
    {
        if !self.is_open(gfd) {
            return false;
        }
        self.slots.set(gfd as usize, FdSlot::Closed);
        self.host.set(gfd as usize, None);
        true
    }

    /// A copy of the guest-visible slots.
    pub fn slots(&self) -> (r: Vec<FdSlot>)
        ensures
            r@ == self.slot_seq(),
    {
        let mut r: Vec<FdSlot> = Vec::new();
        let mut i: usize = 0;
        while i < self.slots.len()
            invariant
                i <= self.slots@.len(),
                r@ =~= self.slots@.take(i as int),
            decreases self.slots@.len() - i,
        {
            r.push(self.slots[i]);
            i += 1;
        }
        r
    }

    /// Rebuild guest-visible state (checkpoint restore and replay). No host mapping is carried for
    /// guest-opened descriptors: those exist only while recording. The console identity mapping is
    /// a constant, so it is rebuilt for whichever of 0, 1, 2 are open.
    pub fn from_slots(slots: &[FdSlot]) -> (t: FdTable)
        ensures
            t.wf(),
            t.slot_seq() == slots@,
            t.host_seq() == restored_host(slots@),
    {
        let mut s: Vec<FdSlot> = Vec::new();
        let mut host: Vec<Option<i32>> = Vec::new();
        let mut g: usize = 0;
        while g < slots.len()
            invariant
                g <= slots@.len(),
                s@ =~= slots@.take(g as int),
                host@ =~= restored_host(slots@).take(g as int),
            decreases slots@.len() - g,
        {
            let open = matches!(slots[g], FdSlot::Open | FdSlot::Console(_));
            if g < 3 && open {
                host.push(Some(g as i32));
            } else {
                host.push(None);
            }
            s.push(slots[g]);
            g += 1;
        }
        assert(s@ =~= slots@);
        assert(host@ =~= restored_host(slots@));
        FdTable { slots: s, host }
    }

    /// `dup2(src, dst, host)`: make `dst` an alias of `src`, recording `host` as the host
    /// descriptor behind it. `Ok((dst, displaced))`, where `displaced` is the host descriptor `dst`
    /// held if it was open (the caller closes it). `src == dst` changes nothing. `EBADF` when `src`
    /// is not open or `dst` is out of range, and then nothing changes.
    pub fn dup2(&mut self, src: u64, dst: u64, host: Option<i32>) -> (r: Result<(u64, Option<i32>), u64>)
        requires
            old(self).wf(),
        ensures
            final(self).wf(),
            r is Err <==> !slot_open(slot_in(old(self).slot_seq(), src as int)) || dst >= DUP2_MAX_FD,
            r is Err ==> r == Err::<(u64, Option<i32>), u64>(EBADF),
            r is Err || src == dst ==> final(self).slot_seq() == old(self).slot_seq()
                && final(self).host_seq() == old(self).host_seq(),
            r is Ok && src == dst ==> r == Ok::<(u64, Option<i32>), u64>((dst, None)),
            r is Ok && src != dst ==> {
                &&& r == Ok::<(u64, Option<i32>), u64>((
                    dst,
                    if slot_open(slot_in(old(self).slot_seq(), dst as int)) {
                        slot_host(old(self).host_seq(), dst as int)
                    } else {
                        None
                    },
                ))
                &&& final(self).slot_seq() == grown(old(self).slot_seq(), dst + 1, FdSlot::Free).update(
                    dst as int,
                    dup_kind(slot_in(old(self).slot_seq(), src as int)),
                )
                &&& final(self).host_seq() == grown(old(self).host_seq(), dst + 1, None).update(
                    dst as int,
                    host,
                )
            },
    {
        if !self.is_open(src) || dst >= DUP2_MAX_FD {
            return Err(EBADF);
        }
        if src == dst {
            return Ok((dst, None));
        }
        let n = self.slots.len();
        assert(src < n);
        let kind = match self.slots[src as usize] {
            FdSlot::Console(k) => FdSlot::Console(k),
            _ => FdSlot::Open,
        };
        let displaced = if self.is_open(dst) {
            self.host(dst)
        } else {
            None
        };
        self.grow_to(dst as usize);
        self.slots.set(dst as usize, kind);
        self.host.set(dst as usize, host);
        Ok((dst, displaced))
    }
}

/// A write to `g` is a console write: `write` by either spelling, through a slot that aliases
/// the console's stdout or stderr.
pub open spec fn console_write_at(slots: Seq<FdSlot>, num: u64, g: int) -> bool {
    &&& (num == SYS_WRITE || num == SYS_WRITE_NOCANCEL)
    &&& (slot_in(slots, g) == FdSlot::Console(1) || slot_in(slots, g) == FdSlot::Console(2))
}

/// A close of `g` is a console close: `close` by either spelling, of one of 0, 1, 2 whose slot is
/// still its own console kind and whose host descriptor is still the identical one.
pub open spec fn console_close_at(slots: Seq<FdSlot>, host: Seq<Option<i32>>, num: u64, g: int) -> bool {
    &&& (num == SYS_CLOSE || num == SYS_CLOSE_NOCANCEL)
    &&& 0 <= g <= 2
    &&& slot_in(slots, g) == FdSlot::Console(g as u64)
    &&& slot_host(host, g) == Some(g as i32)
}

impl FdTable {
    /// `dup(src)`: the lowest descriptor `>= 3` that is not open becomes an alias of `src`, of the
    /// same kind (a console alias stays one), with no host descriptor yet. `EBADF` when `src` is
    /// not open, and then nothing changes.
    pub fn dup(&mut self, src: u64) -> (r: Result<u64, u64>)
        requires
            old(self).wf(),
            old(self).slot_seq().len() < usize::MAX,
        ensures
            final(self).wf(),
            r is Err <==> !slot_open(slot_in(old(self).slot_seq(), src as int)),
            r is Err ==> r == Err::<u64, u64>(EBADF) && final(self).slot_seq() == old(self).slot_seq()
                && final(self).host_seq() == old(self).host_seq(),
            r matches Ok(g) ==> {
                &&& g == alloc_target(old(self).slot_seq())
                &&& final(self).slot_seq() == grown(old(self).slot_seq(), g + 1, FdSlot::Free).update(
                    g as int,
                    dup_kind(slot_in(old(self).slot_seq(), src as int)),
                )
                &&& final(self).host_seq() == grown(old(self).host_seq(), g + 1, None)
            },
    {
        if !self.is_open(src) {
            return Err(EBADF);
        }
        let kind = match self.slots[src as usize] {
            FdSlot::Console(k) => FdSlot::Console(k),
            _ => FdSlot::Open,
        };
        let ghost before = self.slots@;
        assert(kind == dup_kind(slot_in(before, src as int)));
        let g = self.allocate();
        let ghost mid = self.slots@;
        assert(mid == grown(before, g + 1, FdSlot::Free).update(g as int, FdSlot::Open));
        let n = self.slots.len();
        assert(g < n);
        let gi = g as usize;
        assert(gi as int == g as int);
        self.slots.set(gi, kind);
        assert(mid.update(g as int, kind) =~= grown(before, g + 1, FdSlot::Free).update(g as int, kind));
        Ok(g)
    }

    /// Is this syscall a write to the console: `write` through a descriptor whose slot aliases
    /// stdout or stderr (a `dup2` alias included, a displaced or closed slot not)?
    pub fn is_console_write(&self, num: u64, gfd: u64) -> (b: bool)
        ensures
            b == console_write_at(self.slot_seq(), num, gfd as int),
    {
        if num != SYS_WRITE && num != SYS_WRITE_NOCANCEL {
            return false;
        }
        match self.console_of(gfd) {
            Some(k) => k == 1 || k == 2,
            None => false,
        }
    }

    /// Is this syscall a close of the console itself: `close` of 0, 1 or 2 while its slot is
    /// still that console descriptor and its host descriptor still the identical one? Any other
    /// close (an alias, a displaced or re-aliased slot) goes the generic way.
    pub fn is_console_close(&self, num: u64, gfd: u64) -> (b: bool)
        ensures
            b == console_close_at(self.slot_seq(), self.host_seq(), num, gfd as int),
    {
        if num != SYS_CLOSE && num != SYS_CLOSE_NOCANCEL {
            return false;
        }
        if gfd > 2 {
            return false;
        }
        let same_kind = match self.console_of(gfd) {
            Some(k) => k == gfd,
            None => false,
        };
        let same_host = match self.host(gfd) {
            Some(h) => h == gfd as i32,
            None => false,
        };
        same_kind && same_host
    }
}

impl Default for FdTable {
    /// An empty table: no descriptor open.
    fn default() -> (t: FdTable)
        ensures
            t.wf(),
            t.slot_seq() == Seq::<FdSlot>::empty(),
            t.host_seq() == Seq::<Option<i32>>::empty(),
    {
        FdTable { slots: Vec::new(), host: Vec::new() }
    }
}

/// The operand positions `num` carries a guest descriptor in (none for an unenumerated syscall).
pub open spec fn fd_operand_positions(num: u64) -> Seq<usize> {
    match syscall_row(num) {
        Some((a, _)) => fd_positions(a),
        None => Seq::empty(),
    }
}

/// `args` with the operands at `ps[0..n)` translated.
pub open spec fn translated_upto(host: Seq<Option<i32>>, args: Seq<u64>, ps: Seq<usize>, n: int) -> Seq<u64>
    decreases n,
{
    if n <= 0 {
        args
    } else {
        let p = ps[n - 1] as int;
        translated_upto(host, args, ps, n - 1).update(p, xlat_value(host, args[p]))
    }
}

/// The first operand position, from the `k`-th on, whose value `translate_fds` refuses
/// (`ps.len()` when it refuses none).
pub open spec fn first_refused_from(host: Seq<Option<i32>>, args: Seq<u64>, ps: Seq<usize>, k: int) -> int
    decreases ps.len() - k,
{
    if k >= ps.len() {
        ps.len() as int
    } else if !xlat_ok(host, args[ps[k] as int]) {
        k
    } else {
        first_refused_from(host, args, ps, k + 1)
    }
}

/// The positions of `Fd` arguments increase strictly and lie inside the row.
proof fn lemma_fd_positions_increase(s: Seq<crate::arch::ArgKind>)
    requires
        s.len() <= 8,
    ensures
        forall|i: int, j: int|
            0 <= i < j < fd_positions(s).len() ==> fd_positions(s)[i] < fd_positions(s)[j],
        forall|i: int| 0 <= i < fd_positions(s).len() ==> fd_positions(s)[i] < s.len(),
    decreases s.len(),
{
    if s.len() > 0 {
        let d = s.drop_last();
        lemma_fd_positions_increase(d);
        let p = fd_positions(d);
        assert(forall|i: int| 0 <= i < p.len() ==> p[i] < d.len());
        if s.last() == crate::arch::ArgKind::Fd {
            let q = p.push((s.len() - 1) as usize);
            assert(q[p.len() as int] == s.len() - 1);
            assert(fd_positions(s) == q);
        } else {
            assert(fd_positions(s) == p);
        }
    }
}

/// `translated_upto` changes nothing at or above a position larger than every translated one.
proof fn lemma_translated_upto_frame(host: Seq<Option<i32>>, args: Seq<u64>, ps: Seq<usize>, n: int, i: int)
    requires
        0 <= n <= ps.len(),
        0 <= i < args.len(),
        forall|a: int| 0 <= a < ps.len() ==> ps[a] < args.len(),
        forall|a: int, b: int| 0 <= a < b < ps.len() ==> ps[a] < ps[b],
        n == 0 || i > ps[n - 1],
    ensures
        translated_upto(host, args, ps, n).len() == args.len(),
        translated_upto(host, args, ps, n)[i] == args[i],
    decreases n,
{
    if n > 0 {
        if n > 1 {
            assert(ps[n - 2] < ps[n - 1]);
        }
        lemma_translated_upto_frame(host, args, ps, n - 1, i);
    }
}

/// Rewrite every guest descriptor operand of `num` in `args`, in order, to its host descriptor.
/// A negative operand (`AT_FDCWD` and the like) is a sentinel and passes through. `Err(EBADF)` at
/// the first descriptor with no host mapping: the caller forwards nothing, since the number may be
/// a live descriptor of the recorder's own; operands before it are already rewritten. Only a
/// syscall with a row in the argument table is ever forwarded, so only such a number is accepted.
pub fn translate_fds(fds: &FdTable, num: u64, args: &mut [u64; 8]) -> (r: Result<(), u64>)
    requires
        syscall_row(num) is Some,
    ensures
        ({
            let ps = fd_operand_positions(num);
            let k = first_refused_from(fds.host_seq(), old(args)@, ps, 0);
            &&& r is Ok <==> k == ps.len()
            &&& r is Err ==> r == Err::<(), u64>(EBADF)
            &&& final(args)@ == translated_upto(fds.host_seq(), old(args)@, ps, k)
        }),
{
    let shape = crate::arch::forwarded_shape(num);
    let ps = shape.fd_operands();
    let ghost a0 = args@;
    let ghost host = fds.host_seq();
    proof {
        crate::arch::lemma_rows_fit_the_register_file(num);
        match syscall_row(num) {
            Some((a, _)) => lemma_fd_positions_increase(a),
            None => {},
        }
    }
    assert(forall|i: int| 0 <= i < ps@.len() ==> ps@[i] < 8);
    let mut k: usize = 0;
    while k < ps.len()
        invariant
            k <= ps@.len(),
            ps@ == fd_operand_positions(num),
            forall|i: int| 0 <= i < ps@.len() ==> ps@[i] < 8,
            forall|a: int, b: int| 0 <= a < b < ps@.len() ==> ps@[a] < ps@[b],
            host == fds.host_seq(),
            a0.len() == 8,
            a0 == old(args)@,
            args@ == translated_upto(host, a0, ps@, k as int),
            first_refused_from(host, a0, ps@, 0) == first_refused_from(host, a0, ps@, k as int),
        decreases ps@.len() - k,
    {
        let p = ps[k];
        proof {
            lemma_translated_upto_frame(host, a0, ps@, k as int, p as int);
        }
        let v = args[p];
        if (#[verifier::truncate] (v as i64)) < 0 {
            assert(args@.update(p as int, xlat_value(host, a0[p as int])) =~= args@);
        } else {
            match fds.host(v) {
                Some(h) => {
                    args[p] = #[verifier::truncate] (h as u64);
                },
                None => {
                    assert(!xlat_ok(host, a0[ps@[k as int] as int]));
                    return Err(EBADF);
                },
            }
        }
        k += 1;
    }
    Ok(())
}

/// Give a descriptor-returning syscall's host result a fresh guest slot, and return the GUEST
/// descriptor: the number the trace records and the guest sees.
pub fn bind_returned_fd(fds: &mut FdTable, num: u64, host_ret: u64) -> (g: u64)
    requires
        old(fds).wf(),
        old(fds).slot_seq().len() < usize::MAX,
        syscall_row(num) matches Some((_, ret)) && ret == Ret::Fd,
    ensures
        final(fds).wf(),
        g == alloc_target(old(fds).slot_seq()),
        final(fds).slot_seq() == grown(old(fds).slot_seq(), g + 1, FdSlot::Free).update(
            g as int,
            FdSlot::Open,
        ),
        final(fds).host_seq() == grown(old(fds).host_seq(), g + 1, None).update(
            g as int,
            Some(#[verifier::truncate] (host_ret as i32)),
        ),
{
    proof {
        lemma_alloc_takes_lowest_not_open(old(fds).slot_seq());
    }
    let g = fds.allocate();
    fds.bind(g, #[verifier::truncate] (host_ret as i32));
    g
}

/// A buffer-filling syscall's forwarded byte count, capped at the destination's available bytes
/// so the host kernel never writes past the backing.
pub fn clamp_count(avail: usize, count: usize) -> (r: usize)
    ensures
        r == if count <= avail { count } else { avail },
{
    if count <= avail {
        count
    } else {
        avail
    }
}

/// The next descriptor `alloc` hands out is the lowest one `>= 3` that is not open.
pub proof fn lemma_alloc_takes_lowest_not_open(slots: Seq<FdSlot>)
    ensures
        3 <= alloc_target(slots),
        alloc_target(slots) <= if slots.len() < 3 { 3 } else { slots.len() as int },
        !slot_open(slot_in(slots, alloc_target(slots))),
        forall|j: int| 3 <= j < alloc_target(slots) ==> slot_open(slot_in(slots, j)),
{
    lemma_first_not_open_from(slots, 3);
}

proof fn lemma_first_not_open_from(slots: Seq<FdSlot>, i: int)
    requires
        i >= 3,
    ensures
        i <= first_not_open_from(slots, i),
        first_not_open_from(slots, i) <= if slots.len() < i { i } else { slots.len() as int },
        !slot_open(slot_in(slots, first_not_open_from(slots, i))),
        forall|j: int| i <= j < first_not_open_from(slots, i) ==> slot_open(slot_in(slots, j)),
    decreases slots.len() - i,
{
    if i < slots.len() && slot_open(slots[i]) {
        lemma_first_not_open_from(slots, i + 1);
    }
}

/// Allocation opens exactly its descriptor: every other descriptor keeps whether it is open,
/// and no host descriptor changes.
pub proof fn lemma_alloc_changes_only_its_slot(
    slots: Seq<FdSlot>,
    host: Seq<Option<i32>>,
    slots2: Seq<FdSlot>,
    host2: Seq<Option<i32>>,
)
    requires
        slots.len() == host.len(),
        slots2 == grown(slots, alloc_target(slots) + 1, FdSlot::Free).update(alloc_target(slots), FdSlot::Open),
        host2 == grown(host, alloc_target(slots) + 1, None),
    ensures
        slot_open(slot_in(slots2, alloc_target(slots))),
        forall|j: int| j != alloc_target(slots) ==> slot_open(#[trigger] slot_in(slots2, j)) == slot_open(slot_in(slots, j)),
        forall|j: int| #[trigger] slot_host(host2, j) == slot_host(host, j),
{
    lemma_first_not_open_from(slots, 3);
}

/// Binding maps exactly its descriptor: `gfd` now has `host_fd` behind it, no descriptor changes
/// whether it is open, and every other descriptor keeps its host descriptor.
pub proof fn lemma_bind_maps_only_its_descriptor(
    slots: Seq<FdSlot>,
    host: Seq<Option<i32>>,
    slots2: Seq<FdSlot>,
    host2: Seq<Option<i32>>,
    gfd: u64,
    host_fd: i32,
)
    requires
        slots.len() == host.len(),
        slots2 == grown(slots, gfd + 1, FdSlot::Free),
        host2 == grown(host, gfd + 1, None).update(gfd as int, Some(host_fd)),
    ensures
        slot_host(host2, gfd as int) == Some(host_fd),
        forall|j: int| slot_open(#[trigger] slot_in(slots2, j)) == slot_open(slot_in(slots, j)),
        forall|j: int| j != gfd ==> #[trigger] slot_host(host2, j) == slot_host(host, j),
{
}

/// Closing an open descriptor `g >= 3` makes the next allocation the lower of `g` and the one it
/// would have been: a number the guest just closed is handed straight back when it is the lowest.
pub proof fn lemma_close_then_alloc_reuses(slots: Seq<FdSlot>, g: int)
    requires
        3 <= g < slots.len(),
        slot_open(slots[g]),
    ensures
        alloc_target(slots.update(g, FdSlot::Closed)) == if g < alloc_target(slots) {
            g
        } else {
            alloc_target(slots)
        },
{
    let t = slots.update(g, FdSlot::Closed);
    lemma_alloc_takes_lowest_not_open(slots);
    lemma_alloc_takes_lowest_not_open(t);
    let a = alloc_target(slots);
    let b = alloc_target(t);
    assert(slot_in(t, g) == FdSlot::Closed);
    if b < g {
        assert(slot_in(t, b) == slot_in(slots, b));
    }
    if g < a {
        assert(forall|j: int| 3 <= j < g ==> slot_in(t, j) == slot_in(slots, j));
        if b < g {
            assert(slot_open(slot_in(slots, b)));
        }
    } else {
        assert(a != g);
        assert(slot_in(t, a) == slot_in(slots, a));
        if b < a {
            if b != g {
                assert(slot_in(t, b) == slot_in(slots, b));
            }
        }
    }
}

/// Restoring from a table's own slots keeps every slot, rebuilds the console identity mapping for
/// the open descriptors among 0, 1, 2, and carries no host mapping for any other descriptor.
pub proof fn lemma_restore_keeps_guest_state(slots: Seq<FdSlot>, g: int)
    requires
        0 <= g < slots.len(),
    ensures
        g >= 3 ==> restored_host(slots)[g] is None,
        g < 3 && slot_open(slots[g]) ==> restored_host(slots)[g] == Some(g as i32),
        !slot_open(slots[g]) ==> restored_host(slots)[g] is None,
{
}

} // verus!
