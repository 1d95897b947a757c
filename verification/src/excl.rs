//! The shadow of the PE's local exclusive monitor, and the pure checks around it. The caller
//! reads the vCPU and guest memory and passes the values in, so every refusal of the
//! store-exclusive emulator is decided here, from plain values.
use vstd::prelude::*;
use vstd::bytes::{spec_u64_to_le_bytes, u64_to_le_bytes};
use crate::arch::{
    decode_excl, excl_of, is_barrier_word, is_fallthrough_barrier, ExclInsn,
};

verus! {

/// `TCR_EL1` sets TBI0, so a data VA may carry a tag in [63:56]; every address the shadow holds
/// or compares is stripped with this mask first.
pub const TAG_MASK: u64 = 0x00FF_FFFF_FFFF_FFFF;

/// How a shadow came to be set.
#[derive(Debug, Clone, Copy, PartialEq, Eq, Structural)]
pub enum SetBy {
    /// A single step retired the load-exclusive.
    Stepped,
    /// A native breakpoint or watchpoint stop, by the backward scan.
    Inferred,
}

/// The shadow: what the hardware monitor would hold, had the recorder's own exits not cleared it.
#[derive(Debug, Clone, PartialEq, Eq)]
pub struct Excl {
    /// The marked VA, tag stripped.
    pub va: u64,
    /// Bytes per element: 1, 2, 4 or 8.
    pub size: u8,
    pub pair: bool,
    /// The bytes the load returned: `access_len(size, pair)` of them.
    pub loaded: Vec<u8>,
    pub by: SetBy,
}

/// Bytes one exclusive access moves.
pub open spec fn access_bytes(size: u8, pair: bool) -> nat {
    if pair { 2 * size as nat } else { size as nat }
}

/// Bytes one exclusive access moves.
pub fn access_len(size: u8, pair: bool) -> (r: usize)
    ensures
        r == access_bytes(size, pair),
{
    size as usize * if pair { 2 } else { 1 }
}

/// Stage-1 AP[2:1] (descriptor bits 7:6) == 0b01 is the only encoding that lets EL0 write.
pub fn el0_writable(leaf: u64) -> (b: bool)
    ensures
        b == ((leaf >> 6) & 3 == 1),
{
    (leaf >> 6) & 3 == 1
}

/// What an emulated store-exclusive writes.
#[derive(Debug, Clone, PartialEq, Eq)]
pub struct StxPlan {
    /// The tag-stripped VA.
    pub va: u64,
    pub bytes: Vec<u8>,
    /// The status register to zero, or None for WZR.
    pub status: Option<u32>,
}

/// Why a store-exclusive cannot be emulated. Each refusal names the check that failed.
#[derive(Debug, Clone, Copy, PartialEq, Eq, Structural)]
pub enum StxRefusal {
    /// The instruction is not a store-exclusive.
    NotAStore,
    /// The status register aliases a data or base register (CONSTRAINED UNPREDICTABLE).
    StatusAliases { rs: u32 },
    /// The store's address, element size or pairing differs from the load's.
    Mismatch { va: u64, size: u8, pair: bool },
    /// The address is not aligned to the access size.
    Misaligned { va: u64, len: usize },
    /// Nothing is mapped at the address.
    Unmapped { va: u64 },
    /// The bytes at the address changed since the load.
    Drifted { va: u64 },
    /// The stage-1 leaf does not grant EL0 write.
    NotWritable { va: u64 },
}

impl StxRefusal {
    /// A one-line description of the refusal, naming the failed check.
    pub fn message(&self) -> (m: &'static str)
        ensures
            m@ == match *self {
                StxRefusal::NotAStore => "not a store-exclusive"@,
                StxRefusal::StatusAliases { .. } => "the status register aliases a data or base register (CONSTRAINED UNPREDICTABLE)"@,
                StxRefusal::Mismatch { .. } => "the store does not match the load"@,
                StxRefusal::Misaligned { .. } => "the address is not aligned to the access size"@,
                StxRefusal::Unmapped { .. } => "the address is unmapped"@,
                StxRefusal::Drifted { .. } => "the bytes at the address changed since the load"@,
                StxRefusal::NotWritable { .. } => "the address is not EL0-writable"@,
            },
    {
        match self {
            StxRefusal::NotAStore => "not a store-exclusive",
            StxRefusal::StatusAliases { .. } => {
                "the status register aliases a data or base register (CONSTRAINED UNPREDICTABLE)"
            },
            StxRefusal::Mismatch { .. } => "the store does not match the load",
            StxRefusal::Misaligned { .. } => "the address is not aligned to the access size",
            StxRefusal::Unmapped { .. } => "the address is unmapped",
            StxRefusal::Drifted { .. } => "the bytes at the address changed since the load",
            StxRefusal::NotWritable { .. } => "the address is not EL0-writable",
        }
    }
}

/// `u64::is_multiple_of`: `len` divides `va` (and only 0 is a multiple of 0).
pub open spec fn is_multiple(va: u64, len: nat) -> bool {
    if len == 0 { va == 0 } else { (va as nat) % len == 0 }
}

/// The little-endian bytes of the data registers a store writes: `size` bytes of `rt`, then
/// `size` bytes of `rt2` for a pair.
pub open spec fn stx_bytes(size: u8, pair: bool, rt_val: u64, rt2_val: u64) -> Seq<u8> {
    spec_u64_to_le_bytes(rt_val).take(size as int) + if pair {
        spec_u64_to_le_bytes(rt2_val).take(size as int)
    } else {
        Seq::empty()
    }
}

/// What validating a store-exclusive against the shadow gives: the checks in order, the first
/// failure naming the refusal.
pub open spec fn stx_outcome(
    ex_va: u64,
    ex_size: u8,
    ex_pair: bool,
    ex_loaded: Seq<u8>,
    st: ExclInsn,
    base: u64,
    rt_val: u64,
    rt2_val: u64,
    target: Option<Seq<u8>>,
    writable: bool,
) -> Result<(u64, Seq<u8>, Option<u32>), StxRefusal> {
    match st {
        ExclInsn::Load { .. } => Err(StxRefusal::NotAStore),
        ExclInsn::Store { size, pair, rs, rt, rt2, rn } => {
            let va = base & TAG_MASK;
            if rs == rt || (pair && rs == rt2) || (rs == rn && rn != 31) {
                Err(StxRefusal::StatusAliases { rs })
            } else if va != ex_va || size != ex_size || pair != ex_pair {
                Err(StxRefusal::Mismatch { va, size, pair })
            } else if !is_multiple(va, access_bytes(size, pair)) {
                Err(StxRefusal::Misaligned { va, len: access_bytes(size, pair) as usize })
            } else if target is None {
                Err(StxRefusal::Unmapped { va })
            } else if target->0 != ex_loaded {
                Err(StxRefusal::Drifted { va })
            } else if !writable {
                Err(StxRefusal::NotWritable { va })
            } else {
                Ok((va, stx_bytes(size, pair, rt_val, rt2_val), if rs != 31 { Some(rs) } else { None }))
            }
        },
    }
}

/// Do two byte slices hold the same first `n` bytes?
fn prefix_eq(a: &[u8], b: &[u8], n: usize) -> (r: bool)
    requires
        n <= a@.len(),
        n <= b@.len(),
    ensures
        r == (a@.take(n as int) == b@.take(n as int)),
{
    let mut i: usize = 0;
    while i < n
        invariant
            i <= n,
            n <= a@.len(),
            n <= b@.len(),
            a@.take(i as int) == b@.take(i as int),
        decreases n - i,
    {
        if a[i] != b[i] {
            assert(a@.take(n as int)[i as int] != b@.take(n as int)[i as int]);
            return false;
        }
        assert(a@.take(i as int + 1) =~= a@.take(i as int).push(a@[i as int]));
        assert(b@.take(i as int + 1) =~= b@.take(i as int).push(b@[i as int]));
        i += 1;
    }
    true
}

/// Do two byte slices hold the same bytes?
fn bytes_eq(a: &[u8], b: &[u8]) -> (r: bool)
    ensures
        r == (a@ == b@),
{
    if a.len() != b.len() {
        return false;
    }
    let r = prefix_eq(a, b, a.len());
    assert(a@.take(a@.len() as int) =~= a@);
    assert(b@.take(b@.len() as int) =~= b@);
    r
}

/// Validate a store-exclusive against the shadow and plan its write.
///
/// The caller reads every input: `base` is Rn's value (SP_EL0 when Rn is 31); `rt_val` and
/// `rt2_val` are the data registers (0 for XZR); `target` is the bytes now at the VA, None if
/// unmapped; `writable` says whether the stage-1 leaf grants EL0 write. A store of another size
/// than the shadow's is refused as a mismatch; a store that passes every check has the shadow's
/// element size, which must then be at most 8 bytes (a decoded load's always is).
pub fn plan_stx(
    ex: &Excl,
    st: ExclInsn,
    base: u64,
    rt_val: u64,
    rt2_val: u64,
    target: Option<&[u8]>,
    writable: bool,
) -> (r: Result<StxPlan, StxRefusal>)
    requires
        stx_outcome(ex.va, ex.size, ex.pair, ex.loaded@, st, base, rt_val, rt2_val,
            match target { Some(t) => Some(t@), None => None }, writable) is Ok ==> ex.size <= 8,
    ensures
        match (r, stx_outcome(ex.va, ex.size, ex.pair, ex.loaded@, st, base, rt_val, rt2_val,
            match target { Some(t) => Some(t@), None => None }, writable)) {
            (Ok(p), Ok((va, bytes, status))) => p.va == va && p.bytes@ == bytes && p.status == status,
            (Err(e1), Err(e2)) => e1 == e2,
            _ => false,
        },
{
    let (size, pair, rs, rt, rt2, rn) = match st {
        ExclInsn::Store { size, pair, rs, rt, rt2, rn } => (size, pair, rs, rt, rt2, rn),
        ExclInsn::Load { .. } => {
            return Err(StxRefusal::NotAStore);
        },
    };
    if rs == rt || (pair && rs == rt2) || (rs == rn && rn != 31) {
        return Err(StxRefusal::StatusAliases { rs });
    }
    let va = base & TAG_MASK;
    if va != ex.va || size != ex.size || pair != ex.pair {
        return Err(StxRefusal::Mismatch { va, size, pair });
    }
    let len = access_len(size, pair);
    let aligned = if len == 0 { va == 0 } else { va % (len as u64) == 0 };
    if !aligned {
        return Err(StxRefusal::Misaligned { va, len });
    }
    let target = match target {
        Some(t) => t,
        None => {
            return Err(StxRefusal::Unmapped { va });
        },
    };
    if !bytes_eq(target, ex.loaded.as_slice()) {
        return Err(StxRefusal::Drifted { va });
    }
    if !writable {
        return Err(StxRefusal::NotWritable { va });
    }
    let s = size as usize;
    let first = u64_to_le_bytes(rt_val);
    let mut bytes: Vec<u8> = Vec::new();
    let mut i: usize = 0;
    while i < s
        invariant
            i <= s,
            s <= 8,
            first@ == spec_u64_to_le_bytes(rt_val),
            first@.len() == 8,
            bytes@ == first@.take(i as int),
        decreases s - i,
    {
        bytes.push(first[i]);
        i += 1;
        assert(bytes@ =~= first@.take(i as int));
    }
    let ghost one = bytes@;
    if pair {
        let second = u64_to_le_bytes(rt2_val);
        let mut j: usize = 0;
        while j < s
            invariant
                j <= s,
                s <= 8,
                second@ == spec_u64_to_le_bytes(rt2_val),
                second@.len() == 8,
                bytes@ == one + second@.take(j as int),
            decreases s - j,
        {
            bytes.push(second[j]);
            j += 1;
            assert(bytes@ =~= one + second@.take(j as int));
        }
    } else {
        assert(bytes@ =~= one + Seq::<u8>::empty());
    }
    Ok(StxPlan { va, bytes, status: if rs != 31 { Some(rs) } else { None } })
}

/// A base register that is also a destination of the load was overwritten by it, so the marked
/// address is gone. SP (31) never is: 31 in a destination is XZR.
pub open spec fn base_is_dest(ld: ExclInsn) -> bool {
    match ld {
        ExclInsn::Load { pair, rt, rt2, rn, .. } => rn != 31 && (rn == rt || (pair && rn == rt2)),
        ExclInsn::Store { .. } => false,
    }
}

/// Does the load's base register also name one of its destinations?
pub fn base_aliases_dest(ld: ExclInsn) -> (b: bool)
    ensures
        b == base_is_dest(ld),
{
    match ld {
        ExclInsn::Load { pair, rt, rt2, rn, .. } => rn != 31 && (rn == rt || (pair && rn == rt2)),
        ExclInsn::Store { .. } => false,
    }
}

/// The backward scan from `i`: the nearest load-exclusive and its index, or None when a
/// store-exclusive or a fall-through barrier comes first, or the words run out.
pub open spec fn scan_from(words: Seq<u32>, i: int) -> Option<(usize, ExclInsn)>
    decreases words.len() - i,
{
    if i < 0 || i >= words.len() {
        None
    } else {
        match excl_of(words[i]) {
            Some(ExclInsn::Load { size, pair, rt, rt2, rn }) => Some(
                (i as usize, ExclInsn::Load { size, pair, rt, rt2, rn }),
            ),
            Some(_) => None,
            None => if is_barrier_word(words[i]) {
                None
            } else {
                scan_from(words, i + 1)
            },
        }
    }
}

/// The backward scan. `words[i]` is the instruction at `P - 4 * (i + 1)`, nearest first. Returns
/// the nearest load-exclusive and its index, or None if a store-exclusive, a `clrex` or a
/// fall-through barrier comes first: past any of those, the monitor cannot still hold that
/// load's mark on the path that falls through to P.
pub fn scan_back(words: &[u32]) -> (r: Option<(usize, ExclInsn)>)
    ensures
        r == scan_from(words@, 0),
        r matches Some((i, ld)) ==> i < words@.len() && ld is Load,
{
    let mut i: usize = 0;
    while i < words.len()
        invariant
            i <= words@.len(),
            scan_from(words@, 0) == scan_from(words@, i as int),
        decreases words@.len() - i,
    {
        let w = words[i];
        match decode_excl(w) {
            Some(ExclInsn::Load { size, pair, rt, rt2, rn }) => {
                return Some((i, ExclInsn::Load { size, pair, rt, rt2, rn }));
            },
            Some(_) => {
                return None;
            },
            None => {
                if is_fallthrough_barrier(w) {
                    return None;
                }
            },
        }
        i += 1;
    }
    None
}

/// A data-processing instruction, immediate (op0 `100x`) or register (op0 `x101`): it writes at
/// most its Rd, bits 4:0.
pub open spec fn is_data_processing(w: u32) -> bool {
    (w >> 26) & 7 == 0b100 || (w >> 25) & 7 == 0b101
}

/// A conditional branch (`B.cond`/`BC.cond`, `CBZ`/`CBNZ`, `TBZ`/`TBNZ`): it writes no register.
pub open spec fn is_cond_branch(w: u32) -> bool {
    w & 0xFF00_0000 == 0x5400_0000 || w & 0x7E00_0000 == 0x3400_0000 || w & 0x7E00_0000
        == 0x3600_0000
}

/// The registers a sequence of instructions writes, as a bitmask (bit 31 = SP or XZR), or None
/// if any of them has register effects outside the two known families.
pub open spec fn written_by(words: Seq<u32>) -> Option<u32>
    decreases words.len(),
{
    if words.len() == 0 {
        Some(0)
    } else {
        match written_by(words.drop_last()) {
            None => None,
            Some(acc) => {
                let w = words.last();
                if is_data_processing(w) {
                    Some(acc | (1u32 << (w & 0x1f)))
                } else if is_cond_branch(w) {
                    Some(acc)
                } else {
                    None
                }
            },
        }
    }
}

/// The registers the instructions strictly between the load and the stop write, as a bitmask
/// (bit 31 = SP or XZR), or None if any of them has register effects this does not know. A
/// data-processing instruction is counted as writing its Rd field even where that field is not a
/// register: for the base check that can only refuse.
pub fn regs_written(words: &[u32]) -> (r: Option<u32>)
    ensures
        r == written_by(words@),
{
    let mut acc: u32 = 0;
    let mut i: usize = 0;
    while i < words.len()
        invariant
            i <= words@.len(),
            written_by(words@.take(i as int)) == Some(acc),
        decreases words@.len() - i,
    {
        let w = words[i];
        assert(words@.take(i as int + 1).drop_last() =~= words@.take(i as int));
        if (w >> 26) & 7 == 0b100 || (w >> 25) & 7 == 0b101 {
            assert(w & 0x1f < 32) by (bit_vector);
            acc = acc | (1u32 << (w & 0x1f));
        } else if w & 0xFF00_0000 == 0x5400_0000 || w & 0x7E00_0000 == 0x3400_0000 || w
            & 0x7E00_0000 == 0x3600_0000 {
        } else {
            proof {
                assert(written_by(words@.take(i as int + 1)) is None);
                lemma_written_by_poisoned(words@, i as int + 1);
                assert(words@.take(words@.len() as int) =~= words@);
            }
            return None;
        }
        i += 1;
    }
    assert(words@.take(i as int) =~= words@);
    Some(acc)
}

/// One unknown instruction poisons every longer prefix.
proof fn lemma_written_by_poisoned(words: Seq<u32>, k: int)
    requires
        0 <= k <= words.len(),
        written_by(words.take(k)) is None,
    ensures
        written_by(words.take(words.len() as int)) is None,
    decreases words.len() - k,
{
    if k < words.len() {
        assert(words.take(k + 1).drop_last() =~= words.take(k));
        lemma_written_by_poisoned(words, k + 1);
    }
}

/// The destination check: each destination that is not 31 still holds the bytes at the VA
/// (`size` bytes of `rt`, and of `rt2` for a pair against the second element).
pub open spec fn dests_hold(ld: ExclInsn, rt_val: u64, rt2_val: u64, bytes: Seq<u8>) -> bool {
    match ld {
        ExclInsn::Load { size, pair, rt, rt2, .. } => {
            let s = size as int;
            (rt == 31 || spec_u64_to_le_bytes(rt_val).take(s) == bytes.take(s)) && (!pair || rt2
                == 31 || spec_u64_to_le_bytes(rt2_val).take(s) == bytes.subrange(s, 2 * s))
        },
        ExclInsn::Store { .. } => false,
    }
}

/// The load's destination registers still hold what is at its VA. The caller passes 31 for a
/// destination the sequence itself rewrites, so only the untouched ones are compared; 31 (XZR,
/// or rewritten) has nothing to compare. The bytes compared must be there to compare.
pub fn dests_match(ld: ExclInsn, rt_val: u64, rt2_val: u64, bytes: &[u8]) -> (b: bool)
    requires
        ld matches ExclInsn::Load { size, pair, rt, rt2, .. } ==> size <= 8 && (rt != 31 ==> size
            <= bytes@.len()) && (pair && rt2 != 31 ==> 2 * size <= bytes@.len()),
    ensures
        b == dests_hold(ld, rt_val, rt2_val, bytes@),
{
    let (size, pair, rt, rt2) = match ld {
        ExclInsn::Load { size, pair, rt, rt2, .. } => (size, pair, rt, rt2),
        ExclInsn::Store { .. } => {
            return false;
        },
    };
    let s = size as usize;
    let first_ok = if rt == 31 {
        true
    } else {
        let v = u64_to_le_bytes(rt_val);
        prefix_eq(v.as_slice(), bytes, s)
    };
    if !first_ok {
        return false;
    }
    if !pair || rt2 == 31 {
        return true;
    }
    let v2 = u64_to_le_bytes(rt2_val);
    let tail = &bytes[s..2 * s];
    let r = prefix_eq(v2.as_slice(), tail, s);
    assert(tail@.take(s as int) =~= bytes@.subrange(s as int, 2 * s));
    r
}

/// Where an inferred shadow would sit, before memory is read: the load found by the scan and
/// the checks that need no memory (the entry came before the load, the base is not one of the
/// load's destinations, everything between the halves has known effects and leaves the base
/// alone). Gives the marked VA, its access length, and the load with rewritten destinations
/// replaced by 31.
pub open spec fn infer_site(words: Seq<u32>, p: u64, entry_pc: u64, x: Seq<u64>, sp: u64) -> Option<
    (u64, nat, ExclInsn),
> {
    match scan_from(words, 0) {
        None => None,
        Some((i, ld)) => {
            let l = p - 4 * (i + 1);
            if entry_pc > l && entry_pc <= p {
                None
            } else if base_is_dest(ld) {
                None
            } else {
                site_after_scan(words.take(i as int), ld, x, sp)
            }
        },
    }
}

/// A destination the sequence rewrites is compared as 31, which compares nothing.
pub open spec fn untouched(written: u32, r: u32) -> u32 {
    if written & (1u32 << r) != 0 {
        31
    } else {
        r
    }
}

/// The site checks after the scan found `ld` with `between` the instructions in between.
pub open spec fn site_after_scan(between: Seq<u32>, ld: ExclInsn, x: Seq<u64>, sp: u64) -> Option<
    (u64, nat, ExclInsn),
> {
    match ld {
        ExclInsn::Store { .. } => None,
        ExclInsn::Load { size, pair, rt, rt2, rn } => {
            match written_by(between) {
                None => None,
                Some(written) => {
                    if written & (1u32 << rn) != 0 {
                        None
                    } else {
                        let base_val = if rn == 31 {
                            sp
                        } else {
                            x[rn as int]
                        };
                        Some(
                            (
                                base_val & TAG_MASK,
                                access_bytes(size, pair),
                                ExclInsn::Load {
                                    size,
                                    pair,
                                    rt: untouched(written, rt),
                                    rt2: untouched(written, rt2),
                                    rn,
                                },
                            ),
                        )
                    }
                },
            }
        },
    }
}

/// The value of data register `r` (31 is XZR).
pub open spec fn data_reg(x: Seq<u64>, r: u32) -> u64 {
    if r == 31 { 0 } else { x[r as int] }
}

/// The shadow inferred at a site, given what memory held there: nothing when unmapped or when an
/// untouched destination no longer holds the bytes, else the marked VA and the bytes.
pub open spec fn infer_at(
    site: (u64, nat, ExclInsn),
    x: Seq<u64>,
    orig_rt: u32,
    orig_rt2: u32,
    mem: Option<Seq<u8>>,
) -> Option<(u64, Seq<u8>)> {
    match mem {
        None => None,
        Some(bytes) => if bytes.len() == site.1 && dests_hold(
            site.2,
            data_reg(x, orig_rt),
            data_reg(x, orig_rt2),
            bytes,
        ) {
            Some((site.0, bytes))
        } else {
            None
        },
    }
}

/// The load the scan finds, as decoded (before any destination is replaced by 31).
pub open spec fn scanned_load(words: Seq<u32>) -> ExclInsn {
    match scan_from(words, 0) {
        Some((_, ld)) => ld,
        None => ExclInsn::Load { size: 0, pair: false, rt: 31, rt2: 31, rn: 31 },
    }
}

/// The shadow inferred from the words, registers and what memory held at the site.
pub open spec fn inferred(
    words: Seq<u32>,
    p: u64,
    entry_pc: u64,
    x: Seq<u64>,
    sp: u64,
    mem: Option<Seq<u8>>,
) -> Option<(u64, Seq<u8>)> {
    match infer_site(words, p, entry_pc, x, sp) {
        None => None,
        Some(site) => match scanned_load(words) {
            ExclInsn::Load { rt, rt2, .. } => infer_at(site, x, rt, rt2, mem),
            ExclInsn::Store { .. } => None,
        },
    }
}

/// Register fields of a decoded exclusive are five bits wide and element sizes at most 8.
proof fn lemma_excl_fields(w: u32)
    ensures
        excl_of(w) matches Some(ExclInsn::Load { size, rt, rt2, rn, .. }) ==> rt < 32 && rt2 < 32
            && rn < 32 && 1 <= size <= 8,
{
    assert(w & 0x1f < 32 && (w >> 5) & 0x1f < 32 && (w >> 10) & 0x1f < 32) by (bit_vector);
}

/// What the scan finds is a load, at an index inside the words.
proof fn lemma_scan_found(words: Seq<u32>, k: int)
    requires
        0 <= k,
        words.len() <= usize::MAX,
    ensures
        scan_from(words, k) matches Some((i, ld)) ==> k <= i < words.len() && excl_of(
            words[i as int],
        ) == Some(ld) && ld is Load,
    decreases words.len() - k,
{
    if k < words.len() {
        lemma_scan_found(words, k + 1);
    }
}

/// The memory checks that need no read, and the site to read, from the scan onward.
pub fn infer_target(words: &[u32], p: u64, entry_pc: u64, x: &[u64; 31], sp: u64) -> (r: Option<
    (u64, usize, ExclInsn),
>)
    requires
        4 * words@.len() <= p,
    ensures
        match r {
            None => infer_site(words@, p, entry_pc, x@, sp) is None,
            Some((va, len, ld)) => {
                &&& infer_site(words@, p, entry_pc, x@, sp) == Some((va, len as nat, ld))
                &&& len <= 16
                &&& ld matches ExclInsn::Load { size, pair, .. } && size <= 8 && len
                    == access_bytes(size, pair)
            },
        },
{
    let _n = words.len();
    let (i, ld) = match scan_back(words) {
        Some(found) => found,
        None => {
            return None;
        },
    };
    let l = p - 4 * (i as u64 + 1);
    if entry_pc > l && entry_pc <= p {
        return None;
    }
    if base_aliases_dest(ld) {
        return None;
    }
    let (size, pair, rt, rt2, rn) = match ld {
        ExclInsn::Load { size, pair, rt, rt2, rn } => (size, pair, rt, rt2, rn),
        ExclInsn::Store { .. } => {
            return None;
        },
    };
    proof {
        lemma_scan_found(words@, 0);
        lemma_excl_fields(words@[i as int]);
    }
    let between = &words[0..i];
    assert(between@ =~= words@.take(i as int));
    let written = match regs_written(between) {
        Some(w) => w,
        None => {
            return None;
        },
    };
    if written & (1u32 << rn) != 0 {
        return None;
    }
    let base_val = if rn == 31 { sp } else { x[rn as usize] };
    let rt_u = if written & (1u32 << rt) != 0 { 31 } else { rt };
    let rt2_u = if written & (1u32 << rt2) != 0 { 31 } else { rt2 };
    let len = access_len(size, pair);
    Some((base_val & TAG_MASK, len, ExclInsn::Load { size, pair, rt: rt_u, rt2: rt2_u, rn }))
}

/// The shadow that a breakpoint or watchpoint stop taken natively at `p` infers, or None. Every
/// condition that fails infers nothing, which is never a wrong emulation:
/// the last entry must not lie in (L, P] (its ERET cleared the monitor); the base must not be a
/// destination of the load; every instruction between the halves must have known register
/// effects and leave the base alone; the target must map; and each destination nothing in
/// between rewrites must still hold the bytes there.
///
/// `words[j]` is the instruction at `p - 4 * (j + 1)`; `x` holds X0..X30 and `sp` the stack
/// pointer (register 31 reads as XZR for data and SP for a base); `read(va, len)` returns the
/// `len` bytes at a tag-stripped VA, or None if it is unmapped.
pub fn infer<F: Fn(u64, usize) -> Option<Vec<u8>>>(
    words: &[u32],
    p: u64,
    entry_pc: u64,
    x: &[u64; 31],
    sp: u64,
    read: F,
) -> (r: Option<Excl>)
    requires
        4 * words@.len() <= p,
        forall|va: u64, len: usize| read.requires((va, len)),
        forall|va: u64, len: usize, m: Option<Vec<u8>>|
            read.ensures((va, len), m) ==> (m matches Some(b) ==> b@.len() == len),
    ensures
        match infer_site(words@, p, entry_pc, x@, sp) {
            None => r is None,
            Some((va, len, _)) => exists|m: Option<Vec<u8>>|
                #![trigger read.ensures((va, len as usize), m)]
                read.ensures((va, len as usize), m) && match (r, inferred(
                    words@,
                    p,
                    entry_pc,
                    x@,
                    sp,
                    match m {
                        Some(b) => Some(b@),
                        None => None,
                    },
                )) {
                    (None, None) => true,
                    (Some(e), Some((eva, bytes))) => {
                        &&& e.va == eva
                        &&& e.loaded@ == bytes
                        &&& e.by == SetBy::Inferred
                        &&& scanned_load(words@) matches ExclInsn::Load { size, pair, .. }
                            && e.size == size && e.pair == pair
                    },
                    _ => false,
                },
        },
{
    let (va, len, checked) = match infer_target(words, p, entry_pc, x, sp) {
        Some(t) => t,
        None => {
            return None;
        },
    };
    let ghost orig = scanned_load(words@);
    let _n = words.len();
    proof {
        lemma_scan_found(words@, 0);
        let (i, _) = scan_from(words@, 0)->Some_0;
        lemma_excl_fields(words@[i as int]);
    }
    let (rt, rt2) = match scan_back(words) {
        Some((_, ExclInsn::Load { rt, rt2, .. })) => (rt, rt2),
        _ => {
            proof { assert(false); }
            return None;
        },
    };
    let m = read(va, len);
    let ghost gm = m;
    let ghost mem = match gm {
        Some(b) => Some(b@),
        None => None::<Seq<u8>>,
    };
    let (size, pair) = match checked {
        ExclInsn::Load { size, pair, .. } => (size, pair),
        ExclInsn::Store { .. } => {
            proof { assert(false); }
            return None;
        },
    };
    let r = match m {
        None => None,
        Some(bytes) => {
            let d1 = if rt == 31 { 0 } else { x[rt as usize] };
            let d2 = if rt2 == 31 { 0 } else { x[rt2 as usize] };
            if dests_match(checked, d1, d2, bytes.as_slice()) {
                Some(Excl { va, size, pair, loaded: bytes, by: SetBy::Inferred })
            } else {
                None
            }
        },
    };
    proof {
        assert(read.ensures((va, len), gm));
        assert(infer_site(words@, p, entry_pc, x@, sp) == Some((va, len as nat, checked)));
        assert(orig matches ExclInsn::Load { rt: ort, rt2: ort2, .. } && ort == rt && ort2 == rt2);
        let site = (va, len as nat, checked);
        assert(inferred(words@, p, entry_pc, x@, sp, mem) == infer_at(site, x@, rt, rt2, mem));
    }
    r
}

} // verus!
