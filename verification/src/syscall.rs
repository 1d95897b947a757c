//! Forwarding one guest syscall to the host kernel: the operands that must change on the way in
//! (descriptors, the byte count of a buffer-filling read, `map_with_linking_np`'s region array),
//! what is kept of the kernel's writes on the way out, and the descriptor bookkeeping the answer
//! calls for. The call itself, and reading and writing guest memory, are the caller's.
use vstd::prelude::*;
use vstd::bytes::{spec_u32_from_le_bytes, spec_u32_to_le_bytes, u32_to_le_bytes};
use crate::arch::{
    allocates_fd, syscall_row, Ret, MWL_MAX_REGION_COUNT, MWL_REGION_STRIDE, SYS_CLOSE,
    SYS_CLOSE_NOCANCEL, SYS_PREAD, SYS_READ, SYS_READ_NOCANCEL,
};
use crate::cache::u32le;
use crate::fdtable::{
    alloc_target, bind_returned_fd, grown, slot_host, slot_in, slot_open, FdSlot, FdTable, EBADF,
};
use crate::layout::{GRANULE, PTR_WINDOW_CAP};
use crate::le::{put, write_at};
use crate::trace::Region;

verus! {

/// How much guest memory around a pointer operand is captured: what the backing holds from
/// there on, capped at `PTR_WINDOW_CAP`.
pub fn window_len(avail: usize) -> (n: usize)
    ensures
        n == if avail < PTR_WINDOW_CAP { avail } else { PTR_WINDOW_CAP },
{
    if avail < PTR_WINDOW_CAP {
        avail
    } else {
        PTR_WINDOW_CAP
    }
}

/// The syscalls that fill the buffer at x1 with up to x2 bytes.
pub open spec fn fills_buffer(num: u64) -> bool {
    num == SYS_READ || num == SYS_PREAD || num == SYS_READ_NOCANCEL
}

/// The byte count a buffer-filling read forwards: the guest's own count, capped at what the
/// destination's backing holds (`avail`, when the buffer is mapped) so the host kernel never
/// writes past it. `None` for any other syscall, whose x2 is forwarded as translated.
pub fn read_count_operand(num: u64, count: u64, avail: Option<usize>) -> (r: Option<u64>)
    ensures
        r == if fills_buffer(num) {
            Some(
                match avail {
                    Some(a) => if count <= a { count } else { a as u64 },
                    None => count,
                },
            )
        } else {
            None::<u64>
        },
{
    if num == SYS_READ || num == SYS_PREAD || num == SYS_READ_NOCANCEL {
        Some(
            match avail {
                Some(a) => if count <= a as u64 { count } else { a as u64 },
                None => count,
            },
        )
    } else {
        None
    }
}

/// How many `mwl_region` entries `map_with_linking_np` names: its x1, capped at the kernel's
/// own limit.
pub open spec fn mwl_count(count_arg: u64) -> int {
    if count_arg < MWL_MAX_REGION_COUNT { count_arg as int } else { MWL_MAX_REGION_COUNT as int }
}

/// The descriptor field (the first four bytes, little-endian) of region `r` of the array `b`.
pub open spec fn mwl_fd(b: Seq<u8>, r: int) -> i32 {
    spec_u32_from_le_bytes(b.subrange(r * 32, r * 32 + 4)) as i32
}

/// Every region's descriptor among the first `n` is a sentinel or open.
pub open spec fn mwl_all_open(host: Seq<Option<i32>>, b: Seq<u8>, n: int) -> bool {
    forall|r: int| 0 <= r < n ==> #[trigger] mwl_fd(b, r) < 0 || slot_host(host, mwl_fd(b, r) as int) is Some
}

/// `b` with the descriptor of each of the first `n` regions replaced by its host descriptor
/// (sentinels kept).
pub open spec fn mwl_translated(host: Seq<Option<i32>>, b: Seq<u8>, n: int) -> Seq<u8>
    decreases n,
{
    if n <= 0 {
        b
    } else {
        let prev = mwl_translated(host, b, n - 1);
        let fd = mwl_fd(b, n - 1);
        if fd < 0 {
            prev
        } else {
            put(prev, (n - 1) * 32, spec_u32_to_le_bytes(slot_host(host, fd as int).unwrap() as u32))
        }
    }
}

/// The host-side copy of `map_with_linking_np`'s region array (`regions`, read from guest memory,
/// at least `mwl_count(count_arg)` entries long): each entry's descriptor rewritten to the host
/// descriptor behind it. `Err(EBADF)` when an entry names a descriptor the guest does not have
/// open. The guest's own array is never changed.
pub fn translate_mwl(fds: &FdTable, regions: &[u8], count_arg: u64) -> (r: Result<Vec<u8>, u64>)
    requires
        regions@.len() >= mwl_count(count_arg) * 32,
    ensures
        r is Ok <==> mwl_all_open(fds.host_seq(), regions@, mwl_count(count_arg)),
        r matches Ok(b) ==> b@ == mwl_translated(fds.host_seq(), regions@, mwl_count(count_arg)),
        r matches Err(e) ==> e == EBADF,
{
    let count: usize = if count_arg < MWL_MAX_REGION_COUNT { count_arg as usize } else { MWL_MAX_REGION_COUNT as usize };
    assert(MWL_REGION_STRIDE == 32);
    let mut buf: Vec<u8> = Vec::new();
    let mut i: usize = 0;
    while i < regions.len()
        invariant
            i <= regions@.len(),
            buf@ == regions@.subrange(0, i as int),
        decreases regions@.len() - i,
    {
        buf.push(regions[i]);
        i += 1;
    }
    assert(buf@ =~= regions@);
    let mut r: usize = 0;
    while r < count
        invariant
            r <= count,
            count == mwl_count(count_arg),
            count <= 5,
            regions@.len() >= count * 32,
            mwl_all_open(fds.host_seq(), regions@, r as int),
            buf@ == mwl_translated(fds.host_seq(), regions@, r as int),
            buf@.len() == regions@.len(),
        decreases count - r,
    {
        let off = r * MWL_REGION_STRIDE;
        let gfd = #[verifier::truncate] (u32le(regions, off) as i32);
        assert(gfd == mwl_fd(regions@, r as int));
        if gfd >= 0 {
            match fds.host(gfd as u64) {
                Some(h) => {
                    let bytes = u32_to_le_bytes(h as u32);
                    write_at(&mut buf, off, bytes.as_slice());
                },
                None => {
                    return Err(EBADF);
                },
            }
        }
        r += 1;
    }
    Ok(buf)
}

/// A captured window of guest memory around a pointer operand: its address and its bytes
/// before and after the syscall.
#[derive(Debug, Clone)]
pub struct Window {
    pub ipa: u64,
    pub pre: Vec<u8>,
    pub post: Vec<u8>,
}

/// The windows among `ws` the kernel wrote into, as regions of their new bytes, in order.
pub open spec fn changed(ws: Seq<Window>) -> Seq<Region>
    decreases ws.len(),
{
    if ws.len() == 0 {
        Seq::empty()
    } else {
        let rest = changed(ws.drop_last());
        let w = ws.last();
        if w.pre@ != w.post@ {
            rest.push(Region { ipa: w.ipa, bytes: w.post })
        } else {
            rest
        }
    }
}

/// What the syscall wrote into guest memory: every window whose bytes changed, with its new
/// bytes. A failed syscall wrote nothing, and nothing is kept.
pub fn capture_writes(ws: &[Window], err: bool) -> (out: Vec<Region>)
    ensures
        out@.len() == if err { 0 } else { changed(ws@).len() },
        !err ==> forall|i: int| 0 <= i < out@.len() ==> (#[trigger] out@[i]).ipa == changed(ws@)[i].ipa
            && out@[i].bytes@ == changed(ws@)[i].bytes@,
{
    let mut out: Vec<Region> = Vec::new();
    if err {
        return out;
    }
    let mut i: usize = 0;
    while i < ws.len()
        invariant
            i <= ws@.len(),
            out@.len() == changed(ws@.take(i as int)).len(),
            forall|q: int| 0 <= q < out@.len() ==> (#[trigger] out@[q]).ipa == changed(ws@.take(i as int))[q].ipa
                && out@[q].bytes@ == changed(ws@.take(i as int))[q].bytes@,
        decreases ws@.len() - i,
    {
        let w = &ws[i];
        let ghost before = out@;
        assert(ws@.take(i + 1).drop_last() =~= ws@.take(i as int));
        assert(ws@.take(i + 1).last() == ws@[i as int]);
        if !bytes_equal(w.pre.as_slice(), w.post.as_slice()) {
            out.push(Region { ipa: w.ipa, bytes: copy_bytes(w.post.as_slice()) });
            assert forall|q: int| 0 <= q < out@.len() implies (#[trigger] out@[q]).ipa == changed(ws@.take(i + 1))[q].ipa
                && out@[q].bytes@ == changed(ws@.take(i + 1))[q].bytes@ by {
                if q < before.len() {
                    assert(out@[q] == before[q]);
                }
            }
        }
        i += 1;
    }
    assert(ws@.take(ws@.len() as int) =~= ws@);
    out
}

/// Two byte strings are equal.
fn bytes_equal(a: &[u8], b: &[u8]) -> (r: bool)
    ensures
        r == (a@ == b@),
{
    if a.len() != b.len() {
        return false;
    }
    let mut i: usize = 0;
    while i < a.len()
        invariant
            i <= a@.len(),
            a@.len() == b@.len(),
            forall|q: int| 0 <= q < i ==> a@[q] == b@[q],
        decreases a@.len() - i,
    {
        if a[i] != b[i] {
            return false;
        }
        i += 1;
    }
    assert(a@ =~= b@);
    true
}

/// A copy of `b`.
fn copy_bytes(b: &[u8]) -> (v: Vec<u8>)
    ensures
        v@ == b@,
{
    let mut v: Vec<u8> = Vec::new();
    let mut i: usize = 0;
    while i < b.len()
        invariant
            i <= b@.len(),
            v@ == b@.subrange(0, i as int),
        decreases b@.len() - i,
    {
        v.push(b[i]);
        i += 1;
    }
    assert(v@ =~= b@);
    v
}

/// The syscalls whose answer is a new descriptor.
pub open spec fn produces_fd(num: u64) -> bool {
    syscall_row(num) matches Some((_, ret)) && ret == Ret::Fd
}

/// The syscalls that close a descriptor.
pub open spec fn closes_fd(num: u64) -> bool {
    num == SYS_CLOSE || num == SYS_CLOSE_NOCANCEL
}

/// The descriptor bookkeeping a forwarded syscall's answer calls for, returning what the guest
/// is answered. A successful descriptor-producing syscall returned a host descriptor: it is bound
/// to the lowest guest slot not open and the guest gets that number. A successful close retires
/// the guest's slot (`guest_fd`, the guest's own x0). Anything else, and any failure, changes
/// nothing and passes the answer through.
pub fn settle_fds(fds: &mut FdTable, num: u64, guest_fd: u64, ret: u64, err: bool) -> (answer: u64)
    requires
        old(fds).wf(),
        old(fds).slot_seq().len() < usize::MAX,
    ensures
        final(fds).wf(),
        !err && produces_fd(num) ==> {
            &&& answer == alloc_target(old(fds).slot_seq())
            &&& final(fds).slot_seq() == grown(old(fds).slot_seq(), answer + 1, FdSlot::Free).update(
                answer as int,
                FdSlot::Open,
            )
            &&& final(fds).host_seq() == grown(old(fds).host_seq(), answer + 1, None).update(
                answer as int,
                Some(#[verifier::truncate] (ret as i32)),
            )
        },
        !err && !produces_fd(num) && closes_fd(num) ==> {
            &&& answer == ret
            &&& final(fds).slot_seq() == if slot_open(slot_in(old(fds).slot_seq(), guest_fd as int)) {
                old(fds).slot_seq().update(guest_fd as int, FdSlot::Closed)
            } else {
                old(fds).slot_seq()
            }
            &&& final(fds).host_seq() == if slot_open(slot_in(old(fds).slot_seq(), guest_fd as int)) {
                old(fds).host_seq().update(guest_fd as int, None)
            } else {
                old(fds).host_seq()
            }
        },
        err || (!produces_fd(num) && !closes_fd(num)) ==> answer == ret && *final(fds) == *old(fds),
{
    if !err && allocates_fd(num) {
        bind_returned_fd(fds, num, ret)
    } else if !err && (num == SYS_CLOSE || num == SYS_CLOSE_NOCANCEL) {
        fds.close(guest_fd);
        ret
    } else {
        ret
    }
}

/// How much of a descriptor that cannot be `pread` a file mmap snapshots instead: the mapping's
/// length, but no more than the object's size rounded up to whole granules (at least one), so the
/// copy never reads past the object's end.
pub fn snapshot_len(rlen: usize, size: usize) -> (n: usize)
    requires
        size + GRANULE <= usize::MAX,
    ensures
        n == if rlen < page_round_spec(size) { rlen as int } else { page_round_spec(size) },
{
    let up = ((size + GRANULE - 1) / GRANULE) * GRANULE;
    let m = if up < GRANULE { GRANULE } else { up };
    if rlen < m {
        rlen
    } else {
        m
    }
}

/// `size` rounded up to whole granules, at least one.
pub open spec fn page_round_spec(size: usize) -> int {
    let up = ((size + GRANULE - 1) / (GRANULE as int)) * (GRANULE as int);
    if up < GRANULE { GRANULE as int } else { up }
}

} // verus!
