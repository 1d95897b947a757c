//! Laying out a fresh guest: the EL1 vector table, the ranges the W^X map makes executable, the
//! main executable's header, and dyld's process-start stack. Creating the VM, copying bytes into
//! it and setting registers are the caller's.
use vstd::prelude::*;
use vstd::string::{StrSliceExecFns, StringSliceAdditionalSpecFns};
use vstd::bytes::{spec_u32_to_le_bytes, u32_to_le_bytes, u64_to_le_bytes};
use crate::layout::{
    pac_posture, sctlr_mmu_on, subtype_is_arm64e, ATTR_CODE, ATTR_TRAMP, DYLD_BASE, DYN_STACK_SIZE, DYN_STACK_TOP,
    GRANULE, SCTLR_MMU_ON_BASE, SCTLR_PAC_EN, STACK_TOP_IPA, TRAMPOLINE_IPA, TSD_IPA,
};
use crate::le::{put, write_at, zeroed, zeros};
use crate::sig::put_words;

verus! {

/// One segment of a loaded Mach-O image: its bytes, placed at `vaddr`, in a region of `memsz`
/// bytes (zero past the bytes), executable or not.
#[derive(Debug, Clone)]
pub struct Segment {
    pub vaddr: u64,
    pub data: Vec<u8>,
    pub memsz: usize,
    pub is_exec: bool,
}

/// The length of the EL1 vector table.
pub const VECTORS_LEN: usize = 0x800;

/// `hvc #0`: every vector-table slot starts with it, so any exception to EL1 exits to the VMM.
pub const HVC0: u32 = 0xd400_0002;

/// The vector table: 16 slots of 0x80 bytes, each beginning with `hvc #0`, zero elsewhere.
pub open spec fn vectors_spec() -> Seq<u8> {
    Seq::new(
        VECTORS_LEN as nat,
        |k: int| if k % 0x80 < 4 { spec_u32_to_le_bytes(HVC0)[k % 0x80] } else { 0u8 },
    )
}

/// Build the EL1 vector table.
pub fn vector_table() -> (v: Vec<u8>)
    ensures
        v@ == vectors_spec(),
{
    proof {
        vstd::bytes::lemma_auto_spec_u32_to_from_le_bytes();
    }
    let mut v = zeroed(VECTORS_LEN);
    let hvc = u32_to_le_bytes(HVC0);
    let mut slot: usize = 0;
    while slot < 16
        invariant
            slot <= 16,
            hvc@ == spec_u32_to_le_bytes(HVC0),
            hvc@.len() == 4,
            v@.len() == VECTORS_LEN,
            forall|k: int|
                0 <= k < VECTORS_LEN ==> #[trigger] v@[k] == if k < slot * 0x80 && k % 0x80 < 4 {
                    spec_u32_to_le_bytes(HVC0)[k % 0x80]
                } else {
                    0u8
                },
        decreases 16 - slot,
    {
        let ghost before = v@;
        write_at(&mut v, slot * 0x80, hvc.as_slice());
        assert forall|k: int| 0 <= k < VECTORS_LEN implies #[trigger] v@[k] == if k < (slot + 1) * 0x80 && k % 0x80
            < 4 {
            spec_u32_to_le_bytes(HVC0)[k % 0x80]
        } else {
            0u8
        } by {
            assert(before[k] == if k < slot * 0x80 && k % 0x80 < 4 {
                spec_u32_to_le_bytes(HVC0)[k % 0x80]
            } else {
                0u8
            });
            if slot * 0x80 <= k < slot * 0x80 + 4 {
                assert(k % 0x80 == k - slot * 0x80) by (nonlinear_arith)
                    requires
                        slot * 0x80 <= k < slot * 0x80 + 4;
            } else if slot * 0x80 + 4 <= k < (slot + 1) * 0x80 {
                assert(k % 0x80 >= 4) by (nonlinear_arith)
                    requires
                        slot * 0x80 + 4 <= k < (slot + 1) * 0x80;
            }
        }
        slot += 1;
    }
    assert(v@ =~= vectors_spec());
    v
}

/// The bytes a region for a segment of `memsz` bytes with `src_len` bytes of content is
/// allocated: the larger of the two, at least one granule, rounded up to whole granules.
pub open spec fn region_len_of(memsz: int, src_len: int) -> int {
    let n = if memsz < src_len { src_len } else { memsz };
    let m = if n < GRANULE { GRANULE as int } else { n };
    ((m + GRANULE - 1) / (GRANULE as int)) * (GRANULE as int)
}

/// How many bytes to allocate for a region of `memsz` bytes holding `src_len` bytes.
pub fn region_len(memsz: usize, src_len: usize) -> (r: usize)
    requires
        memsz + GRANULE <= usize::MAX,
        src_len + GRANULE <= usize::MAX,
    ensures
        r == region_len_of(memsz as int, src_len as int),
{
    let n = if memsz < src_len { src_len } else { memsz };
    let m = if n < GRANULE { GRANULE } else { n };
    ((m + GRANULE - 1) / GRANULE) * GRANULE
}

/// The ranges a static guest's W^X map makes executable: the vector table (EL1 code), then
/// each executable segment (EL0 code), in order.
pub open spec fn static_exec_of(segs: Seq<Segment>) -> Seq<(u64, u64, u64)>
    decreases segs.len(),
{
    if segs.len() == 0 {
        seq![(TRAMPOLINE_IPA, VECTORS_LEN as u64, ATTR_TRAMP)]
    } else {
        let prev = static_exec_of(segs.drop_last());
        let s = segs.last();
        if s.is_exec {
            prev.push((s.vaddr, s.memsz as u64, ATTR_CODE))
        } else {
            prev
        }
    }
}

/// The executable ranges of a static guest.
pub fn static_exec_ranges(segs: &[Segment]) -> (r: Vec<(u64, u64, u64)>)
    ensures
        r@ == static_exec_of(segs@),
{
    let mut r: Vec<(u64, u64, u64)> = Vec::new();
    r.push((TRAMPOLINE_IPA, VECTORS_LEN as u64, ATTR_TRAMP));
    let mut i: usize = 0;
    while i < segs.len()
        invariant
            i <= segs@.len(),
            r@ == static_exec_of(segs@.take(i as int)),
        decreases segs@.len() - i,
    {
        assert(segs@.take(i + 1).drop_last() =~= segs@.take(i as int));
        if segs[i].is_exec {
            r.push((segs[i].vaddr, segs[i].memsz as u64, ATTR_CODE));
        }
        i += 1;
    }
    assert(segs@.take(segs@.len() as int) =~= segs@);
    r
}

/// The executable segments of `segs`, each moved up by `slide`, as code ranges.
pub open spec fn code_ranges_of(segs: Seq<Segment>, slide: u64) -> Seq<(u64, u64, u64)>
    decreases segs.len(),
{
    if segs.len() == 0 {
        Seq::empty()
    } else {
        let prev = code_ranges_of(segs.drop_last(), slide);
        let s = segs.last();
        if s.is_exec {
            prev.push((((s.vaddr + slide) % 0x1_0000_0000_0000_0000) as u64, s.memsz as u64, ATTR_CODE))
        } else {
            prev
        }
    }
}

/// `xs` followed by the code ranges of `segs` moved up by `slide`.
fn push_code_ranges(xs: &mut Vec<(u64, u64, u64)>, segs: &[Segment], slide: u64)
    ensures
        final(xs)@ == old(xs)@ + code_ranges_of(segs@, slide),
{
    let ghost start = xs@;
    let mut i: usize = 0;
    while i < segs.len()
        invariant
            i <= segs@.len(),
            xs@ == start + code_ranges_of(segs@.take(i as int), slide),
        decreases segs@.len() - i,
    {
        assert(segs@.take(i + 1).drop_last() =~= segs@.take(i as int));
        if segs[i].is_exec {
            xs.push((segs[i].vaddr.wrapping_add(slide), segs[i].memsz as u64, ATTR_CODE));
            assert(xs@ =~= start + code_ranges_of(segs@.take(i + 1), slide));
        }
        i += 1;
    }
    assert(segs@.take(segs@.len() as int) =~= segs@);
}

/// The cache's executable mappings as code ranges.
pub open spec fn cache_code_of(cache_exec: Seq<(u64, u64)>) -> Seq<(u64, u64, u64)> {
    Seq::new(cache_exec.len(), |i: int| (cache_exec[i].0, cache_exec[i].1, ATTR_CODE))
}

/// The ranges a dynamic guest's W^X map makes executable: the vector table, the executable's
/// code where it was linked, dyld's code slid to `DYLD_BASE`, and the shared cache's executable
/// mappings, so cache text is code before the guest ever translates it.
pub open spec fn dynamic_exec_of(exe: Seq<Segment>, dyld: Seq<Segment>, cache_exec: Seq<(u64, u64)>) -> Seq<
    (u64, u64, u64),
> {
    seq![(TRAMPOLINE_IPA, VECTORS_LEN as u64, ATTR_TRAMP)] + code_ranges_of(exe, 0) + code_ranges_of(dyld, DYLD_BASE)
        + cache_code_of(cache_exec)
}

/// The executable ranges of a dynamic guest.
pub fn dynamic_exec_ranges(exe: &[Segment], dyld: &[Segment], cache_exec: &[(u64, u64)]) -> (r: Vec<
    (u64, u64, u64),
>)
    ensures
        r@ == dynamic_exec_of(exe@, dyld@, cache_exec@),
{
    let mut r: Vec<(u64, u64, u64)> = Vec::new();
    r.push((TRAMPOLINE_IPA, VECTORS_LEN as u64, ATTR_TRAMP));
    push_code_ranges(&mut r, exe, 0);
    push_code_ranges(&mut r, dyld, DYLD_BASE);
    let ghost mid = r@;
    let mut i: usize = 0;
    while i < cache_exec.len()
        invariant
            i <= cache_exec@.len(),
            r@ == mid + cache_code_of(cache_exec@.take(i as int)),
        decreases cache_exec@.len() - i,
    {
        let (a, s) = cache_exec[i];
        r.push((a, s, ATTR_CODE));
        assert(r@ =~= mid + cache_code_of(cache_exec@.take(i + 1)));
        i += 1;
    }
    assert(cache_exec@.take(cache_exec@.len() as int) =~= cache_exec@);
    r
}

/// `MH_MAGIC_64` as the file stores it.
pub open spec fn starts_with_header(data: Seq<u8>) -> bool {
    data.len() >= 4 && data[0] == 0xcf && data[1] == 0xfa && data[2] == 0xed && data[3] == 0xfe
}

/// The first segment of `segs` from `i` on whose bytes begin with the Mach-O header.
pub open spec fn header_from(segs: Seq<Segment>, i: int) -> Option<u64>
    decreases segs.len() - i,
{
    if i >= segs.len() {
        None
    } else if starts_with_header(segs[i].data@) {
        Some(segs[i].vaddr)
    } else {
        header_from(segs, i + 1)
    }
}

/// The address of the main executable's Mach-O header (dyld's `mainExecutable`): the first
/// segment whose bytes begin with `MH_MAGIC_64`, `None` when none does.
pub fn main_header(segs: &[Segment]) -> (r: Option<u64>)
    ensures
        r == header_from(segs@, 0),
{
    let mut i: usize = 0;
    while i < segs.len()
        invariant
            i <= segs@.len(),
            header_from(segs@, 0) == header_from(segs@, i as int),
        decreases segs@.len() - i,
    {
        let d = &segs[i].data;
        if d.len() >= 4 && d[0] == 0xcf && d[1] == 0xfa && d[2] == 0xed && d[3] == 0xfe {
            return Some(segs[i].vaddr);
        }
        i += 1;
    }
    None
}

/// The `apple[]` launch strings, NUL-terminated: the executable's path (argv[0]) and fixed,
/// non-zero cookies for libpthread's pointer mangling, the stack guard and malloc's entropy.
pub open spec fn apple_strings(argv0: Seq<u8>) -> Seq<Seq<u8>> {
    seq![
        "executable_path=".spec_bytes() + argv0 + seq![0u8],
        "ptr_munge=0x1a2b3c4d5e6f7a8b".spec_bytes().push(0u8),
        "stack_guard=0x000a0b0c0d0e0f00".spec_bytes().push(0u8),
        "malloc_entropy=0x00112233445566778899aabbccddeeff".spec_bytes().push(0u8),
    ]
}

/// The strings the start stack carries, in the order they are laid down from the top: the
/// arguments, then the `apple[]` strings.
pub open spec fn start_strings(argv: Seq<Seq<u8>>) -> Seq<Seq<u8>> {
    Seq::new(argv.len(), |i: int| argv[i].push(0u8)) + apple_strings(
        if argv.len() > 0 { argv[0] } else { Seq::empty() },
    )
}

/// The total length of the first `n` strings.
pub open spec fn strings_len(ss: Seq<Seq<u8>>, n: int) -> int
    decreases n,
{
    if n <= 0 {
        0
    } else {
        strings_len(ss, n - 1) + ss[n - 1].len()
    }
}

/// Where string `i` lands: each string sits just below the one before it, the first at the top.
pub open spec fn string_addr(ss: Seq<Seq<u8>>, top: u64, i: int) -> int {
    top - strings_len(ss, i + 1)
}

/// dyld's `KernelArgs`: the main header, argc, the argument pointers and a NULL, an empty
/// environment (its NULL), the `apple[]` pointers and a NULL.
pub open spec fn start_words(ss: Seq<Seq<u8>>, argc: int, top: u64, main_hdr: u64) -> Seq<u64> {
    seq![main_hdr, argc as u64] + Seq::new(argc as nat, |i: int| string_addr(ss, top, i) as u64) + seq![0u64, 0u64]
        + Seq::new(4, |i: int| string_addr(ss, top, argc + i) as u64) + seq![0u64]
}

/// The stack pointer: below the words, which sit below the strings, rounded down to 16 bytes.
pub open spec fn start_sp(ss: Seq<Seq<u8>>, argc: int, top: u64) -> int {
    let q = top - strings_len(ss, ss.len() as int) - 8 * (argc + 9);
    q - q % 16
}

/// `img` (the bytes from `sp` up) with the first `n` strings placed at their addresses.
pub open spec fn place_strings(img: Seq<u8>, ss: Seq<Seq<u8>>, top: u64, sp: int, n: int) -> Seq<u8>
    decreases n,
{
    if n <= 0 {
        img
    } else {
        put(place_strings(img, ss, top, sp, n - 1), string_addr(ss, top, n - 1) - sp, ss[n - 1])
    }
}

/// The start stack fits below `top` and above `base`.
pub open spec fn start_fits(argv: Seq<Seq<u8>>, base: u64, top: u64) -> bool {
    let ss = start_strings(argv);
    &&& strings_len(ss, ss.len() as int) + 8 * (argv.len() + 9) <= top
    &&& base <= start_sp(ss, argv.len() as int, top)
    &&& top - start_sp(ss, argv.len() as int, top) <= usize::MAX
}

/// The bytes from the stack pointer to `top`: the words at the bottom, the strings at the top,
/// zero between.
pub open spec fn start_image(argv: Seq<Seq<u8>>, top: u64, main_hdr: u64) -> Seq<u8> {
    let ss = start_strings(argv);
    let argc = argv.len() as int;
    let sp = start_sp(ss, argc, top);
    put_words(
        place_strings(zeros((top - sp) as nat), ss, top, sp, ss.len() as int),
        0,
        start_words(ss, argc, top, main_hdr),
    )
}

/// Longer prefixes are no shorter.
proof fn lemma_strings_len_mono(ss: Seq<Seq<u8>>, m: int, n: int)
    requires
        0 <= m <= n,
    ensures
        0 <= strings_len(ss, m) <= strings_len(ss, n),
    decreases n,
{
    if m < n {
        lemma_strings_len_mono(ss, m, n - 1);
    } else if n > 0 {
        lemma_strings_len_mono(ss, 0, n - 1);
    }
}

/// A copy of `b` with a NUL appended.
fn nul_terminated(b: &[u8]) -> (v: Vec<u8>)
    ensures
        v@ == b@.push(0u8),
{
    let mut v: Vec<u8> = Vec::new();
    let mut i: usize = 0;
    while i < b.len()
        invariant
            i <= b@.len(),
            v@ == b@.subrange(0, i as int),
        decreases b@.len() - i,
    {
        v.push(b[i]);
        i += 1;
    }
    v.push(0);
    assert(v@ =~= b@.push(0u8));
    v
}

/// Lay out dyld's process-start stack for a stack ending at `top` whose lowest address is `base`:
/// the arguments and `apple[]` strings at the top, then `KernelArgs` below them, the stack pointer
/// 16-byte aligned. Returns the stack pointer and the bytes from it up to `top` (the backing below
/// stays zero), or `None` when the layout does not fit.
pub fn start_stack(base: u64, top: u64, argv: &[Vec<u8>], main_hdr: u64) -> (r: Option<(u64, Vec<u8>)>)
    ensures
        r is Some <==> start_fits(argv@.map_values(|a: Vec<u8>| a@), base, top),
        r matches Some((sp, img)) ==> {
            let av = argv@.map_values(|a: Vec<u8>| a@);
            &&& sp == start_sp(start_strings(av), av.len() as int, top)
            &&& img@ == start_image(av, top, main_hdr)
        },
{
    let ghost av = argv@.map_values(|a: Vec<u8>| a@);
    let ghost ssg = start_strings(av);
    let argc = argv.len();
    // The strings, in laying-down order.
    let mut ss: Vec<Vec<u8>> = Vec::new();
    let mut i: usize = 0;
    while i < argc
        invariant
            i <= argc,
            argc == argv@.len(),
            av == argv@.map_values(|a: Vec<u8>| a@),
            ss@.len() == i,
            forall|k: int| 0 <= k < i ==> (#[trigger] ss@[k])@ == av[k].push(0u8),
        decreases argc - i,
    {
        ss.push(nul_terminated(argv[i].as_slice()));
        i += 1;
    }
    let mut path = "executable_path=".as_bytes_vec();
    if argc > 0 {
        let a0 = &argv[0];
        let mut j: usize = 0;
        let ghost p0 = path@;
        while j < a0.len()
            invariant
                j <= a0@.len(),
                path@ == p0 + a0@.subrange(0, j as int),
            decreases a0@.len() - j,
        {
            path.push(a0[j]);
            j += 1;
        }
        assert(a0@.subrange(0, a0@.len() as int) =~= a0@);
    }
    path.push(0);
    ss.push(path);
    let mut munge = "ptr_munge=0x1a2b3c4d5e6f7a8b".as_bytes_vec();
    munge.push(0);
    ss.push(munge);
    let mut guard = "stack_guard=0x000a0b0c0d0e0f00".as_bytes_vec();
    guard.push(0);
    ss.push(guard);
    let mut entropy = "malloc_entropy=0x00112233445566778899aabbccddeeff".as_bytes_vec();
    entropy.push(0);
    ss.push(entropy);
    proof {
        assert forall|k: int| 0 <= k < ss@.len() implies (#[trigger] ss@[k])@ == ssg[k] by {
            if argc == 0 && k == 0 {
                assert(ssg[0] == "executable_path=".spec_bytes() + Seq::<u8>::empty() + seq![0u8]);
                assert(ss@[0]@ =~= ssg[0]);
            } else if k == argc {
                assert(ss@[k]@ =~= ssg[k]);
            }
        }
    }
    let n = ss.len();
    // Place the strings from the top down.
    let mut addrs: Vec<u64> = Vec::new();
    let mut p: u64 = top;
    let mut k: usize = 0;
    while k < n
        invariant
            k <= n,
            n == ssg.len(),
            ssg == start_strings(av),
            av == argv@.map_values(|a: Vec<u8>| a@),
            ss@.len() == n,
            forall|q: int| 0 <= q < n ==> (#[trigger] ss@[q])@ == ssg[q],
            p == top - strings_len(ssg, k as int),
            addrs@.len() == k,
            forall|q: int| 0 <= q < k ==> #[trigger] addrs@[q] == string_addr(ssg, top, q),
        decreases n - k,
    {
        let len = ss[k].len() as u64;
        if len > p {
            proof {
                lemma_strings_len_mono(ssg, k + 1, n as int);
                assert(len == ssg[k as int].len());
                assert(strings_len(ssg, k + 1) == strings_len(ssg, k as int) + ssg[k as int].len());
                assert(strings_len(ssg, n as int) > top);
                assert(!start_fits(av, base, top));
            }
            return None;
        }
        p = p - len;
        addrs.push(p);
        k += 1;
    }
    // The words below them, then the aligned stack pointer.
    let nwords: u64 = match (argc as u64).checked_add(9) {
        Some(w) => w,
        None => return None,
    };
    let wbytes: u64 = match nwords.checked_mul(8) {
        Some(b) => b,
        None => return None,
    };
    proof {
        lemma_strings_len_mono(ssg, 0, n as int);
    }
    if wbytes > p {
        return None;
    }
    let q = p - wbytes;
    let sp = q - q % 16;
    if sp < base {
        return None;
    }
    if top - sp > usize::MAX as u64 {
        return None;
    }
    assert(sp == start_sp(ssg, argc as int, top));
    let mut words: Vec<u64> = Vec::new();
    words.push(main_hdr);
    words.push(argc as u64);
    let mut a: usize = 0;
    while a < argc
        invariant
            a <= argc,
            argc + 4 <= n,
            addrs@.len() == n,
            words@ =~= seq![main_hdr, argc as u64] + Seq::new(a as nat, |i: int| string_addr(ssg, top, i) as u64),
            forall|q: int| 0 <= q < n ==> #[trigger] addrs@[q] == string_addr(ssg, top, q),
        decreases argc - a,
    {
        words.push(addrs[a]);
        a += 1;
    }
    words.push(0);
    words.push(0);
    let mut b: usize = 0;
    while b < 4
        invariant
            b <= 4,
            argc + 4 == n,
            addrs@.len() == n,
            words@ =~= seq![main_hdr, argc as u64] + Seq::new(argc as nat, |i: int| string_addr(ssg, top, i) as u64)
                + seq![0u64, 0u64] + Seq::new(b as nat, |i: int| string_addr(ssg, top, argc + i) as u64),
            forall|q: int| 0 <= q < n ==> #[trigger] addrs@[q] == string_addr(ssg, top, q),
        decreases 4 - b,
    {
        words.push(addrs[argc + b]);
        b += 1;
    }
    words.push(0);
    assert(words@ =~= start_words(ssg, argc as int, top, main_hdr));
    // The image from sp to top.
    let size = (top - sp) as usize;
    let mut img = zeroed(size);
    let mut k: usize = 0;
    while k < n
        invariant
            k <= n,
            n == ssg.len(),
            ss@.len() == n,
            addrs@.len() == n,
            size == top - sp,
            img@.len() == size,
            sp <= top - strings_len(ssg, n as int),
            forall|q: int| 0 <= q < n ==> (#[trigger] ss@[q])@ == ssg[q],
            forall|q: int| 0 <= q < n ==> #[trigger] addrs@[q] == string_addr(ssg, top, q),
            img@ == place_strings(zeros(size as nat), ssg, top, sp as int, k as int),
        decreases n - k,
    {
        proof {
            lemma_strings_len_mono(ssg, k + 1, n as int);
            lemma_strings_len_mono(ssg, k as int, k + 1);
        }
        write_at(&mut img, (addrs[k] - sp) as usize, ss[k].as_slice());
        k += 1;
    }
    let ghost placed = img@;
    let mut w: usize = 0;
    while w < words.len()
        invariant
            w <= words@.len(),
            words@.len() == argc + 9,
            8 * (argc + 9) <= top - strings_len(ssg, n as int) - sp,
            strings_len(ssg, n as int) >= 0,
            img@.len() == size,
            size == top - sp,
            img@ == put_words(placed, 0, words@.take(w as int)),
        decreases words@.len() - w,
    {
        let bytes = u64_to_le_bytes(words[w]);
        assert(words@.take(w + 1).drop_last() =~= words@.take(w as int));
        write_at(&mut img, w * 8, bytes.as_slice());
        w += 1;
    }
    assert(words@.take(words@.len() as int) =~= words@);
    Some((sp, img))
}

/// `CPACR_EL1` with FP/SIMD enabled at EL0 and EL1 (dyld uses NEON).
pub const CPACR_FP_ON: u64 = 0x30_0000;

/// The system and entry registers a freshly loaded guest starts with, and its stack's geometry.
/// Every guest also gets `MAIR_EL1_V`, `TCR_EL1_V`, `TTBR0_EL1 = PT_L1_IPA` (the identity map),
/// `VBAR_EL1 = TRAMPOLINE_IPA`, EL0t (`CPSR` 0) and the fixed PAC keys.
#[derive(Debug, Clone, Copy, PartialEq, Eq, Structural)]
pub struct Boot {
    pub pac_enabled: bool,
    pub sctlr: u64,
    pub sp_el0: u64,
    pub pc: u64,
    /// `CPACR_EL1`, `TPIDRRO_EL0` (the thread pointer) and `TPIDR_EL0` (cpu 0, cluster 0), set for
    /// a dynamic guest only.
    pub cpacr: Option<u64>,
    pub tpidrro_el0: Option<u64>,
    pub tpidr_el0: Option<u64>,
    pub stack_top: u64,
    pub stack_size: u64,
}

/// A static guest starts at its entry on the one-granule stack below `STACK_TOP_IPA`, with the
/// posture it was given.
pub fn static_boot(entry: u64, pac_enabled: bool) -> (b: Boot)
    ensures
        b == (Boot {
            pac_enabled,
            sctlr: SCTLR_MMU_ON_BASE | if pac_enabled { SCTLR_PAC_EN } else { 0 },
            sp_el0: STACK_TOP_IPA,
            pc: entry,
            cpacr: None,
            tpidrro_el0: None,
            tpidr_el0: None,
            stack_top: STACK_TOP_IPA,
            stack_size: GRANULE as u64,
        }),
{
    Boot {
        pac_enabled,
        sctlr: sctlr_mmu_on(pac_enabled),
        sp_el0: STACK_TOP_IPA,
        pc: entry,
        cpacr: None,
        tpidrro_el0: None,
        tpidr_el0: None,
        stack_top: STACK_TOP_IPA,
        stack_size: GRANULE as u64,
    }
}

/// A dynamic guest starts in dyld (its entry slid to `DYLD_BASE`) on the start stack at `sp`, in
/// the dynamic stack; its posture is the main executable's (never dyld's, which is always arm64e).
pub fn dynamic_boot(dyld_entry: u64, exe_cpusubtype: u32, sp: u64) -> (b: Boot)
    ensures
        b == (Boot {
            pac_enabled: subtype_is_arm64e(exe_cpusubtype),
            sctlr: SCTLR_MMU_ON_BASE | if subtype_is_arm64e(exe_cpusubtype) { SCTLR_PAC_EN } else { 0 },
            sp_el0: sp,
            pc: ((dyld_entry + DYLD_BASE) % 0x1_0000_0000_0000_0000) as u64,
            cpacr: Some(CPACR_FP_ON),
            tpidrro_el0: Some(TSD_IPA),
            tpidr_el0: Some(0),
            stack_top: DYN_STACK_TOP,
            stack_size: DYN_STACK_SIZE,
        }),
{
    let pac = pac_posture(exe_cpusubtype);
    Boot {
        pac_enabled: pac,
        sctlr: sctlr_mmu_on(pac),
        sp_el0: sp,
        pc: dyld_entry.wrapping_add(DYLD_BASE),
        cpacr: Some(CPACR_FP_ON),
        tpidrro_el0: Some(TSD_IPA),
        tpidr_el0: Some(0),
        stack_top: DYN_STACK_TOP,
        stack_size: DYN_STACK_SIZE,
    }
}

} // verus!
