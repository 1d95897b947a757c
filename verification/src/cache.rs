//! The dyld shared-cache "v5" slide-info pointer format: decoding a 64-bit fixup slot, the
//! rebase and pointer-authentication modifier arithmetic, and the walk of one page's fixup chain.
//!
//! `dyld_cache_slide_pointer5` bit layout (bit 63 is the most significant):
//! ```text
//! auth    (bit63==1): runtimeOffset[33:0] diversity[49:34] addrDiv[50] keyIsData[51] next[62:52] auth[63]
//! regular (bit63==0): runtimeOffset[33:0] high8[41:34]     unused[49:42]            next[62:52] auth[63]
//! ```
use vstd::prelude::*;
use vstd::bytes::{
    spec_u16_from_le_bytes, spec_u32_from_le_bytes, spec_u32_to_le_bytes, spec_u64_from_le_bytes,
    spec_u64_to_le_bytes, u16_from_le_bytes, u32_from_le_bytes, u32_to_le_bytes, u64_from_le_bytes,
    u64_to_le_bytes,
};
use crate::le::{put, write_at, zeroed, zeros};

verus! {

/// A decoded v5 shared-cache slide-info pointer slot.
#[derive(Debug, Clone, Copy, PartialEq, Eq, Structural)]
pub struct SlidePtr5 {
    /// bit 63: an authenticated (PAC-signed) pointer rather than a plain rebase.
    pub auth: bool,
    /// bits [33:0]: offset from `value_add` (the cache's unslid base) to the target.
    pub runtime_offset: u64,
    /// bits [49:34], auth slots only: the 16-bit diversifier.
    pub diversity: u16,
    /// bit 50, auth slots only: blend the modifier with the slot's own address.
    pub addr_div: bool,
    /// bit 51, auth slots only: sign with the DA key (`true`) or the IA key (`false`).
    pub key_is_data: bool,
    /// bits [41:34], regular slots only: the top byte of the final pointer.
    pub high8: u8,
    /// bits [62:52]: distance in 8-byte units to the next slot of the chain; 0 ends it.
    pub next: u16,
}

/// What a raw slot value decodes to.
pub open spec fn slide_ptr_of(slot: u64) -> SlidePtr5 {
    let auth = (slot >> 63) & 1 != 0;
    let sixteen = ((slot >> 34) & 0xFFFF) as u16;
    SlidePtr5 {
        auth,
        runtime_offset: slot & 0x3_FFFF_FFFF,
        diversity: if auth { sixteen } else { 0 },
        addr_div: auth && (slot >> 50) & 1 != 0,
        key_is_data: auth && (slot >> 51) & 1 != 0,
        high8: if auth { 0 } else { (sixteen & 0xFF) as u8 },
        next: ((slot >> 52) & 0x7FF) as u16,
    }
}

/// Decode a raw v5 slide-info slot value.
pub fn decode5(slot: u64) -> (p: SlidePtr5)
    ensures
        p == slide_ptr_of(slot),
        p.runtime_offset < 0x4_0000_0000,
        p.next < 0x800,
{
    let auth = (slot >> 63) & 1 != 0;
    let next = ((slot >> 52) & 0x7FF) as u16;
    let runtime_offset = slot & 0x3_FFFF_FFFF;
    let sixteen = ((slot >> 34) & 0xFFFF) as u16;
    assert(slot & 0x3_FFFF_FFFF < 0x4_0000_0000 && (slot >> 52) & 0x7FF < 0x800
        && (slot >> 34) & 0xFFFF < 0x1_0000) by (bit_vector);
    SlidePtr5 {
        auth,
        runtime_offset,
        diversity: if auth { sixteen } else { 0 },
        addr_div: auth && (slot >> 50) & 1 != 0,
        key_is_data: auth && (slot >> 51) & 1 != 0,
        high8: if auth { 0 } else { (sixteen & 0xFF) as u8 },
        next,
    }
}

/// The raw slot value that encodes the given fields (the layout above): the inverse of
/// `decode5` on fields that fit their bit ranges.
pub open spec fn slot5_of(
    auth: bool,
    runtime_offset: u64,
    diversity: u16,
    addr_div: bool,
    key_is_data: bool,
    high8: u8,
    next: u16,
) -> u64 {
    let base = (runtime_offset & 0x3_FFFF_FFFF) | ((next as u64) << 52);
    if auth {
        base | (1u64 << 63) | ((diversity as u64) << 34) | ((if addr_div { 1u64 } else { 0u64 }) << 50) | ((
        if key_is_data {
            1u64
        } else {
            0u64
        }) << 51)
    } else {
        base | ((high8 as u64) << 34)
    }
}

proof fn lemma_auth_slot_fields(v: u64, ro: u64, d: u64, a: u64, k: u64, n: u64)
    by (bit_vector)
    requires
        ro < 0x4_0000_0000,
        d < 0x1_0000,
        a < 2,
        k < 2,
        n < 0x800,
        v == (ro & 0x3_FFFF_FFFF) | (n << 52) | (1u64 << 63) | (d << 34) | (a << 50) | (k << 51),
    ensures
        (v >> 63) & 1 == 1,
        v & 0x3_FFFF_FFFF == ro,
        (v >> 34) & 0xFFFF == d,
        (v >> 50) & 1 == a,
        (v >> 51) & 1 == k,
        (v >> 52) & 0x7FF == n,
{
}

proof fn lemma_regular_slot_fields(v: u64, ro: u64, h: u64, n: u64)
    by (bit_vector)
    requires
        ro < 0x4_0000_0000,
        h < 0x100,
        n < 0x800,
        v == (ro & 0x3_FFFF_FFFF) | (n << 52) | (h << 34),
    ensures
        (v >> 63) & 1 == 0,
        v & 0x3_FFFF_FFFF == ro,
        ((v >> 34) & 0xFFFF) & 0xFF == h,
        (v >> 52) & 0x7FF == n,
{
}

/// Decoding a slot encoded from its fields gives the fields back: the runtime offset and the chain
/// link always, the diversifier and the two key bits for an auth slot (zero and unset for a
/// regular one), the top byte for a regular slot (zero for an auth one).
pub proof fn lemma_decode5_inverts_the_layout(
    auth: bool,
    runtime_offset: u64,
    diversity: u16,
    addr_div: bool,
    key_is_data: bool,
    high8: u8,
    next: u16,
)
    requires
        runtime_offset < 0x4_0000_0000,
        next < 0x800,
    ensures
        slide_ptr_of(slot5_of(auth, runtime_offset, diversity, addr_div, key_is_data, high8, next)) == (SlidePtr5 {
            auth,
            runtime_offset,
            diversity: if auth { diversity } else { 0 },
            addr_div: auth && addr_div,
            key_is_data: auth && key_is_data,
            high8: if auth { 0 } else { high8 },
            next,
        }),
{
    let v = slot5_of(auth, runtime_offset, diversity, addr_div, key_is_data, high8, next);
    if auth {
        let a: u64 = if addr_div { 1 } else { 0 };
        let k: u64 = if key_is_data { 1 } else { 0 };
        lemma_auth_slot_fields(v, runtime_offset, diversity as u64, a, k, next as u64);
        let sixteen = ((v >> 34) & 0xFFFF) as u16;
        assert(sixteen == diversity);
        assert(((v >> 52) & 0x7FF) as u16 == next);
        assert((v >> 50) & 1 != 0 <==> addr_div);
        assert((v >> 51) & 1 != 0 <==> key_is_data);
    } else {
        lemma_regular_slot_fields(v, runtime_offset, high8 as u64, next as u64);
        let sixteen = ((v >> 34) & 0xFFFF) as u16;
        assert(sixteen & 0xFF == high8 as u16) by (bit_vector)
            requires
                sixteen == ((v >> 34) & 0xFFFF) as u16,
                ((v >> 34) & 0xFFFF) & 0xFF == high8 as u64;
        assert(((v >> 52) & 0x7FF) as u16 == next);
    }
}

/// `value_add + runtime_offset + slide`, wrapping at 2^64.
pub open spec fn target_of(p: SlidePtr5, value_add: u64, slide: u64) -> u64 {
    ((value_add + p.runtime_offset + slide) % 0x1_0000_0000_0000_0000) as u64
}

/// The rebased target moves with the slide and with the cache's base: sliding by `d` more, or
/// basing the cache `d` higher, moves the target by exactly `d` (wrapping at 2^64); and where
/// nothing wraps, the target is `value_add + runtime_offset + slide`.
pub proof fn lemma_target_moves_with_the_slide(p: SlidePtr5, value_add: u64, slide: u64, d: u64)
    ensures
        target_of(p, value_add, ((slide + d) % 0x1_0000_0000_0000_0000) as u64) == ((target_of(p, value_add, slide) + d)
            % 0x1_0000_0000_0000_0000) as u64,
        target_of(p, ((value_add + d) % 0x1_0000_0000_0000_0000) as u64, slide) == ((target_of(p, value_add, slide) + d)
            % 0x1_0000_0000_0000_0000) as u64,
        value_add + p.runtime_offset + slide < 0x1_0000_0000_0000_0000 ==> target_of(p, value_add, slide)
            == value_add + p.runtime_offset + slide,
{
    let m: int = 0x1_0000_0000_0000_0000;
    let a: int = value_add + p.runtime_offset;
    vstd::arithmetic::div_mod::lemma_add_mod_noop_right(a, slide + d, m);
    vstd::arithmetic::div_mod::lemma_add_mod_noop_right(d as int, a + slide, m);
    assert((a + slide + d) % m == (d + (a + slide)) % m);
    let b: int = p.runtime_offset + slide;
    vstd::arithmetic::div_mod::lemma_add_mod_noop(value_add + d, b, m);
    vstd::arithmetic::div_mod::lemma_add_mod_noop_right(b, value_add + d, m);
    assert(((value_add + d) % m + b) % m == (value_add + d + b) % m) by {
        vstd::arithmetic::div_mod::lemma_add_mod_noop_right(b, value_add + d, m);
        assert(((value_add + d) % m + b) == (b + (value_add + d) % m));
    }
    if value_add + p.runtime_offset + slide < m {
        vstd::arithmetic::div_mod::lemma_small_mod((value_add + p.runtime_offset + slide) as nat, m as nat);
    }
}

/// The final (unsigned) target VA the slot points at, given the cache's unslid base `value_add`
/// and the chosen `slide`.
pub fn target_va(p: &SlidePtr5, value_add: u64, slide: u64) -> (r: u64)
    ensures
        r == target_of(*p, value_add, slide),
{
    value_add.wrapping_add(p.runtime_offset).wrapping_add(slide)
}

/// The ptrauth blend: the low 48 bits of `addr` with `diversity` in bits [63:48].
pub open spec fn blend_of(addr: u64, diversity: u16) -> u64 {
    (addr & 0x0000_FFFF_FFFF_FFFF) | ((diversity as u64) << 48)
}

/// ptrauth ABI blend of a discriminator address and a 16-bit diversity into a 64-bit modifier.
pub fn blend(addr: u64, diversity: u16) -> (r: u64)
    ensures
        r == blend_of(addr, diversity),
        r == addr % 0x1_0000_0000_0000 + diversity * 0x1_0000_0000_0000,
{
    let d = diversity as u64;
    assert((addr & 0x0000_FFFF_FFFF_FFFF) | (d << 48) == addr % 0x1_0000_0000_0000 + d
        * 0x1_0000_0000_0000) by (bit_vector)
        requires
            d < 0x1_0000,
    ;
    (addr & 0x0000_FFFF_FFFF_FFFF) | (d << 48)
}

/// The signing modifier of an auth slot: its diversity, blended with the slot's own slid VA when
/// `addr_div` is set.
pub open spec fn modifier_of(p: SlidePtr5, slot_slid_va: u64) -> u64 {
    if p.addr_div {
        blend_of(slot_slid_va, p.diversity)
    } else {
        p.diversity as u64
    }
}

/// The PAC signing modifier for an auth slot. `slot_slid_va` is the slot's own address at the
/// chosen slide, not the pointer's target.
pub fn modifier(p: &SlidePtr5, slot_slid_va: u64) -> (r: u64)
    ensures
        r == modifier_of(*p, slot_slid_va),
{
    if p.addr_div {
        blend(slot_slid_va, p.diversity)
    } else {
        p.diversity as u64
    }
}

/// A collected auth slot of a page's fixup chain, awaiting re-signing with the guest's own keys.
#[derive(Debug, Clone, Copy, PartialEq, Eq, Structural)]
pub struct AuthSlot {
    /// Byte offset of this slot within its 16 KiB page.
    pub offset: usize,
    /// The (unsigned) VA the pointer targets, per `target_va`.
    pub target_va: u64,
    /// Which A-family key to sign with (`true` => DA, `false` => IA).
    pub key_is_data: bool,
    /// The PAC signing modifier, per `modifier`.
    pub modifier: u64,
}

/// A parsed v5 slide-info blob (`dyld_cache_slide_info5`) for one DATA mapping.
#[derive(Debug, Clone)]
pub struct SlideInfo5 {
    pub page_size: u32,
    pub value_add: u64,
    pub page_starts: Vec<u16>,
}

/// The `page_starts` value meaning "this page has no fixups".
pub const NO_REBASE: u16 = 0xFFFF;

/// The bytes of one cache page.
pub const CACHE_PAGE_BYTES: usize = 16384;

/// The little-endian `u32` at byte offset `o`.
pub fn u32le(b: &[u8], o: usize) -> (r: u32)
    requires
        o + 4 <= b@.len(),
    ensures
        r == spec_u32_from_le_bytes(b@.subrange(o as int, o + 4)),
{
    let _n = b.len();
    u32_from_le_bytes(&b[o..o + 4])
}

/// The little-endian `u64` at byte offset `o`.
pub fn u64le(b: &[u8], o: usize) -> (r: u64)
    requires
        o + 8 <= b@.len(),
    ensures
        r == spec_u64_from_le_bytes(b@.subrange(o as int, o + 8)),
{
    let _n = b.len();
    u64_from_le_bytes(&b[o..o + 8])
}

/// The raw slot value at byte offset `off` of a page.
pub open spec fn slot_at(page: Seq<u8>, off: int) -> u64 {
    spec_u64_from_le_bytes(page.subrange(off, off + 8))
}

/// Does the fixup chain starting at `off` stay inside the page? Each slot must lie wholly in the
/// page; `next` advances by a positive multiple of 8 bytes, and 0 ends the chain.
pub open spec fn chain_fits(page: Seq<u8>, off: int) -> bool
    decreases page.len() - off,
{
    if off < 0 || off + 8 > page.len() {
        false
    } else {
        let next = slide_ptr_of(slot_at(page, off)).next;
        next == 0 || (off + next * 8 + 8 <= page.len() && chain_fits(page, off + next * 8))
    }
}

/// Whether the chain at `off` fits depends only on the bytes from `off` on.
proof fn lemma_chain_fits_suffix(p1: Seq<u8>, p2: Seq<u8>, off: int)
    requires
        p1.len() == p2.len(),
        0 <= off <= p1.len(),
        forall|k: int| off <= k < p1.len() ==> p1[k] == p2[k],
    ensures
        chain_fits(p1, off) == chain_fits(p2, off),
    decreases p1.len() - off,
{
    if off + 8 <= p1.len() {
        assert(p1.subrange(off, off + 8) =~= p2.subrange(off, off + 8));
        let next = slide_ptr_of(slot_at(p1, off)).next;
        if next != 0 && off + next * 8 + 8 <= p1.len() {
            lemma_chain_fits_suffix(p1, p2, off + next * 8);
        }
    }
}

/// `page` with the eight bytes at `off` replaced by `v` in little-endian order.
pub open spec fn with_word(page: Seq<u8>, off: int, v: u64) -> Seq<u8> {
    Seq::new(
        page.len(),
        |k: int|
            if off <= k < off + 8 {
                spec_u64_to_le_bytes(v)[k - off]
            } else {
                page[k]
            },
    )
}

/// The fixup-chain walk from the slot at `off`: the page after every regular slot is rewritten
/// in place to `target | high8 << 56`, and the auth slots collected in chain order, each with
/// its target and its modifier at the slot's own slid VA `mapping_base + page_index * page_size +
/// offset + slide` (all wrapping).
pub open spec fn walk_from(
    page: Seq<u8>,
    si_value_add: u64,
    slot_base: u64,
    slide: u64,
    off: int,
) -> (Seq<u8>, Seq<AuthSlot>)
    decreases page.len() - off,
{
    if !chain_fits(page, off) {
        (page, Seq::empty())
    } else {
        let p = slide_ptr_of(slot_at(page, off));
        let target = target_of(p, si_value_add, slide);
        let here = if p.auth {
            let slot_va = ((slot_base + off + slide) % 0x1_0000_0000_0000_0000) as u64;
            seq![
                AuthSlot {
                    offset: off as usize,
                    target_va: target,
                    key_is_data: p.key_is_data,
                    modifier: modifier_of(p, slot_va),
                },
            ]
        } else {
            Seq::empty()
        };
        let page2 = if p.auth {
            page
        } else {
            with_word(page, off, target | ((p.high8 as u64) << 56))
        };
        if p.next == 0 || off + p.next * 8 + 8 > page.len() {
            (page2, here)
        } else {
            let rest = walk_from(page2, si_value_add, slot_base, slide, off + p.next * 8);
            (rest.0, here + rest.1)
        }
    }
}

/// `o` is a slot of the fixup chain that starts at `off`.
pub open spec fn on_chain(page: Seq<u8>, off: int, o: int) -> bool
    decreases page.len() - off,
{
    if !chain_fits(page, off) {
        false
    } else {
        let n = slide_ptr_of(slot_at(page, off)).next;
        o == off || (n != 0 && on_chain(page, off + n * 8, o))
    }
}

/// Byte `k` lies in one of the slots of the fixup chain that starts at `off`.
pub open spec fn in_chain_slot(page: Seq<u8>, off: int, k: int) -> bool
    decreases page.len() - off,
{
    if !chain_fits(page, off) {
        false
    } else {
        let n = slide_ptr_of(slot_at(page, off)).next;
        (off <= k < off + 8) || (n != 0 && in_chain_slot(page, off + n * 8, k))
    }
}

/// The eight bytes a chain slot holds after the walk: the final pointer for a regular slot, the
/// slot's own bytes for an auth one.
pub open spec fn walked_slot(page: Seq<u8>, si_value_add: u64, slide: u64, o: int) -> Seq<u8> {
    let p = slide_ptr_of(slot_at(page, o));
    if p.auth {
        page.subrange(o, o + 8)
    } else {
        spec_u64_to_le_bytes(target_of(p, si_value_add, slide) | ((p.high8 as u64) << 56))
    }
}

/// Chain membership from `off` depends only on the bytes from `off` on.
proof fn lemma_chain_suffix(p1: Seq<u8>, p2: Seq<u8>, off: int)
    requires
        p1.len() == p2.len(),
        0 <= off <= p1.len(),
        forall|k: int| off <= k < p1.len() ==> p1[k] == p2[k],
    ensures
        chain_fits(p1, off) == chain_fits(p2, off),
        forall|o: int| #[trigger] on_chain(p1, off, o) == on_chain(p2, off, o),
        forall|k: int| #[trigger] in_chain_slot(p1, off, k) == in_chain_slot(p2, off, k),
        chain_fits(p1, off) ==> slot_at(p1, off) == slot_at(p2, off),
    decreases p1.len() - off,
{
    lemma_chain_fits_suffix(p1, p2, off);
    if chain_fits(p1, off) {
        assert(p1.subrange(off, off + 8) =~= p2.subrange(off, off + 8));
        let n = slide_ptr_of(slot_at(p1, off)).next;
        assert(slot_at(p1, off) == slot_at(p2, off));
        if n != 0 {
            lemma_chain_suffix(p1, p2, off + n * 8);
        }
        assert forall|o: int| #[trigger] on_chain(p1, off, o) == on_chain(p2, off, o) by {
            assert(chain_fits(p2, off));
            if n != 0 {
                assert(on_chain(p1, off + n * 8, o) == on_chain(p2, off + n * 8, o));
            }
        }
        assert forall|k: int| #[trigger] in_chain_slot(p1, off, k) == in_chain_slot(p2, off, k) by {
            assert(chain_fits(p2, off));
            if n != 0 {
                assert(in_chain_slot(p1, off + n * 8, k) == in_chain_slot(p2, off + n * 8, k));
            }
        }
    } else {
        assert forall|o: int| #[trigger] on_chain(p1, off, o) == on_chain(p2, off, o) by {}
        assert forall|k: int| #[trigger] in_chain_slot(p1, off, k) == in_chain_slot(p2, off, k) by {}
    }
}

/// The walk leaves the page's length alone, and no byte before `off`.
proof fn lemma_walk_keeps_prefix(page: Seq<u8>, si_value_add: u64, slot_base: u64, slide: u64, off: int)
    requires
        0 <= off,
    ensures
        walk_from(page, si_value_add, slot_base, slide, off).0.len() == page.len(),
        forall|k: int| 0 <= k < off && k < page.len() ==> #[trigger] walk_from(page, si_value_add, slot_base, slide, off).0[k]
            == page[k],
    decreases page.len() - off,
{
    if chain_fits(page, off) {
        let p = slide_ptr_of(slot_at(page, off));
        let target = target_of(p, si_value_add, slide);
        let page2 = if p.auth {
            page
        } else {
            with_word(page, off, target | ((p.high8 as u64) << 56))
        };
        if !(p.next == 0 || off + p.next * 8 + 8 > page.len()) {
            lemma_walk_keeps_prefix(page2, si_value_add, slot_base, slide, off + p.next * 8);
        }
    }
}

/// What the walk does to the page: every slot of the chain ends up holding its final pointer
/// when it is a regular slot and keeps its bytes when it is an auth slot (each decoded from the
/// page as it was), and every byte outside the chain's slots is left as it was.
pub proof fn lemma_walk_rewrites_exactly_the_chain(
    page: Seq<u8>,
    si_value_add: u64,
    slot_base: u64,
    slide: u64,
    off: int,
)
    requires
        chain_fits(page, off),
    ensures
        forall|o: int| #[trigger] on_chain(page, off, o) ==> walk_from(page, si_value_add, slot_base, slide, off).0.subrange(o, o + 8)
            == walked_slot(page, si_value_add, slide, o),
        forall|k: int| 0 <= k < page.len() && !in_chain_slot(page, off, k) ==> #[trigger] walk_from(
            page,
            si_value_add,
            slot_base,
            slide,
            off,
        ).0[k] == page[k],
    decreases page.len() - off,
{
    vstd::bytes::lemma_auto_spec_u64_to_from_le_bytes();
    let p = slide_ptr_of(slot_at(page, off));
    let target = target_of(p, si_value_add, slide);
    let page2 = if p.auth {
        page
    } else {
        with_word(page, off, target | ((p.high8 as u64) << 56))
    };
    let w = walk_from(page, si_value_add, slot_base, slide, off);
    assert(page2.subrange(off, off + 8) =~= walked_slot(page, si_value_add, slide, off));
    if p.next == 0 || off + p.next * 8 + 8 > page.len() {
        assert(w.0 == page2);
        assert forall|o: int| #[trigger] on_chain(page, off, o) implies w.0.subrange(o, o + 8) == walked_slot(
            page,
            si_value_add,
            slide,
            o,
        ) by {
            assert(o == off);
        }
        assert forall|k: int| 0 <= k < page.len() && !in_chain_slot(page, off, k) implies #[trigger] w.0[k] == page[k] by {}
    } else {
        let off2 = off + p.next * 8;
        assert(forall|k: int| off2 <= k < page.len() ==> page[k] == page2[k]);
        lemma_chain_suffix(page, page2, off2);
        lemma_walk_rewrites_exactly_the_chain(page2, si_value_add, slot_base, slide, off2);
        lemma_walk_keeps_prefix(page2, si_value_add, slot_base, slide, off2);
        let rest = walk_from(page2, si_value_add, slot_base, slide, off2);
        assert(w.0 == rest.0);
        assert forall|o: int| #[trigger] on_chain(page, off, o) implies w.0.subrange(o, o + 8) == walked_slot(
            page,
            si_value_add,
            slide,
            o,
        ) by {
            if o == off {
                assert(w.0.subrange(o, o + 8) =~= page2.subrange(off, off + 8));
            } else {
                assert(on_chain(page, off2, o));
                assert(on_chain(page2, off2, o));
                lemma_on_chain_bounds(page, off2, o);
                assert(page2.subrange(o, o + 8) =~= page.subrange(o, o + 8));
                assert(slot_at(page2, o) == slot_at(page, o));
            }
        }
        assert forall|k: int| 0 <= k < page.len() && !in_chain_slot(page, off, k) implies #[trigger] w.0[k] == page[k] by {
            assert(!(off <= k < off + 8));
            assert(!in_chain_slot(page, off2, k));
            assert(!in_chain_slot(page2, off2, k));
            if k < off2 {
                assert(rest.0[k] == page2[k]);
            } else {
                assert(rest.0[k] == page2[k]);
            }
        }
    }
}

/// The auth slots of the chain from `off`, in chain order, each decoded from `page` as it is:
/// its offset, target, key, and modifier at the slot's slid VA.
pub open spec fn chain_auth_slots(page: Seq<u8>, si_value_add: u64, slot_base: u64, slide: u64, off: int) -> Seq<
    AuthSlot,
>
    decreases page.len() - off,
{
    if !chain_fits(page, off) {
        Seq::empty()
    } else {
        let p = slide_ptr_of(slot_at(page, off));
        let here = if p.auth {
            let slot_va = ((slot_base + off + slide) % 0x1_0000_0000_0000_0000) as u64;
            seq![
                AuthSlot {
                    offset: off as usize,
                    target_va: target_of(p, si_value_add, slide),
                    key_is_data: p.key_is_data,
                    modifier: modifier_of(p, slot_va),
                },
            ]
        } else {
            Seq::empty()
        };
        if p.next == 0 {
            here
        } else {
            here + chain_auth_slots(page, si_value_add, slot_base, slide, off + p.next * 8)
        }
    }
}

/// The slots the walk returns are the chain's auth slots in chain order, each decoded from the
/// page as it was before the walk rewrote any regular slot.
pub proof fn lemma_walk_returns_the_chain_auth_slots(
    page: Seq<u8>,
    si_value_add: u64,
    slot_base: u64,
    slide: u64,
    off: int,
)
    requires
        0 <= off,
    ensures
        walk_from(page, si_value_add, slot_base, slide, off).1 == chain_auth_slots(page, si_value_add, slot_base, slide, off),
    decreases page.len() - off,
{
    if chain_fits(page, off) {
        let p = slide_ptr_of(slot_at(page, off));
        let target = target_of(p, si_value_add, slide);
        let page2 = if p.auth {
            page
        } else {
            with_word(page, off, target | ((p.high8 as u64) << 56))
        };
        if p.next != 0 {
            let off2 = off + p.next * 8;
            assert(forall|k: int| off2 <= k < page.len() ==> page[k] == page2[k]);
            lemma_chain_suffix(page, page2, off2);
            lemma_walk_returns_the_chain_auth_slots(page2, si_value_add, slot_base, slide, off2);
            lemma_chain_auth_slots_suffix(page, page2, si_value_add, slot_base, slide, off2);
        }
    }
}

/// The chain's auth slots from `off` depend only on the bytes from `off` on.
proof fn lemma_chain_auth_slots_suffix(
    p1: Seq<u8>,
    p2: Seq<u8>,
    si_value_add: u64,
    slot_base: u64,
    slide: u64,
    off: int,
)
    requires
        p1.len() == p2.len(),
        0 <= off <= p1.len(),
        forall|k: int| off <= k < p1.len() ==> p1[k] == p2[k],
    ensures
        chain_auth_slots(p1, si_value_add, slot_base, slide, off) == chain_auth_slots(p2, si_value_add, slot_base, slide, off),
    decreases p1.len() - off,
{
    lemma_chain_suffix(p1, p2, off);
    if chain_fits(p1, off) {
        let n = slide_ptr_of(slot_at(p1, off)).next;
        if n != 0 {
            lemma_chain_auth_slots_suffix(p1, p2, si_value_add, slot_base, slide, off + n * 8);
        }
    }
}

/// A slot of a chain lies wholly in the page, at or after the chain's start.
proof fn lemma_on_chain_bounds(page: Seq<u8>, off: int, o: int)
    requires
        on_chain(page, off, o),
    ensures
        off <= o,
        o + 8 <= page.len(),
    decreases page.len() - off,
{
    let n = slide_ptr_of(slot_at(page, off)).next;
    if o != off {
        lemma_on_chain_bounds(page, off + n * 8, o);
    }
}

/// The unslid VA of a page's first byte: `mapping_base + page_index * page_size`, wrapping.
pub open spec fn page_base_va(mapping_base: u64, page_index: usize, page_size: u32) -> u64 {
    ((mapping_base + page_index * page_size) % 0x1_0000_0000_0000_0000) as u64
}

/// Walk one 16 KiB DATA page's v5 chained-fixup list and rebase it in place.
///
/// `si.page_starts[page_index]` is the offset of the chain's first slot (`NO_REBASE` => no fixups:
/// the page is untouched and nothing is returned). Regular slots are rewritten in place to their
/// final pointer value; auth slots are left in the page and returned, in chain order, for
/// re-signing with the guest's keys. The chain must stay inside the page.
#[verifier::spinoff_prover]
pub fn walk_page(
    page: &mut [u8; 16384],
    si: &SlideInfo5,
    page_index: usize,
    slide: u64,
    mapping_base: u64,
) -> (r: Vec<AuthSlot>)
    requires
        page_index < si.page_starts@.len(),
        si.page_starts@[page_index as int] != NO_REBASE ==> page_index * si.page_size <= u64::MAX,
        si.page_starts@[page_index as int] != NO_REBASE ==> chain_fits(
            old(page)@,
            si.page_starts@[page_index as int] as int,
        ),
    ensures
        si.page_starts@[page_index as int] == NO_REBASE ==> final(page)@ == old(page)@ && r@.len()
            == 0,
        si.page_starts@[page_index as int] != NO_REBASE ==> (final(page)@, r@) == walk_from(
            old(page)@,
            si.value_add,
            page_base_va(mapping_base, page_index, si.page_size),
            slide,
            si.page_starts@[page_index as int] as int,
        ),
{
    let mut auth_slots: Vec<AuthSlot> = Vec::new();
    let start = si.page_starts[page_index];
    if start == NO_REBASE {
        return auth_slots;
    }
    let ghost orig = page@;
    let ghost slot_base = page_base_va(mapping_base, page_index, si.page_size);
    let ghost total = walk_from(orig, si.value_add, slot_base, slide, start as int);
    let base = mapping_base.wrapping_add((page_index as u64) * (si.page_size as u64));
    let mut off: usize = start as usize;
    loop
        invariant_except_break
            chain_fits(page@, off as int),
            total == (
                walk_from(page@, si.value_add, slot_base, slide, off as int).0,
                auth_slots@ + walk_from(page@, si.value_add, slot_base, slide, off as int).1,
            ),
        invariant
            page@.len() == 16384,
            base == slot_base,
        ensures
            total == (page@, auth_slots@),
        decreases 16384 - off,
    {
        let raw = u64le(page, off);
        let p = decode5(raw);
        let target = target_va(&p, si.value_add, slide);
        let ghost before = page@;
        let ghost old_acc = auth_slots@;
        if p.auth {
            let slot_slid_va = base.wrapping_add(off as u64).wrapping_add(slide);
            auth_slots.push(
                AuthSlot {
                    offset: off,
                    target_va: target,
                    key_is_data: p.key_is_data,
                    modifier: modifier(&p, slot_slid_va),
                },
            );
        } else {
            let final_ptr = target | ((p.high8 as u64) << 56);
            let bytes = u64_to_le_bytes(final_ptr);
            let mut j: usize = 0;
            while j < 8
                invariant
                    j <= 8,
                    bytes@ == spec_u64_to_le_bytes(final_ptr),
                    bytes@.len() == 8,
                    off + 8 <= 16384,
                    page@.len() == 16384,
                    before.len() == 16384,
                    forall|k: int|
                        0 <= k < 16384 ==> page@[k] == if off <= k < off + j {
                            bytes@[k - off]
                        } else {
                            before[k]
                        },
                decreases 8 - j,
            {
                page[off + j] = bytes[j];
                j += 1;
            }
            assert(page@ =~= with_word(before, off as int, final_ptr));
        }
        if p.next == 0 {
            proof {
                let here = if p.auth { seq![auth_slots@.last()] } else { Seq::<AuthSlot>::empty() };
                assert(auth_slots@ =~= old_acc + here);
                assert(old_acc + Seq::<AuthSlot>::empty() =~= old_acc);
            }
            break;
        }
        proof {
            let o2 = off + p.next * 8;
            lemma_chain_fits_suffix(before, page@, o2);
            let rest = walk_from(page@, si.value_add, slot_base, slide, o2);
            let here = if p.auth { seq![auth_slots@.last()] } else { Seq::<AuthSlot>::empty() };
            assert(auth_slots@ =~= old_acc + here);
            assert(old_acc + (here + rest.1) =~= auth_slots@ + rest.1);
        }
        off = off + (p.next as usize) * 8;
    }
    auth_slots
}

// ---- the cache's on-disk metadata and the IPA routing table ----
//
// `dyld_cache_header`: sharedRegionStart at 0xE0 (u64), sharedRegionSize at 0xE8 (u64),
// mappingWithSlideOffset at 0x138 (u32), mappingWithSlideCount at 0x13C (u32), and the dynamic
// data region's offset and size at 0x1F0 and 0x1F8. `dyld_cache_mapping_and_slide_info` (56
// bytes): address at 0, size at 8, fileOffset at 16, slideInfoFileOffset at 24,
// slideInfoFileSize at 32, flags at 40 (u64), maxProt at 48 and initProt at 52 (u32).
// `dyld_cache_slide_info5`: version at 0, page_size at 4, page_starts_count at 8 (u32),
// value_add at 0x10 (u64), then page_starts[] (u16 each) at 0x18.

/// The page granularity of a mapping without slide info.
pub const CACHE_PAGE_SIZE: u64 = 0x4000;

/// The bytes of a `dyld_cache_header` the router reads.
pub const CACHE_HEADER_LEN: usize = 0x140;

/// The bytes of one `dyld_cache_mapping_and_slide_info`.
pub const MAPPING_RECORD_LEN: usize = 56;

/// The bytes of a `dyld_cache_slide_info5` before its `page_starts`.
pub const SLIDE_INFO5_PREFIX_LEN: usize = 0x18;

/// `VM_PROT_EXECUTE`.
pub const VM_PROT_EXECUTE: u32 = 0x4;

/// The little-endian `u64` at offset `o`.
pub open spec fn le64(b: Seq<u8>, o: int) -> u64 {
    spec_u64_from_le_bytes(b.subrange(o, o + 8))
}

/// The little-endian `u32` at offset `o`.
pub open spec fn le32(b: Seq<u8>, o: int) -> u32 {
    spec_u32_from_le_bytes(b.subrange(o, o + 4))
}

/// The header fields the router needs.
#[derive(Debug, Clone, Copy, PartialEq, Eq, Structural)]
pub struct CacheHeader {
    pub shared_region_start: u64,
    pub shared_region_size: u64,
    pub mapping_slide_offset: u64,
    pub mapping_slide_count: u32,
}

/// The magic a shared-cache header starts with: `"dyld_v1"`.
pub open spec fn cache_magic() -> Seq<u8> {
    seq![0x64u8, 0x79u8, 0x6cu8, 0x64u8, 0x5fu8, 0x76u8, 0x31u8]
}

/// Does the header start with `"dyld_v1"`?
pub fn has_cache_magic(hdr: &[u8]) -> (b: bool)
    requires
        hdr@.len() >= 7,
    ensures
        b == (hdr@.subrange(0, 7) == cache_magic()),
{
    let m: [u8; 7] = [0x64, 0x79, 0x6c, 0x64, 0x5f, 0x76, 0x31];
    let mut i: usize = 0;
    while i < 7
        invariant
            i <= 7,
            hdr@.len() >= 7,
            m@ == cache_magic(),
            forall|k: int| 0 <= k < i ==> hdr@[k] == m@[k],
        decreases 7 - i,
    {
        if hdr[i] != m[i] {
            assert(hdr@.subrange(0, 7)[i as int] != cache_magic()[i as int]);
            return false;
        }
        i += 1;
    }
    assert(hdr@.subrange(0, 7) =~= cache_magic());
    true
}

/// Read the router's header fields.
pub fn parse_cache_header(hdr: &[u8]) -> (h: CacheHeader)
    requires
        hdr@.len() >= CACHE_HEADER_LEN,
    ensures
        h.shared_region_start == le64(hdr@, 0xE0),
        h.shared_region_size == le64(hdr@, 0xE8),
        h.mapping_slide_offset == le32(hdr@, 0x138) as u64,
        h.mapping_slide_count == le32(hdr@, 0x13C),
{
    CacheHeader {
        shared_region_start: u64le(hdr, 0xE0),
        shared_region_size: u64le(hdr, 0xE8),
        mapping_slide_offset: u32le(hdr, 0x138) as u64,
        mapping_slide_count: u32le(hdr, 0x13C),
    }
}

/// One mapping record's fields.
#[derive(Debug, Clone, Copy, PartialEq, Eq, Structural)]
pub struct MappingRecord {
    pub address: u64,
    pub size: u64,
    pub file_offset: u64,
    pub slide_info_file_offset: u64,
    pub slide_info_file_size: u64,
    /// `initProt` grants execute.
    pub is_exec: bool,
}

/// Read one mapping record.
pub fn parse_mapping(m: &[u8]) -> (r: MappingRecord)
    requires
        m@.len() >= MAPPING_RECORD_LEN,
    ensures
        r.address == le64(m@, 0),
        r.size == le64(m@, 8),
        r.file_offset == le64(m@, 16),
        r.slide_info_file_offset == le64(m@, 24),
        r.slide_info_file_size == le64(m@, 32),
        r.is_exec == (le32(m@, 52) & VM_PROT_EXECUTE != 0),
{
    MappingRecord {
        address: u64le(m, 0),
        size: u64le(m, 8),
        file_offset: u64le(m, 16),
        slide_info_file_offset: u64le(m, 24),
        slide_info_file_size: u64le(m, 32),
        is_exec: u32le(m, 52) & VM_PROT_EXECUTE != 0,
    }
}

impl MappingRecord {
    /// A DATA mapping carries a slide-info blob; a TEXT mapping does not.
    pub fn has_slide_info(&self) -> (b: bool)
        ensures
            b == (self.slide_info_file_offset != 0 && self.slide_info_file_size != 0),
    {
        self.slide_info_file_offset != 0 && self.slide_info_file_size != 0
    }
}

/// The slide-info blob's version (only 5 is understood).
pub fn slide_info_version(prefix: &[u8]) -> (v: u32)
    requires
        prefix@.len() >= SLIDE_INFO5_PREFIX_LEN,
    ensures
        v == le32(prefix@, 0),
{
    u32le(prefix, 0)
}

/// The number of `page_starts` entries a slide-info blob declares.
pub fn slide_info_page_count(prefix: &[u8]) -> (n: u32)
    requires
        prefix@.len() >= SLIDE_INFO5_PREFIX_LEN,
    ensures
        n == le32(prefix@, 8),
{
    u32le(prefix, 8)
}

/// The `page_starts` entries encoded in `raw`, two little-endian bytes each.
pub open spec fn page_starts_of(raw: Seq<u8>) -> Seq<u16> {
    Seq::new(raw.len() / 2, |i: int| spec_u16_from_le_bytes(raw.subrange(2 * i, 2 * i + 2)))
}

/// Parse a v5 slide-info blob from its 0x18-byte prefix and its `page_starts` bytes.
pub fn parse_slide_info5(prefix: &[u8], raw: &[u8]) -> (si: SlideInfo5)
    requires
        prefix@.len() >= SLIDE_INFO5_PREFIX_LEN,
        le32(prefix@, 0) == 5,
    ensures
        si.page_size == le32(prefix@, 4),
        si.value_add == le64(prefix@, 0x10),
        si.page_starts@ == page_starts_of(raw@),
{
    let mut starts: Vec<u16> = Vec::new();
    let rl = raw.len();
    let n = rl / 2;
    let mut i: usize = 0;
    while i < n
        invariant
            rl == raw@.len(),
            n == rl / 2,
            i <= n,
            starts@ =~= page_starts_of(raw@).take(i as int),
        decreases n - i,
    {
        let v = u16_from_le_bytes(&raw[2 * i..2 * i + 2]);
        starts.push(v);
        i += 1;
    }
    SlideInfo5 { page_size: u32le(prefix, 4), value_add: u64le(prefix, 0x10), page_starts: starts }
}

/// One mapping of a subcache file, with its parsed slide info (none for TEXT).
#[derive(Debug, Clone)]
pub struct Mapping {
    pub address: u64,
    pub size: u64,
    pub file_offset: u64,
    pub is_exec: bool,
    pub slide_info: Option<SlideInfo5>,
}

/// A subcache file: its path and its mappings.
#[derive(Debug, Clone)]
pub struct Subcache {
    pub path: Vec<u8>,
    pub mappings: Vec<Mapping>,
}

/// The lowest mapping address of a non-empty list.
pub open spec fn min_address(ms: Seq<Mapping>) -> u64
    decreases ms.len(),
{
    if ms.len() <= 1 {
        ms[0].address
    } else {
        let rest = min_address(ms.drop_last());
        if ms.last().address < rest { ms.last().address } else { rest }
    }
}

/// The highest mapping end of a non-empty list.
pub open spec fn max_end(ms: Seq<Mapping>) -> int
    decreases ms.len(),
{
    if ms.len() <= 1 {
        ms[0].address + ms[0].size
    } else {
        let rest = max_end(ms.drop_last());
        let e = ms.last().address + ms.last().size;
        if e > rest { e } else { rest }
    }
}

/// Why the discovered subcaches do not cover the cache's window.
#[derive(Debug, Clone, Copy, PartialEq, Eq, Structural)]
pub enum CoverageGap {
    /// A subcache file starts at `starts_at`, but the files before it only reach `covered_to`:
    /// enumeration stopped early or skipped a file.
    Skipped { starts_at: u64, covered_to: u64 },
    /// The files end at `covered_to`, more than a trailing guard page short of the window's end:
    /// enumeration stopped before the last subcache.
    Short { covered_to: u64 },
}

/// The coverage walk from subcache `k` on, having covered up to `cover_end`: each non-empty
/// file must start exactly where coverage ends, and then extends it to its highest end.
pub open spec fn coverage_from(scs: Seq<Subcache>, k: int, cover_end: int, window_end: int) -> Result<(), CoverageGap>
    decreases scs.len() - k,
{
    if k >= scs.len() {
        if cover_end + CACHE_PAGE_SIZE >= window_end {
            Ok(())
        } else {
            Err(CoverageGap::Short { covered_to: cover_end as u64 })
        }
    } else if scs[k].mappings@.len() == 0 {
        coverage_from(scs, k + 1, cover_end, window_end)
    } else {
        let lo = min_address(scs[k].mappings@);
        let hi = max_end(scs[k].mappings@);
        if lo != cover_end {
            Err(CoverageGap::Skipped { starts_at: lo, covered_to: cover_end as u64 })
        } else {
            coverage_from(scs, k + 1, if hi > cover_end { hi } else { cover_end }, window_end)
        }
    }
}

/// How far the subcaches `j..k` extend coverage that already reached `c`: each non-empty file
/// raises it to its highest mapping end.
pub open spec fn covered_between(scs: Seq<Subcache>, j: int, k: int, c: int) -> int
    decreases k - j,
{
    if k <= j {
        c
    } else {
        let before = covered_between(scs, j, k - 1, c);
        if scs[k - 1].mappings@.len() == 0 {
            before
        } else {
            let hi = max_end(scs[k - 1].mappings@);
            if hi > before { hi } else { before }
        }
    }
}

proof fn lemma_covered_between_step(scs: Seq<Subcache>, j: int, k: int, c: int)
    requires
        0 <= j < k <= scs.len(),
    ensures
        covered_between(scs, j, k, c) == covered_between(scs, j + 1, k, covered_between(scs, j, j + 1, c)),
    decreases k - j,
{
    if k > j + 1 {
        lemma_covered_between_step(scs, j, k - 1, c);
    }
}

/// The coverage walk from subcache `j` succeeds exactly when every non-empty file from `j` on
/// starts where the files before it (from `j`) left coverage, and the last leaves it within a
/// page of the window's end.
proof fn lemma_coverage_from_iff(scs: Seq<Subcache>, j: int, c: int, window_end: int)
    requires
        0 <= j <= scs.len(),
    ensures
        coverage_from(scs, j, c, window_end) is Ok <==> {
            &&& forall|k: int| j <= k < scs.len() && scs[k].mappings@.len() > 0 ==> min_address(
                #[trigger] scs[k].mappings@,
            ) == covered_between(scs, j, k, c)
            &&& covered_between(scs, j, scs.len() as int, c) + CACHE_PAGE_SIZE >= window_end
        },
    decreases scs.len() - j,
{
    if j < scs.len() {
        let c1 = covered_between(scs, j, j + 1, c);
        lemma_coverage_from_iff(scs, j + 1, c1, window_end);
        lemma_covered_between_step(scs, j, scs.len() as int, c);
        assert forall|k: int| j + 1 <= k <= scs.len() implies covered_between(scs, j, k, c) == covered_between(
            scs,
            j + 1,
            k,
            c1,
        ) by {
            lemma_covered_between_step(scs, j, k, c);
        }
        assert(covered_between(scs, j, j, c) == c);
    }
}

/// The subcaches cover the window exactly when each non-empty file's lowest mapping starts where
/// the files before it left coverage (from the window's base), and the last file's coverage
/// reaches within a page of the window's end.
pub proof fn lemma_coverage_is_contiguous_files(scs: Seq<Subcache>, base: int, window_end: int)
    ensures
        coverage_from(scs, 0, base, window_end) is Ok <==> {
            &&& forall|k: int| 0 <= k < scs.len() && scs[k].mappings@.len() > 0 ==> min_address(
                #[trigger] scs[k].mappings@,
            ) == covered_between(scs, 0, k, base)
            &&& covered_between(scs, 0, scs.len() as int, base) + CACHE_PAGE_SIZE >= window_end
        },
{
    lemma_coverage_from_iff(scs, 0, base, window_end);
}

/// Every mapping's end fits in `u64` with a page to spare.
pub open spec fn mappings_bounded(scs: Seq<Subcache>) -> bool {
    forall|k: int, j: int|
        0 <= k < scs.len() && 0 <= j < scs[k].mappings@.len() ==> scs[k].mappings@[j].address
            + scs[k].mappings@[j].size + CACHE_PAGE_SIZE <= u64::MAX
}

/// Does every mapping end, a trailing page past it included, below the top of the address space?
pub fn mappings_fit(subcaches: &[Subcache]) -> (b: bool)
    ensures
        b == mappings_bounded(subcaches@),
{
    let mut k: usize = 0;
    while k < subcaches.len()
        invariant
            k <= subcaches@.len(),
            forall|k2: int, j2: int|
                0 <= k2 < k && 0 <= j2 < subcaches@[k2].mappings@.len() ==> (#[trigger] subcaches@[k2].mappings@[j2]).address
                    + subcaches@[k2].mappings@[j2].size + CACHE_PAGE_SIZE <= u64::MAX,
        decreases subcaches@.len() - k,
    {
        let ms = &subcaches[k].mappings;
        let mut j: usize = 0;
        while j < ms.len()
            invariant
                k < subcaches@.len(),
                j <= ms@.len(),
                ms@ == subcaches@[k as int].mappings@,
                forall|k2: int, j2: int|
                    0 <= k2 < k && 0 <= j2 < subcaches@[k2].mappings@.len() ==> (#[trigger] subcaches@[k2].mappings@[j2]).address
                        + subcaches@[k2].mappings@[j2].size + CACHE_PAGE_SIZE <= u64::MAX,
                forall|j2: int| 0 <= j2 < j ==> (#[trigger] ms@[j2]).address + ms@[j2].size + CACHE_PAGE_SIZE <= u64::MAX,
            decreases ms@.len() - j,
        {
            let m = &ms[j];
            if m.address as u128 + m.size as u128 + CACHE_PAGE_SIZE as u128 > u64::MAX as u128 {
                assert(subcaches@[k as int].mappings@[j as int] == *m);
                return false;
            }
            j += 1;
        }
        assert forall|k2: int, j2: int|
            0 <= k2 < k + 1 && 0 <= j2 < subcaches@[k2].mappings@.len() implies (#[trigger] subcaches@[k2].mappings@[j2]).address
                + subcaches@[k2].mappings@[j2].size + CACHE_PAGE_SIZE <= u64::MAX by {
            if k2 == k {
                assert(subcaches@[k2].mappings@[j2] == ms@[j2]);
            }
        }
        k += 1;
    }
    true
}

/// The lowest address and highest end of a non-empty mapping list.
fn mapping_span(ms: &Vec<Mapping>) -> (r: (u64, u64))
    requires
        ms@.len() > 0,
        forall|j: int| 0 <= j < ms@.len() ==> ms@[j].address + ms@[j].size + CACHE_PAGE_SIZE <= u64::MAX,
    ensures
        r.0 == min_address(ms@),
        r.1 == max_end(ms@),
{
    let mut lo = ms[0].address;
    let mut hi = ms[0].address + ms[0].size;
    let mut j: usize = 1;
    while j < ms.len()
        invariant
            1 <= j <= ms@.len(),
            forall|q: int| 0 <= q < ms@.len() ==> ms@[q].address + ms@[q].size + CACHE_PAGE_SIZE <= u64::MAX,
            lo == min_address(ms@.take(j as int)),
            hi == max_end(ms@.take(j as int)),
        decreases ms@.len() - j,
    {
        assert(ms@.take(j as int + 1).drop_last() =~= ms@.take(j as int));
        let m = &ms[j];
        if m.address < lo {
            lo = m.address;
        }
        let e = m.address + m.size;
        if e > hi {
            hi = e;
        }
        j += 1;
    }
    assert(ms@.take(ms@.len() as int) =~= ms@);
    (lo, hi)
}

/// Do the subcaches cover the cache's whole window `[base, base + size)`? Files must pick up
/// exactly where the previous ones left off (a file's own mappings may have gaps), and the last
/// must reach within one page of the window's end, the trailing page being an unmapped guard.
pub fn window_coverage(base: u64, size: u64, subcaches: &[Subcache]) -> (r: Result<(), CoverageGap>)
    requires
        base + size <= u64::MAX,
        mappings_bounded(subcaches@),
    ensures
        r == coverage_from(subcaches@, 0, base as int, base + size),
{
    let window_end = base + size;
    let mut cover_end = base;
    let mut k: usize = 0;
    while k < subcaches.len()
        invariant
            k <= subcaches@.len(),
            window_end == base + size,
            mappings_bounded(subcaches@),
            coverage_from(subcaches@, 0, base as int, window_end as int) == coverage_from(
                subcaches@,
                k as int,
                cover_end as int,
                window_end as int,
            ),
            cover_end + CACHE_PAGE_SIZE <= u64::MAX || cover_end == base,
            cover_end <= base || exists|q: int, j: int|
                0 <= q < subcaches@.len() && 0 <= j < subcaches@[q].mappings@.len() && cover_end
                    == subcaches@[q].mappings@[j].address + subcaches@[q].mappings@[j].size,
        decreases subcaches@.len() - k,
    {
        let sc = &subcaches[k];
        if sc.mappings.len() != 0 {
            let (lo, hi) = mapping_span(&sc.mappings);
            if lo != cover_end {
                return Err(CoverageGap::Skipped { starts_at: lo, covered_to: cover_end });
            }
            if hi > cover_end {
                cover_end = hi;
                proof {
                    lemma_max_end_is_an_end(sc.mappings@);
                }
            }
        }
        k += 1;
    }
    if cover_end as u128 + CACHE_PAGE_SIZE as u128 >= window_end as u128 {
        Ok(())
    } else {
        Err(CoverageGap::Short { covered_to: cover_end })
    }
}

/// The highest end of a list is the end of one of its mappings.
proof fn lemma_max_end_is_an_end(ms: Seq<Mapping>)
    requires
        ms.len() > 0,
    ensures
        exists|j: int| 0 <= j < ms.len() && max_end(ms) == ms[j].address + ms[j].size,
    decreases ms.len(),
{
    if ms.len() > 1 {
        lemma_max_end_is_an_end(ms.drop_last());
        let j = choose|j: int| 0 <= j < ms.drop_last().len() && max_end(ms.drop_last()) == ms.drop_last()[j].address + ms.drop_last()[j].size;
        assert(ms.drop_last()[j] == ms[j]);
        assert(ms[ms.len() - 1] == ms.last());
    } else {
        assert(max_end(ms) == ms[0].address + ms[0].size);
    }
}

/// Mapping `m` holds address `ipa`.
pub open spec fn maps_ipa(m: Mapping, ipa: u64) -> bool {
    m.address <= ipa < m.address + m.size
}

/// A mapping's page granularity: its slide info's page size, or `CACHE_PAGE_SIZE` without one.
pub open spec fn page_size_of(m: Mapping) -> u64 {
    match m.slide_info {
        Some(si) => si.page_size as u64,
        None => CACHE_PAGE_SIZE,
    }
}

/// The first mapping, subcache by subcache and in each subcache's order, that holds `ipa`.
pub open spec fn first_mapping(scs: Seq<Subcache>, ipa: u64) -> Option<(int, int)> {
    if exists|k: int, j: int|
        0 <= k < scs.len() && 0 <= j < scs[k].mappings@.len() && maps_ipa(scs[k].mappings@[j], ipa) {
        Some(
            choose|k: int, j: int|
                0 <= k < scs.len() && 0 <= j < scs[k].mappings@.len() && maps_ipa(scs[k].mappings@[j], ipa)
                    && (forall|k2: int, j2: int|
                    0 <= k2 < scs.len() && 0 <= j2 < scs[k2].mappings@.len() && (k2 < k || (k2 == k
                        && j2 < j)) ==> !maps_ipa(scs[k2].mappings@[j2], ipa)),
        )
    } else {
        None
    }
}

/// Where a cache IPA lives: which subcache and mapping, the page's index in that mapping and
/// its file offset, whether it is executable, and the mapping's base (the address an auth
/// slot's address diversity blends in).
#[derive(Debug, Clone, Copy, PartialEq, Eq, Structural)]
pub struct CacheRoute {
    pub subcache: usize,
    pub mapping: usize,
    pub page_index: usize,
    pub file_offset_of_page: u64,
    pub is_exec: bool,
    pub mapping_base: u64,
}

/// The route of `ipa` through mapping `j` of subcache `k`.
pub open spec fn route_via(scs: Seq<Subcache>, k: int, j: int, ipa: u64) -> CacheRoute {
    let m = scs[k].mappings@[j];
    let ps = page_size_of(m);
    let idx = (ipa - m.address) / (ps as int);
    CacheRoute {
        subcache: k as usize,
        mapping: j as usize,
        page_index: #[verifier::truncate] (idx as usize),
        file_offset_of_page: (m.file_offset + idx * ps) as u64,
        is_exec: m.is_exec,
        mapping_base: m.address,
    }
}

/// Every mapping's end and file end fit, and every page size is positive.
pub open spec fn cache_maps_ok(scs: Seq<Subcache>) -> bool {
    forall|k: int, j: int|
        0 <= k < scs.len() && 0 <= j < scs[k].mappings@.len() ==> {
            let m = #[trigger] scs[k].mappings@[j];
            &&& m.address + m.size <= u64::MAX
            &&& m.file_offset + m.size <= u64::MAX
            &&& page_size_of(m) > 0
        }
}

/// The executable mappings' spans `(address, size)`, non-empty ones only, in order.
pub open spec fn exec_spans_of(ms: Seq<Mapping>) -> Seq<(u64, u64)>
    decreases ms.len(),
{
    if ms.len() == 0 {
        Seq::empty()
    } else {
        let prev = exec_spans_of(ms.drop_last());
        let m = ms.last();
        if m.is_exec && m.size > 0 { prev.push((m.address, m.size)) } else { prev }
    }
}

/// The executable spans of every subcache, in order.
pub open spec fn exec_spans(scs: Seq<Subcache>) -> Seq<(u64, u64)>
    decreases scs.len(),
{
    if scs.len() == 0 {
        Seq::empty()
    } else {
        exec_spans(scs.drop_last()) + exec_spans_of(scs.last().mappings@)
    }
}

/// The `"dyld_data    v3\0"` magic of the dynamic data header.
pub open spec fn dyld_data_magic() -> Seq<u8> {
    seq![
        0x64u8, 0x79u8, 0x6cu8, 0x64u8, 0x5fu8, 0x64u8, 0x61u8, 0x74u8,
        0x61u8, 0x20u8, 0x20u8, 0x20u8, 0x20u8, 0x76u8, 0x33u8, 0x00u8,
    ]
}

/// Where the dynamic data header puts the cache's path.
pub const DYLD_DATA_PATH_OFF: usize = 0x30;

/// The dynamic data header: the magic, the cache file's `(dev, ino)` at 0x10 and 0x18, the path's
/// offset 0x30 at 0x24, and the NUL-terminated path at 0x30.
pub open spec fn dyld_data_header_of(path: Seq<u8>, dev: u64, ino: u64) -> Seq<u8> {
    let h0 = zeros((DYLD_DATA_PATH_OFF + path.len() + 1) as nat);
    let h1 = put(h0, 0, dyld_data_magic());
    let h2 = put(h1, 16, spec_u64_to_le_bytes(dev));
    let h3 = put(h2, 24, spec_u64_to_le_bytes(ino));
    let h4 = put(h3, 0x24, spec_u32_to_le_bytes(DYLD_DATA_PATH_OFF as u32));
    put(h4, DYLD_DATA_PATH_OFF as int, path)
}

/// The dynamic data header names the cache file: it starts with the `dyld_data    v3` magic, the
/// eight bytes at 0x10 read back as the file's device and those at 0x18 as its inode, the
/// 32-bit word at 0x24 is the path's offset 0x30, and the path follows at 0x30, NUL-terminated.
pub proof fn lemma_dynamic_data_header_names_the_file(path: Seq<u8>, dev: u64, ino: u64)
    ensures
        dyld_data_header_of(path, dev, ino).len() == 0x30 + path.len() + 1,
        dyld_data_header_of(path, dev, ino).subrange(0, 16) == dyld_data_magic(),
        spec_u64_from_le_bytes(dyld_data_header_of(path, dev, ino).subrange(0x10, 0x18)) == dev,
        spec_u64_from_le_bytes(dyld_data_header_of(path, dev, ino).subrange(0x18, 0x20)) == ino,
        spec_u32_from_le_bytes(dyld_data_header_of(path, dev, ino).subrange(0x24, 0x28)) == 0x30,
        dyld_data_header_of(path, dev, ino).subrange(0x30, 0x30 + path.len() as int) == path,
        dyld_data_header_of(path, dev, ino)[0x30 + path.len() as int] == 0,
{
    vstd::bytes::lemma_auto_spec_u64_to_from_le_bytes();
    vstd::bytes::lemma_auto_spec_u32_to_from_le_bytes();
    let h = dyld_data_header_of(path, dev, ino);
    assert(h.subrange(0, 16) =~= dyld_data_magic());
    assert(h.subrange(0x10, 0x18) =~= spec_u64_to_le_bytes(dev));
    assert(h.subrange(0x18, 0x20) =~= spec_u64_to_le_bytes(ino));
    assert(h.subrange(0x24, 0x28) =~= spec_u32_to_le_bytes(0x30u32));
    assert(h.subrange(0x30, 0x30 + path.len() as int) =~= path);
}

/// The parsed metadata of the whole shared cache: its window, its dynamic data region, the main
/// file's identity, and every subcache's mappings, enough to route a cache IPA to its page.
#[derive(Debug, Clone)]
pub struct CacheMeta {
    base: u64,
    size: u64,
    dynamic_data_addr: u64,
    dynamic_data_size: u64,
    file_dev: u64,
    file_ino: u64,
    subcaches: Vec<Subcache>,
}

impl CacheMeta {
    /// The subcaches, the main file first.
    pub closed spec fn scs(&self) -> Seq<Subcache> {
        self.subcaches@
    }

    /// The window `(sharedRegionStart, sharedRegionSize)`.
    pub closed spec fn window_spec(&self) -> (u64, u64) {
        (self.base, self.size)
    }

    /// The dynamic data region `(address, size)`, zero when absent.
    pub closed spec fn dynamic_spec(&self) -> (u64, u64) {
        (self.dynamic_data_addr, self.dynamic_data_size)
    }

    /// The main file's `(st_dev, st_ino)`.
    pub closed spec fn file_id(&self) -> (u64, u64) {
        (self.file_dev, self.file_ino)
    }

    /// Assemble the routing table. The dynamic data region sits `dyn_off` above the window's
    /// base (none when `dyn_off` is 0).
    pub fn new(
        base: u64,
        size: u64,
        dyn_off: u64,
        dyn_size: u64,
        file_dev: u64,
        file_ino: u64,
        subcaches: Vec<Subcache>,
    ) -> (m: CacheMeta)
        ensures
            m.scs() == subcaches@,
            m.window_spec() == (base, size),
            m.dynamic_spec() == (if dyn_off != 0 { ((base + dyn_off) % 0x1_0000_0000_0000_0000) as u64 } else { 0 }, dyn_size),
            m.file_id() == (file_dev, file_ino),
    {
        let dynamic_data_addr = if dyn_off != 0 { base.wrapping_add(dyn_off) } else { 0 };
        CacheMeta { base, size, dynamic_data_addr, dynamic_data_size: dyn_size, file_dev, file_ino, subcaches }
    }

    /// The subcaches.
    pub fn subcaches(&self) -> (r: &[Subcache])
        ensures
            r@ == self.scs(),
    {
        self.subcaches.as_slice()
    }

    /// The cache's window: `(sharedRegionStart, sharedRegionSize)` from the main header.
    pub fn window(&self) -> (r: (u64, u64))
        ensures
            r == self.window_spec(),
    {
        (self.base, self.size)
    }

    /// The kernel-made dynamic data region `(address, size)` at the top of the shared region, or
    /// `None` when the header declares none.
    pub fn dynamic_data_region(&self) -> (r: Option<(u64, u64)>)
        ensures
            r == if self.dynamic_spec().0 != 0 && self.dynamic_spec().1 != 0 {
                Some(self.dynamic_spec())
            } else {
                None
            },
    {
        if self.dynamic_data_addr != 0 && self.dynamic_data_size != 0 {
            Some((self.dynamic_data_addr, self.dynamic_data_size))
        } else {
            None
        }
    }

    /// Every executable cache mapping as `(address, size)`, so their stage-1 attributes can be
    /// set to code before the guest ever translates them.
    pub fn exec_mappings(&self) -> (r: Vec<(u64, u64)>)
        ensures
            r@ == exec_spans(self.scs()),
    {
        let mut r: Vec<(u64, u64)> = Vec::new();
        let mut k: usize = 0;
        while k < self.subcaches.len()
            invariant
                k <= self.subcaches@.len(),
                r@ == exec_spans(self.subcaches@.take(k as int)),
            decreases self.subcaches@.len() - k,
        {
            assert(self.subcaches@.take(k as int + 1).drop_last() =~= self.subcaches@.take(k as int));
            let ms = &self.subcaches[k].mappings;
            let ghost before = r@;
            let mut j: usize = 0;
            while j < ms.len()
                invariant
                    j <= ms@.len(),
                    r@ == before + exec_spans_of(ms@.take(j as int)),
                decreases ms@.len() - j,
            {
                assert(ms@.take(j as int + 1).drop_last() =~= ms@.take(j as int));
                let m = &ms[j];
                if m.is_exec && m.size > 0 {
                    r.push((m.address, m.size));
                }
                j += 1;
            }
            assert(ms@.take(ms@.len() as int) =~= ms@);
            k += 1;
        }
        assert(self.subcaches@.take(self.subcaches@.len() as int) =~= self.subcaches@);
        r
    }

    /// The dynamic data header the kernel writes at the start of the dynamic data region, with
    /// the main file's identity and path.
    pub fn dynamic_data_header(&self) -> (h: Vec<u8>)
        requires
            self.scs().len() > 0,
            DYLD_DATA_PATH_OFF + self.scs()[0].path@.len() + 1 <= usize::MAX,
        ensures
            h@ == dyld_data_header_of(self.scs()[0].path@, self.file_id().0, self.file_id().1),
            spec_u64_from_le_bytes(h@.subrange(0x10, 0x18)) == self.file_id().0,
            spec_u64_from_le_bytes(h@.subrange(0x18, 0x20)) == self.file_id().1,
    {
        proof {
            lemma_dynamic_data_header_names_the_file(self.subcaches@[0].path@, self.file_dev, self.file_ino);
        }
        let path = self.subcaches[0].path.as_slice();
        let magic: [u8; 16] = [
            0x64, 0x79, 0x6c, 0x64, 0x5f, 0x64, 0x61, 0x74, 0x61, 0x20, 0x20, 0x20, 0x20, 0x76, 0x33, 0x00,
        ];
        assert(magic@ =~= dyld_data_magic());
        let mut h = zeroed(DYLD_DATA_PATH_OFF + path.len() + 1);
        write_at(&mut h, 0, magic.as_slice());
        write_at(&mut h, 16, u64_to_le_bytes(self.file_dev).as_slice());
        write_at(&mut h, 24, u64_to_le_bytes(self.file_ino).as_slice());
        write_at(&mut h, 0x24, u32_to_le_bytes(DYLD_DATA_PATH_OFF as u32).as_slice());
        write_at(&mut h, DYLD_DATA_PATH_OFF, path);
        h
    }

    /// Are the mappings routable: ends and file ends fit, page sizes positive?
    pub fn well_formed(&self) -> (b: bool)
        ensures
            b == cache_maps_ok(self.scs()),
    {
        let mut k: usize = 0;
        while k < self.subcaches.len()
            invariant
                k <= self.subcaches@.len(),
                forall|k2: int, j: int|
                    0 <= k2 < k && 0 <= j < self.subcaches@[k2].mappings@.len() ==> {
                        let m = #[trigger] self.subcaches@[k2].mappings@[j];
                        &&& m.address + m.size <= u64::MAX
                        &&& m.file_offset + m.size <= u64::MAX
                        &&& page_size_of(m) > 0
                    },
            decreases self.subcaches@.len() - k,
        {
            let ms = &self.subcaches[k].mappings;
            let mut j: usize = 0;
            while j < ms.len()
                invariant
                    k < self.subcaches@.len(),
                    j <= ms@.len(),
                    ms@ == self.subcaches@[k as int].mappings@,
                    forall|k2: int, j2: int|
                        0 <= k2 < k && 0 <= j2 < self.subcaches@[k2].mappings@.len() ==> {
                            let m = #[trigger] self.subcaches@[k2].mappings@[j2];
                            &&& m.address + m.size <= u64::MAX
                            &&& m.file_offset + m.size <= u64::MAX
                            &&& page_size_of(m) > 0
                        },
                    forall|j2: int|
                        0 <= j2 < j ==> {
                            let m = #[trigger] ms@[j2];
                            &&& m.address + m.size <= u64::MAX
                            &&& m.file_offset + m.size <= u64::MAX
                            &&& page_size_of(m) > 0
                        },
                decreases ms@.len() - j,
            {
                let m = &ms[j];
                let ps: u64 = match &m.slide_info {
                    Some(si) => si.page_size as u64,
                    None => CACHE_PAGE_SIZE,
                };
                if m.address as u128 + m.size as u128 > u64::MAX as u128
                    || m.file_offset as u128 + m.size as u128 > u64::MAX as u128 || ps == 0 {
                    assert(self.subcaches@[k as int].mappings@[j as int] == *m);
                    assert(!cache_maps_ok(self.subcaches@));
                    return false;
                }
                j += 1;
            }
            assert forall|k2: int, j2: int|
                0 <= k2 < k + 1 && 0 <= j2 < self.subcaches@[k2].mappings@.len() implies {
                    let m = #[trigger] self.subcaches@[k2].mappings@[j2];
                    &&& m.address + m.size <= u64::MAX
                    &&& m.file_offset + m.size <= u64::MAX
                    &&& page_size_of(m) > 0
                } by {
                if k2 == k {
                    assert(self.subcaches@[k2].mappings@[j2] == ms@[j2]);
                }
            }
            k += 1;
        }
        true
    }

    /// Route a cache IPA to its subcache, mapping and page (metadata only, nothing is read).
    pub fn route(&self, ipa: u64) -> (r: Option<CacheRoute>)
        requires
            cache_maps_ok(self.scs()),
        ensures
            match first_mapping(self.scs(), ipa) {
                Some((k, j)) => r == Some(route_via(self.scs(), k, j, ipa)) && 0 <= k < self.scs().len() && 0 <= j
                    < self.scs()[k].mappings@.len() && r.unwrap().subcache == k && r.unwrap().mapping == j,
                None => r is None,
            },
    {
        let ghost scs = self.scs();
        let mut k: usize = 0;
        while k < self.subcaches.len()
            invariant
                scs == self.scs(),
                k <= scs.len(),
                cache_maps_ok(scs),
                forall|k2: int, j2: int|
                    0 <= k2 < k && 0 <= j2 < scs[k2].mappings@.len() ==> !maps_ipa(#[trigger] scs[k2].mappings@[j2], ipa),
            decreases scs.len() - k,
        {
            let ms = &self.subcaches[k].mappings;
            let mut j: usize = 0;
            while j < ms.len()
                invariant
                    scs == self.scs(),
                    k < scs.len(),
                    j <= ms@.len(),
                    ms@ == scs[k as int].mappings@,
                    cache_maps_ok(scs),
                    forall|k2: int, j2: int|
                        0 <= k2 < k && 0 <= j2 < scs[k2].mappings@.len() ==> !maps_ipa(#[trigger] scs[k2].mappings@[j2], ipa),
                    forall|j2: int| 0 <= j2 < j ==> !maps_ipa(#[trigger] ms@[j2], ipa),
                decreases ms@.len() - j,
            {
                let m = &ms[j];
                assert(scs[k as int].mappings@[j as int] == *m);
                if ipa >= m.address && ipa < m.address + m.size {
                    let ps: u64 = match &m.slide_info {
                        Some(si) => si.page_size as u64,
                        None => CACHE_PAGE_SIZE,
                    };
                    let off = ipa - m.address;
                    let idx = off / ps;
                    proof {
                        lemma_page_offset_fits(off, ps, m.size);
                        let w = (k as int, j as int);
                        assert(forall|k2: int, j2: int|
                            0 <= k2 < scs.len() && 0 <= j2 < scs[k2].mappings@.len() && (k2 < k || (k2 == k
                                && j2 < j)) ==> !maps_ipa(scs[k2].mappings@[j2], ipa));
                        let c = choose|k3: int, j3: int|
                            0 <= k3 < scs.len() && 0 <= j3 < scs[k3].mappings@.len() && maps_ipa(scs[k3].mappings@[j3], ipa)
                                && (forall|k2: int, j2: int|
                                0 <= k2 < scs.len() && 0 <= j2 < scs[k2].mappings@.len() && (k2 < k3 || (k2 == k3
                                    && j2 < j3)) ==> !maps_ipa(scs[k2].mappings@[j2], ipa));
                        assert(c == w);
                    }
                    return Some(CacheRoute {
                        subcache: k,
                        mapping: j,
                        page_index: #[verifier::truncate] (idx as usize),
                        file_offset_of_page: m.file_offset + idx * ps,
                        is_exec: m.is_exec,
                        mapping_base: m.address,
                    });
                }
                j += 1;
            }
            k += 1;
        }
        None
    }

    /// The slide info of mapping `j` of subcache `k`.
    pub fn slide_info_of(&self, k: usize, j: usize) -> (r: Option<&SlideInfo5>)
        requires
            k < self.scs().len(),
            j < self.scs()[k as int].mappings@.len(),
        ensures
            r == match self.scs()[k as int].mappings@[j as int].slide_info {
                Some(si) => Some(&si),
                None => None::<&SlideInfo5>,
            },
    {
        match &self.subcaches[k].mappings[j].slide_info {
            Some(si) => Some(si),
            None => None,
        }
    }
}

/// A page index times the page size stays inside the mapping.
proof fn lemma_page_offset_fits(off: u64, ps: u64, size: u64)
    requires
        ps > 0,
        off < size,
    ensures
        (off / ps) * ps <= off,
{
    vstd::arithmetic::div_mod::lemma_fundamental_div_mod(off as int, ps as int);
    assert((off / ps) * ps <= off) by (nonlinear_arith)
        requires
            off == ps * (off / ps) + off % ps,
            off % ps >= 0;
}

} // verus!
