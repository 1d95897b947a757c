//! Signing and authenticating pointers with the guest's own PAC keys: a small EL0 stub walks a
//! table of `(value, modifier, op)` entries, writing each result over its value. This module
//! builds the stub's code page, the table pages for a batch, and reads the results back; running
//! the stub is the caller's.
use vstd::prelude::*;
use vstd::bytes::{spec_u32_to_le_bytes, spec_u64_from_le_bytes, spec_u64_to_le_bytes, u32_to_le_bytes, u64_to_le_bytes};
use crate::cache::{u64le, AuthSlot};
use crate::layout::GRANULE;
use crate::le::{put, write_at, zeroed, zeros};
use crate::sig::put_words;

verus! {

/// Where the signing stub's code page sits (RO + EL0-exec).
pub const SIGN_STUB_IPA: u64 = 0x0004_0000;

/// Where the stub's table page sits (RW, never executable).
pub const SIGN_TABLE_IPA: u64 = 0x0004_4000;

/// One table entry: value, modifier and op, 8 bytes each.
pub const PAC_ENTRY_BYTES: usize = 24;

/// How many entries one table page holds.
pub const SIGN_CHUNK: usize = 682;

/// The op selector the stub dispatches on: bit 1 authenticates, bit 0 picks the data key.
pub const OP_PACIA: u64 = 0;
pub const OP_PACDA: u64 = 1;
pub const OP_AUTIA: u64 = 2;
pub const OP_AUTDA: u64 = 3;

/// The stub (x9 = table, x10 = count, run at EL0, ending in `svc #0`):
/// `loop: cbz x10,done; ldr x0,[x9]; ldr x1,[x9,#8]; ldr x2,[x9,#16]; tbnz w2,#1,is_auth;
/// tbnz w2,#0,do_pacda; pacia x0,x1; b store; do_pacda: pacda x0,x1; b store;
/// is_auth: tbnz w2,#0,do_autda; autia x0,x1; b store; do_autda: autda x0,x1;
/// store: str x0,[x9]; add x9,x9,#24; sub x10,x10,#1; b loop; done: svc #0`.
pub open spec fn sign_stub_words() -> Seq<u32> {
    seq![
        0xb400_024au32, 0xf940_0120, 0xf940_0521, 0xf940_0922,
        0x3708_00c2, 0x3700_0062, 0xdac1_0020, 0x1400_0007,
        0xdac1_0820, 0x1400_0005, 0x3700_0062, 0xdac1_1020,
        0x1400_0002, 0xdac1_1820, 0xf900_0120, 0x9100_6129,
        0xd100_054a, 0x17ff_ffef, 0xd400_0001,
    ]
}

/// `s` with each of `ws` placed as 4 little-endian bytes, consecutively from offset 0.
pub open spec fn put_insns(s: Seq<u8>, ws: Seq<u32>) -> Seq<u8>
    decreases ws.len(),
{
    if ws.len() == 0 {
        s
    } else {
        put(put_insns(s, ws.drop_last()), 4 * (ws.len() - 1), spec_u32_to_le_bytes(ws.last()))
    }
}

/// The stub's code page: its instructions from offset 0, zero after.
pub fn sign_stub_page() -> (p: Vec<u8>)
    ensures
        p@ == put_insns(zeros(GRANULE as nat), sign_stub_words()),
{
    let words: [u32; 19] = [
        0xb400_024a, 0xf940_0120, 0xf940_0521, 0xf940_0922,
        0x3708_00c2, 0x3700_0062, 0xdac1_0020, 0x1400_0007,
        0xdac1_0820, 0x1400_0005, 0x3700_0062, 0xdac1_1020,
        0x1400_0002, 0xdac1_1820, 0xf900_0120, 0x9100_6129,
        0xd100_054a, 0x17ff_ffef, 0xd400_0001,
    ];
    assert(words@ =~= sign_stub_words());
    let mut p = zeroed(GRANULE);
    let mut i: usize = 0;
    while i < 19
        invariant
            i <= 19,
            words@ == sign_stub_words(),
            p@.len() == GRANULE,
            p@ == put_insns(zeros(GRANULE as nat), words@.take(i as int)),
        decreases 19 - i,
    {
        let b = u32_to_le_bytes(words[i]);
        assert(words@.take(i + 1).drop_last() =~= words@.take(i as int));
        write_at(&mut p, 4 * i, b.as_slice());
        i += 1;
    }
    assert(words@.take(19) =~= words@);
    p
}

/// Where the TLB-flush stub's code page sits (RO + EL1-exec: `tlbi` is an EL1 instruction).
pub const TLBI_STUB_IPA: u64 = 0x0004_8000;

/// The flush stub runs at EL1h with interrupts masked.
pub const TLBI_STUB_CPSR: u64 = 0x3C5;

/// The flush stub: `tlbi vmalle1; dsb ish; isb; hvc #0`.
pub open spec fn tlbi_stub_words() -> Seq<u32> {
    seq![0xd508_871fu32, 0xd503_3b9f, 0xd503_3fdf, 0xd400_0002]
}

/// The flush stub's code page: its instructions from offset 0, zero after.
pub fn tlbi_stub_page() -> (p: Vec<u8>)
    ensures
        p@ == put_insns(zeros(GRANULE as nat), tlbi_stub_words()),
{
    let words: [u32; 4] = [0xd508_871f, 0xd503_3b9f, 0xd503_3fdf, 0xd400_0002];
    assert(words@ =~= tlbi_stub_words());
    let mut p = zeroed(GRANULE);
    let mut i: usize = 0;
    while i < 4
        invariant
            i <= 4,
            words@ == tlbi_stub_words(),
            p@.len() == GRANULE,
            p@ == put_insns(zeros(GRANULE as nat), words@.take(i as int)),
        decreases 4 - i,
    {
        let b = u32_to_le_bytes(words[i]);
        assert(words@.take(i + 1).drop_last() =~= words@.take(i as int));
        write_at(&mut p, 4 * i, b.as_slice());
        i += 1;
    }
    assert(words@.take(4) =~= words@);
    p
}

/// The entries that re-sign `slots`: each slot's target with its modifier, by `pacda` for a data
/// key and `pacia` otherwise.
pub open spec fn sign_entries_of(slots: Seq<AuthSlot>) -> Seq<(u64, u64, u64)> {
    Seq::new(
        slots.len(),
        |i: int| (slots[i].target_va, slots[i].modifier, if slots[i].key_is_data { OP_PACDA } else { OP_PACIA }),
    )
}

/// What re-signing `slots` takes: with PAC off the guest's cache is rebase-only, so each slot's
/// value is its plain target and nothing runs (`Ok`); with PAC on, the stub signs the entries
/// (`Err` holds the batch to run).
pub fn sign_work(pac_enabled: bool, slots: &[AuthSlot]) -> (r: Result<Vec<u64>, Vec<(u64, u64, u64)>>)
    ensures
        !pac_enabled ==> (r matches Ok(v) && v@ == Seq::new(slots@.len(), |i: int| slots@[i].target_va)),
        pac_enabled ==> (r matches Err(e) && e@ == sign_entries_of(slots@)),
{
    if !pac_enabled {
        let mut v: Vec<u64> = Vec::new();
        let mut i: usize = 0;
        while i < slots.len()
            invariant
                i <= slots@.len(),
                v@ == Seq::new(i as nat, |k: int| slots@[k].target_va),
            decreases slots@.len() - i,
        {
            v.push(slots[i].target_va);
            i += 1;
        }
        return Ok(v);
    }
    let mut e: Vec<(u64, u64, u64)> = Vec::new();
    let mut i: usize = 0;
    while i < slots.len()
        invariant
            i <= slots@.len(),
            e@ == sign_entries_of(slots@.take(i as int)),
        decreases slots@.len() - i,
    {
        let s = slots[i];
        e.push((s.target_va, s.modifier, if s.key_is_data { OP_PACDA } else { OP_PACIA }));
        assert(e@ =~= sign_entries_of(slots@.take(i + 1)));
        i += 1;
    }
    assert(slots@.take(slots@.len() as int) =~= slots@);
    Err(e)
}

/// The entries that authenticate `(signed, modifier, key_is_data)` items by `autda`/`autia`.
pub fn auth_entries(items: &[(u64, u64, bool)]) -> (e: Vec<(u64, u64, u64)>)
    ensures
        e@ == Seq::new(
            items@.len(),
            |i: int| (items@[i].0, items@[i].1, if items@[i].2 { OP_AUTDA } else { OP_AUTIA }),
        ),
{
    let mut e: Vec<(u64, u64, u64)> = Vec::new();
    let mut i: usize = 0;
    while i < items.len()
        invariant
            i <= items@.len(),
            e@ == Seq::new(
                i as nat,
                |k: int| (items@[k].0, items@[k].1, if items@[k].2 { OP_AUTDA } else { OP_AUTIA }),
            ),
        decreases items@.len() - i,
    {
        let (p, m, kd) = items[i];
        e.push((p, m, if kd { OP_AUTDA } else { OP_AUTIA }));
        i += 1;
    }
    e
}

/// The words of a table: value, modifier, op for each entry, back to back.
pub open spec fn table_words(entries: Seq<(u64, u64, u64)>) -> Seq<u64>
    decreases entries.len(),
{
    if entries.len() == 0 {
        Seq::empty()
    } else {
        let e = entries.last();
        table_words(entries.drop_last()) + seq![e.0, e.1, e.2]
    }
}

/// A table page for at most `SIGN_CHUNK` entries: the entries from offset 0, zero after.
pub fn encode_table(entries: &[(u64, u64, u64)]) -> (p: Vec<u8>)
    requires
        entries@.len() <= SIGN_CHUNK,
    ensures
        p@ == put_words(zeros(GRANULE as nat), 0, table_words(entries@)),
{
    let mut p = zeroed(GRANULE);
    let mut words: Vec<u64> = Vec::new();
    let mut i: usize = 0;
    while i < entries.len()
        invariant
            i <= entries@.len(),
            words@ == table_words(entries@.take(i as int)),
            words@.len() == 3 * i,
        decreases entries@.len() - i,
    {
        let (v, m, o) = entries[i];
        assert(entries@.take(i + 1).drop_last() =~= entries@.take(i as int));
        words.push(v);
        words.push(m);
        words.push(o);
        assert(words@ =~= table_words(entries@.take(i + 1)));
        i += 1;
    }
    assert(entries@.take(entries@.len() as int) =~= entries@);
    let mut w: usize = 0;
    while w < words.len()
        invariant
            w <= words@.len(),
            words@.len() <= 3 * SIGN_CHUNK,
            p@.len() == GRANULE,
            p@ == put_words(zeros(GRANULE as nat), 0, words@.take(w as int)),
        decreases words@.len() - w,
    {
        let b = u64_to_le_bytes(words[w]);
        assert(words@.take(w + 1).drop_last() =~= words@.take(w as int));
        write_at(&mut p, 8 * w, b.as_slice());
        w += 1;
    }
    assert(words@.take(words@.len() as int) =~= words@);
    p
}

/// The results the stub left in a table page: the first 8 bytes of each of the first `n` entries.
pub fn decode_results(table: &[u8], n: usize) -> (r: Vec<u64>)
    requires
        n * PAC_ENTRY_BYTES <= table@.len(),
    ensures
        r@ == Seq::new(n as nat, |i: int| spec_u64_from_le_bytes(table@.subrange(i * 24, i * 24 + 8))),
{
    let len = table.len();
    let mut r: Vec<u64> = Vec::new();
    let mut i: usize = 0;
    while i < n
        invariant
            i <= n,
            len == table@.len(),
            n * PAC_ENTRY_BYTES <= table@.len(),
            r@ == Seq::new(i as nat, |k: int| spec_u64_from_le_bytes(table@.subrange(k * 24, k * 24 + 8))),
        decreases n - i,
    {
        assert(i * 24 + 8 <= n * 24) by (nonlinear_arith)
            requires
                i < n;
        r.push(u64le(table, i * PAC_ENTRY_BYTES));
        i += 1;
    }
    r
}

/// Each of `xs` placed by `put_words` reads back from its own 8 bytes.
proof fn lemma_put_words_reads_back(s: Seq<u8>, xs: Seq<u64>, k: int)
    requires
        8 * xs.len() <= s.len(),
        0 <= k < xs.len(),
    ensures
        put_words(s, 0, xs).len() == s.len(),
        put_words(s, 0, xs).subrange(8 * k, 8 * k + 8) == spec_u64_to_le_bytes(xs[k]),
    decreases xs.len(),
{
    vstd::bytes::lemma_auto_spec_u64_to_from_le_bytes();
    let n = xs.len() - 1;
    let prev = put_words(s, 0, xs.drop_last());
    lemma_put_words_len(s, xs.drop_last());
    if k == n {
        assert(put_words(s, 0, xs).subrange(8 * k, 8 * k + 8) =~= spec_u64_to_le_bytes(xs[k]));
    } else {
        lemma_put_words_reads_back(s, xs.drop_last(), k);
        assert(put_words(s, 0, xs).subrange(8 * k, 8 * k + 8) =~= prev.subrange(8 * k, 8 * k + 8));
    }
}

/// `put_words` keeps the buffer's length.
proof fn lemma_put_words_len(s: Seq<u8>, xs: Seq<u64>)
    ensures
        put_words(s, 0, xs).len() == s.len(),
    decreases xs.len(),
{
    if xs.len() > 0 {
        lemma_put_words_len(s, xs.drop_last());
    }
}

/// A table has three words per entry.
proof fn lemma_table_words_len(entries: Seq<(u64, u64, u64)>)
    ensures
        table_words(entries).len() == 3 * entries.len(),
    decreases entries.len(),
{
    if entries.len() > 0 {
        lemma_table_words_len(entries.drop_last());
    }
}

/// The words of a table: entry `i`'s value is word `3 i`.
proof fn lemma_table_words(entries: Seq<(u64, u64, u64)>, i: int)
    requires
        0 <= i < entries.len(),
    ensures
        table_words(entries).len() == 3 * entries.len(),
        table_words(entries)[3 * i] == entries[i].0,
    decreases entries.len(),
{
    lemma_table_words_len(entries);
    lemma_table_words_len(entries.drop_last());
    if i < entries.len() - 1 {
        lemma_table_words(entries.drop_last(), i);
    }
}

/// A table page, read back before the stub has run, gives each entry's own value: results and
/// values share the first 8 bytes of an entry.
pub proof fn lemma_table_reads_back_its_values(entries: Seq<(u64, u64, u64)>, i: int)
    requires
        entries.len() <= SIGN_CHUNK,
        0 <= i < entries.len(),
    ensures
        spec_u64_from_le_bytes(
            put_words(zeros(GRANULE as nat), 0, table_words(entries)).subrange(i * 24, i * 24 + 8),
        ) == entries[i].0,
{
    vstd::bytes::lemma_auto_spec_u64_to_from_le_bytes();
    lemma_table_words(entries, i);
    lemma_put_words_reads_back(zeros(GRANULE as nat), table_words(entries), 3 * i);
    assert(8 * (3 * i) == i * 24);
}

} // verus!
