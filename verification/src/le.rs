//! Little-endian byte layouts: placing an encoded value at an offset of a byte buffer.
use vstd::prelude::*;

verus! {

/// `s` with the bytes of `b` placed at offset `off` (the buffer keeps its length).
pub open spec fn put(s: Seq<u8>, off: int, b: Seq<u8>) -> Seq<u8> {
    Seq::new(s.len(), |k: int| if off <= k < off + b.len() { b[k - off] } else { s[k] })
}

/// `n` zero bytes.
pub open spec fn zeros(n: nat) -> Seq<u8> {
    Seq::new(n, |k: int| 0u8)
}

/// Copy `b` into `f` at offset `off`.
pub fn write_at(f: &mut Vec<u8>, off: usize, b: &[u8])
    requires
        off + b@.len() <= old(f)@.len(),
    ensures
        final(f)@ == put(old(f)@, off as int, b@),
{
    let ghost before = f@;
    let n = f.len();
    let mut j: usize = 0;
    while j < b.len()
        invariant
            j <= b@.len(),
            before.len() == n,
            off + b@.len() <= before.len(),
            f@.len() == before.len(),
            forall|k: int|
                0 <= k < before.len() ==> f@[k] == if off <= k < off + j {
                    b@[k - off]
                } else {
                    before[k]
                },
        decreases b@.len() - j,
    {
        f.set(off + j, b[j]);
        j += 1;
    }
    assert(f@ =~= put(before, off as int, b@));
}

/// Copy `b` into the array `o` at offset `off`.
pub fn write_arr<const N: usize>(o: &mut [u8; N], off: usize, b: &[u8])
    requires
        off + b@.len() <= N,
    ensures
        final(o)@ == put(old(o)@, off as int, b@),
{
    let ghost before = o@;
    let mut j: usize = 0;
    while j < b.len()
        invariant
            j <= b@.len(),
            off + b@.len() <= N,
            before.len() == N,
            o@.len() == N,
            forall|k: int|
                0 <= k < N ==> o@[k] == if off <= k < off + j {
                    b@[k - off]
                } else {
                    before[k]
                },
        decreases b@.len() - j,
    {
        o[off + j] = b[j];
        j += 1;
    }
    assert(o@ =~= put(before, off as int, b@));
}

/// A vector of `n` zero bytes.
pub fn zeroed(n: usize) -> (v: Vec<u8>)
    ensures
        v@ == zeros(n as nat),
{
    let mut v: Vec<u8> = Vec::new();
    let mut i: usize = 0;
    while i < n
        invariant
            i <= n,
            v@ =~= zeros(i as nat),
        decreases n - i,
    {
        v.push(0);
        i += 1;
    }
    v
}

} // verus!
