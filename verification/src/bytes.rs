//! Small executable helpers on byte arrays and byte vectors, shared by the
//! signing-payload constructions and the canonical codecs.

use vstd::prelude::*;
use vstd::array::ArrayAdditionalExecFns;

verus! {

/// Compare two 32-byte values for equality.
pub fn bytes32_eq(a: &[u8; 32], b: &[u8; 32]) -> (r: bool)
    ensures
        r <==> a@ == b@,
{
    let mut i: usize = 0;
    while i < 32
        invariant
            0 <= i <= 32,
            forall|j: int| 0 <= j < i ==> a@[j] == b@[j],
        decreases 32 - i,
    {
        if a[i] != b[i] {
            proof {
                assert(a@[i as int] != b@[i as int]);
            }
            return false;
        }
        i += 1;
    }
    proof {
        assert(a@ =~= b@);
    }
    true
}

/// Compare two 64-byte values for equality.
pub fn bytes64_eq(a: &[u8; 64], b: &[u8; 64]) -> (r: bool)
    ensures
        r <==> a@ == b@,
{
    let mut i: usize = 0;
    while i < 64
        invariant
            0 <= i <= 64,
            forall|j: int| 0 <= j < i ==> a@[j] == b@[j],
        decreases 64 - i,
    {
        if a[i] != b[i] {
            proof {
                assert(a@[i as int] != b@[i as int]);
            }
            return false;
        }
        i += 1;
    }
    proof {
        assert(a@ =~= b@);
    }
    true
}

/// Two 32-byte arrays with equal views are equal.
pub proof fn lemma_bytes32_ext(a: [u8; 32], b: [u8; 32])
    requires
        a@ == b@,
    ensures
        a == b,
{
}

/// Strict lexicographic order on 32-byte values.
pub open spec fn spec_hash_lt(a: [u8; 32], b: [u8; 32]) -> bool {
    exists|i: int|
        0 <= i < 32 && a@[i] < b@[i] && (forall|j: int| 0 <= j < i ==> a@[j] == b@[j])
}

/// Compare two 32-byte values lexicographically.
pub fn hash_lt(a: &[u8; 32], b: &[u8; 32]) -> (r: bool)
    ensures
        r <==> spec_hash_lt(*a, *b),
{
    let mut i: usize = 0;
    while i < 32
        invariant
            0 <= i <= 32,
            forall|j: int| 0 <= j < i ==> a@[j] == b@[j],
        decreases 32 - i,
    {
        if a[i] < b[i] {
            proof {
                assert(a@[i as int] < b@[i as int]);
            }
            return true;
        }
        if a[i] > b[i] {
            proof {
                if spec_hash_lt(*a, *b) {
                    let w = choose|w: int|
                        0 <= w < 32 && a@[w] < b@[w] && (forall|j: int|
                            0 <= j < w ==> a@[j] == b@[j]);
                    assert(a@[i as int] > b@[i as int]);
                    if w > i {
                        assert(a@[i as int] == b@[i as int]);
                    }
                    assert(false);
                }
            }
            return false;
        }
        i += 1;
    }
    proof {
        if spec_hash_lt(*a, *b) {
            let w = choose|w: int|
                0 <= w < 32 && a@[w] < b@[w] && (forall|j: int| 0 <= j < w ==> a@[j] == b@[j]);
            assert(a@[w] == b@[w]);
            assert(false);
        }
    }
    false
}

/// Append the little-endian encoding of `x` to `out`.
pub fn push_u64_le(out: &mut Vec<u8>, x: u64)
    ensures
        final(out)@ == old(out)@ + vstd::bytes::spec_u64_to_le_bytes(x),
{
    let mut le = vstd::bytes::u64_to_le_bytes(x);
    out.append(&mut le);
}

/// Append all 32 bytes of `a` to `out`.
pub fn push_bytes32(out: &mut Vec<u8>, a: &[u8; 32])
    ensures
        final(out)@ == old(out)@ + a@,
{
    let mut i: usize = 0;
    while i < 32
        invariant
            0 <= i <= 32,
            out@ == old(out)@ + a@.take(i as int),
        decreases 32 - i,
    {
        out.push(a[i]);
        proof {
            assert(out@ =~= old(out)@ + a@.take(i + 1));
        }
        i += 1;
    }
    proof {
        assert(a@.take(32) =~= a@);
    }
}

/// Append all 64 bytes of `a` to `out`.
pub fn push_bytes64(out: &mut Vec<u8>, a: &[u8; 64])
    ensures
        final(out)@ == old(out)@ + a@,
{
    let mut i: usize = 0;
    while i < 64
        invariant
            0 <= i <= 64,
            out@ == old(out)@ + a@.take(i as int),
        decreases 64 - i,
    {
        out.push(a[i]);
        proof {
            assert(out@ =~= old(out)@ + a@.take(i + 1));
        }
        i += 1;
    }
    proof {
        assert(a@.take(64) =~= a@);
    }
}

/// Append the whole of `src` to `out`.
pub fn push_slice(out: &mut Vec<u8>, src: &[u8])
    ensures
        final(out)@ == old(out)@ + src@,
{
    let mut i: usize = 0;
    while i < src.len()
        invariant
            0 <= i <= src@.len(),
            out@ == old(out)@ + src@.take(i as int),
        decreases src@.len() - i,
    {
        out.push(src[i]);
        proof {
            assert(out@ =~= old(out)@ + src@.take(i + 1));
        }
        i += 1;
    }
    proof {
        assert(src@.take(src@.len() as int) =~= src@);
    }
}

/// Copy `src[start..end]` into a fresh vector.
pub fn read_vec(src: &[u8], start: usize, end: usize) -> (r: Vec<u8>)
    requires
        start <= end <= src@.len(),
    ensures
        r@ == src@.subrange(start as int, end as int),
{
    let n = src.len();
    let mut r: Vec<u8> = Vec::new();
    let mut i: usize = start;
    while i < end
        invariant
            start <= i <= end <= n,
            n == src@.len(),
            r@ == src@.subrange(start as int, i as int),
        decreases end - i,
    {
        r.push(src[i]);
        proof {
            assert(r@ =~= src@.subrange(start as int, i + 1));
        }
        i += 1;
    }
    r
}

/// Copy the 32 bytes starting at `start` out of `src`.
pub fn read_bytes32(src: &[u8], start: usize) -> (r: [u8; 32])
    requires
        start + 32 <= src@.len(),
    ensures
        r@ == src@.subrange(start as int, start as int + 32),
{
    let n = src.len();
    let mut r = [0u8; 32];
    let mut i: usize = 0;
    while i < 32
        invariant
            0 <= i <= 32,
            n == src@.len(),
            start + 32 <= n,
            r@.len() == 32,
            forall|j: int| 0 <= j < i ==> r@[j] == src@[start + j],
        decreases 32 - i,
    {
        r.set(i, src[start + i]);
        i += 1;
    }
    proof {
        assert(r@ =~= src@.subrange(start as int, start as int + 32));
    }
    r
}

/// Copy the 64 bytes starting at `start` out of `src`.
pub fn read_bytes64(src: &[u8], start: usize) -> (r: [u8; 64])
    requires
        start + 64 <= src@.len(),
    ensures
        r@ == src@.subrange(start as int, start as int + 64),
{
    let n = src.len();
    let mut r = [0u8; 64];
    let mut i: usize = 0;
    while i < 64
        invariant
            0 <= i <= 64,
            n == src@.len(),
            start + 64 <= n,
            r@.len() == 64,
            forall|j: int| 0 <= j < i ==> r@[j] == src@[start + j],
        decreases 64 - i,
    {
        r.set(i, src[start + i]);
        i += 1;
    }
    proof {
        assert(r@ =~= src@.subrange(start as int, start as int + 64));
    }
    r
}

} // verus!
