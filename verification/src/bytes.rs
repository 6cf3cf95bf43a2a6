//! Small helpers for moving bytes between slices, vectors and arrays.

use vstd::prelude::*;

verus! {

/// Appends every byte of `s` to `v`.
pub fn append_bytes(v: &mut Vec<u8>, s: &[u8])
    ensures
        final(v)@ == old(v)@ + s@,
{
    let mut i: usize = 0;
    while i < s.len()
        invariant
            i <= s@.len(),
            v@ == old(v)@ + s@.subrange(0, i as int),
        decreases s@.len() - i,
    {
        v.push(s[i]);
        i += 1;
    }
    assert(s@.subrange(0, s@.len() as int) =~= s@);
}

/// Copies the `N` bytes of `src` that start at `start` into an array.
pub fn subarray<const N: usize>(src: &[u8], start: usize) -> (out: [u8; N])
    requires
        start + N <= src@.len(),
    ensures
        out@ == src@.subrange(start as int, start + N),
{
    let len = src.len();
    let mut out = [0u8; N];
    let mut i: usize = 0;
    while i < N
        invariant
            i <= N,
            start + N <= src@.len(),
            src@.len() == len,
            forall|k: int| 0 <= k < i ==> out@[k] == src@[start + k],
        decreases N - i,
    {
        out[i] = src[start + i];
        i += 1;
    }
    assert(out@ =~= src@.subrange(start as int, start + N));
    out
}

/// Copies a slice of exactly `N` bytes into an array.
pub fn array_from_slice<const N: usize>(src: &[u8]) -> (out: [u8; N])
    requires
        src@.len() == N,
    ensures
        out@ == src@,
{
    let out = subarray::<N>(src, 0);
    assert(src@.subrange(0, N as int) =~= src@);
    out
}

} // verus!
