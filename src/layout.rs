//! Little-endian fields of the host input buffer.
use vstd::bytes::*;
use vstd::prelude::*;

verus! {

/// The `u64` stored little-endian at `at`.
pub open spec fn u64_at(b: Seq<u8>, at: int) -> u64 {
    spec_u64_from_le_bytes(b.subrange(at, at + 8))
}

/// The `u32` stored little-endian at `at`.
pub open spec fn u32_at(b: Seq<u8>, at: int) -> u32 {
    spec_u32_from_le_bytes(b.subrange(at, at + 4))
}

/// `b` with the bytes of `s` written from `at` on; its length is kept.
pub open spec fn write_at(b: Seq<u8>, at: int, s: Seq<u8>) -> Seq<u8> {
    Seq::new(b.len(), |j: int| if at <= j < at + s.len() { s[j - at] } else { b[j] })
}

/// `b` with `n` zero bytes written from `at` on.
pub open spec fn zero_at(b: Seq<u8>, at: int, n: int) -> Seq<u8> {
    write_at(b, at, Seq::new(n as nat, |_j: int| 0u8))
}

pub proof fn lemma_u64_written(b: Seq<u8>, at: int, v: u64)
    requires
        0 <= at,
        at + 8 <= b.len(),
    ensures
        u64_at(write_at(b, at, spec_u64_to_le_bytes(v)), at) == v,
{
    lemma_auto_spec_u64_to_from_le_bytes();
    assert(write_at(b, at, spec_u64_to_le_bytes(v)).subrange(at, at + 8) =~= spec_u64_to_le_bytes(v));
}

pub proof fn lemma_u32_written(b: Seq<u8>, at: int, v: u32)
    requires
        0 <= at,
        at + 4 <= b.len(),
    ensures
        u32_at(write_at(b, at, spec_u32_to_le_bytes(v)), at) == v,
{
    lemma_auto_spec_u32_to_from_le_bytes();
    assert(write_at(b, at, spec_u32_to_le_bytes(v)).subrange(at, at + 4) =~= spec_u32_to_le_bytes(v));
}

/// A field that lies wholly outside a write keeps its value.
pub proof fn lemma_u64_untouched(b: Seq<u8>, at: int, s: Seq<u8>, f: int)
    requires
        0 <= at,
        at + s.len() <= b.len(),
        0 <= f,
        f + 8 <= b.len(),
        f + 8 <= at || at + s.len() <= f,
    ensures
        u64_at(write_at(b, at, s), f) == u64_at(b, f),
{
    assert(write_at(b, at, s).subrange(f, f + 8) =~= b.subrange(f, f + 8));
}

/// A field that lies wholly outside a write keeps its value.
pub proof fn lemma_u32_untouched(b: Seq<u8>, at: int, s: Seq<u8>, f: int)
    requires
        0 <= at,
        at + s.len() <= b.len(),
        0 <= f,
        f + 4 <= b.len(),
        f + 4 <= at || at + s.len() <= f,
    ensures
        u32_at(write_at(b, at, s), f) == u32_at(b, f),
{
    assert(write_at(b, at, s).subrange(f, f + 4) =~= b.subrange(f, f + 4));
}

/// Reads the `u64` stored little-endian at `at`.
pub fn read_u64(b: &[u8], at: usize) -> (r: u64)
    requires
        at + 8 <= b@.len(),
    ensures
        r == u64_at(b@, at as int),
{
    let _len = b.len();
    u64_from_le_bytes(&b[at..at + 8])
}

/// Reads the `u32` stored little-endian at `at`.
pub fn read_u32(b: &[u8], at: usize) -> (r: u32)
    requires
        at + 4 <= b@.len(),
    ensures
        r == u32_at(b@, at as int),
{
    let _len = b.len();
    u32_from_le_bytes(&b[at..at + 4])
}

/// Copies `s` into `b` from `at` on.
pub fn write_bytes(b: &mut Vec<u8>, at: usize, s: &[u8])
    requires
        at + s@.len() <= old(b)@.len(),
    ensures
        final(b)@ == write_at(old(b)@, at as int, s@),
{
    let _len = b.len();
    let mut k: usize = 0;
    while k < s.len()
        invariant
            at + s@.len() <= b@.len(),
            0 <= k <= s@.len(),
            b@.len() == old(b)@.len(),
            b@.len() == _len,
            forall|j: int|
                0 <= j < b@.len() ==> #[trigger] b@[j] == (if at <= j < at + k {
                    s@[j - at]
                } else {
                    old(b)@[j]
                }),
        decreases s@.len() - k,
    {
        b.set(at + k, s[k]);
        k += 1;
    }
    assert(b@ =~= write_at(old(b)@, at as int, s@));
}

/// Writes `n` zero bytes into `b` from `at` on.
pub fn write_zeros(b: &mut Vec<u8>, at: usize, n: usize)
    requires
        at + n <= old(b)@.len(),
    ensures
        final(b)@ == zero_at(old(b)@, at as int, n as int),
{
    let _len = b.len();
    let mut k: usize = 0;
    while k < n
        invariant
            at + n <= b@.len(),
            0 <= k <= n,
            b@.len() == old(b)@.len(),
            b@.len() == _len,
            forall|j: int|
                0 <= j < b@.len() ==> #[trigger] b@[j] == (if at <= j < at + k {
                    0u8
                } else {
                    old(b)@[j]
                }),
        decreases n - k,
    {
        b.set(at + k, 0);
        k += 1;
    }
    assert(b@ =~= zero_at(old(b)@, at as int, n as int));
}

/// Writes `v` little-endian at `at`.
pub fn write_u64(b: &mut Vec<u8>, at: usize, v: u64)
    requires
        at + 8 <= old(b)@.len(),
    ensures
        final(b)@ == write_at(old(b)@, at as int, spec_u64_to_le_bytes(v)),
        u64_at(final(b)@, at as int) == v,
{
    let bytes = u64_to_le_bytes(v);
    proof {
        lemma_auto_spec_u64_to_from_le_bytes();
    }
    write_bytes(b, at, bytes.as_slice());
    proof {
        lemma_u64_written(old(b)@, at as int, v);
    }
}

/// Writes `v` little-endian at `at`.
pub fn write_u32(b: &mut Vec<u8>, at: usize, v: u32)
    requires
        at + 4 <= old(b)@.len(),
    ensures
        final(b)@ == write_at(old(b)@, at as int, spec_u32_to_le_bytes(v)),
        u32_at(final(b)@, at as int) == v,
{
    let bytes = u32_to_le_bytes(v);
    proof {
        lemma_auto_spec_u32_to_from_le_bytes();
    }
    write_bytes(b, at, bytes.as_slice());
    proof {
        lemma_u32_written(old(b)@, at as int, v);
    }
}

} // verus!
