//! Little-endian integer fields of the wire format.
use vstd::prelude::*;

verus! {

/// The eight little-endian bytes of `x`.
pub open spec fn le_u64_bytes(x: u64) -> Seq<u8> {
    seq![
        x as u8,
        (x >> 8u64) as u8,
        (x >> 16u64) as u8,
        (x >> 24u64) as u8,
        (x >> 32u64) as u8,
        (x >> 40u64) as u8,
        (x >> 48u64) as u8,
        (x >> 56u64) as u8,
    ]
}

/// The four little-endian bytes of `x`.
pub open spec fn le_u32_bytes(x: u32) -> Seq<u8> {
    seq![x as u8, (x >> 8u32) as u8, (x >> 16u32) as u8, (x >> 24u32) as u8]
}

/// The `u64` whose little-endian encoding is `b0..b7`.
pub open spec fn le_u64_of(
    b0: u8,
    b1: u8,
    b2: u8,
    b3: u8,
    b4: u8,
    b5: u8,
    b6: u8,
    b7: u8,
) -> u64 {
    (b0 as u64) | ((b1 as u64) << 8u64) | ((b2 as u64) << 16u64) | ((b3 as u64) << 24u64) | ((
    b4 as u64) << 32u64) | ((b5 as u64) << 40u64) | ((b6 as u64) << 48u64) | ((b7 as u64)
        << 56u64)
}

/// The `u32` whose little-endian encoding is `b0..b3`.
pub open spec fn le_u32_of(b0: u8, b1: u8, b2: u8, b3: u8) -> u32 {
    (b0 as u32) | ((b1 as u32) << 8u32) | ((b2 as u32) << 16u32) | ((b3 as u32) << 24u32)
}

/// The little-endian `u64` stored in `s` at `at` (meaningful when `at + 8 <= s.len()`).
pub open spec fn le_u64_at(s: Seq<u8>, at: int) -> u64 {
    le_u64_of(s[at], s[at + 1], s[at + 2], s[at + 3], s[at + 4], s[at + 5], s[at + 6], s[at + 7])
}

/// The little-endian `u32` stored in `s` at `at` (meaningful when `at + 4 <= s.len()`).
pub open spec fn le_u32_at(s: Seq<u8>, at: int) -> u32 {
    le_u32_of(s[at], s[at + 1], s[at + 2], s[at + 3])
}

/// Decoding the encoding of a `u64` gives the value back.
pub proof fn lemma_le_u64_roundtrip(x: u64)
    ensures
        le_u64_at(le_u64_bytes(x), 0) == x,
{
    let s = le_u64_bytes(x);
    assert(le_u64_of(
        x as u8,
        (x >> 8u64) as u8,
        (x >> 16u64) as u8,
        (x >> 24u64) as u8,
        (x >> 32u64) as u8,
        (x >> 40u64) as u8,
        (x >> 48u64) as u8,
        (x >> 56u64) as u8,
    ) == x) by (bit_vector);
}

/// Decoding the encoding of a `u32` gives the value back.
pub proof fn lemma_le_u32_roundtrip(x: u32)
    ensures
        le_u32_at(le_u32_bytes(x), 0) == x,
{
    assert(le_u32_of(x as u8, (x >> 8u32) as u8, (x >> 16u32) as u8, (x >> 24u32) as u8) == x)
        by (bit_vector);
}

/// A field read at `at` of `pre + enc + post` where `pre.len() == at`
/// sees only `enc`.
pub proof fn lemma_le_u64_at_concat(pre: Seq<u8>, x: u64, post: Seq<u8>)
    ensures
        le_u64_at(pre + le_u64_bytes(x) + post, pre.len() as int) == x,
{
    let s = pre + le_u64_bytes(x) + post;
    let e = le_u64_bytes(x);
    let p = pre.len() as int;
    assert(s[p] == e[0] && s[p + 1] == e[1] && s[p + 2] == e[2] && s[p + 3] == e[3]);
    assert(s[p + 4] == e[4] && s[p + 5] == e[5] && s[p + 6] == e[6] && s[p + 7] == e[7]);
    lemma_le_u64_roundtrip(x);
}

/// As [`lemma_le_u64_at_concat`], for a `u32` field.
pub proof fn lemma_le_u32_at_concat(pre: Seq<u8>, x: u32, post: Seq<u8>)
    ensures
        le_u32_at(pre + le_u32_bytes(x) + post, pre.len() as int) == x,
{
    let s = pre + le_u32_bytes(x) + post;
    let e = le_u32_bytes(x);
    let p = pre.len() as int;
    assert(s[p] == e[0] && s[p + 1] == e[1] && s[p + 2] == e[2] && s[p + 3] == e[3]);
    lemma_le_u32_roundtrip(x);
}

/// Append the little-endian encoding of `x`.
pub fn push_u64_le(out: &mut Vec<u8>, x: u64)
    ensures
        final(out)@ == old(out)@ + le_u64_bytes(x),
{
    out.push(x as u8);
    out.push((x >> 8u64) as u8);
    out.push((x >> 16u64) as u8);
    out.push((x >> 24u64) as u8);
    out.push((x >> 32u64) as u8);
    out.push((x >> 40u64) as u8);
    out.push((x >> 48u64) as u8);
    out.push((x >> 56u64) as u8);
    assert(final(out)@ =~= old(out)@ + le_u64_bytes(x));
}

/// Append the little-endian encoding of `x`.
pub fn push_u32_le(out: &mut Vec<u8>, x: u32)
    ensures
        final(out)@ == old(out)@ + le_u32_bytes(x),
{
    out.push(x as u8);
    out.push((x >> 8u32) as u8);
    out.push((x >> 16u32) as u8);
    out.push((x >> 24u32) as u8);
    assert(final(out)@ =~= old(out)@ + le_u32_bytes(x));
}

/// Append all of `bytes`.
pub fn push_bytes(out: &mut Vec<u8>, bytes: &[u8])
    ensures
        final(out)@ == old(out)@ + bytes@,
{
    let ghost start = out@;
    let mut i: usize = 0;
    while i < bytes.len()
        invariant
            i <= bytes@.len(),
            out@ == start + bytes@.subrange(0, i as int),
        decreases bytes@.len() - i,
    {
        out.push(bytes[i]);
        i = i + 1;
        assert(out@ =~= start + bytes@.subrange(0, i as int));
    }
    assert(bytes@.subrange(0, i as int) =~= bytes@);
}

/// The little-endian `u64` at `delta[at..at + 8]`.
pub fn load_u64_le(delta: &[u8], at: usize) -> (r: u64)
    requires
        at + 8 <= delta@.len(),
    ensures
        r == le_u64_at(delta@, at as int),
{
    (delta[at] as u64) | ((delta[at + 1] as u64) << 8u64) | ((delta[at + 2] as u64) << 16u64) | ((
    delta[at + 3] as u64) << 24u64) | ((delta[at + 4] as u64) << 32u64) | ((delta[at + 5] as u64)
        << 40u64) | ((delta[at + 6] as u64) << 48u64) | ((delta[at + 7] as u64) << 56u64)
}

/// The little-endian `u32` at `delta[at..at + 4]`.
pub fn load_u32_le(delta: &[u8], at: usize) -> (r: u32)
    requires
        at + 4 <= delta@.len(),
    ensures
        r == le_u32_at(delta@, at as int),
{
    (delta[at] as u32) | ((delta[at + 1] as u32) << 8u32) | ((delta[at + 2] as u32) << 16u32) | ((
    delta[at + 3] as u32) << 24u32)
}

} // verus!
