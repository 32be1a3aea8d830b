//! Computing a delta: the strategy chosen for a base and a target, and the
//! bytes it produces.
use crate::apply::xor_streams;
use crate::bytes::{push_bytes, push_u64_le};
use crate::compress::{decoded_to, zstd_decoded, zstd_encode, zstd_frame};
use crate::digest::{blake3_digest, blake3_hash};
use crate::format::{
    binary_delta,
    full_delta,
    min_int,
    prefix_suffix_delta,
    xor_with_base,
    BLOCK_SIZE,
    OP_BINARY_XOR,
    OP_FULL,
    OP_PREFIX_SUFFIX,
};
use crate::rolling::{compute_rolling_delta, rolling_delta};
use vstd::prelude::*;

verus! {

/// How many leading bytes are examined to decide that an input is binary.
pub const BINARY_CHECK_WINDOW: usize = 8192;

/// Zstd level of the binary strategy.
pub const ZSTD_LEVEL: i32 = 3;

/// An input looks binary when it has a zero byte in its first 8 KiB.
pub open spec fn likely_binary(s: Seq<u8>) -> bool {
    exists|i: int| 0 <= i < min_int(s.len() as int, 8192) && s[i] == 0
}

/// The index of the first position from `i` on where `a` and `b` differ
/// (or where one of them ends).
pub open spec fn prefix_run(a: Seq<u8>, b: Seq<u8>, i: int) -> int
    decreases a.len() - i,
{
    if 0 <= i < a.len() && i < b.len() && a[i] == b[i] {
        prefix_run(a, b, i + 1)
    } else {
        i
    }
}

/// As [`prefix_run`], counting from the ends of `a` and `b`.
pub open spec fn suffix_run(a: Seq<u8>, b: Seq<u8>, i: int) -> int
    decreases a.len() - i,
{
    if 0 <= i < a.len() && i < b.len() && a[a.len() - 1 - i] == b[b.len() - 1 - i] {
        suffix_run(a, b, i + 1)
    } else {
        i
    }
}

/// The length of the longest common prefix of `a` and `b`.
pub open spec fn common_prefix(a: Seq<u8>, b: Seq<u8>) -> int {
    prefix_run(a, b, 0)
}

/// The length of the longest common suffix of what follows the common
/// prefix in `a` and in `b`.
pub open spec fn common_suffix(a: Seq<u8>, b: Seq<u8>) -> int {
    let p = common_prefix(a, b);
    suffix_run(a.subrange(p, a.len() as int), b.subrange(p, b.len() as int), 0)
}

/// The delta for inputs that are not both a whole block long: the
/// prefix/suffix encoding when it keeps any byte of the base, else the
/// full target.
pub open spec fn trim_delta(b: Seq<u8>, t: Seq<u8>) -> Seq<u8> {
    let p = common_prefix(b, t);
    let s = common_suffix(b, t);
    let changed = t.subrange(p, t.len() - s);
    if changed.len() < t.len() {
        prefix_suffix_delta(p as u64, s as u64, t.len() as u64, changed)
    } else {
        full_delta(t)
    }
}

/// The delta chosen when the binary strategy is not taken.
pub open spec fn plain_delta(b: Seq<u8>, t: Seq<u8>) -> Seq<u8> {
    if b.len() >= 4096 && t.len() >= 4096 {
        match rolling_delta(b, t) {
            Some(d) => d,
            None => full_delta(t),
        }
    } else {
        trim_delta(b, t)
    }
}

/// The frame the binary strategy compresses for `b` and `t`.
pub open spec fn binary_frame(b: Seq<u8>, t: Seq<u8>) -> Seq<u8> {
    zstd_frame(xor_with_base(b, t), 3)
}

/// Whether the binary strategy, given a frame from the compressor, yields
/// `d`: the frame is smaller than the target, decompresses to the XOR
/// stream, and `d` is the `0x03` delta around it.
pub open spec fn binary_delta_taken(b: Seq<u8>, t: Seq<u8>, d: Seq<u8>) -> bool {
    &&& blake3_digest(b).len() == 32
    &&& blake3_digest(t).len() == 32
    &&& binary_frame(b, t).len() < t.len()
    &&& zstd_decoded(binary_frame(b, t)) == decoded_to(xor_with_base(b, t))
    &&& d == binary_delta(b, t, binary_frame(b, t))
}

/// Whether the binary strategy is taken: an input looks binary, the
/// compressed XOR stream is smaller than the target, and the `0x03` delta
/// is shorter than the delta the other strategies give.
pub open spec fn binary_chosen(b: Seq<u8>, t: Seq<u8>) -> bool {
    &&& likely_binary(b) || likely_binary(t)
    &&& binary_frame(b, t).len() < t.len()
    &&& binary_delta(b, t, binary_frame(b, t)).len() < plain_delta(b, t).len()
}

/// `d` is the delta [`compute_delta`] returns for `b` and `t`: the `0x03`
/// delta when the binary strategy is taken (with what the outside calls
/// report of it), and otherwise the delta the other strategies choose.
pub open spec fn computed_delta(b: Seq<u8>, t: Seq<u8>, d: Seq<u8>) -> bool {
    if binary_chosen(b, t) {
        binary_delta_taken(b, t, d)
    } else {
        d == plain_delta(b, t)
    }
}

/// Whether `data` has a zero byte in its first 8 KiB.
pub fn is_likely_binary(data: &[u8]) -> (r: bool)
    ensures
        r == likely_binary(data@),
{
    let window = if data.len() < BINARY_CHECK_WINDOW {
        data.len()
    } else {
        BINARY_CHECK_WINDOW
    };
    let mut i: usize = 0;
    while i < window
        invariant
            window == min_int(data@.len() as int, 8192),
            i <= window,
            forall|j: int| 0 <= j < i ==> data@[j] != 0,
        decreases window - i,
    {
        if data[i] == 0 {
            return true;
        }
        i = i + 1;
    }
    false
}

/// The `0x03` delta around a compressed XOR stream `frame`, from the
/// target's length and the two digests; none unless the frame is smaller
/// than the target.
pub fn assemble_binary_delta(
    target_len: usize,
    base_digest: &[u8],
    target_digest: &[u8],
    frame: &[u8],
) -> (r: Option<Vec<u8>>)
    requires
        base_digest@.len() >= 16,
        target_digest@.len() >= 16,
    ensures
        frame@.len() >= target_len ==> r is None,
        frame@.len() < target_len ==> (r matches Some(d) && d@ == seq![OP_BINARY_XOR]
            + crate::bytes::le_u64_bytes(target_len as u64) + base_digest@.subrange(0, 16)
            + target_digest@.subrange(0, 16) + frame@),
{
    if frame.len() >= target_len {
        return None;
    }
    let mut delta: Vec<u8> = Vec::with_capacity(frame.len().saturating_add(41));
    delta.push(OP_BINARY_XOR);
    push_u64_le(&mut delta, target_len as u64);
    push_bytes(&mut delta, &base_digest[0..16]);
    push_bytes(&mut delta, &target_digest[0..16]);
    push_bytes(&mut delta, frame);
    Some(delta)
}

/// Compute a `0x03` binary XOR+Zstd delta directly, bypassing the
/// binary-sniffing gate of [`compute_delta`].
///
/// Returns `None` when the compressed XOR stream is not smaller than the
/// target itself.
pub fn compute_binary_delta(base: &[u8], target: &[u8]) -> (r: Option<Vec<u8>>)
    ensures
        binary_frame(base@, target@).len() < target@.len() ==> (r matches Some(d)
            && binary_delta_taken(base@, target@, d@)),
        binary_frame(base@, target@).len() >= target@.len() ==> r is None,
{
    let base_hash = blake3_hash(base);
    let target_hash = blake3_hash(target);
    let xor_data = xor_streams(base, target);
    let compressed = match zstd_encode(xor_data.as_slice(), ZSTD_LEVEL) {
        Some(c) => c,
        None => return None,
    };
    let r = assemble_binary_delta(
        target.len(),
        base_hash.as_slice(),
        target_hash.as_slice(),
        compressed.as_slice(),
    );
    proof {
        if r is Some {
            assert(r->0@ =~= binary_delta(base@, target@, binary_frame(base@, target@)));
        }
    }
    r
}

/// The length of the longest common prefix of `a` and `b`.
fn common_prefix_len(a: &[u8], b: &[u8]) -> (r: usize)
    ensures
        r == common_prefix(a@, b@),
        r <= a@.len(),
        r <= b@.len(),
{
    let mut i: usize = 0;
    while i < a.len() && i < b.len() && a[i] == b[i]
        invariant
            i <= a@.len(),
            i <= b@.len(),
            prefix_run(a@, b@, 0) == prefix_run(a@, b@, i as int),
        decreases a@.len() - i,
    {
        i = i + 1;
    }
    i
}

/// The length of the longest common suffix of `a` and `b`.
fn common_suffix_len(a: &[u8], b: &[u8]) -> (r: usize)
    ensures
        r == suffix_run(a@, b@, 0),
        r <= a@.len(),
        r <= b@.len(),
{
    let mut i: usize = 0;
    while i < a.len() && i < b.len() && a[a.len() - 1 - i] == b[b.len() - 1 - i]
        invariant
            i <= a@.len(),
            i <= b@.len(),
            suffix_run(a@, b@, 0) == suffix_run(a@, b@, i as int),
        decreases a@.len() - i,
    {
        i = i + 1;
    }
    i
}

/// The `0x00` delta holding all of `target`.
fn full_content(target: &[u8]) -> (r: Vec<u8>)
    ensures
        r@ == full_delta(target@),
{
    let mut full: Vec<u8> = Vec::with_capacity(target.len().saturating_add(1));
    full.push(OP_FULL);
    push_bytes(&mut full, target);
    full
}

/// A copy of `bytes`.
fn to_vec(bytes: &[u8]) -> (r: Vec<u8>)
    ensures
        r@ == bytes@,
{
    let mut out: Vec<u8> = Vec::with_capacity(bytes.len());
    push_bytes(&mut out, bytes);
    assert(out@ =~= bytes@);
    out
}

/// The delta the strategies other than the binary one choose: the
/// rolling-hash delta or the full target for inputs of a whole block or
/// more, the prefix/suffix delta or the full target otherwise.
fn compute_plain_delta(base: &[u8], target: &[u8]) -> (r: Vec<u8>)
    ensures
        r@ == plain_delta(base@, target@),
{
    if base.len() >= BLOCK_SIZE && target.len() >= BLOCK_SIZE {
        if let Some(delta) = compute_rolling_delta(base, target) {
            return delta;
        }
        return full_content(target);
    }
    let prefix_len = common_prefix_len(base, target);
    let suffix_len = common_suffix_len(
        &base[prefix_len..base.len()],
        &target[prefix_len..target.len()],
    );
    let changed_start = prefix_len;
    let changed_end_target = target.len() - suffix_len;
    let changed = &target[changed_start..changed_end_target];
    if changed.len() < target.len() {
        let mut delta: Vec<u8> = Vec::with_capacity(changed.len().saturating_add(25));
        delta.push(OP_PREFIX_SUFFIX);
        push_u64_le(&mut delta, prefix_len as u64);
        push_u64_le(&mut delta, suffix_len as u64);
        push_u64_le(&mut delta, target.len() as u64);
        push_bytes(&mut delta, changed);
        delta
    } else {
        full_content(target)
    }
}

/// Compute a delta transforming `base` into `target`.
///
/// Returns `(base_copy, delta)`. The first element is simply a copy of
/// `base`, kept for API compatibility with the `suture-protocol`
/// signature. The delta always reconstructs `target` via
/// [`crate::apply::apply_delta`] and uses the smallest applicable encoding:
/// the binary one only where an input looks binary and its delta is
/// shorter than the one the other strategies give.
pub fn compute_delta(base: &[u8], target: &[u8]) -> (r: (Vec<u8>, Vec<u8>))
    ensures
        r.0@ == base@,
        computed_delta(base@, target@, r.1@),
{
    let plain = compute_plain_delta(base, target);
    if is_likely_binary(base) || is_likely_binary(target) {
        if let Some(delta) = compute_binary_delta(base, target) {
            if delta.len() < plain.len() {
                return (to_vec(base), delta);
            }
        }
    }
    (to_vec(base), plain)
}

} // verus!
