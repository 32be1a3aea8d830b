//! Applying a delta to a base: strictly, rejecting malformed deltas with a
//! [`DeltaError`], and leniently, repairing them as `suture-protocol` does.
use crate::bytes::{le_u32_at, le_u64_at, load_u32_le, load_u64_le, push_bytes};
use crate::compress::zstd_decode;
use crate::digest::blake3_hash;
use crate::error::{length_mismatch, DeltaError, DeltaErrorView, MismatchSide};
use crate::format::{
    min_int,
    run_lenient,
    run_strict,
    sat_add_usize,
    spec_apply,
    spec_apply_lenient,
    truncated,
    xor_with_base,
    INSTR_COPY,
    INSTR_INSERT,
    OP_BINARY_XOR,
    OP_FULL,
    OP_INSTRUCTIONS,
    OP_PREFIX_SUFFIX,
};
use vstd::prelude::*;

verus! {

/// The outcome of an apply, as a value of the specification.
pub open spec fn outcome(r: Result<Vec<u8>, DeltaError>) -> Result<Seq<u8>, DeltaErrorView> {
    match r {
        Ok(v) => Ok(v@),
        Err(e) => Err(e@),
    }
}

/// Read a little-endian `u64` at `at`, requiring `at + 8 <= delta.len()`.
pub fn read_u64_le(delta: &[u8], at: usize, opcode: u8) -> (r: Result<u64, DeltaError>)
    requires
        at + 8 <= usize::MAX,
    ensures
        at + 8 <= delta@.len() ==> (r matches Ok(v) && v == le_u64_at(delta@, at as int)),
        at + 8 > delta@.len() ==> (r matches Err(e) && e@ == truncated(
            opcode,
            at + 8,
            delta@.len() as int,
        )),
{
    if at + 8 <= delta.len() {
        Ok(load_u64_le(delta, at))
    } else {
        Err(DeltaError::Truncated { opcode, needed: at + 8, got: delta.len() })
    }
}

/// Read a little-endian `u32` at `at`, requiring `at + 4 <= delta.len()`.
pub fn read_u32_le(delta: &[u8], at: usize, opcode: u8) -> (r: Result<u32, DeltaError>)
    requires
        at + 4 <= usize::MAX,
    ensures
        at + 4 <= delta@.len() ==> (r matches Ok(v) && v == le_u32_at(delta@, at as int)),
        at + 4 > delta@.len() ==> (r matches Err(e) && e@ == truncated(
            opcode,
            at + 4,
            delta@.len() as int,
        )),
{
    if at + 4 <= delta.len() {
        Ok(load_u32_le(delta, at))
    } else {
        Err(DeltaError::Truncated { opcode, needed: at + 4, got: delta.len() })
    }
}

/// Read a little-endian `u64` at `at`, yielding `0` when out of bounds.
pub fn read_u64_or_zero(delta: &[u8], at: usize) -> (r: u64)
    ensures
        r == (if at + 8 <= delta@.len() {
            le_u64_at(delta@, at as int)
        } else {
            0
        }),
{
    if at <= delta.len() && delta.len() - at >= 8 {
        load_u64_le(delta, at)
    } else {
        0
    }
}

/// Read a little-endian `u32` at `at`, yielding `0` when out of bounds.
pub fn read_u32_or_zero(delta: &[u8], at: usize) -> (r: u32)
    ensures
        r == (if at + 4 <= delta@.len() {
            le_u32_at(delta@, at as int)
        } else {
            0
        }),
{
    if at <= delta.len() && delta.len() - at >= 4 {
        load_u32_le(delta, at)
    } else {
        0
    }
}

/// `s` with its first `base.len()` bytes XORed with the base; the rest of
/// `s` is kept.
pub fn xor_streams(base: &[u8], s: &[u8]) -> (r: Vec<u8>)
    ensures
        r@ == xor_with_base(base@, s@),
{
    let min_len = if base.len() < s.len() {
        base.len()
    } else {
        s.len()
    };
    let mut out: Vec<u8> = Vec::with_capacity(s.len());
    let mut i: usize = 0;
    while i < min_len
        invariant
            min_len <= base@.len(),
            min_len <= s@.len(),
            i <= min_len,
            out@.len() == i,
            forall|j: int| 0 <= j < i ==> out@[j] == base@[j] ^ s@[j],
        decreases min_len - i,
    {
        out.push(base[i] ^ s[i]);
        i = i + 1;
    }
    if s.len() > base.len() {
        push_bytes(&mut out, &s[base.len()..s.len()]);
    }
    assert(out@ =~= xor_with_base(base@, s@));
    out
}

/// Whether the first 16 bytes of `digest` are `stored`.
fn checksum_matches(digest: &Vec<u8>, stored: &[u8]) -> (r: bool)
    requires
        digest@.len() >= 16,
        stored@.len() == 16,
    ensures
        r == (digest@.subrange(0, 16) == stored@),
{
    let mut i: usize = 0;
    while i < 16
        invariant
            i <= 16,
            digest@.len() >= 16,
            stored@.len() == 16,
            forall|j: int| 0 <= j < i ==> digest@[j] == stored@[j],
        decreases 16 - i,
    {
        if digest[i] != stored[i] {
            assert(digest@.subrange(0, 16)[i as int] != stored@[i as int]);
            return false;
        }
        i = i + 1;
    }
    assert(digest@.subrange(0, 16) =~= stored@);
    true
}

/// Apply `delta` to `base`, reconstructing the target.
///
/// This validates the delta strictly: truncated headers, unknown
/// opcodes/instructions, out-of-range copies, inserts past the end of the
/// delta, and length/checksum contradictions all return [`DeltaError`].
/// Deltas produced by [`crate::compute::compute_delta`] always round-trip.
pub fn apply_delta(base: &[u8], delta: &[u8]) -> (r: Result<Vec<u8>, DeltaError>)
    requires
        delta@.len() <= isize::MAX,
    ensures
        outcome(r) == spec_apply(base@, delta@),
{
    if delta.len() == 0 {
        return Err(DeltaError::Empty);
    }
    let opcode = delta[0];
    if opcode == OP_FULL {
        let mut out: Vec<u8> = Vec::with_capacity(delta.len() - 1);
        push_bytes(&mut out, &delta[1..delta.len()]);
        assert(out@ =~= delta@.drop_first());
        Ok(out)
    } else if opcode == OP_PREFIX_SUFFIX {
        if delta.len() < 25 {
            return Err(DeltaError::Truncated { opcode, needed: 25, got: delta.len() });
        }
        let prefix_len = match read_u64_le(delta, 1, opcode) {
            Ok(v) => v,
            Err(e) => return Err(e),
        } as usize;
        let suffix_len = match read_u64_le(delta, 9, opcode) {
            Ok(v) => v,
            Err(e) => return Err(e),
        } as usize;
        let total_len = match read_u64_le(delta, 17, opcode) {
            Ok(v) => v,
            Err(e) => return Err(e),
        };
        let result = patch(base, prefix_len, suffix_len, &delta[25..delta.len()]);
        if result.len() as u64 != total_len {
            return Err(length_mismatch(MismatchSide::Target, total_len, result.len()));
        }
        Ok(result)
    } else if opcode == OP_INSTRUCTIONS {
        if delta.len() < 13 {
            return Err(DeltaError::Truncated { opcode, needed: 13, got: delta.len() });
        }
        let target_len = match read_u64_le(delta, 1, opcode) {
            Ok(v) => v,
            Err(e) => return Err(e),
        };
        let num_instr = match read_u32_le(delta, 9, opcode) {
            Ok(v) => v,
            Err(e) => return Err(e),
        };
        let mut result: Vec<u8> = Vec::with_capacity(
            capacity_hint(target_len, delta.len(), base.len()),
        );
        let mut offset: usize = 13;
        let mut i: u32 = 0;
        while i < num_instr
            invariant
                delta@.len() <= isize::MAX,
                delta@.len() >= 13,
                opcode == OP_INSTRUCTIONS,
                delta@[0] == OP_INSTRUCTIONS,
                num_instr == le_u32_at(delta@, 9),
                target_len == le_u64_at(delta@, 1),
                i <= num_instr,
                offset <= delta@.len(),
                run_strict(base@, delta@, 13, num_instr as nat, Seq::empty()) == run_strict(
                    base@,
                    delta@,
                    offset as int,
                    (num_instr - i) as nat,
                    result@,
                ),
            decreases num_instr - i,
        {
            if offset >= delta.len() {
                return Err(DeltaError::Truncated { opcode, needed: offset + 1, got: delta.len() });
            }
            let instr = delta[offset];
            if instr == INSTR_COPY {
                if delta.len() - offset < 13 {
                    return Err(
                        DeltaError::Truncated { opcode, needed: offset + 13, got: delta.len() },
                    );
                }
                let base_offset = match read_u64_le(delta, offset + 1, opcode) {
                    Ok(v) => v,
                    Err(e) => return Err(e),
                };
                let length = match read_u32_le(delta, offset + 9, opcode) {
                    Ok(v) => v,
                    Err(e) => return Err(e),
                };
                if base_offset > usize::MAX as u64 {
                    return Err(
                        DeltaError::CopyOutOfRange { base_offset, length, base_len: base.len() },
                    );
                }
                let bo = base_offset as usize;
                let ln = length as usize;
                let end = bo.saturating_add(ln);
                if end > base.len() {
                    return Err(
                        DeltaError::CopyOutOfRange { base_offset, length, base_len: base.len() },
                    );
                }
                push_bytes(&mut result, &base[bo..end]);
                offset = offset + 13;
            } else if instr == INSTR_INSERT {
                if delta.len() - offset < 5 {
                    return Err(
                        DeltaError::Truncated { opcode, needed: offset + 5, got: delta.len() },
                    );
                }
                let declared_len = match read_u32_le(delta, offset + 1, opcode) {
                    Ok(v) => v,
                    Err(e) => return Err(e),
                };
                let length = declared_len as usize;
                if length > delta.len() - offset - 5 {
                    return Err(
                        DeltaError::InsertOutOfRange {
                            declared: declared_len,
                            remaining: delta.len() - offset - 5,
                        },
                    );
                }
                let data_end = offset + 5 + length;
                push_bytes(&mut result, &delta[offset + 5..data_end]);
                offset = data_end;
            } else {
                return Err(DeltaError::InvalidInstruction(instr));
            }
            i = i + 1;
        }
        if result.len() as u64 != target_len {
            return Err(length_mismatch(MismatchSide::Target, target_len, result.len()));
        }
        Ok(result)
    } else if opcode == OP_BINARY_XOR {
        if delta.len() < 41 {
            return Err(DeltaError::Truncated { opcode, needed: 41, got: delta.len() });
        }
        let target_len = match read_u64_le(delta, 1, opcode) {
            Ok(v) => v,
            Err(e) => return Err(e),
        };
        let base_checksum = &delta[9..25];
        let target_checksum = &delta[25..41];
        let compressed = &delta[41..delta.len()];
        let base_hash = blake3_hash(base);
        if !checksum_matches(&base_hash, base_checksum) {
            return Err(DeltaError::ChecksumMismatch { side: MismatchSide::Base });
        }
        let xor_data = match zstd_decode(compressed) {
            Ok(v) => v,
            Err(msg) => return Err(DeltaError::Decompression(msg)),
        };
        let result = xor_streams(base, xor_data.as_slice());
        if result.len() as u64 != target_len {
            return Err(length_mismatch(MismatchSide::Target, target_len, result.len()));
        }
        let result_hash = blake3_hash(result.as_slice());
        if !checksum_matches(&result_hash, target_checksum) {
            return Err(DeltaError::ChecksumMismatch { side: MismatchSide::Result });
        }
        Ok(result)
    } else {
        Err(DeltaError::InvalidOpcode(opcode))
    }
}

/// The room to reserve for a `0x02` reconstruction: the declared target
/// length, but never more than the delta and the base together hold, so a
/// header that lies about the length cannot force a large allocation.
fn capacity_hint(declared: u64, delta_len: usize, base_len: usize) -> (r: usize)
    ensures
        r == min_int(declared as int, sat_add_usize(delta_len as int, base_len as int)),
{
    let bound = delta_len.saturating_add(base_len);
    if declared < bound as u64 {
        declared as usize
    } else {
        bound
    }
}

/// The head `base[..min(prefix_len, len)]`, then `changed`, then the tail
/// `base[len.saturating_sub(suffix_len)..]`.
fn patch(base: &[u8], prefix_len: usize, suffix_len: usize, changed: &[u8]) -> (r: Vec<u8>)
    ensures
        r@ == crate::format::patched(base@, prefix_len as int, suffix_len as int, changed@),
{
    let prefix_take = if prefix_len < base.len() {
        prefix_len
    } else {
        base.len()
    };
    let tail_start = base.len().saturating_sub(suffix_len);
    let out_len = prefix_take.saturating_add(changed.len()).saturating_add(base.len() - tail_start);
    let mut result: Vec<u8> = Vec::with_capacity(out_len);
    push_bytes(&mut result, &base[0..prefix_take]);
    push_bytes(&mut result, changed);
    push_bytes(&mut result, &base[tail_start..base.len()]);
    result
}

/// Apply `delta` to `base` with the `suture-protocol` decoder's semantics:
/// malformed input is silently repaired instead of rejected.
///
/// - an empty delta decodes to an empty vector;
/// - an unknown top-level opcode, a truncated header, or a failed Zstd
///   frame decode passes the delta bytes through unchanged;
/// - a `0x02` stream stops at the first truncated or unknown instruction
///   and returns the partial reconstruction; out-of-range `Copy` records
///   and past-the-end `Insert` records are skipped;
/// - a `0x03` base or target checksum mismatch returns an empty vector;
/// - declared lengths are never validated.
///
/// On deltas that [`apply_delta`] accepts this gives the same bytes.
pub fn apply_delta_lenient(base: &[u8], delta: &[u8]) -> (r: Vec<u8>)
    requires
        delta@.len() <= isize::MAX,
    ensures
        r@ == spec_apply_lenient(base@, delta@),
{
    if delta.len() == 0 {
        return Vec::new();
    }
    let opcode = delta[0];
    if opcode == OP_FULL {
        let mut out: Vec<u8> = Vec::with_capacity(delta.len() - 1);
        push_bytes(&mut out, &delta[1..delta.len()]);
        assert(out@ =~= delta@.drop_first());
        out
    } else if opcode == OP_PREFIX_SUFFIX {
        if delta.len() < 25 {
            return copy_of(delta);
        }
        let prefix_len = read_u64_or_zero(delta, 1) as usize;
        let suffix_len = read_u64_or_zero(delta, 9) as usize;
        patch(base, prefix_len, suffix_len, &delta[25..delta.len()])
    } else if opcode == OP_INSTRUCTIONS {
        if delta.len() < 13 {
            return copy_of(delta);
        }
        let num_instr = read_u32_or_zero(delta, 9) as usize;
        let mut result: Vec<u8> = Vec::with_capacity(
            capacity_hint(read_u64_or_zero(delta, 1), delta.len(), base.len()),
        );
        let mut offset: usize = 13;
        let mut i: usize = 0;
        while i < num_instr
            invariant
                delta@.len() <= isize::MAX,
                i <= num_instr,
                offset <= delta@.len(),
                run_lenient(base@, delta@, 13, num_instr as nat, Seq::empty()) == run_lenient(
                    base@,
                    delta@,
                    offset as int,
                    (num_instr - i) as nat,
                    result@,
                ),
            ensures
                run_lenient(base@, delta@, 13, num_instr as nat, Seq::empty()) == result@,
            decreases num_instr - i,
        {
            if offset >= delta.len() {
                break;
            }
            let instr = delta[offset];
            if instr == INSTR_COPY {
                if delta.len() - offset < 13 {
                    break;
                }
                let base_offset = read_u64_or_zero(delta, offset + 1) as usize;
                let length = read_u32_or_zero(delta, offset + 9) as usize;
                let end = base_offset.saturating_add(length);
                if end <= base.len() {
                    push_bytes(&mut result, &base[base_offset..end]);
                }
                offset = offset + 13;
            } else if instr == INSTR_INSERT {
                if delta.len() - offset < 5 {
                    break;
                }
                let length = read_u32_or_zero(delta, offset + 1) as usize;
                let data_end = (offset + 5).saturating_add(length);
                if data_end <= delta.len() {
                    push_bytes(&mut result, &delta[offset + 5..data_end]);
                    offset = data_end;
                }
            } else {
                break;
            }
            i = i + 1;
        }
        result
    } else if opcode == OP_BINARY_XOR {
        if delta.len() < 41 {
            return copy_of(delta);
        }
        let base_checksum = &delta[9..25];
        let target_checksum = &delta[25..41];
        let compressed = &delta[41..delta.len()];
        let base_hash = blake3_hash(base);
        if !checksum_matches(&base_hash, base_checksum) {
            return Vec::new();
        }
        let xor_data = match zstd_decode(compressed) {
            Ok(v) => v,
            Err(_) => return copy_of(delta),
        };
        let result = xor_streams(base, xor_data.as_slice());
        let result_hash = blake3_hash(result.as_slice());
        if !checksum_matches(&result_hash, target_checksum) {
            return Vec::new();
        }
        result
    } else {
        copy_of(delta)
    }
}

/// A copy of `bytes`.
fn copy_of(bytes: &[u8]) -> (r: Vec<u8>)
    ensures
        r@ == bytes@,
{
    let mut out: Vec<u8> = Vec::with_capacity(bytes.len());
    push_bytes(&mut out, bytes);
    assert(out@ =~= bytes@);
    out
}

} // verus!
