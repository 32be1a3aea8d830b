//! The wire format: what each encoding holds, and what applying a delta
//! to a base gives, strictly and leniently.
use crate::bytes::{le_u32_at, le_u32_bytes, le_u64_at, le_u64_bytes};
use crate::compress::zstd_decoded;
use crate::digest::blake3_digest;
use crate::error::{declared_as_usize, DeltaErrorView, MismatchSide};
use vstd::prelude::*;

verus! {

/// Block size used by the Rabin rolling-hash strategy (4 KiB).
pub const BLOCK_SIZE: usize = 4096;

/// Opcode of a delta that holds the whole target.
pub const OP_FULL: u8 = 0x00;

/// Opcode of a delta that keeps a common prefix and suffix of the base.
pub const OP_PREFIX_SUFFIX: u8 = 0x01;

/// Opcode of a delta made of Copy/Insert instructions.
pub const OP_INSTRUCTIONS: u8 = 0x02;

/// Opcode of a delta that holds the compressed XOR of base and target.
pub const OP_BINARY_XOR: u8 = 0x03;

/// Instruction byte of a Copy record.
pub const INSTR_COPY: u8 = 0x01;

/// Instruction byte of an Insert record.
pub const INSTR_INSERT: u8 = 0x02;

/// `a - b`, or 0 when `b > a`.
pub open spec fn sat_sub(a: int, b: int) -> int {
    if a >= b {
        a - b
    } else {
        0
    }
}

/// `a + b`, or `usize::MAX` when the sum does not fit.
pub open spec fn sat_add_usize(a: int, b: int) -> int {
    if a + b > usize::MAX {
        usize::MAX as int
    } else {
        a + b
    }
}

/// The smaller of `a` and `b`.
pub open spec fn min_int(a: int, b: int) -> int {
    if a <= b {
        a
    } else {
        b
    }
}

/// `s` with its first `base.len()` bytes XORed with the base; the rest of
/// `s` is kept as it is. The binary strategy stores this of the target, and
/// applying it to the stored stream gives the target back.
pub open spec fn xor_with_base(base: Seq<u8>, s: Seq<u8>) -> Seq<u8> {
    Seq::new(s.len(), |i: int| if i < base.len() { base[i] ^ s[i] } else { s[i] })
}

/// The first 16 bytes of the BLAKE3 digest of `data`, as the binary
/// encoding stores it.
pub open spec fn checksum16(data: Seq<u8>) -> Seq<u8> {
    blake3_digest(data).subrange(0, 16)
}

/// One instruction of a `0x02` delta.
pub enum Instr {
    /// Copy `length` bytes of the base from `base_offset`.
    Copy { base_offset: u64, length: u32 },
    /// Insert `data`.
    Insert { data: Seq<u8> },
}

/// The record of one instruction.
pub open spec fn instr_bytes(ins: Instr) -> Seq<u8> {
    match ins {
        Instr::Copy { base_offset, length } => seq![INSTR_COPY] + le_u64_bytes(base_offset)
            + le_u32_bytes(length),
        Instr::Insert { data } => seq![INSTR_INSERT] + le_u32_bytes(data.len() as u32) + data,
    }
}

/// The records of a sequence of instructions, one after the other.
pub open spec fn instrs_bytes(s: Seq<Instr>) -> Seq<u8>
    decreases s.len(),
{
    if s.len() == 0 {
        Seq::empty()
    } else {
        instrs_bytes(s.drop_last()) + instr_bytes(s.last())
    }
}

/// The `0x00` delta for `target`.
pub open spec fn full_delta(target: Seq<u8>) -> Seq<u8> {
    seq![OP_FULL] + target
}

/// The `0x01` delta keeping `prefix_len` bytes of the base's head and
/// `suffix_len` bytes of its tail around `changed`.
pub open spec fn prefix_suffix_delta(
    prefix_len: u64,
    suffix_len: u64,
    target_len: u64,
    changed: Seq<u8>,
) -> Seq<u8> {
    seq![OP_PREFIX_SUFFIX] + le_u64_bytes(prefix_len) + le_u64_bytes(suffix_len) + le_u64_bytes(
        target_len,
    ) + changed
}

/// The `0x02` delta with the instructions `instrs`.
pub open spec fn instructions_delta(target_len: u64, instrs: Seq<Instr>) -> Seq<u8> {
    seq![OP_INSTRUCTIONS] + le_u64_bytes(target_len) + le_u32_bytes(instrs.len() as u32)
        + instrs_bytes(instrs)
}

/// The `0x03` delta for `base` and `target` with the compressed stream `frame`.
pub open spec fn binary_delta(base: Seq<u8>, target: Seq<u8>, frame: Seq<u8>) -> Seq<u8> {
    seq![OP_BINARY_XOR] + le_u64_bytes(target.len() as u64) + checksum16(base) + checksum16(
        target,
    ) + frame
}

/// What a `0x01` delta rebuilds: the head of the base, the changed bytes
/// and the tail of the base.
pub open spec fn patched(base: Seq<u8>, prefix_len: int, suffix_len: int, changed: Seq<u8>) -> Seq<
    u8,
> {
    base.subrange(0, min_int(prefix_len, base.len() as int)) + changed + base.subrange(
        sat_sub(base.len() as int, suffix_len),
        base.len() as int,
    )
}

/// A truncation error of the given opcode.
pub open spec fn truncated(opcode: u8, needed: int, got: int) -> DeltaErrorView {
    DeltaErrorView::Truncated { opcode, needed: needed as usize, got: got as usize }
}

/// The target-length mismatch error.
pub open spec fn target_mismatch(declared: u64, reconstructed: int) -> DeltaErrorView {
    DeltaErrorView::TargetLengthMismatch {
        side: MismatchSide::Target,
        declared: declared_as_usize(declared),
        reconstructed: reconstructed as usize,
    }
}

/// `out`, unless its length contradicts the declared length.
pub open spec fn check_length(out: Seq<u8>, declared: u64) -> Result<Seq<u8>, DeltaErrorView> {
    if out.len() != declared {
        Err(target_mismatch(declared, out.len() as int))
    } else {
        Ok(out)
    }
}

/// Strictly runs the `remaining` instructions of a `0x02` delta that start
/// at `offset`, appending their output to `acc`.
pub open spec fn run_strict(
    base: Seq<u8>,
    delta: Seq<u8>,
    offset: int,
    remaining: nat,
    acc: Seq<u8>,
) -> Result<Seq<u8>, DeltaErrorView>
    decreases remaining,
{
    if remaining == 0 {
        Ok(acc)
    } else if offset >= delta.len() {
        Err(truncated(OP_INSTRUCTIONS, offset + 1, delta.len() as int))
    } else if delta[offset] == INSTR_COPY {
        if offset + 13 > delta.len() {
            Err(truncated(OP_INSTRUCTIONS, offset + 13, delta.len() as int))
        } else {
            let base_offset = le_u64_at(delta, offset + 1);
            let length = le_u32_at(delta, offset + 9);
            let end = sat_add_usize(base_offset as int, length as int);
            if base_offset > usize::MAX || end > base.len() {
                Err(
                    DeltaErrorView::CopyOutOfRange {
                        base_offset,
                        length,
                        base_len: base.len() as usize,
                    },
                )
            } else {
                run_strict(
                    base,
                    delta,
                    offset + 13,
                    (remaining - 1) as nat,
                    acc + base.subrange(base_offset as int, end),
                )
            }
        }
    } else if delta[offset] == INSTR_INSERT {
        if offset + 5 > delta.len() {
            Err(truncated(OP_INSTRUCTIONS, offset + 5, delta.len() as int))
        } else {
            let declared = le_u32_at(delta, offset + 1);
            let data_end = offset + 5 + declared;
            if data_end > delta.len() {
                Err(
                    DeltaErrorView::InsertOutOfRange {
                        declared,
                        remaining: (delta.len() - offset - 5) as usize,
                    },
                )
            } else {
                run_strict(
                    base,
                    delta,
                    data_end,
                    (remaining - 1) as nat,
                    acc + delta.subrange(offset + 5, data_end),
                )
            }
        }
    } else {
        Err(DeltaErrorView::InvalidInstruction(delta[offset]))
    }
}

/// What a strict apply of a `0x01` delta gives.
pub open spec fn apply_prefix_suffix(base: Seq<u8>, delta: Seq<u8>) -> Result<
    Seq<u8>,
    DeltaErrorView,
> {
    if delta.len() < 25 {
        Err(truncated(OP_PREFIX_SUFFIX, 25, delta.len() as int))
    } else {
        check_length(patched_by(base, delta), le_u64_at(delta, 17))
    }
}

/// What the head, changed bytes and tail of a `0x01` delta of at least 25
/// bytes rebuild from `base`.
pub open spec fn patched_by(base: Seq<u8>, delta: Seq<u8>) -> Seq<u8> {
    patched(
        base,
        (le_u64_at(delta, 1) as usize) as int,
        (le_u64_at(delta, 9) as usize) as int,
        delta.subrange(25, delta.len() as int),
    )
}

/// What a strict apply of a `0x02` delta gives.
pub open spec fn apply_instructions(base: Seq<u8>, delta: Seq<u8>) -> Result<
    Seq<u8>,
    DeltaErrorView,
> {
    if delta.len() < 13 {
        Err(truncated(OP_INSTRUCTIONS, 13, delta.len() as int))
    } else {
        match run_strict(base, delta, 13, le_u32_at(delta, 9) as nat, Seq::empty()) {
            Ok(out) => check_length(out, le_u64_at(delta, 1)),
            Err(e) => Err(e),
        }
    }
}

/// What a strict apply of a `0x03` delta gives.
pub open spec fn apply_binary(base: Seq<u8>, delta: Seq<u8>) -> Result<Seq<u8>, DeltaErrorView> {
    if delta.len() < 41 {
        Err(truncated(OP_BINARY_XOR, 41, delta.len() as int))
    } else if checksum16(base) != delta.subrange(9, 25) {
        Err(DeltaErrorView::ChecksumMismatch { side: MismatchSide::Base })
    } else {
        match zstd_decoded(delta.subrange(41, delta.len() as int)) {
            Err(msg) => Err(DeltaErrorView::Decompression(msg)),
            Ok(stream) => {
                let out = xor_with_base(base, stream);
                if out.len() != le_u64_at(delta, 1) {
                    Err(target_mismatch(le_u64_at(delta, 1), out.len() as int))
                } else if checksum16(out) != delta.subrange(25, 41) {
                    Err(DeltaErrorView::ChecksumMismatch { side: MismatchSide::Result })
                } else {
                    Ok(out)
                }
            },
        }
    }
}

/// What [`crate::apply::apply_delta`] gives for `base` and `delta`.
pub open spec fn spec_apply(base: Seq<u8>, delta: Seq<u8>) -> Result<Seq<u8>, DeltaErrorView> {
    if delta.len() == 0 {
        Err(DeltaErrorView::Empty)
    } else if delta[0] == OP_FULL {
        Ok(delta.drop_first())
    } else if delta[0] == OP_PREFIX_SUFFIX {
        apply_prefix_suffix(base, delta)
    } else if delta[0] == OP_INSTRUCTIONS {
        apply_instructions(base, delta)
    } else if delta[0] == OP_BINARY_XOR {
        apply_binary(base, delta)
    } else {
        Err(DeltaErrorView::InvalidOpcode(delta[0]))
    }
}

/// Leniently runs the `remaining` instructions of a `0x02` delta that
/// start at `offset`: it stops at a truncated or unknown record and skips
/// out-of-range ones.
pub open spec fn run_lenient(
    base: Seq<u8>,
    delta: Seq<u8>,
    offset: int,
    remaining: nat,
    acc: Seq<u8>,
) -> Seq<u8>
    decreases remaining,
{
    if remaining == 0 || offset >= delta.len() {
        acc
    } else if delta[offset] == INSTR_COPY {
        if offset + 13 > delta.len() {
            acc
        } else {
            let base_offset = (le_u64_at(delta, offset + 1) as usize) as int;
            let end = sat_add_usize(base_offset, le_u32_at(delta, offset + 9) as int);
            let acc2 = if end <= base.len() {
                acc + base.subrange(base_offset, end)
            } else {
                acc
            };
            run_lenient(base, delta, offset + 13, (remaining - 1) as nat, acc2)
        }
    } else if delta[offset] == INSTR_INSERT {
        if offset + 5 > delta.len() {
            acc
        } else {
            let data_end = sat_add_usize(offset + 5, le_u32_at(delta, offset + 1) as int);
            if data_end <= delta.len() {
                run_lenient(
                    base,
                    delta,
                    data_end,
                    (remaining - 1) as nat,
                    acc + delta.subrange(offset + 5, data_end),
                )
            } else {
                run_lenient(base, delta, offset, (remaining - 1) as nat, acc)
            }
        }
    } else {
        acc
    }
}

/// What a lenient apply of a `0x03` delta gives.
pub open spec fn apply_binary_lenient(base: Seq<u8>, delta: Seq<u8>) -> Seq<u8> {
    if delta.len() < 41 {
        delta
    } else if checksum16(base) != delta.subrange(9, 25) {
        Seq::empty()
    } else {
        match zstd_decoded(delta.subrange(41, delta.len() as int)) {
            Err(_) => delta,
            Ok(stream) => {
                let out = xor_with_base(base, stream);
                if checksum16(out) != delta.subrange(25, 41) {
                    Seq::empty()
                } else {
                    out
                }
            },
        }
    }
}

/// What [`crate::apply::apply_delta_lenient`] gives for `base` and `delta`.
pub open spec fn spec_apply_lenient(base: Seq<u8>, delta: Seq<u8>) -> Seq<u8> {
    if delta.len() == 0 {
        Seq::empty()
    } else if delta[0] == OP_FULL {
        delta.drop_first()
    } else if delta[0] == OP_PREFIX_SUFFIX {
        if delta.len() < 25 {
            delta
        } else {
            patched_by(base, delta)
        }
    } else if delta[0] == OP_INSTRUCTIONS {
        if delta.len() < 13 {
            delta
        } else {
            run_lenient(base, delta, 13, le_u32_at(delta, 9) as nat, Seq::empty())
        }
    } else if delta[0] == OP_BINARY_XOR {
        apply_binary_lenient(base, delta)
    } else {
        delta
    }
}

} // verus!
