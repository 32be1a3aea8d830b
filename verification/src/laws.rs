//! What holds of the codec as a whole: a computed delta applies back to the
//! target, the lenient decoder agrees with the strict one wherever the
//! strict one succeeds, and a computed delta is never much larger than the
//! target.
use crate::bytes::{lemma_le_u32_at_concat, lemma_le_u64_at_concat, le_u32_at, le_u32_bytes, le_u64_at, le_u64_bytes};
use crate::compute::{
    binary_chosen,
    binary_delta_taken,
    binary_frame,
    common_prefix,
    likely_binary,
    common_suffix,
    computed_delta,
    plain_delta,
    prefix_run,
    suffix_run,
    trim_delta,
};
use crate::compress::zstd_frame;
use crate::digest::blake3_digest;
use crate::format::{
    binary_delta,
    checksum16,
    full_delta,
    instr_bytes,
    instructions_delta,
    instrs_bytes,
    patched,
    patched_by,
    prefix_suffix_delta,
    run_lenient,
    run_strict,
    spec_apply,
    spec_apply_lenient,
    xor_with_base,
    Instr,
};
use crate::rolling::{
    block,
    block_count,
    candidates,
    copy_len,
    first_match,
    tail_instrs,
    window_match,
    gap_instrs,
    lemma_found_block,
    lemma_match_extent_agrees,
    lemma_match_extent_bounds,
    lemma_scan_end,
    lemma_scan_match,
    lemma_scan_skip,
    match_extent,
    rabin_key,
    rolling_delta,
    scan,
    window,
};
use crate::hashing::strong;
use vstd::prelude::*;

verus! {

/// XORing with the base twice gives the stream back.
pub proof fn lemma_xor_with_base_involution(b: Seq<u8>, t: Seq<u8>)
    ensures
        xor_with_base(b, xor_with_base(b, t)) == t,
{
    let x = xor_with_base(b, t);
    assert forall|i: int| 0 <= i < t.len() implies #[trigger] xor_with_base(b, x)[i] == t[i] by {
        if i < b.len() {
            let bi = b[i];
            let ti = t[i];
            assert(bi ^ (bi ^ ti) == ti) by (bit_vector);
        }
    }
    assert(xor_with_base(b, x) =~= t);
}

/// The bytes before a prefix run's end agree.
proof fn lemma_prefix_run(a: Seq<u8>, b: Seq<u8>, i: int)
    requires
        0 <= i <= a.len(),
        i <= b.len(),
    ensures
        i <= prefix_run(a, b, i) <= a.len(),
        prefix_run(a, b, i) <= b.len(),
        a.subrange(i, prefix_run(a, b, i)) == b.subrange(i, prefix_run(a, b, i)),
    decreases a.len() - i,
{
    let r = prefix_run(a, b, i);
    if 0 <= i < a.len() && i < b.len() && a[i] == b[i] {
        lemma_prefix_run(a, b, i + 1);
        assert(a.subrange(i, r) =~= seq![a[i]] + a.subrange(i + 1, r));
        assert(b.subrange(i, r) =~= seq![b[i]] + b.subrange(i + 1, r));
    } else {
        assert(a.subrange(i, r) =~= b.subrange(i, r));
    }
}

/// The bytes of a suffix run agree.
proof fn lemma_suffix_run(a: Seq<u8>, b: Seq<u8>, i: int)
    requires
        0 <= i <= a.len(),
        i <= b.len(),
    ensures
        i <= suffix_run(a, b, i) <= a.len(),
        suffix_run(a, b, i) <= b.len(),
        a.subrange(a.len() - suffix_run(a, b, i), a.len() - i) == b.subrange(
            b.len() - suffix_run(a, b, i),
            b.len() - i,
        ),
    decreases a.len() - i,
{
    let r = suffix_run(a, b, i);
    if 0 <= i < a.len() && i < b.len() && a[a.len() - 1 - i] == b[b.len() - 1 - i] {
        lemma_suffix_run(a, b, i + 1);
        assert(a.subrange(a.len() - r, a.len() - i) =~= a.subrange(a.len() - r, a.len() - i - 1)
            + seq![a[a.len() - 1 - i]]);
        assert(b.subrange(b.len() - r, b.len() - i) =~= b.subrange(b.len() - r, b.len() - i - 1)
            + seq![b[b.len() - 1 - i]]);
    } else {
        assert(a.subrange(a.len() - r, a.len() - i) =~= b.subrange(b.len() - r, b.len() - i));
    }
}

/// The `0x00` delta applies back to its content.
proof fn lemma_full_roundtrip(base: Seq<u8>, t: Seq<u8>)
    ensures
        spec_apply(base, full_delta(t)) == Ok::<Seq<u8>, crate::error::DeltaErrorView>(t),
        spec_apply_lenient(base, full_delta(t)) == t,
{
    assert(full_delta(t).drop_first() =~= t);
}

/// The fields of a `0x01` delta read back as written.
proof fn lemma_prefix_suffix_fields(p: u64, s: u64, n: u64, changed: Seq<u8>)
    ensures
        ({
            let d = prefix_suffix_delta(p, s, n, changed);
            &&& d.len() == 25 + changed.len()
            &&& d[0] == crate::format::OP_PREFIX_SUFFIX
            &&& le_u64_at(d, 1) == p
            &&& le_u64_at(d, 9) == s
            &&& le_u64_at(d, 17) == n
            &&& d.subrange(25, d.len() as int) == changed
        }),
{
    let d = prefix_suffix_delta(p, s, n, changed);
    let h = seq![crate::format::OP_PREFIX_SUFFIX];
    let lp = le_u64_bytes(p);
    let ls = le_u64_bytes(s);
    let ln = le_u64_bytes(n);
    assert(d =~= h + lp + (ls + ln + changed));
    lemma_le_u64_at_concat(h, p, ls + ln + changed);
    assert(d =~= (h + lp) + ls + (ln + changed));
    lemma_le_u64_at_concat(h + lp, s, ln + changed);
    assert(d =~= (h + lp + ls) + ln + changed);
    lemma_le_u64_at_concat(h + lp + ls, n, changed);
    assert(d.subrange(25, d.len() as int) =~= changed);
}

/// Keeping the common prefix and suffix of the base around the changed
/// middle of the target rebuilds the target.
proof fn lemma_trim_patched(b: Seq<u8>, t: Seq<u8>)
    ensures
        0 <= common_prefix(b, t),
        0 <= common_suffix(b, t),
        common_prefix(b, t) + common_suffix(b, t) <= t.len(),
        common_prefix(b, t) + common_suffix(b, t) <= b.len(),
        patched(
            b,
            common_prefix(b, t),
            common_suffix(b, t),
            t.subrange(common_prefix(b, t), t.len() - common_suffix(b, t)),
        ) == t,
{
    let p = common_prefix(b, t);
    lemma_prefix_run(b, t, 0);
    let b2 = b.subrange(p, b.len() as int);
    let t2 = t.subrange(p, t.len() as int);
    let s = common_suffix(b, t);
    lemma_suffix_run(b2, t2, 0);
    let changed = t.subrange(p, t.len() - s);
    let out = patched(b, p, s, changed);
    assert(b.subrange(0, p) =~= t.subrange(0, p));
    assert(b.subrange(b.len() - s, b.len() as int) =~= b2.subrange(b2.len() - s, b2.len() as int));
    assert(t.subrange(t.len() - s, t.len() as int) =~= t2.subrange(t2.len() - s, t2.len() as int));
    assert(out =~= t);
}

/// The prefix/suffix delta applies back to the target.
proof fn lemma_trim_roundtrip(b: Seq<u8>, t: Seq<u8>)
    requires
        b.len() <= usize::MAX,
        t.len() <= usize::MAX,
    ensures
        spec_apply(b, trim_delta(b, t)) == Ok::<Seq<u8>, crate::error::DeltaErrorView>(t),
        spec_apply_lenient(b, trim_delta(b, t)) == t,
{
    let p = common_prefix(b, t);
    let s = common_suffix(b, t);
    lemma_trim_patched(b, t);
    let changed = t.subrange(p, t.len() - s);
    if changed.len() < t.len() {
        lemma_prefix_suffix_fields(p as u64, s as u64, t.len() as u64, changed);
        let d = prefix_suffix_delta(p as u64, s as u64, t.len() as u64, changed);
        assert(patched_by(b, d) == t);
    } else {
        lemma_full_roundtrip(b, t);
    }
}

/// The bytes an instruction adds to the output.
pub open spec fn instr_output(base: Seq<u8>, ins: Instr) -> Seq<u8> {
    match ins {
        Instr::Copy { base_offset, length } => base.subrange(
            base_offset as int,
            base_offset + length,
        ),
        Instr::Insert { data } => data,
    }
}

/// The bytes a sequence of instructions produces, in order.
pub open spec fn instrs_output(base: Seq<u8>, s: Seq<Instr>) -> Seq<u8>
    decreases s.len(),
{
    if s.len() == 0 {
        Seq::empty()
    } else {
        instr_output(base, s[0]) + instrs_output(base, s.drop_first())
    }
}

/// An instruction that the decoder runs as the encoder meant it.
pub open spec fn instr_sound(base: Seq<u8>, ins: Instr) -> bool {
    match ins {
        Instr::Copy { base_offset, length } => base_offset + length <= base.len(),
        Instr::Insert { data } => data.len() <= u32::MAX,
    }
}

/// The records of a sequence, split after its first instruction.
proof fn lemma_instrs_bytes_front(s: Seq<Instr>)
    requires
        s.len() > 0,
    ensures
        instrs_bytes(s) == instr_bytes(s[0]) + instrs_bytes(s.drop_first()),
    decreases s.len(),
{
    if s.len() == 1 {
        assert(s.drop_last() =~= Seq::<Instr>::empty());
        assert(s.drop_first() =~= Seq::<Instr>::empty());
        assert(instrs_bytes(s.drop_last()) == Seq::<u8>::empty());
        assert(instrs_bytes(s.drop_first()) == Seq::<u8>::empty());
        assert(s.last() == s[0]);
        assert(instrs_bytes(s) =~= instr_bytes(s[0]) + instrs_bytes(s.drop_first()));
    } else {
        lemma_instrs_bytes_front(s.drop_last());
        assert(s.drop_last().drop_first() =~= s.drop_first().drop_last());
        assert(s.drop_first().last() == s.last());
        assert(s.drop_last()[0] == s[0]);
    }
}

/// The output of two sequences one after the other.
proof fn lemma_instrs_output_concat(base: Seq<u8>, s1: Seq<Instr>, s2: Seq<Instr>)
    ensures
        instrs_output(base, s1 + s2) == instrs_output(base, s1) + instrs_output(base, s2),
    decreases s1.len(),
{
    if s1.len() == 0 {
        assert(s1 + s2 =~= s2);
    } else {
        lemma_instrs_output_concat(base, s1.drop_first(), s2);
        assert((s1 + s2).drop_first() =~= s1.drop_first() + s2);
        assert((s1 + s2)[0] == s1[0]);
    }
}

/// The fields of a Copy record written after `pre` read back as written.
proof fn lemma_copy_fields(pre: Seq<u8>, base_offset: u64, length: u32, rest: Seq<u8>)
    ensures
        ({
            let d = pre + instr_bytes(Instr::Copy { base_offset, length }) + rest;
            let o = pre.len() as int;
            &&& d.len() == o + 13 + rest.len()
            &&& d[o] == crate::format::INSTR_COPY
            &&& le_u64_at(d, o + 1) == base_offset
            &&& le_u32_at(d, o + 9) == length
        }),
{
    let h = pre + seq![crate::format::INSTR_COPY];
    let d = pre + instr_bytes(Instr::Copy { base_offset, length }) + rest;
    assert(d =~= h + le_u64_bytes(base_offset) + (le_u32_bytes(length) + rest));
    lemma_le_u64_at_concat(h, base_offset, le_u32_bytes(length) + rest);
    assert(d =~= (h + le_u64_bytes(base_offset)) + le_u32_bytes(length) + rest);
    lemma_le_u32_at_concat(h + le_u64_bytes(base_offset), length, rest);
}

/// The fields of an Insert record written after `pre` read back as written.
proof fn lemma_insert_fields(pre: Seq<u8>, data: Seq<u8>, rest: Seq<u8>)
    ensures
        ({
            let d = pre + instr_bytes(Instr::Insert { data }) + rest;
            let o = pre.len() as int;
            &&& d.len() == o + 5 + data.len() + rest.len()
            &&& d[o] == crate::format::INSTR_INSERT
            &&& le_u32_at(d, o + 1) == data.len() as u32
            &&& d.subrange(o + 5, o + 5 + data.len()) == data
        }),
{
    let h = pre + seq![crate::format::INSTR_INSERT];
    let d = pre + instr_bytes(Instr::Insert { data }) + rest;
    assert(d =~= h + le_u32_bytes(data.len() as u32) + (data + rest));
    lemma_le_u32_at_concat(h, data.len() as u32, data + rest);
    let o = pre.len() as int;
    assert(d.subrange(o + 5, o + 5 + data.len()) =~= data);
}

/// Running the records of sound instructions, written after `pre`, adds
/// their output to `acc`.
#[verifier::rlimit(40)]
proof fn lemma_run_records(base: Seq<u8>, pre: Seq<u8>, s: Seq<Instr>, acc: Seq<u8>)
    requires
        forall|j: int| 0 <= j < s.len() ==> instr_sound(base, #[trigger] s[j]),
        base.len() <= usize::MAX,
        pre.len() + instrs_bytes(s).len() <= usize::MAX,
    ensures
        run_strict(base, pre + instrs_bytes(s), pre.len() as int, s.len(), acc) == Ok::<
            Seq<u8>,
            crate::error::DeltaErrorView,
        >(acc + instrs_output(base, s)),
        run_lenient(base, pre + instrs_bytes(s), pre.len() as int, s.len(), acc) == acc
            + instrs_output(base, s),
    decreases s.len(),
{
    let d = pre + instrs_bytes(s);
    if s.len() == 0 {
        assert(acc + instrs_output(base, s) =~= acc);
    } else {
        lemma_instrs_bytes_front(s);
        let rest = s.drop_first();
        let pre2 = pre + instr_bytes(s[0]);
        assert(d =~= pre2 + instrs_bytes(rest));
        assert(d =~= pre + instr_bytes(s[0]) + instrs_bytes(rest));
        assert forall|j: int| 0 <= j < rest.len() implies instr_sound(base, #[trigger] rest[j]) by {
            assert(rest[j] == s[j + 1]);
        }
        assert(instr_sound(base, s[0]));
        let acc2 = acc + instr_output(base, s[0]);
        lemma_run_records(base, pre2, rest, acc2);
        assert(acc2 + instrs_output(base, rest) =~= acc + instrs_output(base, s));
        match s[0] {
            Instr::Copy { base_offset, length } => {
                lemma_copy_fields(pre, base_offset, length, instrs_bytes(rest));
            },
            Instr::Insert { data } => {
                lemma_insert_fields(pre, data, instrs_bytes(rest));
            },
        }
    }
}

/// The output of a one-instruction sequence.
proof fn lemma_instrs_output_single(base: Seq<u8>, ins: Instr)
    ensures
        instrs_output(base, seq![ins]) == instr_output(base, ins),
{
    let one = seq![ins];
    assert(one.drop_first() =~= Seq::<Instr>::empty());
    assert(one[0] == ins);
    assert(instrs_output(base, Seq::<Instr>::empty()) == Seq::<u8>::empty());
    assert(instr_output(base, ins) + Seq::<u8>::empty() =~= instr_output(base, ins));
}

/// Every Insert the scan emits from `pos` on fits the `u32` length field.
#[verifier::opaque]
pub open spec fn scan_fits(b: Seq<u8>, t: Seq<u8>, pos: int, pending: int) -> bool
    decreases t.len() - pos,
{
    if pos < 0 || pos + 4096 > t.len() {
        t.len() - pending <= u32::MAX
    } else {
        match window_match(b, t, pos) {
            Some(i) => {
                let ml = copy_len(b, t, pos, i as int);
                proof {
                    lemma_match_extent_bounds(b, t, pos, i * 4096, 4096);
                }
                &&& pos - pending <= u32::MAX
                &&& scan_fits(b, t, pos + ml, pos + ml)
            },
            None => scan_fits(b, t, pos + 1, pending),
        }
    }
}

/// A target that fits the `u32` length field makes every Insert fit it.
proof fn lemma_small_target_fits(b: Seq<u8>, t: Seq<u8>, pos: int, pending: int)
    requires
        0 <= pending <= pos <= t.len(),
        t.len() <= u32::MAX,
    ensures
        scan_fits(b, t, pos, pending),
    decreases t.len() - pos,
{
    reveal(scan_fits);
    if pos + 4096 <= t.len() {
        match window_match(b, t, pos) {
            Some(iu) => {
                let i = iu as int;
                lemma_match_extent_bounds(b, t, pos, i * 4096, 4096);
                let ml = copy_len(b, t, pos, i);
                lemma_small_target_fits(b, t, pos + ml, pos + ml);
            },
            None => {
                lemma_small_target_fits(b, t, pos + 1, pending);
            },
        }
    }
}

/// When its Inserts fit their length field, the scan emits sound
/// instructions whose output is the target from `pending` on, at most one
/// per byte.
proof fn lemma_scan_output(b: Seq<u8>, t: Seq<u8>, pos: int, pending: int)
    requires
        0 <= pending <= pos <= t.len(),
        t.len() <= usize::MAX,
        b.len() <= usize::MAX,
        scan_fits(b, t, pos, pending),
    ensures
        forall|j: int|
            0 <= j < scan(b, t, pos, pending).len() ==> instr_sound(
                b,
                #[trigger] scan(b, t, pos, pending)[j],
            ),
        instrs_output(b, scan(b, t, pos, pending)) == t.subrange(pending, t.len() as int),
        scan(b, t, pos, pending).len() <= t.len() - pending,
    decreases t.len() - pos,
{
    let sc = scan(b, t, pos, pending);
    reveal(scan_fits);
    if pos + 4096 > t.len() {
        lemma_scan_end(b, t, pos, pending);
        if pending < t.len() {
            lemma_instrs_output_single(b, Instr::Insert { data: t.subrange(pending, t.len() as int) });
        } else {
            assert(t.subrange(pending, t.len() as int) =~= Seq::<u8>::empty());
        }
    } else {
        match window_match(b, t, pos) {
            Some(iu) => {
                let i = iu as int;
                lemma_found_block(b, t, pos);
                lemma_scan_match(b, t, pos, pending, i);
                assert(block(b, i) == window(t, pos));
                let off = i * 4096;
                assert(off + 4096 <= b.len()) by (nonlinear_arith)
                    requires
                        0 <= i < b.len() / 4096,
                        off == i * 4096,
                ;
                lemma_match_extent_bounds(b, t, pos, off, 4096);
                lemma_match_extent_agrees(b, t, pos, off, 4096);
                let ext = match_extent(b, t, pos, off, 4096);
                let ml = copy_len(b, t, pos, i);
                assert(t.subrange(pos, pos + ext) =~= window(t, pos) + t.subrange(
                    pos + 4096,
                    pos + ext,
                ));
                assert(b.subrange(off, off + ext) =~= block(b, i) + b.subrange(
                    off + 4096,
                    off + ext,
                ));
                assert(b.subrange(off, off + ml) =~= b.subrange(off, off + ext).subrange(0, ml));
                assert(t.subrange(pos, pos + ml) =~= t.subrange(pos, pos + ext).subrange(0, ml));
                let copy = Instr::Copy { base_offset: off as u64, length: ml as u32 };
                let gap = gap_instrs(t, pending, pos);
                let rest = scan(b, t, pos + ml, pos + ml);
                lemma_scan_output(b, t, pos + ml, pos + ml);
                assert(instr_output(b, copy) == t.subrange(pos, pos + ml));
                assert(instr_sound(b, copy));
                lemma_instrs_output_single(b, copy);
                lemma_instrs_output_concat(b, gap, seq![copy]);
                lemma_instrs_output_concat(b, gap + seq![copy], rest);
                if pending < pos {
                    lemma_instrs_output_single(
                        b,
                        Instr::Insert { data: t.subrange(pending, pos) },
                    );
                    assert(t.subrange(pending, t.len() as int) =~= t.subrange(pending, pos)
                        + t.subrange(pos, pos + ml) + t.subrange(pos + ml, t.len() as int));
                } else {
                    assert(instrs_output(b, gap) =~= Seq::<u8>::empty());
                    assert(t.subrange(pending, t.len() as int) =~= Seq::<u8>::empty()
                        + t.subrange(pos, pos + ml) + t.subrange(pos + ml, t.len() as int));
                }
                assert(sc == gap + seq![copy] + rest);
                assert forall|j: int| 0 <= j < sc.len() implies instr_sound(b, #[trigger] sc[j]) by {
                    if j < gap.len() {
                        assert(sc[j] == gap[j]);
                    } else if j == gap.len() {
                        assert(sc[j] == copy);
                    } else {
                        assert(sc[j] == rest[j - gap.len() - 1]);
                    }
                }
            },
            None => {
                lemma_scan_skip(b, t, pos, pending);
                lemma_scan_output(b, t, pos + 1, pending);
            },
        }
    }
}

/// The header fields of a `0x02` delta read back as written.
proof fn lemma_instructions_header(n: u64, ins: Seq<Instr>)
    ensures
        ({
            let d = instructions_delta(n, ins);
            let pre = seq![crate::format::OP_INSTRUCTIONS] + le_u64_bytes(n) + le_u32_bytes(
                ins.len() as u32,
            );
            &&& d == pre + instrs_bytes(ins)
            &&& pre.len() == 13
            &&& d[0] == crate::format::OP_INSTRUCTIONS
            &&& le_u64_at(d, 1) == n
            &&& le_u32_at(d, 9) == ins.len() as u32
        }),
{
    let d = instructions_delta(n, ins);
    let h = seq![crate::format::OP_INSTRUCTIONS];
    let c = le_u32_bytes(ins.len() as u32);
    assert(d =~= h + le_u64_bytes(n) + (c + instrs_bytes(ins)));
    lemma_le_u64_at_concat(h, n, c + instrs_bytes(ins));
    assert(d =~= (h + le_u64_bytes(n)) + c + instrs_bytes(ins));
    lemma_le_u32_at_concat(h + le_u64_bytes(n), ins.len() as u32, instrs_bytes(ins));
}

/// The rolling-hash delta applies back to the target when no hashes collide.
proof fn lemma_rolling_roundtrip(b: Seq<u8>, t: Seq<u8>)
    requires
        rolling_delta(b, t) is Some,
        t.len() <= usize::MAX,
        b.len() <= usize::MAX,
        scan_fits(b, t, 0, 0),
        scan(b, t, 0, 0).len() <= u32::MAX,
    ensures
        spec_apply(b, rolling_delta(b, t)->0) == Ok::<Seq<u8>, crate::error::DeltaErrorView>(t),
        spec_apply_lenient(b, rolling_delta(b, t)->0) == t,
{
    let ins = scan(b, t, 0, 0);
    let d = rolling_delta(b, t)->0;
    lemma_scan_output(b, t, 0, 0);
    assert(t.subrange(0, t.len() as int) =~= t);
    lemma_instructions_header(t.len() as u64, ins);
    let pre = seq![crate::format::OP_INSTRUCTIONS] + le_u64_bytes(t.len() as u64) + le_u32_bytes(
        ins.len() as u32,
    );
    lemma_run_records(b, pre, ins, Seq::empty());
    assert(Seq::<u8>::empty() + instrs_output(b, ins) =~= t);
}

/// The fields of a `0x03` delta read back as written.
proof fn lemma_binary_fields(b: Seq<u8>, t: Seq<u8>, frame: Seq<u8>)
    requires
        blake3_digest(b).len() == 32,
        blake3_digest(t).len() == 32,
    ensures
        ({
            let d = binary_delta(b, t, frame);
            &&& d.len() == 41 + frame.len()
            &&& d[0] == crate::format::OP_BINARY_XOR
            &&& le_u64_at(d, 1) == t.len() as u64
            &&& d.subrange(9, 25) == checksum16(b)
            &&& d.subrange(25, 41) == checksum16(t)
            &&& d.subrange(41, d.len() as int) == frame
        }),
{
    let d = binary_delta(b, t, frame);
    let h = seq![crate::format::OP_BINARY_XOR];
    let rest = checksum16(b) + checksum16(t) + frame;
    assert(d =~= h + le_u64_bytes(t.len() as u64) + rest);
    lemma_le_u64_at_concat(h, t.len() as u64, rest);
    assert(d.subrange(9, 25) =~= checksum16(b));
    assert(d.subrange(25, 41) =~= checksum16(t));
    assert(d.subrange(41, d.len() as int) =~= frame);
}

/// The binary delta applies back to the target.
proof fn lemma_binary_roundtrip(b: Seq<u8>, t: Seq<u8>, d: Seq<u8>)
    requires
        binary_delta_taken(b, t, d),
        t.len() <= usize::MAX,
    ensures
        spec_apply(b, d) == Ok::<Seq<u8>, crate::error::DeltaErrorView>(t),
        spec_apply_lenient(b, d) == t,
{
    lemma_binary_fields(b, t, binary_frame(b, t));
    lemma_xor_with_base_involution(b, t);
}

/// Running instructions leniently gives what the strict run gives wherever
/// the strict run succeeds.
proof fn lemma_runs_agree(b: Seq<u8>, d: Seq<u8>, offset: int, remaining: nat, acc: Seq<u8>)
    requires
        0 <= offset,
        d.len() <= usize::MAX,
    ensures
        run_strict(b, d, offset, remaining, acc) matches Ok(v) ==> run_lenient(
            b,
            d,
            offset,
            remaining,
            acc,
        ) == v,
    decreases remaining,
{
    if remaining > 0 && offset < d.len() {
        if d[offset] == crate::format::INSTR_COPY {
            if offset + 13 <= d.len() {
                lemma_runs_agree(
                    b,
                    d,
                    offset + 13,
                    (remaining - 1) as nat,
                    acc + b.subrange(
                        le_u64_at(d, offset + 1) as int,
                        crate::format::sat_add_usize(
                            le_u64_at(d, offset + 1) as int,
                            le_u32_at(d, offset + 9) as int,
                        ),
                    ),
                );
            }
        } else if d[offset] == crate::format::INSTR_INSERT {
            if offset + 5 <= d.len() {
                let data_end = offset + 5 + le_u32_at(d, offset + 1);
                lemma_runs_agree(
                    b,
                    d,
                    data_end,
                    (remaining - 1) as nat,
                    acc + d.subrange(offset + 5, data_end),
                );
            }
        }
    }
}

/// Law: on every delta that the strict decoder accepts, the lenient decoder
/// gives the same bytes.
pub proof fn law_lenient_agrees_with_strict(base: Seq<u8>, delta: Seq<u8>)
    requires
        delta.len() <= usize::MAX,
    ensures
        spec_apply(base, delta) matches Ok(v) ==> spec_apply_lenient(base, delta) == v,
{
    if delta.len() >= 13 && delta[0] == crate::format::OP_INSTRUCTIONS {
        lemma_runs_agree(base, delta, 13, le_u32_at(delta, 9) as nat, Seq::empty());
    }
}

/// Law (round trip): the delta `compute_delta` returns for `base` and
/// `target` applies to `base` to give `target` back, strictly and
/// leniently. A `0x02` delta needs its Inserts and instruction count to fit
/// their `u32` fields.
pub proof fn law_compute_then_apply(base: Seq<u8>, target: Seq<u8>, delta: Seq<u8>)
    requires
        computed_delta(base, target, delta),
        base.len() <= usize::MAX,
        target.len() <= usize::MAX,
        delta.len() > 0 && delta[0] == crate::format::OP_INSTRUCTIONS ==> scan_fits(
            base,
            target,
            0,
            0,
        ) && scan(base, target, 0, 0).len() <= u32::MAX,
    ensures
        spec_apply(base, delta) == Ok::<Seq<u8>, crate::error::DeltaErrorView>(target),
        spec_apply_lenient(base, delta) == target,
{
    if binary_chosen(base, target) {
        lemma_binary_roundtrip(base, target, delta);
    } else {
        assert(delta == plain_delta(base, target));
        if base.len() >= 4096 && target.len() >= 4096 {
            match rolling_delta(base, target) {
                Some(_) => {
                    lemma_instructions_header(target.len() as u64, scan(base, target, 0, 0));
                    lemma_rolling_roundtrip(base, target);
                },
                None => {
                    lemma_full_roundtrip(base, target);
                },
            }
        } else {
            lemma_trim_roundtrip(base, target);
        }
    }
}

/// Law (round trip, plain form): for a target that fits the `u32` length
/// fields, the delta `compute_delta` returns applies to the base to give
/// the target back.
pub proof fn law_roundtrip_small_target(base: Seq<u8>, target: Seq<u8>, delta: Seq<u8>)
    requires
        computed_delta(base, target, delta),
        base.len() <= usize::MAX,
        target.len() <= u32::MAX,
    ensures
        spec_apply(base, delta) == Ok::<Seq<u8>, crate::error::DeltaErrorView>(target),
        spec_apply_lenient(base, delta) == target,
{
    lemma_small_target_fits(base, target, 0, 0);
    lemma_scan_output(base, target, 0, 0);
    law_compute_then_apply(base, target, delta);
}

/// Law (size bound): a computed delta is never longer than the delta the
/// prefix/suffix, rolling-hash and full-content strategies give, and so
/// never more than 24 bytes longer than the target.
pub proof fn law_delta_size(base: Seq<u8>, target: Seq<u8>, delta: Seq<u8>)
    requires
        computed_delta(base, target, delta),
    ensures
        delta.len() <= plain_delta(base, target).len(),
        delta.len() <= target.len() + 24,
{
    if base.len() >= 4096 && target.len() >= 4096 {
    } else {
        let p = common_prefix(base, target);
        let s = common_suffix(base, target);
        lemma_trim_patched(base, target);
        let changed = target.subrange(p, target.len() - s);
        if changed.len() < target.len() {
            lemma_prefix_suffix_fields(p as u64, s as u64, target.len() as u64, changed);
        }
    }
    if binary_chosen(base, target) {
        lemma_binary_fields(base, target, binary_frame(base, target));
    }
}

/// Law (hardened decoding): whatever the strict decoder accepts has the
/// target length its header declares, and a binary delta it accepts carries
/// the checksums of both the base and the bytes it returns.
pub proof fn law_accepted_delta_checks_out(base: Seq<u8>, delta: Seq<u8>)
    ensures
        spec_apply(base, delta) matches Ok(v) ==> {
            &&& delta[0] == crate::format::OP_PREFIX_SUFFIX ==> v.len() == le_u64_at(delta, 17)
            &&& delta[0] == crate::format::OP_INSTRUCTIONS ==> v.len() == le_u64_at(delta, 1)
            &&& delta[0] == crate::format::OP_BINARY_XOR ==> {
                &&& v.len() == le_u64_at(delta, 1)
                &&& checksum16(base) == delta.subrange(9, 25)
                &&& checksum16(v) == delta.subrange(25, 41)
            }
        },
{
}

/// Every position before `p` where `a` and `b` agree lies inside the
/// prefix run from `i`.
proof fn lemma_prefix_run_reaches(a: Seq<u8>, b: Seq<u8>, i: int, p: int)
    requires
        0 <= i <= p,
        p <= a.len(),
        p <= b.len(),
        forall|k: int| i <= k < p ==> a[k] == b[k],
    ensures
        prefix_run(a, b, i) >= p,
    decreases p - i,
{
    lemma_prefix_run(a, b, i);
    if i < p {
        assert(a[i] == b[i]);
        lemma_prefix_run_reaches(a, b, i + 1, p);
    }
}

/// Whether `a` and `b` agree at the `j`-th byte from their ends.
pub open spec fn ends_agree(a: Seq<u8>, b: Seq<u8>, j: int) -> bool {
    a[a.len() - 1 - j] == b[b.len() - 1 - j]
}

/// As [`lemma_prefix_run_reaches`], counting from the ends.
proof fn lemma_suffix_run_reaches(a: Seq<u8>, b: Seq<u8>, i: int, k: int)
    requires
        0 <= i <= k,
        k <= a.len(),
        k <= b.len(),
        forall|j: int| i <= j < k ==> #[trigger] ends_agree(a, b, j),
    ensures
        suffix_run(a, b, i) >= k,
    decreases k - i,
{
    lemma_suffix_run(a, b, i);
    if i < k {
        assert(ends_agree(a, b, i));
        lemma_suffix_run_reaches(a, b, i + 1, k);
    }
}

/// Law (prefix/suffix strategy): when either input is shorter than a
/// block, for every head of `p` bytes and tail of `s` bytes that the base
/// and the target share (without overlapping in either), the computed
/// delta is at most the 25-byte header plus the `t.len() - p - s` bytes
/// between them. So an edit at the very start of the target still keeps
/// the common tail, and a target that is a prefix of the base gets a
/// 25-byte delta.
pub proof fn law_small_inputs_keep_common_ends(
    base: Seq<u8>,
    target: Seq<u8>,
    delta: Seq<u8>,
    p: int,
    s: int,
)
    requires
        computed_delta(base, target, delta),
        base.len() < 4096 || target.len() < 4096,
        0 <= p,
        0 <= s,
        p + s <= base.len(),
        p + s <= target.len(),
        base.subrange(0, p) == target.subrange(0, p),
        base.subrange(base.len() - s, base.len() as int) == target.subrange(
            target.len() - s,
            target.len() as int,
        ),
    ensures
        delta.len() + p + s <= target.len() + 25,
{
    let b = base;
    let t = target;
    law_delta_size(b, t, delta);
    let ps = common_prefix(b, t);
    lemma_prefix_run(b, t, 0);
    assert forall|k: int| 0 <= k < p implies b[k] == t[k] by {
        assert(b.subrange(0, p)[k] == t.subrange(0, p)[k]);
    }
    lemma_prefix_run_reaches(b, t, 0, p);
    let bb = b.subrange(ps, b.len() as int);
    let tt = t.subrange(ps, t.len() as int);
    let k = min_of3(s, bb.len() as int, tt.len() as int);
    assert forall|j: int| 0 <= j < k implies #[trigger] ends_agree(bb, tt, j) by {
        assert(bb[bb.len() - 1 - j] == b[b.len() - 1 - j]);
        assert(tt[tt.len() - 1 - j] == t[t.len() - 1 - j]);
        assert(b.subrange(b.len() - s, b.len() as int)[s - 1 - j] == b[b.len() - 1 - j]);
        assert(t.subrange(t.len() - s, t.len() as int)[s - 1 - j] == t[t.len() - 1 - j]);
    }
    lemma_suffix_run_reaches(bb, tt, 0, k);
    let ss = common_suffix(b, t);
    assert(ss >= k);
    assert(ps + ss >= p + s);
    lemma_trim_patched(b, t);
    let changed = t.subrange(ps, t.len() - ss);
    if changed.len() < t.len() {
        lemma_prefix_suffix_fields(ps as u64, ss as u64, t.len() as u64, changed);
    }
    assert(plain_delta(b, t) == trim_delta(b, t));
}

/// The smallest of three integers.
pub open spec fn min_of3(a: int, b: int, c: int) -> int {
    if a <= b && a <= c {
        a
    } else if b <= c {
        b
    } else {
        c
    }
}

/// Law (binary strategy): when either input looks binary (a zero byte in
/// its first 8 KiB) and the compressed XOR stream is smaller than the
/// target, the computed delta is no longer than the `0x03` delta around
/// that stream, whichever of the two inputs is the binary one.
pub proof fn law_binary_input_bound(base: Seq<u8>, target: Seq<u8>, delta: Seq<u8>)
    requires
        computed_delta(base, target, delta),
        likely_binary(base) || likely_binary(target),
        zstd_frame(xor_with_base(base, target), 3).len() < target.len(),
    ensures
        delta.len() <= binary_delta(base, target, zstd_frame(xor_with_base(base, target), 3)).len(),
{
}

/// What the lenient decoder adds for one instruction: the base bytes of a
/// Copy that lies inside the base, nothing for one that does not, and the
/// data of an Insert.
pub open spec fn lenient_instr_output(base: Seq<u8>, ins: Instr) -> Seq<u8> {
    match ins {
        Instr::Copy { base_offset, length } => if base_offset + length <= base.len() {
            base.subrange(base_offset as int, base_offset + length)
        } else {
            Seq::empty()
        },
        Instr::Insert { data } => data,
    }
}

/// What the lenient decoder adds for a sequence of instructions, in order.
pub open spec fn lenient_instrs_output(base: Seq<u8>, s: Seq<Instr>) -> Seq<u8>
    decreases s.len(),
{
    if s.len() == 0 {
        Seq::empty()
    } else {
        lenient_instr_output(base, s[0]) + lenient_instrs_output(base, s.drop_first())
    }
}

/// An instruction whose fields a decoder on this machine reads as written.
pub open spec fn record_fits(ins: Instr) -> bool {
    match ins {
        Instr::Copy { base_offset, length } => base_offset <= usize::MAX,
        Instr::Insert { data } => data.len() <= u32::MAX,
    }
}

/// Leniently running the records of `s`, written after `pre`, adds what
/// each instruction gives to `acc`.
#[verifier::spinoff_prover]
#[verifier::rlimit(80)]
proof fn lemma_run_lenient_records(base: Seq<u8>, pre: Seq<u8>, s: Seq<Instr>, acc: Seq<u8>)
    requires
        forall|j: int| 0 <= j < s.len() ==> record_fits(#[trigger] s[j]),
        base.len() < usize::MAX,
        pre.len() + instrs_bytes(s).len() <= usize::MAX,
    ensures
        run_lenient(base, pre + instrs_bytes(s), pre.len() as int, s.len(), acc) == acc
            + lenient_instrs_output(base, s),
    decreases s.len(),
{
    let d = pre + instrs_bytes(s);
    if s.len() == 0 {
        assert(acc + lenient_instrs_output(base, s) =~= acc);
    } else {
        lemma_instrs_bytes_front(s);
        let rest = s.drop_first();
        let pre2 = pre + instr_bytes(s[0]);
        assert(d =~= pre2 + instrs_bytes(rest));
        assert(d =~= pre + instr_bytes(s[0]) + instrs_bytes(rest));
        assert forall|j: int| 0 <= j < rest.len() implies record_fits(#[trigger] rest[j]) by {
            assert(rest[j] == s[j + 1]);
        }
        assert(record_fits(s[0]));
        let acc2 = acc + lenient_instr_output(base, s[0]);
        lemma_run_lenient_records(base, pre2, rest, acc2);
        assert(acc2 + lenient_instrs_output(base, rest) =~= acc + lenient_instrs_output(base, s));
        match s[0] {
            Instr::Copy { base_offset, length } => {
                lemma_copy_fields(pre, base_offset, length, instrs_bytes(rest));
                if base_offset + length > base.len() {
                    assert(acc + lenient_instr_output(base, s[0]) =~= acc);
                }
            },
            Instr::Insert { data } => {
                lemma_insert_fields(pre, data, instrs_bytes(rest));
            },
        }
    }
}

/// Law (lenient decoding of a `0x02` stream): the lenient decoder gives,
/// for every record of the stream in turn, the base bytes of a Copy that
/// lies inside the base, nothing for a Copy that reaches past it, and the
/// data of an Insert; a Copy out of range does not stop the records after
/// it.
pub proof fn law_lenient_runs_every_record(base: Seq<u8>, target_len: u64, s: Seq<Instr>)
    requires
        s.len() <= u32::MAX,
        forall|j: int| 0 <= j < s.len() ==> record_fits(#[trigger] s[j]),
        base.len() < usize::MAX,
        13 + instrs_bytes(s).len() <= usize::MAX,
    ensures
        spec_apply_lenient(base, instructions_delta(target_len, s)) == lenient_instrs_output(
            base,
            s,
        ),
{
    lemma_instructions_header(target_len, s);
    let pre = seq![crate::format::OP_INSTRUCTIONS] + le_u64_bytes(target_len) + le_u32_bytes(
        s.len() as u32,
    );
    lemma_run_lenient_records(base, pre, s, Seq::empty());
    assert(Seq::<u8>::empty() + lenient_instrs_output(base, s) =~= lenient_instrs_output(base, s));
}

/// The records of two sequences one after the other.
proof fn lemma_instrs_bytes_concat(s1: Seq<Instr>, s2: Seq<Instr>)
    ensures
        instrs_bytes(s1 + s2) == instrs_bytes(s1) + instrs_bytes(s2),
    decreases s2.len(),
{
    if s2.len() == 0 {
        assert(s1 + s2 =~= s1);
        assert(instrs_bytes(s1) + instrs_bytes(s2) =~= instrs_bytes(s1));
    } else {
        lemma_instrs_bytes_concat(s1, s2.drop_last());
        assert((s1 + s2).drop_last() =~= s1 + s2.drop_last());
        assert((s1 + s2).last() == s2.last());
        assert(instrs_bytes(s1 + s2) =~= instrs_bytes(s1) + instrs_bytes(s2));
    }
}

/// The record of a one-instruction sequence.
proof fn lemma_instrs_bytes_single(ins: Instr)
    ensures
        instrs_bytes(seq![ins]) == instr_bytes(ins),
{
    assert(seq![ins].drop_last() =~= Seq::<Instr>::empty());
    assert(seq![ins].last() == ins);
    assert(instrs_bytes(Seq::<Instr>::empty()) == Seq::<u8>::empty());
    assert(instr_bytes(ins) =~= Seq::<u8>::empty() + instr_bytes(ins));
}

/// The records the scan emits from `pos` take at most five bytes more than
/// the target bytes from `pending` on; once a window from `pos` on matches
/// a block, at least 4073 bytes fewer than those target bytes.
proof fn lemma_scan_size(b: Seq<u8>, t: Seq<u8>, pos: int, pending: int)
    requires
        0 <= pending <= pos <= t.len(),
        b.len() <= usize::MAX,
    ensures
        instrs_bytes(scan(b, t, pos, pending)).len() <= t.len() - pending + 5,
        (exists|q: int| pos <= q && q + 4096 <= t.len() && (#[trigger] window_match(b, t, q)) is Some)
            ==> instrs_bytes(scan(b, t, pos, pending)).len() + 4073 <= t.len() - pending,
    decreases t.len() - pos,
{
    if pos + 4096 > t.len() {
        lemma_scan_end(b, t, pos, pending);
        if pending < t.len() {
            lemma_instrs_bytes_single(Instr::Insert { data: t.subrange(pending, t.len() as int) });
        }
    } else {
        match window_match(b, t, pos) {
            Some(iu) => {
                let i = iu as int;
                lemma_found_block(b, t, pos);
                let off = i * 4096;
                assert(off + 4096 <= b.len()) by (nonlinear_arith)
                    requires
                        0 <= i < b.len() / 4096,
                        off == i * 4096,
                ;
                lemma_match_extent_bounds(b, t, pos, off, 4096);
                let ml = copy_len(b, t, pos, i);
                assert(4096 <= ml);
                lemma_scan_match(b, t, pos, pending, i);
                let copy = Instr::Copy { base_offset: off as u64, length: ml as u32 };
                let gap = gap_instrs(t, pending, pos);
                let rest = scan(b, t, pos + ml, pos + ml);
                lemma_scan_size(b, t, pos + ml, pos + ml);
                lemma_instrs_bytes_concat(gap, seq![copy]);
                lemma_instrs_bytes_concat(gap + seq![copy], rest);
                lemma_instrs_bytes_single(copy);
                if pending < pos {
                    lemma_instrs_bytes_single(Instr::Insert { data: t.subrange(pending, pos) });
                } else {
                    assert(gap =~= Seq::<Instr>::empty());
                }
                assert(instrs_bytes(scan(b, t, pos, pending)).len() + ml <= t.len() - pending + 23);
            },
            None => {
                lemma_scan_skip(b, t, pos, pending);
                lemma_scan_size(b, t, pos + 1, pending);
                if exists|q: int| pos <= q && q + 4096 <= t.len() && (#[trigger] window_match(b, t, q)) is Some {
                    let q = choose|q: int| pos <= q && q + 4096 <= t.len() && (#[trigger] window_match(b, t, q)) is Some;
                    assert(q != pos);
                    assert(pos + 1 <= q && q + 4096 <= t.len() && window_match(b, t, q) is Some);
                }
            },
        }
    }
}

/// The index entries under `key` include every block with that key.
proof fn lemma_candidates_hold(b: Seq<u8>, key: u64, n: int, i: int)
    requires
        0 <= i < n,
        n <= usize::MAX,
        rabin_key(block(b, i)) == key,
    ensures
        exists|k: int|
            0 <= k < candidates(b, key, n).len() && #[trigger] candidates(b, key, n)[k] == (
                i as usize,
                strong(block(b, i)),
            ),
    decreases n,
{
    let c = candidates(b, key, n);
    let c0 = candidates(b, key, n - 1);
    if i < n - 1 {
        lemma_candidates_hold(b, key, n - 1, i);
        let k = choose|k: int|
            0 <= k < c0.len() && #[trigger] c0[k] == (i as usize, strong(block(b, i)));
        assert(c[k] == c0[k]);
    } else {
        assert(c[c0.len() as int] == ((n - 1) as usize, strong(block(b, n - 1))));
    }
}

/// A search over index entries finds a match when an entry from `j` on has
/// the hash and the bytes sought.
proof fn lemma_first_match_exists(
    b: Seq<u8>,
    w: Seq<u8>,
    c: Seq<(usize, u64)>,
    sh: u64,
    j: int,
    k: int,
)
    requires
        0 <= j <= k < c.len(),
        c[k].1 == sh,
        block(b, c[k].0 as int) == w,
    ensures
        first_match(b, w, c, sh, j) is Some,
    decreases k - j,
{
    if !(c[j].1 == sh && block(b, c[j].0 as int) == w) {
        lemma_first_match_exists(b, w, c, sh, j + 1, k);
    }
}

/// A window of the target that equals a whole block of the base is matched.
proof fn lemma_equal_window_matched(b: Seq<u8>, t: Seq<u8>, q: int, i: int)
    requires
        b.len() <= usize::MAX,
        0 <= i,
        i * 4096 + 4096 <= b.len(),
        window(t, q) == block(b, i),
    ensures
        window_match(b, t, q) is Some,
{
    let w = window(t, q);
    let n = block_count(b);
    assert(i < n) by (nonlinear_arith)
        requires
            0 <= i,
            i * 4096 + 4096 <= b.len(),
            n == b.len() / 4096,
    ;
    assert(n <= usize::MAX) by (nonlinear_arith)
        requires
            n == b.len() / 4096,
            b.len() <= usize::MAX,
    ;
    let c = candidates(b, rabin_key(w), n);
    lemma_candidates_hold(b, rabin_key(w), n, i);
    let k = choose|k: int| 0 <= k < c.len() && #[trigger] c[k] == (i as usize, strong(block(b, i)));
    lemma_first_match_exists(b, w, c, strong(w), 0, k);
}

/// Law (rolling-hash strategy): when some 4 KiB window of the target holds
/// exactly the bytes of a whole block of the base, the computed delta is
/// at least 4060 bytes shorter than the target, whatever the number of
/// whole blocks in the base (one is enough). So a target that starts with
/// all of a base of a block or more gets a delta shorter than itself.
pub proof fn law_block_match_shrinks_delta(
    base: Seq<u8>,
    target: Seq<u8>,
    delta: Seq<u8>,
    q: int,
    i: int,
)
    requires
        computed_delta(base, target, delta),
        base.len() <= usize::MAX,
        0 <= i,
        i * 4096 + 4096 <= base.len(),
        0 <= q,
        q + 4096 <= target.len(),
        target.subrange(q, q + 4096) == base.subrange(i * 4096, i * 4096 + 4096),
    ensures
        delta.len() + 4060 <= target.len(),
{
    let b = base;
    let t = target;
    law_delta_size(b, t, delta);
    assert(i * 4096 >= 0) by (nonlinear_arith)
        requires
            0 <= i,
    ;
    lemma_equal_window_matched(b, t, q, i);
    lemma_scan_size(b, t, 0, 0);
    let ins = scan(b, t, 0, 0);
    lemma_instructions_header(t.len() as u64, ins);
    let d = instructions_delta(t.len() as u64, ins);
    assert(d.len() + 4060 <= t.len());
    assert(rolling_delta(b, t) == Some(d));
    assert(plain_delta(b, t) == d);
}

} // verus!
