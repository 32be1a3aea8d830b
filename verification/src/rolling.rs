//! The rolling-hash strategy (`0x02`): the base is cut into fixed blocks
//! indexed by their Rabin hash; the target is scanned with a rolling window,
//! and a window whose Rabin hash, strong hash and bytes equal those of a
//! block becomes a Copy (extended as far as the bytes keep agreeing), the
//! bytes in between become Inserts.
use crate::bytes::{push_bytes, push_u32_le, push_u64_le};
use crate::format::{
    instr_bytes,
    instructions_delta,
    instrs_bytes,
    min_int,
    Instr,
    BLOCK_SIZE,
    INSTR_COPY,
    INSTR_INSERT,
    OP_INSTRUCTIONS,
};
use crate::hashing::{mod_pow, rabin, rabin_hash, rabin_roll, strong, strong_hash, lemma_rabin_roll, MERSENNE61, RABIN_BASE};
use crate::index::{entries_under, index_entries, BlockIndex};
use vstd::arithmetic::power::pow;
use vstd::prelude::*;

verus! {

/// The window of the target that starts at `pos`.
pub open spec fn window(t: Seq<u8>, pos: int) -> Seq<u8> {
    t.subrange(pos, pos + 4096)
}

/// Block `i` of the base.
pub open spec fn block(b: Seq<u8>, i: int) -> Seq<u8> {
    b.subrange(i * 4096, i * 4096 + 4096)
}

/// The number of whole blocks in the base.
pub open spec fn block_count(b: Seq<u8>) -> int {
    (b.len() / 4096) as int
}

/// The Rabin hash of `s` as the index keys it.
pub open spec fn rabin_key(s: Seq<u8>) -> u64 {
    rabin(s) as u64
}

/// The index entries under `key` among the first `n` blocks: block number
/// and strong hash of each block whose Rabin hash is `key`, in block order.
pub open spec fn candidates(b: Seq<u8>, key: u64, n: int) -> Seq<(usize, u64)>
    decreases n,
{
    if n <= 0 {
        Seq::empty()
    } else {
        candidates(b, key, n - 1) + if rabin_key(block(b, n - 1)) == key {
            seq![((n - 1) as usize, strong(block(b, n - 1)))]
        } else {
            Seq::empty()
        }
    }
}

/// The block number of the first entry from `j` on whose strong hash is
/// `sh` and whose block of `b` holds exactly the bytes `w`.
pub open spec fn first_match(b: Seq<u8>, w: Seq<u8>, c: Seq<(usize, u64)>, sh: u64, j: int) -> Option<
    usize,
>
    decreases c.len() - j,
{
    if j < 0 || j >= c.len() {
        None
    } else if c[j].1 == sh && block(b, c[j].0 as int) == w {
        Some(c[j].0)
    } else {
        first_match(b, w, c, sh, j + 1)
    }
}

/// The block of the base that the window of the target at `pos` is copied
/// from: the first indexed block with the window's Rabin hash, strong hash
/// and bytes.
pub open spec fn window_match(b: Seq<u8>, t: Seq<u8>, pos: int) -> Option<usize> {
    let w = window(t, pos);
    first_match(b, w, candidates(b, rabin_key(w), block_count(b)), strong(w), 0)
}

/// How far a match of `len` bytes between the target at `pos` and the base
/// at `off` extends while the next bytes agree.
pub open spec fn match_extent(b: Seq<u8>, t: Seq<u8>, pos: int, off: int, len: int) -> int
    decreases t.len() - pos - len,
{
    if 0 <= pos + len < t.len() && 0 <= off + len < b.len() && t[pos + len] == b[off + len] {
        match_extent(b, t, pos, off, len + 1)
    } else {
        len
    }
}

/// A match never shrinks, and stays inside both strings.
pub proof fn lemma_match_extent_bounds(b: Seq<u8>, t: Seq<u8>, pos: int, off: int, len: int)
    requires
        0 <= pos,
        pos + len <= t.len(),
    ensures
        len <= match_extent(b, t, pos, off, len),
        pos + match_extent(b, t, pos, off, len) <= t.len(),
        0 <= off && off + len <= b.len() ==> off + match_extent(b, t, pos, off, len) <= b.len(),
    decreases t.len() - pos - len,
{
    if 0 <= pos + len < t.len() && 0 <= off + len < b.len() && t[pos + len] == b[off + len] {
        lemma_match_extent_bounds(b, t, pos, off, len + 1);
    }
}

/// The bytes past the first `len` that a match extends over agree.
pub proof fn lemma_match_extent_agrees(b: Seq<u8>, t: Seq<u8>, pos: int, off: int, len: int)
    requires
        0 <= len,
        0 <= pos,
        0 <= off,
        pos + len <= t.len(),
        off + len <= b.len(),
    ensures
        t.subrange(pos + len, pos + match_extent(b, t, pos, off, len)) == b.subrange(
            off + len,
            off + match_extent(b, t, pos, off, len),
        ),
    decreases t.len() - pos - len,
{
    lemma_match_extent_bounds(b, t, pos, off, len);
    let ext = match_extent(b, t, pos, off, len);
    if 0 <= pos + len < t.len() && 0 <= off + len < b.len() && t[pos + len] == b[off + len] {
        lemma_match_extent_agrees(b, t, pos, off, len + 1);
        lemma_match_extent_bounds(b, t, pos, off, len + 1);
        assert(ext == match_extent(b, t, pos, off, len + 1));
        assert(t.subrange(pos + len, pos + ext) =~= seq![t[pos + len]] + t.subrange(
            pos + len + 1,
            pos + ext,
        ));
        assert(b.subrange(off + len, off + ext) =~= seq![b[off + len]] + b.subrange(
            off + len + 1,
            off + ext,
        ));
    } else {
        assert(ext == len);
        assert(t.subrange(pos + len, pos + ext) =~= b.subrange(off + len, off + ext));
    }
}

/// The Insert of the target bytes from `pending` to the end, if any.
pub open spec fn tail_instrs(t: Seq<u8>, pending: int) -> Seq<Instr> {
    if pending < t.len() {
        seq![Instr::Insert { data: t.subrange(pending, t.len() as int) }]
    } else {
        Seq::empty()
    }
}

/// The Insert of the target bytes from `pending` to `pos`, if any.
pub open spec fn gap_instrs(t: Seq<u8>, pending: int, pos: int) -> Seq<Instr> {
    if pending < pos {
        seq![Instr::Insert { data: t.subrange(pending, pos) }]
    } else {
        Seq::empty()
    }
}

/// The length of the Copy emitted for a match at `pos` of block `i`:
/// the match extended as far as it goes, capped at `u32::MAX`.
pub open spec fn copy_len(b: Seq<u8>, t: Seq<u8>, pos: int, i: int) -> int {
    min_int(match_extent(b, t, pos, i * 4096, 4096), u32::MAX as int)
}

/// The instructions the scan emits from window position `pos`, with the
/// target bytes from `pending` on not yet covered.
#[verifier::opaque]
pub open spec fn scan(b: Seq<u8>, t: Seq<u8>, pos: int, pending: int) -> Seq<Instr>
    decreases t.len() - pos,
{
    if pos < 0 || pos + 4096 > t.len() {
        tail_instrs(t, pending)
    } else {
        match window_match(b, t, pos) {
            Some(i) => {
                let ml = copy_len(b, t, pos, i as int);
                proof {
                    lemma_match_extent_bounds(b, t, pos, i * 4096, 4096);
                }
                gap_instrs(t, pending, pos) + seq![
                    Instr::Copy { base_offset: (i * 4096) as u64, length: ml as u32 },
                ] + scan(b, t, pos + ml, pos + ml)
            },
            None => scan(b, t, pos + 1, pending),
        }
    }
}

/// The `0x02` delta the rolling-hash strategy offers for `base` and
/// `target`: none unless both hold a whole block and the delta is smaller
/// than the target.
pub open spec fn rolling_delta(b: Seq<u8>, t: Seq<u8>) -> Option<Seq<u8>> {
    if b.len() < 4096 || t.len() < 4096 {
        None
    } else {
        let d = instructions_delta(t.len() as u64, scan(b, t, 0, 0));
        if d.len() < t.len() {
            Some(d)
        } else {
            None
        }
    }
}

/// Every entry under a key is a block of that Rabin hash, with its strong hash.
pub proof fn lemma_candidates_entries(b: Seq<u8>, key: u64, n: int)
    requires
        n <= usize::MAX,
    ensures
        forall|j: int|
            0 <= j < candidates(b, key, n).len() ==> {
                let e = #[trigger] candidates(b, key, n)[j];
                &&& 0 <= e.0 < n
                &&& rabin_key(block(b, e.0 as int)) == key
                &&& strong(block(b, e.0 as int)) == e.1
            },
    decreases n,
{
    if n > 0 {
        lemma_candidates_entries(b, key, n - 1);
        let c = candidates(b, key, n);
        let c0 = candidates(b, key, n - 1);
        assert forall|j: int| 0 <= j < c.len() implies {
            let e = #[trigger] c[j];
            &&& 0 <= e.0 < n
            &&& rabin_key(block(b, e.0 as int)) == key
            &&& strong(block(b, e.0 as int)) == e.1
        } by {
            if j < c0.len() {
                assert(c[j] == c0[j]);
            } else {
                assert(rabin_key(block(b, n - 1)) == key);
                assert(c[j] == ((n - 1) as usize, strong(block(b, n - 1))));
            }
        }
    }
}

/// The first match is an entry with the strong hash sought and the bytes sought.
pub proof fn lemma_first_match_found(b: Seq<u8>, w: Seq<u8>, c: Seq<(usize, u64)>, sh: u64, j: int)
    requires
        first_match(b, w, c, sh, j) is Some,
    ensures
        exists|k: int|
            j <= k < c.len() && (#[trigger] c[k]).1 == sh && c[k].0 == first_match(
                b,
                w,
                c,
                sh,
                j,
            )->0,
        block(b, first_match(b, w, c, sh, j)->0 as int) == w,
    decreases c.len() - j,
{
    if !(c[j].1 == sh && block(b, c[j].0 as int) == w) {
        lemma_first_match_found(b, w, c, sh, j + 1);
    }
}

/// A block found for a window is a whole block of the base with the
/// window's bytes.
pub proof fn lemma_found_block(b: Seq<u8>, t: Seq<u8>, pos: int)
    requires
        b.len() <= usize::MAX,
        window_match(b, t, pos) is Some,
    ensures
        0 <= window_match(b, t, pos)->0 < block_count(b),
        block(b, window_match(b, t, pos)->0 as int) == window(t, pos),
{
    let w = window(t, pos);
    let c = candidates(b, rabin_key(w), block_count(b));
    lemma_first_match_found(b, w, c, strong(w), 0);
    lemma_candidates_entries(b, rabin_key(w), block_count(b));
    let k = choose|k: int|
        0 <= k < c.len() && (#[trigger] c[k]).1 == strong(w) && c[k].0 == first_match(
            b,
            w,
            c,
            strong(w),
            0,
        )->0;
    assert(c[k] == c[k]);
}

/// The index contents hold exactly the candidates of the first `n` blocks.
#[verifier::opaque]
pub open spec fn covers(m: Map<u64, Seq<(usize, u64)>>, b: Seq<u8>, n: int) -> bool {
    &&& forall|k: u64| #[trigger] m.contains_key(k) <==> candidates(b, k, n).len() > 0
    &&& forall|k: u64| #[trigger] m.contains_key(k) ==> m[k] == candidates(b, k, n)
}

/// Adding block `n` to an index of the first `n` blocks gives an index of
/// the first `n + 1`.
proof fn lemma_covers_step(
    m: Map<u64, Seq<(usize, u64)>>,
    m2: Map<u64, Seq<(usize, u64)>>,
    b: Seq<u8>,
    n: int,
    rh: u64,
    sh: u64,
)
    requires
        0 <= n < usize::MAX,
        covers(m, b, n),
        rh == rabin_key(block(b, n)),
        sh == strong(block(b, n)),
        m2 == m.insert(rh, entries_under(m, rh).push((n as usize, sh))),
    ensures
        covers(m2, b, n + 1),
{
    reveal(covers);
    assert forall|k: u64| #[trigger] m2.contains_key(k) <==> candidates(b, k, n + 1).len() > 0 by {
        assert(candidates(b, k, n + 1) == candidates(b, k, n) + if rabin_key(block(b, n)) == k {
            seq![(n as usize, strong(block(b, n)))]
        } else {
            Seq::empty()
        });
    }
    assert forall|k: u64| #[trigger] m2.contains_key(k) implies m2[k] == candidates(
        b,
        k,
        n + 1,
    ) by {
        assert(candidates(b, k, n + 1) == candidates(b, k, n) + if rabin_key(block(b, n)) == k {
            seq![(n as usize, strong(block(b, n)))]
        } else {
            Seq::empty()
        });
        if k == rh {
            assert(m2[k] =~= candidates(b, k, n + 1));
        } else {
            assert(candidates(b, k, n + 1) =~= candidates(b, k, n));
        }
    }
}

/// Index every whole block of `base` by its Rabin hash.
fn build_index(base: &[u8]) -> (index: BlockIndex)
    ensures
        covers(index_entries(index), base@, block_count(base@)),
{
    let num_blocks = base.len() / BLOCK_SIZE;
    let mut index = BlockIndex::new();
    proof {
        reveal(covers);
    }
    let mut i: usize = 0;
    let mut start: usize = 0;
    assert(num_blocks * 4096 <= base@.len()) by (nonlinear_arith)
        requires
            num_blocks == base@.len() / 4096,
    ;
    let blen = base.len();
    while i < num_blocks
        invariant
            blen == base@.len(),
            num_blocks == block_count(base@),
            i <= num_blocks,
            start == i * 4096,
            num_blocks * 4096 <= base@.len(),
            covers(index_entries(index), base@, i as int),
        decreases num_blocks - i,
    {
        let block_bytes = &base[start..start + BLOCK_SIZE];
        let rh = rabin_hash(block_bytes);
        let sh = strong_hash(block_bytes);
        let ghost m = index_entries(index);
        index.append(rh, (i, sh));
        proof {
            assert(block_bytes@ == block(base@, i as int));
            lemma_covers_step(m, index_entries(index), base@, i as int, rh, sh);
        }
        i = i + 1;
        start = start + BLOCK_SIZE;
    }
    index
}

/// Whether block `block_idx` of the base holds the same bytes as the
/// window of the target at `pos`.
fn block_equals_window(base: &[u8], block_idx: usize, target: &[u8], pos: usize) -> (r: bool)
    requires
        block_idx < block_count(base@),
        pos + 4096 <= target@.len(),
    ensures
        r == (block(base@, block_idx as int) == window(target@, pos as int)),
{
    let ghost bl = block(base@, block_idx as int);
    let ghost w = window(target@, pos as int);
    let blen = base.len();
    let tlen = target.len();
    assert(block_idx * 4096 + 4096 <= base@.len()) by (nonlinear_arith)
        requires
            block_idx < base@.len() / 4096,
    ;
    let start = block_idx * BLOCK_SIZE;
    let mut k: usize = 0;
    while k < BLOCK_SIZE
        invariant
            blen == base@.len(),
            tlen == target@.len(),
            start == block_idx * 4096,
            start + 4096 <= base@.len(),
            pos + 4096 <= target@.len(),
            bl == block(base@, block_idx as int),
            w == window(target@, pos as int),
            k <= 4096,
            forall|j: int| 0 <= j < k ==> bl[j] == w[j],
        decreases 4096 - k,
    {
        if base[start + k] != target[pos + k] {
            assert(bl[k as int] != w[k as int]);
            return false;
        }
        k = k + 1;
    }
    assert(bl =~= w);
    true
}

/// The block number of the first candidate whose strong hash is `sh` and
/// whose block holds the bytes of the window at `pos`.
fn find_block(cands: &Vec<(usize, u64)>, sh: u64, base: &[u8], target: &[u8], pos: usize) -> (r:
    Option<usize>)
    requires
        pos + 4096 <= target@.len(),
        forall|j: int| 0 <= j < cands@.len() ==> (#[trigger] cands@[j]).0 < block_count(base@),
    ensures
        r == first_match(base@, window(target@, pos as int), cands@, sh, 0),
{
    let ghost w = window(target@, pos as int);
    let mut j: usize = 0;
    while j < cands.len()
        invariant
            j <= cands@.len(),
            pos + 4096 <= target@.len(),
            w == window(target@, pos as int),
            forall|i: int| 0 <= i < cands@.len() ==> (#[trigger] cands@[i]).0 < block_count(base@),
            first_match(base@, w, cands@, sh, 0) == first_match(base@, w, cands@, sh, j as int),
        decreases cands@.len() - j,
    {
        let (block_idx, ref_sh) = cands[j];
        assert(cands@[j as int].0 < block_count(base@));
        if sh == ref_sh && block_equals_window(base, block_idx, target, pos) {
            return Some(block_idx);
        }
        j = j + 1;
    }
    None
}

/// How far the match of the block at `base_offset` with the window at `pos`
/// extends while the next bytes agree.
fn extend_match(base: &[u8], target: &[u8], pos: usize, base_offset: usize) -> (r: usize)
    requires
        pos + 4096 <= target@.len(),
        base_offset + 4096 <= base@.len(),
    ensures
        r == match_extent(base@, target@, pos as int, base_offset as int, 4096),
{
    let tlen = target.len();
    let blen = base.len();
    let mut match_len: usize = BLOCK_SIZE;
    while pos + match_len < tlen && base_offset + match_len < blen && target[pos + match_len]
        == base[base_offset + match_len]
        invariant
            tlen == target@.len(),
            blen == base@.len(),
            4096 <= match_len,
            pos + match_len <= tlen,
            base_offset + match_len <= blen,
            match_extent(base@, target@, pos as int, base_offset as int, 4096) == match_extent(
                base@,
                target@,
                pos as int,
                base_offset as int,
                match_len as int,
            ),
        decreases tlen - pos - match_len,
    {
        match_len = match_len + 1;
    }
    match_len
}

/// Appends the record of an Insert of `data`.
fn emit_insert(body: &mut Vec<u8>, data: &[u8])
    ensures
        final(body)@ == old(body)@ + instr_bytes(Instr::Insert { data: data@ }),
{
    body.push(INSTR_INSERT);
    push_u32_le(body, data.len() as u32);
    push_bytes(body, data);
    assert(final(body)@ =~= old(body)@ + instr_bytes(Instr::Insert { data: data@ }));
}

/// Appends the record of a Copy.
fn emit_copy(body: &mut Vec<u8>, base_offset: u64, length: u32)
    ensures
        final(body)@ == old(body)@ + instr_bytes(Instr::Copy { base_offset, length }),
{
    body.push(INSTR_COPY);
    push_u64_le(body, base_offset);
    push_u32_le(body, length);
    assert(final(body)@ =~= old(body)@ + instr_bytes(Instr::Copy { base_offset, length }));
}

/// The records of `s` followed by one more instruction.
proof fn lemma_instrs_bytes_push(s: Seq<Instr>, ins: Instr)
    ensures
        instrs_bytes(s.push(ins)) == instrs_bytes(s) + instr_bytes(ins),
{
    assert(s.push(ins).drop_last() =~= s);
}

/// One step of the scan at a window that matches block `i`.
pub proof fn lemma_scan_match(b: Seq<u8>, t: Seq<u8>, pos: int, pending: int, i: int)
    requires
        0 <= pos,
        pos + 4096 <= t.len(),
        window_match(b, t, pos) == Some(i as usize),
        0 <= i <= usize::MAX,
    ensures
        scan(b, t, pos, pending) == gap_instrs(t, pending, pos) + seq![
            Instr::Copy { base_offset: (i * 4096) as u64, length: copy_len(b, t, pos, i) as u32 },
        ] + scan(b, t, pos + copy_len(b, t, pos, i), pos + copy_len(b, t, pos, i)),
{
    reveal(scan);
}

/// One step of the scan at a window that matches no block.
pub proof fn lemma_scan_skip(b: Seq<u8>, t: Seq<u8>, pos: int, pending: int)
    requires
        0 <= pos,
        pos + 4096 <= t.len(),
        window_match(b, t, pos) is None,
    ensures
        scan(b, t, pos, pending) == scan(b, t, pos + 1, pending),
{
    reveal(scan);
}

/// The scan once no whole window is left.
pub proof fn lemma_scan_end(b: Seq<u8>, t: Seq<u8>, pos: int, pending: int)
    requires
        pos + 4096 > t.len(),
    ensures
        scan(b, t, pos, pending) == tail_instrs(t, pending),
{
    reveal(scan);
}

/// The hash of the window at `pos`, rolled from the previous window's
/// hash where there is one.
fn window_hash(target: &[u8], pos: usize, prev: Option<u64>, base_power: u64) -> (rh: u64)
    requires
        pos + 4096 <= target@.len(),
        base_power as int == pow(257, 4095) % (MERSENNE61 as int),
        prev matches Some(pr) ==> (1 <= pos && pr as int == rabin(window(target@, pos - 1))),
    ensures
        rh as int == rabin(window(target@, pos as int)),
{
    let tlen = target.len();
    match prev {
        Some(pr) => {
            if pos > 0 {
                proof {
                    lemma_rabin_roll(target@, pos - 1, 4096);
                    assert(target@.subrange(pos as int, pos + 4096) == window(
                        target@,
                        pos as int,
                    ));
                }
                rabin_roll(pr, target[pos - 1], target[pos + BLOCK_SIZE - 1], base_power)
            } else {
                rabin_hash(&target[pos..pos + BLOCK_SIZE])
            }
        },
        None => rabin_hash(&target[pos..pos + BLOCK_SIZE]),
    }
}

/// The block of the base that the window at `pos` matches, if any.
fn lookup_window(base: &[u8], target: &[u8], index: &BlockIndex, pos: usize, rh: u64) -> (r: Option<usize>)
    requires
        pos + 4096 <= target@.len(),
        rh as int == rabin(window(target@, pos as int)),
        covers(index_entries(*index), base@, block_count(base@)),
    ensures
        r == window_match(base@, target@, pos as int),
{
    let ghost w = window(target@, pos as int);
    let tlen = target.len();
    let blen = base.len();
    proof {
        reveal(covers);
    }
    match index.get(rh) {
        Some(cands) => {
            let sh = strong_hash(&target[pos..pos + BLOCK_SIZE]);
            proof {
                lemma_candidates_entries(base@, rabin_key(w), block_count(base@));
                assert forall|j: int| 0 <= j < cands@.len() implies (#[trigger] cands@[j]).0
                    < block_count(base@) by {
                    assert(cands@[j] == candidates(base@, rabin_key(w), block_count(base@))[j]);
                }
            }
            find_block(cands, sh, base, target, pos)
        },
        None => {
            assert(candidates(base@, rabin_key(w), block_count(base@)).len() == 0);
            None
        },
    }
}

/// Compute the `0x02` delta, if both inputs hold a whole block and the
/// instruction stream is smaller than the target.
#[verifier::rlimit(60)]
pub fn compute_rolling_delta(base: &[u8], target: &[u8]) -> (r: Option<Vec<u8>>)
    ensures
        match rolling_delta(base@, target@) {
            Some(d) => r matches Some(v) && v@ == d,
            None => r is None,
        },
{
    if base.len() < BLOCK_SIZE || target.len() < BLOCK_SIZE {
        return None;
    }
    let num_blocks = base.len() / BLOCK_SIZE;
    if num_blocks == 0 {
        return None;
    }
    let ghost b = base@;
    let ghost t = target@;
    let blen = base.len();
    let index = build_index(base);
    let base_power = mod_pow(RABIN_BASE, BLOCK_SIZE - 1);
    let mut body: Vec<u8> = Vec::new();
    let mut count: usize = 0;
    let ghost mut emitted: Seq<Instr> = Seq::empty();
    let mut pending: usize = 0;
    let mut pos: usize = 0;
    let mut prev_rabin: Option<u64> = None;
    while pos <= target.len() - BLOCK_SIZE
        invariant
            b == base@,
            t == target@,
            blen == b.len(),
            t.len() >= 4096,
            b.len() >= 4096,
            covers(index_entries(index), b, block_count(b)),
            base_power as int == pow(257, 4095) % (MERSENNE61 as int),
            pending <= pos <= t.len(),
            count <= pending,
            count == emitted.len(),
            body@ == instrs_bytes(emitted),
            emitted + scan(b, t, pos as int, pending as int) == scan(b, t, 0, 0),
            prev_rabin matches Some(pr) ==> (1 <= pos && pr as int == rabin(window(t, pos - 1))),
        decreases t.len() - pos,
    {
        let rh = window_hash(target, pos, prev_rabin, base_power);
        prev_rabin = Some(rh);
        let found = lookup_window(base, target, &index, pos, rh);
        match found {
            Some(block_idx) => {
                proof {
                    lemma_found_block(b, t, pos as int);
                    lemma_scan_match(b, t, pos as int, pending as int, block_idx as int);
                }
                let base_offset = block_idx * BLOCK_SIZE;
                let extent = extend_match(base, target, pos, base_offset);
                let match_len: usize = if extent > u32::MAX as usize {
                    u32::MAX as usize
                } else {
                    extent
                };
                proof {
                    lemma_match_extent_bounds(b, t, pos as int, base_offset as int, 4096);
                    assert(match_len == copy_len(b, t, pos as int, block_idx as int));
                }
                let ghost copy = Instr::Copy {
                    base_offset: base_offset as u64,
                    length: match_len as u32,
                };
                let ghost before = emitted;
                if pending < pos {
                    let ghost ins = Instr::Insert { data: t.subrange(pending as int, pos as int) };
                    emit_insert(&mut body, &target[pending..pos]);
                    proof {
                        lemma_instrs_bytes_push(emitted, ins);
                        emitted = emitted.push(ins);
                    }
                    count = count + 1;
                }
                assert(emitted == before + gap_instrs(t, pending as int, pos as int));
                emit_copy(&mut body, base_offset as u64, match_len as u32);
                proof {
                    lemma_instrs_bytes_push(emitted, copy);
                    emitted = emitted.push(copy);
                    assert(emitted + scan(b, t, (pos + match_len) as int, (pos + match_len) as int)
                        =~= before + scan(b, t, pos as int, pending as int));
                }
                count = count + 1;
                pos = pos + match_len;
                pending = pos;
                prev_rabin = None;
            },
            None => {
                proof {
                    lemma_scan_skip(b, t, pos as int, pending as int);
                }
                pos = pos + 1;
            },
        }
    }
    proof {
        lemma_scan_end(b, t, pos as int, pending as int);
    }
    if pending < target.len() {
        let ghost ins = Instr::Insert { data: t.subrange(pending as int, t.len() as int) };
        emit_insert(&mut body, &target[pending..target.len()]);
        proof {
            lemma_instrs_bytes_push(emitted, ins);
            emitted = emitted.push(ins);
        }
        count = count + 1;
    }
    assert(emitted =~= scan(b, t, 0, 0));
    let mut delta: Vec<u8> = Vec::new();
    delta.push(OP_INSTRUCTIONS);
    push_u64_le(&mut delta, target.len() as u64);
    push_u32_le(&mut delta, count as u32);
    push_bytes(&mut delta, body.as_slice());
    assert(delta@ =~= instructions_delta(t.len() as u64, emitted));
    if delta.len() < target.len() {
        Some(delta)
    } else {
        None
    }
}

} // verus!
