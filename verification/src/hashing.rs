//! The two block hashes of the rolling-hash strategy: a Rabin polynomial
//! hash over the Mersenne prime 2^61 - 1 (which can be rolled one byte at a
//! time) and a 64-bit FNV-1a hash with a final avalanche mix.
use vstd::arithmetic::div_mod::{
    lemma_add_mod_noop,
    lemma_fundamental_div_mod_converse,
    lemma_mod_add_multiples_vanish,
    lemma_mod_bound,
    lemma_mod_twice,
    lemma_mul_mod_noop_left,
    lemma_mul_mod_noop_right,
    lemma_sub_mod_noop,
};
use vstd::arithmetic::power::{
    lemma_pow0,
    lemma_pow1,
    lemma_pow_adds,
    lemma_pow_mod_noop,
    lemma_pow_multiplies,
    lemma_square_is_pow2,
    pow,
};
use vstd::prelude::*;

verus! {

/// Multiplier of the Rabin polynomial hash.
pub const RABIN_BASE: u64 = 257;

/// The Mersenne prime 2^61 - 1, modulus of the Rabin hash.
pub const MERSENNE61: u64 = 0x1fff_ffff_ffff_ffff;

/// Products of two residues stay below this bound, which is all that
/// [`mersenne_reduce`] needs.
pub open spec fn reducible(x: int) -> bool {
    0 <= x < 0x1fff_ffff_ffff_ffff * 0x2000_0000_0000_0000
}

proof fn lemma_mersenne_split(x: int, a: int, b: int)
    requires
        x == a * 0x2000_0000_0000_0000 + b,
        0 <= a,
        0 <= b <= 0x1fff_ffff_ffff_ffff,
        reducible(x),
    ensures
        a < 0x1fff_ffff_ffff_ffff,
        a + b < 0x1fff_ffff_ffff_ffff ==> x % 0x1fff_ffff_ffff_ffff == a + b,
        a + b >= 0x1fff_ffff_ffff_ffff ==> x % 0x1fff_ffff_ffff_ffff == a + b
            - 0x1fff_ffff_ffff_ffff,
{
    let m: int = 0x1fff_ffff_ffff_ffff;
    assert(a < 0x1fff_ffff_ffff_ffff) by (nonlinear_arith)
        requires
            x == a * 0x2000_0000_0000_0000 + b,
            0 <= b,
            x < 0x1fff_ffff_ffff_ffff * 0x2000_0000_0000_0000,
    ;
    assert(x == a * m + (a + b)) by (nonlinear_arith)
        requires
            x == a * 0x2000_0000_0000_0000 + b,
            m == 0x1fff_ffff_ffff_ffff,
    ;
    if a + b < m {
        lemma_fundamental_div_mod_converse(x, m, a, a + b);
    } else {
        assert(x == (a + 1) * m + (a + b - m)) by (nonlinear_arith)
            requires
                x == a * m + (a + b),
        ;
        lemma_fundamental_div_mod_converse(x, m, a + 1, a + b - m);
    }
}

/// One folding step modulo 2^61 - 1: the bits from 61 up are added to the
/// low 61 bits, and the modulus is subtracted once if the sum reaches it.
pub open spec fn fold_once(x: u128) -> int {
    let s = (x & 0x1fff_ffff_ffff_ffffu128) + (x >> 61u128);
    if s >= 0x1fff_ffff_ffff_ffff {
        s - 0x1fff_ffff_ffff_ffff
    } else {
        s
    }
}

/// `x mod (2^61 - 1)` for every `x` below [`reducible`]'s bound, by folding
/// the bits above bit 61 onto the low bits once; larger inputs get the
/// single fold, truncated to 64 bits.
pub fn mersenne_reduce(x: u128) -> (r: u64)
    ensures
        r == fold_once(x) as u64,
        reducible(x as int) ==> r as int == x as int % (MERSENNE61 as int),
{
    let lo: u128 = x & 0x1fff_ffff_ffff_ffffu128;
    let hi: u128 = x >> 61u128;
    proof {
        assert(x == (x >> 61u128) * 0x2000_0000_0000_0000u128 + (x & 0x1fff_ffff_ffff_ffffu128))
            by (bit_vector);
        assert((x & 0x1fff_ffff_ffff_ffffu128) <= 0x1fff_ffff_ffff_ffffu128) by (bit_vector);
        assert((x >> 61u128) <= 0x7_ffff_ffff_ffff_ffffu128) by (bit_vector);
        if reducible(x as int) {
            lemma_mersenne_split(x as int, hi as int, lo as int);
        }
    }
    let mut r: u128 = lo + hi;
    if r >= MERSENNE61 as u128 {
        r = r - MERSENNE61 as u128;
    }
    r as u64
}

/// `(a - b) mod (2^61 - 1)`; the sum `a + (2^61 - 1)` must cover `b`.
pub fn mod_sub(a: u64, b: u64) -> (r: u64)
    requires
        b <= a + MERSENNE61,
    ensures
        r as int == (a - b) % (MERSENNE61 as int),
{
    let x: u128 = a as u128 + MERSENNE61 as u128 - b as u128;
    proof {
        lemma_mod_add_multiples_vanish(a - b, MERSENNE61 as int);
    }
    mersenne_reduce(x)
}

proof fn lemma_pow_step(r: int, b: int, e: nat, m: int)
    requires
        m > 0,
    ensures
        e % 2 == 1 ==> (((r * b) % m) * pow((b * b) % m, e / 2)) % m == (r * pow(b, e)) % m,
        e % 2 == 0 ==> (r * pow((b * b) % m, e / 2)) % m == (r * pow(b, e)) % m,
{
    let k: nat = e / 2;
    let x = pow((b * b) % m, k);
    let y = pow(b * b, k);
    lemma_square_is_pow2(b);
    lemma_pow_multiplies(b, 2, k);
    assert(y == pow(b, 2 * k));
    lemma_pow_mod_noop(b * b, k, m);
    assert(x % m == y % m);
    if e % 2 == 1 {
        assert(e == 1 + 2 * k);
        lemma_pow_adds(b, 1, 2 * k);
        lemma_pow1(b);
        assert(pow(b, e) == b * y);
        let c = (r * b) % m;
        lemma_mul_mod_noop_right(c, x, m);
        lemma_mul_mod_noop_right(c, y, m);
        lemma_mul_mod_noop_left(r * b, y, m);
        assert((r * b) * y == r * (b * y)) by (nonlinear_arith);
    } else {
        assert(e == 2 * k);
        lemma_mul_mod_noop_right(r, x, m);
        lemma_mul_mod_noop_right(r, y, m);
    }
}

/// Square-and-multiply with a single fold after each product: the
/// accumulator `result` times `b^e`, as [`mod_pow`] computes it.
pub open spec fn fold_pow(result: u64, b: u64, e: nat) -> u64
    decreases e,
{
    if e == 0 {
        result
    } else {
        let next = if e % 2 == 1 {
            fold_once((result as u128 * b as u128) as u128) as u64
        } else {
            result
        };
        fold_pow(next, fold_once((b as u128 * b as u128) as u128) as u64, e / 2)
    }
}

/// `base^exp mod (2^61 - 1)` by square-and-multiply; for a `base` that is
/// not a residue, the same steps with each product folded once.
pub fn mod_pow(base: u64, exp: usize) -> (r: u64)
    ensures
        r == fold_pow(1, base, exp as nat),
        base < MERSENNE61 ==> r as int == pow(base as int, exp as nat) % (MERSENNE61 as int),
{
    let ghost m: int = MERSENNE61 as int;
    let mut b: u64 = base;
    let mut e: usize = exp;
    let mut result: u64 = 1;
    proof {
        lemma_pow0(b as int);
        lemma_mod_bound(pow(base as int, exp as nat), m);
    }
    while e > 0
        invariant
            m == MERSENNE61 as int,
            fold_pow(result, b, e as nat) == fold_pow(1, base, exp as nat),
            base < MERSENNE61 ==> b < MERSENNE61,
            base < MERSENNE61 ==> result < MERSENNE61,
            base < MERSENNE61 ==> (result * pow(b as int, e as nat)) % m == pow(
                base as int,
                exp as nat,
            ) % m,
        decreases e,
    {
        proof {
            lemma_pow_step(result as int, b as int, e as nat, m);
        }
        if e % 2 == 1 {
            proof {
                if base < MERSENNE61 {
                    assert(result as int * b as int <= 0x1fff_ffff_ffff_fffe
                        * 0x1fff_ffff_ffff_fffe) by (nonlinear_arith)
                        requires
                            result < 0x1fff_ffff_ffff_ffff,
                            b < 0x1fff_ffff_ffff_ffff,
                    ;
                }
                assert(result as int * b as int <= 0xffff_ffff_ffff_ffff * 0xffff_ffff_ffff_ffff)
                    by (nonlinear_arith)
                    requires
                        result <= 0xffff_ffff_ffff_ffff,
                        b <= 0xffff_ffff_ffff_ffff,
                ;
            }
            result = mersenne_reduce(result as u128 * b as u128);
        }
        proof {
            if base < MERSENNE61 {
                assert(b as int * b as int <= 0x1fff_ffff_ffff_fffe * 0x1fff_ffff_ffff_fffe)
                    by (nonlinear_arith)
                    requires
                        b < 0x1fff_ffff_ffff_ffff,
                ;
            }
            assert(b as int * b as int <= 0xffff_ffff_ffff_ffff * 0xffff_ffff_ffff_ffff)
                by (nonlinear_arith)
                requires
                    b <= 0xffff_ffff_ffff_ffff,
            ;
        }
        b = mersenne_reduce(b as u128 * b as u128);
        e = e / 2;
    }
    proof {
        if base < MERSENNE61 {
            lemma_pow0(b as int);
            lemma_mod_twice(result as int, m);
        }
    }
    result
}


/// The Rabin hash of `s`: its bytes read as a base-257 number, reduced
/// modulo 2^61 - 1 after each step.
pub open spec fn rabin(s: Seq<u8>) -> int
    decreases s.len(),
{
    if s.len() == 0 {
        0
    } else {
        (rabin(s.drop_last()) * 257 + s.last()) % 0x1fff_ffff_ffff_ffff
    }
}

/// `s` read as a base-257 number, without reduction.
pub open spec fn base257(s: Seq<u8>) -> int
    decreases s.len(),
{
    if s.len() == 0 {
        0
    } else {
        base257(s.drop_last()) * 257 + s.last()
    }
}

/// The Rabin hash of `data`.
pub fn rabin_hash(data: &[u8]) -> (h: u64)
    ensures
        h as int == rabin(data@),
        h < MERSENNE61,
{
    let mut h: u64 = 0;
    let mut i: usize = 0;
    assert(data@.subrange(0, 0) =~= Seq::<u8>::empty());
    while i < data.len()
        invariant
            i <= data@.len(),
            h as int == rabin(data@.subrange(0, i as int)),
            h < MERSENNE61,
        decreases data@.len() - i,
    {
        let b = data[i];
        proof {
            let next = data@.subrange(0, i + 1);
            assert(next.drop_last() =~= data@.subrange(0, i as int));
            assert(next.last() == b);
        }
        h = mersenne_reduce(h as u128 * 257u128 + b as u128);
        i = i + 1;
    }
    assert(data@.subrange(0, i as int) =~= data@);
    h
}

/// The hash of the window one byte further on, from the hash `h` of the
/// current window, the byte `old_byte` that leaves it, the byte
/// `new_byte` that enters it and `base_power = 257^(len - 1) mod (2^61 - 1)`.
pub fn rabin_roll(h: u64, old_byte: u8, new_byte: u8, base_power: u64) -> (r: u64)
    ensures
        r as int == ((h - old_byte * base_power) * 257 + new_byte) % (MERSENNE61 as int),
        r < MERSENNE61,
{
    let ghost m: int = MERSENNE61 as int;
    assert(old_byte as int * base_power as int <= 255 * 0xffff_ffff_ffff_ffff) by (nonlinear_arith)
        requires
            base_power <= 0xffff_ffff_ffff_ffff,
            old_byte <= 255,
    ;
    let old_contrib = mersenne_reduce(old_byte as u128 * base_power as u128);
    let h2 = mod_sub(h, old_contrib);
    let r = mersenne_reduce(h2 as u128 * RABIN_BASE as u128 + new_byte as u128);
    proof {
        let x = h - old_byte * base_power;
        // h2 == (h - old*bp) mod m
        lemma_sub_mod_noop(h as int, old_byte * base_power, m);
        lemma_mod_twice(h as int, m);
        assert(h2 as int == x % m);
        lemma_mul_mod_noop_left(x, 257, m);
        lemma_add_mod_noop(x * 257, new_byte as int, m);
        lemma_add_mod_noop(h2 * 257, new_byte as int, m);
        lemma_mod_twice(new_byte as int, m);
    }
    r
}

/// The Rabin hash is the base-257 value reduced once at the end.
pub proof fn lemma_rabin_is_reduced_base257(s: Seq<u8>)
    ensures
        rabin(s) == base257(s) % 0x1fff_ffff_ffff_ffff,
    decreases s.len(),
{
    let m: int = 0x1fff_ffff_ffff_ffff;
    if s.len() > 0 {
        lemma_rabin_is_reduced_base257(s.drop_last());
        let p = base257(s.drop_last());
        lemma_mul_mod_noop_left(p, 257, m);
        lemma_add_mod_noop(p * 257, s.last() as int, m);
        lemma_add_mod_noop((p % m) * 257, s.last() as int, m);
        lemma_mod_twice(s.last() as int, m);
        lemma_mul_mod_noop_left(p % m, 257, m);
        lemma_mod_twice(p, m);
    }
}

/// The leading byte contributes `s[0] * 257^(len - 1)` to the base-257 value.
pub proof fn lemma_base257_leading(s: Seq<u8>)
    requires
        s.len() >= 1,
    ensures
        base257(s) == s[0] * pow(257, (s.len() - 1) as nat) + base257(s.drop_first()),
    decreases s.len(),
{
    if s.len() == 1 {
        lemma_pow0(257);
        assert(s.drop_last() =~= Seq::<u8>::empty());
        assert(s.drop_first() =~= Seq::<u8>::empty());
    } else {
        let t = s.drop_last();
        lemma_base257_leading(t);
        assert(t.drop_first() =~= s.drop_first().drop_last());
        assert(s.drop_first().last() == s.last());
        let n: nat = (s.len() - 2) as nat;
        lemma_pow_adds(257, n, 1);
        lemma_pow1(257);
        assert(pow(257, (s.len() - 1) as nat) == pow(257, n) * 257);
        assert((t[0] * pow(257, n) + base257(t.drop_first())) * 257 + s.last() == t[0] * (pow(
            257,
            n,
        ) * 257) + (base257(t.drop_first()) * 257 + s.last())) by (nonlinear_arith);
    }
}

/// Rolling law: the hash that [`rabin_roll`] computes from the hash of a
/// window equals the hash of the next window computed from scratch.
pub proof fn lemma_rabin_roll(s: Seq<u8>, pos: int, len: int)
    requires
        0 <= pos,
        1 <= len,
        pos + len < s.len(),
    ensures
        rabin(s.subrange(pos + 1, pos + 1 + len)) == ((rabin(s.subrange(pos, pos + len)) - s[pos]
            * (pow(257, (len - 1) as nat) % 0x1fff_ffff_ffff_ffff)) * 257 + s[pos + len])
            % 0x1fff_ffff_ffff_ffff,
{
    let m: int = 0x1fff_ffff_ffff_ffff;
    let w = s.subrange(pos, pos + len);
    let w2 = s.subrange(pos + 1, pos + 1 + len);
    let pw = pow(257, (len - 1) as nat);
    lemma_rabin_is_reduced_base257(w);
    lemma_rabin_is_reduced_base257(w2);
    lemma_base257_leading(w);
    assert(w2.drop_last() =~= w.drop_first());
    assert(w2.last() == s[pos + len]);
    // base257(w2) == (base257(w) - w0 * pw) * 257 + new
    let x = base257(w) - s[pos] * pw;
    let y = rabin(w) - s[pos] * (pw % m);
    assert(base257(w2) == x * 257 + s[pos + len]);
    // x and y agree modulo m
    lemma_mul_mod_noop_right(s[pos] as int, pw, m);
    lemma_sub_mod_noop(base257(w), s[pos] * pw, m);
    lemma_sub_mod_noop(rabin(w), s[pos] * (pw % m), m);
    lemma_mod_twice(base257(w), m);
    assert(x % m == y % m);
    lemma_mul_mod_noop_left(x, 257, m);
    lemma_mul_mod_noop_left(y, 257, m);
    lemma_add_mod_noop(x * 257, s[pos + len] as int, m);
    lemma_add_mod_noop(y * 257, s[pos + len] as int, m);
}

/// `x * y` modulo 2^64, as `u64::wrapping_mul` computes it.
pub open spec fn mul64(x: u64, y: u64) -> u64 {
    ((x as nat * y as nat) % 0x1_0000_0000_0000_0000) as u64
}

/// 64-bit FNV-1a over `s`.
pub open spec fn fnv1a(s: Seq<u8>) -> u64
    decreases s.len(),
{
    if s.len() == 0 {
        0xcbf2_3ce4_8422_2325
    } else {
        mul64(fnv1a(s.drop_last()) ^ (s.last() as u64), 0x0100_0000_01b3)
    }
}

/// The final avalanche mix applied to the FNV-1a value.
pub open spec fn avalanche(h: u64) -> u64 {
    let h1 = h ^ (h >> 33u64);
    let h2 = mul64(h1, 0xff51_afd7_ed55_8ccd);
    let h3 = h2 ^ (h2 >> 33u64);
    let h4 = mul64(h3, 0xc4ce_b9fe_1a85_ec53);
    h4 ^ (h4 >> 33u64)
}

/// The strong hash that confirms a Rabin-hash candidate.
pub open spec fn strong(s: Seq<u8>) -> u64 {
    avalanche(fnv1a(s))
}

/// The strong hash of `data`.
pub fn strong_hash(data: &[u8]) -> (h: u64)
    ensures
        h == strong(data@),
{
    let mut h: u64 = 0xcbf2_3ce4_8422_2325;
    let mut i: usize = 0;
    assert(data@.subrange(0, 0) =~= Seq::<u8>::empty());
    while i < data.len()
        invariant
            i <= data@.len(),
            h == fnv1a(data@.subrange(0, i as int)),
        decreases data@.len() - i,
    {
        let b = data[i];
        proof {
            let next = data@.subrange(0, i + 1);
            assert(next.drop_last() =~= data@.subrange(0, i as int));
            assert(next.last() == b);
        }
        h = h ^ (b as u64);
        h = h.wrapping_mul(0x0100_0000_01b3);
        i = i + 1;
    }
    assert(data@.subrange(0, i as int) =~= data@);
    h = h ^ (h >> 33u64);
    h = h.wrapping_mul(0xff51_afd7_ed55_8ccd);
    h = h ^ (h >> 33u64);
    h = h.wrapping_mul(0xc4ce_b9fe_1a85_ec53);
    h = h ^ (h >> 33u64);
    h
}

} // verus!
