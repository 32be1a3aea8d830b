//! Deterministic sweeps over generated inputs: the round trip, the size
//! bound, binary safety, similar inputs and chained deltas.
use delta_kit::format::{OP_INSTRUCTIONS, OP_PREFIX_SUFFIX};
use delta_kit::{apply_delta, apply_delta_lenient, compute_delta, BLOCK_SIZE};

struct Rng(u64);

impl Rng {
    fn next(&mut self) -> u64 {
        self.0 ^= self.0 << 13;
        self.0 ^= self.0 >> 7;
        self.0 ^= self.0 << 17;
        self.0
    }

    fn bytes(&mut self, max: usize) -> Vec<u8> {
        let n = (self.next() % (max as u64 + 1)) as usize;
        (0..n).map(|_| self.next() as u8).collect()
    }

    fn text(&mut self, max: usize) -> Vec<u8> {
        let n = (self.next() % (max as u64 + 1)) as usize;
        (0..n).map(|_| (self.next() % 255 + 1) as u8).collect()
    }
}

fn check_roundtrip(base: &[u8], target: &[u8]) -> Vec<u8> {
    let (copy, delta) = compute_delta(base, target);
    assert_eq!(copy, base);
    assert_eq!(apply_delta(base, &delta).expect("computed delta applies"), target);
    assert_eq!(apply_delta_lenient(base, &delta), target);
    delta
}

#[test]
fn roundtrip_on_arbitrary_bytes() {
    let mut rng = Rng(0x9e37_79b9_7f4a_7c15);
    for _ in 0..64 {
        let base = rng.bytes(4096);
        let target = rng.bytes(4096);
        check_roundtrip(&base, &target);
    }
}

#[test]
fn binary_safety_with_forced_zeros() {
    let mut rng = Rng(0x1234_5678_9abc_def1);
    for _ in 0..64 {
        let mut base = rng.bytes(2048);
        let mut target = rng.bytes(2048);
        if !base.is_empty() {
            let p = (rng.next() as usize) % base.len();
            base[p] = 0;
        }
        if !target.is_empty() {
            let p = (rng.next() as usize) % target.len();
            target[p] = 0;
        }
        check_roundtrip(&base, &target);
    }
}

#[test]
fn delta_size_is_bounded() {
    let mut rng = Rng(0xdead_beef_cafe_f00d);
    for _ in 0..48 {
        let base = rng.bytes(8192);
        let target = rng.bytes(8192);
        let (_c, delta) = compute_delta(&base, &target);
        assert!(delta.len() <= target.len() + 24);
    }
}

#[test]
fn smallest_encoding_beats_binary() {
    // Zero bytes make both inputs look binary, but the prefix/suffix delta
    // (25 header bytes and the one new byte) is shorter than any 0x03 one.
    let base = vec![0u8; 100];
    let mut target = base.clone();
    target.push(0x5a);
    let delta = check_roundtrip(&base, &target);
    assert_eq!(delta[0], OP_PREFIX_SUFFIX);
    assert_eq!(delta.len(), 26);
    assert_eq!(&delta[1..9], &100u64.to_le_bytes());
    assert_eq!(&delta[9..17], &0u64.to_le_bytes());
    assert_eq!(&delta[17..25], &101u64.to_le_bytes());
    assert_eq!(delta[25], 0x5a);
}

#[test]
fn similar_inputs_give_small_deltas() {
    let mut rng = Rng(0x0bad_cafe_0000_0001);
    for _ in 0..16 {
        let base: Vec<u8> = (0..3 * BLOCK_SIZE).map(|_| (rng.next() % 255 + 1) as u8).collect();
        let mut target = base.clone();
        let p1 = (rng.next() as usize) % target.len();
        target[p1] = target[p1].wrapping_add(1).max(1);
        let p2 = (rng.next() as usize) % target.len();
        target[p2] = target[p2].wrapping_sub(1).max(1);
        let delta = check_roundtrip(&base, &target);
        assert!(delta.len() <= target.len() + 25);
    }
}

#[test]
fn rolling_path_roundtrip_on_text() {
    let mut rng = Rng(0x5555_aaaa_3333_cccc);
    let mut rolling_seen = false;
    for _ in 0..24 {
        let base = rng.text(4 * BLOCK_SIZE);
        let mut target = base.clone();
        if target.len() > 200 {
            let p = (rng.next() as usize) % (target.len() - 100);
            target.splice(p..p + 50, rng.text(80));
        }
        if base.len() >= BLOCK_SIZE && target.len() >= BLOCK_SIZE {
            let delta = check_roundtrip(&base, &target);
            rolling_seen |= delta[0] == OP_INSTRUCTIONS;
        }
    }
    assert!(rolling_seen);
}

#[test]
fn delta_of_delta_composes() {
    let mut rng = Rng(0x7777_1111_2222_3333);
    for _ in 0..32 {
        let x = rng.bytes(2048);
        let y = rng.bytes(2048);
        let z = rng.bytes(2048);
        let (_c, d1) = compute_delta(&x, &y);
        let y2 = apply_delta(&x, &d1).expect("first delta applies");
        assert_eq!(y2, y);
        let (_c, d2) = compute_delta(&y, &z);
        assert_eq!(apply_delta(&y, &d2).expect("second delta applies"), z);
        assert_eq!(apply_delta(&y2, &d2).expect("applies to the rebuilt base"), z);
    }
}

#[test]
fn binary_path_roundtrip_on_large_inputs() {
    let mut rng = Rng(0x4242_4242_4242_4243);
    for _ in 0..8 {
        let mut base = rng.bytes(16384);
        let target = rng.bytes(16384);
        base.push(0);
        check_roundtrip(&base, &target);
    }
}
