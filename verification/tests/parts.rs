//! The verified building blocks, on concrete values.
use delta_kit::apply::{read_u32_le, read_u32_or_zero, read_u64_le, read_u64_or_zero, xor_streams};
use delta_kit::compute::{assemble_binary_delta, is_likely_binary};
use delta_kit::error::length_mismatch;
use delta_kit::format::{INSTR_COPY, INSTR_INSERT, OP_BINARY_XOR, OP_INSTRUCTIONS, OP_PREFIX_SUFFIX};
use delta_kit::hashing::{
    mersenne_reduce, mod_pow, mod_sub, rabin_hash, rabin_roll, strong_hash, MERSENNE61,
};
use delta_kit::rolling::compute_rolling_delta;
use delta_kit::{apply_delta, apply_delta_lenient, compute_binary_delta, compute_delta, DeltaError, MismatchSide};

#[test]
fn mersenne_arithmetic_values() {
    assert_eq!(mersenne_reduce(0), 0);
    assert_eq!(mersenne_reduce(MERSENNE61 as u128), 0);
    assert_eq!(mersenne_reduce(1u128 << 70), 512);
    assert_eq!(mod_sub(3, 5), MERSENNE61 - 2);
    assert_eq!(mod_pow(257, 0), 1);
    assert_eq!(mod_pow(257, 2), 66049);
    assert_eq!(mod_pow(257, 4095), 840055045009015404);
}

#[test]
fn rabin_hash_values() {
    assert_eq!(rabin_hash(b""), 0);
    assert_eq!(rabin_hash(b"a"), 97);
    assert_eq!(rabin_hash(b"ab"), 25027);
    assert_eq!(rabin_hash(b"Hello, World!"), 862791055094648302);
}

#[test]
fn rolling_the_hash_matches_hashing_afresh() {
    let data: Vec<u8> = (0..600u32).map(|i| (i * 7 + 3) as u8).collect();
    let len = 64;
    let power = mod_pow(257, len - 1);
    let mut h = rabin_hash(&data[0..len]);
    for pos in 1..(data.len() - len) {
        h = rabin_roll(h, data[pos - 1], data[pos + len - 1], power);
        assert_eq!(h, rabin_hash(&data[pos..pos + len]));
    }
}

#[test]
fn strong_hash_values() {
    assert_eq!(strong_hash(b""), 0xe219_6512_b141_315f);
    assert_eq!(strong_hash(b"abc"), 0x7010_5ff6_e330_478d);
}

#[test]
fn binary_sniffing_looks_at_the_first_8k() {
    assert!(!is_likely_binary(b"plain text"));
    assert!(is_likely_binary(&[1, 2, 0, 3]));
    let mut late = vec![1u8; 9000];
    late[8191] = 0;
    assert!(is_likely_binary(&late));
    late[8191] = 1;
    late[8192] = 0;
    assert!(!is_likely_binary(&late));
}

#[test]
fn xor_streams_keeps_the_tail() {
    assert_eq!(xor_streams(&[0xff, 0x0f], &[0x0f, 0x0f, 7, 8]), vec![0xf0, 0x00, 7, 8]);
    assert_eq!(xor_streams(&[1, 2, 3, 4], &[1, 2]), vec![0, 0]);
}

#[test]
fn field_readers() {
    let d = [9u8, 1, 2, 3, 4, 5, 6, 7, 8];
    assert_eq!(read_u64_le(&d, 1, 2), Ok(0x0807_0605_0403_0201));
    assert_eq!(read_u32_le(&d, 5, 2), Ok(0x0807_0605));
    assert_eq!(
        read_u64_le(&d, 2, 2),
        Err(DeltaError::Truncated { opcode: 2, needed: 10, got: 9 })
    );
    assert_eq!(
        read_u32_le(&d, 6, 1),
        Err(DeltaError::Truncated { opcode: 1, needed: 10, got: 9 })
    );
    assert_eq!(read_u64_or_zero(&d, 1), 0x0807_0605_0403_0201);
    assert_eq!(read_u64_or_zero(&d, 2), 0);
    assert_eq!(read_u32_or_zero(&d, 0), 0x0302_0109);
    assert_eq!(read_u32_or_zero(&d, usize::MAX), 0);
}

#[test]
fn length_mismatch_values() {
    assert_eq!(
        length_mismatch(MismatchSide::Target, 9, 0),
        DeltaError::TargetLengthMismatch { side: MismatchSide::Target, declared: 9, reconstructed: 0 }
    );
    assert_eq!(MismatchSide::Base.as_str(), "base");
    assert_eq!(MismatchSide::Result.as_str(), "result");
    assert_eq!(MismatchSide::Target.as_str(), "target");
}

#[test]
fn exact_errors_of_malformed_instruction_streams() {
    let mut d = vec![OP_INSTRUCTIONS];
    d.extend_from_slice(&5u64.to_le_bytes());
    d.extend_from_slice(&1u32.to_le_bytes());
    assert_eq!(
        apply_delta(b"abc", &d),
        Err(DeltaError::Truncated { opcode: OP_INSTRUCTIONS, needed: 14, got: 13 })
    );
    d.push(INSTR_COPY);
    assert_eq!(
        apply_delta(b"abc", &d),
        Err(DeltaError::Truncated { opcode: OP_INSTRUCTIONS, needed: 26, got: 14 })
    );
    d.extend_from_slice(&1u64.to_le_bytes());
    d.extend_from_slice(&3u32.to_le_bytes());
    assert_eq!(
        apply_delta(b"abc", &d),
        Err(DeltaError::CopyOutOfRange { base_offset: 1, length: 3, base_len: 3 })
    );
    let mut e = vec![OP_INSTRUCTIONS];
    e.extend_from_slice(&5u64.to_le_bytes());
    e.extend_from_slice(&1u32.to_le_bytes());
    e.push(INSTR_INSERT);
    e.extend_from_slice(&4u32.to_le_bytes());
    e.extend_from_slice(b"xyz");
    assert_eq!(
        apply_delta(b"abc", &e),
        Err(DeltaError::InsertOutOfRange { declared: 4, remaining: 3 })
    );
    let mut f = vec![OP_PREFIX_SUFFIX];
    f.extend_from_slice(&1u64.to_le_bytes());
    f.extend_from_slice(&1u64.to_le_bytes());
    f.extend_from_slice(&7u64.to_le_bytes());
    f.extend_from_slice(b"Q");
    assert_eq!(
        apply_delta(b"abc", &f),
        Err(DeltaError::TargetLengthMismatch {
            side: MismatchSide::Target,
            declared: 7,
            reconstructed: 3
        })
    );
    assert_eq!(apply_delta_lenient(b"abc", &f), b"aQc".to_vec());
}

#[test]
fn binary_checksum_of_result_and_broken_frame() {
    let base = vec![0u8; 4096];
    let mut target = vec![0u8; 4096];
    target[7] = 9;
    let (_c, delta) = compute_delta(&base, &target);
    assert_eq!(delta[0], OP_BINARY_XOR);
    let mut bad_result = delta.clone();
    bad_result[30] ^= 1;
    assert_eq!(
        apply_delta(&base, &bad_result),
        Err(DeltaError::ChecksumMismatch { side: MismatchSide::Result })
    );
    assert_eq!(apply_delta_lenient(&base, &bad_result), Vec::<u8>::new());
    let mut broken = delta[..41].to_vec();
    broken.extend_from_slice(b"not a zstd frame");
    assert!(matches!(apply_delta(&base, &broken), Err(DeltaError::Decompression(_))));
    assert_eq!(apply_delta_lenient(&base, &broken), broken);
}

#[test]
fn binary_delta_layout() {
    let base = vec![1u8; 5000];
    let mut target = base.clone();
    target[10] = 0;
    let delta = compute_binary_delta(&base, &target).expect("similar inputs compress");
    assert_eq!(delta[0], OP_BINARY_XOR);
    assert_eq!(&delta[1..9], &5000u64.to_le_bytes());
    assert_eq!(&delta[9..25], &blake3::hash(&base).as_bytes()[..16]);
    assert_eq!(&delta[25..41], &blake3::hash(&target).as_bytes()[..16]);
    let frame = zstd::decode_all(&delta[41..]).expect("frame decodes");
    assert_eq!(frame.len(), 5000);
    assert_eq!(frame[10], 1);
    assert!(frame.iter().enumerate().all(|(i, &b)| (i == 10) == (b != 0)));
    assert_eq!(compute_binary_delta(&base, &[1, 2, 3]), None);
}

#[test]
fn assembling_a_binary_delta() {
    let bd = [1u8; 32];
    let td = [2u8; 32];
    assert_eq!(assemble_binary_delta(3, &bd, &td, &[9, 9, 9]), None);
    let d = assemble_binary_delta(4, &bd, &td, &[9, 9, 9]).expect("smaller frame");
    assert_eq!(d.len(), 44);
    assert_eq!(d[0], OP_BINARY_XOR);
    assert_eq!(&d[1..9], &4u64.to_le_bytes());
    assert_eq!(&d[9..25], &[1u8; 16]);
    assert_eq!(&d[25..41], &[2u8; 16]);
    assert_eq!(&d[41..], &[9, 9, 9]);
}

#[test]
fn rolling_delta_copies_blocks() {
    let base: Vec<u8> = (0..2 * 4096u32).map(|i| (i % 200 + 1) as u8).collect();
    let mut target = b"head".to_vec();
    target.extend_from_slice(&base[4096..]);
    let d = compute_rolling_delta(&base, &target).expect("one block matches");
    let mut expected = vec![OP_INSTRUCTIONS];
    expected.extend_from_slice(&(target.len() as u64).to_le_bytes());
    expected.extend_from_slice(&2u32.to_le_bytes());
    expected.push(INSTR_INSERT);
    expected.extend_from_slice(&4u32.to_le_bytes());
    expected.extend_from_slice(b"head");
    expected.push(INSTR_COPY);
    expected.extend_from_slice(&4096u64.to_le_bytes());
    expected.extend_from_slice(&4096u32.to_le_bytes());
    assert_eq!(d, expected);
    assert_eq!(compute_rolling_delta(&base[..100], &target), None);
    let unrelated: Vec<u8> = (0..5000u32).map(|i| (i % 7 + 1) as u8).collect();
    assert_eq!(compute_rolling_delta(&base, &unrelated), None);
}

#[test]
fn lenient_agrees_where_strict_succeeds() {
    let base = b"0123456789";
    let mut d = vec![OP_INSTRUCTIONS];
    d.extend_from_slice(&4u64.to_le_bytes());
    d.extend_from_slice(&2u32.to_le_bytes());
    d.push(INSTR_COPY);
    d.extend_from_slice(&8u64.to_le_bytes());
    d.extend_from_slice(&2u32.to_le_bytes());
    d.push(INSTR_INSERT);
    d.extend_from_slice(&2u32.to_le_bytes());
    d.extend_from_slice(b"ab");
    d.extend_from_slice(b"trailing bytes are ignored");
    let strict = apply_delta(base, &d).expect("well formed");
    assert_eq!(strict, b"89ab".to_vec());
    assert_eq!(apply_delta_lenient(base, &d), strict);
}

#[test]
fn xoring_twice_gives_the_stream_back() {
    let base = b"some base bytes";
    for target in [&b"short"[..], &b"a longer target than the base is"[..], &b""[..]] {
        assert_eq!(xor_streams(base, &xor_streams(base, target)), target.to_vec());
    }
}
