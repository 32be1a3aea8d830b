use delta_kit::format::{
    INSTR_COPY, INSTR_INSERT, OP_BINARY_XOR, OP_FULL, OP_INSTRUCTIONS, OP_PREFIX_SUFFIX,
};
use delta_kit::{
    apply_delta, apply_delta_lenient, compute_binary_delta, compute_delta, DeltaError,
    MismatchSide, BLOCK_SIZE,
};

#[test]
fn test_delta_roundtrip() {
    let base = b"Hello, World!";
    let target = b"Hello, Rust!";
    let (_base_copy, delta) = compute_delta(base, target);
    let result = apply_delta(base, &delta).expect("well-formed delta must apply");
    assert_eq!(result, target);
}

#[test]
fn test_delta_no_change() {
    let base = b"identical data here";
    let target = b"identical data here";
    let (_base_copy, delta) = compute_delta(base, target);
    assert!(delta.len() < target.len() + 25);
    let result = apply_delta(base, &delta).expect("well-formed delta must apply");
    assert_eq!(result, target);
}

#[test]
fn test_delta_completely_different() {
    let base = b"AAAA";
    let target = b"BBBB";
    let (_base_copy, delta) = compute_delta(base, target);
    let result = apply_delta(base, &delta).expect("well-formed delta must apply");
    assert_eq!(result, target);
}

#[test]
fn test_binary_delta_roundtrip() {
    // Zero bytes trip is_likely_binary -> XOR+Zstd (0x03) path.
    let base = vec![0u8; 8192];
    let mut target = vec![0u8; 8192];
    target[100] = 0xAB;
    let last = target.len() - 1;
    target[last] = 0xCD;

    let (_c, delta) = compute_delta(&base, &target);
    assert_eq!(delta[0], OP_BINARY_XOR, "binary inputs must use 0x03");
    let result = apply_delta(&base, &delta).expect("binary delta must apply");
    assert_eq!(result, target);
}

fn alphabet_base() -> Vec<u8> {
    (0..3 * BLOCK_SIZE).map(|i| b'A' + (i % 26) as u8).collect()
}

#[test]
fn test_rolling_delta_roundtrip_and_opcode() {
    // Text-like (zero-free) inputs, both >= BLOCK_SIZE -> 0x02 path.
    let base = alphabet_base();
    let mut target = base.clone();
    target.splice(100..110, b"XX".to_vec());

    let (_c, delta) = compute_delta(&base, &target);
    assert_eq!(delta[0], OP_INSTRUCTIONS, "large text inputs must use 0x02");
    assert!(delta.len() < target.len(), "rolling delta must shrink here");
    let result = apply_delta(&base, &delta).expect("rolling delta must apply");
    assert_eq!(result, target);
}

#[test]
fn test_prefix_suffix_opcode() {
    let base = b"Hello, World!".to_vec();
    let target = b"Hello, Rust!".to_vec();
    let (_c, delta) = compute_delta(&base, &target);
    assert_eq!(delta[0], OP_PREFIX_SUFFIX);
    assert_eq!(apply_delta(&base, &delta).expect("must apply"), target);
}

#[test]
fn test_full_opcode_fallback() {
    // Completely different, tiny, binary -> 0x00 full content.
    let base = vec![0u8; 4];
    let target = vec![1u8, 2, 3];
    let (_c, delta) = compute_delta(&base, &target);
    assert_eq!(delta[0], OP_FULL);
    assert_eq!(&delta[1..], &target[..]);
    assert_eq!(apply_delta(&base, &delta).expect("must apply"), target);
}

#[test]
fn test_apply_empty_delta_is_error() {
    assert_eq!(apply_delta(b"abc", &[]), Err(DeltaError::Empty));
}

#[test]
fn test_apply_unknown_opcode_is_error() {
    assert_eq!(
        apply_delta(b"abc", &[0x7F, 1, 2, 3]),
        Err(DeltaError::InvalidOpcode(0x7F))
    );
}

#[test]
fn test_apply_truncated_headers_are_errors() {
    // 0x01 needs 25 bytes.
    let short01 = vec![OP_PREFIX_SUFFIX; 10];
    assert!(matches!(
        apply_delta(b"abc", &short01),
        Err(DeltaError::Truncated {
            opcode: OP_PREFIX_SUFFIX,
            ..
        })
    ));

    // 0x02 needs 13 bytes.
    let short02 = vec![OP_INSTRUCTIONS; 8];
    assert!(matches!(
        apply_delta(b"abc", &short02),
        Err(DeltaError::Truncated {
            opcode: OP_INSTRUCTIONS,
            ..
        })
    ));
}

#[test]
fn test_apply_truncated_binary_header_is_error() {
    // 0x03 needs 41 bytes.
    let short03 = vec![OP_BINARY_XOR; 20];
    assert!(matches!(
        apply_delta(b"abc", &short03),
        Err(DeltaError::Truncated {
            opcode: OP_BINARY_XOR,
            ..
        })
    ));
}

#[test]
fn test_apply_copy_out_of_range_is_error() {
    let mut d = vec![OP_INSTRUCTIONS];
    d.extend_from_slice(&5u64.to_le_bytes()); // target_len
    d.extend_from_slice(&1u32.to_le_bytes()); // one instruction
    d.push(INSTR_COPY);
    d.extend_from_slice(&1_000u64.to_le_bytes()); // base_offset beyond base
    d.extend_from_slice(&2u32.to_le_bytes()); // length
    assert!(matches!(
        apply_delta(b"abc", &d),
        Err(DeltaError::CopyOutOfRange { .. })
    ));
}

#[test]
fn test_apply_insert_past_end_is_error() {
    let mut d = vec![OP_INSTRUCTIONS];
    d.extend_from_slice(&8u64.to_le_bytes()); // target_len
    d.extend_from_slice(&1u32.to_le_bytes()); // one instruction
    d.push(INSTR_INSERT);
    d.extend_from_slice(&100u32.to_le_bytes()); // claims 100 bytes, provides 0
    assert!(matches!(
        apply_delta(b"abc", &d),
        Err(DeltaError::InsertOutOfRange { .. })
    ));
}

#[test]
fn test_apply_unknown_instruction_is_error() {
    let mut d = vec![OP_INSTRUCTIONS];
    d.extend_from_slice(&1u64.to_le_bytes());
    d.extend_from_slice(&1u32.to_le_bytes());
    d.push(0x42); // not Copy/Insert
    assert_eq!(
        apply_delta(b"abc", &d),
        Err(DeltaError::InvalidInstruction(0x42))
    );
}

#[test]
fn test_apply_target_length_mismatch_is_error() {
    let mut d = vec![OP_INSTRUCTIONS];
    d.extend_from_slice(&9u64.to_le_bytes()); // claims 9...
    d.extend_from_slice(&0u32.to_le_bytes()); // ...but zero instructions
    assert!(matches!(
        apply_delta(b"abc", &d),
        Err(DeltaError::TargetLengthMismatch { .. })
    ));
}

#[test]
fn test_apply_binary_checksum_mismatch_is_error() {
    // Craft a valid-looking 0x03 whose base checksum won't match.
    let mut d = vec![OP_BINARY_XOR];
    d.extend_from_slice(&4u64.to_le_bytes()); // target_len
    d.extend_from_slice(&[0u8; 16]); // wrong base checksum
    d.extend_from_slice(&[0u8; 16]); // target checksum (unreached)
    let frame = zstd::encode_all(b"abcd".as_slice(), 3).expect("zstd compresses");
    d.extend_from_slice(&frame);
    assert!(matches!(
        apply_delta(b"zzzz", &d),
        Err(DeltaError::ChecksumMismatch {
            side: MismatchSide::Base
        })
    ));
}

#[test]
fn test_binary_delta_tamper_is_error() {
    let base = vec![0u8; 4096];
    let target = vec![7u8; 4096];
    let (_c, mut delta) = compute_delta(&base, &target);
    assert_eq!(delta[0], OP_BINARY_XOR);
    // Flip a byte in the compressed payload.
    let last = delta.len() - 1;
    delta[last] ^= 0xFF;
    assert!(apply_delta(&base, &delta).is_err());
}

#[test]
fn test_empty_target() {
    let (_c, delta) = compute_delta(b"base", b"");
    assert_eq!(delta, vec![OP_FULL]);
    assert_eq!(apply_delta(b"base", &delta).expect("must apply"), Vec::<u8>::new());
}

#[test]
fn test_identical_empty() {
    let (_c, delta) = compute_delta(b"", b"");
    // Empty target: changed (0) < target (0) is false -> full.
    assert_eq!(delta, vec![OP_FULL]);
}

#[test]
fn test_lenient_empty_delta_returns_empty() {
    assert_eq!(apply_delta_lenient(b"abc", &[]), Vec::<u8>::new());
}

#[test]
fn test_lenient_unknown_opcode_echoes_delta() {
    assert_eq!(
        apply_delta_lenient(b"abc", &[0x7F, 1, 2, 3]),
        vec![0x7F, 1, 2, 3]
    );
}

#[test]
fn test_lenient_truncated_prefix_suffix_echoes_delta() {
    let short01 = vec![OP_PREFIX_SUFFIX; 10];
    assert_eq!(apply_delta_lenient(b"abc", &short01), short01);
}

#[test]
fn test_lenient_skips_out_of_range_copy() {
    let mut d = vec![OP_INSTRUCTIONS];
    d.extend_from_slice(&5u64.to_le_bytes()); // target_len
    d.extend_from_slice(&1u32.to_le_bytes()); // one instruction
    d.push(INSTR_COPY);
    d.extend_from_slice(&1_000u64.to_le_bytes()); // beyond base
    d.extend_from_slice(&2u32.to_le_bytes());
    assert_eq!(apply_delta_lenient(b"abc", &d), Vec::<u8>::new());
}

#[test]
fn test_lenient_skips_insert_past_end() {
    let mut d = vec![OP_INSTRUCTIONS];
    d.extend_from_slice(&8u64.to_le_bytes());
    d.extend_from_slice(&1u32.to_le_bytes());
    d.push(INSTR_INSERT);
    d.extend_from_slice(&100u32.to_le_bytes()); // claims 100, provides 0
    assert_eq!(apply_delta_lenient(b"abc", &d), Vec::<u8>::new());
}

#[test]
fn test_lenient_returns_partial_on_unknown_instruction() {
    let mut d = vec![OP_INSTRUCTIONS];
    d.extend_from_slice(&4u64.to_le_bytes()); // target_len
    d.extend_from_slice(&2u32.to_le_bytes()); // two instructions
    d.push(INSTR_COPY);
    d.extend_from_slice(&0u64.to_le_bytes());
    d.extend_from_slice(&4u32.to_le_bytes()); // copies "abcd"
    d.push(0x42); // unknown: stop, keep partial result
    assert_eq!(apply_delta_lenient(b"abcd", &d), b"abcd".to_vec());
}

#[test]
fn test_lenient_checksum_mismatch_returns_empty() {
    let base = vec![0u8; 4096];
    let mut target = vec![0u8; 4096];
    target[100] = 0xAB;
    let (_c, mut delta) = compute_delta(&base, &target);
    assert_eq!(delta[0], OP_BINARY_XOR);
    delta[9] ^= 0xFF; // corrupt the base checksum
    assert_eq!(apply_delta_lenient(&base, &delta), Vec::<u8>::new());
}

#[test]
fn test_lenient_agrees_with_strict_on_computed_deltas() {
    let cases: Vec<(Vec<u8>, Vec<u8>)> = vec![
        (b"Hello, World!".to_vec(), b"Hello, Rust!".to_vec()),
        (b"keep me".to_vec(), b"keep me too".to_vec()),
        (vec![0u8; 4], vec![1, 2, 3]),
        (alphabet_base(), {
            let mut t = alphabet_base();
            t.splice(100..110, b"XX".to_vec());
            t
        }),
    ];
    for (base, target) in &cases {
        let (_c, delta) = compute_delta(base, target);
        assert_eq!(
            apply_delta_lenient(base, &delta),
            apply_delta(base, &delta).expect("computed delta must apply"),
            "lenient and strict must agree on compute_delta output"
        );
    }
}

#[test]
fn test_lenient_binary_roundtrip() {
    let base = vec![0u8; 8192];
    let mut target = vec![0u8; 8192];
    target[100] = 0xAB;
    let last = target.len() - 1;
    target[last] = 0xCD;
    let (_c, delta) = compute_delta(&base, &target);
    assert_eq!(delta[0], OP_BINARY_XOR);
    assert_eq!(apply_delta_lenient(&base, &delta), target);
    assert_eq!(apply_delta(&base, &delta).expect("must apply"), target);
}

#[test]
fn test_compute_binary_delta_public_surface() {
    let data: Vec<u8> = (0..8192).map(|i| (i % 251) as u8).collect();
    let delta = compute_binary_delta(&data, &data).expect("identical inputs compress");
    assert_eq!(delta[0], OP_BINARY_XOR);
    assert!(delta.len() < 100, "identical inputs must compress tiny");
    assert_eq!(apply_delta_lenient(&data, &delta), data);
}
