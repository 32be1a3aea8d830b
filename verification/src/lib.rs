//! A binary-safe delta codec: `compute_delta` produces a compact delta
//! between a base and a target byte string, and `apply_delta` rebuilds the
//! target from the base and the delta.
//!
//! The wire format (all integers little-endian, first byte selects the
//! encoding):
//!
//! ```text
//! 0x00 full content : [1..] target
//! 0x01 prefix/suffix: [1..9) u64 prefix_len, [9..17) u64 suffix_len,
//!                     [17..25) u64 target_len, [25..] changed middle bytes
//! 0x02 instructions : [1..9) u64 target_len, [9..13) u32 count,
//!                     records: 0x01 + u64 base_offset + u32 len  (Copy)
//!                              0x02 + u32 len + bytes            (Insert)
//! 0x03 binary XOR   : [1..9) u64 target_len, [9..25) blake3(base)[..16],
//!                     [25..41) blake3(target)[..16], [41..] zstd(xor)
//! ```
pub mod bytes;
pub mod hashing;
pub mod error;
pub mod digest;
pub mod compress;
mod index;
pub mod format;
pub mod apply;
pub mod rolling;
pub mod compute;
pub mod laws;

pub use apply::{apply_delta, apply_delta_lenient};
pub use compute::{compute_binary_delta, compute_delta};
pub use error::{DeltaError, MismatchSide};
pub use format::BLOCK_SIZE;
