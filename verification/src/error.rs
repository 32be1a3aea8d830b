//! Errors reported while applying a delta.
use vstd::prelude::*;

verus! {

/// Which declared value or checksum failed to verify while applying a delta.
#[derive(Debug, Clone, Copy, PartialEq, Eq)]
pub enum MismatchSide {
    /// The declared target length did not match the reconstruction.
    Target,
    /// The base checksum did not match.
    Base,
    /// The reconstructed target checksum did not match.
    Result,
}

impl MismatchSide {
    /// The lower-case name of the side, as error messages print it.
    pub fn as_str(&self) -> (r: &'static str)
        ensures
            r@ == side_name(*self),
    {
        match self {
            MismatchSide::Target => "target",
            MismatchSide::Base => "base",
            MismatchSide::Result => "result",
        }
    }
}

/// The printed name of each side.
pub open spec fn side_name(side: MismatchSide) -> Seq<char> {
    match side {
        MismatchSide::Target => "target"@,
        MismatchSide::Base => "base"@,
        MismatchSide::Result => "result"@,
    }
}

/// Errors produced while applying a delta.
///
/// `compute_delta` is total and cannot fail; only `apply_delta` validates.
#[derive(Debug, Clone, PartialEq, Eq)]
pub enum DeltaError {
    /// The delta was empty (no opcode byte).
    Empty,
    /// The top-level opcode is not one of `0x00..=0x03`.
    InvalidOpcode(u8),
    /// A header or record ended before the format requires.
    Truncated {
        /// The encoding opcode being decoded.
        opcode: u8,
        /// Minimum bytes the format requires at this point.
        needed: usize,
        /// Bytes actually available.
        got: usize,
    },
    /// An instruction byte inside a `0x02` stream is not `0x01`/`0x02`.
    InvalidInstruction(u8),
    /// A `Copy` instruction referenced bytes outside the base.
    CopyOutOfRange {
        /// Declared start offset into the base.
        base_offset: u64,
        /// Declared copy length.
        length: u32,
        /// Actual base length.
        base_len: usize,
    },
    /// An `Insert` instruction declared more data than the delta holds.
    InsertOutOfRange {
        /// Declared insert length.
        declared: u32,
        /// Bytes remaining in the delta.
        remaining: usize,
    },
    /// The reconstructed output did not match the declared target length.
    TargetLengthMismatch {
        /// Which declared length was contradicted.
        side: MismatchSide,
        /// The length declared in the delta.
        declared: usize,
        /// The length actually reconstructed.
        reconstructed: usize,
    },
    /// A `blake3` prefix checksum of a `0x03` binary delta did not match.
    ChecksumMismatch {
        /// Which half failed (base or reconstructed target).
        side: MismatchSide,
    },
    /// The embedded Zstd frame failed to decompress.
    Decompression(String),
    /// A `0x03` binary delta cannot be decoded by a build without Zstd
    /// support. This build always has it, so the variant never occurs.
    ZstdDisabled,
}

/// [`DeltaError`] as a value of the specification: the decompression
/// message is held as its characters.
pub enum DeltaErrorView {
    /// See [`DeltaError::Empty`].
    Empty,
    /// See [`DeltaError::InvalidOpcode`].
    InvalidOpcode(u8),
    /// See [`DeltaError::Truncated`].
    Truncated { opcode: u8, needed: usize, got: usize },
    /// See [`DeltaError::InvalidInstruction`].
    InvalidInstruction(u8),
    /// See [`DeltaError::CopyOutOfRange`].
    CopyOutOfRange { base_offset: u64, length: u32, base_len: usize },
    /// See [`DeltaError::InsertOutOfRange`].
    InsertOutOfRange { declared: u32, remaining: usize },
    /// See [`DeltaError::TargetLengthMismatch`].
    TargetLengthMismatch { side: MismatchSide, declared: usize, reconstructed: usize },
    /// See [`DeltaError::ChecksumMismatch`].
    ChecksumMismatch { side: MismatchSide },
    /// See [`DeltaError::Decompression`].
    Decompression(Seq<char>),
    /// See [`DeltaError::ZstdDisabled`].
    ZstdDisabled,
}

impl View for DeltaError {
    type V = DeltaErrorView;

    open spec fn view(&self) -> DeltaErrorView {
        match self {
            DeltaError::Empty => DeltaErrorView::Empty,
            DeltaError::InvalidOpcode(op) => DeltaErrorView::InvalidOpcode(*op),
            DeltaError::Truncated { opcode, needed, got } => DeltaErrorView::Truncated {
                opcode: *opcode,
                needed: *needed,
                got: *got,
            },
            DeltaError::InvalidInstruction(op) => DeltaErrorView::InvalidInstruction(*op),
            DeltaError::CopyOutOfRange { base_offset, length, base_len } =>
                DeltaErrorView::CopyOutOfRange {
                base_offset: *base_offset,
                length: *length,
                base_len: *base_len,
            },
            DeltaError::InsertOutOfRange { declared, remaining } =>
                DeltaErrorView::InsertOutOfRange { declared: *declared, remaining: *remaining },
            DeltaError::TargetLengthMismatch { side, declared, reconstructed } =>
                DeltaErrorView::TargetLengthMismatch {
                side: *side,
                declared: *declared,
                reconstructed: *reconstructed,
            },
            DeltaError::ChecksumMismatch { side } => DeltaErrorView::ChecksumMismatch {
                side: *side,
            },
            DeltaError::Decompression(msg) => DeltaErrorView::Decompression(msg@),
            DeltaError::ZstdDisabled => DeltaErrorView::ZstdDisabled,
        }
    }
}

/// The declared length as a `usize`, saturating where it does not fit.
pub open spec fn declared_as_usize(declared: u64) -> usize {
    if declared <= usize::MAX {
        declared as usize
    } else {
        usize::MAX
    }
}

/// A length-mismatch error; a declared length beyond `usize` saturates.
pub fn length_mismatch(side: MismatchSide, declared: u64, reconstructed: usize) -> (e: DeltaError)
    ensures
        e@ == (DeltaErrorView::TargetLengthMismatch {
            side,
            declared: declared_as_usize(declared),
            reconstructed,
        }),
{
    let declared_usize: usize = if declared <= usize::MAX as u64 {
        declared as usize
    } else {
        usize::MAX
    };
    DeltaError::TargetLengthMismatch { side, declared: declared_usize, reconstructed }
}

} // verus!
