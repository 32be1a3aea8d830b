//! The Zstd frame of the binary strategy, produced and read by the `zstd` crate.
use vstd::prelude::*;

verus! {

/// The frame that `zstd::encode_all` produces for `data` at `level`.
pub uninterp spec fn zstd_frame(data: Seq<u8>, level: i32) -> Seq<u8>;

/// What `zstd::decode_all` gives for `frame`: the decompressed bytes, or
/// the text of its error.
pub uninterp spec fn zstd_decoded(frame: Seq<u8>) -> Result<Seq<u8>, Seq<char>>;

/// A successful decompression to `data`.
pub open spec fn decoded_to(data: Seq<u8>) -> Result<Seq<u8>, Seq<char>> {
    Ok(data)
}

/// A failed decompression with the error text `msg`.
pub open spec fn decode_failure(msg: Seq<char>) -> Result<Seq<u8>, Seq<char>> {
    Err(msg)
}

/// Calls `zstd::encode_all(data, level)`.
///
/// Claimed of the outside function: when it succeeds, its output is the
/// named frame `zstd_frame(data, level)`, and that frame decompresses to
/// `data` (the crate documents its output as a Zstd frame of the input).
/// At a level zstd defines (1 to 22) it succeeds: the source reads from a
/// slice into a `Vec`, which fail on no input, and sets the level and an
/// empty dictionary, which succeed at such a level. Running out of memory
/// is not modelled, as for every allocation.
#[verifier::external_body]
pub(crate) fn zstd_encode(data: &[u8], level: i32) -> (r: Option<Vec<u8>>)
    ensures
        r matches Some(frame) ==> frame@ == zstd_frame(data@, level) && zstd_decoded(frame@)
            == decoded_to(data@),
        1 <= level <= 22 ==> r is Some,
{
    zstd::encode_all(data, level).ok()
}

/// Calls `zstd::decode_all(frame)`, turning its error into the error's text.
///
/// Claimed of the outside function: its outcome depends on `frame` alone
/// (it is the named value `zstd_decoded(frame)`).
#[verifier::external_body]
pub(crate) fn zstd_decode(frame: &[u8]) -> (r: Result<Vec<u8>, String>)
    ensures
        match r {
            Ok(data) => zstd_decoded(frame@) == decoded_to(data@),
            Err(msg) => zstd_decoded(frame@) == decode_failure(msg@),
        },
{
    match zstd::decode_all(frame) {
        Ok(data) => Ok(data),
        Err(e) => Err(e.to_string()),
    }
}

} // verus!
