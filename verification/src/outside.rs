//! Calls into the hashing and compression crates.

use lz4_flex::frame::FrameEncoder;
use std::io::Write;
use vstd::prelude::*;

verus! {

/// The 64-bit XXH3 hash of `data`, with the default secret and seed zero.
pub uninterp spec fn xxh3_of(data: Seq<u8>) -> u64;

/// What `lz4_flex::frame::FrameDecoder` reads out of `frame` up to its end, or `None` where it
/// reports an error.
pub uninterp spec fn lz4_frame_content(frame: Seq<u8>) -> Option<Seq<u8>>;

/// Which step of the compression failed, with the text of the failure.
#[derive(Debug, PartialEq, Eq)]
pub enum Lz4Failure {
    /// Feeding the bytes to the encoder failed.
    Write(String),
    /// Closing the frame failed.
    Finish(String),
}

/// Calls `xxhash_rust::xxh3::xxh3_64`. The contract claims that the hash is a function of the
/// bytes alone, and names it.
#[verifier::external_body]
pub(crate) fn block_hash(block: &[u8]) -> (hash: u64)
    ensures
        hash == xxh3_of(block@),
{
    xxhash_rust::xxh3::xxh3_64(block)
}

/// Writes `raw` through `lz4_flex::frame::FrameEncoder` into a vector and finishes the frame.
/// The contract claims that this succeeds and that the frame decodes to `raw`: the encoder's buffer
/// is sized for the worst case, no content size is promised that could be missed, and writing to a
/// vector does not fail. Which frame comes out depends on the machine's word size and byte order,
/// so its bytes stay open.
#[verifier::external_body]
pub(crate) fn lz4_frame(raw: &[u8]) -> (frame: Result<Vec<u8>, Lz4Failure>)
    ensures
        frame is Ok,
        lz4_frame_content(frame->Ok_0@) == Some(raw@),
{
    let mut encoder = FrameEncoder::new(Vec::new());
    match encoder.write_all(raw) {
        Ok(()) => match encoder.finish() {
            Ok(frame) => Ok(frame),
            Err(e) => Err(Lz4Failure::Finish(format!("{e}"))),
        },
        Err(e) => Err(Lz4Failure::Write(format!("{e}"))),
    }
}

} // verus!
