//! The compressor: zstd at a fixed, moderate level. A compressed archive is one
//! self-describing zstd frame.

use vstd::prelude::*;
use crate::error::PakError;

verus! {

/// The level at which archives are compressed: fast rather than small.
pub const COMPRESSION_LEVEL: i32 = 3;

/// What zstd's encoder makes of `data` at `level`: one frame, or `None` where
/// the encoder refuses.
pub uninterp spec fn zstd_frame(data: Seq<u8>, level: i32) -> Option<Seq<u8>>;

/// What zstd's decoder makes of `frame`: the data that it holds, or `None` where
/// the decoder refuses it.
pub uninterp spec fn zstd_content(frame: Seq<u8>) -> Option<Seq<u8>>;

/// The error of the codec's byte streams.
#[verifier::external_type_specification]
#[verifier::external_body]
pub struct ExIoError(std::io::Error);

/// Calls `zstd::encode_all` on `data`. Whether it succeeds, and with what
/// frame, depends on the data and the level alone; a frame that it hands out is
/// one that `zstd::decode_all` turns back into the data.
#[verifier::external_body]
fn zstd_encode(data: &[u8], level: i32) -> (r: Result<Vec<u8>, std::io::Error>)
    ensures
        r matches Ok(frame) ==> zstd_frame(data@, level) == Some(frame@),
        r is Err ==> zstd_frame(data@, level) is None,
        r matches Ok(frame) ==> zstd_content(frame@) == Some(data@),
{
    zstd::encode_all(data, level)
}

/// Calls `zstd::decode_all` on `frame`. Whether it succeeds, and with what,
/// depends on the bytes of the frame alone.
#[verifier::external_body]
fn zstd_decode(frame: &[u8]) -> (r: Result<Vec<u8>, std::io::Error>)
    ensures
        r matches Ok(data) ==> zstd_content(frame@) == Some(data@),
        r is Err ==> zstd_content(frame@) is None,
{
    zstd::decode_all(frame)
}

/// Compresses `data` into one zstd frame at `COMPRESSION_LEVEL`, from which
/// `decompress` restores the data. Fails with `CompressionError` exactly where
/// the encoder refuses the data.
pub fn compress(data: &[u8]) -> (r: Result<Vec<u8>, PakError>)
    ensures
        match r {
            Ok(frame) => zstd_frame(data@, COMPRESSION_LEVEL) == Some(frame@) && zstd_content(
                frame@,
            ) == Some(data@),
            Err(e) => e == PakError::CompressionError && zstd_frame(data@, COMPRESSION_LEVEL)
                is None,
        },
{
    match zstd_encode(data, COMPRESSION_LEVEL) {
        Ok(frame) => Ok(frame),
        Err(_) => Err(PakError::CompressionError),
    }
}

/// Restores the data of a zstd frame. Fails with `CompressionError` exactly
/// where the decoder refuses the frame.
pub fn decompress(frame: &[u8]) -> (r: Result<Vec<u8>, PakError>)
    ensures
        match r {
            Ok(data) => zstd_content(frame@) == Some(data@),
            Err(e) => e == PakError::CompressionError && zstd_content(frame@) is None,
        },
{
    match zstd_decode(frame) {
        Ok(data) => Ok(data),
        Err(_) => Err(PakError::CompressionError),
    }
}

} // verus!
