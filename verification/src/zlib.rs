//! Zlib streams: one call to deflate a chunk, one to inflate it.

use vstd::prelude::*;
use flate2::Compression;
use flate2::read::ZlibDecoder;
use flate2::write::ZlibEncoder;

verus! {

/// The highest compression level that the encoder documents.
pub const MAX_LEVEL: u32 = 9;

/// The zlib stream that the encoder makes of `data` at `level`, or nothing
/// where it reports a failure.
pub uninterp spec fn spec_deflated(data: Seq<u8>, level: u32) -> Option<Seq<u8>>;

/// The bytes that the decoder makes of the zlib stream `stream`, or nothing
/// where it reports that the stream is broken or incomplete.
pub uninterp spec fn spec_inflated(stream: Seq<u8>) -> Option<Seq<u8>>;

/// `flate2::write::ZlibEncoder` over a `Vec`: `new` at `Compression::new(level)`,
/// `write_all` of `data`, then `finish`. The contract names the stream that
/// comes out and says that it is one that the decoder turns back into `data`.
/// Levels above nine are kept out: the encoder asserts on them.
#[verifier::external_body]
pub(crate) fn deflate(data: &[u8], level: u32) -> (r: Option<Vec<u8>>)
    requires
        level <= MAX_LEVEL,
    ensures
        match r {
            Some(stream) => spec_deflated(data@, level) == Some(stream@) && spec_inflated(
                stream@,
            ) == Some(data@),
            None => spec_deflated(data@, level).is_none(),
        },
{
    let mut encoder = ZlibEncoder::new(Vec::new(), Compression::new(level));
    match std::io::Write::write_all(&mut encoder, data) {
        Ok(()) => encoder.finish().ok(),
        Err(_) => None,
    }
}

/// `flate2::read::ZlibDecoder` over a slice, read to its end. The contract
/// names what comes out.
#[verifier::external_body]
pub(crate) fn inflate(stream: &[u8]) -> (r: Option<Vec<u8>>)
    ensures
        match r {
            Some(data) => spec_inflated(stream@) == Some(data@),
            None => spec_inflated(stream@).is_none(),
        },
{
    let mut data: Vec<u8> = Vec::new();
    match std::io::Read::read_to_end(&mut ZlibDecoder::new(stream), &mut data) {
        Ok(_) => Some(data),
        Err(_) => None,
    }
}

} // verus!
