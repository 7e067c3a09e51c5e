//! The two calls into the zlib implementation. Nothing here is proved: the contracts say
//! what the compressor and the decompressor are relied on for.

use std::io::Read;
use vstd::prelude::*;

verus! {

/// What the compressor makes of `data` at compression level `level`: the zlib stream, or
/// `None` where it reports a failure.
pub uninterp spec fn zlib_deflated(data: Seq<u8>, level: u32) -> Option<Seq<u8>>;

/// What the decompressor makes of the zlib stream at the front of `data` when it is read up
/// to `limit` bytes: the bytes that come out, or `None` where it reports a failure.
pub uninterp spec fn zlib_inflated(data: Seq<u8>, limit: u64) -> Option<Seq<u8>>;

/// Compresses `data` with `flate2::bufread::ZlibEncoder`, read to its end.
///
/// Relied on: the outcome depends on `data` and `level` alone, and a stream that comes out
/// decompresses to `data` again when it is read up to one byte more than `data` has.
#[verifier::external_body]
pub(crate) fn deflate(data: &[u8], level: u32) -> (out: Option<Vec<u8>>)
    requires
        level <= 9,
    ensures
        match out {
            Some(stream) => zlib_deflated(data@, level) == Some(stream@),
            None => zlib_deflated(data@, level) is None,
        },
        out matches Some(stream) ==> zlib_inflated(stream@, (data@.len() + 1) as u64) == Some(
            data@,
        ),
{
    let mut stream = Vec::new();
    let mut encoder = flate2::bufread::ZlibEncoder::new(data, flate2::Compression::new(level));
    match encoder.read_to_end(&mut stream) {
        Ok(_) => Some(stream),
        Err(_) => None,
    }
}

/// Decompresses the zlib stream at the front of `data` with `flate2::bufread::ZlibDecoder`,
/// read to its end through `std::io::Read::take`, which stops after `limit` bytes.
///
/// Relied on: the outcome depends on `data` and `limit` alone.
#[verifier::external_body]
pub(crate) fn inflate(data: &[u8], limit: u64) -> (out: Option<Vec<u8>>)
    ensures
        match out {
            Some(bytes) => zlib_inflated(data@, limit) == Some(bytes@),
            None => zlib_inflated(data@, limit) is None,
        },
{
    let mut bytes = Vec::new();
    let mut decoder = flate2::bufread::ZlibDecoder::new(data).take(limit);
    match decoder.read_to_end(&mut bytes) {
        Ok(_) => Some(bytes),
        Err(_) => None,
    }
}

} // verus!
