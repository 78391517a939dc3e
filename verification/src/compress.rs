//! Trusted boundaries to the compression and encoding crates. Each result
//! is a function of the input alone, named by an uninterpreted spec
//! function; the logic around the calls is verified against those names.

use std::io::Read;
use vstd::prelude::*;

verus! {

/// The zstd decompression of a byte stream, or `None` when the stream is
/// not a valid zstd frame sequence. Names the result of
/// `zstd::stream::decode_all`.
pub uninterp spec fn zstd_inflate_of(b: Seq<u8>) -> Option<Seq<u8>>;

/// Relies on `zstd::stream::decode_all`: it decompresses a complete zstd
/// stream and fails on malformed input; the result depends on the bytes
/// alone.
#[verifier::external_body]
pub fn zstd_decompress(b: &Vec<u8>) -> (r: Option<Vec<u8>>)
    ensures
        match r {
            Some(d) => zstd_inflate_of(b@) == Some(d@),
            None => zstd_inflate_of(b@) is None,
        },
{
    zstd::stream::decode_all(b.as_slice()).ok()
}

/// The zlib decompression of a byte stream, or `None` when the stream is
/// malformed. Names the result of reading `flate2::read::ZlibDecoder` to
/// its end.
pub uninterp spec fn zlib_inflate_of(b: Seq<u8>) -> Option<Seq<u8>>;

/// Relies on `flate2::read::ZlibDecoder`: reading it to the end inflates a
/// complete zlib stream and fails on malformed input; the result depends
/// on the bytes alone.
#[verifier::external_body]
pub fn zlib_decompress(b: &Vec<u8>) -> (r: Option<Vec<u8>>)
    ensures
        match r {
            Some(d) => zlib_inflate_of(b@) == Some(d@),
            None => zlib_inflate_of(b@) is None,
        },
{
    let mut decoder = flate2::read::ZlibDecoder::new(b.as_slice());
    let mut out = Vec::new();
    match decoder.read_to_end(&mut out) {
        Ok(_) => Some(out),
        Err(_) => None,
    }
}

/// The base64 decoding of a byte string, or `None` when it is not valid
/// base64. Names the result of `base64::decode`.
pub uninterp spec fn base64_decode_of(b: Seq<u8>) -> Option<Seq<u8>>;

/// Relies on `base64::decode`: it decodes standard base64 and fails on
/// anything else; the result depends on the input alone.
#[verifier::external_body]
pub fn base64_decode(b: &Vec<u8>) -> (r: Option<Vec<u8>>)
    ensures
        match r {
            Some(d) => base64_decode_of(b@) == Some(d@),
            None => base64_decode_of(b@) is None,
        },
{
    base64::decode(b.as_slice()).ok()
}

} // verus!
