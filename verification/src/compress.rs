use std::io::Read;
use std::io::Write;
use vstd::prelude::*;

verus! {

/// The zlib stream that flate2 produces for `data` at compression `level`.
pub uninterp spec fn zlib_compressed(data: Seq<u8>, level: u32) -> Seq<u8>;

/// What inflating the zlib stream `data` yields, or `None` when flate2
/// rejects it.
pub uninterp spec fn zlib_inflated(data: Seq<u8>) -> Option<Seq<u8>>;

/// The gzip member that flate2 produces for `data` at compression `level`.
pub uninterp spec fn gzip_compressed(data: Seq<u8>, level: u32) -> Seq<u8>;

/// What decoding the gzip stream `data` yields, or `None` when flate2
/// rejects it.
pub uninterp spec fn gzip_inflated(data: Seq<u8>) -> Option<Seq<u8>>;

/// What inflating the raw deflate stream `data` yields, or `None` when
/// flate2 rejects it.
pub uninterp spec fn deflate_inflated(data: Seq<u8>) -> Option<Seq<u8>>;

/// Compresses with `flate2::write::ZlibEncoder` at `level` into a vector.
/// Claimed: the output is a function of the input and level, inflating it
/// gives the input back (zlib is lossless), and it holds at least the
/// stream's 2-byte header and 4-byte checksum. Writing into a `Vec` does
/// not fail.
#[verifier::external_body]
pub(crate) fn zlib_compress(data: &[u8], level: u32) -> (r: Vec<u8>)
    requires
        level <= 9,
    ensures
        r@ == zlib_compressed(data@, level),
        zlib_inflated(r@) == Some(data@),
        r@.len() >= 6,
{
    let mut encoder = flate2::write::ZlibEncoder::new(Vec::new(), flate2::Compression::new(level));
    encoder.write_all(data).unwrap();
    encoder.finish().unwrap()
}

/// Inflates a zlib stream with `flate2::read::ZlibDecoder`, reading to the
/// end. Claimed: success and output are a function of the input.
#[verifier::external_body]
pub(crate) fn zlib_decompress(data: &[u8]) -> (r: Result<Vec<u8>, String>)
    ensures
        r matches Ok(v) ==> zlib_inflated(data@) == Some(v@),
        r is Err ==> zlib_inflated(data@) is None,
{
    let mut decoder = flate2::read::ZlibDecoder::new(data);
    let mut buf = Vec::new();
    match decoder.read_to_end(&mut buf) {
        Ok(_) => Ok(buf),
        Err(e) => Err(format!("zlib decompress failed: {}", e)),
    }
}

/// Compresses with `flate2::write::GzEncoder` at `level`. Claimed: the
/// output is a function of the input and level, and decoding it gives the
/// input back.
#[verifier::external_body]
pub(crate) fn gzip_compress(data: &[u8], level: u32) -> (r: Vec<u8>)
    requires
        level <= 9,
    ensures
        r@ == gzip_compressed(data@, level),
        gzip_inflated(r@) == Some(data@),
{
    let mut encoder = flate2::write::GzEncoder::new(Vec::new(), flate2::Compression::new(level));
    encoder.write_all(data).unwrap();
    encoder.finish().unwrap()
}

/// Decodes a gzip stream with `flate2::read::GzDecoder`, reading to the
/// end. Claimed: success and output are a function of the input.
#[verifier::external_body]
pub(crate) fn gzip_decompress(data: &[u8]) -> (r: Result<Vec<u8>, String>)
    ensures
        r matches Ok(v) ==> gzip_inflated(data@) == Some(v@),
        r is Err ==> gzip_inflated(data@) is None,
{
    let mut decoder = flate2::read::GzDecoder::new(data);
    let mut buf = Vec::new();
    match decoder.read_to_end(&mut buf) {
        Ok(_) => Ok(buf),
        Err(e) => Err(format!("gzip decompress failed: {}", e)),
    }
}

/// Inflates a raw deflate stream with `flate2::read::DeflateDecoder`,
/// reading to the end. Claimed: success and output are a function of the
/// input.
#[verifier::external_body]
pub(crate) fn deflate_decompress(data: &[u8]) -> (r: Result<Vec<u8>, String>)
    ensures
        r matches Ok(v) ==> deflate_inflated(data@) == Some(v@),
        r is Err ==> deflate_inflated(data@) is None,
{
    let mut decoder = flate2::read::DeflateDecoder::new(data);
    let mut buf = Vec::new();
    match decoder.read_to_end(&mut buf) {
        Ok(_) => Ok(buf),
        Err(e) => Err(format!("deflate decompress failed: {}", e)),
    }
}

} // verus!
