//! The game's compression format: gzip behind a 4-byte little-endian
//! uncompressed-length prefix (`VRage.MyCompression`).
use crate::bits::{bits_of_uint, bytes_of_bits, BitWriter};
use std::io::{Read, Write};
use vstd::prelude::*;

verus! {

/// The gzip stream that `flate2`'s `GzEncoder` writes for some bytes at
/// the default compression level.
pub uninterp spec fn gzip_encoded(data: Seq<u8>) -> Seq<u8>;

/// What `flate2`'s `GzDecoder` reads from some bytes: the decompressed
/// bytes, or `None` where it reports an error.
pub uninterp spec fn gzip_decoded(data: Seq<u8>) -> Option<Seq<u8>>;

/// Compresses with `flate2::write::GzEncoder` at `Compression::default()`
/// into a vector. The result is a function of the bytes, named
/// `gzip_encoded`; and, gzip being lossless, `GzDecoder` reads the bytes
/// back from it. Writing to a vector does not fail.
#[verifier::external_body]
fn gzip(data: &[u8]) -> (r: Vec<u8>)
    ensures
        r@ == gzip_encoded(data@),
        gzip_decoded(r@) == Some(data@),
{
    let mut out = Vec::new();
    let mut encoder = flate2::write::GzEncoder::new(&mut out, flate2::Compression::default());
    encoder.write_all(data).expect("writing to a vector does not fail");
    encoder.finish().expect("writing to a vector does not fail");
    out
}

/// Decompresses with `flate2::read::GzDecoder` to the end of the input:
/// the bytes read, or `None` where it reports an error. The result is a
/// function of the bytes, named `gzip_decoded`.
#[verifier::external_body]
fn gunzip(data: &[u8]) -> (r: Option<Vec<u8>>)
    ensures
        match gzip_decoded(data@) {
            Some(d) => r matches Some(v) && v@ == d,
            None => r is None,
        },
{
    let mut out = Vec::new();
    match flate2::read::GzDecoder::new(data).read_to_end(&mut out) {
        Ok(_) => Some(out),
        Err(_) => None,
    }
}

/// Why compressed data cannot be decompressed.
#[derive(Debug, Clone, Copy, PartialEq, Eq, Structural)]
pub enum CompressionError {
    /// Fewer than 4 bytes: no room for the length prefix.
    TooShort,
    /// The bytes after the prefix are no gzip stream.
    InvalidGzip,
}

/// The 4 little-endian bytes of a 32-bit number.
pub open spec fn le_u32_bytes(n: u32) -> Seq<u8> {
    bytes_of_bits(bits_of_uint(n as nat, 32))
}

/// What decompressing gives: an error for fewer than 4 bytes, else what
/// gzip reads from the bytes after the prefix (the prefix itself is not
/// checked).
pub open spec fn spec_decompress(data: Seq<u8>) -> Result<Seq<u8>, CompressionError> {
    if data.len() < 4 {
        Err(CompressionError::TooShort)
    } else {
        match gzip_decoded(data.subrange(4, data.len() as int)) {
            Some(d) => Ok(d),
            None => Err(CompressionError::InvalidGzip),
        }
    }
}

/// Compress `data`: its length as 4 little-endian bytes (cut to 32 bits),
/// then its gzip stream. Decompressing the result gives `data` back.
pub fn compress(data: &[u8]) -> (out: Vec<u8>)
    ensures
        out@ == le_u32_bytes(data@.len() as u32) + gzip_encoded(data@),
        spec_decompress(out@) == Ok::<Seq<u8>, CompressionError>(data@),
{
    let mut w = BitWriter::new();
    w.write_uint(data.len() as u32 as u64, 32);
    let mut out = w.to_bytes();
    proof {
        crate::bits::lemma_bits_of_uint_len(data@.len() as u32 as nat, 32);
    }
    assert(out@.len() == 4);
    let mut gz = gzip(data);
    let ghost gz_bytes = gz@;
    out.append(&mut gz);
    assert(out@.subrange(4, out@.len() as int) =~= gz_bytes);
    out
}

/// Decompress data made by [`compress`]: gzip-decompress what follows the
/// 4-byte length prefix.
pub fn decompress(data: &[u8]) -> (r: Result<Vec<u8>, CompressionError>)
    ensures
        match spec_decompress(data@) {
            Ok(d) => r matches Ok(v) && v@ == d,
            Err(e) => r == Err::<Vec<u8>, CompressionError>(e),
        },
{
    if data.len() < 4 {
        return Err(CompressionError::TooShort);
    }
    let (_, rest) = data.split_at(4);
    match gunzip(rest) {
        Some(v) => Ok(v),
        None => Err(CompressionError::InvalidGzip),
    }
}

} // verus!
