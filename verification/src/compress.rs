//! The compression dispatcher: one compress/decompress contract over four
//! algorithm variants. The codecs themselves are outside crates; each is
//! called through a trusted wrapper whose contract names its result.
use vstd::prelude::*;

use crate::errors::ArchiveError;
use crate::models::CompressionAlgorithm;

verus! {

/// What the Brotli encoder produces for `data` at this crate's fixed
/// settings (quality 11, window 24).
pub uninterp spec fn brotli_enc(data: Seq<u8>) -> Seq<u8>;

/// What Brotli decoding yields for `data`: the decoded bytes, or nothing if
/// `data` is not a well-formed stream.
pub uninterp spec fn brotli_dec(data: Seq<u8>) -> Option<Seq<u8>>;

/// What the Zstandard encoder produces for `data` at level 19.
pub uninterp spec fn zstd_enc(data: Seq<u8>) -> Seq<u8>;

/// What Zstandard decoding yields for `data`, if it is a well-formed stream.
pub uninterp spec fn zstd_dec(data: Seq<u8>) -> Option<Seq<u8>>;

/// What the XZ encoder produces for `data` at preset 9.
pub uninterp spec fn lzma_enc(data: Seq<u8>) -> Seq<u8>;

/// What XZ decoding yields for `data`, if it is a well-formed stream.
pub uninterp spec fn lzma_dec(data: Seq<u8>) -> Option<Seq<u8>>;

/// Relies on `brotli::BrotliCompress` at fixed parameters: deterministic in
/// the input bytes, and inverted by `brotli::BrotliDecompress`.
#[verifier::external_body]
fn brotli_compress(data: &Vec<u8>) -> (r: Result<Vec<u8>, ArchiveError>)
    ensures
        r matches Ok(v) ==> v@ == brotli_enc(data@) && brotli_dec(v@) == Option::Some(data@),
        r matches Err(e) ==> e == ArchiveError::Codec,
{
    let mut output = Vec::new();
    let mut params = brotli::enc::BrotliEncoderParams::default();
    params.quality = 11;
    params.lgwin = 24;
    match brotli::BrotliCompress(&mut std::io::Cursor::new(data.as_slice()), &mut output, &params)
    {
        Ok(_) => Ok(output),
        Err(_) => Err(ArchiveError::Codec),
    }
}

/// Relies on `brotli::BrotliDecompress`: deterministic in the input bytes;
/// fails exactly on inputs that are not well-formed Brotli streams.
#[verifier::external_body]
fn brotli_decompress(data: &Vec<u8>) -> (r: Result<Vec<u8>, ArchiveError>)
    ensures
        r matches Ok(v) ==> brotli_dec(data@) == Option::Some(v@),
        r is Err ==> brotli_dec(data@) is None,
        r matches Err(e) ==> e == ArchiveError::Codec,
{
    let mut output = Vec::new();
    match brotli::BrotliDecompress(&mut std::io::Cursor::new(data.as_slice()), &mut output) {
        Ok(_) => Ok(output),
        Err(_) => Err(ArchiveError::Codec),
    }
}

/// Relies on `zstd::encode_all` at a fixed level: deterministic in the input
/// bytes, and inverted by `zstd::decode_all`.
#[verifier::external_body]
fn zstd_compress(data: &Vec<u8>) -> (r: Result<Vec<u8>, ArchiveError>)
    ensures
        r matches Ok(v) ==> v@ == zstd_enc(data@) && zstd_dec(v@) == Option::Some(data@),
        r matches Err(e) ==> e == ArchiveError::Codec,
{
    match zstd::encode_all(std::io::Cursor::new(data.as_slice()), 19) {
        Ok(v) => Ok(v),
        Err(_) => Err(ArchiveError::Codec),
    }
}

/// Relies on `zstd::decode_all`: deterministic in the input bytes; fails
/// exactly on inputs that are not well-formed Zstandard streams.
#[verifier::external_body]
fn zstd_decompress(data: &Vec<u8>) -> (r: Result<Vec<u8>, ArchiveError>)
    ensures
        r matches Ok(v) ==> zstd_dec(data@) == Option::Some(v@),
        r is Err ==> zstd_dec(data@) is None,
        r matches Err(e) ==> e == ArchiveError::Codec,
{
    match zstd::decode_all(std::io::Cursor::new(data.as_slice())) {
        Ok(v) => Ok(v),
        Err(_) => Err(ArchiveError::Codec),
    }
}

/// Relies on `xz2::write::XzEncoder` at a fixed preset: deterministic in the
/// input bytes, and inverted by `xz2::read::XzDecoder`.
#[verifier::external_body]
fn lzma_compress(data: &Vec<u8>) -> (r: Result<Vec<u8>, ArchiveError>)
    ensures
        r matches Ok(v) ==> v@ == lzma_enc(data@) && lzma_dec(v@) == Option::Some(data@),
        r matches Err(e) ==> e == ArchiveError::Codec,
{
    let mut output = Vec::new();
    let mut encoder = xz2::write::XzEncoder::new(&mut output, 9);
    if std::io::Write::write_all(&mut encoder, data.as_slice()).is_err() {
        return Err(ArchiveError::Codec);
    }
    if encoder.finish().is_err() {
        return Err(ArchiveError::Codec);
    }
    Ok(output)
}

/// Relies on `xz2::read::XzDecoder`: deterministic in the input bytes; fails
/// exactly on inputs that are not well-formed XZ streams.
#[verifier::external_body]
fn lzma_decompress(data: &Vec<u8>) -> (r: Result<Vec<u8>, ArchiveError>)
    ensures
        r matches Ok(v) ==> lzma_dec(data@) == Option::Some(v@),
        r is Err ==> lzma_dec(data@) is None,
        r matches Err(e) ==> e == ArchiveError::Codec,
{
    let mut decompressed = Vec::new();
    let mut decoder = xz2::read::XzDecoder::new(std::io::Cursor::new(data.as_slice()));
    match std::io::Read::read_to_end(&mut decoder, &mut decompressed) {
        Ok(_) => Ok(decompressed),
        Err(_) => Err(ArchiveError::Codec),
    }
}

/// What compressing `data` with `a` produces.
pub open spec fn spec_compress(data: Seq<u8>, a: CompressionAlgorithm) -> Seq<u8> {
    match a {
        CompressionAlgorithm::Stored => data,
        CompressionAlgorithm::Brotli => brotli_enc(data),
        CompressionAlgorithm::Zstandard => zstd_enc(data),
        CompressionAlgorithm::Lzma => lzma_enc(data),
    }
}

/// What decompressing `data` with `a` yields, if `data` is well formed
/// for `a`.
pub open spec fn spec_decompress(data: Seq<u8>, a: CompressionAlgorithm) -> Option<Seq<u8>> {
    match a {
        CompressionAlgorithm::Stored => Option::Some(data),
        CompressionAlgorithm::Brotli => brotli_dec(data),
        CompressionAlgorithm::Zstandard => zstd_dec(data),
        CompressionAlgorithm::Lzma => lzma_dec(data),
    }
}

/// Compress `data` with `algorithm`. On success the result is the
/// algorithm's encoding of `data`, and decompressing it gives `data` back.
/// Storing verbatim never fails; a codec may.
pub fn compress_data(data: &Vec<u8>, algorithm: CompressionAlgorithm) -> (r: Result<
    Vec<u8>,
    ArchiveError,
>)
    ensures
        r matches Ok(v) ==> v@ == spec_compress(data@, algorithm) && spec_decompress(
            v@,
            algorithm,
        ) == Option::Some(data@),
        algorithm == CompressionAlgorithm::Stored ==> r is Ok,
        r matches Err(e) ==> e == ArchiveError::Codec,
{
    match algorithm {
        CompressionAlgorithm::Stored => Ok(data.clone()),
        CompressionAlgorithm::Brotli => brotli_compress(data),
        CompressionAlgorithm::Zstandard => zstd_compress(data),
        CompressionAlgorithm::Lzma => lzma_compress(data),
    }
}

/// Decompress `data` with `algorithm` — always the algorithm recorded in the
/// entry, never inferred from the bytes. Succeeds exactly when `data` is a
/// well-formed stream of that algorithm, and then yields its decoding.
pub fn decompress_data(data: &Vec<u8>, algorithm: CompressionAlgorithm) -> (r: Result<
    Vec<u8>,
    ArchiveError,
>)
    ensures
        r is Ok <==> spec_decompress(data@, algorithm) is Some,
        r matches Ok(v) ==> spec_decompress(data@, algorithm) == Option::Some(v@),
        r matches Err(e) ==> e == ArchiveError::Codec,
{
    match algorithm {
        CompressionAlgorithm::Stored => Ok(data.clone()),
        CompressionAlgorithm::Brotli => brotli_decompress(data),
        CompressionAlgorithm::Zstandard => zstd_decompress(data),
        CompressionAlgorithm::Lzma => lzma_decompress(data),
    }
}

} // verus!
