//! The byte-stream codec: whitespace minification followed by gzip
//! compression at a fixed moderate level, and the inverse transform.
use vstd::prelude::*;

verus! {

use crate::errors::GpxError;
use crate::text::{clean_spec, remove_excess_whitespace};
use vstd::string::StringExecFns;

/// What gzip-decompressing a byte stream and decoding the result as UTF-8
/// yields: the decoded text, or `None` when the stream is not a well-formed
/// gzip container or its contents are not valid UTF-8. A pure function of
/// the bytes.
pub uninterp spec fn gunzip_text_of(b: Seq<u8>) -> Option<Seq<char>>;

/// The gzip stream that compressing a text at the fixed level produces: a
/// pure function of the text alone. The header the encoder writes is
/// constant (timestamp zero, operating-system byte 255), and the
/// compression backend is scalar pure-Rust code, so the same text gives the
/// same bytes in every process and on every machine.
pub uninterp spec fn gzip_bytes_of(s: Seq<char>) -> Seq<u8>;

/// Relies on `flate2::write::GzEncoder` (`new`, `write_all`, `finish`): the
/// finished output is a gzip container, a function of the written text
/// alone, whose decompressed UTF-8 contents are exactly that text. Writing
/// into a `Vec` cannot fail — the `Vec` writer is infallible and the
/// compressor has no error path under this driver — so the call always
/// succeeds.
#[verifier::external_body]
fn gzip_compress(data: &str) -> (r: Result<Vec<u8>, String>)
    ensures
        r is Ok,
        r matches Ok(c) ==> c@ == gzip_bytes_of(data@) && gunzip_text_of(c@) == Some(data@),
{
    let mut encoder = flate2::write::GzEncoder::new(Vec::new(), flate2::Compression::new(6));
    if let Err(e) = std::io::Write::write_all(&mut encoder, data.as_bytes()) {
        return Err(format!("{}", e));
    }
    match encoder.finish() {
        Ok(v) => Ok(v),
        Err(e) => Err(format!("{}", e)),
    }
}

/// Relies on `flate2::bufread::GzDecoder` with `read_to_string`: yields
/// exactly the decompressed UTF-8 text of a well-formed gzip stream, and
/// fails on a malformed stream or invalid UTF-8 — a pure function of the
/// input bytes.
#[verifier::external_body]
pub(crate) fn gzip_decompress(data: &[u8]) -> (r: Result<String, String>)
    ensures
        r matches Ok(s) ==> gunzip_text_of(data@) == Some(s@),
        r is Err <==> gunzip_text_of(data@) is None,
{
    let mut decoder = flate2::bufread::GzDecoder::new(data);
    let mut out = String::new();
    match std::io::Read::read_to_string(&mut decoder, &mut out) {
        Ok(_) => Ok(out),
        Err(e) => Err(format!("{}", e)),
    }
}

/// Compresses a text: trims every line, drops blank lines, rejoins the rest
/// with single newlines, and gzip-compresses the cleaned text at a moderate
/// fixed level (6 on the 0–9 scale). Always succeeds: the compressor
/// writing into memory has no failure path.
pub fn compress_gpx(data: &str) -> (r: Result<Vec<u8>, GpxError>)
    ensures
        r is Ok,
        r matches Ok(c) ==> c@ == gzip_bytes_of(clean_spec(data@)) && gunzip_text_of(c@) == Some(
            clean_spec(data@),
        ),
{
    let cleaned = remove_excess_whitespace(data);
    match gzip_compress(cleaned.as_str()) {
        Ok(c) => Ok(c),
        Err(m) => Err(
            GpxError::CompressionError(
                String::from_str("Compression error: ").concat(m.as_str()),
            ),
        ),
    }
}

/// Decompresses a previously compressed byte stream back to its text. Fails
/// with `DecompressionError` exactly when the bytes are not a well-formed
/// gzip container holding valid UTF-8. Total on every byte slice: it has no
/// precondition, and as verified code it cannot panic, so any input returns
/// normally with `Ok` or `Err`.
pub fn decompress_gpx(compressed_data: &[u8]) -> (r: Result<String, GpxError>)
    ensures
        r matches Ok(s) ==> gunzip_text_of(compressed_data@) == Some(s@),
        r is Ok <==> gunzip_text_of(compressed_data@) is Some,
        r matches Err(e) ==> e matches GpxError::DecompressionError(_),
{
    match gzip_decompress(compressed_data) {
        Ok(s) => Ok(s),
        Err(m) => Err(
            GpxError::DecompressionError(
                String::from_str("Decompression error: ").concat(m.as_str()),
            ),
        ),
    }
}

/// Compression followed by decompression reproduces the whitespace-cleaned
/// form of the input, byte for byte: a byte stream that `compress_gpx`
/// produced for a text decodes to exactly the cleaned text, so by the
/// contract of `decompress_gpx` the decompressor is bound to accept the
/// stream and return that cleaned text.
pub proof fn lemma_compress_roundtrip(s: Seq<char>, c: Seq<u8>)
    requires
        gunzip_text_of(c) == Some(clean_spec(s)),
    ensures
        gunzip_text_of(c) is Some,
        gunzip_text_of(c)->0 == clean_spec(s),
{
}

} // verus!
