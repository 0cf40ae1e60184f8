//! The URL-embedding pipeline for the diagram model: raw DEFLATE, standard
//! base64, then percent-encoding. Byte-exact reproducibility matters here:
//! each stage is a pure function of its input, performed by an outside
//! codec and named as such.

use base64::Engine;
use std::io::Write;
use vstd::string::StringSliceAdditionalSpecFns;
use vstd::prelude::*;

verus! {

/// What raw DEFLATE compression at the default level makes of a byte
/// sequence; a pure function of the bytes alone.
pub uninterp spec fn deflate_raw_of(data: Seq<u8>) -> Seq<u8>;

/// What standard (padded, not URL-safe) base64 makes of a byte sequence; a
/// pure function of the bytes alone.
pub uninterp spec fn base64_standard_of(data: Seq<u8>) -> Seq<char>;

/// What percent-encoding makes of a string; a pure function of the
/// characters alone.
pub uninterp spec fn percent_encoded_of(s: Seq<char>) -> Seq<char>;

/// Relies on flate2's `DeflateEncoder` over a `Vec` sink at
/// `Compression::default()`: raw DEFLATE, no container header, a pure
/// function of the input bytes. With a `Vec` sink the write and finish
/// error paths are unreachable: the sink's writes are infallible, and plain
/// compression with valid flush modes produces no error status.
#[verifier::external_body]
fn deflate_raw(data: &[u8]) -> (r: Vec<u8>)
    ensures
        r@ == deflate_raw_of(data@),
{
    let mut encoder = flate2::write::DeflateEncoder::new(Vec::new(), flate2::Compression::default());
    encoder.write_all(data).expect("a Vec sink cannot fail");
    encoder.finish().expect("a Vec sink cannot fail")
}

/// Relies on base64's `STANDARD` engine: four output characters for every
/// three input bytes, with `=` padding; a pure function of the input bytes.
#[verifier::external_body]
fn base64_encode(data: &[u8]) -> (r: String)
    ensures
        r@ == base64_standard_of(data@),
        r@.len() == 4 * ((data@.len() + 2) / 3),
{
    base64::engine::general_purpose::STANDARD.encode(data)
}

/// Relies on urlencoding's `encode`: percent-encodes everything outside the
/// unreserved set; a pure function of the input characters.
#[verifier::external_body]
fn percent_encode(s: &str) -> (r: String)
    ensures
        r@ == percent_encoded_of(s@),
{
    urlencoding::encode(s).into_owned()
}

/// Compresses XML using DEFLATE (raw, no zlib header) at the default level,
/// then encodes the compressed bytes with standard base64 and
/// percent-encodes the result. Every stage is total, so this always
/// returns `Ok`, with exactly the encoded value; the `Result` shape is the
/// interface callers expect.
pub fn compress_and_encode(xml: &str) -> (r: Result<String, String>)
    ensures
        r matches Ok(s) && s@ == percent_encoded_of(
            base64_standard_of(deflate_raw_of(xml.spec_bytes())),
        ),
{
    let compressed = deflate_raw(xml.as_bytes());
    let b64 = base64_encode(compressed.as_slice());
    Ok(percent_encode(b64.as_str()))
}

} // verus!
