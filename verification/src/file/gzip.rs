//! Gzip framing through `flate2`.

use vstd::prelude::*;

verus! {

/// The bytes that `flate2`'s `GzDecoder` reads out of a gzip stream: the
/// contents of its first member. `None` where the decoder fails.
pub uninterp spec fn gunzip(stream: Seq<u8>) -> Option<Seq<u8>>;

/// The gzip stream that `flate2`'s `GzEncoder` writes for some bytes at the
/// default compression level. `None` where the encoder fails.
pub uninterp spec fn gzip(bytes: Seq<u8>) -> Option<Seq<u8>>;

/// Reads a gzip stream to its end with `flate2::read::GzDecoder`. Trusted:
/// the result is a function of the stream alone, named `gunzip`.
#[verifier::external_body]
pub(crate) fn decompress(stream: &[u8]) -> (r: Option<Vec<u8>>)
    ensures
        match r {
            Some(bytes) => gunzip(stream@) == Some(bytes@),
            None => gunzip(stream@) is None,
        },
{
    let mut bytes = Vec::new();
    let mut decoder = flate2::read::GzDecoder::new(stream);
    std::io::Read::read_to_end(&mut decoder, &mut bytes).ok().map(|_| bytes)
}

/// Writes bytes through `flate2::write::GzEncoder` into a vector and finishes
/// the stream. Trusted: the result is a function of the bytes alone, named
/// `gzip`; and a stream that the encoder wrote decodes to the bytes it was
/// given.
#[verifier::external_body]
pub(crate) fn compress(bytes: &[u8]) -> (r: Option<Vec<u8>>)
    ensures
        match r {
            Some(stream) => gzip(bytes@) == Some(stream@) && gunzip(stream@) == Some(bytes@),
            None => gzip(bytes@) is None,
        },
{
    let mut encoder = flate2::write::GzEncoder::new(Vec::new(), flate2::Compression::default());
    std::io::Write::write_all(&mut encoder, bytes).ok()?;
    encoder.finish().ok()
}

} // verus!
