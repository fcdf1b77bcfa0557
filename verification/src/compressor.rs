//! In-process gzip compression of response bodies.
use vstd::prelude::*;
use std::io::Write;

verus! {

/// The contents encoded by a gzip stream, when the stream is a well-formed
/// encoding of some contents: what flate2's gzip decoder
/// (`flate2::read::GzDecoder`) recovers. Gzip decoding is a function of the
/// stream bytes alone, so the result depends on nothing but the argument.
pub uninterp spec fn gunzip(stream: Seq<u8>) -> Option<Seq<u8>>;

/// Relies on flate2's `write::GzEncoder` (and `Compression::default`): the
/// bytes it produces are a valid gzip encoding of the bytes written in, so
/// gzip decoding recovers exactly those bytes. Deflate compression accepts
/// every byte string, and the only remaining error channel is the sink's
/// `Write`, which for a `Vec<u8>` never returns an error, so encoding
/// cannot fail.
#[verifier::external_body]
pub(crate) fn gzip_compress(data: &[u8]) -> (r: Vec<u8>)
    ensures
        gunzip(r@) == Some(data@),
{
    let mut enc = flate2::write::GzEncoder::new(Vec::new(), flate2::Compression::default());
    enc.write_all(data).expect("writing to a Vec cannot fail");
    enc.finish().expect("writing to a Vec cannot fail")
}

} // verus!
