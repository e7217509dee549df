//! Decompression of stored objects, done by the `flate2` crate.

use std::io::Read;
use vstd::prelude::*;

verus! {

/// What a zlib stream inflates to, as `flate2` computes it: the
/// decompressed bytes, or `None` where the stream is corrupt or ends
/// early.
pub uninterp spec fn zlib_inflate(data: Seq<u8>) -> Option<Seq<u8>>;

/// The error of a failed read, which is carried and not looked into.
#[verifier::external_type_specification]
#[verifier::external_body]
pub struct ExIoError(std::io::Error);

/// `flate2::read::ZlibDecoder::new` over `data`, then `read_to_end`:
/// either all the decompressed bytes or the decoder's error. The outcome
/// depends on `data` alone.
#[verifier::external_body]
pub(crate) fn inflate(data: &[u8]) -> (res: Result<Vec<u8>, std::io::Error>)
    ensures
        match res {
            Ok(bytes) => zlib_inflate(data@) == Some(bytes@),
            Err(_) => zlib_inflate(data@) is None,
        },
{
    let mut decoder = flate2::read::ZlibDecoder::new(data);
    let mut bytes = Vec::new();
    decoder.read_to_end(&mut bytes)?;
    Ok(bytes)
}

} // verus!
