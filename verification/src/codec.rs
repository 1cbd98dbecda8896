//! The compression codec of the payload.

use vstd::prelude::*;

verus! {

/// What `zstd::decode_all` makes of `bytes`: the decompressed data, or the
/// message of the error that it reports.
pub uninterp spec fn zstd_decode(bytes: Seq<u8>) -> Result<Seq<u8>, Seq<char>>;

/// `zstd::decode_all` on a slice: decompresses the frames that `bytes` holds.
/// The error is handed on as its message, the text that its `Display` writes.
#[verifier::external_body]
pub(crate) fn decode_all(bytes: &[u8]) -> (r: Result<Vec<u8>, String>)
    ensures
        match r {
            Ok(data) => zstd_decode(bytes@) == Ok::<Seq<u8>, Seq<char>>(data@),
            Err(message) => zstd_decode(bytes@) == Err::<Seq<u8>, Seq<char>>(message@),
        },
{
    match zstd::decode_all(bytes) {
        Ok(data) => Ok(data),
        Err(error) => Err(error.to_string()),
    }
}

} // verus!
