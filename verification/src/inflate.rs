//! Decompressing zlib streams.

use crate::report::ExtractError;
use std::io::Read;
use vstd::prelude::*;

verus! {

/// The error of the standard library's readers, which the decoder reports
/// with. Nothing is known of its contents.
#[verifier::external_type_specification]
#[verifier::external_body]
pub struct ExIoError(std::io::Error);

/// The bytes that the zlib decoder of the `libflate` crate yields for the
/// stream `input` when no more than `limit` bytes are asked of it, or `None`
/// where it rejects the stream before that many bytes or the stream's end
/// are reached.
pub uninterp spec fn zlib_stream(input: Seq<u8>, limit: u64) -> Option<Seq<u8>>;

/// Opens `input` with `libflate::zlib::Decoder::new` and reads the decoder
/// to its end, through an adapter that yields at most `limit` bytes. The
/// result is what the decoder gave, an error where it rejected the stream.
#[verifier::external_body]
fn zlib_read(input: &[u8], limit: u64) -> (bytes: Result<Vec<u8>, std::io::Error>)
    ensures
        bytes matches Ok(b) ==> zlib_stream(input@, limit) == Some(b@) && b@.len() <= limit,
        bytes is Err ==> zlib_stream(input@, limit) is None,
{
    let mut out = Vec::new();
    let decoder = libflate::zlib::Decoder::new(input)?;
    decoder.take(limit).read_to_end(&mut out)?;
    Ok(out)
}

/// Decompresses the zlib stream `input`, up to `limit` bytes of output.
/// What the stream holds beyond that is neither decompressed nor checked.
pub fn inflate(input: &[u8], limit: u64) -> (bytes: Result<Vec<u8>, ExtractError>)
    ensures
        match zlib_stream(input@, limit) {
            Some(b) => bytes matches Ok(v) && v@ == b && b.len() <= limit,
            None => bytes == Err::<Vec<u8>, ExtractError>(ExtractError::CorruptStream),
        },
{
    match zlib_read(input, limit) {
        Ok(bytes) => Ok(bytes),
        Err(_) => Err(ExtractError::CorruptStream),
    }
}

} // verus!
