//! Inflating zlib streams.
use crate::mpk::error::DecodeError;
use crate::mpk::error::Error;
use crate::mpk::error::IoError;
use std::io::Read;
use vstd::prelude::*;
use vstd::slice::axiom_spec_len;
use vstd::slice::slice_subrange;

verus! {

/// `std::io::Error`, in which the decoder reports its failure. It is passed
/// on as it comes and never looked into.
#[verifier::external_type_specification]
#[verifier::external_body]
pub struct ExIoError(std::io::Error);

/// What the zlib stream at the start of `data` inflates to, or `None` where
/// `data` does not start with a complete and sound zlib stream. Bytes that
/// follow the end of the stream play no part.
pub uninterp spec fn zlib_inflated(data: Seq<u8>) -> Option<Seq<u8>>;

/// Inflates the zlib stream at the start of `data` with
/// `flate2::bufread::ZlibDecoder`, read to its end with `Read::read_to_end`.
///
/// Trusted: the decoder is deterministic, so that what it yields is a
/// function of `data` alone, which `zlib_inflated` names. It fails on a
/// stream that is cut short or corrupt, and then nothing is handed out.
#[verifier::external_body]
pub(crate) fn inflate(data: &[u8]) -> (result: Result<Vec<u8>, std::io::Error>)
    ensures
        match result {
            Ok(bytes) => zlib_inflated(data@) == Some(bytes@),
            Err(_) => zlib_inflated(data@) is None,
        },
{
    let mut bytes = Vec::new();
    let mut decoder = flate2::bufread::ZlibDecoder::new(data);
    decoder.read_to_end(&mut bytes)?;
    Ok(bytes)
}

/// What the `size` bytes of `data` from `at` on inflate to. Where `data` ends
/// before the last of them there is nothing to inflate.
pub open spec fn inflated_segment(data: Seq<u8>, at: int, size: int) -> Result<Seq<u8>, Error>
    recommends
        0 <= at,
        0 <= size,
{
    if data.len() < at + size {
        Err(Error::IO(IoError::UnexpectedEof))
    } else {
        match zlib_inflated(data.subrange(at, at + size)) {
            None => Err(Error::Decode(DecodeError::Zlib)),
            Some(bytes) => Ok(bytes),
        }
    }
}

/// Takes the `size` bytes of `data` from `at` on and inflates them.
pub fn read_inflated(data: &[u8], at: u64, size: u32) -> (result: Result<Vec<u8>, Error>)
    ensures
        match result {
            Ok(bytes) => inflated_segment(data@, at as int, size as int) == Ok::<Seq<u8>, Error>(
                bytes@,
            ),
            Err(error) => inflated_segment(data@, at as int, size as int) == Err::<Seq<u8>, Error>(
                error,
            ),
        },
{
    proof {
        axiom_spec_len(data);
    }
    let len: u64 = data.len() as u64;
    if at > len || len - at < size as u64 {
        return Err(Error::IO(IoError::UnexpectedEof));
    }
    let start: usize = at as usize;
    let end: usize = start + size as usize;
    match inflate(slice_subrange(data, start, end)) {
        Ok(bytes) => Ok(bytes),
        Err(_) => Err(Error::Decode(DecodeError::Zlib)),
    }
}

} // verus!
