//! Fetching one resource: its compressed bytes, and what they inflate to.

use vstd::prelude::*;
use crate::container::{HeaderModel, ResourceHeader};
use crate::error::FormatError;
use crate::reader::{take, ByteReader};

verus! {

/// The error type of `miniz_oxide`'s functions that inflate into a vector.
/// Nothing is known of a value of it.
#[verifier::external_type_specification]
#[verifier::external_body]
pub struct ExDecompressError(miniz_oxide::inflate::DecompressError);

/// What `miniz_oxide::inflate::decompress_to_vec_zlib_with_limit` makes of
/// `stream` when the output may grow to `limit` bytes: the inflated bytes, or
/// `None` where it reports an error.
pub uninterp spec fn zlib_inflate(stream: Seq<u8>, limit: usize) -> Option<Seq<u8>>;

/// Calls `miniz_oxide::inflate::decompress_to_vec_zlib_with_limit`. The
/// contract claims that the call returns for every input, and one thing of
/// what it returns: the outcome depends on the bytes of `stream` and on
/// `limit` alone, and `zlib_inflate` is the name of that outcome.
#[verifier::external_body]
fn inflate(stream: &[u8], limit: usize) -> (outcome: Result<
    Vec<u8>,
    miniz_oxide::inflate::DecompressError,
>)
    ensures
        match outcome {
            Ok(bytes) => zlib_inflate(stream@, limit) == Some(bytes@),
            Err(_) => zlib_inflate(stream@, limit) is None,
        },
{
    miniz_oxide::inflate::decompress_to_vec_zlib_with_limit(stream, limit)
}

/// The most that a payload may inflate to: half of the longest vector that
/// the machine can hold. The inflater grows its output by doubling, and with
/// this bound no step asks for more than a vector can be.
pub open spec fn inflate_limit() -> usize {
    (isize::MAX / 2) as usize
}

/// The bound `inflate_limit` as a number.
fn limit() -> (bound: usize)
    ensures
        bound == inflate_limit(),
{
    (isize::MAX / 2) as usize
}

/// What a resource's payload is once the inflation of its compressed bytes
/// has ended in `inflated`.
pub open spec fn payload(inflated: Option<Seq<u8>>) -> Result<Seq<u8>, FormatError> {
    match inflated {
        Some(bytes) => Ok(bytes),
        None => Err(FormatError::Decompression),
    }
}

/// The resource that `header` names within the container `bytes`: the
/// compressed bytes at its offset, inflated. The inflated length is not held
/// against the size that the header declares; a payload that would grow
/// beyond `inflate_limit` counts as one that cannot be inflated.
pub open spec fn extract(bytes: Seq<u8>, header: HeaderModel) -> Result<Seq<u8>, FormatError> {
    match take(bytes, header.offset as int, header.compressed_size as int) {
        Err(e) => Err(e),
        Ok(stream) => payload(zlib_inflate(stream, inflate_limit())),
    }
}

/// Turns the outcome of an inflation into a payload: the bytes as they are,
/// and any error of the inflater into `Decompression`.
pub fn payload_of(outcome: Result<Vec<u8>, miniz_oxide::inflate::DecompressError>) -> (made: Result<
    Vec<u8>,
    FormatError,
>)
    ensures
        match outcome {
            Ok(bytes) => made == Ok::<Vec<u8>, FormatError>(bytes),
            Err(_) => made == Err::<Vec<u8>, FormatError>(FormatError::Decompression),
        },
{
    match outcome {
        Ok(bytes) => Ok(bytes),
        Err(_) => Err(FormatError::Decompression),
    }
}

/// Extracts the resource that `header` names: moves the reader to the
/// payload's offset, reads exactly the compressed bytes and inflates them as
/// a zlib stream. A stream that is cut short, malformed or fails its
/// checksum gives `Decompression`; bytes behind the end of the stream are
/// ignored.
///
/// Where the container ends before the payload does, the result is
/// `Truncated` and the reader stands at the payload's offset; otherwise it
/// stands behind the payload, whether or not the inflation succeeded.
pub fn read_resource(reader: &mut ByteReader, header: &ResourceHeader) -> (read: Result<
    Vec<u8>,
    FormatError,
>)
    ensures
        final(reader).bytes() == old(reader).bytes(),
        match read {
            Ok(bytes) => extract(old(reader).bytes(), header@) == Ok::<Seq<u8>, FormatError>(
                bytes@,
            ),
            Err(e) => extract(old(reader).bytes(), header@) == Err::<Seq<u8>, FormatError>(e),
        },
        final(reader).position() == (if read matches Err(FormatError::Truncated { .. }) {
            header.offset as int
        } else {
            header.offset + header.compressed_size
        }),
{
    reader.seek(header.offset as u64);
    let stream = match reader.read_exact(header.compressed_size as usize) {
        Ok(s) => s,
        Err(e) => { return Err(e); },
    };
    payload_of(inflate(stream.as_slice(), limit()))
}

} // verus!
