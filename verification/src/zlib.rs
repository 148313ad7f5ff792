//! Compression and decompression of zlib streams.

use flate2::read::ZlibDecoder;
use flate2::write::ZlibEncoder;
use std::io::{Read, Write};
use vstd::prelude::*;

use crate::error::{Error, Failure};

verus! {

/// The first `maximum` bytes, or all of them when there are fewer, that the zlib
/// stream `compressed` decodes to; `None` when reading them ends in an error.
pub uninterp spec fn zlib_inflated(compressed: Seq<u8>, maximum: u64) -> Option<Seq<u8>>;

/// The zlib stream for `data` at the fast level; `None` when compression fails.
pub uninterp spec fn zlib_deflated(data: Seq<u8>) -> Option<Seq<u8>>;

/// Reads at most `maximum` bytes from `flate2::read::ZlibDecoder` over
/// `compressed`, with the error that ended the reading, if one did. The contract
/// names what a complete read gives and bounds its length. After an error the
/// bytes read before it are returned, of which only the bound is stated: how many
/// they are depends on the buffers that the reader was given.
#[verifier::external_body]
fn inflate(compressed: &[u8], maximum: u64) -> (result: (Vec<u8>, Option<String>))
    ensures
        result.0@.len() <= maximum,
        zlib_inflated(compressed@, maximum) == match result.1 {
            None => Some(result.0@),
            Some(_) => None,
        },
{
    let mut data = Vec::new();
    let mut reader = ZlibDecoder::new(compressed).take(maximum);
    let failure = reader.read_to_end(&mut data).err();
    (data, failure.map(|error| error.to_string()))
}

/// Compresses `data` with `flate2::write::ZlibEncoder` at the fast level. The
/// contract names the stream, and says that decoding the stream gives the data
/// back, as the encoder and the decoder of the crate are each other's inverse.
#[verifier::external_body]
fn deflate(data: &[u8]) -> (result: Result<Vec<u8>, String>)
    ensures
        zlib_deflated(data@) == match result {
            Ok(stream) => Some(stream@),
            Err(_) => None,
        },
        result matches Ok(stream) ==> forall|maximum: u64|
            #[trigger] zlib_inflated(stream@, maximum) == Some(
                if data@.len() <= maximum {
                    data@
                } else {
                    data@.take(maximum as int)
                },
            ),
{
    let mut encoder = ZlibEncoder::new(Vec::new(), flate2::Compression::fast());
    match encoder.write_all(data) {
        Ok(()) => encoder.finish().map_err(|error| error.to_string()),
        Err(error) => Err(error.to_string()),
    }
}

/// Decodes at most `maximum` bytes of a zlib stream.
pub fn decompress(compressed: &[u8], maximum: u64) -> (data: Result<Vec<u8>, Error>)
    ensures
        match data {
            Ok(data) => zlib_inflated(compressed@, maximum) == Some(data@) && data@.len()
                <= maximum,
            Err(error) => zlib_inflated(compressed@, maximum) is None && error@ == Failure::Io,
        },
{
    let (data, failure) = inflate(compressed, maximum);
    match failure {
        None => Ok(data),
        Some(reason) => Err(Error::Io { reason }),
    }
}

/// Decodes at most `maximum` bytes of a zlib stream, with the bytes that came
/// before an error.
pub fn decompress_partial(compressed: &[u8], maximum: u64) -> (result: (Vec<u8>, Option<Error>))
    ensures
        result.0@.len() <= maximum,
        match result.1 {
            None => zlib_inflated(compressed@, maximum) == Some(result.0@),
            Some(error) => zlib_inflated(compressed@, maximum) is None && error@ == Failure::Io,
        },
{
    let (data, failure) = inflate(compressed, maximum);
    match failure {
        None => (data, None),
        Some(reason) => (data, Some(Error::Io { reason })),
    }
}

/// Compresses data into a zlib stream.
pub fn compress(data: &[u8]) -> (stream: Result<Vec<u8>, Error>)
    ensures
        match stream {
            Ok(stream) => {
                &&& zlib_deflated(data@) == Some(stream@)
                &&& forall|maximum: u64|
                    #[trigger] zlib_inflated(stream@, maximum) == Some(
                        if data@.len() <= maximum {
                            data@
                        } else {
                            data@.take(maximum as int)
                        },
                    )
            },
            Err(error) => zlib_deflated(data@) is None && error@ == Failure::Io,
        },
{
    match deflate(data) {
        Ok(stream) => Ok(stream),
        Err(reason) => Err(Error::Io { reason }),
    }
}

} // verus!
