//! The compression codec of the persistent cache.
//!
//! A stored value is one mode byte followed by a body. Mode 0 carries the
//! original bytes unchanged; mode 1 carries them zlib-compressed. Encoding
//! compresses first and keeps the original whenever compression does not
//! make the body smaller. Decoding reads the mode byte and branches; an
//! empty input and an unrecognized mode byte both pass through unchanged,
//! so that newer modes degrade to passthrough instead of failing.

use vstd::prelude::*;
use vstd::slice::{slice_subrange, slice_to_vec};

use crate::error::CacheError;
use std::io::Read;
use std::io::Write;

verus! {

/// What flate2's zlib encoder produces at compression level 6 for the
/// given input; a function of the input bytes alone.
pub uninterp spec fn zlib_deflate(data: Seq<u8>) -> Seq<u8>;

/// What flate2's zlib decoder recovers from the given bytes: the decoded
/// payload, or nothing if the bytes are not a zlib stream.
pub uninterp spec fn zlib_inflate(data: Seq<u8>) -> Option<Seq<u8>>;

/// Relies on flate2's `ZlibEncoder` over an in-memory buffer at
/// compression level 6: the output depends on the input bytes alone, and
/// decoding the output recovers the input. Compression succeeds on every
/// input: the encoder's write and finish only propagate errors of the
/// underlying writer, and writing to a byte vector never fails.
#[verifier::external_body]
fn zlib_compress(payload: &[u8]) -> (r: Result<Vec<u8>, CacheError>)
    ensures
        r is Ok,
        r matches Ok(out) ==> out@ == zlib_deflate(payload@) && zlib_inflate(zlib_deflate(payload@))
            == Some(payload@),
{
    let mut encoder = flate2::write::ZlibEncoder::new(Vec::new(), flate2::Compression::new(6));
    if encoder.write_all(payload).is_err() {
        return Err(CacheError::Compression);
    }
    encoder.finish().map_err(|_| CacheError::Compression)
}

/// Relies on flate2's `ZlibDecoder` over an in-memory buffer: whether the
/// bytes decode, and to what, depends on the bytes alone.
#[verifier::external_body]
fn zlib_decompress(data: &[u8]) -> (r: Result<Vec<u8>, CacheError>)
    ensures
        r matches Ok(out) ==> zlib_inflate(data@) == Some(out@),
        r is Err ==> zlib_inflate(data@) is None,
        r matches Err(e) ==> e == CacheError::Decompression,
{
    let mut output: Vec<u8> = Vec::new();
    match flate2::read::ZlibDecoder::new(data).read_to_end(&mut output) {
        Ok(_) => Ok(output),
        Err(_) => Err(CacheError::Decompression),
    }
}

/// What decoding recovers from stored bytes: an empty input and an
/// unrecognized mode byte pass through unchanged, mode 0 strips the mode
/// byte, and mode 1 additionally inflates the body.
pub open spec fn spec_decode(data: Seq<u8>) -> Option<Seq<u8>> {
    if data.len() == 0 {
        Some(data)
    } else if data[0] == 0 {
        Some(data.drop_first())
    } else if data[0] == 1 {
        zlib_inflate(data.drop_first())
    } else {
        Some(data)
    }
}

/// Encodes a payload for storage: compresses it, keeps the compressed body
/// only if the stored value — the body plus its mode byte — is smaller
/// than the original, and prepends the mode byte. Encoding always
/// succeeds, and decoding the result always recovers the payload.
pub fn compress_payload(payload: &[u8]) -> (r: Result<Vec<u8>, CacheError>)
    ensures
        r is Ok,
        r matches Ok(out) ==> {
            &&& out@.len() >= 1
            &&& out@[0] == (if zlib_deflate(payload@).len() + 1 < payload@.len() {
                1u8
            } else {
                0u8
            })
            &&& (out@[0] == 1 ==> out@.drop_first() == zlib_deflate(payload@) && out@.len()
                < payload@.len())
            &&& (out@[0] == 0 ==> out@.drop_first() == payload@)
            &&& spec_decode(out@) == Some(payload@)
        },
{
    let compressed = match zlib_compress(payload) {
        Ok(c) => c,
        Err(e) => {
            return Err(e);
        },
    };
    let mut out: Vec<u8> = Vec::new();
    if payload.len() > 0 && compressed.len() < payload.len() - 1 {
        out.push(1u8);
        let mut body = compressed;
        out.append(&mut body);
        proof {
            assert(out@.drop_first() =~= zlib_deflate(payload@));
            assert(out@[0] == 1);
        }
    } else {
        out.push(0u8);
        let mut body = slice_to_vec(payload);
        out.append(&mut body);
        proof {
            assert(out@.drop_first() =~= payload@);
            assert(out@[0] == 0);
        }
    }
    Ok(out)
}

/// Decodes stored bytes: an empty input and an unrecognized mode byte come
/// back unchanged, mode 0 strips the mode byte, mode 1 inflates the body.
/// Only a mode-1 body that is not a zlib stream fails.
pub fn decompress_payload(payload: &[u8]) -> (r: Result<Vec<u8>, CacheError>)
    ensures
        r matches Ok(out) ==> spec_decode(payload@) == Some(out@),
        r is Err ==> spec_decode(payload@) is None && r == Err::<Vec<u8>, CacheError>(
            CacheError::Decompression,
        ),
{
    if payload.len() < 1 {
        return Ok(slice_to_vec(payload));
    }
    let mode = *vstd::slice::slice_index_get(payload, 0);
    let data = slice_subrange(payload, 1, payload.len());
    proof {
        assert(data@ =~= payload@.drop_first());
    }
    if mode == 0 {
        Ok(slice_to_vec(data))
    } else if mode == 1 {
        zlib_decompress(data)
    } else {
        Ok(slice_to_vec(payload))
    }
}

} // verus!
