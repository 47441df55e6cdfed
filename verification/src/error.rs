//! Errors of the persistent cache layer. Absence is never an error: a
//! missing record decodes to a default value instead.

use vstd::prelude::*;

verus! {

/// Why a persistent-cache operation failed.
#[derive(Copy, Clone, PartialEq, Eq, Structural, Debug)]
pub enum CacheError {
    /// The compressor failed while encoding a value.
    Compression,
    /// A stored value declared zlib compression but its body is not a
    /// zlib stream.
    Decompression,
    /// A stored record's bytes do not parse as the expected record shape.
    MalformedRecord,
    /// A track's serialized form is not valid standard base64.
    InvalidBase64,
}

impl CacheError {
    /// A short description of the failure.
    pub fn describe(&self) -> (r: &'static str) {
        match self {
            CacheError::Compression => "the compressor failed while encoding a value",
            CacheError::Decompression => "a stored value is not a zlib stream",
            CacheError::MalformedRecord => "a stored record does not parse",
            CacheError::InvalidBase64 => "a track is not valid base64",
        }
    }
}

} // verus!
