//! Playable audio tracks: their display metadata and their serialized
//! form, which travels base64-encoded.

use vstd::prelude::*;

use base64::Engine;

use crate::error::CacheError;

verus! {

/// What the standard base64 alphabet encodes the given bytes to; a
/// function of the bytes alone.
pub uninterp spec fn base64_of(data: Seq<u8>) -> Seq<char>;

/// What standard base64 decoding recovers from the given text: the
/// decoded bytes, or nothing if the text is not valid base64.
pub uninterp spec fn base64_decoded(text: Seq<char>) -> Option<Seq<u8>>;

/// Relies on base64's standard-alphabet engine: encoding depends on the
/// input bytes alone, and decoding the result recovers them.
#[verifier::external_body]
fn base64_encode(data: &[u8]) -> (r: String)
    ensures
        r@ == base64_of(data@),
        base64_decoded(r@) == Some(data@),
{
    base64::engine::general_purpose::STANDARD.encode(data)
}

/// Relies on base64's standard-alphabet engine: whether text decodes, and
/// to what, depends on the text alone.
#[verifier::external_body]
fn base64_decode(text: &str) -> (r: Result<Vec<u8>, CacheError>)
    ensures
        r matches Ok(out) ==> base64_decoded(text@) == Some(out@),
        r is Err ==> base64_decoded(text@) is None,
        r matches Err(e) ==> e == CacheError::InvalidBase64,
{
    match base64::engine::general_purpose::STANDARD.decode(text) {
        Ok(v) => Ok(v),
        Err(_) => Err(CacheError::InvalidBase64),
    }
}

/// Display metadata of a track.
#[derive(Debug)]
pub struct TrackInfo {
    pub title: Option<String>,
    pub author: Option<String>,
    pub uri: String,
    pub length_ms: u64,
    pub is_stream: bool,
}

impl TrackInfo {
    /// The text a track is shown as: its title, or its address when it
    /// has none.
    pub fn display_text(&self) -> (r: &str)
        ensures
            match self.title {
                Some(t) => r@ == t@,
                None => r@ == self.uri@,
            },
    {
        match &self.title {
            Some(t) => t.as_str(),
            None => self.uri.as_str(),
        }
    }
}

/// A playable track: its metadata and its serialized form.
#[derive(Debug)]
pub struct Track {
    pub info: TrackInfo,
    pub track: Vec<u8>,
}

impl Track {
    /// The serialized form of the track, base64-encoded as the audio node
    /// expects it when told to play.
    pub fn encoded(&self) -> (r: String)
        ensures
            r@ == base64_of(self.track@),
            base64_decoded(r@) == Some(self.track@),
    {
        base64_encode(self.track.as_slice())
    }
}

/// Decodes a track's base64-encoded serialized form; text that is not
/// valid standard base64 is a typed error.
pub fn decode_track(track: &str) -> (r: Result<Vec<u8>, CacheError>)
    ensures
        r matches Ok(out) ==> base64_decoded(track@) == Some(out@),
        r is Err ==> base64_decoded(track@) is None,
        r matches Err(e) ==> e == CacheError::InvalidBase64,
{
    base64_decode(track)
}

} // verus!
