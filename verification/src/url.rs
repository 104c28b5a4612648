//! URLs as base64 text and as SHA-256 digests.
//!
//! The encoding, the decoding and the digest are computed by the `base64` and `sha2`
//! crates. Their results are not spelled out here: each is given a name, and the
//! contracts say no more than that the call returns what the name stands for.

use base64::engine::general_purpose::URL_SAFE;
use base64::DecodeError;
use base64::Engine;
use sha2::Digest;
use sha2::Sha256;
use vstd::prelude::*;

verus! {

/// The error of the `base64` crate for text that is no base64.
#[verifier::external_type_specification]
#[verifier::external_body]
pub struct ExDecodeError(DecodeError);

/// The URL-safe, padded base64 text of the UTF-8 bytes of `text`, as the `base64`
/// crate computes it.
pub uninterp spec fn url_safe_encoding(text: Seq<char>) -> Seq<char>;

/// The bytes that `text` stands for as URL-safe, padded base64, as the `base64` crate
/// computes them, or `None` where that crate refuses the text.
pub uninterp spec fn url_safe_decoding(text: Seq<char>) -> Option<Seq<u8>>;

/// The SHA-256 digest of the UTF-8 bytes of `text`, as the `sha2` crate computes it.
pub uninterp spec fn sha256_of(text: Seq<char>) -> Seq<u8>;

/// The URL as URL-safe, padded base64 text.
///
/// This is `Engine::encode` of `base64::engine::general_purpose::URL_SAFE`. Taken on
/// trust: the result depends on the text alone.
#[verifier::external_body]
pub fn encode_url(url: &str) -> (encoded: String)
    ensures
        encoded@ == url_safe_encoding(url@),
{
    URL_SAFE.encode(url)
}

/// `Engine::decode` of `base64::engine::general_purpose::URL_SAFE`. Taken on trust:
/// whether the text is accepted, and the bytes it then gives, depend on the text alone.
#[verifier::external_body]
fn url_safe_decode(text: &str) -> (r: Result<Vec<u8>, DecodeError>)
    ensures
        r is Ok <==> url_safe_decoding(text@) is Some,
        r matches Ok(bytes) ==> url_safe_decoding(text@) == Some(bytes@),
{
    URL_SAFE.decode(text)
}

/// The bytes of a URL that is given as URL-safe, padded base64 text.
///
/// The text must be base64: `try_decode_url` tells whether it is.
pub fn decode_url(url: &str) -> (bytes: Vec<u8>)
    requires
        url_safe_decoding(url@) is Some,
    ensures
        url_safe_decoding(url@) == Some(bytes@),
{
    match url_safe_decode(url) {
        Ok(bytes) => bytes,
        Err(_) => Vec::new(),
    }
}

/// The bytes of a URL that is given as URL-safe, padded base64 text, or `None` if the
/// text is no such base64.
pub fn try_decode_url(url: &str) -> (bytes: Option<Vec<u8>>)
    ensures
        bytes is Some <==> url_safe_decoding(url@) is Some,
        bytes matches Some(found) ==> url_safe_decoding(url@) == Some(found@),
{
    match url_safe_decode(url) {
        Ok(_) => Some(decode_url(url)),
        Err(_) => None,
    }
}

/// The SHA-256 digest of a URL.
///
/// This is `Digest::finalize` of a `sha2::Sha256` that was fed the URL. Taken on
/// trust: the result depends on the text alone.
#[verifier::external_body]
pub fn url_digest(url: &str) -> (digest: Vec<u8>)
    ensures
        digest@ == sha256_of(url@),
{
    let mut hasher = Sha256::new();
    hasher.update(url);
    hasher.finalize().to_vec()
}

} // verus!
