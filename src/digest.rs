//! Content digests and the printable text that carries binary values.
use vstd::prelude::*;
use base64ct::Encoding;

verus! {

/// The BLAKE3 digest of a byte string.
pub uninterp spec fn blake3_of(data: Seq<u8>) -> Seq<u8>;

/// The standard, padded Base64 text of a byte string.
pub uninterp spec fn base64_of(data: Seq<u8>) -> Seq<char>;

/// The printable content hash of a byte string.
pub open spec fn hash_text(data: Seq<u8>) -> Seq<char> {
    base64_of(blake3_of(data))
}

/// The bytes that a standard, padded Base64 text stands for, if it is one.
pub uninterp spec fn base64_decoded_of(text: Seq<char>) -> Option<Seq<u8>>;

#[verifier::external_type_specification]
#[verifier::external_body]
pub struct ExBase64Error(base64ct::Error);

/// Relies on blake3::hash, whose output is the 32 bytes of the BLAKE3 digest.
#[verifier::external_body]
fn blake3_digest(data: &[u8]) -> (r: Vec<u8>)
    ensures
        r@ == blake3_of(data@),
        r@.len() == 32,
{
    blake3::hash(data).as_bytes().to_vec()
}

/// Relies on base64ct's `Base64::encode_string` (standard alphabet, padded),
/// which panics when the input is longer than a quarter of `usize::MAX`.
#[verifier::external_body]
pub(crate) fn base64_encode(data: &[u8]) -> (r: String)
    requires
        data@.len() <= usize::MAX / 4,
    ensures
        r@ == base64_of(data@),
        base64_decoded_of(r@) == Some(data@),
{
    base64ct::Base64::encode_string(data)
}

/// Relies on base64ct's `Base64::decode_vec`, which decodes strictly: it
/// re-encodes the last block and so accepts only text that `encode_string`
/// produces, and it decodes every such text back to its bytes.
#[verifier::external_body]
pub(crate) fn base64_decode(text: &str) -> (r: Result<Vec<u8>, base64ct::Error>)
    ensures
        match r {
            Ok(v) => base64_decoded_of(text@) == Some(v@) && base64_of(v@) == text@,
            Err(_) => base64_decoded_of(text@) is None,
        },
{
    base64ct::Base64::decode_vec(text)
}

/// The content hash of a byte string: its BLAKE3 digest as Base64 text.
pub fn content_hash(data: &[u8]) -> (r: String)
    ensures
        r@ == hash_text(data@),
{
    let digest = blake3_digest(data);
    base64_encode(digest.as_slice())
}

} // verus!
