use vstd::prelude::*;
use crate::model::RouteError;

verus! {

#[verifier::external_type_specification]
#[verifier::external_body]
pub struct ExDecodeError(base64_url::base64::DecodeError);

/// The SHA-256 digest of `data`.
pub uninterp spec fn sha256_of(data: Seq<u8>) -> Seq<u8>;

/// The bytes that URL-safe unpadded base64 text `text` stands for, or `None`
/// where it is not such text.
pub uninterp spec fn base64url_decode_of(text: Seq<char>) -> Option<Seq<u8>>;

/// The URL-safe unpadded base64 text of `data`.
pub uninterp spec fn base64url_encode_of(data: Seq<u8>) -> Seq<char>;

/// The address of an owner whose key is the URL-safe base64 text `owner`:
/// the URL-safe base64 text of the SHA-256 digest of the key.
pub open spec fn owner_address_of(owner: Seq<char>) -> Option<Seq<char>> {
    match base64url_decode_of(owner) {
        Some(key) => Some(base64url_encode_of(sha256_of(key))),
        None => None,
    }
}

/// Relies on `sha2::Sha256` through `sha2::Digest::digest`: the SHA-256
/// digest of `data`, which is 32 bytes long.
#[verifier::external_body]
pub fn hash(data: &[u8]) -> (r: Vec<u8>)
    ensures
        r@ == sha256_of(data@),
        r@.len() == 32,
{
    <sha2::Sha256 as sha2::Digest>::digest(data).to_vec()
}

/// Relies on `base64_url::decode` (URL-safe alphabet, no padding): the bytes
/// depend on the text alone, and an error comes exactly where the text is
/// not valid.
#[verifier::external_body]
fn base64url_decode(text: &str) -> (r: Result<Vec<u8>, base64_url::base64::DecodeError>)
    ensures
        match r {
            Ok(v) => base64url_decode_of(text@) == Some(v@),
            Err(_) => base64url_decode_of(text@) is None,
        },
{
    base64_url::decode(text)
}

/// Relies on `base64_url::encode` (URL-safe alphabet, no padding): the text
/// depends on the bytes alone.
#[verifier::external_body]
fn base64url_encode(data: &[u8]) -> (r: String)
    ensures
        r@ == base64url_encode_of(data@),
{
    base64_url::encode(data)
}

/// The address of the owner whose key is the URL-safe base64 text `owner`.
pub fn owner_address(owner: &str) -> (r: Result<String, RouteError>)
    ensures
        match owner_address_of(owner@) {
            Some(a) => r matches Ok(s) && s@ == a,
            None => r matches Err(RouteError::BadRequest(_)),
        },
{
    let key = match base64url_decode(owner) {
        Ok(k) => k,
        Err(_) => {
            return Err(RouteError::BadRequest("failed to parse owner".to_string()));
        },
    };
    let digest = hash(key.as_slice());
    Ok(base64url_encode(digest.as_slice()))
}

} // verus!
