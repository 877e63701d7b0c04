//! Base64, base58 and SHA-256.

use base64::Engine;
use sha2::{Digest, Sha256};
use vstd::prelude::*;

verus! {

/// What `base64`'s standard engine decodes a text to: the bytes, or the text of
/// its error.
pub uninterp spec fn base64_decoded(text: Seq<char>) -> Result<Seq<u8>, Seq<char>>;

/// Calls `decode` of `base64::engine::general_purpose::STANDARD`. The bytes, or
/// the error's own text, are named by `base64_decoded`.
#[verifier::external_body]
pub(crate) fn decode_base64(text: &str) -> (decoded: Result<Vec<u8>, String>)
    ensures
        decoded is Ok <==> base64_decoded(text@) is Ok,
        decoded matches Ok(bytes) ==> base64_decoded(text@)->Ok_0 == bytes@,
        decoded matches Err(error) ==> base64_decoded(text@)->Err_0 == error@,
{
    base64::engine::general_purpose::STANDARD.decode(text).map_err(|error| error.to_string())
}

/// The text that `bs58::encode` makes of bytes.
pub uninterp spec fn base58(bytes: Seq<u8>) -> Seq<char>;

/// Calls `bs58::encode` and `into_string` on what it returns. The text is named
/// by `base58`.
#[verifier::external_body]
pub(crate) fn encode_base58(bytes: &[u8]) -> (text: String)
    ensures
        text@ == base58(bytes@),
{
    bs58::encode(bytes).into_string()
}

/// The digest that `sha2::Sha256` gives of bytes.
pub uninterp spec fn sha256(bytes: Seq<u8>) -> Seq<u8>;

/// Feeds the bytes to a new `sha2::Sha256` and finishes it. The 32 bytes of the
/// digest are named by `sha256`.
#[verifier::external_body]
pub(crate) fn sha256_digest(bytes: &[u8]) -> (digest: [u8; 32])
    ensures
        digest@ == sha256(bytes@),
{
    let mut hasher = Sha256::new();
    hasher.update(bytes);
    hasher.finalize().into()
}

} // verus!
