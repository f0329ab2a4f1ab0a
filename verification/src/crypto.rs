//! The cryptographic primitives this library relies on: SHA-256 (sha2),
//! Ed25519 verification (ed25519-dalek) and Bech32 decoding (bech32).
//! Each is reached through one small wrapper whose contract names the
//! result of the outside function.
use vstd::prelude::*;
use sha2::Digest;
use ed25519_dalek::Verifier;

verus! {

/// The SHA-256 digest of `data`.
pub uninterp spec fn sha256_digest(data: Seq<u8>) -> Seq<u8>;

/// Whether `bytes` is the compressed form of a point on the Ed25519 curve,
/// that is, whether `VerifyingKey::from_bytes` accepts it.
pub uninterp spec fn ed25519_key_decodes(bytes: Seq<u8>) -> bool;

/// Whether `signature` is a valid Ed25519 signature of `message` under the
/// (decodable) public key `key`, as `VerifyingKey::verify` decides it.
pub uninterp spec fn ed25519_signature_verifies(key: Seq<u8>, message: Seq<u8>, signature: Seq<u8>) -> bool;

/// The lower-case human readable part that `bech32::decode` returns for
/// `address`, or `None` where it returns an error.
pub uninterp spec fn bech32_hrp(address: Seq<char>) -> Option<Seq<char>>;

/// Calls `sha2::Sha256::digest` (the `Digest` trait of sha2) on `data`.
/// Trusted: the 32 bytes returned are the digest named by `sha256_digest`.
#[verifier::external_body]
pub(crate) fn sha256(data: &[u8]) -> (res: [u8; 32])
    ensures
        res@ == sha256_digest(data@),
{
    sha2::Sha256::digest(data).into()
}

/// Calls `ed25519_dalek::VerifyingKey::from_bytes` and tells whether it
/// returned `Ok`. Trusted: the answer is the one named by `ed25519_key_decodes`.
#[verifier::external_body]
pub(crate) fn ed25519_key_is_valid(key: &[u8; 32]) -> (res: bool)
    ensures
        res == ed25519_key_decodes(key@),
{
    ed25519_dalek::VerifyingKey::from_bytes(key).is_ok()
}

/// Calls `Verifier::verify` of `ed25519_dalek::VerifyingKey`, after turning
/// the key bytes into a key with `VerifyingKey::from_bytes` and the signature
/// bytes into a signature with `ed25519::Signature::from_bytes`.
/// Trusted: the answer is `true` exactly when the key decodes and the
/// verification named by `ed25519_signature_verifies` succeeds.
#[verifier::external_body]
pub(crate) fn ed25519_verify(key: &[u8; 32], message: &[u8], signature: &[u8; 64]) -> (res: bool)
    ensures
        res == (ed25519_key_decodes(key@) && ed25519_signature_verifies(key@, message@, signature@)),
{
    match ed25519_dalek::VerifyingKey::from_bytes(key) {
        Ok(k) => k.verify(message, &ed25519_dalek::Signature::from_bytes(signature)).is_ok(),
        Err(_) => false,
    }
}

/// Calls `bech32::decode` on `address` and keeps the human readable part.
/// Trusted: the result is the one named by `bech32_hrp`.
#[verifier::external_body]
pub(crate) fn bech32_decode_hrp(address: &str) -> (res: Option<String>)
    ensures
        match res {
            Some(h) => bech32_hrp(address@) == Some(h@),
            None => bech32_hrp(address@).is_none(),
        },
{
    match bech32::decode(address) {
        Ok((hrp, _, _)) => Some(hrp),
        Err(_) => None,
    }
}

} // verus!
