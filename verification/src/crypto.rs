//! Digests, Base58 and P-256 ECDSA, as the crates that compute them define them.
use vstd::prelude::*;

verus! {

/// The SHA-256 digest of a byte string.
pub uninterp spec fn sha256(data: Seq<u8>) -> Seq<u8>;

/// The RIPEMD-160 digest of a byte string.
pub uninterp spec fn ripemd160(data: Seq<u8>) -> Seq<u8>;

/// The Base58 text of a byte string in the Bitcoin alphabet.
pub uninterp spec fn base58(data: Seq<u8>) -> Seq<char>;

/// The SEC1 uncompressed encoding of the public key that belongs to a P-256
/// secret scalar, or `None` where the bytes are no secret scalar.
pub uninterp spec fn p256_public_key(secret: Seq<u8>) -> Option<Seq<u8>>;

/// The deterministic ECDSA signature over the SHA-256 digest of a message, as
/// `r` and `s` side by side, or `None` where no signature is made.
pub uninterp spec fn ecdsa_signature(secret: Seq<u8>, message: Seq<u8>) -> Option<Seq<u8>>;

/// Whether a signature of `r` and `s` side by side verifies for a message under
/// a SEC1-encoded public key.
pub uninterp spec fn ecdsa_verifies(public_key: Seq<u8>, message: Seq<u8>, signature: Seq<u8>) -> bool;

/// `sha2::Sha256::digest`: the SHA-256 digest, which is 32 bytes long.
#[verifier::external_body]
pub(crate) fn sha256_digest(data: &[u8]) -> (digest: Vec<u8>)
    ensures
        digest@ == sha256(data@),
        digest@.len() == 32,
{
    <sha2::Sha256 as sha2::Digest>::digest(data).to_vec()
}

/// `ripemd160::Ripemd160::digest`: the RIPEMD-160 digest, which is 20 bytes long.
#[verifier::external_body]
pub(crate) fn ripemd160_digest(data: &[u8]) -> (digest: Vec<u8>)
    ensures
        digest@ == ripemd160(data@),
        digest@.len() == 20,
{
    <ripemd160::Ripemd160 as ripemd160::Digest>::digest(data).to_vec()
}

/// `bs58::encode(..).into_string()`: the Base58 text in the default, Bitcoin, alphabet.
#[verifier::external_body]
pub(crate) fn base58_encode(data: &[u8]) -> (text: String)
    ensures
        text@ == base58(data@),
{
    bs58::encode(data).into_string()
}

/// `SigningKey::random` with the operating system's generator, then `to_bytes`:
/// 32 bytes that are a secret scalar, so a public key belongs to them. The
/// call does not return where the operating system has no random bytes to give.
#[verifier::external_body]
pub(crate) fn p256_random_secret() -> (secret: Vec<u8>)
    ensures
        secret@.len() == 32,
        p256_public_key(secret@) is Some,
{
    let key = p256::ecdsa::SigningKey::random(&mut p256::elliptic_curve::rand_core::OsRng);
    key.to_bytes().to_vec()
}

/// `SigningKey::from_slice`, then `verifying_key().to_encoded_point(false)`:
/// the uncompressed SEC1 form of the public key, 65 bytes that start with `0x04`,
/// or nothing where the bytes are no secret scalar.
#[verifier::external_body]
pub(crate) fn p256_public(secret: &[u8]) -> (key: Option<Vec<u8>>)
    ensures
        match p256_public_key(secret@) {
            Some(k) => key is Some && key.unwrap()@ == k,
            None => key is None,
        },
        key is Some ==> key.unwrap()@.len() == 65 && key.unwrap()@[0] == 4u8,
{
    match p256::ecdsa::SigningKey::from_slice(secret) {
        Ok(k) => Some(k.verifying_key().to_encoded_point(false).as_bytes().to_vec()),
        Err(_) => None,
    }
}

/// `SigningKey::from_slice`, then `Signer::try_sign`, then `Signature::to_bytes`:
/// the signature that RFC 6979 fixes for the key and the message, 64 bytes, or
/// nothing where the bytes are no secret scalar or no signature is made. A
/// signature that was made verifies for the same message under the public key
/// that belongs to the secret.
#[verifier::external_body]
pub(crate) fn p256_sign(secret: &[u8], message: &[u8]) -> (signature: Option<Vec<u8>>)
    ensures
        match ecdsa_signature(secret@, message@) {
            Some(s) => signature is Some && signature.unwrap()@ == s,
            None => signature is None,
        },
        signature is Some ==> signature.unwrap()@.len() == 64,
        signature is Some ==> p256_public_key(secret@) is Some && ecdsa_verifies(
            p256_public_key(secret@).unwrap(),
            message@,
            signature.unwrap()@,
        ),
{
    let key = match p256::ecdsa::SigningKey::from_slice(secret) {
        Ok(k) => k,
        Err(_) => return None,
    };
    let made: Result<p256::ecdsa::Signature, p256::ecdsa::Error> =
        p256::ecdsa::signature::Signer::try_sign(&key, message);
    match made {
        Ok(s) => Some(s.to_bytes().to_vec()),
        Err(_) => None,
    }
}

/// `VerifyingKey::from_sec1_bytes`, `Signature::from_slice` and
/// `Verifier::verify`: whether both parse and the signature verifies.
#[verifier::external_body]
pub(crate) fn p256_verify(public_key: &[u8], message: &[u8], signature: &[u8]) -> (valid: bool)
    ensures
        valid == ecdsa_verifies(public_key@, message@, signature@),
{
    let key = match p256::ecdsa::VerifyingKey::from_sec1_bytes(public_key) {
        Ok(k) => k,
        Err(_) => return false,
    };
    let parsed = match p256::ecdsa::Signature::from_slice(signature) {
        Ok(s) => s,
        Err(_) => return false,
    };
    p256::ecdsa::signature::Verifier::verify(&key, message, &parsed).is_ok()
}

} // verus!
