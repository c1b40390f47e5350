//! Trusted wrappers around the cryptographic primitives the library
//! consumes: SHA-1 and SHA-256 digests, standard base64, RSA PKCS#1 v1.5
//! signing and verification, and Ed25519 signing and verification.
//!
//! Each digest, encoding or signature below is a pure function of its
//! byte arguments; the library names those results with uninterpreted
//! spec functions and states nothing further about their values.

use vstd::prelude::*;

use base64::Engine;
use ed25519_dalek::Signer;
use rsa::traits::SignatureScheme;
use sha1::Digest;

verus! {

/// The SHA-1 digest (20 bytes) of a byte sequence.
pub uninterp spec fn spec_sha1(data: Seq<u8>) -> Seq<u8>;

/// The SHA-256 digest (32 bytes) of a byte sequence.
pub uninterp spec fn spec_sha256(data: Seq<u8>) -> Seq<u8>;

/// The standard base64 encoding (with padding) of a byte sequence.
pub uninterp spec fn spec_base64(data: Seq<u8>) -> Seq<char>;

/// What standard base64 decoding yields: `None` for text the decoder
/// rejects.
pub uninterp spec fn spec_base64_decode(s: Seq<char>) -> Option<Seq<u8>>;

/// Whether the RSA PKCS#1 v1.5 signature `sig` over the already hashed
/// SHA-1 digest `hashed` verifies under the PKCS#1-DER public key `der`
/// (false as well when `der` does not parse).
pub uninterp spec fn spec_rsa_sha1_verify(der: Seq<u8>, hashed: Seq<u8>, sig: Seq<u8>) -> bool;

/// As `spec_rsa_sha1_verify`, for SHA-256 digests.
pub uninterp spec fn spec_rsa_sha256_verify(der: Seq<u8>, hashed: Seq<u8>, sig: Seq<u8>) -> bool;

/// Whether the 64-byte Ed25519 signature `sig` over `msg` verifies under
/// the 32-byte public key `key` (false as well when `key` is not a valid
/// curve point).
pub uninterp spec fn spec_ed25519_verify(key: Seq<u8>, msg: Seq<u8>, sig: Seq<u8>) -> bool;

/// Whether `der` parses as a PKCS#1-DER RSA public key.
pub uninterp spec fn spec_rsa_key_ok(der: Seq<u8>) -> bool;

/// Whether a 32-byte string is a valid Ed25519 public key.
pub uninterp spec fn spec_ed25519_key_ok(key: Seq<u8>) -> bool;

/// What PKCS#1 v1.5 signing with SHA-1 yields under the PKCS#1-DER
/// private key `der`: `None` when the key does not parse or signing
/// fails.
pub uninterp spec fn spec_rsa_sha1_sign(der: Seq<u8>, hashed: Seq<u8>) -> Option<Seq<u8>>;

/// As `spec_rsa_sha1_sign`, for SHA-256 digests.
pub uninterp spec fn spec_rsa_sha256_sign(der: Seq<u8>, hashed: Seq<u8>) -> Option<Seq<u8>>;

/// The 64-byte Ed25519 signature over `msg` under the signing key with
/// the 32-byte seed `seed`.
pub uninterp spec fn spec_ed25519_sign(seed: Seq<u8>, msg: Seq<u8>) -> Seq<u8>;

/// Relies on sha1::Sha1 (the `Digest` trait): a 20-byte digest that
/// depends on the input bytes alone.
#[verifier::external_body]
pub(crate) fn sha1_digest(data: &[u8]) -> (r: Vec<u8>)
    ensures
        r@ == spec_sha1(data@),
        r@.len() == 20,
{
    sha1::Sha1::digest(data).to_vec()
}

/// Relies on sha2::Sha256 (the `Digest` trait): a 32-byte digest that
/// depends on the input bytes alone.
#[verifier::external_body]
pub(crate) fn sha256_digest(data: &[u8]) -> (r: Vec<u8>)
    ensures
        r@ == spec_sha256(data@),
        r@.len() == 32,
{
    sha2::Sha256::digest(data).to_vec()
}

/// Relies on base64's STANDARD engine: the encoding depends on the input
/// bytes alone, and an empty input encodes to an empty string.
#[verifier::external_body]
pub(crate) fn base64_encode(data: &[u8]) -> (r: String)
    ensures
        r@ == spec_base64(data@),
        data@.len() == 0 ==> r@.len() == 0,
{
    base64::engine::general_purpose::STANDARD.encode(data)
}

/// Relies on base64's STANDARD engine: decoding depends on the input
/// text alone, and rejects exactly what the engine rejects.
#[verifier::external_body]
pub(crate) fn base64_decode(s: &str) -> (r: Option<Vec<u8>>)
    ensures
        (match r {
            Some(v) => spec_base64_decode(s@) == Some(v@),
            None => spec_base64_decode(s@) is None,
        }),
{
    match base64::engine::general_purpose::STANDARD.decode(s) {
        Ok(v) => Some(v),
        Err(_) => None,
    }
}

/// Relies on rsa::Pkcs1v15Sign::verify with SHA-1, on the key parsed by
/// rsa::pkcs1::DecodeRsaPublicKey::from_pkcs1_der: acceptance depends on
/// the three byte strings alone.
#[verifier::external_body]
pub(crate) fn rsa_sha1_verify(der: &[u8], hashed: &[u8], sig: &[u8]) -> (r: bool)
    ensures
        r == spec_rsa_sha1_verify(der@, hashed@, sig@),
{
    let key: rsa::RsaPublicKey = match rsa::pkcs1::DecodeRsaPublicKey::from_pkcs1_der(der) {
        Ok(k) => k,
        Err(_) => return false,
    };
    rsa::Pkcs1v15Sign::new::<sha1::Sha1>().verify(&key, hashed, sig).is_ok()
}

/// Relies on rsa::Pkcs1v15Sign::verify with SHA-256, on the key parsed
/// by rsa::pkcs1::DecodeRsaPublicKey::from_pkcs1_der: acceptance depends
/// on the three byte strings alone.
#[verifier::external_body]
pub(crate) fn rsa_sha256_verify(der: &[u8], hashed: &[u8], sig: &[u8]) -> (r: bool)
    ensures
        r == spec_rsa_sha256_verify(der@, hashed@, sig@),
{
    let key: rsa::RsaPublicKey = match rsa::pkcs1::DecodeRsaPublicKey::from_pkcs1_der(der) {
        Ok(k) => k,
        Err(_) => return false,
    };
    rsa::Pkcs1v15Sign::new::<sha2::Sha256>().verify(&key, hashed, sig).is_ok()
}

/// Relies on ed25519_dalek::VerifyingKey::verify_strict: acceptance
/// depends on the key, message and signature bytes alone.
#[verifier::external_body]
pub(crate) fn ed25519_verify(key: &[u8], msg: &[u8], sig: &[u8]) -> (r: bool)
    requires
        key@.len() == 32,
        sig@.len() == 64,
    ensures
        r == spec_ed25519_verify(key@, msg@, sig@),
{
    let key_bytes: [u8; 32] = match key.try_into() {
        Ok(b) => b,
        Err(_) => return false,
    };
    let sig_bytes: [u8; 64] = match sig.try_into() {
        Ok(b) => b,
        Err(_) => return false,
    };
    let vk = match ed25519_dalek::VerifyingKey::from_bytes(&key_bytes) {
        Ok(k) => k,
        Err(_) => return false,
    };
    vk.verify_strict(msg, &ed25519_dalek::Signature::from_bytes(&sig_bytes)).is_ok()
}

/// Relies on rsa::pkcs1::DecodeRsaPublicKey::from_pkcs1_der: whether the
/// bytes parse depends on the bytes alone.
#[verifier::external_body]
pub(crate) fn rsa_key_parses(der: &[u8]) -> (r: bool)
    ensures
        r == spec_rsa_key_ok(der@),
{
    let parsed: Result<rsa::RsaPublicKey, _> = rsa::pkcs1::DecodeRsaPublicKey::from_pkcs1_der(
        der,
    );
    parsed.is_ok()
}

/// Relies on ed25519_dalek::VerifyingKey::from_bytes: whether a 32-byte
/// string is a valid public key depends on the bytes alone.
#[verifier::external_body]
pub(crate) fn ed25519_key_parses(key: &[u8]) -> (r: bool)
    requires
        key@.len() == 32,
    ensures
        r == spec_ed25519_key_ok(key@),
{
    let key_bytes: [u8; 32] = match key.try_into() {
        Ok(b) => b,
        Err(_) => return false,
    };
    ed25519_dalek::VerifyingKey::from_bytes(&key_bytes).is_ok()
}

/// Relies on rsa::RsaPrivateKey::sign with Pkcs1v15 SHA-1 padding, on
/// the key parsed by rsa::pkcs1::DecodeRsaPrivateKey::from_pkcs1_der;
/// this padding signs deterministically.
#[verifier::external_body]
pub(crate) fn rsa_sha1_sign(der: &[u8], hashed: &[u8]) -> (r: Option<Vec<u8>>)
    ensures
        (match r {
            Some(v) => spec_rsa_sha1_sign(der@, hashed@) == Some(v@),
            None => spec_rsa_sha1_sign(der@, hashed@) is None,
        }),
{
    let key: rsa::RsaPrivateKey = match rsa::pkcs1::DecodeRsaPrivateKey::from_pkcs1_der(der) {
        Ok(k) => k,
        Err(_) => return None,
    };
    key.sign(rsa::Pkcs1v15Sign::new::<sha1::Sha1>(), hashed).ok()
}

/// Relies on rsa::RsaPrivateKey::sign with Pkcs1v15 SHA-256 padding, on
/// the key parsed by rsa::pkcs1::DecodeRsaPrivateKey::from_pkcs1_der;
/// this padding signs deterministically.
#[verifier::external_body]
pub(crate) fn rsa_sha256_sign(der: &[u8], hashed: &[u8]) -> (r: Option<Vec<u8>>)
    ensures
        (match r {
            Some(v) => spec_rsa_sha256_sign(der@, hashed@) == Some(v@),
            None => spec_rsa_sha256_sign(der@, hashed@) is None,
        }),
{
    let key: rsa::RsaPrivateKey = match rsa::pkcs1::DecodeRsaPrivateKey::from_pkcs1_der(der) {
        Ok(k) => k,
        Err(_) => return None,
    };
    key.sign(rsa::Pkcs1v15Sign::new::<sha2::Sha256>(), hashed).ok()
}

/// Relies on ed25519_dalek::SigningKey::sign, which is deterministic in
/// the seed and message, and always yields 64 bytes.
#[verifier::external_body]
pub(crate) fn ed25519_sign(seed: &[u8], msg: &[u8]) -> (r: Vec<u8>)
    requires
        seed@.len() == 32,
    ensures
        r@ == spec_ed25519_sign(seed@, msg@),
        r@.len() == 64,
{
    let seed_bytes: [u8; 32] = seed.try_into().expect("seed length checked by contract");
    let sk = ed25519_dalek::SigningKey::from_bytes(&seed_bytes);
    sk.sign(msg).to_bytes().to_vec()
}

/// Whether `der` parses as an RSA public key in either SubjectPublicKeyInfo
/// or PKCS#1 DER form.
pub uninterp spec fn spec_rsa_any_der_ok(der: Seq<u8>) -> bool;

#[verifier::external_type_specification]
#[verifier::external_body]
pub struct ExRsaPublicKey(rsa::RsaPublicKey);

/// Relies on rsa::pkcs8::DecodePublicKey::from_public_key_der, falling
/// back to rsa::pkcs1::DecodeRsaPublicKey::from_pkcs1_der: whether the
/// bytes parse depends on the bytes alone.
#[verifier::external_body]
pub(crate) fn rsa_pub_from_any_der(der: &[u8]) -> (r: Option<rsa::RsaPublicKey>)
    ensures
        (r is Some) == spec_rsa_any_der_ok(der@),
{
    let spki: Result<rsa::RsaPublicKey, _> = rsa::pkcs8::DecodePublicKey::from_public_key_der(
        der,
    );
    match spki {
        Ok(k) => Some(k),
        Err(_) => rsa::pkcs1::DecodeRsaPublicKey::from_pkcs1_der(der).ok(),
    }
}

} // verus!
