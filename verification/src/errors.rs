//! The error taxonomy of the library: one variant per distinguishable
//! verification or resolution outcome.

use vstd::prelude::*;

verus! {

/// Everything that can go wrong while validating, resolving or verifying a
/// DKIM signature.  Per-signature errors never abort the enumeration of the
/// candidate signatures; the verifier records the last one and reports it
/// when no candidate passes.
#[derive(Debug, Clone, PartialEq, Eq)]
pub enum DKIMError {
    /// Malformed tag-list, bad base64, or an Ed25519 signature that is not
    /// 64 bytes long.
    SignatureSyntaxError(String),
    /// One of the required tags (`v`, `a`, `b`, `bh`, `d`, `h`, `s`) is
    /// absent from the signature header.
    SignatureMissingRequiredTag(&'static str),
    /// The `v=` tag is present but not `1`.
    IncompatibleVersion,
    /// The `i=` tag is not within the domain of the `d=` tag.
    DomainMismatch,
    /// `from` does not appear in the `h=` list of signed headers.
    FromFieldNotSigned,
    /// The `q=` tag is present and is not `dns/txt`.
    UnsupportedQueryMethod,
    /// The `a=` tag names an algorithm other than `rsa-sha1`, `rsa-sha256`
    /// or `ed25519-sha256`.
    UnsupportedHashAlgorithm(String),
    /// The `c=` tag names a canonicalization other than `simple` or
    /// `relaxed`.
    UnsupportedCanonicalizationType(String),
    /// The public key could not be retrieved or parsed.
    KeyUnavailable(String),
    /// The key record carries an empty `p=` tag: the key was revoked.
    KeyRevoked,
    /// The key record uses a key type the library does not support.
    KeyUnsupported(String),
    /// The key record is not a well-formed tag-list.
    KeySyntaxError(String),
    /// The computed body hash does not match the `bh=` tag.
    BodyHashDidNotVerify,
    /// The cryptographic check of the signature failed.
    SignatureDidNotVerify,
    /// The `x=` tag lies more than the allowed drift in the past.
    SignatureExpired,
    /// A wrapped transport or construction failure.
    UnknownInternalError(String),
}

} // verus!
