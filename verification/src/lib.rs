//! Verification and production of DKIM signatures (RFC 6376).
//!
//! The library parses `DKIM-Signature` tag-lists, canonicalizes message
//! headers and bodies with the `simple` and `relaxed` algorithms, computes
//! body and header hashes, resolves signing keys through an injected DNS
//! lookup capability, and checks RSA-PKCS#1-v1.5 or Ed25519 signatures.

pub mod bytes;
pub mod crypto;
pub mod dns;
pub mod mail;
pub mod canonicalization;
pub mod errors;
pub mod hash;
pub mod header;
pub mod laws;
pub mod parser;
pub mod public_key;
pub mod result;
pub mod sign;
pub mod strutil;

pub use errors::DKIMError;
pub use result::DKIMResult;
pub use header::DKIMHeader;
pub use parser::tag_list as parse_tag_list;
pub use parser::Tag;
pub use sign::{DKIMSigner, SignerBuilder};
pub use public_key::DkimPublicKey;


use vstd::prelude::*;

verus! {

use crate::header::{
    spec_first_missing_from,
    spec_get_tag_in,
    spec_h_contains_from,
    spec_header_wf,
    spec_required_names,
    spec_within_domain,
};
use crate::parser::spec_tag_list;

/// What `validate_header` promises: the checks of RFC 6376 §6.1.1, in
/// order, each with the exact error it raises.
pub open spec fn spec_validate_post(s: Seq<char>, r: Result<DKIMHeader, DKIMError>) -> bool {
    match spec_tag_list(s) {
        None => r matches Err(e) && e is SignatureSyntaxError,
        Some(ts) => {
            let miss = spec_first_missing_from(ts, 0);
            let v = spec_get_tag_in(ts, seq!['v']);
            let d = spec_get_tag_in(ts, seq!['d']);
            let h = spec_get_tag_in(ts, seq!['h']);
            let i = spec_get_tag_in(ts, seq!['i']);
            let q = spec_get_tag_in(ts, seq!['q']);
            if miss < spec_required_names().len() {
                r matches Err(e) && e matches DKIMError::SignatureMissingRequiredTag(t)
                    && t@ == spec_required_names()[miss]
            } else if v.unwrap() != seq!['1'] {
                r matches Err(e) && e is IncompatibleVersion
            } else if i is Some && !spec_within_domain(i.unwrap(), d.unwrap()) {
                r matches Err(e) && e is DomainMismatch
            } else if !spec_h_contains_from(h.unwrap()) {
                r matches Err(e) && e is FromFieldNotSigned
            } else if q is Some && q.unwrap() != seq!['d', 'n', 's', '/', 't', 'x', 't'] {
                r matches Err(e) && e is UnsupportedQueryMethod
            } else {
                r matches Ok(hd) && hd.spec_tags() == ts && hd.raw_bytes@ == s
            }
        },
    }
}

/// Validate the textual value of a `DKIM-Signature` header per RFC 6376
/// §6.1.1: parse its tag-list, check that the required tags are present,
/// that `v=1`, that an `i=` identity lies within the signing domain, that
/// `from` is among the signed headers, and that any `q=` names `dns/txt`.
pub fn validate_header(value: &str) -> (r: Result<DKIMHeader, DKIMError>)
    ensures
        spec_validate_post(value@, r),
{
    let tags = match parser::tag_list(value) {
        Ok(t) => t,
        Err(e) => {
            return Err(e);
        },
    };
    let hd = DKIMHeader { tags, raw_bytes: value.to_owned() };
    let ghost ts = hd.spec_tags();
    proof {
        reveal_strlit("v");
        reveal_strlit("a");
        reveal_strlit("b");
        reveal_strlit("bh");
        reveal_strlit("d");
        reveal_strlit("h");
        reveal_strlit("s");
        reveal_strlit("i");
        reveal_strlit("q");
        reveal_strlit("1");
        reveal_strlit("dns/txt");
        assert("v"@ =~= seq!['v']);
        assert("a"@ =~= seq!['a']);
        assert("b"@ =~= seq!['b']);
        assert("bh"@ =~= seq!['b', 'h']);
        assert("d"@ =~= seq!['d']);
        assert("h"@ =~= seq!['h']);
        assert("s"@ =~= seq!['s']);
        assert("i"@ =~= seq!['i']);
        assert("q"@ =~= seq!['q']);
        assert("1"@ =~= seq!['1']);
        assert("dns/txt"@ =~= seq!['d', 'n', 's', '/', 't', 'x', 't']);
    }
    // Check the required tags, in reporting order.
    if hd.get_tag("v").is_none() {
        return Err(DKIMError::SignatureMissingRequiredTag("v"));
    }
    if hd.get_tag("a").is_none() {
        proof {
            assert(spec_first_missing_from(ts, 0) == spec_first_missing_from(ts, 1));
            assert(spec_first_missing_from(ts, 1) == 1int);
        }
        return Err(DKIMError::SignatureMissingRequiredTag("a"));
    }
    if hd.get_tag("b").is_none() {
        proof {
            assert(spec_first_missing_from(ts, 0) == spec_first_missing_from(ts, 1));
            assert(spec_first_missing_from(ts, 1) == spec_first_missing_from(ts, 2));
            assert(spec_first_missing_from(ts, 2) == 2int);
        }
        return Err(DKIMError::SignatureMissingRequiredTag("b"));
    }
    if hd.get_tag("bh").is_none() {
        proof {
            assert(spec_first_missing_from(ts, 0) == spec_first_missing_from(ts, 1));
            assert(spec_first_missing_from(ts, 1) == spec_first_missing_from(ts, 2));
            assert(spec_first_missing_from(ts, 2) == spec_first_missing_from(ts, 3));
            assert(spec_first_missing_from(ts, 3) == 3int);
        }
        return Err(DKIMError::SignatureMissingRequiredTag("bh"));
    }
    if hd.get_tag("d").is_none() {
        proof {
            assert(spec_first_missing_from(ts, 0) == spec_first_missing_from(ts, 1));
            assert(spec_first_missing_from(ts, 1) == spec_first_missing_from(ts, 2));
            assert(spec_first_missing_from(ts, 2) == spec_first_missing_from(ts, 3));
            assert(spec_first_missing_from(ts, 3) == spec_first_missing_from(ts, 4));
            assert(spec_first_missing_from(ts, 4) == 4int);
        }
        return Err(DKIMError::SignatureMissingRequiredTag("d"));
    }
    if hd.get_tag("h").is_none() {
        proof {
            assert(spec_first_missing_from(ts, 0) == spec_first_missing_from(ts, 1));
            assert(spec_first_missing_from(ts, 1) == spec_first_missing_from(ts, 2));
            assert(spec_first_missing_from(ts, 2) == spec_first_missing_from(ts, 3));
            assert(spec_first_missing_from(ts, 3) == spec_first_missing_from(ts, 4));
            assert(spec_first_missing_from(ts, 4) == spec_first_missing_from(ts, 5));
            assert(spec_first_missing_from(ts, 5) == 5int);
        }
        return Err(DKIMError::SignatureMissingRequiredTag("h"));
    }
    if hd.get_tag("s").is_none() {
        proof {
            assert(spec_first_missing_from(ts, 0) == spec_first_missing_from(ts, 1));
            assert(spec_first_missing_from(ts, 1) == spec_first_missing_from(ts, 2));
            assert(spec_first_missing_from(ts, 2) == spec_first_missing_from(ts, 3));
            assert(spec_first_missing_from(ts, 3) == spec_first_missing_from(ts, 4));
            assert(spec_first_missing_from(ts, 4) == spec_first_missing_from(ts, 5));
            assert(spec_first_missing_from(ts, 5) == spec_first_missing_from(ts, 6));
            assert(spec_first_missing_from(ts, 6) == 6int);
        }
        return Err(DKIMError::SignatureMissingRequiredTag("s"));
    }
    proof {
        assert(spec_first_missing_from(ts, 0) == spec_first_missing_from(ts, 1));
        assert(spec_first_missing_from(ts, 1) == spec_first_missing_from(ts, 2));
        assert(spec_first_missing_from(ts, 2) == spec_first_missing_from(ts, 3));
        assert(spec_first_missing_from(ts, 3) == spec_first_missing_from(ts, 4));
        assert(spec_first_missing_from(ts, 4) == spec_first_missing_from(ts, 5));
        assert(spec_first_missing_from(ts, 5) == spec_first_missing_from(ts, 6));
        assert(spec_first_missing_from(ts, 6) == spec_first_missing_from(ts, 7));
        assert(spec_first_missing_from(ts, 0) == spec_required_names().len());
    }
    // Check the version.
    let version = hd.get_required_tag("v");
    if !strutil::str_eq(version.as_str(), "1") {
        return Err(DKIMError::IncompatibleVersion);
    }
    // Check that an `i=` identity lies within the signing domain.
    match hd.get_tag("i") {
        Some(user) => {
            let signing_domain = hd.get_required_tag("d");
            if !header::within_domain(user.as_str(), signing_domain.as_str()) {
                return Err(DKIMError::DomainMismatch);
            }
        },
        None => {},
    }
    // Check that the `h=` list names the From header.
    let h_value = hd.get_required_tag("h");
    if !header::h_contains_from(h_value.as_str()) {
        return Err(DKIMError::FromFieldNotSigned);
    }
    // Check the query method, when one is given.
    match hd.get_tag("q") {
        Some(query_method) => {
            if !strutil::str_eq(query_method.as_str(), "dns/txt") {
                return Err(DKIMError::UnsupportedQueryMethod);
            }
        },
        None => {},
    }
    Ok(hd)
}

use crate::canonicalization::Type;
use crate::dns::Lookup;
use crate::hash::HashAlgo;
use crate::mail::ParsedEmail;


use vstd::utf8::{decode_utf8, encode_utf8, valid_utf8};

/// The drift allowed past the `x=` expiration time: fifteen minutes.
pub const SIGN_EXPIRATION_DRIFT_SECS: u64 = 900;

/// An RSA or Ed25519 signing key, as plain bytes: the PKCS#1 DER of an
/// RSA private key, or the 32-byte seed of an Ed25519 signing key.
#[derive(Debug, Clone)]
pub enum DkimPrivateKey {
    Rsa(Vec<u8>),
    Ed25519(Vec<u8>),
}

/// The signature bytes `sig` verify over the header hash `hh` under
/// `key` and the `a=` algorithm.
pub open spec fn spec_sig_verifies(
    key: DkimPublicKey,
    algo: HashAlgo,
    hh: Seq<u8>,
    sig: Seq<u8>,
) -> bool {
    match key {
        DkimPublicKey::Rsa(der) => (algo == HashAlgo::RsaSha1 && crypto::spec_rsa_sha1_verify(
            der@,
            hh,
            sig,
        )) || (algo == HashAlgo::RsaSha256 && crypto::spec_rsa_sha256_verify(der@, hh, sig)),
        DkimPublicKey::Ed25519(k) => sig.len() == 64 && crypto::spec_ed25519_verify(k@, hh, sig),
    }
}

/// What `verify_signature` promises: the crypto outcome for a matching
/// key and algorithm, `UnsupportedHashAlgorithm` for `ed25519-sha256`
/// under an RSA key, and `SignatureSyntaxError` for an Ed25519 signature
/// that is not 64 bytes.
pub open spec fn spec_verify_signature_post(
    algo: HashAlgo,
    hh: Seq<u8>,
    sig: Seq<u8>,
    key: DkimPublicKey,
    r: Result<bool, DKIMError>,
) -> bool {
    match key {
        DkimPublicKey::Rsa(der) => match algo {
            HashAlgo::RsaSha1 => r == Ok::<bool, DKIMError>(crypto::spec_rsa_sha1_verify(der@, hh, sig)),
            HashAlgo::RsaSha256 => r == Ok::<bool, DKIMError>(crypto::spec_rsa_sha256_verify(der@, hh, sig)),
            HashAlgo::Ed25519Sha256 => r matches Err(e) && e is UnsupportedHashAlgorithm,
        },
        DkimPublicKey::Ed25519(k) => if sig.len() == 64 {
            r == Ok::<bool, DKIMError>(crypto::spec_ed25519_verify(k@, hh, sig))
        } else {
            r matches Err(e) && e is SignatureSyntaxError
        },
    }
}

/// Check a signature's bytes against the header hash (RFC 6376 §6.1.3
/// step 4), dispatching on the key variant and the `a=` algorithm.
pub fn verify_signature(
    hash_algo: HashAlgo,
    header_hash: &[u8],
    signature: &[u8],
    public_key: &DkimPublicKey,
) -> (r: Result<bool, DKIMError>)
    requires
        public_key.wf(),
    ensures
        spec_verify_signature_post(hash_algo, header_hash@, signature@, *public_key, r),
{
    match public_key {
        DkimPublicKey::Rsa(der) => match hash_algo {
            HashAlgo::RsaSha1 => Ok(
                crypto::rsa_sha1_verify(der.as_slice(), header_hash, signature),
            ),
            HashAlgo::RsaSha256 => Ok(
                crypto::rsa_sha256_verify(der.as_slice(), header_hash, signature),
            ),
            HashAlgo::Ed25519Sha256 => Err(
                DKIMError::UnsupportedHashAlgorithm(
                    String::from_str("an RSA key cannot check an ed25519-sha256 signature"),
                ),
            ),
        },
        DkimPublicKey::Ed25519(k) => {
            if signature.len() == 64 {
                Ok(crypto::ed25519_verify(k.as_slice(), header_hash, signature))
            } else {
                Err(
                    DKIMError::SignatureSyntaxError(
                        String::from_str("an Ed25519 signature must be 64 bytes"),
                    ),
                )
            }
        },
    }
}

/// The `x=` tag (when present) has not expired at `now`, allowing the
/// fifteen-minute drift; a non-numeric value counts as the epoch.
pub open spec fn spec_expiration_ok(x: Option<Seq<char>>, now: u64) -> bool {
    match x {
        None => true,
        Some(s) => {
            let e = if s.len() > 0 && strutil::spec_all_digits(s) {
                strutil::spec_dec_value(s)
            } else {
                0
            };
            now <= e + SIGN_EXPIRATION_DRIFT_SECS
        },
    }
}

/// Check the `x=` expiration tag of a validated signature against an
/// injected clock reading (Unix seconds).
pub fn check_expiration(header: &DKIMHeader, now_unix: u64) -> (r: Result<(), DKIMError>)
    ensures
        (r is Ok) == spec_expiration_ok(
            spec_get_tag_in(header.spec_tags(), seq!['x']),
            now_unix,
        ),
        (r matches Err(e) ==> e is SignatureExpired),
{
    proof {
        reveal_strlit("x");
        assert("x"@ =~= seq!['x']);
    }
    match header.get_tag("x") {
        None => Ok(()),
        Some(xv) => {
            let e: u64 = match strutil::parse_dec_u64(xv.as_str()) {
                Some(v) => v,
                None => 0,
            };
            if e >= now_unix {
                Ok(())
            } else if now_unix - e <= SIGN_EXPIRATION_DRIFT_SECS {
                Ok(())
            } else {
                Err(DKIMError::SignatureExpired)
            }
        },
    }
}

/// A header name names a DKIM signature (case-insensitively).
pub open spec fn spec_is_sig_header(name: Seq<char>) -> bool {
    strutil::spec_lower_chars(name) == seq![
        'd',
        'k',
        'i',
        'm',
        '-',
        's',
        'i',
        'g',
        'n',
        'a',
        't',
        'u',
        'r',
        'e',
    ]
}

/// The textual value of a signature header passes every check of
/// `validate_header`.
pub open spec fn spec_header_valid(s: Seq<char>) -> bool {
    match spec_tag_list(s) {
        None => false,
        Some(ts) => {
            &&& spec_first_missing_from(ts, 0) == spec_required_names().len()
            &&& spec_get_tag_in(ts, seq!['v']).unwrap() == seq!['1']
            &&& (spec_get_tag_in(ts, seq!['i']) is None || spec_within_domain(
                spec_get_tag_in(ts, seq!['i']).unwrap(),
                spec_get_tag_in(ts, seq!['d']).unwrap(),
            ))
            &&& spec_h_contains_from(spec_get_tag_in(ts, seq!['h']).unwrap())
            &&& (spec_get_tag_in(ts, seq!['q']) is None || spec_get_tag_in(ts, seq!['q']).unwrap()
                == seq!['d', 'n', 's', '/', 't', 'x', 't'])
        },
    }
}

/// The signing domain (`d=`) of a valid signature header value.
pub open spec fn spec_sig_domain(s: Seq<char>) -> Seq<char> {
    spec_get_tag_in(spec_tag_list(s).unwrap(), seq!['d']).unwrap()
}

/// The cryptographic content of one signature checks out against `key`:
/// the `a=` algorithm is known, the body hash (unless ignored) matches
/// `bh=`, and the decoded `b=` signature verifies over the header hash.
pub open spec fn spec_sig_crypto_ok(
    ts: Seq<(Seq<char>, Seq<char>)>,
    hdrs: Seq<(Seq<char>, Seq<u8>)>,
    body: Seq<u8>,
    raw: Seq<char>,
    key: DkimPublicKey,
    hc: Type,
    bc: Type,
    ignore_body_hash: bool,
) -> bool {
    match parser::spec_hash_algo_name(spec_get_tag_in(ts, seq!['a']).unwrap()) {
        None => false,
        Some(algo) => {
            &&& (ignore_body_hash || hash::spec_body_hash(
                bc,
                spec_get_tag_in(ts, seq!['l']),
                algo,
                body,
            ) == Some(strutil::spec_strip_fws(spec_get_tag_in(ts, seq!['b', 'h']).unwrap())))
            &&& (match crypto::spec_base64_decode(
                strutil::spec_strip_fws(spec_get_tag_in(ts, seq!['b']).unwrap()),
            ) {
                None => false,
                Some(sig) => spec_sig_verifies(
                    key,
                    algo,
                    hash::spec_headers_hash(
                        hc,
                        spec_get_tag_in(ts, seq!['h']).unwrap(),
                        hdrs,
                        algo,
                        raw,
                    ),
                    sig,
                ),
            })
        },
    }
}

/// The signature's `bh=` really differs from the body hash its own
/// `c=`/`a=`/`l=` tags prescribe for this body: the tags parse, the
/// prescribed hash exists, and it is not the stripped `bh=` value.
pub open spec fn spec_bh_mismatch(ts: Seq<(Seq<char>, Seq<char>)>, body: Seq<u8>) -> bool {
    exists|p: (Type, Type), algo: HashAlgo|
        {
            &&& parser::spec_parse_canon(spec_get_tag_in(ts, seq!['c'])) == Some(p)
            &&& parser::spec_hash_algo_name(spec_get_tag_in(ts, seq!['a']).unwrap()) == Some(
                algo,
            )
            &&& #[trigger] hash::spec_body_hash(
                p.1,
                spec_get_tag_in(ts, seq!['l']),
                algo,
                body,
            ) is Some
            &&& hash::spec_body_hash(p.1, spec_get_tag_in(ts, seq!['l']), algo, body) != Some(
                strutil::spec_strip_fws(spec_get_tag_in(ts, seq!['b', 'h']).unwrap()),
            )
        }
}

/// The signature's `b=` does not decode, on a message whose body hash
/// does match `bh=`: the tags parse, the prescribed body hash equals
/// the stripped `bh=`, and the stripped `b=` is not valid base64.
pub open spec fn spec_b_undecodable(ts: Seq<(Seq<char>, Seq<char>)>, body: Seq<u8>) -> bool {
    exists|p: (Type, Type), algo: HashAlgo|
        {
            &&& parser::spec_parse_canon(spec_get_tag_in(ts, seq!['c'])) == Some(p)
            &&& parser::spec_hash_algo_name(spec_get_tag_in(ts, seq!['a']).unwrap()) == Some(
                algo,
            )
            &&& #[trigger] hash::spec_body_hash(
                p.1,
                spec_get_tag_in(ts, seq!['l']),
                algo,
                body,
            ) == Some(
                strutil::spec_strip_fws(spec_get_tag_in(ts, seq!['b', 'h']).unwrap()),
            )
            &&& crypto::spec_base64_decode(
                strutil::spec_strip_fws(spec_get_tag_in(ts, seq!['b']).unwrap()),
            ) is None
        }
}

/// An error the per-header verifier can produce: one of the
/// key-retrieval taxonomy, or one of its own five checks.
pub open spec fn spec_verifier_error(e: DKIMError) -> bool {
    ||| public_key::spec_is_key_error(e)
    ||| e is UnsupportedCanonicalizationType
    ||| e is UnsupportedHashAlgorithm
    ||| e is BodyHashDidNotVerify
    ||| e is SignatureSyntaxError
    ||| e is SignatureDidNotVerify
}

/// The well-formed key `key` rejects this signature: its tags parse,
/// its `b=` decodes, and the decoded bytes do not verify over the
/// header hash.
pub open spec fn spec_sig_rejected(
    ts: Seq<(Seq<char>, Seq<char>)>,
    hdrs: Seq<(Seq<char>, Seq<u8>)>,
    raw: Seq<char>,
    key: DkimPublicKey,
    p: (Type, Type),
    algo: HashAlgo,
) -> bool {
    &&& key.wf()
    &&& parser::spec_parse_canon(spec_get_tag_in(ts, seq!['c'])) == Some(p)
    &&& parser::spec_hash_algo_name(spec_get_tag_in(ts, seq!['a']).unwrap()) == Some(algo)
    &&& (match crypto::spec_base64_decode(
        strutil::spec_strip_fws(spec_get_tag_in(ts, seq!['b']).unwrap()),
    ) {
        Some(sig) => !spec_sig_verifies(
            key,
            algo,
            hash::spec_headers_hash(p.0, spec_get_tag_in(ts, seq!['h']).unwrap(), hdrs, algo, raw),
            sig,
        ),
        None => false,
    })
}

/// A syntactic cause within the signature itself: an undecodable `b=`,
/// a malformed `l=`, or an Ed25519 signature that is not 64 bytes.
pub open spec fn spec_sig_syntax_cause(ts: Seq<(Seq<char>, Seq<char>)>, body: Seq<u8>) -> bool {
    ||| crypto::spec_base64_decode(
        strutil::spec_strip_fws(spec_get_tag_in(ts, seq!['b']).unwrap()),
    ) is None
    ||| (match crypto::spec_base64_decode(
        strutil::spec_strip_fws(spec_get_tag_in(ts, seq!['b']).unwrap()),
    ) {
        Some(sig) => sig.len() != 64,
        None => false,
    })
    ||| (exists|p: (Type, Type), algo: HashAlgo|
        {
            &&& parser::spec_parse_canon(spec_get_tag_in(ts, seq!['c'])) == Some(p)
            &&& parser::spec_hash_algo_name(spec_get_tag_in(ts, seq!['a']).unwrap()) == Some(
                algo,
            )
            &&& #[trigger] hash::spec_body_hash(
                p.1,
                spec_get_tag_in(ts, seq!['l']),
                algo,
                body,
            ) is None
        })
}

/// What `verify_email_header` promises of a success: the returned pair
/// is what the `c=` tag names, and some well-formed key the resolver
/// yielded cryptographically verifies this signature over this message.
pub open spec fn spec_verify_email_header_post(
    dh: &DKIMHeader,
    email: &ParsedEmail,
    r: Result<(Type, Type), DKIMError>,
) -> bool {
    let ts = dh.spec_tags();
    match r {
        Ok(p) => {
            &&& parser::spec_parse_canon(spec_get_tag_in(ts, seq!['c'])) == Some(p)
            &&& exists|key: DkimPublicKey|
                key.wf() && spec_sig_crypto_ok(
                    ts,
                    email.spec_headers(),
                    email.body@,
                    dh.raw_bytes@,
                    key,
                    p.0,
                    p.1,
                    false,
                )
        },
        Err(e) => {
            &&& spec_verifier_error(e)
            &&& (e is UnsupportedCanonicalizationType ==> parser::spec_parse_canon(
                spec_get_tag_in(ts, seq!['c']),
            ) is None)
            &&& (e is UnsupportedHashAlgorithm ==> parser::spec_hash_algo_name(
                spec_get_tag_in(ts, seq!['a']).unwrap(),
            ) is None || parser::spec_hash_algo_name(spec_get_tag_in(ts, seq!['a']).unwrap())
                == Some(HashAlgo::Ed25519Sha256))
            &&& (e is BodyHashDidNotVerify ==> spec_bh_mismatch(ts, email.body@))
            &&& (e is SignatureSyntaxError ==> spec_sig_syntax_cause(ts, email.body@))
            &&& (e is SignatureDidNotVerify ==> exists|
                key: DkimPublicKey,
                p: (Type, Type),
                algo: HashAlgo,
            | #[trigger] spec_sig_rejected(ts, email.spec_headers(), dh.raw_bytes@, key, p, algo))
            &&& (spec_bh_mismatch(ts, email.body@) ==> e is BodyHashDidNotVerify
                || public_key::spec_is_key_error(e))
            &&& (spec_b_undecodable(ts, email.body@) ==> e is SignatureSyntaxError
                || public_key::spec_is_key_error(e))
        },
    }
}

/// Verify one validated `DKIM-Signature` header against a message:
/// resolve the key, compute and compare the body hash, compute the
/// header hash, decode `b=`, and check the signature (RFC 6376 §6.1.3).
pub fn verify_email_header<L: Lookup>(
    dkim_header: &DKIMHeader,
    email: &ParsedEmail,
    resolver: &L,
) -> (r: Result<(Type, Type), DKIMError>)
    requires
        spec_header_wf(dkim_header.spec_tags()),
    ensures
        spec_verify_email_header_post(dkim_header, email, r),
{
    proof {
        header::lemma_wf_required(dkim_header.spec_tags());
        reveal_strlit("v");
        reveal_strlit("a");
        reveal_strlit("b");
        reveal_strlit("bh");
        reveal_strlit("d");
        reveal_strlit("h");
        reveal_strlit("s");
        reveal_strlit("c");
        reveal_strlit("l");
        assert("v"@ =~= seq!['v']);
        assert("a"@ =~= seq!['a']);
        assert("b"@ =~= seq!['b']);
        assert("bh"@ =~= seq!['b', 'h']);
        assert("d"@ =~= seq!['d']);
        assert("h"@ =~= seq!['h']);
        assert("s"@ =~= seq!['s']);
        assert("c"@ =~= seq!['c']);
        assert("l"@ =~= seq!['l']);
    }
    let ghost ts = dkim_header.spec_tags();
    let domain = dkim_header.get_required_tag("d");
    let selector = dkim_header.get_required_tag("s");
    let public_key = match public_key::retrieve_public_key(
        resolver,
        domain.as_str(),
        selector.as_str(),
    ) {
        Ok(k) => k,
        Err(e) => {
            return Err(e);
        },
    };
    let c_tag = dkim_header.get_tag("c");
    let ghost c_model = match c_tag {
        Some(ref c) => Some(c@),
        None => None,
    };
    let pair = match parser::parse_canonicalization(c_tag) {
        Ok(p) => p,
        Err(e) => {
            return Err(e);
        },
    };
    let a_tag = dkim_header.get_required_tag("a");
    let hash_algo = match parser::parse_hash_algo(a_tag.as_str()) {
        Ok(a) => a,
        Err(e) => {
            return Err(e);
        },
    };
    let l_tag = dkim_header.get_tag("l");
    let ghost l_model = match l_tag {
        Some(ref lv) => Some(lv@),
        None => None,
    };
    let computed_body_hash = match hash::compute_body_hash(
        pair.1,
        l_tag,
        hash_algo,
        email.body.as_slice(),
    ) {
        Ok(v) => v,
        Err(e) => {
            proof {
                assert(hash::spec_body_hash(
                    pair.1,
                    spec_get_tag_in(ts, seq!['l']),
                    hash_algo,
                    email.body@,
                ) is None);
                assert(spec_sig_syntax_cause(ts, email.body@));
            }
            return Err(e);
        },
    };
    let header_body_hash = dkim_header.get_required_tag("bh");
    let bh_stripped = strutil::strip_fws(header_body_hash.as_str());
    if !strutil::str_eq(computed_body_hash.as_str(), bh_stripped.as_str()) {
        proof {
            assert(hash::spec_body_hash(
                pair.1,
                spec_get_tag_in(ts, seq!['l']),
                hash_algo,
                email.body@,
            ) != Some(
                strutil::spec_strip_fws(spec_get_tag_in(ts, seq!['b', 'h']).unwrap()),
            ));
            assert(spec_bh_mismatch(ts, email.body@));
        }
        return Err(DKIMError::BodyHashDidNotVerify);
    }
    let h_tag = dkim_header.get_required_tag("h");
    let computed_headers_hash = match hash::compute_headers_hash(
        pair.0,
        h_tag.as_str(),
        hash_algo,
        dkim_header,
        email,
    ) {
        Ok(v) => v,
        Err(e) => {
            return Err(e);
        },
    };
    let b_tag = dkim_header.get_required_tag("b");
    let b_stripped = strutil::strip_fws(b_tag.as_str());
    let signature = match crypto::base64_decode(b_stripped.as_str()) {
        Some(s) => s,
        None => {
            proof {
                assert(spec_sig_syntax_cause(ts, email.body@));
            }
            return Err(
                DKIMError::SignatureSyntaxError(
                    String::from_str("failed to decode the b= signature"),
                ),
            );
        },
    };
    let ok = match verify_signature(
        hash_algo,
        computed_headers_hash.as_slice(),
        signature.as_slice(),
        &public_key,
    ) {
        Ok(v) => v,
        Err(e) => {
            proof {
                if e is SignatureSyntaxError {
                    assert(signature@.len() != 64);
                    assert(spec_sig_syntax_cause(ts, email.body@));
                }
            }
            return Err(e);
        },
    };
    if !ok {
        proof {
            assert(!spec_sig_verifies(public_key, hash_algo, computed_headers_hash@, signature@));
            assert(spec_sig_rejected(
                ts,
                email.spec_headers(),
                dkim_header.raw_bytes@,
                public_key,
                pair,
                hash_algo,
            ));
        }
        return Err(DKIMError::SignatureDidNotVerify);
    }
    proof {
        assert(spec_sig_crypto_ok(
            ts,
            email.spec_headers(),
            email.body@,
            dkim_header.raw_bytes@,
            public_key,
            pair.0,
            pair.1,
            false,
        ));
    }
    Ok(pair)
}

/// Header `k` is a `DKIM-Signature` whose value validates and whose
/// signing domain matches the From-domain (case-insensitively).
pub open spec fn spec_candidate_matches(
    hdrs: Seq<(Seq<char>, Seq<u8>)>,
    from: Seq<char>,
    k: int,
) -> bool {
    &&& 0 <= k < hdrs.len()
    &&& spec_is_sig_header(hdrs[k].0)
    &&& valid_utf8(hdrs[k].1)
    &&& spec_header_valid(decode_utf8(hdrs[k].1))
    &&& strutil::spec_lower_chars(spec_sig_domain(decode_utf8(hdrs[k].1)))
        == strutil::spec_lower_chars(from)
}

/// Header `k` is a `DKIM-Signature` that contributes to the outcome: it
/// fails to decode or validate (and so records an error), or it matches
/// the From-domain and is tried.
pub open spec fn spec_candidate_attempted(
    hdrs: Seq<(Seq<char>, Seq<u8>)>,
    from: Seq<char>,
    k: int,
) -> bool {
    &&& 0 <= k < hdrs.len()
    &&& spec_is_sig_header(hdrs[k].0)
    &&& (!valid_utf8(hdrs[k].1) || !spec_header_valid(decode_utf8(hdrs[k].1))
        || strutil::spec_lower_chars(spec_sig_domain(decode_utf8(hdrs[k].1)))
        == strutil::spec_lower_chars(from))
}

/// The tag model of the signature header at `k`.
pub open spec fn spec_sig_tags(hdrs: Seq<(Seq<char>, Seq<u8>)>, k: int) -> Seq<
    (Seq<char>, Seq<char>),
> {
    spec_tag_list(decode_utf8(hdrs[k].1)).unwrap()
}

/// What both verifier entry points promise of an outcome over a message
/// model `hdrs`/`body`:
/// `Neutral` exactly when no signature contributed; `Pass` only for a
/// matching signature whose cryptographic content checked out under some
/// well-formed key admitted by `keyok`; `Fail` only when a signature
/// contributed an error.  `Neutral` and `Fail` name the From-domain.
pub open spec fn spec_outcome_ok(
    from: Seq<char>,
    hdrs: Seq<(Seq<char>, Seq<u8>)>,
    body: Seq<u8>,
    keyok: spec_fn(DkimPublicKey) -> bool,
    ignore_body_hash: bool,
    res: DKIMResult,
) -> bool {
    &&& ((res is Neutral) <==> (forall|k: int| !spec_candidate_attempted(hdrs, from, k)))
    &&& (match res {
        DKIMResult::Neutral { domain } => domain@ == from,
        DKIMResult::Fail { error, domain } => {
            &&& domain@ == from
            &&& (exists|k: int| spec_candidate_attempted(hdrs, from, k))
            &&& (error is BodyHashDidNotVerify ==> exists|k: int|
                spec_candidate_matches(hdrs, from, k) && spec_candidate_bh_mismatch(
                    hdrs,
                    body,
                    k,
                ))
        },
        DKIMResult::Pass { domain, header_canonicalization, body_canonicalization } => exists|
            k: int,
            key: DkimPublicKey,
        |
            {
                &&& spec_candidate_matches(hdrs, from, k)
                &&& domain@ == spec_sig_domain(decode_utf8(hdrs[k].1))
                &&& parser::spec_parse_canon(spec_get_tag_in(spec_sig_tags(hdrs, k), seq!['c']))
                    == Some((header_canonicalization, body_canonicalization))
                &&& keyok(key)
                &&& spec_sig_crypto_ok(
                    spec_sig_tags(hdrs, k),
                    hdrs,
                    body,
                    decode_utf8(hdrs[k].1),
                    key,
                    header_canonicalization,
                    body_canonicalization,
                    ignore_body_hash,
                )
            },
    })
}

/// Run DKIM verification over a message with an injected resolver: try
/// each `DKIM-Signature` header in document order, and return the first
/// pass, else the last error, else `Neutral` (RFC 6376 §6.1).
pub fn verify_email_with_resolver<L: Lookup>(
    from_domain: &str,
    email: &ParsedEmail,
    resolver: &L,
) -> (r: Result<DKIMResult, DKIMError>)
    ensures
        (r matches Ok(res) && spec_outcome_ok(
            from_domain@,
            email.spec_headers(),
            email.body@,
            |key: DkimPublicKey| key.wf(),
            false,
            res,
        )),
{
    let ghost hdrs = email.spec_headers();
    let n = email.headers.len();
    let mut last_error: Option<DKIMError> = None;
    let mut idx: usize = 0;
    while idx < n
        invariant
            idx <= n,
            n == email.headers@.len(),
            hdrs == email.spec_headers(),
            (last_error is None) <==> (forall|m: int|
                0 <= m < idx ==> !spec_candidate_attempted(hdrs, from_domain@, m)),
            (last_error is Some) ==> (exists|m: int|
                spec_candidate_attempted(hdrs, from_domain@, m)),
            (match last_error {
                Some(e) => e is BodyHashDidNotVerify ==> exists|m: int|
                    spec_candidate_matches(hdrs, from_domain@, m)
                        && spec_candidate_bh_mismatch(hdrs, email.body@, m),
                None => true,
            }),
        decreases n - idx,
    {
        proof {
            reveal_strlit("DKIM-Signature");
            assert(strutil::spec_lower_chars("DKIM-Signature"@) =~= seq![
                'd',
                'k',
                'i',
                'm',
                '-',
                's',
                'i',
                'g',
                'n',
                'a',
                't',
                'u',
                'r',
                'e',
            ]);
            assert(hdrs[idx as int] == email.headers@[idx as int]@);
        }
        let is_sig = strutil::str_eq_ignore_case(
            email.headers[idx].name.as_str(),
            "DKIM-Signature",
        );
        if is_sig {
            match mail::utf8_to_str(email.headers[idx].value.as_slice()) {
                None => {
                    last_error = Some(
                        DKIMError::SignatureSyntaxError(
                            String::from_str("signature header value is not UTF-8"),
                        ),
                    );
                    proof {
                        assert(spec_candidate_attempted(hdrs, from_domain@, idx as int));
                    }
                },
                Some(value) => {
                    proof {
                        vstd::utf8::encode_utf8_decode_utf8(value@);
                        assert(decode_utf8(hdrs[idx as int].1) == value@);
                    }
                    match validate_header(value) {
                        Err(e) => {
                            last_error = Some(e);
                            proof {
                                assert(!spec_header_valid(value@));
                                assert(spec_candidate_attempted(hdrs, from_domain@, idx as int));
                            }
                        },
                        Ok(hd) => {
                            proof {
                                header::lemma_first_missing_le(
                                    spec_tag_list(value@).unwrap(),
                                    0,
                                );
                                assert(spec_header_valid(value@));
                                assert(spec_header_wf(hd.spec_tags()));
                                header::lemma_wf_required(hd.spec_tags());
                                reveal_strlit("d");
                                assert("d"@ =~= seq!['d']);
                            }
                            let signing_domain = hd.get_required_tag("d");
                            proof {
                                assert(signing_domain@ == spec_sig_domain(value@));
                            }
                            if strutil::str_eq_ignore_case(signing_domain.as_str(), from_domain) {
                                proof {
                                    assert(spec_candidate_matches(hdrs, from_domain@, idx as int));
                                }
                                match verify_email_header(&hd, email, resolver) {
                                    Ok(p) => {
                                        let res = DKIMResult::pass(signing_domain, p.0, p.1);
                                        proof {
                                            assert(spec_candidate_attempted(
                                                hdrs,
                                                from_domain@,
                                                idx as int,
                                            ));
                                            assert(hd.spec_tags() == spec_sig_tags(
                                                hdrs,
                                                idx as int,
                                            ));
                                            assert(hd.raw_bytes@ == decode_utf8(
                                                hdrs[idx as int].1,
                                            ));
                                            let key = choose|key: DkimPublicKey|
                                                key.wf() && spec_sig_crypto_ok(
                                                    hd.spec_tags(),
                                                    email.spec_headers(),
                                                    email.body@,
                                                    hd.raw_bytes@,
                                                    key,
                                                    p.0,
                                                    p.1,
                                                    false,
                                                );
                                            assert(spec_candidate_matches(
                                                hdrs,
                                                from_domain@,
                                                idx as int,
                                            ) && key.wf() && spec_sig_crypto_ok(
                                                spec_sig_tags(hdrs, idx as int),
                                                hdrs,
                                                email.body@,
                                                decode_utf8(hdrs[idx as int].1),
                                                key,
                                                p.0,
                                                p.1,
                                                false,
                                            ));
                                        }
                                        return Ok(res);
                                    },
                                    Err(e) => {
                                        last_error = Some(e);
                                        proof {
                                            assert(spec_candidate_attempted(
                                                hdrs,
                                                from_domain@,
                                                idx as int,
                                            ));
                                        }
                                    },
                                }
                            } else {
                                proof {
                                    assert(!spec_candidate_attempted(
                                        hdrs,
                                        from_domain@,
                                        idx as int,
                                    ));
                                }
                            }
                        },
                    }
                },
            }
        } else {
            proof {
                assert(!spec_candidate_attempted(hdrs, from_domain@, idx as int));
            }
        }
        idx = idx + 1;
    }
    match last_error {
        Some(e) => Ok(DKIMResult::fail(e, from_domain.to_owned())),
        None => Ok(DKIMResult::neutral(from_domain.to_owned())),
    }
}

/// A message's headers with line endings normalized: every bare LF in a
/// value rewritten to CRLF.
pub open spec fn spec_norm_hdrs(hdrs: Seq<(Seq<char>, Seq<u8>)>) -> Seq<(Seq<char>, Seq<u8>)> {
    hdrs.map_values(
        |p: (Seq<char>, Seq<u8>)| (p.0, canonicalization::spec_lf_to_crlf(p.1)),
    )
}

/// The index of the first `DKIM-Signature` header at or after `k`, or
/// the number of headers when there is none.
pub open spec fn spec_first_sig(hdrs: Seq<(Seq<char>, Seq<u8>)>, k: int) -> int
    decreases hdrs.len() - k,
{
    if k < 0 || k >= hdrs.len() {
        hdrs.len() as int
    } else if spec_is_sig_header(hdrs[k].0) {
        k
    } else {
        spec_first_sig(hdrs, k + 1)
    }
}

/// The first `DKIM-Signature` header of a message, if any.
fn find_first_sig(headers: &Vec<mail::Header>) -> (r: Option<usize>)
    ensures
        (match r {
            Some(i) => i < headers@.len() && spec_first_sig(
                headers@.map_values(|h: mail::Header| h@),
                0,
            ) == i as int,
            None => spec_first_sig(headers@.map_values(|h: mail::Header| h@), 0)
                == headers@.len(),
        }),
{
    let ghost hdrs = headers@.map_values(|h: mail::Header| h@);
    let n = headers.len();
    let mut i: usize = 0;
    while i < n
        invariant
            i <= n,
            n == headers@.len(),
            hdrs == headers@.map_values(|h: mail::Header| h@),
            spec_first_sig(hdrs, 0) == spec_first_sig(hdrs, i as int),
        decreases n - i,
    {
        proof {
            reveal_strlit("DKIM-Signature");
            assert(strutil::spec_lower_chars("DKIM-Signature"@) =~= seq![
                'd',
                'k',
                'i',
                'm',
                '-',
                's',
                'i',
                'g',
                'n',
                'a',
                't',
                'u',
                'r',
                'e',
            ]);
            assert(hdrs[i as int] == headers@[i as int]@);
        }
        if strutil::str_eq_ignore_case(headers[i].name.as_str(), "DKIM-Signature") {
            return Some(i);
        }
        i = i + 1;
    }
    None
}

/// What `canonicalize_signed_email` yields on success, step by step:
/// the artifacts of the message's first `DKIM-Signature` header.
pub open spec fn spec_canonicalize_signed_post(
    bytes: Seq<u8>,
    r: Result<(Vec<u8>, Vec<u8>, Vec<u8>), DKIMError>,
) -> bool {
    match mail::spec_parsed_mail(bytes) {
        None => r is Err,
        Some(pm) => {
            let hdrs = pm.0;
            let k = spec_first_sig(hdrs, 0);
            if k >= hdrs.len() || !valid_utf8(hdrs[k].1) {
                r is Err
            } else {
                let s = decode_utf8(hdrs[k].1);
                match spec_tag_list(s) {
                    None => r matches Err(e) && e is SignatureSyntaxError,
                    Some(ts) => {
                        let b = spec_get_tag_in(ts, seq!['b']);
                        let c = spec_get_tag_in(ts, seq!['c']);
                        let h = spec_get_tag_in(ts, seq!['h']);
                        if b is None {
                            r matches Err(e) && e matches
                                DKIMError::SignatureMissingRequiredTag(t) && t@ == seq!['b']
                        } else if crypto::spec_base64_decode(
                            strutil::spec_strip_fws(b.unwrap()),
                        ) is None {
                            r matches Err(e) && e is SignatureSyntaxError
                        } else if parser::spec_parse_canon(c) is None {
                            r matches Err(e) && e is UnsupportedCanonicalizationType
                        } else if h is None {
                            r matches Err(e) && e matches
                                DKIMError::SignatureMissingRequiredTag(t) && t@ == seq!['h']
                        } else {
                            r matches Ok(out) && {
                                &&& out.0@ == hash::spec_canonical_headers(
                                    parser::spec_parse_canon(c).unwrap().0,
                                    h.unwrap(),
                                    hdrs,
                                    s,
                                )
                                &&& out.1@ == hash::spec_canon_body(
                                    parser::spec_parse_canon(c).unwrap().1,
                                    pm.1,
                                )
                                &&& out.2@ == crypto::spec_base64_decode(
                                    strutil::spec_strip_fws(b.unwrap()),
                                ).unwrap()
                            }
                        }
                    },
                }
            }
        },
    }
}

/// The canonical artifacts of a signed message, for debugging and
/// offline backends: the canonicalized header block of its first
/// `DKIM-Signature` header, the normalized body, and the raw signature
/// bytes decoded from `b=`.
pub fn canonicalize_signed_email(email_bytes: &[u8]) -> (r: Result<
    (Vec<u8>, Vec<u8>, Vec<u8>),
    DKIMError,
>)
    ensures
        spec_canonicalize_signed_post(email_bytes@, r),
{
    proof {
        reveal_strlit("b");
        reveal_strlit("c");
        reveal_strlit("h");
        assert("b"@ =~= seq!['b']);
        assert("c"@ =~= seq!['c']);
        assert("h"@ =~= seq!['h']);
    }
    let email = match mail::parse_email(email_bytes) {
        Ok(m) => m,
        Err(e) => {
            return Err(e);
        },
    };
    let ghost hdrs = email.spec_headers();
    let k = match find_first_sig(&email.headers) {
        Some(k) => k,
        None => {
            return Err(
                DKIMError::SignatureSyntaxError(
                    String::from_str("no DKIM-Signature header found"),
                ),
            );
        },
    };
    let value = match mail::utf8_to_str(email.headers[k].value.as_slice()) {
        Some(v) => v,
        None => {
            return Err(
                DKIMError::SignatureSyntaxError(
                    String::from_str("signature header value is not UTF-8"),
                ),
            );
        },
    };
    proof {
        assert(hdrs[k as int] == email.headers@[k as int]@);
        vstd::utf8::encode_utf8_decode_utf8(value@);
        assert(decode_utf8(hdrs[k as int].1) == value@);
    }
    let dkim_header = get_header_unchecked(value)?;
    let b_tag = match dkim_header.get_tag("b") {
        Some(b) => b,
        None => {
            return Err(DKIMError::SignatureMissingRequiredTag("b"));
        },
    };
    let b_stripped = strutil::strip_fws(b_tag.as_str());
    let signature_raw = match crypto::base64_decode(b_stripped.as_str()) {
        Some(s) => s,
        None => {
            return Err(
                DKIMError::SignatureSyntaxError(
                    String::from_str("failed to decode the b= signature"),
                ),
            );
        },
    };
    let pair = match parser::parse_canonicalization(dkim_header.get_tag("c")) {
        Ok(p) => p,
        Err(e) => {
            return Err(e);
        },
    };
    let h_tag = match dkim_header.get_tag("h") {
        Some(h) => h,
        None => {
            return Err(DKIMError::SignatureMissingRequiredTag("h"));
        },
    };
    let canonicalized_body = hash::canon_body(pair.1, email.body.as_slice());
    let canonicalized_header = match hash::canonicalize_header_email(
        pair.0,
        h_tag.as_str(),
        &dkim_header,
        &email,
    ) {
        Ok(v) => v,
        Err(e) => {
            return Err(e);
        },
    };
    Ok((canonicalized_header, canonicalized_body, signature_raw))
}

/// Parse a signature header's tag-list without the validity checks of
/// `validate_header`, as the canonical-artifact helpers need.
fn get_header_unchecked(value: &str) -> (r: Result<DKIMHeader, DKIMError>)
    ensures
        (match r {
            Ok(hd) => spec_tag_list(value@) == Some(hd.spec_tags()) && hd.raw_bytes@ == value@,
            Err(e) => (spec_tag_list(value@) is None) && (e is SignatureSyntaxError),
        }),
{
    let tags = match parser::tag_list(value) {
        Ok(t) => t,
        Err(e) => {
            return Err(e);
        },
    };
    Ok(DKIMHeader { tags, raw_bytes: value.to_owned() })
}

/// What `signature_domain_selector` yields: the `d=` and `s=` values of
/// the message's first `DKIM-Signature` header.
pub open spec fn spec_domain_selector_post(
    bytes: Seq<u8>,
    r: Result<(String, String), DKIMError>,
) -> bool {
    match mail::spec_parsed_mail(bytes) {
        None => r is Err,
        Some(pm) => {
            let hdrs = pm.0;
            let k = spec_first_sig(hdrs, 0);
            if k >= hdrs.len() || !valid_utf8(hdrs[k].1) {
                r is Err
            } else {
                let s = decode_utf8(hdrs[k].1);
                match spec_tag_list(s) {
                    None => r matches Err(e) && e is SignatureSyntaxError,
                    Some(ts) => {
                        let sel = spec_get_tag_in(ts, seq!['s']);
                        let dom = spec_get_tag_in(ts, seq!['d']);
                        if sel is None || dom is None {
                            r matches Err(e) && e is SignatureMissingRequiredTag
                        } else {
                            r matches Ok(p) && p.0@ == dom.unwrap() && p.1@ == sel.unwrap()
                        }
                    },
                }
            }
        },
    }
}

/// The signing domain and selector named by the message's first
/// `DKIM-Signature` header: what a host needs to look the key up.
pub fn signature_domain_selector(email_bytes: &[u8]) -> (r: Result<(String, String), DKIMError>)
    ensures
        spec_domain_selector_post(email_bytes@, r),
{
    proof {
        reveal_strlit("s");
        reveal_strlit("d");
        assert("s"@ =~= seq!['s']);
        assert("d"@ =~= seq!['d']);
    }
    let email = match mail::parse_email(email_bytes) {
        Ok(m) => m,
        Err(e) => {
            return Err(e);
        },
    };
    let ghost hdrs = email.spec_headers();
    let k = match find_first_sig(&email.headers) {
        Some(k) => k,
        None => {
            return Err(
                DKIMError::SignatureSyntaxError(
                    String::from_str("no DKIM-Signature header found"),
                ),
            );
        },
    };
    let value = match mail::utf8_to_str(email.headers[k].value.as_slice()) {
        Some(v) => v,
        None => {
            return Err(
                DKIMError::SignatureSyntaxError(
                    String::from_str("signature header value is not UTF-8"),
                ),
            );
        },
    };
    proof {
        assert(hdrs[k as int] == email.headers@[k as int]@);
        vstd::utf8::encode_utf8_decode_utf8(value@);
        assert(decode_utf8(hdrs[k as int].1) == value@);
    }
    let dkim_header = get_header_unchecked(value)?;
    let selector = match dkim_header.get_tag("s") {
        Some(s) => s,
        None => {
            return Err(DKIMError::SignatureMissingRequiredTag("s"));
        },
    };
    let domain = match dkim_header.get_tag("d") {
        Some(d) => d,
        None => {
            return Err(DKIMError::SignatureMissingRequiredTag("d"));
        },
    };
    Ok((domain, selector))
}

/// What `get_google_dns_url` yields: the DNS-over-HTTPS query URL for
/// the selector and domain of the message's first signature.
pub open spec fn spec_google_dns_url_post(
    bytes: Seq<u8>,
    r: Result<String, DKIMError>,
) -> bool {
    match mail::spec_parsed_mail(bytes) {
        None => r is Err,
        Some(pm) => {
            let hdrs = pm.0;
            let k = spec_first_sig(hdrs, 0);
            if k >= hdrs.len() || !valid_utf8(hdrs[k].1) {
                r is Err
            } else {
                let s = decode_utf8(hdrs[k].1);
                match spec_tag_list(s) {
                    None => r matches Err(e) && e is SignatureSyntaxError,
                    Some(ts) => {
                        let sel = spec_get_tag_in(ts, seq!['s']);
                        let dom = spec_get_tag_in(ts, seq!['d']);
                        if sel is None || dom is None {
                            r matches Err(e) && e is SignatureMissingRequiredTag
                        } else {
                            r matches Ok(u) && u@ == "https://dns.google/resolve?name="@
                                + sel.unwrap() + "._domainkey."@ + dom.unwrap() + "&type=TXT"@
                        }
                    },
                }
            }
        },
    }
}

/// The DNS-over-HTTPS URL at which Google's resolver answers the TXT
/// query for the key of the message's first `DKIM-Signature` header.
pub fn get_google_dns_url(email_bytes: &[u8]) -> (r: Result<String, DKIMError>)
    ensures
        spec_google_dns_url_post(email_bytes@, r),
{
    let pair = match signature_domain_selector(email_bytes) {
        Ok(p) => p,
        Err(e) => {
            return Err(e);
        },
    };
    let mut url = String::new();
    url.append("https://dns.google/resolve?name=");
    url.append(pair.1.as_str());
    url.append("._domainkey.");
    url.append(pair.0.as_str());
    url.append("&type=TXT");
    Ok(url)
}

/// One `data` string of a DNS-over-HTTPS answer yields an RSA key: its
/// first `k=` tag reads `rsa`, and its first `p=` tag holds base64 that
/// decodes to DER an RSA public key parser accepts.
pub open spec fn spec_entry_rsa_key_ok(d: Seq<char>) -> bool {
    let i = strutil::spec_k_ix(d);
    if i >= d.len() {
        false
    } else {
        let a = i + 2;
        let run = strutil::spec_lc_run(d.skip(a));
        if d.subrange(a, a + run) != seq!['r', 's', 'a'] {
            false
        } else {
            let p = strutil::spec_p_ix(d);
            if p >= d.len() {
                false
            } else {
                let pa = p + 2;
                let prun = strutil::spec_b64_run(d.skip(pa));
                match crypto::spec_base64_decode(d.subrange(pa, pa + prun)) {
                    Some(der) => crypto::spec_rsa_any_der_ok(der),
                    None => false,
                }
            }
        }
    }
}

/// What `get_rsa_public_key_from_google_dns` promises: a key comes back
/// exactly when the response parses and some answer entry yields one.
pub open spec fn spec_google_rsa_key_post(
    resp: Seq<char>,
    r: Result<rsa::RsaPublicKey, DKIMError>,
) -> bool {
    &&& (match dns::spec_google_answer_datas(resp) {
        None => r is Err,
        Some(ds) => (r is Ok) == (exists|m: int|
            0 <= m < ds.len() && #[trigger] spec_entry_rsa_key_ok(ds[m])),
    })
    &&& (r matches Err(e) ==> e is KeyUnavailable)
}

/// Extract an RSA verifying key from a Google DNS-over-HTTPS JSON
/// response: walk the `Answer` entries in order and return the first
/// whose record names `k=rsa` and whose `p=` material parses.
pub fn get_rsa_public_key_from_google_dns(response: &str) -> (r: Result<
    rsa::RsaPublicKey,
    DKIMError,
>)
    ensures
        spec_google_rsa_key_post(response@, r),
{
    let datas = match dns::google_answer_datas(response) {
        Some(v) => v,
        None => {
            return Err(
                DKIMError::KeyUnavailable(String::from_str("invalid DNS-over-HTTPS response")),
            );
        },
    };
    let ghost ds = datas@.map_values(|x: String| x@);
    let n = datas.len();
    let mut m: usize = 0;
    while m < n
        invariant
            m <= n,
            n == datas@.len(),
            ds == datas@.map_values(|x: String| x@),
            dns::spec_google_answer_datas(response@) == Some(ds),
            forall|j: int| 0 <= j < m ==> !#[trigger] spec_entry_rsa_key_ok(ds[j]),
        decreases n - m,
    {
        proof {
            assert(ds[m as int] == datas@[m as int]@);
            reveal_strlit("rsa");
            assert("rsa"@ =~= seq!['r', 's', 'a']);
        }
        let data = datas[m].as_str();
        match strutil::find_k_value(data) {
            None => {
                proof {
                    assert(!spec_entry_rsa_key_ok(ds[m as int]));
                }
            },
            Some((a, b)) => {
                let kval = data.substring_char(a, b);
                proof {
                    assert(kval@ =~= data@.subrange(a as int, b as int));
                    assert(data@.subrange(a as int, a + strutil::spec_lc_run(
                        data@.skip(a as int),
                    )) =~= data@.subrange(a as int, b as int));
                }
                if !strutil::str_eq(kval, "rsa") {
                    proof {
                        assert(!spec_entry_rsa_key_ok(ds[m as int]));
                    }
                } else {
                    match strutil::find_p_value(data) {
                        None => {
                            proof {
                                assert(!spec_entry_rsa_key_ok(ds[m as int]));
                            }
                        },
                        Some((pa, pb)) => {
                            let pval = data.substring_char(pa, pb);
                            proof {
                                assert(pval@ =~= data@.subrange(pa as int, pb as int));
                                assert(data@.subrange(pa as int, pa + strutil::spec_b64_run(
                                    data@.skip(pa as int),
                                )) =~= data@.subrange(pa as int, pb as int));
                            }
                            match crypto::base64_decode(pval) {
                                None => {
                                    proof {
                                        assert(!spec_entry_rsa_key_ok(ds[m as int]));
                                    }
                                },
                                Some(der) => {
                                    match crypto::rsa_pub_from_any_der(der.as_slice()) {
                                        Some(key) => {
                                            proof {
                                                assert(spec_entry_rsa_key_ok(ds[m as int]));
                                                let ds2 = dns::spec_google_answer_datas(
                                                    response@,
                                                ).unwrap();
                                                assert(ds2 == ds);
                                                assert(exists|j: int|
                                                    0 <= j < ds2.len() && #[trigger]
                                                    spec_entry_rsa_key_ok(ds2[j]));
                                                assert(spec_google_rsa_key_post(
                                                    response@,
                                                    Ok::<rsa::RsaPublicKey, DKIMError>(key),
                                                ));
                                            }
                                            return Ok(key);
                                        },
                                        None => {
                                            proof {
                                                assert(!spec_entry_rsa_key_ok(ds[m as int]));
                                            }
                                        },
                                    }
                                },
                            }
                        },
                    }
                }
            },
        }
        m = m + 1;
    }
    Err(DKIMError::KeyUnavailable(String::from_str("no RSA key found in the DNS response")))
}

/// The signature at header `k` passes every check under `key`: its
/// `c=` parses, and its cryptographic content checks out.
pub open spec fn spec_candidate_passes(
    hdrs: Seq<(Seq<char>, Seq<u8>)>,
    body: Seq<u8>,
    key: DkimPublicKey,
    ignore_body_hash: bool,
    k: int,
) -> bool {
    exists|hc: Type, bc: Type|
        parser::spec_parse_canon(spec_get_tag_in(#[trigger] spec_sig_tags(hdrs, k), seq!['c']))
            == Some((hc, bc)) && spec_sig_crypto_ok(
            spec_sig_tags(hdrs, k),
            hdrs,
            body,
            decode_utf8(hdrs[k].1),
            key,
            hc,
            bc,
            ignore_body_hash,
        )
}

/// The first header at or after `k` that both matches the From-domain
/// and passes every check under `key`, or the number of headers.
pub open spec fn spec_first_passing(
    hdrs: Seq<(Seq<char>, Seq<u8>)>,
    body: Seq<u8>,
    from: Seq<char>,
    key: DkimPublicKey,
    ignore_body_hash: bool,
    k: int,
) -> int
    decreases hdrs.len() - k,
{
    if k < 0 || k >= hdrs.len() {
        hdrs.len() as int
    } else if spec_candidate_matches(hdrs, from, k) && spec_candidate_passes(
        hdrs,
        body,
        key,
        ignore_body_hash,
        k,
    ) {
        k
    } else {
        spec_first_passing(hdrs, body, from, key, ignore_body_hash, k + 1)
    }
}

/// The candidate's `bh=` really differs from the body hash its own
/// `c=`/`a=`/`l=` tags prescribe.
pub open spec fn spec_candidate_bh_mismatch(
    hdrs: Seq<(Seq<char>, Seq<u8>)>,
    body: Seq<u8>,
    k: int,
) -> bool {
    spec_bh_mismatch(spec_sig_tags(hdrs, k), body)
}

/// What `verify_email_with_key` promises, over the line-ending
/// normalized message: it always yields an outcome; `Neutral` exactly
/// when no signature contributed; `Pass` exactly when some matching
/// signature passes every check under the given key, with the first
/// such signature's domain and canonicalization; `Fail` names the
/// From-domain, and a `BodyHashDidNotVerify` failure records a real
/// mismatch at some matching signature.
pub open spec fn spec_with_key_post(
    from: Seq<char>,
    email: &ParsedEmail,
    key: DkimPublicKey,
    ignore_body_hash: bool,
    r: Result<DKIMResult, DKIMError>,
) -> bool {
    let hdrs = spec_norm_hdrs(email.spec_headers());
    let body = canonicalization::spec_lf_to_crlf(email.body@);
    match r {
        Ok(res) => {
            &&& ((res is Neutral) <==> (forall|k: int|
                !spec_candidate_attempted(hdrs, from, k)))
            &&& ((res is Pass) <==> (exists|k: int|
                spec_candidate_matches(hdrs, from, k) && spec_candidate_passes(
                    hdrs,
                    body,
                    key,
                    ignore_body_hash,
                    k,
                )))
            &&& (match res {
                DKIMResult::Neutral { domain } => domain@ == from,
                DKIMResult::Fail { error, domain } => {
                    &&& domain@ == from
                    &&& (exists|k: int| spec_candidate_attempted(hdrs, from, k))
                    &&& (error is BodyHashDidNotVerify ==> exists|k: int|
                        spec_candidate_matches(hdrs, from, k) && spec_candidate_bh_mismatch(
                            hdrs,
                            body,
                            k,
                        ))
                },
                DKIMResult::Pass { domain, header_canonicalization, body_canonicalization } => {
                    let m = spec_first_passing(hdrs, body, from, key, ignore_body_hash, 0);
                    &&& m < hdrs.len()
                    &&& domain@ == spec_sig_domain(decode_utf8(hdrs[m].1))
                    &&& parser::spec_parse_canon(
                        spec_get_tag_in(spec_sig_tags(hdrs, m), seq!['c']),
                    ) == Some((header_canonicalization, body_canonicalization))
                    &&& spec_sig_crypto_ok(
                        spec_sig_tags(hdrs, m),
                        hdrs,
                        body,
                        decode_utf8(hdrs[m].1),
                        key,
                        header_canonicalization,
                        body_canonicalization,
                        ignore_body_hash,
                    )
                },
            })
        },
        Err(_) => false,
    }
}

/// Run every check of one validated signature against a known key:
/// parse `c=` and `a=`, compute the header hash, compare the body hash
/// to `bh=` (unless asked not to), decode `b=`, and verify.  `Err`
/// exactly when no canonicalization pair makes the signature's
/// cryptographic content check out.
fn verify_candidate_with_key(
    dkim_header: &DKIMHeader,
    email: &ParsedEmail,
    public_key: &DkimPublicKey,
    ignore_body_hash: bool,
) -> (r: Result<(Type, Type), DKIMError>)
    requires
        spec_header_wf(dkim_header.spec_tags()),
        public_key.wf(),
    ensures
        (match r {
            Ok(p) => parser::spec_parse_canon(
                spec_get_tag_in(dkim_header.spec_tags(), seq!['c']),
            ) == Some(p) && spec_sig_crypto_ok(
                dkim_header.spec_tags(),
                email.spec_headers(),
                email.body@,
                dkim_header.raw_bytes@,
                *public_key,
                p.0,
                p.1,
                ignore_body_hash,
            ),
            Err(e) => !(exists|hc: Type, bc: Type|
                parser::spec_parse_canon(spec_get_tag_in(dkim_header.spec_tags(), seq!['c']))
                    == Some((hc, bc)) && #[trigger] spec_sig_crypto_ok(
                    dkim_header.spec_tags(),
                    email.spec_headers(),
                    email.body@,
                    dkim_header.raw_bytes@,
                    *public_key,
                    hc,
                    bc,
                    ignore_body_hash,
                )) && (e is BodyHashDidNotVerify ==> spec_bh_mismatch(
                dkim_header.spec_tags(),
                email.body@,
            )),
        }),
{
    let ghost ts = dkim_header.spec_tags();
    proof {
        header::lemma_wf_required(ts);
        reveal_strlit("a");
        reveal_strlit("b");
        reveal_strlit("bh");
        reveal_strlit("h");
        reveal_strlit("c");
        reveal_strlit("l");
        assert("a"@ =~= seq!['a']);
        assert("b"@ =~= seq!['b']);
        assert("bh"@ =~= seq!['b', 'h']);
        assert("h"@ =~= seq!['h']);
        assert("c"@ =~= seq!['c']);
        assert("l"@ =~= seq!['l']);
    }
    let pair = match parser::parse_canonicalization(dkim_header.get_tag("c")) {
        Ok(p) => p,
        Err(e) => {
            return Err(e);
        },
    };
    let a_tag = dkim_header.get_required_tag("a");
    let hash_algo = match parser::parse_hash_algo(a_tag.as_str()) {
        Ok(a) => a,
        Err(e) => {
            return Err(e);
        },
    };
    let h_tag = dkim_header.get_required_tag("h");
    let computed_header_hash = match hash::compute_headers_hash(
        pair.0,
        h_tag.as_str(),
        hash_algo,
        dkim_header,
        email,
    ) {
        Ok(v) => v,
        Err(e) => {
            return Err(e);
        },
    };
    if !ignore_body_hash {
        let l_tag = dkim_header.get_tag("l");
        let ghost l_model = match l_tag {
            Some(ref lv) => Some(lv@),
            None => None,
        };
        let computed_body_hash = match hash::compute_body_hash(
            pair.1,
            l_tag,
            hash_algo,
            email.body.as_slice(),
        ) {
            Ok(v) => v,
            Err(e) => {
                return Err(e);
            },
        };
        let header_body_hash = dkim_header.get_required_tag("bh");
        let bh_stripped = strutil::strip_fws(header_body_hash.as_str());
        if !strutil::str_eq(computed_body_hash.as_str(), bh_stripped.as_str()) {
            return Err(DKIMError::BodyHashDidNotVerify);
        }
    }
    let b_tag = dkim_header.get_required_tag("b");
    let b_stripped = strutil::strip_fws(b_tag.as_str());
    let signature = match crypto::base64_decode(b_stripped.as_str()) {
        Some(s) => s,
        None => {
            return Err(
                DKIMError::SignatureSyntaxError(
                    String::from_str("failed to decode the b= signature"),
                ),
            );
        },
    };
    let ok = match verify_signature(
        hash_algo,
        computed_header_hash.as_slice(),
        signature.as_slice(),
        public_key,
    ) {
        Ok(v) => v,
        Err(e) => {
            return Err(e);
        },
    };
    if !ok {
        return Err(DKIMError::SignatureDidNotVerify);
    }
    proof {
        assert(spec_sig_crypto_ok(
            ts,
            email.spec_headers(),
            email.body@,
            dkim_header.raw_bytes@,
            *public_key,
            pair.0,
            pair.1,
            ignore_body_hash,
        ));
    }
    Ok(pair)
}

/// Run DKIM verification offline against a known public key: normalize
/// the message's line endings, try each `DKIM-Signature` header in
/// document order, and return the first pass, else the last error any
/// candidate produced, else `Neutral` (RFC 6376 §6.1): a failing
/// signature never aborts the enumeration.
pub fn verify_email_with_key(
    from_domain: &str,
    email: &ParsedEmail,
    public_key: &DkimPublicKey,
    ignore_body_hash: bool,
) -> (r: Result<DKIMResult, DKIMError>)
    requires
        public_key.wf(),
    ensures
        spec_with_key_post(from_domain@, email, *public_key, ignore_body_hash, r),
{
    let ghost hdrs = spec_norm_hdrs(email.spec_headers());
    // Normalize line endings, as transports that rewrote CRLF to LF are
    // tolerated.
    let mut norm_headers: Vec<mail::Header> = Vec::new();
    let hn = email.headers.len();
    let mut t: usize = 0;
    while t < hn
        invariant
            t <= hn,
            hn == email.headers@.len(),
            hdrs == spec_norm_hdrs(email.spec_headers()),
            norm_headers@.map_values(|h: mail::Header| h@) =~= hdrs.take(t as int),
        decreases hn - t,
    {
        let nv = canonicalization::lf_to_crlf(email.headers[t].value.as_slice());
        let ghost before = norm_headers@;
        let newh = mail::Header { name: email.headers[t].name.clone(), value: nv };
        proof {
            assert(email.spec_headers()[t as int] == email.headers@[t as int]@);
            assert(newh@ == hdrs[t as int]);
        }
        norm_headers.push(newh);
        proof {
            assert(norm_headers@.map_values(|h: mail::Header| h@) =~= before.map_values(
                |h: mail::Header| h@,
            ).push(hdrs[t as int]));
            assert(hdrs.take(t + 1) =~= hdrs.take(t as int).push(hdrs[t as int]));
        }
        t = t + 1;
    }
    let norm = ParsedEmail {
        headers: norm_headers,
        body: canonicalization::lf_to_crlf(email.body.as_slice()),
    };
    proof {
        assert(norm.spec_headers() =~= hdrs);
    }
    let ghost body = norm.body@;
    let n = norm.headers.len();
    let mut last_error: Option<DKIMError> = None;
    let mut idx: usize = 0;
    while idx < n
        invariant
            idx <= n,
            n == norm.headers@.len(),
            hdrs == spec_norm_hdrs(email.spec_headers()),
            norm.spec_headers() == hdrs,
            body == norm.body@,
            body == canonicalization::spec_lf_to_crlf(email.body@),
            public_key.wf(),
            (last_error is None) <==> (forall|m: int|
                0 <= m < idx ==> !spec_candidate_attempted(hdrs, from_domain@, m)),
            (last_error is Some) ==> (exists|m: int|
                spec_candidate_attempted(hdrs, from_domain@, m)),
            forall|m: int|
                0 <= m < idx ==> !(spec_candidate_matches(hdrs, from_domain@, m)
                    && #[trigger] spec_candidate_passes(
                    hdrs,
                    body,
                    *public_key,
                    ignore_body_hash,
                    m,
                )),
            spec_first_passing(hdrs, body, from_domain@, *public_key, ignore_body_hash, 0)
                == spec_first_passing(
                hdrs,
                body,
                from_domain@,
                *public_key,
                ignore_body_hash,
                idx as int,
            ),
            (match last_error {
                Some(e) => e is BodyHashDidNotVerify ==> exists|m: int|
                    spec_candidate_matches(hdrs, from_domain@, m)
                        && spec_candidate_bh_mismatch(hdrs, body, m),
                None => true,
            }),
        decreases n - idx,
    {
        proof {
            reveal_strlit("DKIM-Signature");
            assert(strutil::spec_lower_chars("DKIM-Signature"@) =~= seq![
                'd',
                'k',
                'i',
                'm',
                '-',
                's',
                'i',
                'g',
                'n',
                'a',
                't',
                'u',
                'r',
                'e',
            ]);
            assert(hdrs[idx as int] == norm.headers@[idx as int]@);
        }
        let is_sig = strutil::str_eq_ignore_case(
            norm.headers[idx].name.as_str(),
            "DKIM-Signature",
        );
        if is_sig {
            match mail::utf8_to_str(norm.headers[idx].value.as_slice()) {
                None => {
                    last_error = Some(
                        DKIMError::SignatureSyntaxError(
                            String::from_str("signature header value is not UTF-8"),
                        ),
                    );
                    proof {
                        assert(spec_candidate_attempted(hdrs, from_domain@, idx as int));
                        assert(!spec_candidate_matches(hdrs, from_domain@, idx as int));
                    }
                },
                Some(value) => {
                    proof {
                        vstd::utf8::encode_utf8_decode_utf8(value@);
                        assert(decode_utf8(hdrs[idx as int].1) == value@);
                    }
                    match validate_header(value) {
                        Err(e) => {
                            proof {
                                assert(!spec_header_valid(value@));
                                assert(spec_candidate_attempted(hdrs, from_domain@, idx as int));
                                assert(!spec_candidate_matches(hdrs, from_domain@, idx as int));
                            }
                            last_error = Some(e);
                        },
                        Ok(hd) => {
                            proof {
                                header::lemma_first_missing_le(
                                    spec_tag_list(value@).unwrap(),
                                    0,
                                );
                                assert(spec_header_valid(value@));
                                assert(spec_header_wf(hd.spec_tags()));
                                header::lemma_wf_required(hd.spec_tags());
                                reveal_strlit("d");
                                assert("d"@ =~= seq!['d']);
                            }
                            let signing_domain = hd.get_required_tag("d");
                            proof {
                                assert(signing_domain@ == spec_sig_domain(value@));
                            }
                            if strutil::str_eq_ignore_case(signing_domain.as_str(), from_domain) {
                                proof {
                                    assert(spec_candidate_matches(hdrs, from_domain@, idx as int));
                                    assert(spec_candidate_attempted(
                                        hdrs,
                                        from_domain@,
                                        idx as int,
                                    ));
                                    assert(hd.spec_tags() == spec_sig_tags(hdrs, idx as int));
                                    assert(hd.raw_bytes@ == decode_utf8(hdrs[idx as int].1));
                                }
                                match verify_candidate_with_key(
                                    &hd,
                                    &norm,
                                    public_key,
                                    ignore_body_hash,
                                ) {
                                    Ok(p) => {
                                        let res = DKIMResult::pass(signing_domain, p.0, p.1);
                                        proof {
                                            assert(spec_candidate_passes(
                                                hdrs,
                                                body,
                                                *public_key,
                                                ignore_body_hash,
                                                idx as int,
                                            ));
                                            assert(spec_first_passing(
                                                hdrs,
                                                body,
                                                from_domain@,
                                                *public_key,
                                                ignore_body_hash,
                                                idx as int,
                                            ) == idx as int);
                                        }
                                        return Ok(res);
                                    },
                                    Err(e) => {
                                        proof {
                                            assert(!spec_candidate_passes(
                                                hdrs,
                                                body,
                                                *public_key,
                                                ignore_body_hash,
                                                idx as int,
                                            ));
                                            if e is BodyHashDidNotVerify {
                                                assert(spec_candidate_bh_mismatch(
                                                    hdrs,
                                                    body,
                                                    idx as int,
                                                ));
                                            }
                                        }
                                        last_error = Some(e);
                                    },
                                }
                            } else {
                                proof {
                                    assert(!spec_candidate_attempted(
                                        hdrs,
                                        from_domain@,
                                        idx as int,
                                    ));
                                    assert(!spec_candidate_matches(
                                        hdrs,
                                        from_domain@,
                                        idx as int,
                                    ));
                                }
                            }
                        },
                    }
                },
            }
        } else {
            proof {
                assert(!spec_candidate_attempted(hdrs, from_domain@, idx as int));
                assert(!spec_candidate_matches(hdrs, from_domain@, idx as int));
            }
        }
        idx = idx + 1;
    }
    match last_error {
        Some(e) => Ok(DKIMResult::fail(e, from_domain.to_owned())),
        None => Ok(DKIMResult::neutral(from_domain.to_owned())),
    }
}

} // verus!
