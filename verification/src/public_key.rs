//! Retrieval of the signer's public key: build the DNS name
//! `<selector>._domainkey.<domain>`, ask the injected resolver for its
//! TXT records, and parse the key record's tag-list into verifying key
//! material.

use vstd::prelude::*;

use crate::crypto;
use crate::dns::Lookup;
use crate::errors::DKIMError;
use crate::header::spec_get_tag_in;
use crate::parser;
use crate::strutil;

verus! {

use vstd::string::StringExecFns;

/// An RSA or Ed25519 verifying key, as plain bytes: the PKCS#1 DER of an
/// RSA public key, or the 32 bytes of an Ed25519 public key.
#[derive(Debug, Clone)]
pub enum DkimPublicKey {
    Rsa(Vec<u8>),
    Ed25519(Vec<u8>),
}

impl DkimPublicKey {
    /// The key material is well formed: it parses under its algorithm.
    pub open spec fn wf(&self) -> bool {
        match self {
            DkimPublicKey::Rsa(der) => crypto::spec_rsa_key_ok(der@),
            DkimPublicKey::Ed25519(k) => k@.len() == 32 && crypto::spec_ed25519_key_ok(k@),
        }
    }

    /// What `try_from_bytes` promises: the bytes are kept as given and
    /// checked under the named key type; an unknown type, or material
    /// that does not parse, is `KeyUnavailable`.
    pub open spec fn spec_try_from_bytes_post(
        bytes: Seq<u8>,
        key_type: Seq<char>,
        r: Result<DkimPublicKey, DKIMError>,
    ) -> bool {
        let kt = strutil::spec_lower_chars(key_type);
        if kt == seq!['r', 's', 'a'] {
            if crypto::spec_rsa_key_ok(bytes) {
                r matches Ok(k) && k matches DkimPublicKey::Rsa(d) && d@ == bytes
            } else {
                r matches Err(e) && e is KeyUnavailable
            }
        } else if kt == seq!['e', 'd', '2', '5', '5', '1', '9'] {
            if bytes.len() == 32 && crypto::spec_ed25519_key_ok(bytes) {
                r matches Ok(k) && k matches DkimPublicKey::Ed25519(d) && d@ == bytes
            } else {
                r matches Err(e) && e is KeyUnavailable
            }
        } else {
            r matches Err(e) && e is KeyUnsupported
        }
    }

    /// Build a verifying key from raw bytes and the `k=` key type
    /// (`rsa`, matched case-insensitively, or `ed25519`).
    pub fn try_from_bytes(bytes: &[u8], key_type: &str) -> (r: Result<DkimPublicKey, DKIMError>)
        ensures
            DkimPublicKey::spec_try_from_bytes_post(bytes@, key_type@, r),
            (r matches Ok(k) ==> k.wf()),
    {
        proof {
            reveal_strlit("rsa");
            reveal_strlit("ed25519");
            assert("rsa"@ =~= seq!['r', 's', 'a']);
            assert("ed25519"@ =~= seq!['e', 'd', '2', '5', '5', '1', '9']);
        }
        let lowered = strutil::to_lower(key_type);
        if strutil::str_eq(lowered.as_str(), "rsa") {
            if crypto::rsa_key_parses(bytes) {
                Ok(DkimPublicKey::Rsa(vstd::slice::slice_to_vec(bytes)))
            } else {
                Err(DKIMError::KeyUnavailable(String::from_str("failed to parse RSA key")))
            }
        } else if strutil::str_eq(lowered.as_str(), "ed25519") {
            if bytes.len() == 32 {
                if crypto::ed25519_key_parses(bytes) {
                    Ok(DkimPublicKey::Ed25519(vstd::slice::slice_to_vec(bytes)))
                } else {
                    Err(
                        DKIMError::KeyUnavailable(
                            String::from_str("failed to parse Ed25519 key"),
                        ),
                    )
                }
            } else {
                Err(DKIMError::KeyUnavailable(String::from_str("invalid Ed25519 key length")))
            }
        } else {
            Err(DKIMError::KeyUnsupported(String::from_str("unsupported key type")))
        }
    }
}

/// What parsing one TXT key record yields (RFC 6376 §3.6.1): the key
/// material of its `p=` tag under the type of its `k=` tag (`rsa` when
/// absent), or the exact error.
pub open spec fn spec_key_record_post(s: Seq<char>, r: Result<DkimPublicKey, DKIMError>) -> bool {
    match parser::spec_tag_list(s) {
        None => r matches Err(e) && e is KeySyntaxError,
        Some(ts) => {
            let v = spec_get_tag_in(ts, seq!['v']);
            let k = spec_get_tag_in(ts, seq!['k']);
            let p = spec_get_tag_in(ts, seq!['p']);
            let kt = if k is Some {
                k.unwrap()
            } else {
                seq!['r', 's', 'a']
            };
            if v is Some && v.unwrap() != seq!['D', 'K', 'I', 'M', '1'] {
                r matches Err(e) && e is KeySyntaxError
            } else if p is None {
                r matches Err(e) && e is KeyUnavailable
            } else if p.unwrap().len() == 0 {
                r matches Err(e) && e is KeyRevoked
            } else {
                match crypto::spec_base64_decode(strutil::spec_strip_fws(p.unwrap())) {
                    None => r matches Err(e) && e is KeySyntaxError,
                    Some(bytes) => DkimPublicKey::spec_try_from_bytes_post(bytes, kt, r),
                }
            }
        },
    }
}

/// Parse one TXT key record: check `v=DKIM1` when present, default the
/// key type to `rsa`, reject a revoked (empty) `p=`, base64-decode the
/// key material, and build the verifying key.
pub fn parse_key_record(record: &str) -> (r: Result<DkimPublicKey, DKIMError>)
    ensures
        spec_key_record_post(record@, r),
        (r matches Ok(k) ==> k.wf()),
{
    proof {
        reveal_strlit("v");
        reveal_strlit("k");
        reveal_strlit("p");
        reveal_strlit("rsa");
        reveal_strlit("DKIM1");
        assert("v"@ =~= seq!['v']);
        assert("k"@ =~= seq!['k']);
        assert("p"@ =~= seq!['p']);
        assert("rsa"@ =~= seq!['r', 's', 'a']);
        assert("DKIM1"@ =~= seq!['D', 'K', 'I', 'M', '1']);
    }
    let tags = match parser::tag_list(record) {
        Ok(t) => t,
        Err(_) => {
            return Err(DKIMError::KeySyntaxError(String::from_str("invalid key record")));
        },
    };
    let hd = crate::header::DKIMHeader { tags, raw_bytes: record.to_owned() };
    match hd.get_tag("v") {
        Some(version) => {
            if !strutil::str_eq(version.as_str(), "DKIM1") {
                return Err(
                    DKIMError::KeySyntaxError(String::from_str("unsupported key record version")),
                );
            }
        },
        None => {},
    }
    let key_type = match hd.get_tag("k") {
        Some(k) => k,
        None => String::from_str("rsa"),
    };
    let p = match hd.get_tag("p") {
        Some(p) => p,
        None => {
            return Err(DKIMError::KeyUnavailable(String::from_str("key record has no p= tag")));
        },
    };
    if p.as_str().unicode_len() == 0 {
        return Err(DKIMError::KeyRevoked);
    }
    let stripped = strutil::strip_fws(p.as_str());
    let bytes = match crypto::base64_decode(stripped.as_str()) {
        Some(b) => b,
        None => {
            return Err(
                DKIMError::KeySyntaxError(String::from_str("invalid base64 in key record")),
            );
        },
    };
    DkimPublicKey::try_from_bytes(bytes.as_slice(), key_type.as_str())
}

/// The DNS name at which a signer publishes its key:
/// `<selector>._domainkey.<domain>` (RFC 6376 §3.6.2.1).
pub fn dkim_key_dns_name(selector: &str, domain: &str) -> (r: String)
    ensures
        r@ == selector@ + "._domainkey."@ + domain@,
{
    let mut name = String::new();
    name.append(selector);
    name.append("._domainkey.");
    name.append(domain);
    name
}

/// An error of the key-retrieval taxonomy: what `retrieve_public_key`
/// may fail with (RFC 6376 §3.6.2 / the error design).
pub open spec fn spec_is_key_error(e: DKIMError) -> bool {
    ||| e is KeyUnavailable
    ||| e is KeyRevoked
    ||| e is KeyUnsupported
    ||| e is KeySyntaxError
    ||| e is UnknownInternalError
}

/// Resolve the signer's public key: look up the TXT records of
/// `<selector>._domainkey.<domain>` through the injected resolver and
/// parse each record as a key record until one yields a key.  Whatever
/// the resolver hands back, a key this returns is well formed, and a
/// failure stays within the key-retrieval taxonomy (a resolver error
/// outside it is wrapped as a transport failure).
pub fn retrieve_public_key<L: Lookup>(resolver: &L, domain: &str, selector: &str) -> (r: Result<
    DkimPublicKey,
    DKIMError,
>)
    ensures
        (r matches Ok(k) ==> k.wf()),
        (r matches Ok(k) ==> exists|rec: Seq<char>| #[trigger] spec_key_record_post(
            rec,
            Ok::<DkimPublicKey, DKIMError>(k),
        )),
        (r matches Err(e) ==> spec_is_key_error(e)),
{
    let name = dkim_key_dns_name(selector, domain);
    let records = match resolver.lookup_txt(name.as_str()) {
        Ok(rs) => rs,
        Err(e) => {
            let keyish = match e {
                DKIMError::KeyUnavailable(_) => true,
                DKIMError::KeyRevoked => true,
                DKIMError::KeyUnsupported(_) => true,
                DKIMError::KeySyntaxError(_) => true,
                DKIMError::UnknownInternalError(_) => true,
                _ => false,
            };
            if keyish {
                return Err(e);
            }
            return Err(
                DKIMError::UnknownInternalError(String::from_str("DNS TXT lookup failed")),
            );
        },
    };
    let n = records.len();
    let mut last: Option<DKIMError> = None;
    let mut i: usize = 0;
    while i < n
        invariant
            i <= n,
            n == records@.len(),
            (match last {
                Some(e) => spec_is_key_error(e),
                None => true,
            }),
        decreases n - i,
    {
        match parse_key_record(records[i].as_str()) {
            Ok(k) => {
                proof {
                    assert(spec_key_record_post(
                        records@[i as int]@,
                        Ok::<DkimPublicKey, DKIMError>(k),
                    ));
                }
                return Ok(k);
            },
            Err(e) => {
                last = Some(e);
            },
        }
        i = i + 1;
    }
    match last {
        Some(e) => Err(e),
        None => Err(DKIMError::KeyUnavailable(String::from_str("no TXT record found"))),
    }
}

} // verus!
