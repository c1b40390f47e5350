//! The signer: the inverse of the verifier.  It constructs a
//! `DKIM-Signature` header value with an empty `b=`, computes the body
//! and header hashes exactly as the verifier would, signs the header
//! hash, and appends the base64 signature.  Signing is deterministic
//! for identical inputs: no randomness enters any step.

use vstd::prelude::*;

use crate::canonicalization::Type;
use crate::crypto;
use crate::errors::DKIMError;
use crate::hash;
use crate::hash::HashAlgo;
use crate::header::DKIMHeader;
use crate::mail::ParsedEmail;
use crate::strutil;
use crate::DkimPrivateKey;

verus! {

use vstd::string::StringExecFns;

/// The algorithm fits the key: RSA keys sign `rsa-sha1`/`rsa-sha256`,
/// Ed25519 keys sign `ed25519-sha256`.
pub open spec fn spec_key_algo_compatible(key: DkimPrivateKey, algo: HashAlgo) -> bool {
    match key {
        DkimPrivateKey::Rsa(_) => algo == HashAlgo::RsaSha1 || algo == HashAlgo::RsaSha256,
        DkimPrivateKey::Ed25519(_) => algo == HashAlgo::Ed25519Sha256,
    }
}

/// The algorithm a key signs with when none is chosen.
pub open spec fn spec_default_algo(key: DkimPrivateKey) -> HashAlgo {
    match key {
        DkimPrivateKey::Rsa(_) => HashAlgo::RsaSha256,
        DkimPrivateKey::Ed25519(_) => HashAlgo::Ed25519Sha256,
    }
}

/// What signing the header hash `hh` yields under this private key and
/// algorithm: `None` when the algorithm does not fit the key, the seed
/// has the wrong length, or the RSA primitive fails.
pub open spec fn spec_signature_of(
    key: DkimPrivateKey,
    algo: HashAlgo,
    hh: Seq<u8>,
) -> Option<Seq<u8>> {
    match key {
        DkimPrivateKey::Rsa(der) => match algo {
            HashAlgo::RsaSha1 => crypto::spec_rsa_sha1_sign(der@, hh),
            HashAlgo::RsaSha256 => crypto::spec_rsa_sha256_sign(der@, hh),
            HashAlgo::Ed25519Sha256 => None,
        },
        DkimPrivateKey::Ed25519(seed) => if algo == HashAlgo::Ed25519Sha256 && seed@.len()
            == 32 {
            Some(crypto::spec_ed25519_sign(seed@, hh))
        } else {
            None
        },
    }
}

/// The textual name of an algorithm, as the `a=` tag carries it.
pub open spec fn spec_algo_text(a: HashAlgo) -> Seq<char> {
    match a {
        HashAlgo::RsaSha1 => "rsa-sha1"@,
        HashAlgo::RsaSha256 => "rsa-sha256"@,
        HashAlgo::Ed25519Sha256 => "ed25519-sha256"@,
    }
}

/// The textual name of a canonicalization, as the `c=` tag carries it.
pub open spec fn spec_canon_text(t: Type) -> Seq<char> {
    match t {
        Type::Simple => "simple"@,
        Type::Relaxed => "relaxed"@,
    }
}

/// A configured signer.  Build one with `SignerBuilder`.
pub struct DKIMSigner {
    pub private_key: DkimPrivateKey,
    pub signed_headers: Vec<String>,
    pub signing_domain: String,
    pub selector: String,
    pub header_canonicalization: Type,
    pub body_canonicalization: Type,
    pub hash_algo: HashAlgo,
    pub time: Option<u64>,
}

/// Builds a `DKIMSigner`: the caller supplies the headers to sign, the
/// key, the selector and domain, and the canonicalization choices.
pub struct SignerBuilder {
    pub private_key: Option<DkimPrivateKey>,
    pub signed_headers: Option<Vec<String>>,
    pub signing_domain: Option<String>,
    pub selector: Option<String>,
    pub header_canonicalization: Type,
    pub body_canonicalization: Type,
    pub hash_algo: Option<HashAlgo>,
    pub time: Option<u64>,
}

impl SignerBuilder {
    /// A builder with `simple/simple` canonicalization and nothing else
    /// set.
    pub fn new() -> SignerBuilder {
        SignerBuilder {
            private_key: None,
            signed_headers: None,
            signing_domain: None,
            selector: None,
            header_canonicalization: Type::Simple,
            body_canonicalization: Type::Simple,
            hash_algo: None,
            time: None,
        }
    }

    pub fn with_private_key(self, key: DkimPrivateKey) -> SignerBuilder {
        SignerBuilder { private_key: Some(key), ..self }
    }

    pub fn with_signed_headers(self, headers: Vec<String>) -> SignerBuilder {
        SignerBuilder { signed_headers: Some(headers), ..self }
    }

    pub fn with_signing_domain(self, domain: String) -> SignerBuilder {
        SignerBuilder { signing_domain: Some(domain), ..self }
    }

    pub fn with_selector(self, selector: String) -> SignerBuilder {
        SignerBuilder { selector: Some(selector), ..self }
    }

    pub fn with_header_canonicalization(self, t: Type) -> SignerBuilder {
        SignerBuilder { header_canonicalization: t, ..self }
    }

    pub fn with_body_canonicalization(self, t: Type) -> SignerBuilder {
        SignerBuilder { body_canonicalization: t, ..self }
    }

    pub fn with_hash_algo(self, algo: HashAlgo) -> SignerBuilder {
        SignerBuilder { hash_algo: Some(algo), ..self }
    }

    pub fn with_time(self, unix_seconds: u64) -> SignerBuilder {
        SignerBuilder { time: Some(unix_seconds), ..self }
    }

    /// Check the configuration and produce the signer.  The algorithm
    /// defaults to the natural one for the key; a mismatched choice
    /// (such as `ed25519-sha256` under an RSA key) is rejected.
    pub fn build(self) -> (r: Result<DKIMSigner, DKIMError>)
        ensures
            (match r {
                Ok(s) => {
                    &&& self.private_key == Some(s.private_key)
                    &&& self.signed_headers == Some(s.signed_headers)
                    &&& self.signing_domain == Some(s.signing_domain)
                    &&& self.selector == Some(s.selector)
                    &&& s.header_canonicalization == self.header_canonicalization
                    &&& s.body_canonicalization == self.body_canonicalization
                    &&& s.time == self.time
                    &&& spec_key_algo_compatible(s.private_key, s.hash_algo)
                    &&& (match self.hash_algo {
                        Some(a) => s.hash_algo == a,
                        None => s.hash_algo == spec_default_algo(s.private_key),
                    })
                },
                Err(e) => (e is UnknownInternalError) && (self.private_key is None
                    || self.signed_headers is None || self.signing_domain is None
                    || self.selector is None || (self.hash_algo matches Some(a)
                    && !spec_key_algo_compatible(self.private_key.unwrap(), a))),
            }),
    {
        let private_key = match self.private_key {
            Some(k) => k,
            None => {
                return Err(
                    DKIMError::UnknownInternalError(
                        String::from_str("signer is missing a private key"),
                    ),
                );
            },
        };
        let signed_headers = match self.signed_headers {
            Some(h) => h,
            None => {
                return Err(
                    DKIMError::UnknownInternalError(
                        String::from_str("signer is missing the headers to sign"),
                    ),
                );
            },
        };
        let signing_domain = match self.signing_domain {
            Some(d) => d,
            None => {
                return Err(
                    DKIMError::UnknownInternalError(
                        String::from_str("signer is missing a signing domain"),
                    ),
                );
            },
        };
        let selector = match self.selector {
            Some(s) => s,
            None => {
                return Err(
                    DKIMError::UnknownInternalError(
                        String::from_str("signer is missing a selector"),
                    ),
                );
            },
        };
        let hash_algo = match self.hash_algo {
            Some(a) => {
                let compatible = match private_key {
                    DkimPrivateKey::Rsa(_) => match a {
                        HashAlgo::RsaSha1 => true,
                        HashAlgo::RsaSha256 => true,
                        HashAlgo::Ed25519Sha256 => false,
                    },
                    DkimPrivateKey::Ed25519(_) => match a {
                        HashAlgo::Ed25519Sha256 => true,
                        _ => false,
                    },
                };
                if !compatible {
                    return Err(
                        DKIMError::UnknownInternalError(
                            String::from_str("hash algorithm does not fit the private key"),
                        ),
                    );
                }
                a
            },
            None => match private_key {
                DkimPrivateKey::Rsa(_) => HashAlgo::RsaSha256,
                DkimPrivateKey::Ed25519(_) => HashAlgo::Ed25519Sha256,
            },
        };
        Ok(
            DKIMSigner {
                private_key,
                signed_headers,
                signing_domain,
                selector,
                header_canonicalization: self.header_canonicalization,
                body_canonicalization: self.body_canonicalization,
                hash_algo,
                time: self.time,
            },
        )
    }
}

impl DKIMSigner {
    /// The exact header value this signer emits before the signature
    /// bytes: every tag in order, ending with the empty `b=`.
    pub open spec fn spec_signer_prefix(&self, email: &ParsedEmail) -> Seq<char> {
        "v=1; a="@ + spec_algo_text(self.hash_algo) + "; d="@ + self.signing_domain@ + "; s="@
            + self.selector@ + (match self.time {
            Some(t) => "; t="@ + strutil::spec_dec_digits(t as nat),
            None => Seq::<char>::empty(),
        }) + "; c="@ + spec_canon_text(self.header_canonicalization) + "/"@
            + spec_canon_text(self.body_canonicalization) + "; h="@ + self.spec_joined_headers()
            + "; bh="@ + crypto::spec_base64(
            hash::spec_digest(
                self.hash_algo,
                hash::spec_canon_body(self.body_canonicalization, email.body@),
            ),
        ) + "; b="@
    }

    /// Sign a message: the result is the value of the `DKIM-Signature`
    /// header to prepend (everything after `DKIM-Signature:`).  The
    /// emitted text is the exact tag prefix followed by the base64 of
    /// the signature over the header hash of that very prefix; signing
    /// fails exactly when the key cannot produce that signature.
    pub fn sign(&self, email: &ParsedEmail) -> (r: Result<String, DKIMError>)
        ensures
            ({
                let prefix = self.spec_signer_prefix(email);
                let hh = hash::spec_headers_hash(
                    self.header_canonicalization,
                    self.spec_joined_headers(),
                    email.spec_headers(),
                    self.hash_algo,
                    prefix,
                );
                &&& ((r is Ok) == (spec_signature_of(self.private_key, self.hash_algo, hh)
                    is Some))
                &&& (r matches Ok(v) ==> v@ == prefix + crypto::spec_base64(
                    spec_signature_of(self.private_key, self.hash_algo, hh).unwrap(),
                ))
                &&& (r matches Err(e) ==> e is UnknownInternalError)
            }),
    {
        let ghost spec_prefix = self.spec_signer_prefix(email);
        let body_hash = match hash::compute_body_hash(
            self.body_canonicalization,
            None,
            self.hash_algo,
            email.body.as_slice(),
        ) {
            Ok(v) => v,
            Err(e) => {
                proof {
                    assert(false);
                }
                return Err(e);
            },
        };
        proof {
            assert(body_hash@ == crypto::spec_base64(
                hash::spec_digest(
                    self.hash_algo,
                    hash::spec_canon_body(self.body_canonicalization, email.body@),
                ),
            ));
        }
        let h_joined = self.joined_headers();
        // The header value with an empty b= tag, hashed as emitted.
        let mut value = String::new();
        value.append("v=1; a=");
        match self.hash_algo {
            HashAlgo::RsaSha1 => value.append("rsa-sha1"),
            HashAlgo::RsaSha256 => value.append("rsa-sha256"),
            HashAlgo::Ed25519Sha256 => value.append("ed25519-sha256"),
        }
        value.append("; d=");
        value.append(self.signing_domain.as_str());
        value.append("; s=");
        value.append(self.selector.as_str());
        match self.time {
            Some(t) => {
                value.append("; t=");
                let rendered = strutil::u64_to_string(t);
                value.append(rendered.as_str());
            },
            None => {},
        }
        value.append("; c=");
        match self.header_canonicalization {
            Type::Simple => value.append("simple"),
            Type::Relaxed => value.append("relaxed"),
        }
        value.append("/");
        match self.body_canonicalization {
            Type::Simple => value.append("simple"),
            Type::Relaxed => value.append("relaxed"),
        }
        value.append("; h=");
        value.append(h_joined.as_str());
        value.append("; bh=");
        value.append(body_hash.as_str());
        value.append("; b=");
        proof {
            assert(value@ =~= spec_prefix);
        }
        // Hash the emitted value itself; only its raw text matters.
        let synthetic = DKIMHeader { tags: Vec::new(), raw_bytes: value.clone() };
        let header_hash = match hash::compute_headers_hash(
            self.header_canonicalization,
            h_joined.as_str(),
            self.hash_algo,
            &synthetic,
            email,
        ) {
            Ok(v) => v,
            Err(e) => {
                proof {
                    assert(false);
                }
                return Err(e);
            },
        };
        let ghost hh = header_hash@;
        proof {
            assert(hh == hash::spec_headers_hash(
                self.header_canonicalization,
                self.spec_joined_headers(),
                email.spec_headers(),
                self.hash_algo,
                spec_prefix,
            ));
        }
        let signature: Vec<u8> = match &self.private_key {
            DkimPrivateKey::Rsa(der) => {
                let signed = match self.hash_algo {
                    HashAlgo::RsaSha1 => crypto::rsa_sha1_sign(
                        der.as_slice(),
                        header_hash.as_slice(),
                    ),
                    HashAlgo::RsaSha256 => crypto::rsa_sha256_sign(
                        der.as_slice(),
                        header_hash.as_slice(),
                    ),
                    HashAlgo::Ed25519Sha256 => {
                        proof {
                            assert(spec_signature_of(self.private_key, self.hash_algo, hh)
                                is None);
                        }
                        return Err(
                            DKIMError::UnknownInternalError(
                                String::from_str(
                                    "an RSA key cannot produce an ed25519-sha256 signature",
                                ),
                            ),
                        );
                    },
                };
                match signed {
                    Some(s) => s,
                    None => {
                        proof {
                            assert(spec_signature_of(self.private_key, self.hash_algo, hh)
                                is None);
                        }
                        return Err(
                            DKIMError::UnknownInternalError(
                                String::from_str("RSA signing failed"),
                            ),
                        );
                    },
                }
            },
            DkimPrivateKey::Ed25519(seed) => {
                let is_ed = match self.hash_algo {
                    HashAlgo::Ed25519Sha256 => true,
                    _ => false,
                };
                if is_ed && seed.len() == 32 {
                    crypto::ed25519_sign(seed.as_slice(), header_hash.as_slice())
                } else {
                    proof {
                        assert(spec_signature_of(self.private_key, self.hash_algo, hh) is None);
                    }
                    return Err(
                        DKIMError::UnknownInternalError(
                            String::from_str("an Ed25519 key needs a 32-byte seed"),
                        ),
                    );
                }
            },
        };
        proof {
            assert(spec_signature_of(self.private_key, self.hash_algo, hh) == Some(signature@));
        }
        let encoded = crypto::base64_encode(signature.as_slice());
        value.append(encoded.as_str());
        proof {
            assert(value@ == spec_prefix + crypto::spec_base64(signature@));
        }
        Ok(value)
    }

    /// The colon-joined list the `h=` tag carries.
    pub open spec fn spec_joined_headers(&self) -> Seq<char> {
        spec_join_colon(self.signed_headers@.map_values(|s: String| s@))
    }

    fn joined_headers(&self) -> (r: String)
        ensures
            r@ == self.spec_joined_headers(),
    {
        let n = self.signed_headers.len();
        let mut out = String::new();
        let mut i: usize = 0;
        proof {
            assert(self.signed_headers@.map_values(|s: String| s@).take(0) =~= Seq::<
                Seq<char>,
            >::empty());
            assert(out@ =~= spec_join_colon(
                self.signed_headers@.map_values(|s: String| s@).take(0),
            ));
        }
        while i < n
            invariant
                i <= n,
                n == self.signed_headers@.len(),
                out@ == spec_join_colon(
                    self.signed_headers@.map_values(|s: String| s@).take(i as int),
                ),
            decreases n - i,
        {
            if i > 0 {
                out.append(":");
            }
            out.append(self.signed_headers[i].as_str());
            proof {
                reveal_strlit(":");
                assert(":"@ =~= seq![':']);
                let m = self.signed_headers@.map_values(|s: String| s@);
                assert(m.take(i + 1).drop_last() =~= m.take(i as int));
                assert(m.take(i + 1).last() == m[i as int]);
                assert(m[i as int] == self.signed_headers@[i as int]@);
            }
            i = i + 1;
        }
        proof {
            assert(self.signed_headers@.map_values(|s: String| s@).take(n as int)
                =~= self.signed_headers@.map_values(|s: String| s@));
        }
        out
    }
}

/// The members of `parts` joined with `:`.
pub open spec fn spec_join_colon(parts: Seq<Seq<char>>) -> Seq<char>
    decreases parts.len(),
{
    if parts.len() == 0 {
        Seq::empty()
    } else if parts.len() == 1 {
        parts[0]
    } else {
        spec_join_colon(parts.drop_last()) + seq![':'] + parts.last()
    }
}

} // verus!
