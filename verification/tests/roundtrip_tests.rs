use dkim::canonicalization::Type;
use dkim::hash::HashAlgo;
use dkim::mail::{Header, ParsedEmail};
use dkim::public_key::DkimPublicKey;
use dkim::{verify_email_with_key, DkimPrivateKey, DKIMResult, SignerBuilder};
use rand::SeedableRng;
use rsa::pkcs1::{EncodeRsaPrivateKey, EncodeRsaPublicKey};

fn sample_email() -> ParsedEmail {
    ParsedEmail {
        headers: vec![
            Header {
                name: "From".to_string(),
                value: b"Joe SixPack <joe@football.example.com>".to_vec(),
            },
            Header {
                name: "To".to_string(),
                value: b"Suzie Q <suzie@shopping.example.net>".to_vec(),
            },
            Header {
                name: "Subject".to_string(),
                value: b"Is dinner ready?".to_vec(),
            },
        ],
        body: b"Hi.\r\n\r\nWe lost the game.\r\n".to_vec(),
    }
}

fn sign_and_verify(key: DkimPrivateKey, public_key: DkimPublicKey, algo: HashAlgo) {
    let combos = [
        (Type::Simple, Type::Simple),
        (Type::Simple, Type::Relaxed),
        (Type::Relaxed, Type::Simple),
        (Type::Relaxed, Type::Relaxed),
    ];
    for (hc, bc) in combos {
        let email = sample_email();
        let signer = SignerBuilder::new()
            .with_private_key(key.clone())
            .with_signed_headers(vec![
                "From".to_string(),
                "To".to_string(),
                "Subject".to_string(),
            ])
            .with_signing_domain("football.example.com".to_string())
            .with_selector("brisbane".to_string())
            .with_header_canonicalization(hc)
            .with_body_canonicalization(bc)
            .with_hash_algo(algo)
            .build()
            .unwrap();
        let value = signer.sign(&email).unwrap();

        let mut headers = vec![Header {
            name: "DKIM-Signature".to_string(),
            value: value.into_bytes(),
        }];
        headers.extend(email.headers.clone());
        let signed = ParsedEmail {
            headers,
            body: email.body.clone(),
        };

        let res =
            verify_email_with_key("football.example.com", &signed, &public_key, false).unwrap();
        match res {
            DKIMResult::Pass { .. } => {}
            other => panic!(
                "round trip failed for {:?}/{:?} with {:?}: {:?}",
                hc, bc, algo, other
            ),
        }
    }
}

fn rsa_keys() -> (DkimPrivateKey, DkimPublicKey) {
    let mut rng = rand::rngs::StdRng::seed_from_u64(42);
    let private = rsa::RsaPrivateKey::new(&mut rng, 1024).unwrap();
    let public = rsa::RsaPublicKey::from(&private);
    let priv_der = private.to_pkcs1_der().unwrap().as_bytes().to_vec();
    let pub_der = public.to_pkcs1_der().unwrap().as_bytes().to_vec();
    (
        DkimPrivateKey::Rsa(priv_der),
        DkimPublicKey::Rsa(pub_der),
    )
}

#[test]
fn test_roundtrip_rsa_sha256() {
    let (private, public) = rsa_keys();
    sign_and_verify(private, public, HashAlgo::RsaSha256);
}

#[test]
fn test_roundtrip_rsa_sha1() {
    let (private, public) = rsa_keys();
    sign_and_verify(private, public, HashAlgo::RsaSha1);
}

#[test]
fn test_roundtrip_ed25519() {
    let seed = [7u8; 32];
    let signing = ed25519_dalek::SigningKey::from_bytes(&seed);
    let public = signing.verifying_key().to_bytes().to_vec();
    sign_and_verify(
        DkimPrivateKey::Ed25519(seed.to_vec()),
        DkimPublicKey::Ed25519(public),
        HashAlgo::Ed25519Sha256,
    );
}

#[test]
fn test_tampered_body_after_signing() {
    // Altering one body byte after signing must be caught by the body
    // hash comparison.
    let seed = [7u8; 32];
    let signing = ed25519_dalek::SigningKey::from_bytes(&seed);
    let public = DkimPublicKey::Ed25519(signing.verifying_key().to_bytes().to_vec());

    let email = sample_email();
    let signer = SignerBuilder::new()
        .with_private_key(DkimPrivateKey::Ed25519(seed.to_vec()))
        .with_signed_headers(vec!["From".to_string(), "Subject".to_string()])
        .with_signing_domain("football.example.com".to_string())
        .with_selector("brisbane".to_string())
        .build()
        .unwrap();
    let value = signer.sign(&email).unwrap();

    let mut headers = vec![Header {
        name: "DKIM-Signature".to_string(),
        value: value.into_bytes(),
    }];
    headers.extend(email.headers.clone());
    let mut body = email.body.clone();
    body[0] = b'X';
    let signed = ParsedEmail { headers, body };

    // A failing signature no longer aborts the run: the outcome is a
    // failure carrying the last error.
    let res = verify_email_with_key("football.example.com", &signed, &public, false).unwrap();
    match res {
        DKIMResult::Fail { ref error, ref domain } => {
            assert_eq!(*error, dkim::DKIMError::BodyHashDidNotVerify);
            assert_eq!(domain, "football.example.com");
        }
        other => panic!("expected a failure, got {:?}", other),
    }
}

#[test]
fn test_later_signature_still_passes() {
    // A broken first signature does not keep a later valid one from
    // passing: the enumeration continues.
    let seed = [13u8; 32];
    let signing = ed25519_dalek::SigningKey::from_bytes(&seed);
    let public = DkimPublicKey::Ed25519(signing.verifying_key().to_bytes().to_vec());

    let email = sample_email();
    let signer = SignerBuilder::new()
        .with_private_key(DkimPrivateKey::Ed25519(seed.to_vec()))
        .with_signed_headers(vec!["From".to_string()])
        .with_signing_domain("football.example.com".to_string())
        .with_selector("brisbane".to_string())
        .build()
        .unwrap();
    let good = signer.sign(&email).unwrap();
    let mut bad = good.clone().into_bytes();
    let last = bad.len() - 10;
    bad[last] = if bad[last] == b'A' { b'B' } else { b'A' };

    let mut headers = vec![
        Header {
            name: "DKIM-Signature".to_string(),
            value: bad,
        },
        Header {
            name: "DKIM-Signature".to_string(),
            value: good.into_bytes(),
        },
    ];
    headers.extend(email.headers.clone());
    let signed = ParsedEmail {
        headers,
        body: email.body.clone(),
    };
    let res = verify_email_with_key("football.example.com", &signed, &public, false).unwrap();
    assert_eq!(res.summary(), "pass");
}

#[test]
fn test_line_ending_tolerance_roundtrip() {
    // Verification agrees for a message delivered with bare LF line
    // endings and the same message with CRLF endings.
    let seed = [9u8; 32];
    let signing = ed25519_dalek::SigningKey::from_bytes(&seed);
    let public = DkimPublicKey::Ed25519(signing.verifying_key().to_bytes().to_vec());

    let email = sample_email();
    let signer = SignerBuilder::new()
        .with_private_key(DkimPrivateKey::Ed25519(seed.to_vec()))
        .with_signed_headers(vec!["From".to_string()])
        .with_signing_domain("football.example.com".to_string())
        .with_selector("brisbane".to_string())
        .with_body_canonicalization(Type::Relaxed)
        .build()
        .unwrap();
    let value = signer.sign(&email).unwrap();

    let mut headers = vec![Header {
        name: "DKIM-Signature".to_string(),
        value: value.into_bytes(),
    }];
    headers.extend(email.headers.clone());

    let crlf = ParsedEmail {
        headers: headers.clone(),
        body: email.body.clone(),
    };
    let bare_lf = ParsedEmail {
        headers,
        body: email
            .body
            .iter()
            .copied()
            .filter(|&b| b != b'\r')
            .collect(),
    };

    let a = verify_email_with_key("football.example.com", &crlf, &public, false).unwrap();
    let b = verify_email_with_key("football.example.com", &bare_lf, &public, false).unwrap();
    assert_eq!(a.summary(), b.summary());
    assert_eq!(a.summary(), "pass");
}

#[test]
fn test_header_name_case_insensitive() {
    // Changing the case of message header names does not change the
    // verification outcome under relaxed header canonicalization.
    let seed = [11u8; 32];
    let signing = ed25519_dalek::SigningKey::from_bytes(&seed);
    let public = DkimPublicKey::Ed25519(signing.verifying_key().to_bytes().to_vec());

    let email = sample_email();
    let signer = SignerBuilder::new()
        .with_private_key(DkimPrivateKey::Ed25519(seed.to_vec()))
        .with_signed_headers(vec!["From".to_string(), "Subject".to_string()])
        .with_signing_domain("football.example.com".to_string())
        .with_selector("brisbane".to_string())
        .with_header_canonicalization(Type::Relaxed)
        .with_body_canonicalization(Type::Relaxed)
        .build()
        .unwrap();
    let value = signer.sign(&email).unwrap();

    let make = |names: [&str; 3]| {
        let mut headers = vec![Header {
            name: "DKIM-Signature".to_string(),
            value: value.clone().into_bytes(),
        }];
        for (name, orig) in names.iter().zip(email.headers.iter()) {
            headers.push(Header {
                name: name.to_string(),
                value: orig.value.clone(),
            });
        }
        ParsedEmail {
            headers,
            body: email.body.clone(),
        }
    };

    let normal = make(["From", "To", "Subject"]);
    let shouty = make(["FROM", "tO", "sUBJECT"]);

    let a = verify_email_with_key("football.example.com", &normal, &public, false).unwrap();
    let b = verify_email_with_key("football.example.com", &shouty, &public, false).unwrap();
    assert_eq!(a.summary(), "pass");
    assert_eq!(b.summary(), a.summary());
}

#[test]
fn test_sign_emits_time_tag() {
    // A configured signing time is emitted as the t= tag, and the
    // signed message still verifies.
    let seed = [21u8; 32];
    let signing = ed25519_dalek::SigningKey::from_bytes(&seed);
    let public = DkimPublicKey::Ed25519(signing.verifying_key().to_bytes().to_vec());

    let email = sample_email();
    let signer = SignerBuilder::new()
        .with_private_key(DkimPrivateKey::Ed25519(seed.to_vec()))
        .with_signed_headers(vec!["From".to_string()])
        .with_signing_domain("football.example.com".to_string())
        .with_selector("brisbane".to_string())
        .with_time(1528637909)
        .build()
        .unwrap();
    let value = signer.sign(&email).unwrap();

    let header = dkim::validate_header(&value).unwrap();
    assert_eq!(header.get_tag("t"), Some("1528637909".to_string()));

    let mut headers = vec![Header {
        name: "DKIM-Signature".to_string(),
        value: value.into_bytes(),
    }];
    headers.extend(email.headers.clone());
    let signed = ParsedEmail {
        headers,
        body: email.body.clone(),
    };
    let res = verify_email_with_key("football.example.com", &signed, &public, false).unwrap();
    assert_eq!(res.summary(), "pass");
}
