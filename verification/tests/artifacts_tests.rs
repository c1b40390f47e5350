use base64::Engine;
use dkim::{canonicalize_signed_email, get_google_dns_url, get_rsa_public_key_from_google_dns, DKIMError};
use rand::SeedableRng;

fn rsa_fixture() -> String {
    r#"DKIM-Signature: a=rsa-sha256; bh=2jUSOH9NhtVGCQWNr9BrIAPreKQjO6Sn7XIkfJVOzv8=;
 c=simple/simple; d=example.com;
 h=Received:From:To:Subject:Date:Message-ID; i=joe@football.example.com;
 s=newengland; t=1615825284; v=1;
 b=Xh4Ujb2wv5x54gXtulCiy4C0e+plRm6pZ4owF+kICpYzs/8WkTVIDBrzhJP0DAYCpnL62T0G
 k+0OH8pi/yqETVjKtKk+peMnNvKkut0GeWZMTze0bfq3/JUK3Ln3jTzzpXxrgVnvBxeY9EZIL4g
 s4wwFRRKz/1bksZGSjD8uuSU=
Received: from client1.football.example.com  [192.0.2.1]
      by submitserver.example.com with SUBMISSION;
      Fri, 11 Jul 2003 21:01:54 -0700 (PDT)
From: Joe SixPack <joe@football.example.com>
To: Suzie Q <suzie@shopping.example.net>
Subject: Is dinner ready?
Date: Fri, 11 Jul 2003 21:00:37 -0700 (PDT)
Message-ID: <20030712040037.46341.5F8J@football.example.com>

Hi.

We lost the game. Are you hungry yet?

Joe.
"#
    .replace('\n', "\r\n")
}

#[test]
fn test_canonicalize_signed_email() {
    let raw = rsa_fixture();
    let (headers, body, signature) = canonicalize_signed_email(raw.as_bytes()).unwrap();
    // Simple header canonicalization reproduces the signed headers as
    // received, starting with the first name of the h= list.
    assert!(headers.starts_with(b"Received: from client1.football.example.com"));
    // The re-canonicalized signature header ends with its emptied b= tag.
    assert!(headers.ends_with(b"b="));
    // The body artifact is the signature's own (simple) body
    // canonicalization: here the received body, byte for byte.
    assert_eq!(
        body,
        b"Hi.\r\n\r\nWe lost the game. Are you hungry yet?\r\n\r\nJoe.\r\n"
    );
    // The b= value of a 1024-bit RSA signature decodes to 128 bytes.
    assert_eq!(signature.len(), 128);
}

#[test]
fn test_get_google_dns_url() {
    let raw = rsa_fixture();
    let url = get_google_dns_url(raw.as_bytes()).unwrap();
    assert_eq!(
        url,
        "https://dns.google/resolve?name=newengland._domainkey.example.com&type=TXT"
    );
}

#[test]
fn test_get_rsa_public_key_from_google_dns() {
    // A 1024-bit key in SubjectPublicKeyInfo DER encodes to 216 base64
    // characters without padding, as published keys in the wild do.
    let mut rng = rand::rngs::StdRng::seed_from_u64(7);
    let private = rsa::RsaPrivateKey::new(&mut rng, 1024).unwrap();
    let public = rsa::RsaPublicKey::from(&private);
    let spki = rsa::pkcs8::EncodePublicKey::to_public_key_der(&public).unwrap();
    let b64 = base64::engine::general_purpose::STANDARD.encode(spki.as_bytes());
    assert!(!b64.contains('='));
    let response = format!(
        "{{\"Answer\":[{{\"data\":\"v=DKIM1; k=ed25519; p=AAAA\"}},{{\"data\":\"v=DKIM1; k=rsa; p={}\"}}]}}",
        b64
    );
    assert!(get_rsa_public_key_from_google_dns(&response).is_ok());
}

#[test]
fn test_get_rsa_public_key_from_google_dns_no_key() {
    let response = "{\"Answer\":[{\"data\":\"v=DKIM1; k=ed25519; p=AAAA\"}]}";
    match get_rsa_public_key_from_google_dns(response) {
        Err(DKIMError::KeyUnavailable(_)) => {}
        other => panic!("expected KeyUnavailable, got {:?}", other),
    }
}

#[test]
fn test_get_rsa_public_key_bad_response() {
    match get_rsa_public_key_from_google_dns("not json at all") {
        Err(DKIMError::KeyUnavailable(_)) => {}
        other => panic!("expected KeyUnavailable, got {:?}", other),
    }
}
