use dkim::canonicalization::Type;
use dkim::hash::{compute_body_hash, HashAlgo};
use dkim::bytes::{find, replace, replace_slice};

#[test]
fn test_body_hash_empty_simple_sha256() {
    // RFC 6376 §3.4.3: the SHA-256 body hash of an empty body under
    // `simple` canonicalization is the hash of a single CRLF.
    let bh = compute_body_hash(Type::Simple, None, HashAlgo::RsaSha256, b"").unwrap();
    assert_eq!(bh, "frcCV1k9oG9oKj3dpUqdJg1PxRT2RSN/XKdLCPjaYaY=");
}

#[test]
fn test_body_hash_empty_relaxed_sha256() {
    // Under `relaxed`, an empty body hashes as the empty string.
    let bh = compute_body_hash(Type::Relaxed, None, HashAlgo::RsaSha256, b"").unwrap();
    assert_eq!(bh, "47DEQpj8HBSa+/TImW+5JCeuQeRkm5NMpJWZG3hSuFU=");
    // A body that is one empty line canonicalizes to nothing at all
    // and hashes the same way.
    let lone = compute_body_hash(Type::Relaxed, None, HashAlgo::RsaSha256, b"\r\n").unwrap();
    assert_eq!(lone, "47DEQpj8HBSa+/TImW+5JCeuQeRkm5NMpJWZG3hSuFU=");
}

#[test]
fn test_body_hash_length_truncation() {
    // With l=3, only the first three canonicalized bytes are hashed:
    // here "hey" exactly, so the hash equals that of the whole body
    // minus its CRLF... compare against hashing "hey" directly through
    // an l= that covers it.
    let full = compute_body_hash(
        Type::Relaxed,
        Some("3".to_string()),
        HashAlgo::RsaSha256,
        b"hey\r\n",
    )
    .unwrap();
    let three = compute_body_hash(
        Type::Relaxed,
        Some("3".to_string()),
        HashAlgo::RsaSha256,
        b"hey        \r\n\r\n",
    )
    .unwrap();
    // Both canonicalize to "hey\r\n" and are truncated to "hey".
    assert_eq!(full, three);
    // And an l= larger than the body hashes what exists.
    let all = compute_body_hash(
        Type::Relaxed,
        Some("999".to_string()),
        HashAlgo::RsaSha256,
        b"hey\r\n",
    )
    .unwrap();
    let plain = compute_body_hash(Type::Relaxed, None, HashAlgo::RsaSha256, b"hey\r\n").unwrap();
    assert_eq!(all, plain);
}

#[test]
fn test_body_hash_bad_length_tag() {
    match compute_body_hash(
        Type::Simple,
        Some("12x".to_string()),
        HashAlgo::RsaSha256,
        b"hey\r\n",
    ) {
        Err(dkim::DKIMError::SignatureSyntaxError(_)) => {}
        other => panic!("expected a syntax error, got {:?}", other),
    }
}

#[test]
fn test_bytes_replace() {
    let mut v = b"a\tb\tc".to_vec();
    replace(&mut v, b'\t', b' ');
    assert_eq!(v, b"a b c");
}

#[test]
fn test_bytes_find() {
    assert_eq!(find(b"hello world", b"world"), Some(6));
    assert_eq!(find(b"hello world", b"worlds"), None);
    assert_eq!(find(b"aaa", b""), Some(0));
}

#[test]
fn test_bytes_replace_slice() {
    assert_eq!(replace_slice(b"a\r\nb\r\n", b"\r\n", b""), b"ab");
    assert_eq!(replace_slice(b"xyx", b"x", b"zz"), b"zzyzz");
}
