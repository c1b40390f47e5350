use dkim::canonicalization::{
    canonicalize_body_relaxed, canonicalize_body_simple, canonicalize_header_relaxed,
    canonicalize_header_simple, normalize_body_content, Type,
};

#[test]
fn test_canonicalize_header_relaxed() {
    assert_eq!(
        canonicalize_header_relaxed("SUBJect", b" AbC\r\n"),
        b"subject:AbC\r\n"
    );
    assert_eq!(
        canonicalize_header_relaxed("Subject \t", b"\t Your Name\t \r\n"),
        b"subject:Your Name\r\n"
    );
    assert_eq!(
        canonicalize_header_relaxed("Subject \t", b"\t Kimi \t \r\n No \t\r\n Na Wa\r\n"),
        b"subject:Kimi No Na Wa\r\n"
    );
}

#[test]
fn test_canonicalize_body_relaxed() {
    // A body that is one empty line has that trailing empty line
    // removed entirely.
    assert_eq!(canonicalize_body_relaxed(b"\r\n"), b"");
    assert_eq!(canonicalize_body_relaxed(b"hey        \r\n"), b"hey\r\n");
}

#[test]
fn test_canonicalize_body_relaxed_trailing_empty_lines() {
    assert_eq!(canonicalize_body_relaxed(b"a\r\n\r\n\r\n"), b"a\r\n");
    assert_eq!(canonicalize_body_relaxed(b"\r\n\r\n\r\n"), b"");
}

#[test]
fn test_canonicalize_body_simple_empty() {
    // An empty body canonicalizes to a single CRLF under `simple`.
    assert_eq!(canonicalize_body_simple(b""), b"\r\n");
}

#[test]
fn test_canonicalize_body_relaxed_empty() {
    // An empty body stays empty under `relaxed`.
    assert_eq!(canonicalize_body_relaxed(b""), b"");
}

#[test]
fn test_canonicalize_body_simple_trailing_lines() {
    assert_eq!(canonicalize_body_simple(b"hi\r\n\r\n\r\n"), b"hi\r\n");
    assert_eq!(canonicalize_body_simple(b"hi\r\n"), b"hi\r\n");
}

#[test]
fn test_canonicalize_header_simple_exact() {
    assert_eq!(
        canonicalize_header_simple("Subject", b"Hello"),
        b"Subject: Hello\r\n"
    );
}

#[test]
fn test_normalize_body_content_exact() {
    // Trailing whitespace trimmed, space runs collapsed, LF becomes
    // CRLF, and a final CRLF is guaranteed.
    assert_eq!(normalize_body_content(b"a  b\nc  \n".to_vec()), b"a b\r\nc\r\n");
}

#[test]
fn test_type_to_string() {
    assert_eq!(Type::Simple.to_string(), "simple");
    assert_eq!(Type::Relaxed.to_string(), "relaxed");
}
