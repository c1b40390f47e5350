use dkim::{validate_header, DKIMError};

#[test]
fn test_validate_header() {
    let header = r#"v=1; a=rsa-sha256; d=example.net; s=brisbane;
c=relaxed/simple; q=dns/txt; i=foo@eng.example.net;
t=1117574938; x=9118006938; l=200;
h=from:to:subject:date:keywords:keywords;
z=From:foo@eng.example.net|To:joe@example.com|
Subject:demo=20run|Date:July=205,=202005=203:44:08=20PM=20-0700;
bh=MTIzNDU2Nzg5MDEyMzQ1Njc4OTAxMjM0NTY3ODkwMTI=;
b=dzdVyOfAKCdLXdJOc9G2q8LoXSlEniSbav+yuU4zGeeruD00lszZ
      VoG4ZHRNiYzR
        "#;
    validate_header(header).unwrap();
}

#[test]
fn test_validate_header_missing_tag() {
    let header = "v=1; a=rsa-sha256; bh=a; b=b";
    assert_eq!(
        validate_header(header).unwrap_err(),
        DKIMError::SignatureMissingRequiredTag("d")
    );
}

#[test]
fn test_validate_header_domain_mismatch() {
    let header = r#"v=1; a=rsa-sha256; d=example.net; s=brisbane; i=foo@hein.com; h=headers; bh=hash; b=hash
        "#;
    assert_eq!(
        validate_header(header).unwrap_err(),
        DKIMError::DomainMismatch
    );
}

#[test]
fn test_validate_header_incompatible_version() {
    let header = r#"v=3; a=rsa-sha256; d=example.net; s=brisbane; i=foo@example.net; h=headers; bh=hash; b=hash
        "#;
    assert_eq!(
        validate_header(header).unwrap_err(),
        DKIMError::IncompatibleVersion
    );
}

#[test]
fn test_validate_header_missing_from_in_headers_signature() {
    let header = r#"v=1; a=rsa-sha256; d=example.net; s=brisbane; i=foo@example.net; h=Subject:A:B; bh=hash; b=hash
        "#;
    assert_eq!(
        validate_header(header).unwrap_err(),
        DKIMError::FromFieldNotSigned
    );
}

#[test]
fn test_validate_header_expired_in_drift() {
    let now = std::time::SystemTime::now()
        .duration_since(std::time::UNIX_EPOCH)
        .unwrap()
        .as_secs()
        - 1;

    let header = format!("v=1; a=rsa-sha256; d=example.net; s=brisbane; i=foo@example.net; h=From:B; bh=hash; b=hash; x={}", now);

    assert!(validate_header(&header).is_ok());
}

#[test]
fn test_check_expiration_drift() {
    // One second past the expiry is inside the fifteen-minute drift;
    // a quarter of an hour plus a second is not.
    let header =
        validate_header("v=1; a=rsa-sha256; d=e.net; s=b; h=From; bh=h; b=s; x=1000000").unwrap();
    assert!(dkim::check_expiration(&header, 1000001).is_ok());
    assert!(dkim::check_expiration(&header, 1000900).is_ok());
    assert_eq!(
        dkim::check_expiration(&header, 1000901).unwrap_err(),
        DKIMError::SignatureExpired
    );
}

#[test]
fn test_tag_list_duplicate_is_error() {
    match dkim::parse_tag_list("a=1; a=2") {
        Err(DKIMError::SignatureSyntaxError(_)) => {}
        other => panic!("expected a syntax error, got {:?}", other),
    }
}

#[test]
fn test_tag_list_values() {
    let tags = dkim::parse_tag_list("v=1; b = abc ; h=from : to;").unwrap();
    assert_eq!(tags.len(), 3);
    assert_eq!(tags[0].name, "v");
    assert_eq!(tags[0].value, "1");
    assert_eq!(tags[1].name, "b");
    assert_eq!(tags[1].value, "abc");
    assert_eq!(tags[2].name, "h");
    assert_eq!(tags[2].value, "from : to");
}
