use dkim::dns::MapLookup;
use dkim::mail::{Header, ParsedEmail};
use dkim::public_key::{parse_key_record, DkimPublicKey};
use dkim::{validate_header, verify_email_header, verify_email_with_resolver, DKIMError, DKIMResult};
use mailparse::MailHeaderMap;

fn parse(raw: &[u8]) -> ParsedEmail {
    let (headers, ix) = mailparse::parse_headers(raw).unwrap();
    ParsedEmail {
        headers: headers
            .iter()
            .map(|h| Header {
                name: h.get_key(),
                value: h.get_value_raw().to_vec(),
            })
            .collect(),
        body: raw[ix..].to_vec(),
    }
}

fn mock_resolver() -> MapLookup {
    MapLookup {
        entries: vec![
            (
                "brisbane._domainkey.football.example.com".to_string(),
                vec!["v=DKIM1; k=ed25519; p=11qYAYKxCrfVS/7TyWQHOg7hcvPapiMlrwIaaPcHURo=".to_string()],
            ),
            (
                "newengland._domainkey.example.com".to_string(),
                vec!["v=DKIM1; p=MIGJAoGBALVI635dLK4cJJAH3Lx6upo3X/Lm1tQz3mezcWTA3BUBnyIsdnRf57aD5BtNmhPrYYDlWlzw3UgnKisIxktkk5+iMQMlFtAS10JB8L3YadXNJY+JBcbeSi5TgJe4WFzNgW95FWDAuSTRXSWZfA/8xjflbTLDx0euFZOM7C4T0GwLAgMBAAE=".to_string()],
            ),
        ],
    }
}

fn ed25519_fixture() -> String {
    r#"DKIM-Signature: v=1; a=ed25519-sha256; c=relaxed/relaxed;
 d=football.example.com; i=@football.example.com;
 q=dns/txt; s=brisbane; t=1528637909; h=from : to :
 subject : date : message-id : from : subject : date;
 bh=2jUSOH9NhtVGCQWNr9BrIAPreKQjO6Sn7XIkfJVOzv8=;
 b=/gCrinpcQOoIfuHNQIbq4pgh9kyIK3AQUdt9OdqQehSwhEIug4D11Bus
 Fa3bT3FY5OsU7ZbnKELq+eXdp1Q1Dw==
DKIM-Signature: v=1; a=rsa-sha256; c=relaxed/relaxed;
 d=football.example.com; i=@football.example.com;
 q=dns/txt; s=test; t=1528637909; h=from : to : subject :
 date : message-id : from : subject : date;
 bh=2jUSOH9NhtVGCQWNr9BrIAPreKQjO6Sn7XIkfJVOzv8=;
 b=F45dVWDfMbQDGHJFlXUNB2HKfbCeLRyhDXgFpEL8GwpsRe0IeIixNTe3
 DhCVlUrSjV4BwcVcOF6+FF3Zo9Rpo1tFOeS9mPYQTnGdaSGsgeefOsk2Jz
 dA+L10TeYt9BgDfQNZtKdN1WO//KgIqXP7OdEFE4LjFYNcUxZQ4FADY+8=
From: Joe SixPack <joe@football.example.com>
To: Suzie Q <suzie@shopping.example.net>
Subject: Is dinner ready?
Date: Fri, 11 Jul 2003 21:00:37 -0700 (PDT)
Message-ID: <20030712040037.46341.5F8J@football.example.com>

Hi.

We lost the game.  Are you hungry yet?

Joe."#
        .replace('\n', "\r\n")
}

fn rsa_fixture() -> String {
    r#"DKIM-Signature: a=rsa-sha256; bh=2jUSOH9NhtVGCQWNr9BrIAPreKQjO6Sn7XIkfJVOzv8=;
 c=simple/simple; d=example.com;
 h=Received:From:To:Subject:Date:Message-ID; i=joe@football.example.com;
 s=newengland; t=1615825284; v=1;
 b=Xh4Ujb2wv5x54gXtulCiy4C0e+plRm6pZ4owF+kICpYzs/8WkTVIDBrzhJP0DAYCpnL62T0G
 k+0OH8pi/yqETVjKtKk+peMnNvKkut0GeWZMTze0bfq3/JUK3Ln3jTzzpXxrgVnvBxeY9EZIL4g
 s4wwFRRKz/1bksZGSjD8uuSU=
Received: from client1.football.example.com  [192.0.2.1]
      by submitserver.example.com with SUBMISSION;
      Fri, 11 Jul 2003 21:01:54 -0700 (PDT)
From: Joe SixPack <joe@football.example.com>
To: Suzie Q <suzie@shopping.example.net>
Subject: Is dinner ready?
Date: Fri, 11 Jul 2003 21:00:37 -0700 (PDT)
Message-ID: <20030712040037.46341.5F8J@football.example.com>

Hi.

We lost the game. Are you hungry yet?

Joe.
"#
    .replace('\n', "\r\n")
}

#[test]
fn test_validate_email_header_ed25519() {
    let raw_email = ed25519_fixture();
    let email = parse(raw_email.as_bytes());
    let raw_header_dkim =
        String::from_utf8(email.headers[0].value.clone()).unwrap();
    let resolver = mock_resolver();

    let dkim_verify_result = verify_email_header(
        &validate_header(&raw_header_dkim).unwrap(),
        &email,
        &resolver,
    );

    assert!(dkim_verify_result.is_ok());
}

#[test]
fn test_validate_email_header_rsa() {
    let raw_email = rsa_fixture();
    let email = parse(raw_email.as_bytes());
    let raw_header_rsa =
        String::from_utf8(email.headers[0].value.clone()).unwrap();
    let resolver = mock_resolver();

    let dkim_verify_result = verify_email_header(
        &validate_header(&raw_header_rsa).unwrap(),
        &email,
        &resolver,
    );

    assert!(dkim_verify_result.is_ok());
}

#[test]
fn test_verify_with_resolver_pass_ed25519() {
    let raw_email = ed25519_fixture();
    let email = parse(raw_email.as_bytes());
    let resolver = mock_resolver();
    let res = verify_email_with_resolver("football.example.com", &email, &resolver).unwrap();
    match res {
        DKIMResult::Pass { ref domain, .. } => {
            assert_eq!(domain, "football.example.com");
        }
        other => panic!("expected a pass, got {:?}", other),
    }
    assert_eq!(res.summary(), "pass");
}

#[test]
fn test_verify_with_resolver_pass_rsa() {
    let raw_email = rsa_fixture();
    let email = parse(raw_email.as_bytes());
    let resolver = mock_resolver();
    let res = verify_email_with_resolver("example.com", &email, &resolver).unwrap();
    assert_eq!(res.summary(), "pass");
}

#[test]
fn test_verify_domain_mismatch_is_neutral() {
    // No signature matches the From-domain: the outcome is neutral, not
    // a failure.
    let raw_email = ed25519_fixture();
    let email = parse(raw_email.as_bytes());
    let resolver = mock_resolver();
    let res = verify_email_with_resolver("other.net", &email, &resolver).unwrap();
    assert_eq!(res.summary(), "neutral");
    assert_eq!(res.domain_used(), "other.net");
    assert!(res.error().is_none());
}

#[test]
fn test_verify_tampered_body() {
    // A single flipped body byte must break the body hash.
    let raw_email = ed25519_fixture().replace("hungry", "angry?");
    let email = parse(raw_email.as_bytes());
    let resolver = mock_resolver();
    let raw_header = String::from_utf8(email.headers[0].value.clone()).unwrap();
    let err = verify_email_header(&validate_header(&raw_header).unwrap(), &email, &resolver)
        .unwrap_err();
    assert_eq!(err, DKIMError::BodyHashDidNotVerify);
}

#[test]
fn test_parse_key_record_revoked() {
    assert_eq!(
        parse_key_record("v=DKIM1; p=").unwrap_err(),
        DKIMError::KeyRevoked
    );
}

#[test]
fn test_parse_key_record_unsupported_version() {
    match parse_key_record("v=DKIM2; p=AAAA") {
        Err(DKIMError::KeySyntaxError(_)) => {}
        other => panic!("expected a key syntax error, got {:?}", other),
    }
}

#[test]
fn test_parse_key_record_ed25519() {
    let key =
        parse_key_record("v=DKIM1; k=ed25519; p=11qYAYKxCrfVS/7TyWQHOg7hcvPapiMlrwIaaPcHURo=")
            .unwrap();
    match key {
        DkimPublicKey::Ed25519(bytes) => assert_eq!(bytes.len(), 32),
        other => panic!("expected an Ed25519 key, got {:?}", other),
    }
}

#[test]
fn test_try_from_bytes_unsupported_type() {
    match DkimPublicKey::try_from_bytes(&[1, 2, 3], "dsa") {
        Err(DKIMError::KeyUnsupported(_)) => {}
        other => panic!("expected KeyUnsupported, got {:?}", other),
    }
}

#[test]
fn test_parse_key_record_unsupported_type() {
    match parse_key_record("v=DKIM1; k=dsa; p=AAAA") {
        Err(DKIMError::KeyUnsupported(_)) => {}
        other => panic!("expected KeyUnsupported, got {:?}", other),
    }
}
