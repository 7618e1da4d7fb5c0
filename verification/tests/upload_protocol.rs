use base64::Engine;
use hmac::Mac;
use rustly_storage::upload_protocol::{
    current_grant, current_receipt, open_frame, signed_text, TokenError, UploadGrant,
    UploadReceipt, UploadTokens, VERSION,
};

fn tokens() -> UploadTokens {
    UploadTokens::new(vec![0x42; 32]).unwrap_or_else(|_| panic!("a strong secret"))
}

fn grant() -> UploadGrant {
    UploadGrant {
        user_id: "018f-user".into(),
        cid: "b3:abcd".into(),
        size: 123,
        expires_at: 2_000,
        nonce: "nonce-1".into(),
    }
}

fn receipt() -> UploadReceipt {
    UploadReceipt {
        user_id: "018f-user".into(),
        cid: "b3:abcd".into(),
        size: 123,
        expires_at: 2_000,
        nonce: "nonce-1".into(),
    }
}

#[test]
fn grants_round_trip_and_expire() {
    let token = tokens().sign_grant(&grant());
    assert_eq!(tokens().verify_grant(&token, 1_999).unwrap(), grant());
    assert_eq!(
        tokens().verify_grant(&token, 2_001),
        Err(TokenError::Expired)
    );
}

#[test]
fn tampering_and_token_kind_confusion_fail() {
    let token = tokens().sign_grant(&grant());
    let mut tampered = token.into_bytes();
    let last = tampered.len() - 1;
    tampered[last] = if tampered[last] == b'A' { b'B' } else { b'A' };
    let tampered = String::from_utf8(tampered).unwrap();
    assert_eq!(
        tokens().verify_grant(&tampered, 1_000),
        Err(TokenError::Invalid)
    );

    let receipt_token = tokens().sign_receipt(&receipt());
    assert_eq!(
        tokens().verify_grant(&receipt_token, 1_000),
        Err(TokenError::Invalid)
    );
}

#[test]
fn debug_never_exposes_the_secret() {
    let debug = tokens().debug_text();
    assert!(debug.contains("redacted"));
    assert!(!debug.contains("BBBB"));
}

#[test]
fn the_wire_format_is_fixed() {
    // The signature was computed apart from this library.
    let token = tokens().sign_grant(&grant());
    let parts: Vec<&str> = token.split('.').collect();
    assert_eq!(parts.len(), 4);
    assert_eq!(parts[0], VERSION);
    assert_eq!(parts[1], "grant");
    assert_eq!(
        parts[2],
        "eyJ1c2VyX2lkIjoiMDE4Zi11c2VyIiwiY2lkIjoiYjM6YWJjZCIsInNpemUiOjEyMywiZXhwaXJlc19hdCI6MjAwMCwibm9uY2UiOiJub25jZS0xIn0"
    );
    assert_eq!(parts[3], "acgzKb_SGF6h6tZ0YGe5F7ifWf5GjFWiHl1Jn610ubc");
}

#[test]
fn receipts_round_trip_and_expire() {
    let token = tokens().sign_receipt(&receipt());
    assert_eq!(tokens().verify_receipt(&token, 2_000).unwrap(), receipt());
    assert_eq!(
        tokens().verify_receipt(&token, 2_001),
        Err(TokenError::Expired)
    );
    assert_eq!(
        tokens().verify_receipt(&tokens().sign_grant(&grant()), 0),
        Err(TokenError::Invalid)
    );
}

#[test]
fn claims_of_any_text_round_trip() {
    let odd = UploadGrant {
        user_id: "a.b\"c\\\u{1F600}\n".into(),
        cid: "".into(),
        size: u64::MAX,
        expires_at: i64::MIN,
        nonce: "\u{0}".into(),
    };
    let token = tokens().sign_grant(&odd);
    assert_eq!(tokens().verify_grant(&token, i64::MIN).unwrap(), odd);
    assert_eq!(odd.clone(), odd);
}

#[test]
fn malformed_tokens_are_invalid() {
    let good = tokens().sign_grant(&grant());
    for bad in [
        "".to_string(),
        "v1".to_string(),
        "v1.grant".to_string(),
        "v1.grant.e30".to_string(),
        format!("{good}."),
        format!("{good}.x"),
        format!("{good}="),
        good.replacen("v1.", "v2.", 1),
        good.replacen("grant", "receipt", 1),
        good.replacen("grant.", "grant.x", 1),
        good[..good.len() - 1].to_string(),
    ] {
        assert_eq!(
            tokens().verify_grant(&bad, 0),
            Err(TokenError::Invalid),
            "{bad:?}"
        );
    }
}

#[test]
fn another_secret_does_not_verify() {
    let token = tokens().sign_grant(&grant());
    let other = UploadTokens::new(vec![0x43; 32]).unwrap_or_else(|_| panic!("strong"));
    assert_eq!(other.verify_grant(&token, 0), Err(TokenError::Invalid));
    let copy = tokens().clone();
    assert_eq!(copy.verify_grant(&token, 0).unwrap(), grant());
}

#[test]
fn weak_secrets_are_refused() {
    assert!(matches!(
        UploadTokens::new(vec![1; 31]),
        Err(TokenError::WeakSecret)
    ));
    assert!(UploadTokens::new(vec![1; 32]).is_ok());
}

#[test]
fn frames_are_read_apart_from_signatures() {
    assert_eq!(
        open_frame("grant", "v1.grant.payload.signature"),
        Some(("payload".to_string(), "signature".to_string()))
    );
    assert_eq!(
        open_frame("grant", "v1.grant.."),
        Some(("".to_string(), "".to_string()))
    );
    assert_eq!(open_frame("receipt", "v1.grant.payload.signature"), None);
    assert_eq!(open_frame("grant", "v1.grant.payload"), None);
    assert_eq!(open_frame("grant", "v1.grant.payload.signature.x"), None);
    assert_eq!(signed_text("grant", "payload"), "v1.grant.payload");
}

#[test]
fn expiry_is_the_last_second_of_validity() {
    assert_eq!(current_grant(Some(grant()), 2_000), Ok(grant()));
    assert_eq!(
        current_grant(Some(grant()), 2_001),
        Err(TokenError::Expired)
    );
    assert_eq!(current_grant(None, 0), Err(TokenError::Invalid));
    assert_eq!(current_receipt(Some(receipt()), 2_000), Ok(receipt()));
    assert_eq!(
        current_receipt(Some(receipt()), 2_001),
        Err(TokenError::Expired)
    );
    assert_eq!(current_receipt(None, 0), Err(TokenError::Invalid));
}

#[test]
fn token_errors_say_what_is_wrong() {
    assert_eq!(
        TokenError::WeakSecret.message(),
        "token secret must be at least 32 bytes"
    );
    assert_eq!(TokenError::Invalid.message(), "invalid upload token");
    assert_eq!(TokenError::Expired.message(), "upload token expired");
}

/// A token for any payload, signed apart from the library.
fn sealed(kind: &str, payload: &[u8]) -> String {
    let engine = base64::engine::general_purpose::URL_SAFE_NO_PAD;
    let input = format!("v1.{kind}.{}", engine.encode(payload));
    let mut mac = hmac::Hmac::<sha2::Sha256>::new_from_slice(&[0x42; 32]).unwrap();
    mac.update(input.as_bytes());
    format!("{input}.{}", engine.encode(mac.finalize().into_bytes()))
}

#[test]
fn claims_are_read_from_objects_and_arrays() {
    for payload in [
        r#"{"user_id":"018f-user","cid":"b3:abcd","size":123,"expires_at":2000,"nonce":"nonce-1"}"#,
        r#" { "nonce":"nonce-1", "extra":[1,2], "size":123, "cid":"b3:abcd", "user_id":"018f-user", "expires_at":2000 } "#,
        r#"{"user_id":"018f-user","cid":"b3:abcd","size":123,"expires_at":2000,"nonce":"nonce-1","extra":1e999}"#,
        r#"{"extra":"\ud800","user_id":"018f-user","cid":"b3:abcd","size":123,"expires_at":2000,"nonce":"nonce-1"}"#,
        r#"["018f-user","b3:abcd",123,2000,"nonce-1"]"#,
    ] {
        let token = sealed("grant", payload.as_bytes());
        assert_eq!(
            tokens().verify_grant(&token, 0).unwrap(),
            grant(),
            "{payload}"
        );
    }
}

#[test]
fn members_that_nobody_reads_are_passed_over() {
    // Bytes that are no text, and an unclaimed member given twice.
    let mut payload = br#"{"extra":""#.to_vec();
    payload.extend_from_slice(&[0xff, 0xfe]);
    payload.extend_from_slice(
        br#"","extra":null,"user_id":"018f-user","cid":"b3:abcd","size":123,"expires_at":2000,"nonce":"nonce-1"}"#,
    );
    let token = sealed("grant", &payload);
    assert_eq!(tokens().verify_grant(&token, 0).unwrap(), grant());
    // In a claim they are no text either.
    let mut payload = br#"{"user_id":""#.to_vec();
    payload.push(0xff);
    payload.extend_from_slice(
        br#"","cid":"b3:abcd","size":123,"expires_at":2000,"nonce":"nonce-1"}"#,
    );
    let token = sealed("grant", &payload);
    assert_eq!(tokens().verify_grant(&token, 0), Err(TokenError::Invalid));
}

#[test]
fn members_that_nobody_reads_may_be_deep() {
    let payload = format!(
        r#"{{"extra":{}{},"user_id":"018f-user","cid":"b3:abcd","size":123,"expires_at":2000,"nonce":"nonce-1"}}"#,
        "[".repeat(500),
        "]".repeat(500)
    );
    let token = sealed("grant", payload.as_bytes());
    assert_eq!(tokens().verify_grant(&token, 0).unwrap(), grant());
}

#[test]
fn claims_that_cannot_be_read_are_invalid() {
    for payload in [
        "",
        "null",
        "{}",
        "[]",
        r#"{"user_id":"u","cid":"c","size":1,"expires_at":2}"#,
        r#"{"user_id":7,"cid":"c","size":1,"expires_at":2,"nonce":"n"}"#,
        r#"{"user_id":"u","cid":"c","size":-1,"expires_at":2,"nonce":"n"}"#,
        r#"{"user_id":"u","cid":"c","size":1.0,"expires_at":2,"nonce":"n"}"#,
        r#"{"user_id":"u","cid":"c","size":1,"expires_at":9223372036854775808,"nonce":"n"}"#,
        r#"{"user_id":"u","cid":"c","size":1,"expires_at":2,"nonce":null}"#,
        r#"{"user_id":"u","cid":"c","size":1,"size":1,"expires_at":2,"nonce":"n"}"#,
        r#"{"user_id":"u","cid":"c","size":1,"\u0073ize":1,"expires_at":2,"nonce":"n"}"#,
        r#"{"nonce":"n","user_id":"u","cid":"c","size":1,"expires_at":2,"nonce":"n"}"#,
        r#"{"user_id":"u","cid":"c","size":1,"expires_at":2,"nonce":"n",}"#,
        r#"{"user_id":"u","cid":"c","size":1,"expires_at":2,"nonce":"n"} x"#,
        r#"{"user_id":"u" "cid":"c","size":1,"expires_at":2,"nonce":"n"}"#,
        r#"{"user_id":"u","cid":"c","size":1x,"expires_at":2,"nonce":"n"}"#,
        r#"{,"user_id":"u","cid":"c","size":1,"expires_at":2,"nonce":"n"}"#,
        r#"{"user_id":"u","cid":"c","size":1,"expires_at":2,"nonce":"n""#,
        r#"["u","c",1,2]"#,
        r#"["u","c",1,2,"n",3]"#,
    ] {
        let token = sealed("grant", payload.as_bytes());
        assert_eq!(
            tokens().verify_grant(&token, 0),
            Err(TokenError::Invalid),
            "{payload}"
        );
    }
}
