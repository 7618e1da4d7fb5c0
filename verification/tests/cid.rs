use rustly_storage::cid::{Cid, CidError, CID_HEX_LEN, CID_PREFIX};

#[test]
fn identical_content_has_an_identical_name_everywhere() {
    assert_eq!(Cid::of(b"hello"), Cid::of(b"hello"));
    assert_ne!(Cid::of(b"hello"), Cid::of(b"hell0"));
    assert_ne!(Cid::of(b""), Cid::of(b"\0"));
}

#[test]
fn a_cid_verifies_only_its_own_content() {
    let cid = Cid::of(b"the real bytes");
    assert!(cid.verifies(b"the real bytes"));
    assert!(!cid.verifies(b"the real byte"));
    assert!(!cid.verifies(b"the real bytes "));
    assert!(!cid.verifies(b""));
}

#[test]
fn a_single_flipped_bit_is_detected() {
    let original = vec![0xAAu8; 4096];
    let cid = Cid::of(&original);
    let mut tampered = original.clone();
    tampered[2048] ^= 0x01;
    assert!(!cid.verifies(&tampered));
}

#[test]
fn parsing_accepts_only_the_canonical_form() {
    let cid = Cid::of(b"x");
    assert_eq!(Cid::parse(cid.as_str()).unwrap(), cid);

    assert_eq!(
        Cid::parse("deadbeef").unwrap_err(),
        CidError::MissingPrefix("deadbeef".into())
    );
    assert!(matches!(Cid::parse("b3:abc"), Err(CidError::BadLength(3))));
    // Uppercase is rejected: one piece of content must have exactly one name,
    // or deduplication silently stops working.
    assert_eq!(
        Cid::parse(&format!("b3:{}", "A".repeat(64))).unwrap_err(),
        CidError::NotLowercaseHex
    );
    assert_eq!(
        Cid::parse(&format!("b3:{}", "g".repeat(64))).unwrap_err(),
        CidError::NotLowercaseHex
    );
}

#[test]
fn a_path_traversal_attempt_is_not_a_cid() {
    for hostile in ["b3:../../etc/passwd", "../secret", "b3:/etc/passwd"] {
        assert!(Cid::parse(hostile).is_err(), "should reject {hostile:?}");
    }
}

#[test]
fn sharding_fans_out_and_never_escapes_its_root() {
    let cid = Cid::of(b"content");
    let (a, b, name) = cid.shard_path();
    assert_eq!(a.len(), 2);
    assert_eq!(b.len(), 2);
    assert_eq!(name, cid.digest());
    for part in [&a, &b, &name] {
        assert!(!part.contains('/') && !part.contains('.'));
    }
}

#[test]
fn the_prefix_makes_a_future_hash_change_visible() {
    assert!(Cid::of(b"x").as_str().starts_with("b3:"));
    // A digest with a different prefix must not silently parse as BLAKE3.
    assert!(Cid::parse(&format!("sha256:{}", "a".repeat(64))).is_err());
}

#[test]
fn round_trips_through_json_and_string() {
    let cid = Cid::of(b"round trip");
    assert_eq!(cid.as_str().parse::<Cid>().unwrap(), cid);
    let json = serde_json::to_string(cid.as_str()).unwrap();
    let text: String = serde_json::from_str(&json).unwrap();
    assert_eq!(Cid::parse(&text).unwrap(), cid);
    let other: String = serde_json::from_str("\"not-a-cid\"").unwrap();
    assert!(Cid::parse(&other).is_err());
}

#[test]
fn short_form_is_for_logs_only() {
    assert_eq!(Cid::of(b"x").short().len(), 8);
}

#[test]
fn the_name_of_nothing_is_the_published_hash() {
    let cid = Cid::of(b"");
    assert_eq!(
        cid.as_str(),
        "b3:af1349b9f5f9a1a6a0404dea36dcc9499bcb25c9adc112b7cc9a93cae41f3262"
    );
    assert_eq!(cid.short(), "af1349b9");
    let (a, b, name) = cid.shard_path();
    assert_eq!(a, "af");
    assert_eq!(b, "13");
    assert_eq!(
        name,
        "af1349b9f5f9a1a6a0404dea36dcc9499bcb25c9adc112b7cc9a93cae41f3262"
    );
}

#[test]
fn a_digest_gives_its_name() {
    let digest = "0123456789abcdef".repeat(4);
    assert_eq!(digest.len(), CID_HEX_LEN);
    let cid = Cid::of_digest(&digest);
    assert_eq!(cid.as_str(), format!("{CID_PREFIX}{digest}"));
    assert_eq!(cid.digest(), digest);
    assert!(cid.same(&cid.clone()));
    assert!(!cid.same(&Cid::of(b"")));
}

#[test]
fn a_digest_of_the_right_length_in_bytes_but_not_in_characters_is_no_hex() {
    // 32 two-byte characters.
    let text = format!("b3:{}", "é".repeat(32));
    assert_eq!(Cid::parse(&text).unwrap_err(), CidError::NotLowercaseHex);
    let text = format!("b3:{}", "é".repeat(64));
    assert_eq!(Cid::parse(&text).unwrap_err(), CidError::BadLength(128));
}

#[test]
fn parse_errors_say_what_is_wrong() {
    assert_eq!(
        CidError::MissingPrefix("a\"b".into()).message(),
        "missing the `b3:` prefix: \"a\\\"b\""
    );
    assert_eq!(
        CidError::BadLength(1234567).message(),
        "digest must be 64 hex characters, got 1234567"
    );
    assert_eq!(
        CidError::NotLowercaseHex.message(),
        "digest must be lowercase hex"
    );
}
