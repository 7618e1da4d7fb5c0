use rustly_storage::json::{object_members, read_signed, read_text, read_unsigned};

#[test]
fn members_are_found_by_place() {
    let json = br#" { "a" : "x" , "b":[1,{"a":2}],"a\u0062":-3 } "#;
    let members = object_members(json).unwrap();
    let keys: Vec<&str> = members.iter().map(|member| member.0.as_str()).collect();
    assert_eq!(keys, vec!["a", "b", "ab"]);
    assert!(json[members[1].1..].starts_with(b"[1,"));
    assert_eq!(object_members(b"{}"), Some(vec![]));
    assert_eq!(object_members(b" {\n} "), Some(vec![]));
}

#[test]
fn what_is_no_object_has_no_members() {
    for json in [
        "", " ", "{", "}", "[]", "null", "{}x", "{\"a\"}", "{\"a\":}", "{\"a\":1,}", "{a:1}",
        "{\"a\":1 \"b\":2}", "{\"a\":1,,\"b\":2}", "{,}", "{\"a\":1}}", "{\"a\" 1}", "{1:2}",
    ] {
        assert_eq!(object_members(json.as_bytes()), None, "{json}");
    }
}

#[test]
fn members_are_read_by_type() {
    let json = br#"{"text":"a\"b","count":7,"balance":-7,"twice":1,"twice":1}"#;
    assert_eq!(read_text(json, "text").as_deref(), Some("a\"b"));
    assert_eq!(read_text(json, "count"), None);
    assert_eq!(read_unsigned(json, "count"), Some(7));
    assert_eq!(read_unsigned(json, "balance"), None);
    assert_eq!(read_signed(json, "balance"), Some(-7));
    assert_eq!(read_signed(json, "count"), Some(7));
    assert_eq!(read_unsigned(json, "twice"), None);
    assert_eq!(read_text(json, "absent"), None);
}
