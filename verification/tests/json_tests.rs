use allms::json::{parse_doc_x, to_bytes, Json};

fn obj(fields: Vec<(&str, Json)>) -> Json {
    Json::Obj(fields.into_iter().map(|(k, v)| (k.as_bytes().to_vec(), v)).collect())
}

fn s(text: &str) -> Json {
    Json::Str(text.as_bytes().to_vec())
}

#[test]
fn serializes_scalars() {
    assert_eq!(to_bytes(&Json::Null), b"null");
    assert_eq!(to_bytes(&Json::Bool(true)), b"true");
    assert_eq!(to_bytes(&Json::Bool(false)), b"false");
    assert_eq!(to_bytes(&Json::Num(b"-12.5e3".to_vec())), b"-12.5e3");
    assert_eq!(to_bytes(&s("hello")), b"\"hello\"");
}

#[test]
fn serializes_nested_structures() {
    let v = obj(vec![
        ("colors", Json::Arr(vec![s("red"), s("blue")])),
        ("count", Json::Num(b"2".to_vec())),
    ]);
    assert_eq!(to_bytes(&v), b"{\"colors\":[\"red\",\"blue\"],\"count\":2}");
}

#[test]
fn escapes_quotes_and_backslashes() {
    let v = s("a\"b\\c\nd");
    assert_eq!(to_bytes(&v), b"\"a\\\"b\\\\c\\nd\"");
}

#[test]
fn parses_whole_documents() {
    let text = b" {\"a\": [1, true, null], \"b\": \"x\"} ".to_vec();
    let v = parse_doc_x(&text).expect("should parse");
    assert_eq!(to_bytes(&v), b"{\"a\":[1,true,null],\"b\":\"x\"}");
}

#[test]
fn parses_escaped_strings() {
    let text = b"{\"t\":\"{\\\"colors\\\":[\\\"red\\\"]}\"}".to_vec();
    let v = parse_doc_x(&text).expect("should parse");
    match &v {
        Json::Obj(fields) => {
            assert_eq!(fields.len(), 1);
            match &fields[0].1 {
                Json::Str(t) => assert_eq!(t, b"{\"colors\":[\"red\"]}"),
                _ => panic!("expected a string"),
            }
        }
        _ => panic!("expected an object"),
    }
}

#[test]
fn rejects_trailing_garbage_and_broken_documents() {
    assert!(parse_doc_x(&b"{\"a\":1} extra".to_vec()).is_none());
    assert!(parse_doc_x(&b"{\"a\":1".to_vec()).is_none());
    assert!(parse_doc_x(&b"[1,]".to_vec()).is_none());
    assert!(parse_doc_x(&b"{\"a\" 1}".to_vec()).is_none());
    assert!(parse_doc_x(&b"".to_vec()).is_none());
}

#[test]
fn round_trips_through_text() {
    let v = obj(vec![
        ("name", s("it\"em")),
        ("tags", Json::Arr(vec![s("a"), s("b"), Json::Num(b"3".to_vec())])),
        ("ok", Json::Bool(true)),
        ("none", Json::Null),
    ]);
    let text = to_bytes(&v);
    let back = parse_doc_x(&text).expect("serialized form should parse");
    assert_eq!(to_bytes(&back), text);
}

#[test]
fn decodes_unicode_escapes() {
    // Basic Latin.
    let v = parse_doc_x(&b"{\"t\":\"\\u0041B\"}".to_vec()).expect("should parse");
    match &v {
        Json::Obj(fields) => match &fields[0].1 {
            Json::Str(t) => assert_eq!(t, b"AB"),
            _ => panic!("expected a string"),
        },
        _ => panic!("expected an object"),
    }
    // Two-byte sequence: U+00E9.
    let v = parse_doc_x(&b"[\"caf\\u00e9\"]".to_vec()).expect("should parse");
    match &v {
        Json::Arr(items) => match &items[0] {
            Json::Str(t) => assert_eq!(t, "caf\u{e9}".as_bytes()),
            _ => panic!("expected a string"),
        },
        _ => panic!("expected an array"),
    }
    // Three-byte sequence: U+20AC, upper-case hex digits.
    let v = parse_doc_x(&b"[\"\\u20AC\"]".to_vec()).expect("should parse");
    match &v {
        Json::Arr(items) => match &items[0] {
            Json::Str(t) => assert_eq!(t, "\u{20ac}".as_bytes()),
            _ => panic!("expected a string"),
        },
        _ => panic!("expected an array"),
    }
}

#[test]
fn decodes_surrogate_pairs() {
    let v = parse_doc_x(&b"[\"\\ud83d\\ude00\"]".to_vec()).expect("should parse");
    match &v {
        Json::Arr(items) => match &items[0] {
            Json::Str(t) => assert_eq!(t, "\u{1f600}".as_bytes()),
            _ => panic!("expected a string"),
        },
        _ => panic!("expected an array"),
    }
}

#[test]
fn rejects_broken_unicode_escapes() {
    // Lone high surrogate.
    assert!(parse_doc_x(&b"[\"\\ud83d\"]".to_vec()).is_none());
    // Lone low surrogate.
    assert!(parse_doc_x(&b"[\"\\ude00\"]".to_vec()).is_none());
    // High surrogate followed by a non-surrogate escape.
    assert!(parse_doc_x(&b"[\"\\ud83d\\u0041\"]".to_vec()).is_none());
    // Bad hex digit.
    assert!(parse_doc_x(&b"[\"\\u00g1\"]".to_vec()).is_none());
    // Truncated escape.
    assert!(parse_doc_x(&b"[\"\\u00\"]".to_vec()).is_none());
}

#[test]
fn accepts_json_number_grammar() {
    for text in [
        &b"[0]"[..],
        b"[-0]",
        b"[10]",
        b"[0.5]",
        b"[-12.5e3]",
        b"[1e10]",
        b"[2E+8]",
        b"[3e-2]",
    ] {
        assert!(parse_doc_x(&text.to_vec()).is_some(), "should accept");
    }
}

#[test]
fn rejects_malformed_number_lexemes() {
    for text in [
        &b"[01]"[..],
        b"[1.]",
        b"[.5]",
        b"[1e]",
        b"[1e+]",
        b"[--1]",
        b"[-]",
        b"[1.2.3]",
        b"[+1]",
    ] {
        assert!(parse_doc_x(&text.to_vec()).is_none(), "should reject");
    }
}
