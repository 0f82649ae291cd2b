use allms::errors::Failure;
use allms::extract::{extract_json, extract_validated, matches_schema};
use allms::json::{to_bytes, Json};

fn obj(fields: Vec<(&str, Json)>) -> Json {
    Json::Obj(fields.into_iter().map(|(k, v)| (k.as_bytes().to_vec(), v)).collect())
}

fn s(text: &str) -> Json {
    Json::Str(text.as_bytes().to_vec())
}

fn colors_schema() -> Json {
    obj(vec![("colors", Json::Arr(vec![s("string")]))])
}

#[test]
fn finds_json_inside_prose() {
    let text = b"Sure! Here is the answer: {\"colors\":[\"red\",\"blue\"]} Hope it helps.".to_vec();
    let v = extract_json(&text).expect("should find the object");
    assert_eq!(to_bytes(&v), b"{\"colors\":[\"red\",\"blue\"]}");
}

#[test]
fn finds_json_inside_code_fence() {
    let text = b"```json\n{\"colors\":[\"red\"]}\n```".to_vec();
    let v = extract_json(&text).expect("should find the object");
    assert_eq!(to_bytes(&v), b"{\"colors\":[\"red\"]}");
}

#[test]
fn round_trips_embedded_object() {
    let embedded = b"{\"colors\":[\"red\",\"blue\"]}";
    let mut text = b"prose before ".to_vec();
    text.extend_from_slice(embedded);
    text.extend_from_slice(b" prose after");
    let v = extract_validated(&text, &colors_schema()).expect("should validate");
    assert_eq!(to_bytes(&v), embedded);
}

#[test]
fn no_json_yields_extraction_error() {
    let text = b"I am sorry, I cannot answer that.".to_vec();
    match extract_validated(&text, &colors_schema()) {
        Err(Failure::Extraction) => {}
        _ => panic!("expected an extraction failure"),
    }
}

#[test]
fn wrong_shape_yields_schema_mismatch() {
    let text = b"{\"colours\":[\"red\"]}".to_vec();
    match extract_validated(&text, &colors_schema()) {
        Err(Failure::SchemaMismatch) => {}
        _ => panic!("expected a schema mismatch"),
    }
}

#[test]
fn schema_checks_kinds_and_required_fields() {
    let schema = obj(vec![
        ("name", s("string")),
        ("count", Json::Num(b"0".to_vec())),
        ("tags", Json::Arr(vec![s("string")])),
    ]);
    let good = obj(vec![
        ("name", s("x")),
        ("count", Json::Num(b"7".to_vec())),
        ("tags", Json::Arr(vec![s("a"), s("b")])),
        ("extra", Json::Null),
    ]);
    assert!(matches_schema(&good, &schema));

    let missing = obj(vec![("name", s("x")), ("count", Json::Num(b"7".to_vec()))]);
    assert!(!matches_schema(&missing, &schema));

    let wrong_kind = obj(vec![
        ("name", Json::Num(b"1".to_vec())),
        ("count", Json::Num(b"7".to_vec())),
        ("tags", Json::Arr(vec![])),
    ]);
    assert!(!matches_schema(&wrong_kind, &schema));

    let bad_element = obj(vec![
        ("name", s("x")),
        ("count", Json::Num(b"7".to_vec())),
        ("tags", Json::Arr(vec![s("a"), Json::Bool(true)])),
    ]);
    assert!(!matches_schema(&bad_element, &schema));
}

#[test]
fn empty_schema_array_accepts_any_array() {
    let schema = Json::Arr(vec![]);
    assert!(matches_schema(&Json::Arr(vec![Json::Null, s("x")]), &schema));
    assert!(!matches_schema(&s("x"), &schema));
}
