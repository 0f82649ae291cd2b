use allms::errors::Failure;
use allms::gemini::{decode_unit, reassemble_stream, EnvConfig, GoogleModels};
use allms::LLMModel;
use allms::json::{to_bytes, Json};

fn obj(fields: Vec<(&str, Json)>) -> Json {
    Json::Obj(fields.into_iter().map(|(k, v)| (k.as_bytes().to_vec(), v)).collect())
}

fn s(text: &str) -> Json {
    Json::Str(text.as_bytes().to_vec())
}

fn no_env() -> EnvConfig {
    EnvConfig { region: None, project_id: None }
}

#[test]
fn wire_name_and_default_tokens() {
    assert_eq!(GoogleModels::GeminiPro.as_str(), "gemini-pro");
    assert_eq!(GoogleModels::GeminiProVertex.as_str(), "gemini-pro");
    assert_eq!(GoogleModels::GeminiPro.default_max_tokens(), 32000);
}

#[test]
fn endpoints_are_https_urls_and_rate_limits_positive() {
    let url = GoogleModels::GeminiPro.get_endpoint(&no_env()).expect("fixed endpoint");
    assert!(url.starts_with("https://"));
    assert_eq!(
        url,
        "https://generativelanguage.googleapis.com/v1beta/models/gemini-pro:streamGenerateContent"
    );

    let env = EnvConfig { region: None, project_id: Some("proj-1".to_string()) };
    let vurl = GoogleModels::GeminiProVertex.get_endpoint(&env).expect("project given");
    assert_eq!(
        vurl,
        "https://us-central1-aiplatform.googleapis.com/v1/projects/proj-1/locations/us-central1/publishers/google/models/gemini-pro:streamGenerateContent"
    );

    let env2 = EnvConfig { region: Some("europe-west4".to_string()), project_id: Some("p".to_string()) };
    let vurl2 = GoogleModels::GeminiProVertex.get_endpoint(&env2).expect("project given");
    assert!(vurl2.starts_with("https://europe-west4-aiplatform."));

    for m in [GoogleModels::GeminiPro, GoogleModels::GeminiProVertex] {
        let rl = m.get_rate_limit();
        assert!(rl.rpm > 0 && rl.tpm > 0);
        assert_eq!(rl.rpm, 60);
        assert_eq!(rl.tpm, 1_920_000);
    }
}

#[test]
fn vertex_without_project_is_a_configuration_failure() {
    match GoogleModels::GeminiProVertex.get_endpoint(&no_env()) {
        Err(Failure::Configuration) => {}
        _ => panic!("expected a configuration failure"),
    }
}

#[test]
fn body_is_deterministic_and_three_part_ordered() {
    let schema = obj(vec![("colors", Json::Arr(vec![s("string")]))]);
    let instructions = b"list two colors".to_vec();
    let m = GoogleModels::GeminiPro;
    let b1 = m.get_body(&instructions, &schema, false, &32000, &0);
    let b2 = m.get_body(&instructions, &schema, false, &32000, &0);
    assert_eq!(to_bytes(&b1), to_bytes(&b2));

    let bytes = to_bytes(&b1);
    let text = String::from_utf8(bytes.clone()).expect("body is utf-8");
    // The three parts stand in fixed order as separate entries.
    let base_at = text.find("You are a function.").expect("base instructions present");
    let schema_at = text.find("'Output Json schema': ").expect("schema note present");
    let instr_at = text.find("list two colors").expect("instructions present");
    assert!(base_at < schema_at && schema_at < instr_at);
    assert!(text.starts_with("{\"contents\":{\"role\":\"user\",\"parts\":[{\"text\":"));
    assert!(text.ends_with("\"generationConfig\":{\"temperature\":0}}"));

    // The serialized schema is embedded inside the second part.
    assert!(text.contains("'Output Json schema': {\\\"colors\\\":[\\\"string\\\"]}"));
}

#[test]
fn get_data_passes_text_through() {
    let text = b"already final".to_vec();
    let out = GoogleModels::GeminiPro.get_data(&text, false).expect("identity");
    assert_eq!(out, text);
}

#[test]
fn decodes_one_framed_unit() {
    let line = b"data: {\"candidates\":[{\"content\":{\"role\":\"model\",\"parts\":[{\"text\":\"hello\"}]}}]}".to_vec();
    let t = decode_unit(&line).expect("well-formed unit");
    assert_eq!(t, b"hello");
}

#[test]
fn non_model_roles_contribute_nothing() {
    let line = b"{\"candidates\":[{\"content\":{\"role\":\"tool\",\"parts\":[{\"text\":\"IGNORED\"}]}},{\"content\":{\"role\":\"model\",\"parts\":[{\"text\":\"kept\"}]}}]}".to_vec();
    let t = decode_unit(&line).expect("well-formed unit");
    assert_eq!(t, b"kept");
}

#[test]
fn absent_role_contributes_nothing() {
    let line = b"{\"candidates\":[{\"content\":{\"parts\":[{\"text\":\"IGNORED\"}]}}]}".to_vec();
    let t = decode_unit(&line).expect("well-formed unit");
    assert_eq!(t, b"");
}

#[test]
fn malformed_units_fail_the_call() {
    // Broken JSON.
    match decode_unit(&b"data: {\"candidates\":".to_vec()) {
        Err(Failure::MalformedChunk) => {}
        _ => panic!("expected a malformed chunk"),
    }
    // Parseable JSON without the expected shape.
    match decode_unit(&b"{\"candidates\":[{\"content\":{\"role\":\"model\"}}]}".to_vec()) {
        Err(Failure::MalformedChunk) => {}
        _ => panic!("expected a malformed chunk"),
    }
}

#[test]
fn reassembles_chunks_in_arrival_order() {
    let stream = b"data: {\"candidates\":[{\"content\":{\"role\":\"model\",\"parts\":[{\"text\":\"one \"}]}}]}\n\
data: {\"candidates\":[{\"content\":{\"role\":\"tool\",\"parts\":[{\"text\":\"SKIP\"}]}}]}\n\
\n\
data: {\"candidates\":[{\"content\":{\"role\":\"model\",\"parts\":[{\"text\":\"two \"},{\"text\":\"three\"}]}}]}\n"
        .to_vec();
    let t = reassemble_stream(&stream).expect("all units well-formed");
    assert_eq!(t, b"one two three");
}

#[test]
fn one_bad_unit_aborts_reassembly() {
    let stream = b"data: {\"candidates\":[{\"content\":{\"role\":\"model\",\"parts\":[{\"text\":\"ok\"}]}}]}\ndata: not json\n".to_vec();
    match reassemble_stream(&stream) {
        Err(Failure::MalformedChunk) => {}
        _ => panic!("expected a malformed chunk"),
    }
}

#[test]
fn decodes_units_with_unicode_escapes() {
    let line = b"data: {\"candidates\":[{\"content\":{\"role\":\"model\",\"parts\":[{\"text\":\"caf\\u00e9 \\ud83d\\ude00\"}]}}]}".to_vec();
    let t = decode_unit(&line).expect("well-formed unit");
    assert_eq!(t, "caf\u{e9} \u{1f600}".as_bytes());
}
