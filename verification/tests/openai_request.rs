use gen3d_ai::json::{JsonNumber, JsonValue};
use gen3d_ai::openai::capabilities::{Gen3dAiSessionState, Gen3dChatHistoryMessage};
use gen3d_ai::openai::request::{
    build_openai_chat_completions_request_json, build_openai_responses_request_json,
    JsonSchemaSpec,
};

fn from_json(v: &JsonValue) -> serde_json::Value {
    match v {
        JsonValue::Null => serde_json::Value::Null,
        JsonValue::Bool(b) => serde_json::Value::Bool(*b),
        JsonValue::Number(JsonNumber::PosInt(u)) => serde_json::Value::from(*u),
        JsonValue::Number(JsonNumber::NegInt(i)) => serde_json::Value::from(*i),
        JsonValue::Number(JsonNumber::Float(bits)) => serde_json::Value::from(f64::from_bits(*bits)),
        JsonValue::String(s) => serde_json::Value::String(s.clone()),
        JsonValue::Array(a) => serde_json::Value::Array(a.iter().map(from_json).collect()),
        JsonValue::Object(entries) => {
            let mut m = serde_json::Map::new();
            for (k, v) in entries {
                m.insert(k.clone(), from_json(v));
            }
            serde_json::Value::Object(m)
        }
    }
}

fn schema(name: &str) -> Option<JsonSchemaSpec> {
    Some(JsonSchemaSpec {
        name: name.to_string(),
        schema: JsonValue::Object(vec![("type".to_string(), JsonValue::String("object".to_string()))]),
    })
}

#[test]
fn responses_request_includes_text_format_when_schema_provided() {
    let json = from_json(&build_openai_responses_request_json(
        "gpt-test",
        false,
        "high",
        schema("gen3d_plan_v1"),
        "sys",
        "user",
        &Vec::new(),
        &Vec::new(),
        None,
        false,
    ));

    let format = json
        .get("text")
        .and_then(|v| v.get("format"))
        .expect("text.format should exist");
    assert_eq!(format.get("type").and_then(|v| v.as_str()), Some("json_schema"));
    assert_eq!(format.get("name").and_then(|v| v.as_str()), Some("gen3d_plan_v1"));
    assert_eq!(format.get("strict").and_then(|v| v.as_bool()), Some(true));
    assert!(format.get("schema").is_some());
}

#[test]
fn responses_request_omits_text_format_when_schema_not_provided() {
    let json = from_json(&build_openai_responses_request_json(
        "gpt-test",
        false,
        "high",
        None,
        "sys",
        "user",
        &Vec::new(),
        &Vec::new(),
        None,
        false,
    ));
    assert!(json.get("text").is_none());
}

#[test]
fn responses_request_enables_background_with_store_when_requested() {
    let json = from_json(&build_openai_responses_request_json(
        "gpt-test",
        false,
        "high",
        schema("gen3d_plan_v1"),
        "sys",
        "user",
        &Vec::new(),
        &Vec::new(),
        None,
        true,
    ));
    assert_eq!(json.get("background").and_then(|v| v.as_bool()), Some(true));
    assert_eq!(json.get("store").and_then(|v| v.as_bool()), Some(true));
}

#[test]
fn chat_request_includes_response_format_when_schema_provided() {
    let session = Gen3dAiSessionState::new();
    let json = from_json(&build_openai_chat_completions_request_json(
        &session,
        "gpt-test",
        false,
        "high",
        schema("gen3d_review_delta_v1"),
        "sys",
        "user",
        &Vec::new(),
        &Vec::new(),
    ));

    let resp_format = json.get("response_format").expect("response_format should exist");
    assert_eq!(resp_format.get("type").and_then(|v| v.as_str()), Some("json_schema"));
    let spec = resp_format
        .get("json_schema")
        .expect("response_format.json_schema should exist");
    assert_eq!(spec.get("name").and_then(|v| v.as_str()), Some("gen3d_review_delta_v1"));
    assert_eq!(spec.get("strict").and_then(|v| v.as_bool()), Some(true));
    assert!(spec.get("schema").is_some());
}

#[test]
fn chat_request_omits_response_format_when_schema_not_provided() {
    let session = Gen3dAiSessionState::new();
    let json = from_json(&build_openai_chat_completions_request_json(
        &session,
        "gpt-test",
        false,
        "high",
        None,
        "sys",
        "user",
        &Vec::new(),
        &Vec::new(),
    ));
    assert!(json.get("response_format").is_none());
}

#[test]
fn responses_request_layout_with_images_and_continuation() {
    let images = vec![("image/png".to_string(), vec![1u8, 2, 3]), ("image/jpeg".to_string(), vec![255u8])];
    let names = vec![Some("front.png".to_string())];
    let json = from_json(&build_openai_responses_request_json(
        "m",
        true,
        " none ",
        None,
        "S",
        "U",
        &images,
        &names,
        Some("resp_9"),
        false,
    ));
    let expected: serde_json::Value = serde_json::from_str(
        r#"{
          "model": "m", "stream": true, "previous_response_id": "resp_9",
          "input": [
            {"role":"system","content":[{"type":"input_text","text":"S"}]},
            {"role":"user","content":[
              {"type":"input_text","text":"U"},
              {"type":"input_text","text":"Image 1: front.png"},
              {"type":"input_image","image_url":"data:image/png;base64,AQID","detail":"low"},
              {"type":"input_text","text":"Image 2: <unknown>"},
              {"type":"input_image","image_url":"data:image/jpeg;base64,/w==","detail":"low"}
            ]}
          ]
        }"#,
    )
    .unwrap();
    assert_eq!(json, expected);
}

#[test]
fn chat_request_layout_with_history_and_effort() {
    let mut session = Gen3dAiSessionState::new();
    session.chat_history.push(Gen3dChatHistoryMessage {
        role: "assistant".to_string(),
        content: "earlier".to_string(),
    });
    let images = vec![("image/png".to_string(), vec![0u8])];
    let json = from_json(&build_openai_chat_completions_request_json(
        &session,
        "m",
        false,
        "low",
        None,
        "S",
        "U",
        &images,
        &vec![None],
    ));
    let expected: serde_json::Value = serde_json::from_str(
        r#"{
          "model": "m", "stream": false, "reasoning_effort": "low",
          "messages": [
            {"role":"assistant","content":"earlier"},
            {"role":"system","content":"S"},
            {"role":"user","content":[
              {"type":"text","text":"U"},
              {"type":"text","text":"Image 1: <unknown>"},
              {"type":"image_url","image_url":{"url":"data:image/png;base64,AA=="}}
            ]}
          ]
        }"#,
    )
    .unwrap();
    assert_eq!(json, expected);
}
