use gen3d_ai::json::{JsonNumber, JsonValue};
use gen3d_ai::openai::response::{
    extract_openai_total_tokens, json_to_u64, openai_error_message,
    openai_response_has_pending_status, openai_response_status, openai_responses_sse_event,
    openai_sse_payloads,
};

fn to_json(v: &serde_json::Value) -> JsonValue {
    match v {
        serde_json::Value::Null => JsonValue::Null,
        serde_json::Value::Bool(b) => JsonValue::Bool(*b),
        serde_json::Value::Number(n) => {
            if let Some(u) = n.as_u64() {
                JsonValue::Number(JsonNumber::PosInt(u))
            } else if let Some(i) = n.as_i64() {
                JsonValue::Number(JsonNumber::NegInt(i))
            } else {
                JsonValue::Number(JsonNumber::Float(n.as_f64().unwrap_or(0.0).to_bits()))
            }
        }
        serde_json::Value::String(s) => JsonValue::String(s.clone()),
        serde_json::Value::Array(a) => JsonValue::Array(a.iter().map(to_json).collect()),
        serde_json::Value::Object(m) => {
            JsonValue::Object(m.iter().map(|(k, v)| (k.clone(), to_json(v))).collect())
        }
    }
}

fn parse(text: &str) -> JsonValue {
    to_json(&serde_json::from_str::<serde_json::Value>(text).unwrap())
}

#[test]
fn detects_in_progress_responses_without_output_text() {
    let json = parse(r#"{"id":"resp_123","status":"in_progress","output":[]}"#);
    assert_eq!(openai_response_status(&json).map(String::as_str), Some("in_progress"));
    assert!(openai_response_has_pending_status(&json));
}

#[test]
fn reports_in_progress_status_as_pending() {
    let json = parse(r#"{"id":"resp_123","status":"in_progress","output":[]}"#);
    assert_eq!(openai_response_status(&json).map(String::as_str), Some("in_progress"));
    assert!(openai_response_has_pending_status(&json));
    for s in ["queued", "cancelling"] {
        let j = parse(&format!(r#"{{"status":"{s}"}}"#));
        assert!(openai_response_has_pending_status(&j));
    }
    let done = parse(r#"{"status":"completed"}"#);
    assert!(!openai_response_has_pending_status(&done));
    let odd = parse(r#"{"status":3}"#);
    assert_eq!(openai_response_status(&odd), None);
    assert!(!openai_response_has_pending_status(&odd));
}

#[test]
fn json_to_u64_accepts_non_negative_integers() {
    assert_eq!(json_to_u64(&parse("42")), Some(42));
    assert_eq!(json_to_u64(&parse("-1")), None);
    assert_eq!(json_to_u64(&parse("1.5")), None);
    assert_eq!(json_to_u64(&JsonValue::Number(JsonNumber::NegInt(7))), Some(7));
    assert_eq!(json_to_u64(&parse(r#""7""#)), None);
}

#[test]
fn total_tokens_prefers_total_then_sums() {
    assert_eq!(extract_openai_total_tokens(&parse(r#"{"usage":{"total_tokens":9,"input_tokens":1}}"#)), Some(9));
    assert_eq!(extract_openai_total_tokens(&parse(r#"{"usage":{"input_tokens":3,"output_tokens":4}}"#)), Some(7));
    assert_eq!(
        extract_openai_total_tokens(&parse(r#"{"usage":{"input_tokens":0,"prompt_tokens":5,"completion_tokens":6}}"#)),
        Some(11)
    );
    assert_eq!(extract_openai_total_tokens(&parse(r#"{"usage":{}}"#)), None);
    assert_eq!(extract_openai_total_tokens(&parse(r#"{"other":1}"#)), None);
    let big = format!(r#"{{"usage":{{"input_tokens":{},"output_tokens":2}}}}"#, u64::MAX);
    assert_eq!(extract_openai_total_tokens(&parse(&big)), Some(u64::MAX));
}

#[test]
fn error_message_is_trimmed_and_non_empty() {
    assert_eq!(
        openai_error_message(&parse(r#"{"error":{"message":"  bad key  "}}"#)).as_deref(),
        Some("bad key")
    );
    assert_eq!(openai_error_message(&parse(r#"{"error":{"message":"   "}}"#)), None);
    assert_eq!(openai_error_message(&parse(r#"{"error":"x"}"#)), None);
    assert_eq!(openai_error_message(&parse(r#"[]"#)), None);
}

#[test]
fn sse_payloads_skip_markers_and_other_lines() {
    let body = "event: x\r\ndata: {\"a\":1}\r\n\r\ndata:   \ndata: [DONE]\n  data:{\"b\":2}  ";
    assert_eq!(
        openai_sse_payloads(body),
        vec!["{\"a\":1}".to_string(), "{\"b\":2}".to_string()]
    );
    assert!(openai_sse_payloads("").is_empty());
}

#[test]
fn sse_event_prefers_the_response_field() {
    let wrapped = parse(r#"{"type":"response.completed","response":{"id":"r1"}}"#);
    let got = openai_responses_sse_event(wrapped).expect("response");
    assert!(matches!(got, JsonValue::Object(ref e) if e.len() == 1 && e[0].0 == "id"));
    let direct = parse(r#"{"id":"r2","output":[]}"#);
    assert!(openai_responses_sse_event(direct).is_some());
    assert!(openai_responses_sse_event(parse(r#"{"type":"delta"}"#)).is_none());
    assert!(openai_responses_sse_event(parse(r#"[1]"#)).is_none());
}
