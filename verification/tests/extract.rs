use gen3d_ai::parse::extract::{extract_json_object, extract_json_objects};

#[test]
fn extracts_last_json_object_when_multiple_present() {
    let text = r#"{"a":1}{"a":2}"#;
    let extracted = extract_json_object(text).expect("should extract JSON object");
    let v: serde_json::Value = serde_json::from_str(&extracted).expect("extracted JSON parses");
    assert_eq!(v.get("a").and_then(|v| v.as_i64()), Some(2));
}

#[test]
fn extracts_multiple_json_objects_in_order() {
    let text = r#"{"a":1} noise {"a":2}{"a":3}"#;
    let extracted = extract_json_objects(text, 16);
    assert_eq!(extracted.len(), 3);
    let vals: Vec<i64> = extracted
        .iter()
        .map(|s| serde_json::from_str::<serde_json::Value>(s).unwrap())
        .filter_map(|v| v.get("a").and_then(|v| v.as_i64()))
        .collect();
    assert_eq!(vals, vec![1, 2, 3]);
}

#[test]
fn extract_json_object_none_without_braces() {
    assert_eq!(extract_json_object("no json here"), None);
    assert_eq!(extract_json_object("{ unterminated"), None);
}

#[test]
fn extract_json_object_counts_braces_inside_strings() {
    let text = r#"x {"a":"}{","b":{"c":1}} y"#;
    assert_eq!(extract_json_object(text).as_deref(), Some(r#"{","b":{"c":1}}"#));
}

#[test]
fn extract_json_objects_respects_limit() {
    let text = r#"{"a":1}{"a":2}{"a":3}"#;
    assert_eq!(extract_json_objects(text, 2), vec![r#"{"a":1}"#.to_string(), r#"{"a":2}"#.to_string()]);
    assert_eq!(extract_json_objects(text, 0), vec![r#"{"a":1}"#.to_string()]);
}

#[test]
fn extracted_object_is_balanced_and_extracts_to_itself() {
    let text = "noise {\"a\":{\"b\":[1,{}]}} tail } {\"c\":2";
    let o = extract_json_object(text).expect("an object");
    assert_eq!(o, "{\"a\":{\"b\":[1,{}]}}");
    assert_eq!(o.matches('{').count(), o.matches('}').count());
    assert_eq!(extract_json_object(&o), Some(o.clone()));
    let all = extract_json_objects("{a}x{b}{c}", 16);
    assert_eq!(all, vec!["{a}", "{b}", "{c}"]);
}
