use gen3d_ai::json::{JsonNumber, JsonValue};
use gen3d_ai::parse::documents::{
    normalize_descriptor_name, normalize_descriptor_short, normalize_descriptor_tags,
    normalize_explicit_motion_channels, normalize_replace_channels, reply_json_text,
    require_version,
};

fn strings(v: &[&str]) -> Vec<String> {
    v.iter().map(|s| s.to_string()).collect()
}

#[test]
fn reply_json_text_takes_the_last_object_trimmed() {
    assert_eq!(reply_json_text("ok {\"a\":1} then {\"b\":2} bye"), "{\"b\":2}");
    assert_eq!(reply_json_text("  no braces here \n"), "no braces here");
    assert_eq!(reply_json_text(""), "");
}

#[test]
fn require_version_reports_the_document() {
    let with = JsonValue::Object(vec![("version".to_string(), JsonValue::Number(JsonNumber::PosInt(2)))]);
    assert_eq!(require_version(&with, "draft", 2), Ok(()));
    let without = JsonValue::Object(vec![("parts".to_string(), JsonValue::Array(Vec::new()))]);
    assert_eq!(
        require_version(&without, "draft", 2),
        Err("AI draft JSON missing required `version` (expected 2).".to_string())
    );
    assert_eq!(
        require_version(&JsonValue::Null, "descriptor-meta", 1),
        Err("AI descriptor-meta JSON missing required `version` (expected 1).".to_string())
    );
}

#[test]
fn parses_prompt_intent_and_normalizes_named_motion_channels() {
    let channels = strings(&[" sing ", "", "dance", "sing", "rap "]);
    assert_eq!(
        normalize_explicit_motion_channels(&channels),
        vec!["sing".to_string(), "dance".to_string(), "rap".to_string()]
    );
}

#[test]
fn parses_descriptor_meta_and_normalizes_tags() {
    assert_eq!(normalize_descriptor_name("  The Very Cute Rabbit  "), "The Very Cute");
    assert_eq!(normalize_descriptor_short("  A cute rabbit.\n"), "A cute rabbit.");
    let tags = strings(&["Voxel Art", "rabbit", "Rabbit", "cute!!", ""]);
    assert_eq!(
        normalize_descriptor_tags(&tags),
        vec!["cute".to_string(), "rabbit".to_string(), "voxel_art".to_string()]
    );
}

#[test]
fn descriptor_name_and_short_collapse_whitespace() {
    assert_eq!(normalize_descriptor_name("one"), "one");
    assert_eq!(normalize_descriptor_name(" \t "), "");
    assert_eq!(normalize_descriptor_short("a \n\t b   c"), "a b c");
}

#[test]
fn descriptor_tags_keep_the_first_sixty_four() {
    let tags: Vec<String> = (0..100).map(|i| format!("t{i:03}")).collect();
    let out = normalize_descriptor_tags(&tags);
    assert_eq!(out.len(), 64);
    assert_eq!(out.first().map(String::as_str), Some("t000"));
    assert_eq!(out.last().map(String::as_str), Some("t063"));
}

#[test]
fn replace_channels_are_sorted_distinct_and_capped() {
    let channels = strings(&[" Move ", "idle", "", "move", "b", "c", "d", "e", "f", "g", "h", "i"]);
    assert_eq!(
        normalize_replace_channels(&channels),
        strings(&["b", "c", "d", "e", "f", "g", "h", "i"])
    );
    assert_eq!(normalize_replace_channels(&strings(&[" IDLE", "idle"])), strings(&["idle"]));
}
