use gen3d_ai::json::{JsonNumber, JsonValue};
use gen3d_ai::parse::documents::{prepare_ai_motion_authoring_json, prepare_ai_plan_json, reply_json_text};
use gen3d_ai::parse::finish::{
    check_document_version, finish_ai_descriptor_meta_json, finish_ai_motion_authoring_json,
    finish_ai_plan_json, finish_ai_prompt_intent_json, finish_ai_review_delta_json,
};

fn to_json(v: &serde_json::Value) -> JsonValue {
    match v {
        serde_json::Value::Null => JsonValue::Null,
        serde_json::Value::Bool(b) => JsonValue::Bool(*b),
        serde_json::Value::Number(n) => {
            if let Some(u) = n.as_u64() {
                JsonValue::Number(JsonNumber::PosInt(u))
            } else if let Some(i) = n.as_i64() {
                JsonValue::Number(JsonNumber::NegInt(i))
            } else {
                JsonValue::Number(JsonNumber::Float(n.as_f64().unwrap_or(0.0).to_bits()))
            }
        }
        serde_json::Value::String(s) => JsonValue::String(s.clone()),
        serde_json::Value::Array(a) => JsonValue::Array(a.iter().map(to_json).collect()),
        serde_json::Value::Object(m) => {
            JsonValue::Object(m.iter().map(|(k, v)| (k.clone(), to_json(v))).collect())
        }
    }
}

fn from_json(v: &JsonValue) -> serde_json::Value {
    match v {
        JsonValue::Null => serde_json::Value::Null,
        JsonValue::Bool(b) => serde_json::Value::Bool(*b),
        JsonValue::Number(JsonNumber::PosInt(u)) => serde_json::Value::from(*u),
        JsonValue::Number(JsonNumber::NegInt(i)) => serde_json::Value::from(*i),
        JsonValue::Number(JsonNumber::Float(bits)) => serde_json::Value::from(f64::from_bits(*bits)),
        JsonValue::String(s) => serde_json::Value::String(s.clone()),
        JsonValue::Array(a) => serde_json::Value::Array(a.iter().map(from_json).collect()),
        JsonValue::Object(entries) => {
            let mut m = serde_json::Map::new();
            for (k, v) in entries {
                m.insert(k.clone(), from_json(v));
            }
            serde_json::Value::Object(m)
        }
    }
}

fn parse(text: &str) -> JsonValue {
    to_json(&serde_json::from_str::<serde_json::Value>(text).expect("JSON should parse"))
}

fn same(v: &JsonValue, text: &str) -> bool {
    from_json(v) == serde_json::from_str::<serde_json::Value>(text).unwrap()
}

#[test]
fn rejects_plan_with_wrong_version() {
    let text = r#"{"version":6,"components":[{"name":"root","size":[1,1,1]}]}"#;
    let mut v = parse(&reply_json_text(text));
    prepare_ai_plan_json(&mut v).expect("plan has a version");
    assert_eq!(
        finish_ai_plan_json(&mut v),
        Err("Unsupported AI plan version 6 (expected 8)".to_string())
    );
}

#[test]
fn version_must_be_the_expected_unsigned_integer() {
    assert_eq!(check_document_version(&parse(r#"{"version":8}"#), "plan", 8), Ok(()));
    assert_eq!(
        check_document_version(&parse(r#"{"version":-1}"#), "plan", 8),
        Err("AI JSON schema error: `version` must be an unsigned 32-bit integer".to_string())
    );
    assert_eq!(
        check_document_version(&parse(r#"{"version":"8"}"#), "plan", 8),
        Err("AI JSON schema error: `version` must be an unsigned 32-bit integer".to_string())
    );
    assert_eq!(
        check_document_version(&parse(r#"{"version":4294967296}"#), "draft", 2),
        Err("AI JSON schema error: `version` must be an unsigned 32-bit integer".to_string())
    );
}

#[test]
fn parses_motion_authoring_and_sanitizes() {
    let text = r#"ok {
      "version": 1,
      "applies_to": {"run_id":"run","attempt":0,"plan_hash":"sha256:deadbeef","assembly_rev":2},
      "decision": "author_clips",
      "reason": "  test  ",
      "replace_channels": [" MOVE ", "idle", ""],
      "targets": [
        {
          "kind":"attachment_edge",
          "component":" leg_l ",
          "node_id": null,
          "slots":[
            {
              "channel":"MOVE",
              "family":"base",
              "driver":"move_phase",
              "speed_scale": 1.0,
              "time_offset_units": 0.0,
              "clip": {
                "kind":"loop",
                "duration_units": 1.0,
                "keyframes": [
                  {"t_units": 1.2, "delta": {"pos": [0,0,0], "rot_quat_xyzw": [0,0,0,1], "scale": null}},
                  {"t_units": -0.2, "delta": {"pos": null, "rot_quat_xyzw": null, "scale": null}}
                ]
              }
            }
          ]
        }
      ],
      "notes_text": "  "
    }"#;
    let mut v = parse(&reply_json_text(text));
    prepare_ai_motion_authoring_json(&mut v).expect("motion authoring should be prepared");
    finish_ai_motion_authoring_json(&mut v).expect("motion authoring should be finished");
    let j = from_json(&v);
    assert_eq!(j["version"], 1);
    assert_eq!(j["reason"], "test");
    assert_eq!(j["replace_channels"], serde_json::Value::from(vec!["idle", "move"]));
    assert!(j["notes_text"].is_null());
    let targets = j["targets"].as_array().unwrap();
    assert_eq!(targets.len(), 1);
    assert_eq!(targets[0]["component"], "leg_l");
    assert_eq!(targets[0]["kind"], "attachment_edge");
    let slots = targets[0]["slots"].as_array().unwrap();
    assert_eq!(slots.len(), 1);
    assert_eq!(slots[0]["channel"], "move");
    assert_eq!(slots[0]["family"], "base");
    assert_eq!(slots[0]["clip"]["keyframes"].as_array().unwrap().len(), 2);
}

#[test]
fn motion_authoring_caps_targets_and_slots() {
    let slots: Vec<String> = (0..40).map(|i| format!(r#"{{"channel":" C{i} "}}"#)).collect();
    let target = format!(r#"{{"component":"a","node_id":"  ","slots":[{}]}}"#, slots.join(","));
    let targets: Vec<String> = (0..70).map(|_| target.clone()).collect();
    let mut v = parse(&format!(r#"{{"version":1,"targets":[{}]}}"#, targets.join(",")));
    finish_ai_motion_authoring_json(&mut v).unwrap();
    let j = from_json(&v);
    let ts = j["targets"].as_array().unwrap();
    assert_eq!(ts.len(), 64);
    assert!(ts[0]["node_id"].is_null());
    let ss = ts[63]["slots"].as_array().unwrap();
    assert_eq!(ss.len(), 32);
    assert_eq!(ss[31]["channel"], "c31");
}

#[test]
fn review_delta_trims_applies_to_and_caps_actions() {
    let actions: Vec<&str> = (0..70).map(|_| r#"{"kind":"accept"}"#).collect();
    let mut v = parse(&format!(
        r#"{{"version":1,"applies_to":{{"run_id":" run ","plan_hash":" sha256:ab ","attempt":0}},"actions":[{}]}}"#,
        actions.join(",")
    ));
    finish_ai_review_delta_json(&mut v).unwrap();
    let j = from_json(&v);
    assert_eq!(j["applies_to"]["run_id"], "run");
    assert_eq!(j["applies_to"]["plan_hash"], "sha256:ab");
    assert_eq!(j["actions"].as_array().unwrap().len(), 64);
    let mut wrong = parse(r#"{"version":2}"#);
    assert_eq!(
        finish_ai_review_delta_json(&mut wrong),
        Err("Unsupported AI review-delta version 2 (expected 1)".to_string())
    );
    assert!(same(&wrong, r#"{"version":2}"#));
}

#[test]
fn prompt_intent_and_descriptor_meta_are_tidied() {
    let mut intent = parse(r#"{"version":1,"explicit_motion_channels":[" move ","","move","idle"]}"#);
    finish_ai_prompt_intent_json(&mut intent).unwrap();
    assert!(same(&intent, r#"{"version":1,"explicit_motion_channels":["move","idle"]}"#));

    let mut meta = parse(
        r#"{"version":1,"name":"  Big   red  war car ","short":" A   fast\n car ","tags":["Voxel Art","cute!!","Rabbit","", "rabbit"]}"#,
    );
    finish_ai_descriptor_meta_json(&mut meta).unwrap();
    assert!(same(
        &meta,
        r#"{"version":1,"name":"Big red war","short":"A fast car","tags":["cute","rabbit","voxel_art"]}"#
    ));
}

#[test]
fn parses_review_delta_tweak_contact_stance_null_as_some_none() {
    let text = r#"{
      "version": 1,
      "applies_to": {"run_id":"run","attempt":0,"plan_hash":"sha256:deadbeef","assembly_rev":0},
      "actions": [
        {"kind":"tweak_contact","component_id":"deadbeef","contact_name":"ground","stance":null,"reason":"test"}
      ]
    }"#;
    let mut v = parse(&reply_json_text(text));
    gen3d_ai::parse::documents::prepare_ai_review_delta_json(&mut v).expect("review-delta should be prepared");
    finish_ai_review_delta_json(&mut v).expect("review-delta should be finished");
    let j = from_json(&v);
    let actions = j["actions"].as_array().unwrap();
    assert_eq!(actions.len(), 1);
    let action = actions[0].as_object().unwrap();
    assert_eq!(action["kind"], "tweak_contact");
    assert!(action.contains_key("stance"));
    assert!(action["stance"].is_null());
}
