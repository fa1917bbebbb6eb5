use gen3d_ai::json::{JsonNumber, JsonValue};
use gen3d_ai::parse::documents::{
    prepare_ai_motion_authoring_json, prepare_ai_plan_json, prepare_ai_review_delta_json,
};
use gen3d_ai::parse::plan_json::{
    normalize_ai_nullable_string_field_allowing_array, normalize_ai_plan_collection_shapes,
    normalize_ai_plan_component_joint_fields, normalize_ai_plan_rig_motion_fields,
    normalize_ai_plan_top_level_fields, normalize_json_named_object_map_to_array,
    normalize_json_singleton_array_field,
};

fn to_json(v: &serde_json::Value) -> JsonValue {
    match v {
        serde_json::Value::Null => JsonValue::Null,
        serde_json::Value::Bool(b) => JsonValue::Bool(*b),
        serde_json::Value::Number(n) => {
            if let Some(u) = n.as_u64() {
                JsonValue::Number(JsonNumber::PosInt(u))
            } else if let Some(i) = n.as_i64() {
                JsonValue::Number(JsonNumber::NegInt(i))
            } else {
                JsonValue::Number(JsonNumber::Float(n.as_f64().unwrap_or(0.0).to_bits()))
            }
        }
        serde_json::Value::String(s) => JsonValue::String(s.clone()),
        serde_json::Value::Array(a) => JsonValue::Array(a.iter().map(to_json).collect()),
        serde_json::Value::Object(m) => {
            JsonValue::Object(m.iter().map(|(k, v)| (k.clone(), to_json(v))).collect())
        }
    }
}

fn from_json(v: &JsonValue) -> serde_json::Value {
    match v {
        JsonValue::Null => serde_json::Value::Null,
        JsonValue::Bool(b) => serde_json::Value::Bool(*b),
        JsonValue::Number(JsonNumber::PosInt(u)) => serde_json::Value::from(*u),
        JsonValue::Number(JsonNumber::NegInt(i)) => serde_json::Value::from(*i),
        JsonValue::Number(JsonNumber::Float(bits)) => serde_json::Value::from(f64::from_bits(*bits)),
        JsonValue::String(s) => serde_json::Value::String(s.clone()),
        JsonValue::Array(a) => serde_json::Value::Array(a.iter().map(from_json).collect()),
        JsonValue::Object(entries) => {
            let mut m = serde_json::Map::new();
            for (k, v) in entries {
                m.insert(k.clone(), from_json(v));
            }
            serde_json::Value::Object(m)
        }
    }
}

fn parse(text: &str) -> JsonValue {
    to_json(&serde_json::from_str::<serde_json::Value>(text).expect("JSON should parse"))
}

fn same(v: &JsonValue, text: &str) -> bool {
    from_json(v) == serde_json::from_str::<serde_json::Value>(text).unwrap()
}

#[test]
fn normalize_ai_plan_component_joint_fields_does_not_drop_root_joint() {
    let mut json_value = parse(
        r#"
        {
          "version": 8,
          "mobility": { "kind": "static" },
          "components": [
            {
              "name": "root",
              "size": [1.0, 1.0, 1.0],
              "anchors": [
                { "name": "a", "pos": [0.0,0.0,0.0], "forward": [0.0,0.0,1.0], "up": [0.0,1.0,0.0] }
              ],
              "joint": { "kind": "hinge" }
            }
          ]
        }
        "#,
    );

    normalize_ai_plan_component_joint_fields(&mut json_value);

    let v = from_json(&json_value);
    assert!(
        v.get("components")
            .and_then(|v| v.as_array())
            .and_then(|arr| arr.first())
            .and_then(|v| v.get("joint"))
            .is_some(),
        "root component joint should not be dropped (strict schema parsing should surface it)"
    );
}

#[test]
fn parse_ai_plan_normalizes_component_level_joint() {
    let mut json_value = parse(
        r#"
        {
          "version": 8,
          "mobility": { "kind": "static" },
          "components": [
            {
              "name": "root",
              "size": [1.0, 1.0, 1.0],
              "anchors": [
                { "name": "a", "pos": [0.0,0.0,0.0], "forward": [0.0,0.0,1.0], "up": [0.0,1.0,0.0] }
              ]
            },
            {
              "name": "child",
              "size": [1.0, 1.0, 1.0],
              "anchors": [
                { "name": "b", "pos": [0.0,0.0,0.0], "forward": [0.0,0.0,1.0], "up": [0.0,1.0,0.0] }
              ],
              "attach_to": { "parent": "root", "parent_anchor": "a", "child_anchor": "b" },
              "joint": { "kind": "hinge", "axis_join": [1.0, 0.0, 0.0], "limits_degrees": [-10.0, 10.0] }
            }
          ]
        }
        "#,
    );
    prepare_ai_plan_json(&mut json_value).expect("plan should be prepared");
    let v = from_json(&json_value);
    let child = v["components"]
        .as_array()
        .unwrap()
        .iter()
        .find(|c| c["name"] == "child")
        .expect("child component should exist");
    assert!(child.get("joint").is_none());
    assert_eq!(child["attach_to"]["joint"]["kind"], "hinge");
    assert_eq!(child["attach_to"]["parent"], "root");
}

#[test]
fn component_joint_is_dropped_when_attachment_has_one() {
    let mut v = parse(
        r#"{"components":[{"name":"c","attach_to":{"joint":{"kind":"ball"}},"joint":{"kind":"hinge"}}]}"#,
    );
    normalize_ai_plan_component_joint_fields(&mut v);
    assert!(same(&v, r#"{"components":[{"name":"c","attach_to":{"joint":{"kind":"ball"}}}]}"#));
}

#[test]
fn component_joint_stays_without_object_attachment() {
    let text = r#"{"components":[{"name":"c","attach_to":null,"joint":{"kind":"hinge"}},7]}"#;
    let mut v = parse(text);
    normalize_ai_plan_component_joint_fields(&mut v);
    assert!(same(&v, text));
}

#[test]
fn parse_ai_plan_drops_unknown_top_level_fields() {
    let mut json_value = parse(
        r#"
        {
          "version": 8,
          "name": "warcar",
          "purpose": "fast vehicle",
          "mobility": { "kind": "ground", "max_speed": 6.0 },
          "attack": null,
          "aim": null,
          "collider": { "kind": "aabb_xz", "half_extents": [1.0, 2.0] },
          "assembly_notes": "",
          "root_component": "root",
          "reuse_groups": [],
          "components": [
            {
              "name": "root",
              "purpose": "",
              "modeling_notes": "",
              "size": [1.0, 1.0, 1.0],
              "anchors": [
                { "name": "a", "pos": [0.0,0.0,0.0], "forward": [0.0,0.0,1.0], "up": [0.0,1.0,0.0] }
              ],
              "contacts": [],
              "attach_to": null
            }
          ]
        }
        "#,
    );
    prepare_ai_plan_json(&mut json_value).expect("plan should be prepared");
    let v = from_json(&json_value);
    let mut keys: Vec<&String> = v.as_object().unwrap().keys().collect();
    keys.sort();
    assert_eq!(
        keys,
        vec![
            "aim",
            "assembly_notes",
            "attack",
            "collider",
            "components",
            "mobility",
            "reuse_groups",
            "root_component",
            "version"
        ]
    );
    assert_eq!(v["components"].as_array().unwrap().len(), 1);
    assert_eq!(v["mobility"]["kind"], "ground");
}

#[test]
fn top_level_fields_keep_only_plan_keys() {
    let mut v = parse(r#"{"version":8,"rig":{},"extra":1,"components":[]}"#);
    normalize_ai_plan_top_level_fields(&mut v);
    assert!(same(&v, r#"{"version":8,"rig":{},"components":[]}"#));
    let mut s = parse(r#""text""#);
    normalize_ai_plan_top_level_fields(&mut s);
    assert!(same(&s, r#""text""#));
}

#[test]
fn parse_ai_plan_hoists_rig_articulation_nodes_and_normalizes_anchor_maps() {
    let mut json_value = parse(
        r#"
        {
          "version": 8,
          "mobility": { "kind": "static" },
          "rig": {
            "articulation_nodes": [
              {
                "component": "head",
                "node_id": "jaw",
                "pos": [0.0, -0.1, 0.2],
                "forward": [0.0, 0.0, 1.0],
                "up": [0.0, 1.0, 0.0],
                "bind_part_indices": [2]
              }
            ],
            "named_motions": [
              { "name": "jaw_open", "poses": [] }
            ]
          },
          "reuse_groups": [],
          "components": [
            {
              "name": "head",
              "purpose": "",
              "modeling_notes": "",
              "size": [1.0, 1.0, 1.0],
              "anchors": {
                "look": {
                  "pos": [0.0, 0.1, 0.2],
                  "forward": [0.0, 0.0, 1.0],
                  "up": [0.0, 1.0, 0.0]
                }
              },
              "contacts": [],
              "attach_to": null
            }
          ]
        }
        "#,
    );
    prepare_ai_plan_json(&mut json_value).expect("plan should be prepared");
    let v = from_json(&json_value);
    assert!(v.get("rig").is_none(), "unsupported rig motion fields should be dropped");
    let comps = v["components"].as_array().unwrap();
    assert_eq!(comps.len(), 1);
    let anchors = comps[0]["anchors"].as_array().unwrap();
    assert_eq!(anchors.len(), 1);
    assert_eq!(anchors[0]["name"], "look");
    let nodes = comps[0]["articulation_nodes"].as_array().unwrap();
    assert_eq!(nodes.len(), 1);
    assert_eq!(nodes[0]["node_id"], "jaw");
    assert!(nodes[0].get("component").is_none());
    assert!(nodes[0].get("bind_part_indices").is_none());
}

#[test]
fn rig_nodes_that_cannot_move_stay_under_the_rig() {
    let mut v = parse(
        r#"{"rig":{"articulation_nodes":[{"component":"  tail ","node_id":"t"},{"node_id":"x","bind_part_indices":[1]},5,{"component":"body","node_id":"b"}]},
            "components":[{"name":" body ","articulation_nodes":{}}]}"#,
    );
    normalize_ai_plan_rig_motion_fields(&mut v);
    assert!(same(
        &v,
        r#"{"rig":{"articulation_nodes":[{"component":"tail","node_id":"t"},{"node_id":"x"},5,{"node_id":"b"}]},
            "components":[{"name":" body ","articulation_nodes":{}}]}"#
    ));
}

#[test]
fn rig_nodes_go_to_the_last_component_of_a_name() {
    let mut v = parse(
        r#"{"rig":{"articulation_nodes":{"component":"arm","node_id":"elbow"}},
            "components":[{"name":"arm"},{"name":"arm","articulation_nodes":[{"node_id":"wrist"}]}]}"#,
    );
    normalize_ai_plan_rig_motion_fields(&mut v);
    assert!(same(
        &v,
        r#"{"components":[{"name":"arm"},{"name":"arm","articulation_nodes":[{"node_id":"wrist"},{"node_id":"elbow"}]}]}"#
    ));
}

#[test]
fn rig_without_components_keeps_its_nodes() {
    let mut v = parse(r#"{"rig":{"articulation_nodes":{"component":"arm"},"named_motions":null}}"#);
    normalize_ai_plan_rig_motion_fields(&mut v);
    assert!(same(&v, r#"{"rig":{"articulation_nodes":[{"component":"arm"}]}}"#));

    let mut scalar = parse(r#"{"rig":{"articulation_nodes":"none"},"components":[]}"#);
    normalize_ai_plan_rig_motion_fields(&mut scalar);
    assert!(same(&scalar, r#"{"rig":{"articulation_nodes":"none"},"components":[]}"#));

    let mut not_object = parse(r#"{"rig":[1,2]}"#);
    normalize_ai_plan_rig_motion_fields(&mut not_object);
    assert!(same(&not_object, r#"{"rig":[1,2]}"#));

    let mut empty = parse(r#"{"rig":{"articulation_nodes":null,"named_motions":[]},"version":8}"#);
    normalize_ai_plan_rig_motion_fields(&mut empty);
    assert!(same(&empty, r#"{"version":8}"#));
}

#[test]
fn plan_json_without_version_is_rejected_unchanged() {
    let text = r#"{"components":{"a":{}}}"#;
    let mut v = parse(text);
    let err = prepare_ai_plan_json(&mut v).unwrap_err();
    assert_eq!(err, "AI plan JSON missing required `version` (expected 8).");
    assert!(same(&v, text));
    let mut not_object = parse("[1]");
    assert!(prepare_ai_plan_json(&mut not_object).is_err());
}

#[test]
fn collection_shapes_become_arrays() {
    let mut v = parse(
        r#"{"components":{"b":{"anchors":{"z":{"pos":1},"y":{"name":"keep"}},"contacts":null,
                           "articulation_nodes":{"jaw":{}}},
                       "a":{"contacts":[1]}},
            "reuse_groups":{"source":"a"}}"#,
    );
    normalize_ai_plan_collection_shapes(&mut v);
    assert!(same(
        &v,
        r#"{"components":[{"name":"a","contacts":[1]},
                          {"name":"b","anchors":[{"name":"keep"},{"name":"z","pos":1}],"contacts":[],
                           "articulation_nodes":[{"node_id":"jaw"}]}],
            "reuse_groups":[{"source":"a"}]}"#
    ));
}

#[test]
fn named_map_to_array_cases() {
    let mut null = JsonValue::Null;
    normalize_json_named_object_map_to_array(&mut null, "name");
    assert!(same(&null, "[]"));

    let mut mixed = parse(r#"{"a":{"x":1},"b":2}"#);
    normalize_json_named_object_map_to_array(&mut mixed, "name");
    assert!(same(&mixed, r#"[{"a":{"x":1},"b":2}]"#));

    let mut blank_key = parse(r#"{" ":{"x":1},"b":{"name":"own"}}"#);
    normalize_json_named_object_map_to_array(&mut blank_key, "name");
    assert!(same(&blank_key, r#"[{"x":1},{"name":"own"}]"#));

    let mut arr = parse(r#"[{"a":1}]"#);
    normalize_json_named_object_map_to_array(&mut arr, "name");
    assert!(same(&arr, r#"[{"a":1}]"#));

    let mut duplicate = JsonValue::Object(vec![
        ("k".to_string(), JsonValue::Bool(true)),
        ("k".to_string(), parse(r#"{"v":2}"#)),
    ]);
    normalize_json_named_object_map_to_array(&mut duplicate, "id");
    assert!(same(&duplicate, r#"[{"v":2,"id":"k"}]"#));
}

#[test]
fn singleton_array_cases() {
    let mut null = JsonValue::Null;
    normalize_json_singleton_array_field(&mut null);
    assert!(same(&null, "[]"));
    let mut obj = parse(r#"{"a":1}"#);
    normalize_json_singleton_array_field(&mut obj);
    assert!(same(&obj, r#"[{"a":1}]"#));
    let mut s = parse(r#""x""#);
    normalize_json_singleton_array_field(&mut s);
    assert!(same(&s, r#""x""#));
}

#[test]
fn parses_review_delta_summary_and_notes_arrays_as_strings() {
    let mut v = parse(
        r#"{
          "version": 1,
          "applies_to": {"run_id":"run","attempt":0,"plan_hash":"sha256:deadbeef","assembly_rev":0},
          "summary": ["  line 1  ", "", "line 2", 3],
          "notes_text": ["  note 1  ", "", "note 2", null],
          "actions": [
            {"kind":"accept"}
          ]
        }"#,
    );
    prepare_ai_review_delta_json(&mut v).expect("review-delta should be prepared");
    let j = from_json(&v);
    assert_eq!(j["summary"], "line 1\nline 2");
    assert_eq!(j["notes_text"], "note 1\nnote 2");
}

#[test]
fn parses_motion_authoring_notes_array_as_string() {
    let mut v = parse(
        r#"{
          "version": 1,
          "applies_to": {"run_id":"run","attempt":0,"plan_hash":"sha256:deadbeef","assembly_rev":2},
          "decision": "author_clips",
          "reason": "test",
          "replace_channels": ["move"],
          "targets": [],
          "notes": ["  line 1  ", "", "line 2", 3]
        }"#,
    );
    prepare_ai_motion_authoring_json(&mut v).expect("motion authoring should be prepared");
    assert_eq!(from_json(&v)["notes"], "line 1\nline 2");
}

#[test]
fn motion_authoring_without_version_is_rejected() {
    let mut missing = parse(r#"{"notes":"x"}"#);
    assert_eq!(
        prepare_ai_motion_authoring_json(&mut missing).unwrap_err(),
        "AI motion-authoring JSON missing required `version` (expected 1)."
    );
}

#[test]
fn nullable_text_field_cases() {
    let mut v = parse(r#"{"a":"  hi  ","b":"   ","c":5,"d":[],"e":null}"#);
    for f in ["a", "b", "c", "d", "e", "missing"] {
        normalize_ai_nullable_string_field_allowing_array(&mut v, f);
    }
    assert!(same(&v, r#"{"a":"hi","b":null,"c":null,"d":null,"e":null}"#));
    let mut arr = parse(r#"[1]"#);
    normalize_ai_nullable_string_field_allowing_array(&mut arr, "a");
    assert!(same(&arr, "[1]"));
}

#[test]
fn plan_repairs_are_idempotent_on_an_example() {
    let text = r#"{"version":8,"x":1,"rig":{"articulation_nodes":[{"component":"a","node_id":"n"}]},
                   "components":{"a":{"anchors":{"p":{}},"attach_to":{},"joint":{"kind":"fixed"}}}}"#;
    let mut once = parse(text);
    prepare_ai_plan_json(&mut once).unwrap();
    let mut twice = to_json(&from_json(&once));
    prepare_ai_plan_json(&mut twice).unwrap();
    assert_eq!(from_json(&once), from_json(&twice));
}
