use gen3d_ai::openai::mock::{
    components_for_kind, mock_kind_from_text, mock_motion_driver, mock_motion_targets,
    mock_reply_for_prefix, mock_request_reply, mock_requires_attack, mock_response_override,
    parse_applies_to_from_user_text, parse_child_components_from_motion_authoring_user_text,
    parse_required_anchor_names_from_component_user_text,
    parse_target_channel_from_motion_authoring_user_text, parse_u32_text, take_chars, MockKind,
    MockOverride, MockReply,
};

fn chars(s: &str) -> Vec<char> {
    s.chars().collect()
}

#[test]
fn mock_kind_is_read_case_insensitively_in_order() {
    assert_eq!(mock_kind_from_text("A giant OCTOPUS with a snake tail"), MockKind::Octopus);
    assert_eq!(mock_kind_from_text("a praying Mantis"), MockKind::Mantis);
    assert_eq!(mock_kind_from_text("snake"), MockKind::Snake);
    assert_eq!(mock_kind_from_text("a tank with a cannon"), MockKind::Warcar);
    assert_eq!(mock_kind_from_text(""), MockKind::Warcar);
}

#[test]
fn mock_components_and_attack_follow_the_kind() {
    assert_eq!(components_for_kind(MockKind::Warcar), vec!["chassis", "wheels", "turret", "cannon", "details"]);
    assert_eq!(components_for_kind(MockKind::Snake).len(), 7);
    assert_eq!(components_for_kind(MockKind::Octopus)[8], "tentacle_7");
    assert_eq!(components_for_kind(MockKind::Mantis).len(), 10);
    assert!(!mock_requires_attack(MockKind::Snake));
    assert!(mock_requires_attack(MockKind::Octopus));
}

#[test]
fn mock_reply_goes_by_artifact_prefix() {
    assert_eq!(mock_reply_for_prefix("prompt_intent"), MockReply::PromptIntent);
    assert_eq!(mock_reply_for_prefix("tool_plan_ops_3"), MockReply::PlanOps);
    assert_eq!(mock_reply_for_prefix("tool_plan_1"), MockReply::Plan);
    assert_eq!(mock_reply_for_prefix("tool_review_a"), MockReply::Review);
    assert_eq!(mock_reply_for_prefix("tool_draft_ops_x"), MockReply::DraftOps);
    assert_eq!(mock_reply_for_prefix("tool_component_wheels"), MockReply::Component);
    assert_eq!(mock_reply_for_prefix("tool_motion_move"), MockReply::Motion);
    assert_eq!(mock_reply_for_prefix("descriptor_meta"), MockReply::DescriptorMeta);
    assert_eq!(mock_reply_for_prefix("prompt_intent_2"), MockReply::Unsupported);
}

#[test]
fn mock_request_reply_refuses_images_and_unknown_prefixes() {
    assert_eq!(
        mock_request_reply(1, "tool_plan_1"),
        Err("mock://gen3d does not support images (tests should use prompt-only)".to_string())
    );
    assert_eq!(
        mock_request_reply(0, "other"),
        Err("mock://gen3d has no response for artifact_prefix `other`".to_string())
    );
    assert_eq!(mock_request_reply(0, "tool_review_1"), Ok(MockReply::Review));
}

#[test]
fn parse_u32_text_matches_from_str() {
    assert_eq!(parse_u32_text(&chars("42")), Some(42));
    assert_eq!(parse_u32_text(&chars("+7")), Some(7));
    assert_eq!(parse_u32_text(&chars("4294967295")), Some(u32::MAX));
    assert_eq!(parse_u32_text(&chars("4294967296")), None);
    assert_eq!(parse_u32_text(&chars("")), None);
    assert_eq!(parse_u32_text(&chars("+")), None);
    assert_eq!(parse_u32_text(&chars("-1")), None);
    assert_eq!(parse_u32_text(&chars("1a")), None);
}

#[test]
fn applies_to_needs_all_four_fields_and_the_last_wins() {
    let text = "Applies to:\n  - run_id: abc \n- attempt: 2\n- plan_hash: sha256:ff\n- assembly_rev: 5\n- attempt: 3\n";
    assert_eq!(
        parse_applies_to_from_user_text(text),
        Some(("abc".to_string(), 3, "sha256:ff".to_string(), 5))
    );
    assert_eq!(parse_applies_to_from_user_text("- run_id: a\n- attempt: 1\n- plan_hash: h\n"), None);
    assert_eq!(
        parse_applies_to_from_user_text("- run_id: a\n- attempt: x\n- plan_hash: h\n- assembly_rev: 1"),
        None
    );
}

#[test]
fn child_components_are_sorted_and_distinct() {
    let text = "Edges:\n- child=wheel_b parent=body\n  - child=wheel_a x\n- child=wheel_b again\n- child=\n- other=1\n";
    assert_eq!(
        parse_child_components_from_motion_authoring_user_text(text),
        vec!["wheel_a".to_string(), "wheel_b".to_string()]
    );
    assert!(parse_child_components_from_motion_authoring_user_text("nothing").is_empty());
}

#[test]
fn required_anchor_names_stop_at_the_first_other_line() {
    let text = "- ignored: before header\nRequired anchors for this component (MUST include all in output JSON):\n\nnot yet\n- - muzzle: front\n- base : bottom\n- no colon\n- : empty\n\n- muzzle: again\nDone.\n- late: after\n";
    assert_eq!(
        parse_required_anchor_names_from_component_user_text(text),
        vec!["base".to_string(), "muzzle".to_string()]
    );
    assert!(parse_required_anchor_names_from_component_user_text("- a: b\n").is_empty());
}

#[test]
fn target_channel_skips_empty_and_unknown() {
    let text = "target_channel:\ntarget_channel: unknown\n  target_channel:  move \ntarget_channel: action\n";
    assert_eq!(parse_target_channel_from_motion_authoring_user_text(text), Some("move".to_string()));
    assert_eq!(parse_target_channel_from_motion_authoring_user_text("target_channel: unknown"), None);
}

#[test]
fn mock_override_goes_by_markers() {
    assert_eq!(
        mock_response_override("tool_draft_ops_1", "x __MOCK_INVALID_DRAFT_OPS_ALWAYS__ y"),
        MockOverride::InvalidJson
    );
    assert_eq!(
        mock_response_override("tool_plan_1", "__MOCK_INVALID_DRAFT_OPS_ALWAYS__ __MOCK_TRUNCATE_ONCE__"),
        MockOverride::TruncateOnce
    );
    assert_eq!(mock_response_override("tool_plan_1", "plain"), MockOverride::Keep);
}

#[test]
fn take_chars_and_motion_helpers() {
    assert_eq!(take_chars("héllo", 2), "hé");
    assert_eq!(take_chars("ab", 64), "ab");
    let kids: Vec<String> = (0..10).map(|i| format!("c{i}")).collect();
    assert_eq!(mock_motion_targets(kids.clone()), kids[..8].to_vec());
    assert_eq!(mock_motion_targets(kids[..3].to_vec()), kids[..3].to_vec());
    assert_eq!(mock_motion_driver("move"), "move_phase");
    assert_eq!(mock_motion_driver("action"), "action_time");
    assert_eq!(mock_motion_driver("attack_primary"), "attack_time");
    assert_eq!(mock_motion_driver("idle"), "always");
}
