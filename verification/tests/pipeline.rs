use gen3d_ai::motion::{JointRestBiasSeverity, MotionSeverity, RestBiasTarget};
use gen3d_ai::openai::cancel::is_cancelled;
use gen3d_ai::pipeline::feedback::{is_urgent_tooling_priority, normalize_tooling_feedback_fields};
use gen3d_ai::pipeline::hash::plan_hash_from_state_json;
use gen3d_ai::pipeline::progress::truncate_for_ui;
use gen3d_ai::pipeline::sprite::{check_sprite_sheet_frame_count, sprite_sheet_layout};
use std::sync::atomic::AtomicBool;

#[test]
fn plan_hash_is_prefixed_lower_hex_sha256() {
    assert_eq!(
        plan_hash_from_state_json(""),
        "sha256:e3b0c44298fc1c149afbf4c8996fb92427ae41e4649b934ca495991b7852b855"
    );
    assert_eq!(
        plan_hash_from_state_json("abc"),
        "sha256:ba7816bf8f01cfea414140de5dae2223b00361a396177a9cb410ff61f20015ad"
    );
}

#[test]
fn truncate_for_ui_marks_cut_text() {
    assert_eq!(truncate_for_ui("short", 10), "short");
    assert_eq!(truncate_for_ui("exactly", 7), "exactly");
    assert_eq!(truncate_for_ui("héllo world", 5), "héllo…(truncated)");
    assert_eq!(truncate_for_ui("abc", 0), "…(truncated)");
}

#[test]
fn sprite_sheet_needs_four_frames_of_one_size() {
    assert_eq!(
        check_sprite_sheet_frame_count(3),
        Err("Expected 4 frames for sprite sheet, got 3.".to_string())
    );
    assert_eq!(check_sprite_sheet_frame_count(4), Ok(()));
    let bad = sprite_sheet_layout(&vec![(8, 6), (8, 6), (8, 7), (1, 1)]);
    assert_eq!(
        bad.err(),
        Some("Sprite sheet frame size mismatch at index 2: expected 8x6, got (8, 7).".to_string())
    );
    let layout = sprite_sheet_layout(&vec![(8, 6); 4]).ok().expect("layout");
    assert_eq!((layout.width, layout.height), (16, 12));
    assert_eq!(layout.origins, vec![(0, 0), (8, 0), (0, 6), (8, 6)]);
    let huge = sprite_sheet_layout(&vec![(u32::MAX, 1); 4]).ok().expect("layout");
    assert_eq!(huge.width, u32::MAX);
    assert!(sprite_sheet_layout(&vec![(1, 1); 2]).is_err());
}

#[test]
fn tooling_feedback_defaults_and_urgency() {
    let f = normalize_tooling_feedback_fields("  ", " Slow tool ", "");
    assert_eq!(f.priority, "medium");
    assert_eq!(f.title, "Slow tool");
    assert_eq!(f.summary, "No summary provided.");
    let g = normalize_tooling_feedback_fields("low", "", " s ");
    assert_eq!((g.priority.as_str(), g.title.as_str(), g.summary.as_str()), ("low", "Tooling feedback", "s"));
    assert!(is_urgent_tooling_priority(" HIGH "));
    assert!(is_urgent_tooling_priority("Critical"));
    assert!(!is_urgent_tooling_priority("medium"));
    assert!(!is_urgent_tooling_priority("highest"));
}

#[test]
fn severity_names_and_orders() {
    assert_eq!(RestBiasTarget::from_str(""), Some(RestBiasTarget::Warn));
    assert_eq!(RestBiasTarget::from_str(" Warning "), Some(RestBiasTarget::Warn));
    assert_eq!(RestBiasTarget::from_str("ERROR"), Some(RestBiasTarget::Error));
    assert_eq!(RestBiasTarget::from_str("fatal"), None);
    assert_eq!(JointRestBiasSeverity::Warn.as_str(), "warn");
    assert_eq!(JointRestBiasSeverity::Error.as_str(), "error");
    assert!(JointRestBiasSeverity::Error.rank() > JointRestBiasSeverity::Warn.rank());
    assert_eq!(MotionSeverity::Error.as_str(), "error");
    assert!(MotionSeverity::Error.sort_key() < MotionSeverity::Warn.sort_key());
}

#[test]
fn cancellation_flag() {
    assert!(!is_cancelled(None));
    let flag = AtomicBool::new(true);
    assert!(is_cancelled(Some(&flag)));
    let clear = AtomicBool::new(false);
    assert!(!is_cancelled(Some(&clear)));
}
