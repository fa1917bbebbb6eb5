use gen3d_ai::motion::{check_recenter_args, RecenterArgs, RecenterSettings, RestBiasTarget};

fn args(version: u32, child_count: usize, channels: Option<&[&str]>, target: Option<&str>) -> RecenterArgs {
    RecenterArgs {
        version,
        child_count,
        channels: channels.map(|c| c.iter().map(|s| s.to_string()).collect()),
        target: target.map(|t| t.to_string()),
    }
}

#[test]
fn recenter_arguments_are_checked() {
    assert_eq!(
        check_recenter_args(&args(0, 2, Some(&[" move ", "idle", "move", ""]), Some(" ERROR "))),
        Ok(RecenterSettings {
            target: RestBiasTarget::Error,
            channels: Some(vec!["idle".to_string(), "move".to_string()])
        })
    );
    assert_eq!(
        check_recenter_args(&args(1, 1, None, Some("loud"))),
        Ok(RecenterSettings { target: RestBiasTarget::Warn, channels: None })
    );
    assert_eq!(
        check_recenter_args(&args(2, 1, None, None)),
        Err("Unsupported recenter_attachment_motion_v1 version 2 (expected 1)".to_string())
    );
    assert_eq!(
        check_recenter_args(&args(1, 0, None, None)),
        Err("recenter_attachment_motion_v1 requires non-empty child_components".to_string())
    );
    assert_eq!(
        check_recenter_args(&args(1, 3, Some(&["  ", ""]), None)),
        Err("recenter_attachment_motion_v1.channels must be non-empty when provided".to_string())
    );
}
