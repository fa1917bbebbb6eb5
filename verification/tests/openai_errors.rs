use gen3d_ai::openai::error::{is_stream_required, is_structured_outputs_rejected, OpenAiError};

fn http_400(preview: &str) -> OpenAiError {
    OpenAiError {
        summary: "HTTP 400".into(),
        url: "https://example.invalid".into(),
        status: Some(400),
        body_preview: Some(preview.into()),
        cancelled: false,
    }
}

#[test]
fn detects_structured_outputs_rejection_errors() {
    let err = OpenAiError {
        summary: "HTTP 400".into(),
        url: "https://example.invalid".into(),
        status: Some(400),
        body_preview: Some("Unknown field `response_format`".into()),
        cancelled: false,
    };
    assert!(is_structured_outputs_rejected(&err));

    let other = OpenAiError {
        summary: "HTTP 400".into(),
        url: "https://example.invalid".into(),
        status: Some(400),
        body_preview: Some("unknown field `previous_response_id`".into()),
        cancelled: false,
    };
    assert!(!is_structured_outputs_rejected(&other));
}

#[test]
fn detects_stream_required_errors() {
    let err = OpenAiError {
        summary: "HTTP 400".into(),
        url: "https://example.invalid".into(),
        status: Some(400),
        body_preview: Some("{\"detail\":\"Stream must be set to true\"}".into()),
        cancelled: false,
    };
    assert!(is_stream_required(&err));

    let other = OpenAiError {
        summary: "HTTP 400".into(),
        url: "https://example.invalid".into(),
        status: Some(400),
        body_preview: Some("stream must be set to false".into()),
        cancelled: false,
    };
    assert!(!is_stream_required(&other));
}

#[test]
fn structured_outputs_rejection_needs_a_matching_status() {
    let mut err = http_400("json_schema is not supported");
    assert!(is_structured_outputs_rejected(&err));
    err.status = Some(422);
    assert!(is_structured_outputs_rejected(&err));
    err.status = Some(500);
    assert!(!is_structured_outputs_rejected(&err));
    err.status = None;
    assert!(!is_structured_outputs_rejected(&err));
}

#[test]
fn structured_outputs_rejection_needs_a_preview() {
    let mut err = http_400("x");
    err.body_preview = None;
    assert!(!is_structured_outputs_rejected(&err));
    assert!(!is_stream_required(&err));
}

#[test]
fn stream_required_tolerates_variants() {
    assert!(is_stream_required(&http_400("STREAM MUST BE TRUE")));
    let mut err = http_400("stream must be set to true");
    err.status = Some(422);
    assert!(!is_stream_required(&err));
}
