use gen3d_ai::openai::capabilities::Gen3dAiSessionState;
use gen3d_ai::openai::effort::{
    cap_reasoning_effort, parse_reasoning_effort_rank, rank_to_reasoning_effort, ReasoningEffortRank,
};
use gen3d_ai::openai::error::{is_transient_error, OpenAiError};
use gen3d_ai::openai::flow::{
    begin_attempt, both_endpoints_failed_message, chat_flow_start, chat_on_error,
    chat_request_plan, next_poll_delay, push_chat_history, responses_finish,
    responses_flow_start, responses_on_body, responses_on_error, responses_on_unparsed_body,
    responses_request_plan, should_try_responses, text_request_after_chat,
    text_request_after_responses, text_request_begin, text_request_first_endpoint,
    too_many_images_message, AttemptAction, TextRequestStep, UnparsedBodyAction,
    MAX_RETRY_DELAY_MS,
};

fn err(status: Option<u16>, preview: Option<&str>) -> OpenAiError {
    OpenAiError {
        summary: "HTTP".into(),
        url: "https://example.invalid".into(),
        status,
        body_preview: preview.map(|p| p.to_string()),
        cancelled: false,
    }
}

#[test]
fn reasoning_effort_cap() {
    assert_eq!(parse_reasoning_effort_rank(" HIGH "), Some(ReasoningEffortRank::High));
    assert_eq!(parse_reasoning_effort_rank(""), Some(ReasoningEffortRank::Off));
    assert_eq!(parse_reasoning_effort_rank("extreme"), None);
    assert_eq!(rank_to_reasoning_effort(ReasoningEffortRank::Medium), "medium");
    assert_eq!(cap_reasoning_effort(" high ", "low"), "low");
    assert_eq!(cap_reasoning_effort("low", "high"), "low");
    assert_eq!(cap_reasoning_effort("  turbo ", "low"), "turbo");
    assert_eq!(cap_reasoning_effort("medium", "bogus"), "medium");
    assert_eq!(cap_reasoning_effort("", "high"), "none");
}

#[test]
fn error_short_and_detail() {
    let e = err(Some(429), Some("slow down"));
    assert_eq!(e.short(), "HTTP (url=https://example.invalid, status=429)");
    assert_eq!(e.detail(), "HTTP (url=https://example.invalid, status=429)\nbody_preview: slow down");
    assert_eq!(OpenAiError::new("boom".into()).short(), "boom");
    let c = OpenAiError::cancelled("u".into());
    assert!(c.cancelled);
    assert_eq!(c.short(), "Cancelled (url=u)");
    assert!(is_transient_error(&e));
    assert!(is_transient_error(&OpenAiError::new("Connection RESET by peer".into())));
    assert!(!is_transient_error(&err(Some(400), Some("bad"))));
}

#[test]
fn responses_flow_retries_without_background_then_succeeds() {
    let mut session = Gen3dAiSessionState::new();
    let mut st = responses_flow_start(&session);
    begin_attempt(&mut st);
    let plan = responses_request_plan(&session, true, false);
    assert!(plan.use_schema && plan.background && !plan.stream);
    let act = responses_on_error(&mut session, &mut st, plan, false, err(Some(400), Some("Unknown field: background")));
    assert_eq!(act, AttemptAction::RetryNow);
    assert_eq!(session.responses_background_supported, Some(false));
    let plan2 = responses_request_plan(&session, true, false);
    assert!(plan2.use_schema && !plan2.background);
    assert_eq!(responses_on_body(&mut session, plan2, " {} "), AttemptAction::Done);
    assert_eq!(session.responses_supported, Some(true));
    assert_eq!(session.responses_structured_outputs_supported, Some(true));
}

#[test]
fn responses_flow_transient_retries_double_the_delay() {
    let mut session = Gen3dAiSessionState::new();
    let mut st = responses_flow_start(&session);
    let plan = responses_request_plan(&session, false, false);
    let mut delays = Vec::new();
    loop {
        begin_attempt(&mut st);
        match responses_on_error(&mut session, &mut st, plan, false, err(Some(503), Some("busy"))) {
            AttemptAction::RetryAfter { delay_ms } => delays.push(delay_ms),
            AttemptAction::Fail(e) => {
                assert_eq!(e.status, Some(503));
                break;
            }
            other => panic!("unexpected action: {other:?}"),
        }
    }
    assert_eq!(delays, vec![250, 500, 1000, 2000, 4000, 4000]);
    assert_eq!(session.responses_supported, Some(true));
}

#[test]
fn responses_flow_structured_outputs_required_fails() {
    let mut session = Gen3dAiSessionState::new();
    let mut st = responses_flow_start(&session);
    begin_attempt(&mut st);
    let plan = responses_request_plan(&session, true, true);
    let act = responses_on_error(&mut session, &mut st, plan, true, err(Some(422), Some("json_schema unsupported")));
    match act {
        AttemptAction::Fail(e) => assert!(e
            .summary
            .starts_with("Structured outputs required, but provider rejected them: ")),
        other => panic!("unexpected action: {other:?}"),
    }
    assert_eq!(session.responses_structured_outputs_supported, Some(false));
}

#[test]
fn responses_flow_endpoint_missing_disables_responses() {
    let mut session = Gen3dAiSessionState::new();
    let mut st = responses_flow_start(&session);
    let plan = responses_request_plan(&session, false, false);
    let act = responses_on_error(&mut session, &mut st, plan, false, err(Some(404), None));
    assert!(matches!(act, AttemptAction::Fail(_)));
    assert!(!should_try_responses(&session));
}

#[test]
fn responses_continuation_is_dropped_when_rejected() {
    let mut session = Gen3dAiSessionState::new();
    session.responses_previous_id = Some("resp_1".into());
    let mut st = responses_flow_start(&session);
    assert_eq!(st.previous_response_id.as_deref(), Some("resp_1"));
    let plan = responses_request_plan(&session, false, false);
    let act = responses_on_error(
        &mut session,
        &mut st,
        plan,
        false,
        err(Some(400), Some("Unsupported parameter: previous_response_id")),
    );
    assert_eq!(act, AttemptAction::RetryNow);
    assert_eq!(st.previous_response_id, None);
    assert_eq!(session.responses_continuation_supported, Some(false));
    responses_finish(&mut session, &st, Some("resp_2".into()), false);
    assert_eq!(session.responses_previous_id.as_deref(), Some("resp_2"));
}

#[test]
fn empty_bodies_turn_streaming_on_then_fail() {
    let mut session = Gen3dAiSessionState::new();
    let plan = responses_request_plan(&session, false, false);
    assert_eq!(responses_on_body(&mut session, plan, "  "), AttemptAction::RetryNow);
    let plan2 = responses_request_plan(&session, false, false);
    assert!(plan2.stream);
    match responses_on_body(&mut session, plan2, "") {
        AttemptAction::Fail(e) => assert_eq!(e.summary, "/responses returned an empty body"),
        other => panic!("unexpected action: {other:?}"),
    }
    assert_eq!(session.responses_supported, Some(false));
}

#[test]
fn chat_flow_stream_and_give_up() {
    let mut session = Gen3dAiSessionState::new();
    let mut st = chat_flow_start();
    begin_attempt(&mut st);
    let plan = chat_request_plan(&session, false, false);
    let act = chat_on_error(&mut session, &mut st, plan, false, err(Some(400), Some("stream must be set to true")));
    assert_eq!(act, AttemptAction::RetryNow);
    assert_eq!(session.chat_stream_required, Some(true));
    let plan2 = chat_request_plan(&session, false, false);
    assert!(plan2.stream);
    let act2 = chat_on_error(&mut session, &mut st, plan2, false, err(Some(401), Some("bad key")));
    assert!(matches!(act2, AttemptAction::Fail(_)));
}

#[test]
fn unparsed_body_and_poll_delay() {
    let session = Gen3dAiSessionState::new();
    let mut st = responses_flow_start(&session);
    assert_eq!(responses_on_unparsed_body(&st, true), UnparsedBodyAction::UseStreamText);
    assert_eq!(responses_on_unparsed_body(&st, false), UnparsedBodyAction::RetryAfter { delay_ms: 250 });
    for _ in 0..10 {
        begin_attempt(&mut st);
    }
    assert_eq!(responses_on_unparsed_body(&st, false), UnparsedBodyAction::Fail);
    assert_eq!(next_poll_delay(300, 5000), 600);
    assert_eq!(next_poll_delay(3000, 5000), 5000);
    assert_eq!(next_poll_delay(u64::MAX, MAX_RETRY_DELAY_MS), MAX_RETRY_DELAY_MS);
}

#[test]
fn chat_history_keeps_the_last_messages() {
    let mut session = Gen3dAiSessionState::new();
    for i in 0..5 {
        push_chat_history(&mut session, format!("reply {i}"), 3);
    }
    let contents: Vec<&str> = session.chat_history.iter().map(|m| m.content.as_str()).collect();
    assert_eq!(contents, vec!["reply 2", "reply 3", "reply 4"]);
    assert!(session.chat_history.iter().all(|m| m.role == "assistant"));
}

#[test]
fn flow_messages() {
    assert_eq!(too_many_images_message(9, 8), "Too many images: 9 (max 8)");
    let m = both_endpoints_failed_message(&OpenAiError::new("a".into()), &OpenAiError::new("b".into()));
    assert_eq!(m, "OpenAI request failed.\n/responses: a\n/chat/completions: b\n(See terminal logs for details.)");
}

#[test]
fn text_request_sequence_decisions() {
    assert_eq!(
        text_request_begin(9, 8, true, "mock://gen3d"),
        TextRequestStep::Fail { message: "Too many images: 9 (max 8)".to_string() }
    );
    assert_eq!(
        text_request_begin(1, 8, true, "https://x"),
        TextRequestStep::Fail { message: "Cancelled".to_string() }
    );
    assert_eq!(text_request_begin(0, 8, false, "mock://gen3d/test"), TextRequestStep::UseMock);
    assert_eq!(text_request_begin(0, 8, false, "https://api.invalid/v1"), TextRequestStep::UseProvider);

    let mut session = Gen3dAiSessionState::new();
    assert_eq!(text_request_first_endpoint(&session), TextRequestStep::TryResponses);
    session.responses_supported = Some(false);
    match text_request_first_endpoint(&session) {
        TextRequestStep::TryChat { responses_error } => {
            assert_eq!(responses_error.summary, "Responses API not supported")
        }
        other => panic!("unexpected step {other:?}"),
    }

    let err = OpenAiError::new("HTTP 500".to_string());
    assert_eq!(
        text_request_after_responses(err.clone()),
        TextRequestStep::TryChat { responses_error: err.clone() }
    );
    let mut cancelled = err.clone();
    cancelled.cancelled = true;
    assert_eq!(
        text_request_after_responses(cancelled.clone()),
        TextRequestStep::Fail { message: "Cancelled".to_string() }
    );
    assert_eq!(text_request_after_chat(&err, &cancelled), "Cancelled");
    assert_eq!(
        text_request_after_chat(&err, &OpenAiError::new("HTTP 404".to_string())),
        "OpenAI request failed.\n/responses: HTTP 500\n/chat/completions: HTTP 404\n(See terminal logs for details.)"
    );
}
