//! The decisions of the request flows against `/responses` and
//! `/chat/completions`: what to ask for, and what to do after each attempt.
//! The caller performs the HTTP work and hands each outcome back here.
use vstd::prelude::*;

use super::capabilities::{session_flags, Gen3dAiSessionState, Gen3dChatHistoryMessage};
use super::error::{
    background_unsupported, endpoint_unsupported, is_responses_background_unsupported,
    is_responses_endpoint_unsupported, is_stream_required, is_structured_outputs_rejected,
    is_transient_error, is_unsupported_previous_response_id, previous_response_id_unsupported,
    short_text, stream_required, structured_outputs_rejected, transient, OpenAiError,
};
use crate::text::{decimal, owned, push_decimal, push_str, trim, trim_chars};

verus! {

/// Retries after transient `/responses` failures (beyond the first attempt).
pub const MAX_RESPONSES_RETRIES: usize = 6;

/// Retries after transient `/chat/completions` failures (beyond the first attempt).
pub const MAX_CHAT_RETRIES: usize = 2;

/// The first delay before a transient retry, in milliseconds.
pub const INITIAL_RETRY_DELAY_MS: u64 = 250;

/// The longest delay between transient retries, in milliseconds.
pub const MAX_RETRY_DELAY_MS: u64 = 4000;

/// What one request attempt asks the provider for.
#[derive(Clone, Copy, Debug, PartialEq, Eq, Structural)]
pub struct RequestPlan {
    /// Ask for structured output with the expected JSON schema.
    pub use_schema: bool,
    /// Ask for background mode (`background` and `store`), `/responses` only.
    pub background: bool,
    /// Ask for a streamed reply.
    pub stream: bool,
}

/// What the caller does after an attempt.
#[derive(Debug, PartialEq, Eq)]
pub enum AttemptAction {
    /// The body is good; go on with it.
    Done,
    /// Send the next attempt at once (the session's flags were adjusted).
    RetryNow,
    /// Wait this long (stopping early when cancelled), then send the next attempt.
    RetryAfter { delay_ms: u64 },
    /// Give up with this error.
    Fail(OpenAiError),
}

/// The progress of one flow: the attempt number, the next transient-retry
/// delay, and the `/responses` continuation bookkeeping.
#[derive(Debug)]
pub struct FlowState {
    pub attempt: usize,
    pub max_attempts: usize,
    pub retry_delay_ms: u64,
    pub previous_response_id: Option<String>,
    pub attempted_previous_response_id: bool,
    pub success_used_previous_response_id: bool,
}

/// The delay that follows `d`: doubled, at most `MAX_RETRY_DELAY_MS`.
pub open spec fn next_delay(d: u64) -> u64 {
    if 2 * d > MAX_RETRY_DELAY_MS {
        MAX_RETRY_DELAY_MS
    } else {
        (2 * d) as u64
    }
}

/// The `/responses` request plan for a session.
pub open spec fn responses_plan_spec(
    s: Gen3dAiSessionState,
    has_schema: bool,
    require_structured_outputs: bool,
) -> RequestPlan {
    let use_schema = has_schema && (require_structured_outputs
        || s.responses_structured_outputs_supported != Some(false));
    RequestPlan {
        use_schema,
        background: use_schema && s.responses_background_supported != Some(false),
        stream: s.responses_stream_required == Some(true),
    }
}

/// The `/chat/completions` request plan for a session.
pub open spec fn chat_plan_spec(
    s: Gen3dAiSessionState,
    has_schema: bool,
    require_structured_outputs: bool,
) -> RequestPlan {
    RequestPlan {
        use_schema: has_schema && (require_structured_outputs || s.chat_structured_outputs_supported
            != Some(false)),
        background: false,
        stream: s.chat_stream_required == Some(true),
    }
}

/// How a failed `/responses` attempt is handled, in order of precedence.
pub enum ResponsesErrorStep {
    /// Cancelled: give up with the same error.
    Cancelled,
    /// Background mode rejected: retry without it.
    BackgroundOff,
    /// `previous_response_id` rejected: retry without continuation.
    ContinuationOff,
    /// Streaming demanded: retry streaming.
    StreamOn,
    /// No `/responses` endpoint: mark unsupported and give up.
    EndpointMissing,
    /// Structured outputs rejected while required: give up.
    StructuredRequired,
    /// Structured outputs rejected: retry without them.
    StructuredOff,
    /// Transient failure with attempts left: wait and retry.
    Transient,
    /// Anything else: give up, keeping `/responses` enabled.
    GiveUp,
}

/// The handling of a failed `/responses` attempt.
pub open spec fn responses_error_step(
    e: OpenAiError,
    plan: RequestPlan,
    st: FlowState,
    require_structured_outputs: bool,
) -> ResponsesErrorStep {
    if e.cancelled {
        ResponsesErrorStep::Cancelled
    } else if plan.background && background_unsupported(e) {
        ResponsesErrorStep::BackgroundOff
    } else if st.attempted_previous_response_id && previous_response_id_unsupported(e) {
        ResponsesErrorStep::ContinuationOff
    } else if !plan.stream && stream_required(e) {
        ResponsesErrorStep::StreamOn
    } else if endpoint_unsupported(e) {
        ResponsesErrorStep::EndpointMissing
    } else if plan.use_schema && structured_outputs_rejected(e) {
        if require_structured_outputs {
            ResponsesErrorStep::StructuredRequired
        } else {
            ResponsesErrorStep::StructuredOff
        }
    } else if st.attempt < st.max_attempts && (transient(e) || e.body_preview is None) {
        ResponsesErrorStep::Transient
    } else {
        ResponsesErrorStep::GiveUp
    }
}

/// The session's capability flags after a failed `/responses` attempt that
/// is handled by `step`.
pub open spec fn responses_error_flags(
    f0: crate::openai::capabilities::OpenAiCapabilityFlagsSnapshot,
    step: ResponsesErrorStep,
) -> crate::openai::capabilities::OpenAiCapabilityFlagsSnapshot {
    match step {
        ResponsesErrorStep::Cancelled => f0,
        ResponsesErrorStep::BackgroundOff => crate::openai::capabilities::OpenAiCapabilityFlagsSnapshot {
            responses_supported: Some(true),
            responses_background_supported: Some(false),
            ..f0
        },
        ResponsesErrorStep::ContinuationOff => crate::openai::capabilities::OpenAiCapabilityFlagsSnapshot {
            responses_supported: Some(true),
            responses_continuation_supported: Some(false),
            ..f0
        },
        ResponsesErrorStep::StreamOn => crate::openai::capabilities::OpenAiCapabilityFlagsSnapshot {
            responses_supported: Some(true),
            responses_stream_required: Some(true),
            ..f0
        },
        ResponsesErrorStep::EndpointMissing => crate::openai::capabilities::OpenAiCapabilityFlagsSnapshot {
            responses_supported: Some(false),
            ..f0
        },
        ResponsesErrorStep::StructuredRequired => crate::openai::capabilities::OpenAiCapabilityFlagsSnapshot {
            responses_structured_outputs_supported: Some(false),
            ..f0
        },
        ResponsesErrorStep::StructuredOff => crate::openai::capabilities::OpenAiCapabilityFlagsSnapshot {
            responses_structured_outputs_supported: Some(false),
            ..f0
        },
        ResponsesErrorStep::Transient => f0,
        ResponsesErrorStep::GiveUp => crate::openai::capabilities::OpenAiCapabilityFlagsSnapshot {
            responses_supported: Some(true),
            ..f0
        },
    }
}

/// The handlings that send the next attempt at once.
pub open spec fn retries_now(step: ResponsesErrorStep) -> bool {
    step is BackgroundOff || step is ContinuationOff || step is StreamOn || step is StructuredOff
}

/// The `/responses` request plan for given capability flags.
pub open spec fn plan_for_flags(
    f: crate::openai::capabilities::OpenAiCapabilityFlagsSnapshot,
    has_schema: bool,
    require_structured_outputs: bool,
) -> RequestPlan {
    let use_schema = has_schema && (require_structured_outputs
        || f.responses_structured_outputs_supported != Some(false));
    RequestPlan {
        use_schema,
        background: use_schema && f.responses_background_supported != Some(false),
        stream: f.responses_stream_required == Some(true),
    }
}

/// How a failed `/chat/completions` attempt is handled, in order of precedence.
pub enum ChatErrorStep {
    Cancelled,
    StreamOn,
    StructuredRequired,
    StructuredOff,
    Transient,
    GiveUp,
}

/// The handling of a failed `/chat/completions` attempt.
pub open spec fn chat_error_step(
    e: OpenAiError,
    plan: RequestPlan,
    st: FlowState,
    require_structured_outputs: bool,
) -> ChatErrorStep {
    if e.cancelled {
        ChatErrorStep::Cancelled
    } else if !plan.stream && stream_required(e) {
        ChatErrorStep::StreamOn
    } else if plan.use_schema && structured_outputs_rejected(e) {
        if require_structured_outputs {
            ChatErrorStep::StructuredRequired
        } else {
            ChatErrorStep::StructuredOff
        }
    } else if st.attempt < st.max_attempts && (transient(e) || e.body_preview is None) {
        ChatErrorStep::Transient
    } else {
        ChatErrorStep::GiveUp
    }
}

/// The summary of the error given when structured outputs are required but
/// were rejected.
pub open spec fn structured_required_summary(e: OpenAiError) -> Seq<char> {
    "Structured outputs required, but provider rejected them: "@ + short_text(e)
}

/// Only the `/responses` "supported" flag and the named flag may differ.
pub open spec fn others_same(a: Gen3dAiSessionState, b: Gen3dAiSessionState) -> bool {
    a.responses_previous_id == b.responses_previous_id && a.chat_history == b.chat_history
}

/// The flow state before the first `/responses` attempt: continuation is used
/// when the session has a previous response id and continuation is not known
/// to be unsupported.
pub fn responses_flow_start(session: &Gen3dAiSessionState) -> (st: FlowState)
    ensures
        st.attempt == 0,
        st.max_attempts == 1 + MAX_RESPONSES_RETRIES,
        st.retry_delay_ms == INITIAL_RETRY_DELAY_MS,
        st.previous_response_id == (if session.responses_continuation_supported == Some(false) {
            None
        } else {
            session.responses_previous_id
        }),
        st.attempted_previous_response_id == st.previous_response_id is Some,
        st.success_used_previous_response_id == st.attempted_previous_response_id,
{
    let previous = if session.responses_continuation_supported == Some(false) {
        None
    } else {
        match &session.responses_previous_id {
            Some(id) => Some(id.clone()),
            None => None,
        }
    };
    let attempted = previous.is_some();
    FlowState {
        attempt: 0,
        max_attempts: 1 + MAX_RESPONSES_RETRIES,
        retry_delay_ms: INITIAL_RETRY_DELAY_MS,
        previous_response_id: previous,
        attempted_previous_response_id: attempted,
        success_used_previous_response_id: attempted,
    }
}

/// The flow state before the first `/chat/completions` attempt.
pub fn chat_flow_start() -> (st: FlowState)
    ensures
        st.attempt == 0,
        st.max_attempts == 1 + MAX_CHAT_RETRIES,
        st.retry_delay_ms == INITIAL_RETRY_DELAY_MS,
        st.previous_response_id is None,
        !st.attempted_previous_response_id,
        !st.success_used_previous_response_id,
{
    FlowState {
        attempt: 0,
        max_attempts: 1 + MAX_CHAT_RETRIES,
        retry_delay_ms: INITIAL_RETRY_DELAY_MS,
        previous_response_id: None,
        attempted_previous_response_id: false,
        success_used_previous_response_id: false,
    }
}

/// Counts the next attempt (saturating).
pub fn begin_attempt(st: &mut FlowState)
    ensures
        final(st).attempt == if old(st).attempt == usize::MAX {
            usize::MAX
        } else {
            (old(st).attempt + 1) as usize
        },
        final(st).max_attempts == old(st).max_attempts,
        final(st).retry_delay_ms == old(st).retry_delay_ms,
        final(st).previous_response_id == old(st).previous_response_id,
        final(st).attempted_previous_response_id == old(st).attempted_previous_response_id,
        final(st).success_used_previous_response_id == old(
            st,
        ).success_used_previous_response_id,
{
    if st.attempt < usize::MAX {
        st.attempt = st.attempt + 1;
    }
}

/// What the next `/responses` attempt asks for.
pub fn responses_request_plan(
    session: &Gen3dAiSessionState,
    has_schema: bool,
    require_structured_outputs: bool,
) -> (p: RequestPlan)
    ensures
        p == responses_plan_spec(*session, has_schema, require_structured_outputs),
{
    let use_schema = has_schema && (require_structured_outputs
        || session.responses_structured_outputs_supported != Some(false));
    RequestPlan {
        use_schema,
        background: use_schema && session.responses_background_supported != Some(false),
        stream: session.responses_stream_required == Some(true),
    }
}

/// What the next `/chat/completions` attempt asks for.
pub fn chat_request_plan(
    session: &Gen3dAiSessionState,
    has_schema: bool,
    require_structured_outputs: bool,
) -> (p: RequestPlan)
    ensures
        p == chat_plan_spec(*session, has_schema, require_structured_outputs),
{
    RequestPlan {
        use_schema: has_schema && (require_structured_outputs
            || session.chat_structured_outputs_supported != Some(false)),
        background: false,
        stream: session.chat_stream_required == Some(true),
    }
}

fn next_delay_exec(d: u64) -> (r: u64)
    ensures
        r == next_delay(d),
{
    if d > MAX_RETRY_DELAY_MS / 2 {
        MAX_RETRY_DELAY_MS
    } else {
        2 * d
    }
}

fn structured_required_error(err: &OpenAiError) -> (e: OpenAiError)
    ensures
        e.summary@ == structured_required_summary(*err),
        e.url@.len() == 0,
        e.status is None,
        e.body_preview is None,
        !e.cancelled,
{
    let mut summary = owned("Structured outputs required, but provider rejected them: ");
    let short = err.short();
    push_str(&mut summary, short.as_str());
    OpenAiError::new(summary)
}

/// Handles a `/responses` reply body. An empty (blank) body is retried once
/// with streaming; an empty streamed body marks `/responses` unsupported.
/// Otherwise what the attempt asked for is recorded as supported.
pub fn responses_on_body(
    session: &mut Gen3dAiSessionState,
    plan: RequestPlan,
    body: &str,
) -> (act: AttemptAction)
    ensures
        others_same(*final(session), *old(session)),
        trim(body@).len() == 0 && !plan.stream ==> {
            &&& act is RetryNow
            &&& session_flags(*final(session)) == (crate::openai::capabilities::OpenAiCapabilityFlagsSnapshot {
                responses_supported: Some(true),
                responses_stream_required: Some(true),
                ..session_flags(*old(session))
            })
        },
        trim(body@).len() == 0 && plan.stream ==> {
            &&& act matches AttemptAction::Fail(e) && e.summary@
                == "/responses returned an empty body"@ && e.url@.len() == 0 && e.status is None
                && e.body_preview is None && !e.cancelled
            &&& session_flags(*final(session)) == (crate::openai::capabilities::OpenAiCapabilityFlagsSnapshot {
                responses_supported: Some(false),
                ..session_flags(*old(session))
            })
        },
        trim(body@).len() > 0 ==> {
            &&& act is Done
            &&& session_flags(*final(session)) == (crate::openai::capabilities::OpenAiCapabilityFlagsSnapshot {
                responses_supported: Some(true),
                responses_background_supported: if plan.background {
                    Some(true)
                } else {
                    old(session).responses_background_supported
                },
                responses_structured_outputs_supported: if plan.use_schema {
                    Some(true)
                } else {
                    old(session).responses_structured_outputs_supported
                },
                ..session_flags(*old(session))
            })
        },
{
    let t = trim_chars(body);
    if t.len() == 0 {
        if !plan.stream {
            session.responses_supported = Some(true);
            session.responses_stream_required = Some(true);
            return AttemptAction::RetryNow;
        }
        session.responses_supported = Some(false);
        return AttemptAction::Fail(OpenAiError::new(owned("/responses returned an empty body")));
    }
    session.responses_supported = Some(true);
    if plan.background {
        session.responses_background_supported = Some(true);
    }
    if plan.use_schema {
        session.responses_structured_outputs_supported = Some(true);
    }
    AttemptAction::Done
}

/// Handles a failed `/responses` attempt: adjusts what the session knows
/// about the provider and says whether and how to retry.
pub fn responses_on_error(
    session: &mut Gen3dAiSessionState,
    st: &mut FlowState,
    plan: RequestPlan,
    require_structured_outputs: bool,
    err: OpenAiError,
) -> (act: AttemptAction)
    ensures
        others_same(*final(session), *old(session)),
        final(st).attempt == old(st).attempt,
        final(st).max_attempts == old(st).max_attempts,
        final(st).attempted_previous_response_id == old(st).attempted_previous_response_id,
        session_flags(*final(session)) == responses_error_flags(
            session_flags(*old(session)),
            responses_error_step(err, plan, *old(st), require_structured_outputs),
        ),
        retries_now(responses_error_step(err, plan, *old(st), require_structured_outputs))
            <==> act is RetryNow,
        ({
            let f0 = session_flags(*old(session));
            let f1 = session_flags(*final(session));
            match responses_error_step(err, plan, *old(st), require_structured_outputs) {
                ResponsesErrorStep::Cancelled => act == AttemptAction::Fail(err) && f1 == f0
                    && *final(st) == *old(st),
                ResponsesErrorStep::BackgroundOff => act is RetryNow && f1 == (crate::openai::capabilities::OpenAiCapabilityFlagsSnapshot {
                    responses_supported: Some(true),
                    responses_background_supported: Some(false),
                    ..f0
                }) && *final(st) == *old(st),
                ResponsesErrorStep::ContinuationOff => act is RetryNow && f1 == (crate::openai::capabilities::OpenAiCapabilityFlagsSnapshot {
                    responses_supported: Some(true),
                    responses_continuation_supported: Some(false),
                    ..f0
                }) && final(st).previous_response_id is None
                    && !final(st).success_used_previous_response_id
                    && final(st).retry_delay_ms == old(st).retry_delay_ms,
                ResponsesErrorStep::StreamOn => act is RetryNow && f1 == (crate::openai::capabilities::OpenAiCapabilityFlagsSnapshot {
                    responses_supported: Some(true),
                    responses_stream_required: Some(true),
                    ..f0
                }) && *final(st) == *old(st),
                ResponsesErrorStep::EndpointMissing => act == AttemptAction::Fail(err) && f1
                    == (crate::openai::capabilities::OpenAiCapabilityFlagsSnapshot {
                    responses_supported: Some(false),
                    ..f0
                }) && *final(st) == *old(st),
                ResponsesErrorStep::StructuredRequired => (act matches AttemptAction::Fail(e)
                    && e.summary@ == structured_required_summary(err) && e.url@.len() == 0
                    && e.status is None && e.body_preview is None && !e.cancelled) && f1 == (crate::openai::capabilities::OpenAiCapabilityFlagsSnapshot {
                    responses_structured_outputs_supported: Some(false),
                    ..f0
                }) && *final(st) == *old(st),
                ResponsesErrorStep::StructuredOff => act is RetryNow && f1 == (crate::openai::capabilities::OpenAiCapabilityFlagsSnapshot {
                    responses_structured_outputs_supported: Some(false),
                    ..f0
                }) && *final(st) == *old(st),
                ResponsesErrorStep::Transient => act == (AttemptAction::RetryAfter {
                    delay_ms: old(st).retry_delay_ms,
                }) && f1 == f0 && final(st).retry_delay_ms == next_delay(old(st).retry_delay_ms)
                    && final(st).previous_response_id == old(st).previous_response_id
                    && final(st).success_used_previous_response_id == old(
                    st,
                ).success_used_previous_response_id,
                ResponsesErrorStep::GiveUp => act == AttemptAction::Fail(err) && f1 == (crate::openai::capabilities::OpenAiCapabilityFlagsSnapshot {
                    responses_supported: Some(true),
                    ..f0
                }) && *final(st) == *old(st),
            }
        }),
{
    if err.cancelled {
        return AttemptAction::Fail(err);
    }
    if plan.background && is_responses_background_unsupported(&err) {
        session.responses_supported = Some(true);
        session.responses_background_supported = Some(false);
        return AttemptAction::RetryNow;
    }
    if st.attempted_previous_response_id && is_unsupported_previous_response_id(&err) {
        session.responses_supported = Some(true);
        session.responses_continuation_supported = Some(false);
        st.success_used_previous_response_id = false;
        st.previous_response_id = None;
        return AttemptAction::RetryNow;
    }
    if !plan.stream && is_stream_required(&err) {
        session.responses_supported = Some(true);
        session.responses_stream_required = Some(true);
        return AttemptAction::RetryNow;
    }
    if is_responses_endpoint_unsupported(&err) {
        session.responses_supported = Some(false);
        return AttemptAction::Fail(err);
    }
    if plan.use_schema && is_structured_outputs_rejected(&err) {
        session.responses_structured_outputs_supported = Some(false);
        if require_structured_outputs {
            return AttemptAction::Fail(structured_required_error(&err));
        }
        return AttemptAction::RetryNow;
    }
    if st.attempt < st.max_attempts && (is_transient_error(&err) || err.body_preview.is_none()) {
        let delay = st.retry_delay_ms;
        st.retry_delay_ms = next_delay_exec(delay);
        return AttemptAction::RetryAfter { delay_ms: delay };
    }
    session.responses_supported = Some(true);
    AttemptAction::Fail(err)
}

/// Handles a `/chat/completions` reply body: structured output, when asked
/// for, is recorded as supported.
pub fn chat_on_body(session: &mut Gen3dAiSessionState, plan: RequestPlan) -> (act: AttemptAction)
    ensures
        others_same(*final(session), *old(session)),
        act is Done,
        session_flags(*final(session)) == (crate::openai::capabilities::OpenAiCapabilityFlagsSnapshot {
            chat_structured_outputs_supported: if plan.use_schema {
                Some(true)
            } else {
                old(session).chat_structured_outputs_supported
            },
            ..session_flags(*old(session))
        }),
{
    if plan.use_schema {
        session.chat_structured_outputs_supported = Some(true);
    }
    AttemptAction::Done
}

/// Handles a failed `/chat/completions` attempt.
pub fn chat_on_error(
    session: &mut Gen3dAiSessionState,
    st: &mut FlowState,
    plan: RequestPlan,
    require_structured_outputs: bool,
    err: OpenAiError,
) -> (act: AttemptAction)
    ensures
        others_same(*final(session), *old(session)),
        final(st).attempt == old(st).attempt,
        final(st).max_attempts == old(st).max_attempts,
        final(st).previous_response_id == old(st).previous_response_id,
        !err.cancelled && (plan.stream || !stream_required(err)) && plan.use_schema && structured_outputs_rejected(err)
            ==> final(session).chat_structured_outputs_supported == Some(false) && (if require_structured_outputs {
            act matches AttemptAction::Fail(e) && e.summary@ == structured_required_summary(err)
        } else {
            act is RetryNow
        }),
        ({
            let f0 = session_flags(*old(session));
            let f1 = session_flags(*final(session));
            match chat_error_step(err, plan, *old(st), require_structured_outputs) {
                ChatErrorStep::Cancelled => act == AttemptAction::Fail(err) && f1 == f0
                    && *final(st) == *old(st),
                ChatErrorStep::StreamOn => act is RetryNow && f1 == (crate::openai::capabilities::OpenAiCapabilityFlagsSnapshot {
                    chat_stream_required: Some(true),
                    ..f0
                }) && *final(st) == *old(st),
                ChatErrorStep::StructuredRequired => (act matches AttemptAction::Fail(e)
                    && e.summary@ == structured_required_summary(err) && e.url@.len() == 0
                    && e.status is None && e.body_preview is None && !e.cancelled) && f1 == (crate::openai::capabilities::OpenAiCapabilityFlagsSnapshot {
                    chat_structured_outputs_supported: Some(false),
                    ..f0
                }) && *final(st) == *old(st),
                ChatErrorStep::StructuredOff => act is RetryNow && f1 == (crate::openai::capabilities::OpenAiCapabilityFlagsSnapshot {
                    chat_structured_outputs_supported: Some(false),
                    ..f0
                }) && *final(st) == *old(st),
                ChatErrorStep::Transient => act == (AttemptAction::RetryAfter {
                    delay_ms: old(st).retry_delay_ms,
                }) && f1 == f0 && final(st).retry_delay_ms == next_delay(old(st).retry_delay_ms)
                    && final(st).success_used_previous_response_id == old(
                    st,
                ).success_used_previous_response_id
                    && final(st).attempted_previous_response_id == old(
                    st,
                ).attempted_previous_response_id,
                ChatErrorStep::GiveUp => act == AttemptAction::Fail(err) && f1 == f0 && *final(st)
                    == *old(st),
            }
        }),
{
    if err.cancelled {
        return AttemptAction::Fail(err);
    }
    if !plan.stream && is_stream_required(&err) {
        session.chat_stream_required = Some(true);
        return AttemptAction::RetryNow;
    }
    if plan.use_schema && is_structured_outputs_rejected(&err) {
        session.chat_structured_outputs_supported = Some(false);
        if require_structured_outputs {
            return AttemptAction::Fail(structured_required_error(&err));
        }
        return AttemptAction::RetryNow;
    }
    if st.attempt < st.max_attempts && (is_transient_error(&err) || err.body_preview.is_none()) {
        let delay = st.retry_delay_ms;
        st.retry_delay_ms = next_delay_exec(delay);
        return AttemptAction::RetryAfter { delay_ms: delay };
    }
    AttemptAction::Fail(err)
}

/// The next wait between polls of a pending `/responses` reply: doubled, at
/// most `max_ms`.
pub fn next_poll_delay(delay_ms: u64, max_ms: u64) -> (r: u64)
    ensures
        r == if 2 * delay_ms > max_ms {
            max_ms
        } else {
            (2 * delay_ms) as u64
        },
{
    if delay_ms > max_ms / 2 {
        if 2 * (delay_ms as u128) > max_ms as u128 {
            max_ms
        } else {
            (2 * delay_ms) as u64
        }
    } else {
        2 * delay_ms
    }
}

/// What to do when a `/responses` body is not a JSON envelope.
#[derive(Debug, PartialEq, Eq)]
pub enum UnparsedBodyAction {
    /// The streamed output text was already recovered; go on without the envelope.
    UseStreamText,
    /// Wait this long, then send one more attempt (and fail if it does not parse).
    RetryAfter { delay_ms: u64 },
    /// Give up.
    Fail,
}

/// Decides how an unparsable `/responses` body is handled.
pub fn responses_on_unparsed_body(st: &FlowState, has_stream_text: bool) -> (a: UnparsedBodyAction)
    ensures
        has_stream_text ==> a is UseStreamText,
        !has_stream_text && st.attempt < st.max_attempts ==> a == (UnparsedBodyAction::RetryAfter {
            delay_ms: st.retry_delay_ms,
        }),
        !has_stream_text && st.attempt >= st.max_attempts ==> a is Fail,
{
    if has_stream_text {
        UnparsedBodyAction::UseStreamText
    } else if st.attempt < st.max_attempts {
        UnparsedBodyAction::RetryAfter { delay_ms: st.retry_delay_ms }
    } else {
        UnparsedBodyAction::Fail
    }
}

/// Records a successful `/responses` reply in the session: continuation is
/// known to work when the request used it, and the reply id becomes the next
/// previous id. A reply recovered from a stream keeps the old id when it
/// carries none; a reply read from its JSON envelope always replaces it.
pub fn responses_finish(
    session: &mut Gen3dAiSessionState,
    st: &FlowState,
    reply_id: Option<String>,
    from_stream: bool,
)
    ensures
        session_flags(*final(session)) == (crate::openai::capabilities::OpenAiCapabilityFlagsSnapshot {
            responses_continuation_supported: if st.success_used_previous_response_id {
                Some(true)
            } else {
                old(session).responses_continuation_supported
            },
            ..session_flags(*old(session))
        }),
        final(session).responses_previous_id == if from_stream && reply_id is None {
            old(session).responses_previous_id
        } else {
            reply_id
        },
        final(session).chat_history == old(session).chat_history,
{
    if st.success_used_previous_response_id {
        session.responses_continuation_supported = Some(true);
    }
    if from_stream {
        if reply_id.is_some() {
            session.responses_previous_id = reply_id;
        }
    } else {
        session.responses_previous_id = reply_id;
    }
}

/// Appends the assistant's reply to the chat history and keeps only the
/// last `max_messages` messages.
pub fn push_chat_history(session: &mut Gen3dAiSessionState, text: String, max_messages: usize)
    ensures
        ({
            let h0 = old(session).chat_history@;
            let h1 = final(session).chat_history@;
            let n = h0.len() + 1;
            let keep = if n > max_messages { max_messages as int } else { n as int };
            &&& h1.len() == keep
            &&& forall|j: int| 0 <= j < keep - 1 ==> #[trigger] h1[j] == h0[n - keep + j]
            &&& keep > 0 ==> h1.last().role@ == "assistant"@ && h1.last().content == text
        }),
        session_flags(*final(session)) == session_flags(*old(session)),
        final(session).responses_previous_id == old(session).responses_previous_id,
{
    let msg = Gen3dChatHistoryMessage { role: owned("assistant"), content: text };
    session.chat_history.push(msg);
    let n = session.chat_history.len();
    if n > max_messages {
        let drop = n - max_messages;
        let tail = session.chat_history.split_off(drop);
        session.chat_history = tail;
    }
}

/// The error text for a request with more images than allowed.
pub fn too_many_images_message(count: usize, max: usize) -> (out: String)
    ensures
        out@ == "Too many images: "@ + decimal(count as nat) + " (max "@ + decimal(max as nat)
            + ")"@,
{
    let mut out = owned("Too many images: ");
    push_decimal(&mut out, count as u64);
    push_str(&mut out, " (max ");
    push_decimal(&mut out, max as u64);
    push_str(&mut out, ")");
    out
}

/// The error text when both endpoints failed.
pub fn both_endpoints_failed_message(responses: &OpenAiError, chat: &OpenAiError) -> (out: String)
    ensures
        out@ == "OpenAI request failed.\n/responses: "@ + short_text(*responses)
            + "\n/chat/completions: "@ + short_text(*chat) + "\n(See terminal logs for details.)"@,
{
    let mut out = owned("OpenAI request failed.\n/responses: ");
    let r = responses.short();
    push_str(&mut out, r.as_str());
    push_str(&mut out, "\n/chat/completions: ");
    let c = chat.short();
    push_str(&mut out, c.as_str());
    push_str(&mut out, "\n(See terminal logs for details.)");
    out
}

/// Whether `/responses` is tried at all: not when it is known to be unsupported.
pub fn should_try_responses(session: &Gen3dAiSessionState) -> (b: bool)
    ensures
        b == (session.responses_supported != Some(false)),
{
    session.responses_supported != Some(false)
}

// ---------------------------------------------------------------------------
// The sequence of a text request
// ---------------------------------------------------------------------------

/// What a text request does next.
#[derive(Clone, Debug, PartialEq, Eq)]
pub enum TextRequestStep {
    /// Give up with this error.
    Fail { message: String },
    /// Answer from the offline mock provider.
    UseMock,
    /// Ask the provider (after reading its known capabilities).
    UseProvider,
    /// Try `/responses`.
    TryResponses,
    /// Try `/chat/completions`, keeping why `/responses` gave no answer.
    TryChat { responses_error: OpenAiError },
}

/// The start of a text request: too many images or a cancellation stop it
/// (in that order); a `mock://gen3d` base url goes to the mock provider;
/// anything else goes to the provider.
pub fn text_request_begin(image_count: usize, max_images: usize, cancelled: bool, base_url: &str) -> (s: TextRequestStep)
    ensures
        image_count > max_images ==> (s matches TextRequestStep::Fail { message } && message@
            == "Too many images: "@ + decimal(image_count as nat) + " (max "@ + decimal(max_images as nat) + ")"@),
        image_count <= max_images && cancelled ==> (s matches TextRequestStep::Fail { message } && message@
            == "Cancelled"@),
        image_count <= max_images && !cancelled && crate::text::has_prefix(base_url@, "mock://gen3d"@) ==> s
            is UseMock,
        image_count <= max_images && !cancelled && !crate::text::has_prefix(base_url@, "mock://gen3d"@) ==> s
            is UseProvider,
{
    if image_count > max_images {
        return TextRequestStep::Fail { message: too_many_images_message(image_count, max_images) };
    }
    if cancelled {
        return TextRequestStep::Fail { message: owned("Cancelled") };
    }
    let url = crate::text::chars_of(base_url);
    if crate::text::starts_with(&url, "mock://gen3d") {
        TextRequestStep::UseMock
    } else {
        TextRequestStep::UseProvider
    }
}

/// The first endpoint a provider request tries: `/responses`, unless the
/// session knows it is unsupported, in which case `/chat/completions`.
pub fn text_request_first_endpoint(session: &Gen3dAiSessionState) -> (s: TextRequestStep)
    ensures
        session.responses_supported != Some(false) ==> s is TryResponses,
        session.responses_supported == Some(false) ==> (s matches TextRequestStep::TryChat { responses_error }
            && responses_error.summary@ == "Responses API not supported"@ && responses_error.url@.len() == 0
            && responses_error.status is None && responses_error.body_preview is None && !responses_error.cancelled),
{
    if should_try_responses(session) {
        TextRequestStep::TryResponses
    } else {
        TextRequestStep::TryChat { responses_error: OpenAiError::new(owned("Responses API not supported")) }
    }
}

/// After `/responses` failed: a cancellation ends the request; any other
/// error falls back to `/chat/completions`.
pub fn text_request_after_responses(err: OpenAiError) -> (s: TextRequestStep)
    ensures
        err.cancelled ==> (s matches TextRequestStep::Fail { message } && message@ == "Cancelled"@),
        !err.cancelled ==> s == (TextRequestStep::TryChat { responses_error: err }),
{
    if err.cancelled {
        TextRequestStep::Fail { message: owned("Cancelled") }
    } else {
        TextRequestStep::TryChat { responses_error: err }
    }
}

/// The error of a text request after `/chat/completions` failed too:
/// `Cancelled` for a cancellation, else both endpoints' errors.
pub fn text_request_after_chat(responses_error: &OpenAiError, chat_error: &OpenAiError) -> (m: String)
    ensures
        chat_error.cancelled ==> m@ == "Cancelled"@,
        !chat_error.cancelled ==> m@ == "OpenAI request failed.\n/responses: "@ + short_text(*responses_error)
            + "\n/chat/completions: "@ + short_text(*chat_error) + "\n(See terminal logs for details.)"@,
{
    if chat_error.cancelled {
        owned("Cancelled")
    } else {
        both_endpoints_failed_message(responses_error, chat_error)
    }
}

// ---------------------------------------------------------------------------
// Laws
// ---------------------------------------------------------------------------

/// The `/responses` plan of a session depends on its capability flags only.
pub proof fn lemma_plan_for_flags(s: Gen3dAiSessionState, has_schema: bool, require_structured_outputs: bool)
    ensures
        responses_plan_spec(s, has_schema, require_structured_outputs) == plan_for_flags(
            session_flags(s),
            has_schema,
            require_structured_outputs,
        ),
{
}

/// An immediate retry after a failed `/responses` attempt that adjusts the
/// session's flags (background mode or structured output rejected, streaming
/// demanded) never sends the same request again. (The other immediate retry
/// drops continuation, which `responses_on_error` clears from the flow
/// state.)
pub proof fn lemma_responses_retry_now_changes_request(
    f0: crate::openai::capabilities::OpenAiCapabilityFlagsSnapshot,
    st: FlowState,
    has_schema: bool,
    require_structured_outputs: bool,
    err: OpenAiError,
)
    requires
        ({
            let step = responses_error_step(
                err,
                plan_for_flags(f0, has_schema, require_structured_outputs),
                st,
                require_structured_outputs,
            );
            retries_now(step) && !(step is ContinuationOff)
        }),
    ensures
        ({
            let plan = plan_for_flags(f0, has_schema, require_structured_outputs);
            let step = responses_error_step(err, plan, st, require_structured_outputs);
            plan_for_flags(responses_error_flags(f0, step), has_schema, require_structured_outputs)
                != plan
        }),
{
}

/// A `/chat/completions` attempt that sent a schema the provider rejected
/// (and was neither cancelled nor refused for want of streaming) is never
/// given up as it stands: it is retried without structured outputs, or,
/// when they are required, fails with the error that says so.
pub proof fn lemma_chat_rejected_schema_is_dropped(
    e: OpenAiError,
    plan: RequestPlan,
    st: FlowState,
    require_structured_outputs: bool,
)
    requires
        !e.cancelled,
        plan.stream || !stream_required(e),
        plan.use_schema,
        structured_outputs_rejected(e),
    ensures
        require_structured_outputs ==> chat_error_step(e, plan, st, require_structured_outputs) is StructuredRequired,
        !require_structured_outputs ==> chat_error_step(e, plan, st, require_structured_outputs) is StructuredOff,
{
}

/// Transient-retry delays grow from the initial delay by doubling and never
/// pass the maximum.
pub proof fn lemma_retry_delay_bounded(d: u64)
    requires
        d <= MAX_RETRY_DELAY_MS,
    ensures
        d <= next_delay(d) <= MAX_RETRY_DELAY_MS,
        next_delay(d) == if 2 * d <= MAX_RETRY_DELAY_MS {
            2 * d
        } else {
            MAX_RETRY_DELAY_MS as int
        },
{
}

} // verus!
