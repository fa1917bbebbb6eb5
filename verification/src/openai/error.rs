//! The error value of one OpenAI request attempt, its one-line and detailed
//! renderings, and the classifiers that decide how a failed attempt is
//! retried.
use vstd::prelude::*;

use crate::text::{
    contains, contains_str, decimal, lower, lower_chars, chars_of, owned, push_decimal, push_str,
};

verus! {

/// What went wrong in one request attempt.
#[derive(Clone, Debug, PartialEq, Eq)]
pub struct OpenAiError {
    pub summary: String,
    pub url: String,
    pub status: Option<u16>,
    pub body_preview: Option<String>,
    pub cancelled: bool,
}

/// The text of `OpenAiError::short`.
pub open spec fn short_text(e: OpenAiError) -> Seq<char> {
    if e.url@.len() == 0 {
        e.summary@
    } else {
        match e.status {
            Some(code) => e.summary@ + " (url="@ + e.url@ + ", status="@ + decimal(code as nat)
                + ")"@,
            None => e.summary@ + " (url="@ + e.url@ + ")"@,
        }
    }
}

/// The text of `OpenAiError::detail`.
pub open spec fn detail_text(e: OpenAiError) -> Seq<char> {
    match e.body_preview {
        Some(p) => short_text(e) + "\nbody_preview: "@ + p@,
        None => short_text(e),
    }
}

/// The lowered body preview, when there is one.
pub open spec fn lowered_preview(e: OpenAiError) -> Seq<char> {
    lower(e.body_preview->0@)
}

/// The provider rejected the structured-output (JSON schema) request fields.
pub open spec fn structured_outputs_rejected(e: OpenAiError) -> bool {
    let p = lowered_preview(e);
    &&& (e.status == Some(400u16) || e.status == Some(404u16) || e.status == Some(422u16))
    &&& e.body_preview is Some
    &&& (contains(p, "response_format"@) || contains(p, "text.format"@) || (contains(p, "text"@)
        && contains(p, "format"@)) || contains(p, "json_schema"@) || contains(p, "schema"@))
    &&& (contains(p, "unsupported"@) || contains(p, "unknown field"@) || contains(
        p,
        "unrecognized field"@,
    ) || contains(p, "not supported"@) || contains(p, "invalid"@))
}

/// The provider demands `stream=true`.
pub open spec fn stream_required(e: OpenAiError) -> bool {
    let p = lowered_preview(e);
    &&& e.status == Some(400u16)
    &&& e.body_preview is Some
    &&& (contains(p, "stream must be set to true"@) || (contains(p, "stream"@) && contains(
        p,
        "must"@,
    ) && contains(p, "true"@)))
}

/// The provider does not accept `previous_response_id`.
pub open spec fn previous_response_id_unsupported(e: OpenAiError) -> bool {
    let p = lowered_preview(e);
    &&& e.status == Some(400u16)
    &&& e.body_preview is Some
    &&& contains(p, "previous_response_id"@)
    &&& (contains(p, "unsupported parameter"@) || contains(p, "unknown field"@) || contains(
        p,
        "unrecognized field"@,
    ) || contains(p, "not supported"@))
}

/// The provider does not accept background mode (`background`/`store`).
pub open spec fn background_unsupported(e: OpenAiError) -> bool {
    let p = lowered_preview(e);
    &&& e.status == Some(400u16)
    &&& e.body_preview is Some
    &&& (contains(p, "background"@) || contains(p, "store"@))
    &&& (contains(p, "unsupported parameter"@) || contains(p, "unknown field"@) || contains(
        p,
        "unrecognized field"@,
    ) || contains(p, "not supported"@) || contains(p, "invalid request"@))
}

/// The `/responses` endpoint itself is missing.
pub open spec fn endpoint_unsupported(e: OpenAiError) -> bool {
    e.status == Some(404u16) || e.status == Some(405u16) || e.status == Some(501u16)
}

/// A failure worth retrying: throttling, conflicts, server errors, or a
/// network-level timeout or connection failure.
pub open spec fn transient(e: OpenAiError) -> bool {
    match e.status {
        Some(code) if code == 408 || code == 409 || code == 425 || code == 429 => true,
        Some(code) if 500 <= code && code <= 599 => true,
        _ => {
            let s = lower(e.summary@);
            contains(s, "timed out"@) || contains(s, "timeout"@) || contains(s, "connection reset"@)
                || contains(s, "connection refused"@) || contains(s, "failed to connect"@)
        },
    }
}

impl OpenAiError {
    /// An error with only a summary.
    pub fn new(summary: String) -> (e: Self)
        ensures
            e.summary == summary,
            e.url@ == Seq::<char>::empty(),
            e.status is None,
            e.body_preview is None,
            !e.cancelled,
    {
        OpenAiError {
            summary,
            url: String::new(),
            status: None,
            body_preview: None,
            cancelled: false,
        }
    }

    /// The error of an attempt that was cancelled.
    pub fn cancelled(url: String) -> (e: Self)
        ensures
            e.summary@ == "Cancelled"@,
            e.url == url,
            e.status is None,
            e.body_preview is None,
            e.cancelled,
    {
        OpenAiError {
            summary: owned("Cancelled"),
            url,
            status: None,
            body_preview: None,
            cancelled: true,
        }
    }

    /// One line: the summary, with the url and status when there is a url.
    pub fn short(&self) -> (out: String)
        ensures
            out@ == short_text(*self),
    {
        let url = self.url.as_str();
        let url_chars = chars_of(url);
        if url_chars.len() == 0 {
            return owned(self.summary.as_str());
        }
        let mut out = owned(self.summary.as_str());
        push_str(&mut out, " (url=");
        push_str(&mut out, url);
        match self.status {
            Some(code) => {
                push_str(&mut out, ", status=");
                push_decimal(&mut out, code as u64);
                push_str(&mut out, ")");
            },
            None => {
                push_str(&mut out, ")");
            },
        }
        out
    }

    /// `short`, followed by the body preview when there is one.
    pub fn detail(&self) -> (out: String)
        ensures
            out@ == detail_text(*self),
    {
        let mut out = self.short();
        match &self.body_preview {
            Some(preview) => {
                push_str(&mut out, "\nbody_preview: ");
                push_str(&mut out, preview.as_str());
            },
            None => {},
        }
        out
    }
}

/// The lowered body preview of an error that has one.
fn lowered_preview_chars(err: &OpenAiError) -> (out: Vec<char>)
    requires
        err.body_preview is Some,
    ensures
        out@ == lowered_preview(*err),
{
    match &err.body_preview {
        Some(p) => {
            let cs = chars_of(p.as_str());
            lower_chars(&cs)
        },
        None => Vec::new(),
    }
}

/// Whether the provider rejected structured outputs (a 400/404/422 whose body
/// mentions the schema fields as unsupported, unknown or invalid).
pub fn is_structured_outputs_rejected(err: &OpenAiError) -> (b: bool)
    ensures
        b == structured_outputs_rejected(*err),
{
    match err.status {
        Some(400) | Some(404) | Some(422) => {},
        _ => {
            return false;
        },
    }
    if err.body_preview.is_none() {
        return false;
    }
    let p = lowered_preview_chars(err);
    let mentions_feature = contains_str(&p, "response_format") || contains_str(&p, "text.format")
        || (contains_str(&p, "text") && contains_str(&p, "format")) || contains_str(
        &p,
        "json_schema",
    ) || contains_str(&p, "schema");
    if !mentions_feature {
        return false;
    }
    contains_str(&p, "unsupported") || contains_str(&p, "unknown field") || contains_str(
        &p,
        "unrecognized field",
    ) || contains_str(&p, "not supported") || contains_str(&p, "invalid")
}

/// Whether the provider demands streaming (a 400 whose body says the stream
/// must be true).
pub fn is_stream_required(err: &OpenAiError) -> (b: bool)
    ensures
        b == stream_required(*err),
{
    if err.status != Some(400u16) {
        return false;
    }
    if err.body_preview.is_none() {
        return false;
    }
    let p = lowered_preview_chars(err);
    if contains_str(&p, "stream must be set to true") {
        return true;
    }
    contains_str(&p, "stream") && contains_str(&p, "must") && contains_str(&p, "true")
}

/// Whether the provider rejected `previous_response_id`.
pub fn is_unsupported_previous_response_id(err: &OpenAiError) -> (b: bool)
    ensures
        b == previous_response_id_unsupported(*err),
{
    if err.status != Some(400u16) {
        return false;
    }
    if err.body_preview.is_none() {
        return false;
    }
    let p = lowered_preview_chars(err);
    contains_str(&p, "previous_response_id") && (contains_str(&p, "unsupported parameter")
        || contains_str(&p, "unknown field") || contains_str(&p, "unrecognized field")
        || contains_str(&p, "not supported"))
}

/// Whether the provider rejected background mode.
pub fn is_responses_background_unsupported(err: &OpenAiError) -> (b: bool)
    ensures
        b == background_unsupported(*err),
{
    if err.status != Some(400u16) {
        return false;
    }
    if err.body_preview.is_none() {
        return false;
    }
    let p = lowered_preview_chars(err);
    (contains_str(&p, "background") || contains_str(&p, "store")) && (contains_str(
        &p,
        "unsupported parameter",
    ) || contains_str(&p, "unknown field") || contains_str(&p, "unrecognized field")
        || contains_str(&p, "not supported") || contains_str(&p, "invalid request"))
}

/// Whether the `/responses` endpoint does not exist (404, 405 or 501).
pub fn is_responses_endpoint_unsupported(err: &OpenAiError) -> (b: bool)
    ensures
        b == endpoint_unsupported(*err),
{
    match err.status {
        Some(404) | Some(405) | Some(501) => true,
        _ => false,
    }
}

/// Whether a failed attempt is worth retrying after a delay.
pub fn is_transient_error(err: &OpenAiError) -> (b: bool)
    ensures
        b == transient(*err),
        err.status matches Some(c) && (500 <= c <= 599 || c == 408 || c == 409 || c == 425 || c == 429) ==> b,
{
    match err.status {
        Some(code) if code == 408 || code == 409 || code == 425 || code == 429 => true,
        Some(code) if 500 <= code && code <= 599 => true,
        _ => {
            let cs = chars_of(err.summary.as_str());
            let s = lower_chars(&cs);
            contains_str(&s, "timed out") || contains_str(&s, "timeout") || contains_str(
                &s,
                "connection reset",
            ) || contains_str(&s, "connection refused") || contains_str(&s, "failed to connect")
        },
    }
}

/// Server errors (any status from 500 to 599) and the statuses 408, 409,
/// 425 and 429 are always worth retrying, whatever the error says.
pub proof fn lemma_retryable_statuses_are_transient(e: OpenAiError)
    requires
        e.status matches Some(c) && (500 <= c <= 599 || c == 408 || c == 409 || c == 425 || c == 429),
    ensures
        transient(e),
{
}

/// Another status is never transient by itself: the error is transient only
/// when its summary names a timeout or a connection failure.
pub proof fn lemma_other_statuses_go_by_summary(e: OpenAiError)
    requires
        e.status matches Some(c) && !(500 <= c <= 599 || c == 408 || c == 409 || c == 425 || c == 429),
        !contains(lower(e.summary@), "timed out"@),
        !contains(lower(e.summary@), "timeout"@),
        !contains(lower(e.summary@), "connection reset"@),
        !contains(lower(e.summary@), "connection refused"@),
        !contains(lower(e.summary@), "failed to connect"@),
    ensures
        !transient(e),
{
}

} // verus!
