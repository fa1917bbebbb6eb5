//! Decisions around one HTTP exchange run through `curl`: how long to wait,
//! when to give up while waiting, and how the finished exchange becomes a
//! body or an error.
use vstd::prelude::*;

use crate::openai::error::OpenAiError;
use crate::pipeline::progress::{truncate_for_ui, truncated_for_ui};
use crate::text::{decimal, owned, push_decimal, push_str, trim, trim_str};

verus! {

/// Seconds allowed to open the connection.
pub const CURL_CONNECT_TIMEOUT_SECS: u32 = 15;

/// Seconds allowed before the first byte of the reply.
pub const CURL_FIRST_BYTE_TIMEOUT_SECS: u32 = 120;

/// Seconds allowed between two bytes of the reply.
pub const CURL_IDLE_TIMEOUT_SECS: u32 = 300;

/// Seconds allowed for the whole exchange.
pub const CURL_HARD_TIMEOUT_SECS_DEFAULT: u32 = 1200;

/// Seconds allowed for the whole exchange of a structured-output request
/// that does not run in the background.
pub const CURL_HARD_TIMEOUT_SECS_STRUCTURED: u32 = 1200;

/// The three waiting limits, in nanoseconds.
#[derive(Clone, Copy, Debug, PartialEq, Eq, Structural)]
pub struct CurlByteTimeouts {
    pub first_byte_ns: u64,
    pub idle_ns: u64,
    pub hard_ns: u64,
}

/// What to do after one look at a running exchange.
#[derive(Debug, PartialEq, Eq)]
pub enum CurlWaitDecision {
    /// The process has exited: collect its output.
    Exited,
    /// Cancellation was asked for: stop the process.
    Cancelled,
    /// A limit was passed: stop the process and report this summary.
    TimedOut(String),
    /// Look again after a short sleep.
    KeepWaiting,
}

/// Nanoseconds in a millisecond and in a second.
pub open spec fn ns_per_ms() -> int {
    1_000_000
}

pub open spec fn ns_per_sec() -> int {
    1_000_000_000
}

/// The summary of a passed limit, or none.
pub open spec fn timeout_summary(
    elapsed_ns: u64,
    saw_any_byte: bool,
    last_activity_ms: u64,
    t: CurlByteTimeouts,
) -> Option<Seq<char>> {
    let elapsed_ms = elapsed_ns as int / ns_per_ms();
    let since_last = if elapsed_ms >= last_activity_ms {
        elapsed_ms - last_activity_ms
    } else {
        0
    };
    if elapsed_ns > t.hard_ns {
        Some("curl timed out (hard cap "@ + decimal((t.hard_ns as int / ns_per_sec()) as nat) + "s)"@)
    } else if !saw_any_byte {
        if elapsed_ns > t.first_byte_ns {
            Some(
                "curl timed out waiting for first response byte ("@ + decimal(
                    (t.first_byte_ns as int / ns_per_sec()) as nat,
                ) + "s)"@,
            )
        } else {
            None
        }
    } else if since_last > t.idle_ns as int / ns_per_ms() {
        Some(
            "curl timed out waiting for more bytes (idle "@ + decimal(
                (t.idle_ns as int / ns_per_sec()) as nat,
            ) + "s)"@,
        )
    } else {
        None
    }
}

/// An error that carries only a summary, for `url`.
pub open spec fn plain_error(e: OpenAiError, url: Seq<char>, summary: Seq<char>) -> bool {
    &&& e.summary@ == summary
    &&& e.url@ == url
    &&& e.status is None
    &&& e.body_preview is None
    &&& !e.cancelled
}

/// The hard limit for a request, in seconds.
pub fn curl_hard_timeout_secs(structured: bool, background: bool) -> (s: u32)
    ensures
        s == if structured && !background {
            CURL_HARD_TIMEOUT_SECS_STRUCTURED
        } else {
            CURL_HARD_TIMEOUT_SECS_DEFAULT
        },
{
    if structured && !background {
        CURL_HARD_TIMEOUT_SECS_STRUCTURED
    } else {
        CURL_HARD_TIMEOUT_SECS_DEFAULT
    }
}

/// The decision after one look at a running exchange: an exited process is
/// collected; then cancellation wins; then the hard limit, the first-byte
/// limit (until a byte arrived) and the idle limit (after one did) are
/// checked in that order.
pub fn curl_wait_decision(
    exited: bool,
    cancelled: bool,
    elapsed_ns: u64,
    saw_any_byte: bool,
    last_activity_ms: u64,
    timeouts: CurlByteTimeouts,
) -> (d: CurlWaitDecision)
    ensures
        exited ==> d is Exited,
        !exited && cancelled ==> d is Cancelled,
        !exited && !cancelled ==> match timeout_summary(elapsed_ns, saw_any_byte, last_activity_ms, timeouts) {
            Some(s) => (d matches CurlWaitDecision::TimedOut(m) && m@ == s),
            None => d is KeepWaiting,
        },
{
    if exited {
        return CurlWaitDecision::Exited;
    }
    if cancelled {
        return CurlWaitDecision::Cancelled;
    }
    if elapsed_ns > timeouts.hard_ns {
        let mut m = owned("curl timed out (hard cap ");
        push_decimal(&mut m, timeouts.hard_ns / 1_000_000_000);
        push_str(&mut m, "s)");
        return CurlWaitDecision::TimedOut(m);
    }
    if !saw_any_byte {
        if elapsed_ns > timeouts.first_byte_ns {
            let mut m = owned("curl timed out waiting for first response byte (");
            push_decimal(&mut m, timeouts.first_byte_ns / 1_000_000_000);
            push_str(&mut m, "s)");
            return CurlWaitDecision::TimedOut(m);
        }
    } else {
        let elapsed_ms = elapsed_ns / 1_000_000;
        let since_last_ms = if elapsed_ms >= last_activity_ms {
            elapsed_ms - last_activity_ms
        } else {
            0
        };
        if since_last_ms > timeouts.idle_ns / 1_000_000 {
            let mut m = owned("curl timed out waiting for more bytes (idle ");
            push_decimal(&mut m, timeouts.idle_ns / 1_000_000_000);
            push_str(&mut m, "s)");
            return CurlWaitDecision::TimedOut(m);
        }
    }
    CurlWaitDecision::KeepWaiting
}

/// The error summary of an exchange stopped by a limit: the limit's summary
/// and the number of reply bytes, with the end of the error output (trimmed,
/// cut to 240 characters) when there was any.
pub fn curl_timeout_error_summary(summary: &str, stdout_bytes: u64, stderr_bytes: u64, stderr_text: &str) -> (out: String)
    ensures
        out@ == if stderr_bytes > 0 {
            summary@ + " (stdout_bytes="@ + decimal(stdout_bytes as nat) + ", stderr_tail="@ + truncated_for_ui(
                trim(stderr_text@),
                240,
            ) + ")"@
        } else {
            summary@ + " (stdout_bytes="@ + decimal(stdout_bytes as nat) + ")"@
        },
{
    let mut out = owned(summary);
    push_str(&mut out, " (stdout_bytes=");
    push_decimal(&mut out, stdout_bytes);
    if stderr_bytes > 0 {
        push_str(&mut out, ", stderr_tail=");
        let tail = trim_str(stderr_text);
        let cut = truncate_for_ui(tail.as_str(), 240);
        push_str(&mut out, cut.as_str());
    }
    push_str(&mut out, ")");
    out
}

/// The error of a `curl` process that exited with a failure status.
pub fn curl_exit_error(url: &str, stderr: &str) -> (e: OpenAiError)
    ensures
        plain_error(e, url@, "curl exited with non-zero status:\n"@ + stderr@),
{
    let mut summary = owned("curl exited with non-zero status:\n");
    push_str(&mut summary, stderr);
    OpenAiError { summary, url: owned(url), status: None, body_preview: None, cancelled: false }
}

/// The outcome of a finished exchange from its HTTP status and body: no
/// status is an error; a status outside 200..=299 is an `HTTP <code>` error
/// carrying the trimmed body cut to 1200 characters; otherwise the trimmed
/// body.
pub fn curl_http_result(url: &str, status: Option<u16>, body: &str) -> (r: Result<String, OpenAiError>)
    ensures
        match status {
            None => (r matches Err(e) && plain_error(e, url@, "Missing HTTP status marker in curl output."@)),
            Some(code) => if 200 <= code <= 299 {
                r matches Ok(b) && b@ == trim(body@)
            } else {
                r matches Err(e) && {
                    &&& e.summary@ == "HTTP "@ + decimal(code as nat)
                    &&& e.url@ == url@
                    &&& e.status == Some(code)
                    &&& e.body_preview matches Some(p) && p@ == truncated_for_ui(trim(body@), 1200)
                    &&& !e.cancelled
                }
            },
        },
{
    match status {
        None => Err(
            OpenAiError {
                summary: owned("Missing HTTP status marker in curl output."),
                url: owned(url),
                status: None,
                body_preview: None,
                cancelled: false,
            },
        ),
        Some(code) => {
            let trimmed = trim_str(body);
            if 200 <= code && code <= 299 {
                Ok(trimmed)
            } else {
                let mut summary = owned("HTTP ");
                push_decimal(&mut summary, code as u64);
                Err(
                    OpenAiError {
                        summary,
                        url: owned(url),
                        status: Some(code),
                        body_preview: Some(truncate_for_ui(trimmed.as_str(), 1200)),
                        cancelled: false,
                    },
                )
            }
        },
    }
}

} // verus!
