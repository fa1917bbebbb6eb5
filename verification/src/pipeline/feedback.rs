//! Tooling feedback that the model sends about the generation tools.
use vstd::prelude::*;

use crate::text::{eq_str, lower, lower_chars, owned, string_from_chars, trim, trim_chars};

verus! {

/// The fields of a feedback entry as they are recorded.
#[derive(Clone, Debug, PartialEq, Eq)]
pub struct ToolingFeedbackFields {
    pub priority: String,
    pub title: String,
    pub summary: String,
}

/// The trimmed text, or `default` when it is empty.
pub open spec fn or_default(text: Seq<char>, default: Seq<char>) -> Seq<char> {
    if trim(text).len() == 0 {
        default
    } else {
        trim(text)
    }
}

/// The trimmed text, or `default` when it is empty.
fn trimmed_or(text: &str, default: &str) -> (out: String)
    ensures
        out@ == or_default(text@, default@),
{
    let t = trim_chars(text);
    if t.len() == 0 {
        owned(default)
    } else {
        string_from_chars(&t)
    }
}

/// The recorded fields of a feedback entry: priority, title and summary
/// trimmed, with `medium`, `Tooling feedback` and `No summary provided.` for
/// empty ones.
pub fn normalize_tooling_feedback_fields(priority: &str, title: &str, summary: &str) -> (out:
    ToolingFeedbackFields)
    ensures
        out.priority@ == or_default(priority@, "medium"@),
        out.title@ == or_default(title@, "Tooling feedback"@),
        out.summary@ == or_default(summary@, "No summary provided."@),
{
    ToolingFeedbackFields {
        priority: trimmed_or(priority, "medium"),
        title: trimmed_or(title, "Tooling feedback"),
        summary: trimmed_or(summary, "No summary provided."),
    }
}

/// Whether a feedback priority is `high` or `critical`, ignoring ASCII case
/// and surrounding whitespace; such feedback is reported as a warning.
pub fn is_urgent_tooling_priority(priority: &str) -> (b: bool)
    ensures
        b == (lower(trim(priority@)) == "high"@ || lower(trim(priority@)) == "critical"@),
{
    let p = lower_chars(&trim_chars(priority));
    eq_str(&p, "high") || eq_str(&p, "critical")
}

} // verus!
