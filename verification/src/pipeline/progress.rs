//! Text shown in the progress line and in error previews.
use vstd::prelude::*;

use crate::text::{chars_of, owned, push_str, slice_chars, string_from_chars};

verus! {

/// The text cut to `max_chars` characters, marked as truncated when cut.
pub open spec fn truncated_for_ui(text: Seq<char>, max_chars: nat) -> Seq<char> {
    if text.len() <= max_chars {
        text
    } else {
        text.take(max_chars as int) + "…(truncated)"@
    }
}

/// Cuts `text` to at most `max_chars` characters; a cut text ends with
/// `…(truncated)`.
pub fn truncate_for_ui(text: &str, max_chars: usize) -> (out: String)
    ensures
        out@ == truncated_for_ui(text@, max_chars as nat),
{
    let cs = chars_of(text);
    if cs.len() <= max_chars {
        return owned(text);
    }
    let head = slice_chars(&cs, 0, max_chars);
    let mut out = string_from_chars(&head);
    push_str(&mut out, "…(truncated)");
    proof {
        assert(head@ =~= text@.take(max_chars as int));
    }
    out
}

} // verus!
