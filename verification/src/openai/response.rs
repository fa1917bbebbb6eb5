//! Reading the parts of a provider's JSON reply that the request flow acts
//! on: the response status, the token usage, the error message, and the
//! events of a streamed (server-sent events) body.
use vstd::prelude::*;

use crate::json::{obj_get, obj_remove, Json, JsonNumber, JsonValue};
use crate::text::{
    chars_of, lemma_line_scan_push, line_scan, slice_chars, split_lines, string_from_chars, trim,
    trim_bounds, trim_str,
};

verus! {

// ---------------------------------------------------------------------------
// Specifications
// ---------------------------------------------------------------------------

/// The value of `key` when `j` is an object that has it (`Value::get`).
pub open spec fn field(j: Json, key: Seq<char>) -> Option<Json> {
    match j {
        Json::Obj(m) => if m.contains_key(key) {
            Some(m[key])
        } else {
            None
        },
        _ => None,
    }
}

/// The text of `key` when it is a string.
pub open spec fn str_field(j: Json, key: Seq<char>) -> Option<Seq<char>> {
    match field(j, key) {
        Some(Json::Str(s)) => Some(s),
        _ => None,
    }
}

/// A JSON number as an unsigned integer, when it is a non-negative integer.
pub open spec fn json_u64(j: Json) -> Option<u64> {
    match j {
        Json::Number(JsonNumber::PosInt(u)) => Some(u),
        Json::Number(JsonNumber::NegInt(i)) => if i >= 0 {
            Some(i as u64)
        } else {
            None
        },
        _ => None,
    }
}

/// The count under `key` of a usage object, 0 when missing.
pub open spec fn usage_count(usage: Json, key: Seq<char>) -> u64 {
    match field(usage, key) {
        Some(v) => match json_u64(v) {
            Some(n) => n,
            None => 0,
        },
        None => 0,
    }
}

/// `a + b`, saturating at `u64::MAX`.
pub open spec fn sat_add(a: u64, b: u64) -> u64 {
    if a + b > u64::MAX {
        u64::MAX
    } else {
        (a + b) as u64
    }
}

/// The total token count of a reply: `usage.total_tokens`, else the sum of
/// `input_tokens` and `output_tokens`, else the sum of `prompt_tokens` and
/// `completion_tokens`, whichever is first present and positive.
pub open spec fn total_tokens(j: Json) -> Option<u64> {
    match field(j, "usage"@) {
        None => None,
        Some(usage) => {
            let total = match field(usage, "total_tokens"@) {
                Some(v) => json_u64(v),
                None => None,
            };
            let io = sat_add(usage_count(usage, "input_tokens"@), usage_count(usage, "output_tokens"@));
            let pc = sat_add(
                usage_count(usage, "prompt_tokens"@),
                usage_count(usage, "completion_tokens"@),
            );
            if total is Some {
                total
            } else if io > 0 {
                Some(io)
            } else if pc > 0 {
                Some(pc)
            } else {
                None
            }
        },
    }
}

/// The trimmed `error.message` of a reply, when it is a non-empty string.
pub open spec fn error_message(j: Json) -> Option<Seq<char>> {
    match field(j, "error"@) {
        Some(e) => match str_field(e, "message"@) {
            Some(m) => if trim(m).len() > 0 {
                Some(trim(m))
            } else {
                None
            },
            None => None,
        },
        None => None,
    }
}

/// The response an event of a streamed reply carries: its `response` field,
/// or the event itself when it has `output` or `id`.
pub open spec fn sse_event_response(j: Json) -> Option<Json> {
    match field(j, "response"@) {
        Some(r) => Some(r),
        None => if field(j, "output"@) is Some || field(j, "id"@) is Some {
            Some(j)
        } else {
            None
        },
    }
}

/// The payload of a line of a streamed reply: what follows `data:`, trimmed,
/// unless it is empty or the end marker `[DONE]`.
pub open spec fn sse_payload(line: Seq<char>) -> Option<Seq<char>> {
    let t = trim(line);
    if t.len() >= 5 && t.take(5) == seq!['d', 'a', 't', 'a', ':'] {
        let d = trim(t.skip(5));
        if d.len() == 0 || d == seq!['[', 'D', 'O', 'N', 'E', ']'] {
            None
        } else {
            Some(d)
        }
    } else {
        None
    }
}

/// The payloads of the lines, in order.
pub open spec fn payloads(lines: Seq<Seq<char>>) -> Seq<Seq<char>>
    decreases lines.len(),
{
    if lines.len() == 0 {
        Seq::empty()
    } else {
        let acc = payloads(lines.drop_last());
        match sse_payload(lines.last()) {
            Some(d) => acc.push(d),
            None => acc,
        }
    }
}

// ---------------------------------------------------------------------------
// Executable readers
// ---------------------------------------------------------------------------

/// The `status` of a reply, when it is a string.
pub fn openai_response_status(json: &JsonValue) -> (r: Option<&String>)
    ensures
        match r {
            Some(s) => str_field(json.deep(), "status"@) == Some(s@),
            None => str_field(json.deep(), "status"@) is None,
        },
{
    match json {
        JsonValue::Object(entries) => match obj_get(entries, "status") {
            Some(JsonValue::String(s)) => Some(s),
            _ => None,
        },
        _ => None,
    }
}

/// Whether the reply's status says it is still being produced: `queued`,
/// `in_progress` or `cancelling`.
pub fn openai_response_has_pending_status(json: &JsonValue) -> (b: bool)
    ensures
        b == (str_field(json.deep(), "status"@) == Some("queued"@) || str_field(json.deep(), "status"@)
            == Some("in_progress"@) || str_field(json.deep(), "status"@) == Some("cancelling"@)),
{
    match openai_response_status(json) {
        Some(s) => {
            let cs = chars_of(s.as_str());
            crate::text::eq_str(&cs, "queued") || crate::text::eq_str(&cs, "in_progress")
                || crate::text::eq_str(&cs, "cancelling")
        },
        None => false,
    }
}

/// A JSON number as an unsigned integer, when it is a non-negative integer.
pub fn json_to_u64(value: &JsonValue) -> (r: Option<u64>)
    ensures
        r == json_u64(value.deep()),
{
    match value {
        JsonValue::Number(JsonNumber::PosInt(u)) => Some(*u),
        JsonValue::Number(JsonNumber::NegInt(i)) => {
            if *i >= 0 {
                Some(*i as u64)
            } else {
                None
            }
        },
        _ => None,
    }
}

/// The count under `key` of a usage value, 0 when missing.
fn usage_count_of(usage: &JsonValue, key: &str) -> (n: u64)
    ensures
        n == usage_count(usage.deep(), key@),
{
    match usage {
        JsonValue::Object(entries) => match obj_get(entries, key) {
            Some(v) => match json_to_u64(v) {
                Some(n) => n,
                None => 0,
            },
            None => 0,
        },
        _ => 0,
    }
}

/// The total token count a reply reports: `usage.total_tokens`, else
/// `input_tokens + output_tokens` (Responses API), else
/// `prompt_tokens + completion_tokens` (Chat Completions), the first present
/// and positive; sums saturate.
pub fn extract_openai_total_tokens(json: &JsonValue) -> (r: Option<u64>)
    ensures
        r == total_tokens(json.deep()),
{
    let usage = match json {
        JsonValue::Object(entries) => match obj_get(entries, "usage") {
            Some(u) => u,
            None => {
                return None;
            },
        },
        _ => {
            return None;
        },
    };
    let total = match usage {
        JsonValue::Object(entries) => match obj_get(entries, "total_tokens") {
            Some(v) => json_to_u64(v),
            None => None,
        },
        _ => None,
    };
    if let Some(value) = total {
        return Some(value);
    }
    let input = usage_count_of(usage, "input_tokens");
    let output = usage_count_of(usage, "output_tokens");
    let io = input.saturating_add(output);
    if io > 0 {
        return Some(io);
    }
    let prompt = usage_count_of(usage, "prompt_tokens");
    let completion = usage_count_of(usage, "completion_tokens");
    let pc = prompt.saturating_add(completion);
    if pc > 0 {
        return Some(pc);
    }
    None
}

/// The trimmed `error.message` of a reply, when it is a non-empty string.
pub fn openai_error_message(json: &JsonValue) -> (r: Option<String>)
    ensures
        match r {
            Some(m) => error_message(json.deep()) == Some(m@),
            None => error_message(json.deep()) is None,
        },
{
    let err = match json {
        JsonValue::Object(entries) => match obj_get(entries, "error") {
            Some(e) => e,
            None => {
                return None;
            },
        },
        _ => {
            return None;
        },
    };
    match err {
        JsonValue::Object(entries) => match obj_get(entries, "message") {
            Some(JsonValue::String(m)) => {
                let t = trim_str(m.as_str());
                if chars_of(t.as_str()).len() > 0 {
                    Some(t)
                } else {
                    None
                }
            },
            _ => None,
        },
        _ => None,
    }
}

/// The response an event of a streamed reply carries: its `response` field,
/// or the event itself when it has `output` or `id`; `None` otherwise.
pub fn openai_responses_sse_event(event: JsonValue) -> (r: Option<JsonValue>)
    ensures
        match r {
            Some(v) => sse_event_response(event.deep()) == Some(v.deep()),
            None => sse_event_response(event.deep()) is None,
        },
{
    let ghost ev = event.deep();
    match event {
        JsonValue::Object(mut entries) => {
            let ghost m0 = crate::json::entries_view(entries@);
            match obj_remove(&mut entries, "response") {
                Some(resp) => Some(resp),
                None => {
                    let ghost m = crate::json::entries_view(entries@);
                    proof {
                        assert(m =~= m0);
                    }
                    let has = obj_get(&entries, "output").is_some() || obj_get(&entries, "id").is_some();
                    if has {
                        Some(JsonValue::Object(entries))
                    } else {
                        None
                    }
                },
            }
        },
        _ => None,
    }
}

/// The payload of one line, as `sse_payload` describes it.
fn line_payload(line: &Vec<char>) -> (r: Option<String>)
    ensures
        match r {
            Some(d) => sse_payload(line@) == Some(d@),
            None => sse_payload(line@) is None,
        },
{
    let (a, b) = trim_bounds(line);
    let t = slice_chars(line, a, b);
    if t.len() >= 5 && t[0] == 'd' && t[1] == 'a' && t[2] == 't' && t[3] == 'a' && t[4] == ':' {
        proof {
            assert(t@.take(5) =~= seq!['d', 'a', 't', 'a', ':']);
        }
        let rest = slice_chars(&t, 5, t.len());
        proof {
            assert(rest@ =~= t@.skip(5));
        }
        let (c, d) = trim_bounds(&rest);
        let p = slice_chars(&rest, c, d);
        let done = p.len() == 6 && p[0] == '[' && p[1] == 'D' && p[2] == 'O' && p[3] == 'N' && p[4]
            == 'E' && p[5] == ']';
        proof {
            if done {
                assert(p@ =~= seq!['[', 'D', 'O', 'N', 'E', ']']);
            } else if p@.len() == 6 {
                assert(p@ != seq!['[', 'D', 'O', 'N', 'E', ']']) by {
                    if p@ == seq!['[', 'D', 'O', 'N', 'E', ']'] {
                        assert(p@[0] == '[' && p@[1] == 'D' && p@[2] == 'O' && p@[3] == 'N' && p@[4]
                            == 'E' && p@[5] == ']');
                    }
                }
            }
        }
        if p.len() == 0 || done {
            None
        } else {
            Some(string_from_chars(&p))
        }
    } else {
        proof {
            if t@.len() >= 5 && t@.take(5) == seq!['d', 'a', 't', 'a', ':'] {
                assert(t@.take(5)[0] == 'd' && t@.take(5)[1] == 'a' && t@.take(5)[2] == 't'
                    && t@.take(5)[3] == 'a' && t@.take(5)[4] == ':');
            }
        }
        None
    }
}

/// The data payloads of a streamed reply's lines, in order: each line is
/// trimmed, must start with `data:`, and its payload is trimmed; empty
/// payloads and the end marker `[DONE]` are skipped.
pub fn openai_sse_payloads(body: &str) -> (out: Vec<String>)
    ensures
        crate::text::strings_view(out@) == payloads(split_lines(body@)),
{
    let cs = chars_of(body);
    let mut out: Vec<String> = Vec::new();
    let mut cur: Vec<char> = Vec::new();
    let mut i: usize = 0;
    proof {
        assert(cs@.take(0) =~= Seq::<char>::empty());
        assert(crate::text::strings_view(out@) =~= Seq::<Seq<char>>::empty());
    }
    while i < cs.len()
        invariant
            i <= cs@.len(),
            cs@ == body@,
            line_scan(cs@.take(i as int)).1 == cur@,
            crate::text::strings_view(out@) == payloads(line_scan(cs@.take(i as int)).0),
        decreases cs.len() - i,
    {
        let c = cs[i];
        proof {
            assert(cs@.take(i + 1) =~= cs@.take(i as int).push(c));
            lemma_line_scan_push(cs@.take(i as int), c);
        }
        if c == '\n' {
            let ghost done = line_scan(cs@.take(i as int)).0;
            proof {
                assert(done.push(cur@).drop_last() =~= done);
            }
            match line_payload(&cur) {
                Some(d) => {
                    let ghost acc = crate::text::strings_view(out@);
                    out.push(d);
                    proof {
                        assert(crate::text::strings_view(out@) =~= acc.push(out@.last()@));
                    }
                },
                None => {},
            }
            cur = Vec::new();
            proof {
                assert(cur@ =~= Seq::<char>::empty());
            }
        } else {
            cur.push(c);
        }
        i = i + 1;
    }
    proof {
        assert(cs@.take(i as int) =~= cs@);
        let done = line_scan(cs@).0;
        assert(split_lines(cs@).drop_last() =~= done);
        assert(split_lines(cs@).last() == cur@);
    }
    match line_payload(&cur) {
        Some(d) => {
            let ghost acc = crate::text::strings_view(out@);
            out.push(d);
            proof {
                assert(crate::text::strings_view(out@) =~= acc.push(out@.last()@));
            }
        },
        None => {},
    }
    out
}

} // verus!
