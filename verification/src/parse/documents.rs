//! The steps shared by the readers of model-written documents (plans,
//! drafts, review deltas, prompt intents, descriptor metadata, motion
//! authoring): finding the JSON text in a reply, checking that a version is
//! present, repairing the document's shape, and tidying its string lists.
use vstd::prelude::*;

use crate::json::{entries_view, obj_get, Json, JsonValue};
use crate::parse::extract::{extract_json_object, last_object};
use crate::parse::plan_json::{
    collection_shapes, component_joint_fields, normalize_ai_nullable_string_field_allowing_array,
    normalize_ai_plan_collection_shapes, normalize_ai_plan_component_joint_fields,
    normalize_ai_plan_rig_motion_fields, normalize_ai_plan_top_level_fields, nullable_text_field,
    rig_motion_fields, top_level_fields,
};
use crate::parse::tokens::{descriptor_tag, normalize_descriptor_tag};
use crate::text::{
    split_words, words, lex_lt, lex_sorted, chars_of, decimal, is_ws, is_whitespace, lemma_to_set_push, lower, lower_chars, owned,
    push_decimal, push_str, sort_distinct_strings, sorted_set, string_from_chars, string_push,
    strings_view, trim, trim_chars, trim_str,
};

verus! {

// ---------------------------------------------------------------------------
// Specifications
// ---------------------------------------------------------------------------

/// The JSON text of a reply: its last `{...}` object, or the whole reply when
/// it has none, trimmed.
pub open spec fn reply_json(text: Seq<char>) -> Seq<char> {
    match last_object(text) {
        Some(o) => trim(o),
        None => trim(text),
    }
}

/// The document is an object with a `version` field.
pub open spec fn has_version(j: Json) -> bool {
    match j {
        Json::Obj(m) => m.contains_key("version"@),
        _ => false,
    }
}

/// The error for a document without a version.
pub open spec fn missing_version_message(document: Seq<char>, expected: u64) -> Seq<char> {
    "AI "@ + document + " JSON missing required `version` (expected "@ + decimal(expected as nat)
        + ")."@
}

/// A plan document after all its repairs, in the order they are made.
pub open spec fn prepared_plan(j: Json) -> Json {
    top_level_fields(component_joint_fields(rig_motion_fields(collection_shapes(j))))
}

/// A review-delta document after its repairs.
pub open spec fn prepared_review_delta(j: Json) -> Json {
    nullable_text_field(
        nullable_text_field(nullable_text_field(j, "summary"@), "notes_text"@),
        "notes"@,
    )
}

/// A motion-authoring document after its repairs.
pub open spec fn prepared_motion_authoring(j: Json) -> Json {
    nullable_text_field(nullable_text_field(j, "notes_text"@), "notes"@)
}

/// The trimmed, non-empty texts, each kept at its first occurrence.
pub open spec fn distinct_trimmed(s: Seq<Seq<char>>) -> Seq<Seq<char>>
    decreases s.len(),
{
    if s.len() == 0 {
        Seq::empty()
    } else {
        let acc = distinct_trimmed(s.drop_last());
        let t = trim(s.last());
        if t.len() == 0 || acc.contains(t) {
            acc
        } else {
            acc.push(t)
        }
    }
}

/// The normalized descriptor tags that are not blank, in order.
pub open spec fn tag_candidates(s: Seq<Seq<char>>) -> Seq<Seq<char>>
    decreases s.len(),
{
    if s.len() == 0 {
        Seq::empty()
    } else {
        let acc = tag_candidates(s.drop_last());
        let t = descriptor_tag(s.last());
        if trim(t).len() > 0 {
            acc.push(t)
        } else {
            acc
        }
    }
}

/// At most the first `n` elements.
pub open spec fn at_most<A>(s: Seq<A>, n: nat) -> Seq<A> {
    if s.len() <= n {
        s
    } else {
        s.take(n as int)
    }
}

/// The descriptor tags kept: the first 64 non-blank normalized tags, sorted,
/// each once.
pub open spec fn descriptor_tags(tags: Seq<Seq<char>>) -> Seq<Seq<char>> {
    sorted_set(at_most(tag_candidates(tags), 64).to_set())
}

/// The parts joined with `sep` between them.
pub open spec fn joined(parts: Seq<Seq<char>>, sep: char) -> Seq<char>
    decreases parts.len(),
{
    if parts.len() == 0 {
        Seq::empty()
    } else if parts.len() == 1 {
        parts[0]
    } else {
        joined(parts.drop_last(), sep).push(sep) + parts.last()
    }
}

/// The lower-cased trimmed channel names that are not empty, in order.
pub open spec fn channel_candidates(s: Seq<Seq<char>>) -> Seq<Seq<char>>
    decreases s.len(),
{
    if s.len() == 0 {
        Seq::empty()
    } else {
        let acc = channel_candidates(s.drop_last());
        let t = lower(trim(s.last()));
        if t.len() > 0 {
            acc.push(t)
        } else {
            acc
        }
    }
}

/// The channels a motion-authoring document replaces: the first eight of the
/// distinct non-empty lower-cased names in sorted order.
pub open spec fn replace_channels(s: Seq<Seq<char>>) -> Seq<Seq<char>> {
    at_most(sorted_set(channel_candidates(s).to_set()), 8)
}

// ---------------------------------------------------------------------------
// Steps
// ---------------------------------------------------------------------------

/// The JSON text to read from a model reply: the last `{...}` object in it,
/// or the whole reply when it has none, trimmed.
pub fn reply_json_text(text: &str) -> (out: String)
    ensures
        out@ == reply_json(text@),
{
    match extract_json_object(text) {
        Some(o) => trim_str(o.as_str()),
        None => trim_str(text),
    }
}

/// Checks that a parsed document has a `version` field; the error names the
/// document and the version it should have.
pub fn require_version(json_value: &JsonValue, document: &str, expected: u64) -> (r: Result<(), String>)
    ensures
        r is Ok <==> has_version(json_value.deep()),
        r matches Err(m) ==> m@ == missing_version_message(document@, expected),
{
    let present = match json_value {
        JsonValue::Object(entries) => obj_get(entries, "version").is_some(),
        _ => false,
    };
    if present {
        Ok(())
    } else {
        let mut m = owned("AI ");
        push_str(&mut m, document);
        push_str(&mut m, " JSON missing required `version` (expected ");
        push_decimal(&mut m, expected);
        push_str(&mut m, ").");
        Err(m)
    }
}

/// Checks and repairs a parsed plan: it must have a `version`; then its
/// collections are brought into array shape, rig articulation nodes are moved
/// into their components, component-level joints are moved into
/// `attach_to`, and unknown top-level fields are dropped. On error the value
/// is left as it was.
pub fn prepare_ai_plan_json(json_value: &mut JsonValue) -> (r: Result<(), String>)
    ensures
        r is Ok <==> has_version(old(json_value).deep()),
        r matches Err(m) ==> m@ == missing_version_message("plan"@, 8) && *final(json_value)
            == *old(json_value),
        r is Ok ==> final(json_value).deep() == prepared_plan(old(json_value).deep()),
{
    require_version(json_value, "plan", 8)?;
    normalize_ai_plan_collection_shapes(json_value);
    normalize_ai_plan_rig_motion_fields(json_value);
    normalize_ai_plan_component_joint_fields(json_value);
    normalize_ai_plan_top_level_fields(json_value);
    Ok(())
}

/// Checks and repairs a parsed review delta: it must have a `version`; then
/// `summary`, `notes_text` and `notes` are repaired as nullable text fields.
/// On error the value is left as it was.
pub fn prepare_ai_review_delta_json(json_value: &mut JsonValue) -> (r: Result<(), String>)
    ensures
        r is Ok <==> has_version(old(json_value).deep()),
        r matches Err(m) ==> m@ == missing_version_message("review-delta"@, 1) && *final(json_value)
            == *old(json_value),
        r is Ok ==> final(json_value).deep() == prepared_review_delta(old(json_value).deep()),
{
    require_version(json_value, "review-delta", 1)?;
    normalize_ai_nullable_string_field_allowing_array(json_value, "summary");
    normalize_ai_nullable_string_field_allowing_array(json_value, "notes_text");
    normalize_ai_nullable_string_field_allowing_array(json_value, "notes");
    Ok(())
}

/// Checks and repairs a parsed motion-authoring document: it must have a
/// `version`; then `notes_text` and `notes` are repaired as nullable text
/// fields. On error the value is left as it was.
pub fn prepare_ai_motion_authoring_json(json_value: &mut JsonValue) -> (r: Result<(), String>)
    ensures
        r is Ok <==> has_version(old(json_value).deep()),
        r matches Err(m) ==> m@ == missing_version_message("motion-authoring"@, 1)
            && *final(json_value) == *old(json_value),
        r is Ok ==> final(json_value).deep() == prepared_motion_authoring(old(json_value).deep()),
{
    require_version(json_value, "motion-authoring", 1)?;
    normalize_ai_nullable_string_field_allowing_array(json_value, "notes_text");
    normalize_ai_nullable_string_field_allowing_array(json_value, "notes");
    Ok(())
}

/// The explicit motion channels of a prompt intent, trimmed, without empty
/// names, each kept at its first occurrence.
pub fn normalize_explicit_motion_channels(channels: &Vec<String>) -> (out: Vec<String>)
    ensures
        strings_view(out@) == distinct_trimmed(strings_view(channels@)),
        strings_view(out@).no_duplicates(),
        forall|i: int| 0 <= i < out@.len() ==> {
            let c = #[trigger] strings_view(out@)[i];
            c.len() > 0 && trim(c) == c
        },
{
    let ghost all = strings_view(channels@);
    let mut out: Vec<String> = Vec::new();
    let mut i: usize = 0;
    proof {
        assert(all.take(0) =~= Seq::<Seq<char>>::empty());
        assert(strings_view(out@) =~= Seq::<Seq<char>>::empty());
    }
    while i < channels.len()
        invariant
            i <= channels@.len(),
            all == strings_view(channels@),
            strings_view(out@) == distinct_trimmed(all.take(i as int)),
        decreases channels.len() - i,
    {
        proof {
            assert(all.take(i + 1).drop_last() =~= all.take(i as int));
            assert(all.take(i + 1).last() == channels@[i as int]@);
        }
        let t = trim_str(channels[i].as_str());
        let blank = chars_of(t.as_str()).len() == 0;
        if !blank {
            let mut seen = false;
            let mut j: usize = 0;
            while j < out.len()
                invariant
                    j <= out@.len(),
                    seen == exists|k: int| 0 <= k < j && (#[trigger] out@[k])@ == t@,
                decreases out.len() - j,
            {
                if out[j] == t {
                    seen = true;
                }
                j = j + 1;
            }
            proof {
                let acc = strings_view(out@);
                if seen {
                    let k = choose|k: int| 0 <= k < j && (#[trigger] out@[k])@ == t@;
                    assert(acc[k] == t@);
                } else {
                    assert forall|k: int| 0 <= k < acc.len() implies acc[k] != t@ by {
                        assert(out@[k]@ == acc[k]);
                    }
                }
            }
            if !seen {
                let ghost acc = strings_view(out@);
                out.push(t);
                proof {
                    assert(strings_view(out@) =~= acc.push(t@));
                }
            }
        }
        i = i + 1;
    }
    proof {
        assert(all.take(i as int) =~= all);
        lemma_distinct_trimmed(all);
    }
    out
}

/// The kept channel names are distinct, non-empty and trimmed.
proof fn lemma_distinct_trimmed(s: Seq<Seq<char>>)
    ensures
        distinct_trimmed(s).no_duplicates(),
        forall|i: int| 0 <= i < distinct_trimmed(s).len() ==> {
            let c = #[trigger] distinct_trimmed(s)[i];
            c.len() > 0 && trim(c) == c
        },
    decreases s.len(),
{
    if s.len() > 0 {
        let acc = distinct_trimmed(s.drop_last());
        lemma_distinct_trimmed(s.drop_last());
        let t = trim(s.last());
        crate::text::lemma_trim_idempotent(s.last());
        let r = distinct_trimmed(s);
        if !(t.len() == 0 || acc.contains(t)) {
            assert(r == acc.push(t));
            assert forall|i: int, j: int| 0 <= i < r.len() && 0 <= j < r.len() && i != j implies r[i]
                != r[j] by {
                if i == acc.len() as int {
                    assert(r[j] == acc[j]);
                } else if j == acc.len() as int {
                    assert(r[i] == acc[i]);
                } else {
                    assert(r[i] == acc[i] && r[j] == acc[j]);
                }
            }
            assert forall|i: int| 0 <= i < r.len() implies {
                let c = #[trigger] r[i];
                c.len() > 0 && trim(c) == c
            } by {
                if i < acc.len() {
                    assert(r[i] == acc[i]);
                }
            }
        }
    }
}

/// The tags of descriptor metadata: each normalized as a descriptor tag,
/// blank ones dropped, the first 64 kept, then sorted with duplicates
/// removed.
pub fn normalize_descriptor_tags(tags: &Vec<String>) -> (out: Vec<String>)
    ensures
        strings_view(out@) == descriptor_tags(strings_view(tags@)),
        lex_sorted(strings_view(out@)),
        out@.len() <= 64,
{
    let ghost all = strings_view(tags@);
    let mut cands: Vec<String> = Vec::new();
    let mut i: usize = 0;
    proof {
        assert(all.take(0) =~= Seq::<Seq<char>>::empty());
        assert(strings_view(cands@) =~= Seq::<Seq<char>>::empty());
    }
    while i < tags.len()
        invariant
            i <= tags@.len(),
            all == strings_view(tags@),
            strings_view(cands@) == at_most(tag_candidates(all.take(i as int)), 64),
        decreases tags.len() - i,
    {
        proof {
            assert(all.take(i + 1).drop_last() =~= all.take(i as int));
            assert(all.take(i + 1).last() == tags@[i as int]@);
        }
        let t = normalize_descriptor_tag(tags[i].as_str());
        let blank = chars_of(trim_str(t.as_str()).as_str()).len() == 0;
        let ghost tc = tag_candidates(all.take(i as int));
        if !blank && cands.len() < 64 {
            let ghost acc = strings_view(cands@);
            cands.push(t);
            proof {
                assert(strings_view(cands@) =~= acc.push(t@));
                assert(tc.push(t@).len() <= 64);
            }
        } else if !blank {
            proof {
                assert(tc.push(t@).take(64) =~= tc.take(64));
            }
        }
        i = i + 1;
    }
    proof {
        assert(all.take(i as int) =~= all);
    }
    sort_distinct_strings(cands)
}

proof fn lemma_joined_push(parts: Seq<Seq<char>>, x: Seq<char>, sep: char)
    ensures
        joined(parts.push(x), sep) == if parts.len() == 0 {
            x
        } else {
            joined(parts, sep).push(sep) + x
        },
{
    assert(parts.push(x).drop_last() =~= parts);
}

/// The first `count` parts joined with single spaces.
fn join_words(parts: &Vec<String>, count: usize) -> (out: String)
    requires
        count <= parts@.len(),
    ensures
        out@ == joined(strings_view(parts@).take(count as int), ' '),
{
    let ghost all = strings_view(parts@);
    let mut out = String::new();
    let mut i: usize = 0;
    proof {
        assert(all.take(0) =~= Seq::<Seq<char>>::empty());
    }
    while i < count
        invariant
            i <= count <= parts@.len(),
            all == strings_view(parts@),
            out@ == joined(all.take(i as int), ' '),
        decreases count - i,
    {
        proof {
            assert(all.take(i + 1) =~= all.take(i as int).push(parts@[i as int]@));
            lemma_joined_push(all.take(i as int), parts@[i as int]@, ' ');
        }
        if i > 0 {
            string_push(&mut out, ' ');
        }
        let ghost before = out@;
        push_str(&mut out, parts[i].as_str());
        proof {
            if i == 0 {
                assert(before =~= Seq::<char>::empty());
                assert(out@ =~= parts@[0]@);
            }
        }
        i = i + 1;
    }
    out
}

/// The name of descriptor metadata: its first three words, separated by
/// single spaces.
pub fn normalize_descriptor_name(name: &str) -> (out: String)
    ensures
        out@ == joined(at_most(words(name@), 3), ' '),
{
    let ws = split_words(name);
    let count = if ws.len() < 3 {
        ws.len()
    } else {
        3
    };
    proof {
        if ws@.len() <= 3 {
            assert(strings_view(ws@).take(count as int) =~= strings_view(ws@));
        }
    }
    join_words(&ws, count)
}

/// The short description of descriptor metadata: its words separated by
/// single spaces.
pub fn normalize_descriptor_short(short: &str) -> (out: String)
    ensures
        out@ == joined(words(short@), ' '),
{
    let ws = split_words(short);
    proof {
        assert(strings_view(ws@).take(ws@.len() as int) =~= strings_view(ws@));
    }
    join_words(&ws, ws.len())
}

/// The channels a motion-authoring document replaces: trimmed and
/// lower-cased, empty names dropped, sorted with duplicates removed, at most
/// eight.
pub fn normalize_replace_channels(channels: &Vec<String>) -> (out: Vec<String>)
    ensures
        strings_view(out@) == replace_channels(strings_view(channels@)),
        lex_sorted(strings_view(out@)),
        out@.len() <= 8,
{
    let ghost all = strings_view(channels@);
    let mut cands: Vec<String> = Vec::new();
    let mut i: usize = 0;
    proof {
        assert(all.take(0) =~= Seq::<Seq<char>>::empty());
        assert(strings_view(cands@) =~= Seq::<Seq<char>>::empty());
    }
    while i < channels.len()
        invariant
            i <= channels@.len(),
            all == strings_view(channels@),
            strings_view(cands@) == channel_candidates(all.take(i as int)),
        decreases channels.len() - i,
    {
        proof {
            assert(all.take(i + 1).drop_last() =~= all.take(i as int));
            assert(all.take(i + 1).last() == channels@[i as int]@);
        }
        let t = lower_chars(&trim_chars(channels[i].as_str()));
        if t.len() > 0 {
            let ghost acc = strings_view(cands@);
            cands.push(string_from_chars(&t));
            proof {
                assert(strings_view(cands@) =~= acc.push(t@));
            }
        }
        i = i + 1;
    }
    proof {
        assert(all.take(i as int) =~= all);
    }
    let mut sorted = sort_distinct_strings(cands);
    let ghost sv = strings_view(sorted@);
    sorted.truncate(8);
    proof {
        if sv.len() <= 8 {
            assert(strings_view(sorted@) =~= sv);
        } else {
            assert(strings_view(sorted@) =~= sv.take(8));
            assert forall|a: int, b: int| 0 <= a < b < strings_view(sorted@).len() implies lex_lt(
                #[trigger] strings_view(sorted@)[a],
                #[trigger] strings_view(sorted@)[b],
            ) by {
                assert(strings_view(sorted@)[a] == sv[a] && strings_view(sorted@)[b] == sv[b]);
            }
        }
    }
    sorted
}

} // verus!
