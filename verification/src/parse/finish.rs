//! The checks and tidying applied to a document once it has its shape: the
//! version it must carry, and the texts and lists of each kind of document
//! (trimmed names, lower-cased channels, capped lists).
use vstd::prelude::*;

use crate::json::{entries_view, lemma_seq_view, lemma_seq_view_push, obj_insert, obj_remove, seq_view, Json, JsonNumber, JsonValue};
use crate::parse::documents::{
    descriptor_tags, distinct_trimmed, joined, at_most, normalize_descriptor_name, normalize_descriptor_short,
    normalize_descriptor_tags, normalize_explicit_motion_channels, normalize_replace_channels, replace_channels,
};
use crate::parse::plan_json::take_json;
use crate::text::{decimal, lower, lower_chars, owned, push_decimal, push_str, string_from_chars, strings_view, trim, trim_chars, words};

verus! {

// ---------------------------------------------------------------------------
// The version value
// ---------------------------------------------------------------------------

/// The `version` of a document when it is an unsigned 32-bit integer.
pub open spec fn version_value(j: Json) -> Option<u32> {
    match j {
        Json::Obj(m) => if m.contains_key("version"@) {
            match m["version"@] {
                Json::Number(JsonNumber::PosInt(n)) => if n <= u32::MAX {
                    Some(n as u32)
                } else {
                    None
                },
                _ => None,
            }
        } else {
            None
        },
        _ => None,
    }
}

/// The error for a document whose version is another number.
pub open spec fn unsupported_version_message(document: Seq<char>, found: u32, expected: u32) -> Seq<char> {
    "Unsupported AI "@ + document + " version "@ + decimal(found as nat) + " (expected "@ + decimal(
        expected as nat,
    ) + ")"@
}

/// The error for a document whose version is not an unsigned 32-bit integer.
pub open spec fn version_type_message() -> Seq<char> {
    "AI JSON schema error: `version` must be an unsigned 32-bit integer"@
}

/// Checks the version a document carries: it succeeds exactly when the
/// version is `expected`.
pub fn check_document_version(json_value: &JsonValue, document: &str, expected: u32) -> (r: Result<(), String>)
    ensures
        r is Ok <==> version_value(json_value.deep()) == Some(expected),
        r matches Err(m) ==> m@ == (match version_value(json_value.deep()) {
            Some(n) => unsupported_version_message(document@, n, expected),
            None => version_type_message(),
        }),
{
    let found: Option<u32> = match json_value {
        JsonValue::Object(entries) => match crate::json::obj_get(entries, "version") {
            Some(JsonValue::Number(JsonNumber::PosInt(n))) => if *n <= 0xFFFF_FFFF {
                Some(*n as u32)
            } else {
                None
            },
            _ => None,
        },
        _ => None,
    };
    match found {
        Some(n) => if n == expected {
            Ok(())
        } else {
            let mut m = owned("Unsupported AI ");
            push_str(&mut m, document);
            push_str(&mut m, " version ");
            push_decimal(&mut m, n as u64);
            push_str(&mut m, " (expected ");
            push_decimal(&mut m, expected as u64);
            push_str(&mut m, ")");
            Err(m)
        },
        None => Err(owned("AI JSON schema error: `version` must be an unsigned 32-bit integer")),
    }
}

// ---------------------------------------------------------------------------
// Text fields
// ---------------------------------------------------------------------------

/// How a text field is tidied.
#[derive(Clone, Copy, Debug, PartialEq, Eq, Structural)]
pub enum TextFix {
    /// Trimmed.
    Trim,
    /// Trimmed and lower-cased.
    LowerTrim,
    /// Trimmed, and null when nothing is left.
    Optional,
    /// At most its first three words, joined by single spaces.
    DescriptorName,
    /// Its words joined by single spaces.
    DescriptorShort,
}

/// A text tidied.
pub open spec fn text_fixed(kind: TextFix, s: Seq<char>) -> Json {
    match kind {
        TextFix::Trim => Json::Str(trim(s)),
        TextFix::LowerTrim => Json::Str(lower(trim(s))),
        TextFix::Optional => if trim(s).len() == 0 {
            Json::Null
        } else {
            Json::Str(trim(s))
        },
        TextFix::DescriptorName => Json::Str(joined(at_most(words(s), 3), ' ')),
        TextFix::DescriptorShort => Json::Str(joined(words(s), ' ')),
    }
}

/// An object with its text field `key` tidied; anything else is unchanged.
pub open spec fn text_field_fixed(j: Json, key: Seq<char>, kind: TextFix) -> Json {
    match j {
        Json::Obj(m) => if m.contains_key(key) && m[key] is Str {
            Json::Obj(m.insert(key, text_fixed(kind, m[key]->Str_0)))
        } else {
            j
        },
        _ => j,
    }
}

fn fix_text(s: &String, kind: TextFix) -> (out: JsonValue)
    ensures
        out.deep() == text_fixed(kind, s@),
{
    match kind {
        TextFix::Trim => JsonValue::String(string_from_chars(&trim_chars(s.as_str()))),
        TextFix::LowerTrim => JsonValue::String(string_from_chars(&lower_chars(&trim_chars(s.as_str())))),
        TextFix::Optional => {
            let t = trim_chars(s.as_str());
            if t.len() == 0 {
                JsonValue::Null
            } else {
                JsonValue::String(string_from_chars(&t))
            }
        },
        TextFix::DescriptorName => JsonValue::String(normalize_descriptor_name(s.as_str())),
        TextFix::DescriptorShort => JsonValue::String(normalize_descriptor_short(s.as_str())),
    }
}

/// Tidies the text field `key` of an object (see `text_field_fixed`).
pub fn fix_text_field(v: &mut JsonValue, key: &str, kind: TextFix)
    ensures
        final(v).deep() == text_field_fixed(old(v).deep(), key@, kind),
{
    let val = take_json(v);
    let out = match val {
        JsonValue::Object(mut entries) => {
            let ghost m = entries_view(entries@);
            match obj_remove(&mut entries, key) {
                Some(JsonValue::String(s)) => {
                    let fixed = fix_text(&s, kind);
                    obj_insert(&mut entries, owned(key), fixed);
                    proof {
                        assert(m.remove(key@).insert(key@, text_fixed(kind, s@)) =~= m.insert(
                            key@,
                            text_fixed(kind, s@),
                        ));
                    }
                },
                Some(other) => {
                    let ghost od = other.deep();
                    obj_insert(&mut entries, owned(key), other);
                    proof {
                        assert(m.remove(key@).insert(key@, od) =~= m);
                    }
                },
                None => {
                    proof {
                        assert(m.remove(key@) =~= m);
                    }
                },
            }
            JsonValue::Object(entries)
        },
        other => other,
    };
    *v = out;
}

// ---------------------------------------------------------------------------
// Capped arrays
// ---------------------------------------------------------------------------

/// An object whose array field `key` keeps at most `max` items.
pub open spec fn array_field_capped(j: Json, key: Seq<char>, max: nat) -> Json {
    match j {
        Json::Obj(m) => if m.contains_key(key) && m[key] is Arr && m[key]->Arr_0.len() > max {
            Json::Obj(m.insert(key, Json::Arr(m[key]->Arr_0.take(max as int))))
        } else {
            j
        },
        _ => j,
    }
}

/// Keeps at most `max` items of the array field `key` of an object.
pub fn cap_array_field(v: &mut JsonValue, key: &str, max: usize)
    ensures
        final(v).deep() == array_field_capped(old(v).deep(), key@, max as nat),
{
    let val = take_json(v);
    let out = match val {
        JsonValue::Object(mut entries) => {
            let ghost m = entries_view(entries@);
            match obj_remove(&mut entries, key) {
                Some(JsonValue::Array(mut items)) => {
                    let ghost before = items@;
                    proof {
                        lemma_seq_view(before);
                    }
                    if items.len() > max {
                        items.truncate(max);
                        proof {
                            lemma_seq_view(items@);
                            assert(seq_view(items@) =~= seq_view(before).take(max as int));
                        }
                    }
                    let ghost nv = Json::Arr(seq_view(items@));
                    obj_insert(&mut entries, owned(key), JsonValue::Array(items));
                    proof {
                        assert(m.remove(key@).insert(key@, nv) =~= (if seq_view(before).len() > max {
                            m.insert(key@, Json::Arr(seq_view(before).take(max as int)))
                        } else {
                            m
                        }));
                    }
                },
                Some(other) => {
                    let ghost od = other.deep();
                    obj_insert(&mut entries, owned(key), other);
                    proof {
                        assert(m.remove(key@).insert(key@, od) =~= m);
                    }
                },
                None => {
                    proof {
                        assert(m.remove(key@) =~= m);
                    }
                },
            }
            JsonValue::Object(entries)
        },
        other => other,
    };
    *v = out;
}

// ---------------------------------------------------------------------------
// Lists of texts
// ---------------------------------------------------------------------------

/// How a list of texts is tidied.
#[derive(Clone, Copy, Debug, PartialEq, Eq, Structural)]
pub enum ListFix {
    /// Motion channels to replace: trimmed, lower-cased, sorted, distinct,
    /// at most 8.
    ReplaceChannels,
    /// Explicit motion channels: trimmed, non-empty, first occurrences.
    ExplicitChannels,
    /// Descriptor tags: normalized, sorted, distinct, at most 64.
    DescriptorTags,
}

/// A list of texts tidied.
pub open spec fn list_fixed(kind: ListFix, s: Seq<Seq<char>>) -> Seq<Seq<char>> {
    match kind {
        ListFix::ReplaceChannels => replace_channels(s),
        ListFix::ExplicitChannels => distinct_trimmed(s),
        ListFix::DescriptorTags => descriptor_tags(s),
    }
}

/// Every item is a text.
pub open spec fn all_texts(a: Seq<Json>) -> bool {
    forall|i: int| 0 <= i < a.len() ==> #[trigger] a[i] is Str
}

/// The texts of the items.
pub open spec fn texts_of(a: Seq<Json>) -> Seq<Seq<char>> {
    a.map_values(|x: Json| x->Str_0)
}

/// Texts as JSON items.
pub open spec fn text_items(s: Seq<Seq<char>>) -> Seq<Json> {
    s.map_values(|t: Seq<char>| Json::Str(t))
}

/// An object whose field `key`, a list of texts, is tidied; a field that is
/// not a list of texts is left as it is.
pub open spec fn list_field_fixed(j: Json, key: Seq<char>, kind: ListFix) -> Json {
    match j {
        Json::Obj(m) => if m.contains_key(key) && m[key] is Arr && all_texts(m[key]->Arr_0) {
            Json::Obj(m.insert(key, Json::Arr(text_items(list_fixed(kind, texts_of(m[key]->Arr_0))))))
        } else {
            j
        },
        _ => j,
    }
}

fn apply_list_fix(list: &Vec<String>, kind: ListFix) -> (out: Vec<String>)
    ensures
        strings_view(out@) == list_fixed(kind, strings_view(list@)),
{
    match kind {
        ListFix::ReplaceChannels => normalize_replace_channels(list),
        ListFix::ExplicitChannels => normalize_explicit_motion_channels(list),
        ListFix::DescriptorTags => normalize_descriptor_tags(list),
    }
}

/// The texts of the items when all of them are texts.
fn texts_of_items(items: &Vec<JsonValue>) -> (r: Option<Vec<String>>)
    ensures
        match r {
            Some(t) => all_texts(seq_view(items@)) && strings_view(t@) == texts_of(seq_view(items@)),
            None => !all_texts(seq_view(items@)),
        },
{
    proof {
        lemma_seq_view(items@);
    }
    let mut out: Vec<String> = Vec::new();
    let mut i: usize = 0;
    while i < items.len()
        invariant
            i <= items@.len(),
            seq_view(items@).len() == items@.len(),
            forall|t: int| 0 <= t < items@.len() ==> #[trigger] seq_view(items@)[t] == items@[t].deep(),
            out@.len() == i,
            forall|t: int| 0 <= t < i ==> (#[trigger] seq_view(items@)[t]) is Str,
            forall|t: int| 0 <= t < i ==> (#[trigger] out@[t])@ == seq_view(items@)[t]->Str_0,
        decreases items.len() - i,
    {
        match &items[i] {
            JsonValue::String(s) => {
                proof {
                    assert(seq_view(items@)[i as int] == items@[i as int].deep());
                }
                out.push(owned(s.as_str()));
            },
            _ => {
                proof {
                    assert(seq_view(items@)[i as int] == items@[i as int].deep());
                    assert(!(seq_view(items@)[i as int] is Str));
                }
                return None;
            },
        }
        i = i + 1;
    }
    proof {
        assert(all_texts(seq_view(items@)));
        assert(strings_view(out@) =~= texts_of(seq_view(items@)));
    }
    Some(out)
}

fn text_values(list: Vec<String>) -> (out: Vec<JsonValue>)
    ensures
        seq_view(out@) == text_items(strings_view(list@)),
{
    let ghost all = list@;
    let mut rest = list;
    let mut out: Vec<JsonValue> = Vec::new();
    let mut i: usize = 0;
    proof {
        assert(all.skip(0) =~= all);
        assert(seq_view(out@) =~= text_items(strings_view(all)).take(0));
    }
    assert(all.len() == rest.len());
    while rest.len() > 0
        invariant
            all.len() == i + rest@.len(),
            all.len() <= usize::MAX,
            rest@ == all.skip(i as int),
            seq_view(out@) == text_items(strings_view(all)).take(i as int),
        decreases rest.len(),
    {
        let t = rest.remove(0);
        proof {
            assert(all.skip(i + 1) =~= rest@);
            assert(all[i as int] == t);
        }
        let ghost out0 = out@;
        out.push(JsonValue::String(t));
        proof {
            lemma_seq_view_push(out0, JsonValue::String(t));
            assert(seq_view(out@) =~= text_items(strings_view(all)).take(i + 1));
        }
        i = i + 1;
    }
    proof {
        assert(text_items(strings_view(all)).take(i as int) =~= text_items(strings_view(all)));
    }
    out
}

/// Tidies the list of texts in field `key` of an object (see
/// `list_field_fixed`).
pub fn fix_list_field(v: &mut JsonValue, key: &str, kind: ListFix)
    ensures
        final(v).deep() == list_field_fixed(old(v).deep(), key@, kind),
{
    let val = take_json(v);
    let out = match val {
        JsonValue::Object(mut entries) => {
            let ghost m = entries_view(entries@);
            match obj_remove(&mut entries, key) {
                Some(JsonValue::Array(items)) => {
                    let ghost iv = Json::Arr(seq_view(items@));
                    match texts_of_items(&items) {
                        Some(texts) => {
                            let fixed = apply_list_fix(&texts, kind);
                            let values = text_values(fixed);
                            let ghost nv = Json::Arr(seq_view(values@));
                            obj_insert(&mut entries, owned(key), JsonValue::Array(values));
                            proof {
                                assert(m.remove(key@).insert(key@, nv) =~= m.insert(key@, nv));
                            }
                        },
                        None => {
                            obj_insert(&mut entries, owned(key), JsonValue::Array(items));
                            proof {
                                assert(m.remove(key@).insert(key@, iv) =~= m);
                            }
                        },
                    }
                },
                Some(other) => {
                    let ghost od = other.deep();
                    obj_insert(&mut entries, owned(key), other);
                    proof {
                        assert(m.remove(key@).insert(key@, od) =~= m);
                    }
                },
                None => {
                    proof {
                        assert(m.remove(key@) =~= m);
                    }
                },
            }
            JsonValue::Object(entries)
        },
        other => other,
    };
    *v = out;
}

// ---------------------------------------------------------------------------
// Motion-authoring targets and slots
// ---------------------------------------------------------------------------

/// A slot with its channel trimmed and lower-cased.
pub open spec fn slot_fixed(slot: Json) -> Json {
    text_field_fixed(slot, "channel"@, TextFix::LowerTrim)
}

/// An object whose array field `key` has each item tidied by `f`.
pub open spec fn items_mapped(j: Json, key: Seq<char>, f: spec_fn(Json) -> Json) -> Json {
    match j {
        Json::Obj(m) => if m.contains_key(key) && m[key] is Arr {
            Json::Obj(m.insert(key, Json::Arr(m[key]->Arr_0.map_values(f))))
        } else {
            j
        },
        _ => j,
    }
}

/// A target with its component trimmed, its node id trimmed (null when
/// blank), at most 32 slots, and each slot tidied.
pub open spec fn target_fixed(t: Json) -> Json {
    items_mapped(
        array_field_capped(
            text_field_fixed(text_field_fixed(t, "component"@, TextFix::Trim), "node_id"@, TextFix::Optional),
            "slots"@,
            32,
        ),
        "slots"@,
        |s: Json| slot_fixed(s),
    )
}

fn fix_slot(slot: &mut JsonValue)
    ensures
        final(slot).deep() == slot_fixed(old(slot).deep()),
{
    fix_text_field(slot, "channel", TextFix::LowerTrim);
}

/// Each item of a list tidied as a slot.
fn fix_each_slot(items: Vec<JsonValue>) -> (out: Vec<JsonValue>)
    ensures
        seq_view(out@) == seq_view(items@).map_values(|x: Json| slot_fixed(x)),
{
    let ghost all = items@;
    let mut rest = items;
    let mut out: Vec<JsonValue> = Vec::new();
    let mut i: usize = 0;
    proof {
        lemma_seq_view(all);
        assert(all.skip(0) =~= all);
        assert(seq_view(out@) =~= seq_view(all).map_values(|x: Json| slot_fixed(x)).take(0));
    }
    assert(all.len() == rest.len());
    while rest.len() > 0
        invariant
            all.len() == i + rest@.len(),
            all.len() <= usize::MAX,
            rest@ == all.skip(i as int),
            seq_view(all).len() == all.len(),
            forall|t: int| 0 <= t < all.len() ==> #[trigger] seq_view(all)[t] == all[t].deep(),
            seq_view(out@) == seq_view(all).map_values(|x: Json| slot_fixed(x)).take(i as int),
        decreases rest.len(),
    {
        let mut c = rest.remove(0);
        proof {
            assert(all.skip(i + 1) =~= rest@);
            assert(all[i as int] == c);
        }
        fix_slot(&mut c);
        let ghost out0 = out@;
        out.push(c);
        proof {
            lemma_seq_view_push(out0, c);
            assert(seq_view(out@) =~= seq_view(all).map_values(|x: Json| slot_fixed(x)).take(i + 1));
        }
        i = i + 1;
    }
    proof {
        assert(seq_view(all).map_values(|x: Json| slot_fixed(x)).take(i as int) =~= seq_view(all).map_values(
            |x: Json| slot_fixed(x),
        ));
    }
    out
}

/// Tidies each item of the array field `key` of an object as a slot.
fn fix_slots_in_field(v: &mut JsonValue, key: &str)
    ensures
        final(v).deep() == items_mapped(old(v).deep(), key@, |x: Json| slot_fixed(x)),
{
    let val = take_json(v);
    let out = match val {
        JsonValue::Object(mut entries) => {
            let ghost m = entries_view(entries@);
            match obj_remove(&mut entries, key) {
                Some(JsonValue::Array(items)) => {
                    let fixed = fix_each_slot(items);
                    let ghost nv = Json::Arr(seq_view(fixed@));
                    obj_insert(&mut entries, owned(key), JsonValue::Array(fixed));
                    proof {
                        assert(m.remove(key@).insert(key@, nv) =~= m.insert(key@, nv));
                    }
                },
                Some(other) => {
                    let ghost od = other.deep();
                    obj_insert(&mut entries, owned(key), other);
                    proof {
                        assert(m.remove(key@).insert(key@, od) =~= m);
                    }
                },
                None => {
                    proof {
                        assert(m.remove(key@) =~= m);
                    }
                },
            }
            JsonValue::Object(entries)
        },
        other => other,
    };
    *v = out;
}

fn fix_target(t: &mut JsonValue)
    ensures
        final(t).deep() == target_fixed(old(t).deep()),
{
    fix_text_field(t, "component", TextFix::Trim);
    fix_text_field(t, "node_id", TextFix::Optional);
    cap_array_field(t, "slots", 32);
    fix_slots_in_field(t, "slots");
}

/// Each item of a list tidied as a target.
fn fix_each_target(items: Vec<JsonValue>) -> (out: Vec<JsonValue>)
    ensures
        seq_view(out@) == seq_view(items@).map_values(|x: Json| target_fixed(x)),
{
    let ghost all = items@;
    let mut rest = items;
    let mut out: Vec<JsonValue> = Vec::new();
    let mut i: usize = 0;
    proof {
        lemma_seq_view(all);
        assert(all.skip(0) =~= all);
        assert(seq_view(out@) =~= seq_view(all).map_values(|x: Json| target_fixed(x)).take(0));
    }
    assert(all.len() == rest.len());
    while rest.len() > 0
        invariant
            all.len() == i + rest@.len(),
            all.len() <= usize::MAX,
            rest@ == all.skip(i as int),
            seq_view(all).len() == all.len(),
            forall|t: int| 0 <= t < all.len() ==> #[trigger] seq_view(all)[t] == all[t].deep(),
            seq_view(out@) == seq_view(all).map_values(|x: Json| target_fixed(x)).take(i as int),
        decreases rest.len(),
    {
        let mut c = rest.remove(0);
        proof {
            assert(all.skip(i + 1) =~= rest@);
            assert(all[i as int] == c);
        }
        fix_target(&mut c);
        let ghost out0 = out@;
        out.push(c);
        proof {
            lemma_seq_view_push(out0, c);
            assert(seq_view(out@) =~= seq_view(all).map_values(|x: Json| target_fixed(x)).take(i + 1));
        }
        i = i + 1;
    }
    proof {
        assert(seq_view(all).map_values(|x: Json| target_fixed(x)).take(i as int) =~= seq_view(all).map_values(
            |x: Json| target_fixed(x),
        ));
    }
    out
}

/// Tidies each item of the array field `key` of an object as a target.
fn fix_targets_in_field(v: &mut JsonValue, key: &str)
    ensures
        final(v).deep() == items_mapped(old(v).deep(), key@, |x: Json| target_fixed(x)),
{
    let val = take_json(v);
    let out = match val {
        JsonValue::Object(mut entries) => {
            let ghost m = entries_view(entries@);
            match obj_remove(&mut entries, key) {
                Some(JsonValue::Array(items)) => {
                    let fixed = fix_each_target(items);
                    let ghost nv = Json::Arr(seq_view(fixed@));
                    obj_insert(&mut entries, owned(key), JsonValue::Array(fixed));
                    proof {
                        assert(m.remove(key@).insert(key@, nv) =~= m.insert(key@, nv));
                    }
                },
                Some(other) => {
                    let ghost od = other.deep();
                    obj_insert(&mut entries, owned(key), other);
                    proof {
                        assert(m.remove(key@).insert(key@, od) =~= m);
                    }
                },
                None => {
                    proof {
                        assert(m.remove(key@) =~= m);
                    }
                },
            }
            JsonValue::Object(entries)
        },
        other => other,
    };
    *v = out;
}

// ---------------------------------------------------------------------------
// Documents
// ---------------------------------------------------------------------------

/// A document whose `applies_to` object has its run id and plan hash
/// trimmed.
pub open spec fn applies_to_fixed(j: Json) -> Json {
    match j {
        Json::Obj(m) => if m.contains_key("applies_to"@) {
            Json::Obj(
                m.insert(
                    "applies_to"@,
                    text_field_fixed(text_field_fixed(m["applies_to"@], "run_id"@, TextFix::Trim), "plan_hash"@, TextFix::Trim),
                ),
            )
        } else {
            j
        },
        _ => j,
    }
}

fn fix_applies_to(v: &mut JsonValue)
    ensures
        final(v).deep() == applies_to_fixed(old(v).deep()),
{
    let val = take_json(v);
    let out = match val {
        JsonValue::Object(mut entries) => {
            let ghost m = entries_view(entries@);
            match obj_remove(&mut entries, "applies_to") {
                Some(mut a) => {
                    fix_text_field(&mut a, "run_id", TextFix::Trim);
                    fix_text_field(&mut a, "plan_hash", TextFix::Trim);
                    let ghost nv = a.deep();
                    obj_insert(&mut entries, owned("applies_to"), a);
                    proof {
                        assert(m.remove("applies_to"@).insert("applies_to"@, nv) =~= m.insert("applies_to"@, nv));
                    }
                },
                None => {
                    proof {
                        assert(m.remove("applies_to"@) =~= m);
                    }
                },
            }
            JsonValue::Object(entries)
        },
        other => other,
    };
    *v = out;
}

/// A plan needs no tidying beyond its repairs.
pub open spec fn plan_finished(j: Json) -> Json {
    j
}

/// Checks that a plan document has version 8 and tidies it (see
/// `plan_finished`); on error the document is left as it was.
pub fn finish_ai_plan_json(json_value: &mut JsonValue) -> (r: Result<(), String>)
    ensures
        r is Ok <==> version_value(old(json_value).deep()) == Some(8u32),
        r matches Err(m) ==> *final(json_value) == *old(json_value) && m@ == (match version_value(
            old(json_value).deep(),
        ) {
            Some(n) => unsupported_version_message("plan"@, n, 8),
            None => version_type_message(),
        }),
        r is Ok ==> final(json_value).deep() == plan_finished(old(json_value).deep()),
{
    check_document_version(json_value, "plan", 8)?;
    Ok(())
}

/// A review delta with its `applies_to` run id and plan hash trimmed and at
/// most 64 actions.
pub open spec fn review_delta_finished(j: Json) -> Json {
    array_field_capped(applies_to_fixed(j), "actions"@, 64)
}

/// Checks that a review-delta document has version 1 and tidies it (see
/// `review_delta_finished`); on error the document is left as it was.
pub fn finish_ai_review_delta_json(json_value: &mut JsonValue) -> (r: Result<(), String>)
    ensures
        r is Ok <==> version_value(old(json_value).deep()) == Some(1u32),
        r matches Err(m) ==> *final(json_value) == *old(json_value) && m@ == (match version_value(
            old(json_value).deep(),
        ) {
            Some(n) => unsupported_version_message("review-delta"@, n, 1),
            None => version_type_message(),
        }),
        r is Ok ==> final(json_value).deep() == review_delta_finished(old(json_value).deep()),
{
    check_document_version(json_value, "review-delta", 1)?;
    fix_applies_to(json_value);
    cap_array_field(json_value, "actions", 64);
    Ok(())
}

/// A motion-authoring document with its reason trimmed, its channels to
/// replace tidied, at most 64 targets, and each target tidied.
pub open spec fn motion_authoring_finished(j: Json) -> Json {
    items_mapped(
        array_field_capped(
            list_field_fixed(text_field_fixed(j, "reason"@, TextFix::Trim), "replace_channels"@, ListFix::ReplaceChannels),
            "targets"@,
            64,
        ),
        "targets"@,
        |t: Json| target_fixed(t),
    )
}

/// Checks that a motion-authoring document has version 1 and tidies it (see
/// `motion_authoring_finished`); on error the document is left as it was.
pub fn finish_ai_motion_authoring_json(json_value: &mut JsonValue) -> (r: Result<(), String>)
    ensures
        r is Ok <==> version_value(old(json_value).deep()) == Some(1u32),
        r matches Err(m) ==> *final(json_value) == *old(json_value) && m@ == (match version_value(
            old(json_value).deep(),
        ) {
            Some(n) => unsupported_version_message("motion-authoring"@, n, 1),
            None => version_type_message(),
        }),
        r is Ok ==> final(json_value).deep() == motion_authoring_finished(old(json_value).deep()),
{
    check_document_version(json_value, "motion-authoring", 1)?;
    fix_text_field(json_value, "reason", TextFix::Trim);
    fix_list_field(json_value, "replace_channels", ListFix::ReplaceChannels);
    cap_array_field(json_value, "targets", 64);
    fix_targets_in_field(json_value, "targets");
    Ok(())
}

/// A prompt intent with its explicit motion channels tidied.
pub open spec fn prompt_intent_finished(j: Json) -> Json {
    list_field_fixed(j, "explicit_motion_channels"@, ListFix::ExplicitChannels)
}

/// Checks that a prompt-intent document has version 1 and tidies it (see
/// `prompt_intent_finished`); on error the document is left as it was.
pub fn finish_ai_prompt_intent_json(json_value: &mut JsonValue) -> (r: Result<(), String>)
    ensures
        r is Ok <==> version_value(old(json_value).deep()) == Some(1u32),
        r matches Err(m) ==> *final(json_value) == *old(json_value) && m@ == (match version_value(
            old(json_value).deep(),
        ) {
            Some(n) => unsupported_version_message("prompt-intent"@, n, 1),
            None => version_type_message(),
        }),
        r is Ok ==> final(json_value).deep() == prompt_intent_finished(old(json_value).deep()),
{
    check_document_version(json_value, "prompt-intent", 1)?;
    fix_list_field(json_value, "explicit_motion_channels", ListFix::ExplicitChannels);
    Ok(())
}

/// Descriptor metadata with its name cut to three words, its short text's
/// words joined by single spaces, and its tags tidied.
pub open spec fn descriptor_meta_finished(j: Json) -> Json {
    list_field_fixed(
        text_field_fixed(text_field_fixed(j, "name"@, TextFix::DescriptorName), "short"@, TextFix::DescriptorShort),
        "tags"@,
        ListFix::DescriptorTags,
    )
}

/// Checks that a descriptor-meta document has version 1 and tidies it (see
/// `descriptor_meta_finished`); on error the document is left as it was.
pub fn finish_ai_descriptor_meta_json(json_value: &mut JsonValue) -> (r: Result<(), String>)
    ensures
        r is Ok <==> version_value(old(json_value).deep()) == Some(1u32),
        r matches Err(m) ==> *final(json_value) == *old(json_value) && m@ == (match version_value(
            old(json_value).deep(),
        ) {
            Some(n) => unsupported_version_message("descriptor-meta"@, n, 1),
            None => version_type_message(),
        }),
        r is Ok ==> final(json_value).deep() == descriptor_meta_finished(old(json_value).deep()),
{
    check_document_version(json_value, "descriptor-meta", 1)?;
    fix_text_field(json_value, "name", TextFix::DescriptorName);
    fix_text_field(json_value, "short", TextFix::DescriptorShort);
    fix_list_field(json_value, "tags", ListFix::DescriptorTags);
    Ok(())
}

/// A draft needs no tidying here.
pub open spec fn draft_finished(j: Json) -> Json {
    j
}

/// Checks that a draft document has version 2 and tidies it (see
/// `draft_finished`); on error the document is left as it was.
pub fn finish_ai_draft_json(json_value: &mut JsonValue) -> (r: Result<(), String>)
    ensures
        r is Ok <==> version_value(old(json_value).deep()) == Some(2u32),
        r matches Err(m) ==> *final(json_value) == *old(json_value) && m@ == (match version_value(
            old(json_value).deep(),
        ) {
            Some(n) => unsupported_version_message("draft"@, n, 2),
            None => version_type_message(),
        }),
        r is Ok ==> final(json_value).deep() == draft_finished(old(json_value).deep()),
{
    check_document_version(json_value, "draft", 2)?;
    Ok(())
}

} // verus!
