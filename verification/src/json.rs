//! A JSON document model: the values the library reads and rewrites, with a
//! mathematical view (`Json`) in which strings are character sequences and
//! objects are maps from keys to values.
use vstd::prelude::*;

use crate::text::owned;

verus! {

/// A JSON number as it was read: an unsigned or negative integer, or a
/// floating-point value held by its IEEE-754 bit pattern.
#[derive(Clone, Copy, Debug, PartialEq, Eq, Structural)]
pub enum JsonNumber {
    PosInt(u64),
    NegInt(i64),
    Float(u64),
}

/// A JSON value. An object is a list of entries; when a key occurs more than
/// once, its last entry is the one that counts.
#[derive(Debug, PartialEq)]
pub enum JsonValue {
    Null,
    Bool(bool),
    Number(JsonNumber),
    String(String),
    Array(Vec<JsonValue>),
    Object(Vec<(String, JsonValue)>),
}

/// The mathematical view of a JSON value.
pub enum Json {
    Null,
    Bool(bool),
    Number(JsonNumber),
    Str(Seq<char>),
    Arr(Seq<Json>),
    Obj(Map<Seq<char>, Json>),
}

impl JsonValue {
    /// The view of this value.
    pub open spec fn deep(self) -> Json
        decreases self,
    {
        match self {
            JsonValue::Null => Json::Null,
            JsonValue::Bool(b) => Json::Bool(b),
            JsonValue::Number(n) => Json::Number(n),
            JsonValue::String(s) => Json::Str(s@),
            JsonValue::Array(a) => Json::Arr(seq_view(a@)),
            JsonValue::Object(e) => Json::Obj(entries_view(e@)),
        }
    }
}

/// The views of a sequence of values.
pub open spec fn seq_view(s: Seq<JsonValue>) -> Seq<Json>
    decreases s,
{
    if s.len() == 0 {
        Seq::empty()
    } else {
        seq_view(s.drop_last()).push(s.last().deep())
    }
}

/// The map an object's entries stand for: each key to the value of its last
/// entry.
pub open spec fn entries_view(s: Seq<(String, JsonValue)>) -> Map<Seq<char>, Json>
    decreases s,
{
    if s.len() == 0 {
        Map::empty()
    } else {
        entries_view(s.drop_last()).insert(s.last().0@, s.last().1.deep())
    }
}

/// The view of a sequence of values has its length and each element's view.
pub proof fn lemma_seq_view(s: Seq<JsonValue>)
    ensures
        seq_view(s).len() == s.len(),
        forall|i: int| 0 <= i < s.len() ==> #[trigger] seq_view(s)[i] == s[i].deep(),
    decreases s.len(),
{
    if s.len() > 0 {
        lemma_seq_view(s.drop_last());
    }
}

/// The view of a sequence extended by one value.
pub proof fn lemma_seq_view_push(s: Seq<JsonValue>, v: JsonValue)
    ensures
        seq_view(s.push(v)) == seq_view(s).push(v.deep()),
{
    assert(s.push(v).drop_last() =~= s);
}

/// The view of a sequence with one element replaced.
pub proof fn lemma_seq_view_update(s: Seq<JsonValue>, i: int, v: JsonValue)
    requires
        0 <= i < s.len(),
    ensures
        seq_view(s.update(i, v)) == seq_view(s).update(i, v.deep()),
{
    lemma_seq_view(s);
    lemma_seq_view(s.update(i, v));
    assert(seq_view(s.update(i, v)) =~= seq_view(s).update(i, v.deep()));
}

/// The keys of an object's entries.
pub open spec fn entry_keys(s: Seq<(String, JsonValue)>) -> Seq<Seq<char>> {
    Seq::new(s.len(), |i: int| s[i].0@)
}

/// The domain of an object is the set of its entries' keys, and a key's
/// value is that of its last entry.
pub proof fn lemma_entries_view(s: Seq<(String, JsonValue)>)
    ensures
        entries_view(s).dom() == entry_keys(s).to_set(),
        forall|i: int|
            0 <= i < s.len() && (forall|j: int| i < j < s.len() ==> s[j].0@ != s[i].0@) ==> (
            #[trigger] entries_view(s)[s[i].0@]) == s[i].1.deep(),
    decreases s.len(),
{
    if s.len() > 0 {
        let t = s.drop_last();
        lemma_entries_view(t);
        assert(entries_view(s).dom() =~= entry_keys(s).to_set()) by {
            assert forall|k: Seq<char>| entries_view(s).dom().contains(k) implies entry_keys(
                s,
            ).to_set().contains(k) by {
                if k == s.last().0@ {
                    assert(entry_keys(s)[s.len() - 1] == k);
                } else {
                    assert(entry_keys(t).to_set().contains(k));
                    let j = choose|j: int| 0 <= j < entry_keys(t).len() && entry_keys(t)[j] == k;
                    assert(entry_keys(s)[j] == k);
                }
            }
            assert forall|k: Seq<char>| entry_keys(s).to_set().contains(k) implies entries_view(
                s,
            ).dom().contains(k) by {
                let j = choose|j: int| 0 <= j < entry_keys(s).len() && entry_keys(s)[j] == k;
                if j < s.len() - 1 {
                    assert(entry_keys(t)[j] == k);
                    assert(entry_keys(t).to_set().contains(k));
                }
            }
        }
        assert forall|i: int|
            0 <= i < s.len() && (forall|j: int| i < j < s.len() ==> s[j].0@ != s[i].0@) implies (
            #[trigger] entries_view(s)[s[i].0@]) == s[i].1.deep() by {
            if i < s.len() - 1 {
                assert(s[s.len() - 1].0@ != s[i].0@);
                assert(t[i] == s[i]);
                assert forall|j: int| i < j < t.len() implies t[j].0@ != t[i].0@ by {
                    assert(t[j] == s[j]);
                }
            }
        }
    }
}

/// The view of entries extended by one entry.
pub proof fn lemma_entries_view_push(s: Seq<(String, JsonValue)>, e: (String, JsonValue))
    ensures
        entries_view(s.push(e)) == entries_view(s).insert(e.0@, e.1.deep()),
{
    assert(s.push(e).drop_last() =~= s);
}

// ---------------------------------------------------------------------------
// Object access
// ---------------------------------------------------------------------------

/// The value of `key` in an object's entries (its last entry).
pub fn obj_get<'a>(entries: &'a Vec<(String, JsonValue)>, key: &str) -> (r: Option<&'a JsonValue>)
    ensures
        match r {
            Some(v) => entries_view(entries@).contains_key(key@) && entries_view(entries@)[key@]
                == v.deep(),
            None => !entries_view(entries@).contains_key(key@),
        },
{
    proof {
        lemma_entries_view(entries@);
    }
    let k = owned(key);
    let mut i: usize = entries.len();
    while i > 0
        invariant
            i <= entries@.len(),
            k@ == key@,
            forall|j: int| i <= j < entries@.len() ==> entries@[j].0@ != key@,
        decreases i,
    {
        i = i - 1;
        if entries[i].0 == k {
            proof {
                lemma_entries_view(entries@);
                assert(entry_keys(entries@)[i as int] == key@);
            }
            return Some(&entries[i].1);
        }
    }
    proof {
        if entry_keys(entries@).to_set().contains(key@) {
            let j = choose|j: int| 0 <= j < entry_keys(entries@).len() && entry_keys(entries@)[j] == key@;
            assert(entries@[j].0@ == key@);
        }
    }
    None
}

/// Removes every entry of `key`; returns the value that counted.
pub fn obj_remove(entries: &mut Vec<(String, JsonValue)>, key: &str) -> (r: Option<JsonValue>)
    ensures
        entries_view(final(entries)@) == entries_view(old(entries)@).remove(key@),
        match r {
            Some(v) => entries_view(old(entries)@).contains_key(key@) && entries_view(old(entries)@)[key@]
                == v.deep(),
            None => !entries_view(old(entries)@).contains_key(key@),
        },
{
    let k = owned(key);
    let ghost orig = entries@;
    let mut kept: Vec<(String, JsonValue)> = Vec::new();
    let mut found: Option<JsonValue> = None;
    let mut rest: Vec<(String, JsonValue)> = Vec::new();
    std::mem::swap(&mut rest, entries);
    let ghost all = rest@;
    let mut i: usize = 0;
    assert(all.skip(0) =~= all);
    assert(all.len() == rest.len());
    while rest.len() > 0
        invariant
            k@ == key@,
            all == orig,
            all.len() <= usize::MAX,
            rest@ == all.skip(i as int),
            i <= all.len(),
            entries_view(kept@) == entries_view(all.take(i as int)).remove(key@),
            match found {
                Some(v) => entries_view(all.take(i as int)).contains_key(key@) && entries_view(
                    all.take(i as int),
                )[key@] == v.deep(),
                None => !entries_view(all.take(i as int)).contains_key(key@),
            },
        decreases rest.len(),
    {
        let e = rest.remove(0);
        proof {
            assert(all.take(i + 1) =~= all.take(i as int).push(e));
            lemma_entries_view_push(all.take(i as int), e);
            assert(all.skip(i + 1) =~= rest@);
        }
        if e.0 == k {
            found = Some(e.1);
            proof {
                assert(entries_view(kept@) =~= entries_view(all.take(i + 1)).remove(key@));
            }
        } else {
            let ghost kept0 = kept@;
            kept.push(e);
            proof {
                lemma_entries_view_push(kept0, e);
                assert(entries_view(kept@) =~= entries_view(all.take(i + 1)).remove(key@));
            }
        }
        i = i + 1;
    }
    proof {
        assert(all.take(i as int) =~= all);
    }
    *entries = kept;
    found
}

/// Sets `key` to `value`, replacing any entry of that key.
pub fn obj_insert(entries: &mut Vec<(String, JsonValue)>, key: String, value: JsonValue)
    ensures
        entries_view(final(entries)@) == entries_view(old(entries)@).insert(key@, value.deep()),
{
    let _ = obj_remove(entries, key.as_str());
    let ghost before = entries@;
    let ghost kv = key@;
    let ghost vv = value.deep();
    entries.push((key, value));
    proof {
        assert(entries@ == before.push(entries@.last()));
        lemma_entries_view_push(before, entries@.last());
        assert(entries_view(entries@) =~= entries_view(old(entries)@).insert(kv, vv));
    }
}

} // verus!
