//! Repairs of common shape mistakes in model-written JSON documents, made on
//! the parsed value before it is read against its schema.
use vstd::prelude::*;

use crate::json::{
    entries_view, entry_keys, lemma_entries_view, lemma_entries_view_push, lemma_seq_view,
    lemma_seq_view_push, lemma_seq_view_update, obj_get, obj_insert, obj_remove, seq_view, Json,
    JsonValue,
};
use crate::text::{chars_of, eq_str, lex_less, lex_lt, lex_sorted, lemma_lex_irreflexive, lemma_lex_sorted_unique,
    lemma_lex_total, lemma_lex_transitive, owned, push_str, trim, trim_str};

verus! {

// ---------------------------------------------------------------------------
// Specifications
// ---------------------------------------------------------------------------

/// The non-empty trimmed texts of the string items of an array, in order.
pub open spec fn nonempty_trimmed(items: Seq<Json>) -> Seq<Seq<char>>
    decreases items.len(),
{
    if items.len() == 0 {
        Seq::empty()
    } else {
        let rest = nonempty_trimmed(items.drop_last());
        match items.last() {
            Json::Str(s) => if trim(s).len() > 0 {
                rest.push(trim(s))
            } else {
                rest
            },
            _ => rest,
        }
    }
}

/// Lines joined with `\n` (`[String]::join("\n")`).
pub open spec fn join_lines(parts: Seq<Seq<char>>) -> Seq<char>
    decreases parts.len(),
{
    if parts.len() == 0 {
        Seq::empty()
    } else if parts.len() == 1 {
        parts[0]
    } else {
        join_lines(parts.drop_last()) + seq!['\n'] + parts.last()
    }
}

/// A nullable text field after repair: an array of strings becomes their
/// non-empty trimmed lines, a string is trimmed, and anything empty or of
/// another type becomes null.
pub open spec fn nullable_text(v: Json) -> Json {
    match v {
        Json::Arr(items) => {
            let parts = nonempty_trimmed(items);
            if parts.len() == 0 {
                Json::Null
            } else {
                Json::Str(join_lines(parts))
            }
        },
        Json::Str(s) => if trim(s).len() == 0 {
            Json::Null
        } else {
            Json::Str(trim(s))
        },
        _ => Json::Null,
    }
}

/// `field` of an object, if present, rewritten by `nullable_text`.
pub open spec fn nullable_text_field(v: Json, field: Seq<char>) -> Json {
    match v {
        Json::Obj(m) => if m.contains_key(field) {
            Json::Obj(m.insert(field, nullable_text(m[field])))
        } else {
            v
        },
        _ => v,
    }
}

/// Null becomes an empty array and an object a one-element array.
pub open spec fn singleton_array(v: Json) -> Json {
    match v {
        Json::Null => Json::Arr(Seq::empty()),
        Json::Obj(_) => Json::Arr(seq![v]),
        _ => v,
    }
}

/// The keys of a map in increasing order.
pub open spec fn sorted_keys(m: Map<Seq<char>, Json>) -> Seq<Seq<char>> {
    choose|ks: Seq<Seq<char>>| lex_sorted(ks) && ks.to_set() == m.dom()
}

/// An item of a keyed map, given its key as `name_key` unless it has one or
/// the key is blank.
pub open spec fn named_item(item: Json, name: Seq<char>, name_key: Seq<char>) -> Json {
    match item {
        Json::Obj(o) => if !o.contains_key(name_key) && trim(name).len() > 0 {
            Json::Obj(o.insert(name_key, Json::Str(name)))
        } else {
            item
        },
        _ => item,
    }
}

/// Every value of the map is an object.
pub open spec fn all_objects(m: Map<Seq<char>, Json>) -> bool {
    forall|k: Seq<char>| #[trigger] m.contains_key(k) ==> m[k] is Obj
}

/// A collection written as an object keyed by name becomes an array of its
/// items in key order, each named by its key; null becomes an empty array;
/// an object with a non-object value is wrapped in a one-element array.
pub open spec fn named_map_to_array(v: Json, name_key: Seq<char>) -> Json {
    match v {
        Json::Null => Json::Arr(Seq::empty()),
        Json::Obj(m) => if all_objects(m) {
            let ks = sorted_keys(m);
            Json::Arr(Seq::new(ks.len(), |i: int| named_item(m[ks[i]], ks[i], name_key)))
        } else {
            Json::Arr(seq![v])
        },
        _ => v,
    }
}

/// `m` with the value of `key`, if present, rewritten by `f`.
pub open spec fn map_field(m: Map<Seq<char>, Json>, key: Seq<char>, f: spec_fn(Json) -> Json) -> Map<
    Seq<char>,
    Json,
> {
    if m.contains_key(key) {
        m.insert(key, f(m[key]))
    } else {
        m
    }
}

/// The keyed collections of a plan component rewritten as arrays.
pub open spec fn component_shapes(c: Json) -> Json {
    match c {
        Json::Obj(o) => Json::Obj(
            map_field(
                map_field(
                    map_field(o, "anchors"@, |v: Json| named_map_to_array(v, "name"@)),
                    "contacts"@,
                    |v: Json| named_map_to_array(v, "name"@),
                ),
                "articulation_nodes"@,
                |v: Json| named_map_to_array(v, "node_id"@),
            ),
        ),
        _ => c,
    }
}

/// The collections of a plan in array shape: `components` (and, within each
/// component, `anchors`, `contacts` and `articulation_nodes`) from keyed
/// maps, `reuse_groups` from a single object.
pub open spec fn collection_shapes(j: Json) -> Json {
    match j {
        Json::Obj(m) => {
            let m1 = map_field(m, "components"@, |v: Json| named_map_to_array(v, "name"@));
            let m2 = map_field(m1, "reuse_groups"@, |v: Json| singleton_array(v));
            if m2.contains_key("components"@) && m2["components"@] is Arr {
                Json::Obj(
                    m2.insert(
                        "components"@,
                        Json::Arr(m2["components"@]->Arr_0.map_values(|c: Json| component_shapes(c))),
                    ),
                )
            } else {
                Json::Obj(m2)
            }
        },
        _ => j,
    }
}

/// A component-level `joint` moved into `attach_to.joint`: dropped when the
/// attachment already has one, kept where it is without an object
/// `attach_to`.
pub open spec fn component_joint(c: Json) -> Json {
    match c {
        Json::Obj(o) => if o.contains_key("joint"@) && o.contains_key("attach_to"@) {
            match o["attach_to"@] {
                Json::Obj(a) => if a.contains_key("joint"@) {
                    Json::Obj(o.remove("joint"@))
                } else {
                    Json::Obj(
                        o.remove("joint"@).insert("attach_to"@, Json::Obj(a.insert("joint"@, o["joint"@]))),
                    )
                },
                _ => c,
            }
        } else {
            c
        },
        _ => c,
    }
}

/// `component_joint` applied to each component of a plan.
pub open spec fn component_joint_fields(j: Json) -> Json {
    match j {
        Json::Obj(m) => if m.contains_key("components"@) && m["components"@] is Arr {
            Json::Obj(
                m.insert(
                    "components"@,
                    Json::Arr(m["components"@]->Arr_0.map_values(|c: Json| component_joint(c))),
                ),
            )
        } else {
            j
        },
        _ => j,
    }
}

/// The top-level fields a plan may have.
pub open spec fn is_plan_key(k: Seq<char>) -> bool {
    ||| k == "version"@
    ||| k == "rig"@
    ||| k == "mobility"@
    ||| k == "attack"@
    ||| k == "aim"@
    ||| k == "collider"@
    ||| k == "assembly_notes"@
    ||| k == "root_component"@
    ||| k == "reuse_groups"@
    ||| k == "components"@
}

/// A plan without its unknown top-level fields.
pub open spec fn top_level_fields(j: Json) -> Json {
    match j {
        Json::Obj(m) => Json::Obj(m.restrict(Set::new(|k: Seq<char>| is_plan_key(k)))),
        _ => j,
    }
}

/// The trimmed, non-empty text of `key` in an object, if it is a string.
pub open spec fn trimmed_text_field(o: Map<Seq<char>, Json>, key: Seq<char>) -> Option<Seq<char>> {
    if o.contains_key(key) {
        match o[key] {
            Json::Str(s) => if trim(s).len() > 0 {
                Some(trim(s))
            } else {
                None
            },
            _ => None,
        }
    } else {
        None
    }
}

/// The trimmed name of a component, when it has a non-empty one.
pub open spec fn component_name(c: Json) -> Option<Seq<char>> {
    match c {
        Json::Obj(o) => trimmed_text_field(o, "name"@),
        _ => None,
    }
}

/// The position of the last component named `name`.
pub open spec fn component_index(comps: Seq<Json>, name: Seq<char>) -> Option<int>
    decreases comps.len(),
{
    if comps.len() == 0 {
        None
    } else if component_name(comps.last()) == Some(name) {
        Some(comps.len() - 1)
    } else {
        component_index(comps.drop_last(), name)
    }
}

/// One rig articulation node moved into the component it names: its
/// `component` and `bind_part_indices` fields are dropped, and it is appended
/// to that component's `articulation_nodes` (created when missing). A node
/// that is not an object, names no component or one that is not found, or
/// whose component's `articulation_nodes` is not an array, is left over (an
/// unknown component name is kept, trimmed). Components are looked up by the
/// names in `names`.
pub open spec fn hoist_step(comps: Seq<Json>, left: Seq<Json>, node: Json, names: Seq<Json>) -> (
    Seq<Json>,
    Seq<Json>,
) {
    match node {
        Json::Obj(o) => {
            let o2 = o.remove("component"@).remove("bind_part_indices"@);
            match trimmed_text_field(o, "component"@) {
                None => (comps, left.push(Json::Obj(o2))),
                Some(cn) => match component_index(names, cn) {
                    None => (comps, left.push(Json::Obj(o2.insert("component"@, Json::Str(cn))))),
                    Some(i) => match comps[i] {
                        Json::Obj(c) => if !c.contains_key("articulation_nodes"@) {
                            (
                                comps.update(
                                    i,
                                    Json::Obj(c.insert("articulation_nodes"@, Json::Arr(seq![Json::Obj(o2)]))),
                                ),
                                left,
                            )
                        } else {
                            match c["articulation_nodes"@] {
                                Json::Arr(t) => (
                                    comps.update(
                                        i,
                                        Json::Obj(
                                            c.insert("articulation_nodes"@, Json::Arr(t.push(Json::Obj(o2)))),
                                        ),
                                    ),
                                    left,
                                ),
                                _ => (comps, left.push(Json::Obj(o2))),
                            }
                        },
                        _ => (comps, left.push(Json::Obj(o2))),
                    },
                },
            }
        },
        _ => (comps, left.push(node)),
    }
}

/// The components and the left-over nodes after moving `nodes`, in order.
pub open spec fn hoist(comps: Seq<Json>, nodes: Seq<Json>, names: Seq<Json>) -> (Seq<Json>, Seq<Json>)
    decreases nodes.len(),
{
    if nodes.len() == 0 {
        (comps, Seq::empty())
    } else {
        let (c, l) = hoist(comps, nodes.drop_last(), names);
        hoist_step(c, l, nodes.last(), names)
    }
}

/// The plan with the rig `r` put back, unless it is empty.
pub open spec fn put_rig(m: Map<Seq<char>, Json>, r: Map<Seq<char>, Json>) -> Json {
    if r == Map::<Seq<char>, Json>::empty() {
        Json::Obj(m)
    } else {
        Json::Obj(m.insert("rig"@, Json::Obj(r)))
    }
}

/// A plan's rig without motion fields: `rig.named_motions` is dropped, and
/// the nodes of `rig.articulation_nodes` (an array, a single object, or null
/// for none) are moved into the components they name; what cannot be moved
/// stays under the rig, and an empty rig is dropped.
pub open spec fn rig_motion_fields(j: Json) -> Json {
    match j {
        Json::Obj(m) => if !m.contains_key("rig"@) {
            j
        } else {
            let m0 = m.remove("rig"@);
            match m["rig"@] {
                Json::Obj(r) => {
                    let r1 = r.remove("named_motions"@);
                    if !r1.contains_key("articulation_nodes"@) {
                        put_rig(m0, r1)
                    } else {
                        let raw = r1["articulation_nodes"@];
                        let r2 = r1.remove("articulation_nodes"@);
                        let nodes = match raw {
                            Json::Arr(a) => a,
                            Json::Obj(_) => seq![raw],
                            _ => Seq::empty(),
                        };
                        if !(raw is Arr || raw is Obj || raw is Null) {
                            put_rig(m0, r2.insert("articulation_nodes"@, raw))
                        } else if nodes.len() == 0 {
                            put_rig(m0, r2)
                        } else if !(m0.contains_key("components"@) && m0["components"@] is Arr) {
                            put_rig(m0, r2.insert("articulation_nodes"@, Json::Arr(nodes)))
                        } else {
                            let comps = m0["components"@]->Arr_0;
                            let (c2, left) = hoist(comps, nodes, comps);
                            let m1 = m0.insert("components"@, Json::Arr(c2));
                            if left.len() > 0 {
                                put_rig(m1, r2.insert("articulation_nodes"@, Json::Arr(left)))
                            } else {
                                put_rig(m1, r2)
                            }
                        }
                    }
                },
                _ => j,
            }
        },
        _ => j,
    }
}

// ---------------------------------------------------------------------------
// Helpers
// ---------------------------------------------------------------------------

/// Takes the value out, leaving null.
pub(crate) fn take_json(value: &mut JsonValue) -> (v: JsonValue)
    ensures
        v == *old(value),
        *final(value) == JsonValue::Null,
{
    let mut v = JsonValue::Null;
    std::mem::swap(&mut v, value);
    v
}

/// Whether the text is empty once trimmed.
fn is_blank(s: &String) -> (b: bool)
    ensures
        b == (trim(s@).len() == 0),
{
    let t = trim_str(s.as_str());
    chars_of(t.as_str()).len() == 0
}

proof fn lemma_nonempty_trimmed_push(items: Seq<Json>, x: Json)
    ensures
        nonempty_trimmed(items.push(x)) == (match x {
            Json::Str(s) => if trim(s).len() > 0 {
                nonempty_trimmed(items).push(trim(s))
            } else {
                nonempty_trimmed(items)
            },
            _ => nonempty_trimmed(items),
        }),
{
    assert(items.push(x).drop_last() =~= items);
}

proof fn lemma_join_lines_push(parts: Seq<Seq<char>>, x: Seq<char>)
    ensures
        join_lines(parts.push(x)) == if parts.len() == 0 {
            x
        } else {
            join_lines(parts) + seq!['\n'] + x
        },
{
    assert(parts.push(x).drop_last() =~= parts);
}

/// The repaired form of a nullable text value.
fn nullable_text_value(v: JsonValue) -> (r: JsonValue)
    ensures
        r.deep() == nullable_text(v.deep()),
{
    match v {
        JsonValue::Array(arr) => {
            proof {
                lemma_seq_view(arr@);
            }
            let mut out = String::new();
            let mut count: usize = 0;
            let mut i: usize = 0;
            while i < arr.len()
                invariant
                    i <= arr.len(),
                    count <= i,
                    count == nonempty_trimmed(seq_view(arr@.take(i as int))).len(),
                    out@ == join_lines(nonempty_trimmed(seq_view(arr@.take(i as int)))),
                decreases arr.len() - i,
            {
                proof {
                    assert(arr@.take(i + 1) =~= arr@.take(i as int).push(arr@[i as int]));
                    lemma_seq_view_push(arr@.take(i as int), arr@[i as int]);
                    lemma_nonempty_trimmed_push(seq_view(arr@.take(i as int)), arr@[i as int].deep());
                }
                match &arr[i] {
                    JsonValue::String(s) => {
                        let t = trim_str(s.as_str());
                        if chars_of(t.as_str()).len() > 0 {
                            proof {
                                lemma_join_lines_push(nonempty_trimmed(seq_view(arr@.take(i as int))), t@);
                            }
                            if count > 0 {
                                push_str(&mut out, "\n");
                                proof {
                                    reveal_strlit("\n");
                                }
                            }
                            let ghost before = out@;
                            push_str(&mut out, t.as_str());
                            proof {
                                if count == 0 {
                                    assert(before =~= Seq::<char>::empty());
                                    assert(out@ =~= t@);
                                }
                            }
                            count = count + 1;
                        }
                    },
                    _ => {},
                }
                i = i + 1;
            }
            proof {
                assert(arr@.take(arr.len() as int) =~= arr@);
            }
            if count == 0 {
                JsonValue::Null
            } else {
                JsonValue::String(out)
            }
        },
        JsonValue::String(s) => {
            let t = trim_str(s.as_str());
            if chars_of(t.as_str()).len() == 0 {
                JsonValue::Null
            } else {
                JsonValue::String(t)
            }
        },
        _ => JsonValue::Null,
    }
}

/// The keys of the entries are pairwise different.
pub open spec fn distinct_keys(s: Seq<(String, JsonValue)>) -> bool {
    forall|i: int, j: int| 0 <= i < j < s.len() ==> (#[trigger] s[i]).0@ != (#[trigger] s[j]).0@
}

/// With distinct keys, each entry gives its key's value.
proof fn lemma_distinct_entries(s: Seq<(String, JsonValue)>)
    requires
        distinct_keys(s),
    ensures
        entries_view(s).dom() == entry_keys(s).to_set(),
        forall|i: int| 0 <= i < s.len() ==> #[trigger] entries_view(s)[s[i].0@] == s[i].1.deep(),
{
    lemma_entries_view(s);
    assert forall|i: int| 0 <= i < s.len() implies #[trigger] entries_view(s)[s[i].0@] == s[i].1.deep() by {
        assert forall|j: int| i < j < s.len() implies s[j].0@ != s[i].0@ by {
            assert(s[i].0@ != s[j].0@);
        }
    }
}

/// Sorted keys are distinct.
proof fn lemma_sorted_distinct(s: Seq<(String, JsonValue)>)
    requires
        lex_sorted(entry_keys(s)),
    ensures
        distinct_keys(s),
{
    assert forall|i: int, j: int| 0 <= i < j < s.len() implies (#[trigger] s[i]).0@ != (#[trigger] s[j]).0@ by {
        assert(lex_lt(entry_keys(s)[i], entry_keys(s)[j]));
        if s[i].0@ == s[j].0@ {
            lemma_lex_irreflexive(s[i].0@);
        }
    }
}

/// Two entry lists with distinct keys stand for the same map when they hold
/// the same keys with the same values.
proof fn lemma_same_entries_view(a: Seq<(String, JsonValue)>, m: Map<Seq<char>, Json>)
    requires
        distinct_keys(a),
        m.dom() == entry_keys(a).to_set(),
        forall|i: int| 0 <= i < a.len() ==> m[#[trigger] a[i].0@] == a[i].1.deep(),
    ensures
        entries_view(a) == m,
{
    lemma_distinct_entries(a);
    assert forall|k: Seq<char>| #[trigger] m.contains_key(k) implies entries_view(a)[k] == m[k] by {
        let i = choose|i: int| 0 <= i < entry_keys(a).len() && entry_keys(a)[i] == k;
        assert(a[i].0@ == k);
    }
    assert(entries_view(a) =~= m);
}

/// The entries in increasing key order, one per key, each with the value
/// that counted.
fn sorted_entries(entries: Vec<(String, JsonValue)>) -> (out: Vec<(String, JsonValue)>)
    ensures
        lex_sorted(entry_keys(out@)),
        entries_view(out@) == entries_view(entries@),
{
    let ghost all = entries@;
    let mut rest = entries;
    let mut out: Vec<(String, JsonValue)> = Vec::new();
    let mut i: usize = 0;
    assert(all.skip(0) =~= all);
    assert(all.len() == rest.len());
    assert(entry_keys(out@) =~= Seq::<Seq<char>>::empty());
    assert(all.take(0) =~= Seq::<(String, JsonValue)>::empty());
    while rest.len() > 0
        invariant
            all.len() == i + rest@.len(),
            all.len() <= usize::MAX,
            rest@ == all.skip(i as int),
            lex_sorted(entry_keys(out@)),
            entries_view(out@) == entries_view(all.take(i as int)),
        decreases rest.len(),
    {
        let e = rest.remove(0);
        proof {
            assert(all.take(i + 1) =~= all.take(i as int).push(e));
            lemma_entries_view_push(all.take(i as int), e);
            assert(all.skip(i + 1) =~= rest@);
            lemma_sorted_distinct(out@);
            lemma_distinct_entries(out@);
        }
        let ghost before = out@;
        let ghost target = entries_view(before).insert(e.0@, e.1.deep());
        let mut pos: usize = 0;
        while pos < out.len() && lex_less(&out[pos].0, &e.0)
            invariant
                pos <= out.len(),
                out@ == before,
                forall|j: int| 0 <= j < pos ==> lex_lt(#[trigger] before[j].0@, e.0@),
            decreases out.len() - pos,
        {
            pos = pos + 1;
        }
        if pos < out.len() && out[pos].0 == e.0 {
            out.set(pos, e);
            proof {
                assert(entry_keys(out@) =~= entry_keys(before));
                assert forall|a: int, b: int| 0 <= a < b < out@.len() implies (#[trigger] out@[a]).0@
                    != (#[trigger] out@[b]).0@ by {
                    assert(entry_keys(out@)[a] == entry_keys(before)[a]);
                    assert(entry_keys(out@)[b] == entry_keys(before)[b]);
                    assert(lex_lt(entry_keys(before)[a], entry_keys(before)[b]));
                    if out@[a].0@ == out@[b].0@ {
                        lemma_lex_irreflexive(out@[a].0@);
                    }
                }
                assert forall|j: int| 0 <= j < out@.len() implies target[#[trigger] out@[j].0@]
                    == out@[j].1.deep() by {
                    if j != pos {
                        assert(out@[j] == before[j]);
                        assert(before[j].0@ != before[pos as int].0@) by {
                            if j < pos {
                                assert(distinct_keys(before));
                            } else {
                                assert(distinct_keys(before));
                            }
                        }
                    }
                }
                assert(target.dom() =~= entry_keys(out@).to_set()) by {
                    assert(entries_view(before).dom() == entry_keys(before).to_set());
                    assert(entry_keys(before)[pos as int] == e.0@);
                }
                lemma_same_entries_view(out@, target);
            }
        } else {
            out.insert(pos, e);
            proof {
                if pos < before.len() {
                    assert(!lex_lt(before[pos as int].0@, e.0@));
                    assert(before[pos as int].0@ != e.0@);
                    lemma_lex_total(before[pos as int].0@, e.0@);
                }
                assert(lex_sorted(entry_keys(out@))) by {
                    assert forall|a: int, b: int| 0 <= a < b < out@.len() implies lex_lt(
                        #[trigger] entry_keys(out@)[a],
                        #[trigger] entry_keys(out@)[b],
                    ) by {
                        let ka = entry_keys(out@)[a];
                        let kb = entry_keys(out@)[b];
                        if a < pos && b < pos {
                            assert(ka == entry_keys(before)[a] && kb == entry_keys(before)[b]);
                        } else if a < pos && b == pos {
                            assert(ka == before[a].0@);
                        } else if a < pos {
                            assert(ka == entry_keys(before)[a] && kb == entry_keys(before)[b - 1]);
                        } else if a == pos {
                            assert(kb == entry_keys(before)[b - 1]);
                            if b - 1 > pos {
                                assert(lex_lt(entry_keys(before)[pos as int], entry_keys(before)[b - 1]));
                                lemma_lex_transitive(e.0@, before[pos as int].0@, kb);
                            }
                        } else {
                            assert(ka == entry_keys(before)[a - 1] && kb == entry_keys(before)[b - 1]);
                        }
                    }
                }
                lemma_sorted_distinct(out@);
                assert forall|j: int| 0 <= j < out@.len() implies target[#[trigger] out@[j].0@]
                    == out@[j].1.deep() by {
                    if j < pos {
                        assert(out@[j] == before[j]);
                        assert(lex_lt(before[j].0@, e.0@));
                        if out@[j].0@ == e.0@ {
                            lemma_lex_irreflexive(e.0@);
                        }
                    } else if j > pos {
                        assert(out@[j] == before[j - 1]);
                        assert(out@[j].0@ != out@[pos as int].0@);
                    }
                }
                assert(target.dom() =~= entry_keys(out@).to_set()) by {
                    assert(entries_view(before).dom() == entry_keys(before).to_set());
                    assert forall|k: Seq<char>| target.dom().contains(k) implies entry_keys(out@).to_set().contains(k) by {
                        if k == e.0@ {
                            assert(entry_keys(out@)[pos as int] == k);
                        } else {
                            let j = choose|j: int| 0 <= j < entry_keys(before).len() && entry_keys(before)[j] == k;
                            if j < pos {
                                assert(entry_keys(out@)[j] == k);
                            } else {
                                assert(entry_keys(out@)[j + 1] == k);
                            }
                        }
                    }
                    assert forall|k: Seq<char>| entry_keys(out@).to_set().contains(k) implies target.dom().contains(k) by {
                        let j = choose|j: int| 0 <= j < entry_keys(out@).len() && entry_keys(out@)[j] == k;
                        if j < pos {
                            assert(entry_keys(before)[j] == k);
                        } else if j > pos {
                            assert(entry_keys(before)[j - 1] == k);
                        }
                    }
                }
                lemma_same_entries_view(out@, target);
            }
        }
        i = i + 1;
    }
    proof {
        assert(all.take(i as int) =~= all);
    }
    out
}

// ---------------------------------------------------------------------------
// Repairs
// ---------------------------------------------------------------------------

/// Repairs the nullable text field `field_name` of an object: an array of
/// strings becomes one string of its non-empty trimmed items joined by
/// newlines, a string is trimmed, and an empty result or a value of another
/// type becomes null. Anything but an object, or an object without the field,
/// is left as it is.
pub fn normalize_ai_nullable_string_field_allowing_array(json_value: &mut JsonValue, field_name: &str)
    ensures
        final(json_value).deep() == nullable_text_field(old(json_value).deep(), field_name@),
{
    if let JsonValue::Object(entries) = json_value {
        match obj_remove(entries, field_name) {
            Some(v) => {
                let ghost old_v = v.deep();
                let r = nullable_text_value(v);
                obj_insert(entries, owned(field_name), r);
                proof {
                    assert(entries_view(entries@) =~= entries_view(old(json_value)->Object_0@).insert(
                        field_name@,
                        nullable_text(old_v),
                    ));
                }
            },
            None => {
                proof {
                    assert(entries_view(entries@) =~= entries_view(old(json_value)->Object_0@));
                }
            },
        }
    }
}

/// Null becomes an empty array, an object a one-element array holding it;
/// other values are left as they are.
pub fn normalize_json_singleton_array_field(value: &mut JsonValue)
    ensures
        final(value).deep() == singleton_array(old(value).deep()),
{
    let v = take_json(value);
    let ghost vd = v.deep();
    let out = match v {
        JsonValue::Null => JsonValue::Array(Vec::new()),
        JsonValue::Object(e) => {
            let mut arr: Vec<JsonValue> = Vec::new();
            arr.push(JsonValue::Object(e));
            proof {
                lemma_seq_view_push(Seq::empty(), arr@[0]);
                assert(arr@ =~= Seq::<JsonValue>::empty().push(arr@[0]));
                assert(seq_view(Seq::<JsonValue>::empty()) =~= Seq::<Json>::empty());
            }
            JsonValue::Array(arr)
        },
        other => other,
    };
    proof {
        assert(seq_view(Seq::<JsonValue>::empty()) =~= Seq::<Json>::empty());
    }
    *value = out;
}

/// Rewrites a collection written as an object keyed by name into an array:
/// null becomes an empty array; an object whose values are all objects
/// becomes the array of its values in key order, each given its key under
/// `item_name_key` unless it has that field or the key is blank; any other
/// object becomes a one-element array holding it. Other values are left as
/// they are.
pub fn normalize_json_named_object_map_to_array(value: &mut JsonValue, item_name_key: &str)
    ensures
        final(value).deep() == named_map_to_array(old(value).deep(), item_name_key@),
{
    let v = take_json(value);
    proof {
        assert(seq_view(Seq::<JsonValue>::empty()) =~= Seq::<Json>::empty());
    }
    let out = match v {
        JsonValue::Null => JsonValue::Array(Vec::new()),
        JsonValue::Object(entries) => {
            let ghost m = entries_view(entries@);
            let sorted = sorted_entries(entries);
            proof {
                lemma_sorted_distinct(sorted@);
                lemma_distinct_entries(sorted@);
            }
            let mut all_obj = true;
            let mut j: usize = 0;
            while j < sorted.len()
                invariant
                    j <= sorted.len(),
                    all_obj == forall|t: int| 0 <= t < j ==> (#[trigger] sorted@[t]).1 is Object,
                decreases sorted.len() - j,
            {
                match &sorted[j].1 {
                    JsonValue::Object(_) => {},
                    _ => {
                        all_obj = false;
                    },
                }
                j = j + 1;
            }
            proof {
                if all_obj {
                    assert forall|k: Seq<char>| #[trigger] m.contains_key(k) implies m[k] is Obj by {
                        assert(entry_keys(sorted@).to_set().contains(k));
                        let t = choose|t: int| 0 <= t < entry_keys(sorted@).len() && entry_keys(sorted@)[t] == k;
                        assert(sorted@[t].1 is Object);
                    }
                } else {
                    let t = choose|t: int| 0 <= t < sorted@.len() && !((#[trigger] sorted@[t]).1 is Object);
                    assert(entry_keys(sorted@)[t] == sorted@[t].0@);
                    assert(m.contains_key(sorted@[t].0@));
                }
            }
            if !all_obj {
                let mut arr: Vec<JsonValue> = Vec::new();
                arr.push(JsonValue::Object(sorted));
                proof {
                    assert(arr@ =~= Seq::<JsonValue>::empty().push(arr@[0]));
                    lemma_seq_view_push(Seq::empty(), arr@[0]);
                }
                JsonValue::Array(arr)
            } else {
                let ghost all = sorted@;
                let ghost ks = entry_keys(all);
                proof {
                    assert(ks.to_set() == m.dom());
                    lemma_lex_sorted_unique(ks, sorted_keys(m));
                }
                let mut rest = sorted;
                let mut arr: Vec<JsonValue> = Vec::new();
                let mut i: usize = 0;
                assert(all.skip(0) =~= all);
                assert(all.len() == rest.len());
                assert(seq_view(arr@) =~= Seq::new(0, |t: int| named_item(all[t].1.deep(), all[t].0@, item_name_key@)));
                while rest.len() > 0
                    invariant
                        all.len() == i + rest@.len(),
                        all.len() <= usize::MAX,
                        rest@ == all.skip(i as int),
                        seq_view(arr@) == Seq::new(i as nat, |t: int| named_item(all[t].1.deep(), all[t].0@, item_name_key@)),
                    decreases rest.len(),
                {
                    let (name, item) = rest.remove(0);
                    proof {
                        assert(all.skip(i + 1) =~= rest@);
                        assert(all[i as int].0 == name && all[i as int].1 == item);
                    }
                    let ghost item_view = item.deep();
                    let ghost name_view = name@;
                    let named = match item {
                        JsonValue::Object(mut io) => {
                            let present = obj_get(&io, item_name_key).is_some();
                            if !present && !is_blank(&name) {
                                obj_insert(&mut io, owned(item_name_key), JsonValue::String(name));
                            }
                            JsonValue::Object(io)
                        },
                        other => other,
                    };
                    assert(named.deep() == named_item(item_view, name_view, item_name_key@));
                    let ghost arr0 = arr@;
                    arr.push(named);
                    proof {
                        lemma_seq_view_push(arr0, named);
                        assert(seq_view(arr@) =~= Seq::new((i + 1) as nat, |t: int| named_item(all[t].1.deep(), all[t].0@, item_name_key@)));
                    }
                    i = i + 1;
                }
                proof {
                    let ks2 = sorted_keys(m);
                    assert(seq_view(arr@) =~= Seq::new(ks2.len(), |t: int| named_item(m[ks2[t]], ks2[t], item_name_key@))) by {
                        assert forall|t: int| 0 <= t < ks2.len() implies named_item(all[t].1.deep(), all[t].0@, item_name_key@)
                            == named_item(m[ks2[t]], ks2[t], item_name_key@) by {
                            assert(ks[t] == all[t].0@);
                        }
                    }
                }
                JsonValue::Array(arr)
            }
        },
        other => other,
    };
    *value = out;
}

/// Rewrites the value of `key`, if present, as `named_map_to_array` does.
fn named_field_to_array(entries: &mut Vec<(String, JsonValue)>, key: &str, name_key: &str)
    ensures
        entries_view(final(entries)@) == map_field(
            entries_view(old(entries)@),
            key@,
            |v: Json| named_map_to_array(v, name_key@),
        ),
{
    match obj_remove(entries, key) {
        Some(mut v) => {
            let ghost old_v = v.deep();
            normalize_json_named_object_map_to_array(&mut v, name_key);
            obj_insert(entries, owned(key), v);
            proof {
                assert(entries_view(entries@) =~= entries_view(old(entries)@).insert(
                    key@,
                    named_map_to_array(old_v, name_key@),
                ));
            }
        },
        None => {
            proof {
                assert(entries_view(entries@) =~= entries_view(old(entries)@));
            }
        },
    }
}

/// The keyed collections of one component rewritten as arrays.
fn normalize_component_shapes(c: &mut JsonValue)
    ensures
        final(c).deep() == component_shapes(old(c).deep()),
{
    if let JsonValue::Object(entries) = c {
        named_field_to_array(entries, "anchors", "name");
        named_field_to_array(entries, "contacts", "name");
        named_field_to_array(entries, "articulation_nodes", "node_id");
    }
}

/// Applies `normalize_component_shapes` to each item of an array.
fn normalize_each_component_shapes(arr: Vec<JsonValue>) -> (out: Vec<JsonValue>)
    ensures
        seq_view(out@) == seq_view(arr@).map_values(|c: Json| component_shapes(c)),
{
    let ghost all = arr@;
    let mut rest = arr;
    let mut out: Vec<JsonValue> = Vec::new();
    let mut i: usize = 0;
    proof {
        lemma_seq_view(all);
        assert(all.skip(0) =~= all);
        assert(all.len() == rest.len());
        assert(seq_view(out@) =~= seq_view(all).map_values(|c: Json| component_shapes(c)).take(0));
    }
    while rest.len() > 0
        invariant
            all.len() == i + rest@.len(),
            all.len() <= usize::MAX,
            rest@ == all.skip(i as int),
            seq_view(all).len() == all.len(),
            forall|t: int| 0 <= t < all.len() ==> #[trigger] seq_view(all)[t] == all[t].deep(),
            seq_view(out@) == seq_view(all).map_values(|c: Json| component_shapes(c)).take(i as int),
        decreases rest.len(),
    {
        let mut c = rest.remove(0);
        proof {
            assert(all.skip(i + 1) =~= rest@);
            assert(all[i as int] == c);
        }
        normalize_component_shapes(&mut c);
        let ghost out0 = out@;
        out.push(c);
        proof {
            lemma_seq_view_push(out0, c);
            assert(seq_view(out@) =~= seq_view(all).map_values(|c: Json| component_shapes(c)).take(i + 1));
        }
        i = i + 1;
    }
    proof {
        assert(seq_view(all).map_values(|c: Json| component_shapes(c)).take(i as int) =~= seq_view(
            all,
        ).map_values(|c: Json| component_shapes(c)));
    }
    out
}

/// Brings the collections of a plan into array shape: `components` and,
/// within each component, `anchors`, `contacts` and `articulation_nodes` from
/// maps keyed by name (or node id), and `reuse_groups` from a single object.
pub fn normalize_ai_plan_collection_shapes(json_value: &mut JsonValue)
    ensures
        final(json_value).deep() == collection_shapes(old(json_value).deep()),
{
    if let JsonValue::Object(entries) = json_value {
        named_field_to_array(entries, "components", "name");
        match obj_remove(entries, "reuse_groups") {
            Some(mut v) => {
                let ghost old_v = v.deep();
                normalize_json_singleton_array_field(&mut v);
                obj_insert(entries, owned("reuse_groups"), v);
                proof {
                    assert(entries_view(entries@) =~= map_field(
                        map_field(
                            entries_view(old(json_value)->Object_0@),
                            "components"@,
                            |v: Json| named_map_to_array(v, "name"@),
                        ),
                        "reuse_groups"@,
                        |v: Json| singleton_array(v),
                    ));
                }
            },
            None => {
                proof {
                    assert(entries_view(entries@) =~= map_field(
                        map_field(
                            entries_view(old(json_value)->Object_0@),
                            "components"@,
                            |v: Json| named_map_to_array(v, "name"@),
                        ),
                        "reuse_groups"@,
                        |v: Json| singleton_array(v),
                    ));
                }
            },
        }
        let ghost m2 = entries_view(entries@);
        match obj_remove(entries, "components") {
            Some(JsonValue::Array(arr)) => {
                let out = normalize_each_component_shapes(arr);
                obj_insert(entries, owned("components"), JsonValue::Array(out));
                proof {
                    assert(entries_view(entries@) =~= m2.insert(
                        "components"@,
                        Json::Arr(m2["components"@]->Arr_0.map_values(|c: Json| component_shapes(c))),
                    ));
                }
            },
            Some(other) => {
                obj_insert(entries, owned("components"), other);
                proof {
                    assert(entries_view(entries@) =~= m2);
                }
            },
            None => {
                proof {
                    assert(entries_view(entries@) =~= m2);
                }
            },
        }
    }
}

/// Moves a component-level `joint` into `attach_to.joint` in one component.
fn normalize_component_joint(c: &mut JsonValue)
    ensures
        final(c).deep() == component_joint(old(c).deep()),
{
    proof {
        reveal_strlit("joint");
        reveal_strlit("attach_to");
    }
    let v = take_json(c);
    let ghost vd = v.deep();
    let out = match v {
        JsonValue::Object(mut entries) => {
            let ghost o = entries_view(entries@);
            assert(vd == Json::Obj(o));
            if let Some(joint) = obj_remove(&mut entries, "joint") {
                let ghost jv = joint.deep();
                match obj_remove(&mut entries, "attach_to") {
                    Some(JsonValue::Object(mut attach)) => {
                        let ghost a = entries_view(attach@);
                        if obj_get(&attach, "joint").is_some() {
                            obj_insert(&mut entries, owned("attach_to"), JsonValue::Object(attach));
                            proof {
                                assert(entries_view(entries@) =~= o.remove("joint"@));
                                assert(o.contains_key("joint"@));
                                assert(o.contains_key("attach_to"@));
                                assert(o["attach_to"@] == Json::Obj(a));
                                assert(a.contains_key("joint"@));
                                assert(Json::Obj(entries_view(entries@)) == component_joint(vd));
                            }
                        } else {
                            obj_insert(&mut attach, owned("joint"), joint);
                            obj_insert(&mut entries, owned("attach_to"), JsonValue::Object(attach));
                            proof {
                                assert(entries_view(entries@) =~= o.remove("joint"@).insert(
                                    "attach_to"@,
                                    Json::Obj(a.insert("joint"@, jv)),
                                ));
                                assert(Json::Obj(entries_view(entries@)) == component_joint(vd));
                            }
                        }
                    },
                    Some(other) => {
                        let ghost od = other.deep();
                        obj_insert(&mut entries, owned("attach_to"), other);
                        obj_insert(&mut entries, owned("joint"), joint);
                        proof {
                            assert(entries_view(entries@) =~= o);
                            assert(!(od is Obj));
                            assert(Json::Obj(entries_view(entries@)) == component_joint(vd));
                        }
                    },
                    None => {
                        obj_insert(&mut entries, owned("joint"), joint);
                        proof {
                            reveal_strlit("joint");
                            reveal_strlit("attach_to");
                            assert("attach_to"@.len() != "joint"@.len());
                            assert(!o.contains_key("attach_to"@));
                            assert(entries_view(entries@) =~= o);
                            assert(Json::Obj(entries_view(entries@)) == component_joint(vd));
                        }
                    },
                }
            } else {
                proof {
                    assert(entries_view(entries@) =~= o);
                }
            }
            JsonValue::Object(entries)
        },
        other => other,
    };
    *c = out;
}

/// Applies `normalize_component_joint` to each item of an array.
fn normalize_each_component_joint(arr: Vec<JsonValue>) -> (out: Vec<JsonValue>)
    ensures
        seq_view(out@) == seq_view(arr@).map_values(|c: Json| component_joint(c)),
{
    let ghost all = arr@;
    let mut rest = arr;
    let mut out: Vec<JsonValue> = Vec::new();
    let mut i: usize = 0;
    proof {
        lemma_seq_view(all);
        assert(all.skip(0) =~= all);
        assert(all.len() == rest.len());
        assert(seq_view(out@) =~= seq_view(all).map_values(|c: Json| component_joint(c)).take(0));
    }
    while rest.len() > 0
        invariant
            all.len() == i + rest@.len(),
            all.len() <= usize::MAX,
            rest@ == all.skip(i as int),
            seq_view(all).len() == all.len(),
            forall|t: int| 0 <= t < all.len() ==> #[trigger] seq_view(all)[t] == all[t].deep(),
            seq_view(out@) == seq_view(all).map_values(|c: Json| component_joint(c)).take(i as int),
        decreases rest.len(),
    {
        let mut c = rest.remove(0);
        proof {
            assert(all.skip(i + 1) =~= rest@);
            assert(all[i as int] == c);
        }
        normalize_component_joint(&mut c);
        let ghost out0 = out@;
        out.push(c);
        proof {
            lemma_seq_view_push(out0, c);
            assert(seq_view(out@) =~= seq_view(all).map_values(|c: Json| component_joint(c)).take(i + 1));
        }
        i = i + 1;
    }
    proof {
        assert(seq_view(all).map_values(|c: Json| component_joint(c)).take(i as int) =~= seq_view(
            all,
        ).map_values(|c: Json| component_joint(c)));
    }
    out
}

/// Moves a component-level `joint` into the component's `attach_to` object,
/// for every component of a plan: when the attachment already has a joint
/// the misplaced one is dropped, and without an object `attach_to` it stays
/// where it is for the schema check to report.
pub fn normalize_ai_plan_component_joint_fields(json_value: &mut JsonValue)
    ensures
        final(json_value).deep() == component_joint_fields(old(json_value).deep()),
{
    if let JsonValue::Object(entries) = json_value {
        let ghost m = entries_view(entries@);
        match obj_remove(entries, "components") {
            Some(JsonValue::Array(arr)) => {
                let out = normalize_each_component_joint(arr);
                obj_insert(entries, owned("components"), JsonValue::Array(out));
                proof {
                    assert(entries_view(entries@) =~= m.insert(
                        "components"@,
                        Json::Arr(m["components"@]->Arr_0.map_values(|c: Json| component_joint(c))),
                    ));
                }
            },
            Some(other) => {
                obj_insert(entries, owned("components"), other);
                proof {
                    assert(entries_view(entries@) =~= m);
                }
            },
            None => {
                proof {
                    assert(entries_view(entries@) =~= m);
                }
            },
        }
    }
}

/// Whether `k` is one of the top-level fields a plan may have.
fn is_plan_key_exec(k: &String) -> (b: bool)
    ensures
        b == is_plan_key(k@),
{
    let cs = chars_of(k.as_str());
    eq_str(&cs, "version") || eq_str(&cs, "rig") || eq_str(&cs, "mobility") || eq_str(&cs, "attack")
        || eq_str(&cs, "aim") || eq_str(&cs, "collider") || eq_str(&cs, "assembly_notes") || eq_str(
        &cs,
        "root_component",
    ) || eq_str(&cs, "reuse_groups") || eq_str(&cs, "components")
}

/// Drops the top-level fields of a plan object that the plan schema does not
/// know: all but `version`, `rig`, `mobility`, `attack`, `aim`, `collider`,
/// `assembly_notes`, `root_component`, `reuse_groups` and `components`.
pub fn normalize_ai_plan_top_level_fields(json_value: &mut JsonValue)
    ensures
        final(json_value).deep() == top_level_fields(old(json_value).deep()),
{
    if let JsonValue::Object(entries) = json_value {
        let ghost allowed = Set::new(|k: Seq<char>| is_plan_key(k));
        let mut rest: Vec<(String, JsonValue)> = Vec::new();
        std::mem::swap(&mut rest, entries);
        let ghost all = rest@;
        let mut kept: Vec<(String, JsonValue)> = Vec::new();
        let mut i: usize = 0;
        proof {
            assert(all.skip(0) =~= all);
            assert(all.len() == rest.len());
            assert(entries_view(all.take(0)) =~= Map::<Seq<char>, Json>::empty());
            assert(entries_view(kept@) =~= entries_view(all.take(0)).restrict(allowed));
        }
        while rest.len() > 0
            invariant
                all.len() == i + rest@.len(),
                all.len() <= usize::MAX,
                rest@ == all.skip(i as int),
                allowed == Set::new(|k: Seq<char>| is_plan_key(k)),
                entries_view(kept@) == entries_view(all.take(i as int)).restrict(allowed),
            decreases rest.len(),
        {
            let e = rest.remove(0);
            proof {
                assert(all.skip(i + 1) =~= rest@);
                assert(all.take(i + 1) =~= all.take(i as int).push(e));
                lemma_entries_view_push(all.take(i as int), e);
            }
            if is_plan_key_exec(&e.0) {
                let ghost kept0 = kept@;
                kept.push(e);
                proof {
                    lemma_entries_view_push(kept0, e);
                    assert(entries_view(kept@) =~= entries_view(all.take(i + 1)).restrict(allowed));
                }
            } else {
                proof {
                    assert(entries_view(kept@) =~= entries_view(all.take(i + 1)).restrict(allowed));
                }
            }
            i = i + 1;
        }
        proof {
            assert(all.take(i as int) =~= all);
        }
        *entries = kept;
    }
}

/// `n` holds `name` exactly when `component_name` gives it.
pub open spec fn name_matches(n: Option<String>, name: Option<Seq<char>>) -> bool {
    match n {
        Some(s) => name == Some(s@),
        None => name is None,
    }
}

/// The trimmed names of the components, where they have non-empty ones.
fn component_names(comps: &Vec<JsonValue>) -> (names: Vec<Option<String>>)
    ensures
        names@.len() == comps@.len(),
        forall|k: int| 0 <= k < comps@.len() ==> name_matches(#[trigger] names@[k], component_name(comps@[k].deep())),
{
    let mut names: Vec<Option<String>> = Vec::new();
    let mut k: usize = 0;
    while k < comps.len()
        invariant
            k <= comps@.len(),
            names@.len() == k,
            forall|j: int| 0 <= j < k ==> name_matches(#[trigger] names@[j], component_name(comps@[j].deep())),
        decreases comps.len() - k,
    {
        let n: Option<String> = match &comps[k] {
            JsonValue::Object(e) => match obj_get(e, "name") {
                Some(JsonValue::String(s)) => {
                    if is_blank(s) {
                        None
                    } else {
                        Some(trim_str(s.as_str()))
                    }
                },
                _ => None,
            },
            _ => None,
        };
        names.push(n);
        k = k + 1;
    }
    names
}

/// The position of the last component named `cn`.
fn find_component(names: &Vec<Option<String>>, cn: &String, Ghost(comps): Ghost<Seq<Json>>) -> (r: Option<usize>)
    requires
        names@.len() == comps.len(),
        forall|k: int| 0 <= k < comps.len() ==> name_matches(#[trigger] names@[k], component_name(comps[k])),
    ensures
        match r {
            Some(i) => i < comps.len() && component_index(comps, cn@) == Some(i as int),
            None => component_index(comps, cn@) is None,
        },
{
    let mut i: usize = names.len();
    assert(comps.take(i as int) =~= comps);
    while i > 0
        invariant
            i <= comps.len(),
            names@.len() == comps.len(),
            forall|k: int| 0 <= k < comps.len() ==> name_matches(#[trigger] names@[k], component_name(comps[k])),
            component_index(comps, cn@) == component_index(comps.take(i as int), cn@),
        decreases i,
    {
        proof {
            assert(comps.take(i as int).drop_last() =~= comps.take(i - 1));
            assert(comps.take(i as int).last() == comps[i - 1]);
        }
        i = i - 1;
        let hit = match &names[i] {
            Some(s) => *s == *cn,
            None => false,
        };
        proof {
            assert(name_matches(names@[i as int], component_name(comps[i as int])));
        }
        if hit {
            return Some(i);
        }
    }
    None
}

/// The view of a vector after replacing one element by removing it and
/// inserting another at the same place.
proof fn lemma_remove_insert(s: Seq<JsonValue>, i: int, v: JsonValue)
    requires
        0 <= i < s.len(),
    ensures
        s.remove(i).insert(i, v) == s.update(i, v),
{
    assert(s.remove(i).insert(i, v) =~= s.update(i, v));
}

/// `hoist_step` for one node.
fn hoist_one(
    comps: &mut Vec<JsonValue>,
    left: &mut Vec<JsonValue>,
    node: JsonValue,
    names: &Vec<Option<String>>,
    Ghost(src): Ghost<Seq<Json>>,
)
    requires
        names@.len() == src.len(),
        old(comps)@.len() == src.len(),
        forall|k: int| 0 <= k < src.len() ==> name_matches(#[trigger] names@[k], component_name(src[k])),
    ensures
        final(comps)@.len() == old(comps)@.len(),
        (seq_view(final(comps)@), seq_view(final(left)@)) == hoist_step(
            seq_view(old(comps)@),
            seq_view(old(left)@),
            node.deep(),
            src,
        ),
{
    proof {
        reveal_strlit("component");
        reveal_strlit("bind_part_indices");
        reveal_strlit("articulation_nodes");
        lemma_seq_view(comps@);
    }
    let ghost nd = node.deep();
    let ghost c0 = comps@;
    let ghost l0 = left@;
    match node {
        JsonValue::Object(mut o) => {
            let ghost om = entries_view(o@);
            let comp_field = obj_remove(&mut o, "component");
            let _ = obj_remove(&mut o, "bind_part_indices");
            let ghost o2 = entries_view(o@);
            proof {
                assert(o2 =~= om.remove("component"@).remove("bind_part_indices"@));
            }
            let cname: Option<String> = match comp_field {
                Some(JsonValue::String(s)) => {
                    if is_blank(&s) {
                        None
                    } else {
                        Some(trim_str(s.as_str()))
                    }
                },
                _ => None,
            };
            match cname {
                None => {
                    left.push(JsonValue::Object(o));
                    proof {
                        lemma_seq_view_push(l0, left@.last());
                    }
                },
                Some(cn) => {
                    match find_component(names, &cn, Ghost(src)) {
                        None => {
                            let ghost cnv = cn@;
                            obj_insert(&mut o, owned("component"), JsonValue::String(cn));
                            left.push(JsonValue::Object(o));
                            proof {
                                lemma_seq_view_push(l0, left@.last());
                                assert(entries_view(o@) =~= o2.insert("component"@, Json::Str(cnv)));
                            }
                        },
                        Some(i) => {
                            let c = comps.remove(i);
                            proof {
                                assert(c == c0[i as int]);
                            }
                            match c {
                                JsonValue::Object(mut ce) => {
                                    let ghost cm = entries_view(ce@);
                                    match obj_remove(&mut ce, "articulation_nodes") {
                                        None => {
                                            let mut t: Vec<JsonValue> = Vec::new();
                                            t.push(JsonValue::Object(o));
                                            proof {
                                                assert(t@ =~= Seq::<JsonValue>::empty().push(t@[0]));
                                                lemma_seq_view_push(Seq::empty(), t@[0]);
                                                assert(seq_view(Seq::<JsonValue>::empty()) =~= Seq::<Json>::empty());
                                            }
                                            obj_insert(&mut ce, owned("articulation_nodes"), JsonValue::Array(t));
                                            let ghost nc = JsonValue::Object(ce);
                                            comps.insert(i, JsonValue::Object(ce));
                                            proof {
                                                assert(entries_view(ce@) =~= cm.insert(
                                                    "articulation_nodes"@,
                                                    Json::Arr(seq![Json::Obj(o2)]),
                                                ));
                                                lemma_remove_insert(c0, i as int, comps@[i as int]);
                                                lemma_seq_view_update(c0, i as int, comps@[i as int]);
                                            }
                                        },
                                        Some(JsonValue::Array(mut t)) => {
                                            let ghost t0 = t@;
                                            t.push(JsonValue::Object(o));
                                            proof {
                                                lemma_seq_view_push(t0, t@.last());
                                            }
                                            obj_insert(&mut ce, owned("articulation_nodes"), JsonValue::Array(t));
                                            comps.insert(i, JsonValue::Object(ce));
                                            proof {
                                                assert(entries_view(ce@) =~= cm.insert(
                                                    "articulation_nodes"@,
                                                    Json::Arr(seq_view(t0).push(Json::Obj(o2))),
                                                ));
                                                lemma_remove_insert(c0, i as int, comps@[i as int]);
                                                lemma_seq_view_update(c0, i as int, comps@[i as int]);
                                            }
                                        },
                                        Some(other) => {
                                            obj_insert(&mut ce, owned("articulation_nodes"), other);
                                            comps.insert(i, JsonValue::Object(ce));
                                            left.push(JsonValue::Object(o));
                                            proof {
                                                assert(entries_view(ce@) =~= cm);
                                                lemma_remove_insert(c0, i as int, comps@[i as int]);
                                                lemma_seq_view_update(c0, i as int, comps@[i as int]);
                                                assert(seq_view(comps@) =~= seq_view(c0));
                                                lemma_seq_view_push(l0, left@.last());
                                            }
                                        },
                                    }
                                },
                                other => {
                                    comps.insert(i, other);
                                    left.push(JsonValue::Object(o));
                                    proof {
                                        assert(comps@ =~= c0);
                                        lemma_seq_view_push(l0, left@.last());
                                    }
                                },
                            }
                        },
                    }
                },
            }
        },
        other => {
            left.push(other);
            proof {
                lemma_seq_view_push(l0, left@.last());
            }
        },
    }
}

/// Moves rig articulation nodes into the components they name; returns the
/// nodes left over.
fn hoist_nodes(comps: &mut Vec<JsonValue>, nodes: Vec<JsonValue>) -> (left: Vec<JsonValue>)
    ensures
        (seq_view(final(comps)@), seq_view(left@)) == hoist(
            seq_view(old(comps)@),
            seq_view(nodes@),
            seq_view(old(comps)@),
        ),
{
    let ghost src = seq_view(comps@);
    let names = component_names(comps);
    proof {
        lemma_seq_view(comps@);
    }
    let ghost all = nodes@;
    let mut rest = nodes;
    let mut left: Vec<JsonValue> = Vec::new();
    let mut i: usize = 0;
    proof {
        assert(all.skip(0) =~= all);
        assert(all.len() == rest.len());
        assert(all.take(0) =~= Seq::<JsonValue>::empty());
        assert(seq_view(Seq::<JsonValue>::empty()) =~= Seq::<Json>::empty());
        assert(seq_view(left@) =~= Seq::<Json>::empty());
    }
    while rest.len() > 0
        invariant
            all.len() == i + rest@.len(),
            all.len() <= usize::MAX,
            rest@ == all.skip(i as int),
            names@.len() == src.len(),
            comps@.len() == src.len(),
            src == seq_view(old(comps)@),
            forall|k: int| 0 <= k < src.len() ==> name_matches(#[trigger] names@[k], component_name(src[k])),
            (seq_view(comps@), seq_view(left@)) == hoist(src, seq_view(all.take(i as int)), src),
        decreases rest.len(),
    {
        let node = rest.remove(0);
        proof {
            assert(all.skip(i + 1) =~= rest@);
            assert(all.take(i + 1) =~= all.take(i as int).push(node));
            lemma_seq_view_push(all.take(i as int), node);
            assert(seq_view(all.take(i + 1)).drop_last() =~= seq_view(all.take(i as int)));
        }
        hoist_one(comps, &mut left, node, &names, Ghost(src));
        i = i + 1;
    }
    proof {
        assert(all.take(i as int) =~= all);
    }
    left
}

/// Entries stand for the empty map exactly when there are none.
proof fn lemma_entries_view_empty(s: Seq<(String, JsonValue)>)
    ensures
        (entries_view(s) == Map::<Seq<char>, Json>::empty()) == (s.len() == 0),
{
    if s.len() > 0 {
        assert(entries_view(s).contains_key(s.last().0@));
    } else {
        assert(entries_view(s) =~= Map::<Seq<char>, Json>::empty());
    }
}

/// Drops `rig.named_motions` from a plan and moves the nodes of
/// `rig.articulation_nodes` (an array, a single object, or null for none)
/// into the `articulation_nodes` of the components they name, looked up by
/// trimmed name (the last component of a name wins); each moved node loses
/// its `component` and `bind_part_indices` fields. Nodes that cannot be
/// moved stay under the rig, and a rig left empty is removed.
pub fn normalize_ai_plan_rig_motion_fields(json_value: &mut JsonValue)
    ensures
        final(json_value).deep() == rig_motion_fields(old(json_value).deep()),
{
    proof {
        reveal_strlit("rig");
        reveal_strlit("named_motions");
        reveal_strlit("articulation_nodes");
        reveal_strlit("components");
    }
    let v = take_json(json_value);
    let ghost vd = v.deep();
    let out = match v {
        JsonValue::Object(mut entries) => {
            let ghost m = entries_view(entries@);
            match obj_remove(&mut entries, "rig") {
                None => {
                    proof {
                        assert(entries_view(entries@) =~= m);
                    }
                },
                Some(JsonValue::Object(mut rig)) => {
                    let ghost m0 = entries_view(entries@);
                    let ghost r = entries_view(rig@);
                    let _ = obj_remove(&mut rig, "named_motions");
                    let ghost r1 = entries_view(rig@);
                    // The plan and rig maps the result is made of.
                    let ghost mut mf = m0;
                    let ghost mut rf = r1;
                    match obj_remove(&mut rig, "articulation_nodes") {
                        None => {},
                        Some(raw) => {
                            let ghost rawv = raw.deep();
                            let ghost r2 = entries_view(rig@);
                            proof {
                                rf = r2;
                            }
                            let nodes: Vec<JsonValue> = match raw {
                                JsonValue::Array(a) => a,
                                JsonValue::Null => Vec::new(),
                                JsonValue::Object(o) => {
                                    let mut one: Vec<JsonValue> = Vec::new();
                                    one.push(JsonValue::Object(o));
                                    proof {
                                        assert(one@ =~= Seq::<JsonValue>::empty().push(one@[0]));
                                        lemma_seq_view_push(Seq::empty(), one@[0]);
                                        assert(seq_view(Seq::<JsonValue>::empty()) =~= Seq::<Json>::empty());
                                    }
                                    one
                                },
                                other => {
                                    obj_insert(&mut rig, owned("articulation_nodes"), other);
                                    proof {
                                        rf = r2.insert("articulation_nodes"@, rawv);
                                    }
                                    Vec::new()
                                },
                            };
                            proof {
                                lemma_seq_view(nodes@);
                                assert(seq_view(Seq::<JsonValue>::empty()) =~= Seq::<Json>::empty());
                                if nodes@.len() > 0 {
                                    assert(seq_view(nodes@) == match rawv {
                                        Json::Arr(a) => a,
                                        Json::Obj(_) => seq![rawv],
                                        _ => Seq::empty(),
                                    });
                                }
                            }
                            if nodes.len() > 0 {
                                match obj_remove(&mut entries, "components") {
                                    Some(JsonValue::Array(mut comps)) => {
                                        let ghost cv = seq_view(comps@);
                                        let ghost nv = seq_view(nodes@);
                                        let left = hoist_nodes(&mut comps, nodes);
                                        let ghost c2 = seq_view(comps@);
                                        let ghost lv = seq_view(left@);
                                        obj_insert(&mut entries, owned("components"), JsonValue::Array(comps));
                                        proof {
                                            lemma_seq_view(left@);
                                            mf = m0.insert("components"@, Json::Arr(c2));
                                            assert(entries_view(entries@) =~= mf);
                                        }
                                        if left.len() > 0 {
                                            obj_insert(&mut rig, owned("articulation_nodes"), JsonValue::Array(left));
                                            proof {
                                                rf = r2.insert("articulation_nodes"@, Json::Arr(lv));
                                            }
                                        }
                                    },
                                    Some(other) => {
                                        obj_insert(&mut entries, owned("components"), other);
                                        let ghost nv = seq_view(nodes@);
                                        obj_insert(&mut rig, owned("articulation_nodes"), JsonValue::Array(nodes));
                                        proof {
                                            assert(entries_view(entries@) =~= m0);
                                            rf = r2.insert("articulation_nodes"@, Json::Arr(nv));
                                        }
                                    },
                                    None => {
                                        let ghost nv = seq_view(nodes@);
                                        obj_insert(&mut rig, owned("articulation_nodes"), JsonValue::Array(nodes));
                                        proof {
                                            assert(entries_view(entries@) =~= m0);
                                            rf = r2.insert("articulation_nodes"@, Json::Arr(nv));
                                        }
                                    },
                                }
                            }
                        },
                    }
                    proof {
                        assert(entries_view(entries@) == mf);
                        assert(entries_view(rig@) == rf);
                        lemma_entries_view_empty(rig@);
                        assert(rig_motion_fields(vd) == put_rig(mf, rf));
                    }
                    if rig.len() > 0 {
                        obj_insert(&mut entries, owned("rig"), JsonValue::Object(rig));
                    }
                },
                Some(other) => {
                    obj_insert(&mut entries, owned("rig"), other);
                    proof {
                        assert(entries_view(entries@) =~= m);
                    }
                },
            }
            JsonValue::Object(entries)
        },
        other => other,
    };
    *json_value = out;
}

// ---------------------------------------------------------------------------
// Laws
// ---------------------------------------------------------------------------

/// Joined lines start with the first line's first character and end with
/// the last line's last character.
proof fn lemma_join_lines_ends(parts: Seq<Seq<char>>)
    requires
        parts.len() > 0,
        forall|i: int| 0 <= i < parts.len() ==> (#[trigger] parts[i]).len() > 0,
    ensures
        join_lines(parts).len() > 0,
        join_lines(parts)[0] == parts[0][0],
        join_lines(parts).last() == parts.last().last(),
    decreases parts.len(),
{
    if parts.len() > 1 {
        let p = parts.drop_last();
        assert forall|i: int| 0 <= i < p.len() implies (#[trigger] p[i]).len() > 0 by {
            assert(p[i] == parts[i]);
        }
        lemma_join_lines_ends(p);
        assert(p[0] == parts[0]);
    }
}

/// The lines kept from an array are non-empty trimmed texts.
proof fn lemma_nonempty_trimmed_lines(items: Seq<Json>)
    ensures
        forall|i: int| 0 <= i < nonempty_trimmed(items).len() ==> {
            let l = #[trigger] nonempty_trimmed(items)[i];
            &&& l.len() > 0
            &&& !crate::text::is_ws(l[0])
            &&& !crate::text::is_ws(l.last())
        },
    decreases items.len(),
{
    if items.len() > 0 {
        let rest = nonempty_trimmed(items.drop_last());
        lemma_nonempty_trimmed_lines(items.drop_last());
        match items.last() {
            Json::Str(s) => {
                crate::text::lemma_trim_ends(s);
            },
            _ => {},
        }
        assert forall|i: int| 0 <= i < nonempty_trimmed(items).len() implies {
            let l = #[trigger] nonempty_trimmed(items)[i];
            &&& l.len() > 0
            &&& !crate::text::is_ws(l[0])
            &&& !crate::text::is_ws(l.last())
        } by {
            if i < rest.len() {
                assert(nonempty_trimmed(items)[i] == rest[i]);
            }
        }
    }
}

/// Repairing a nullable text field twice is repairing it once.
pub proof fn lemma_nullable_text_idempotent(v: Json)
    ensures
        nullable_text(nullable_text(v)) == nullable_text(v),
{
    match v {
        Json::Arr(items) => {
            let parts = nonempty_trimmed(items);
            if parts.len() > 0 {
                lemma_nonempty_trimmed_lines(items);
                assert forall|i: int| 0 <= i < parts.len() implies (#[trigger] parts[i]).len() > 0 by {
                    let l = parts[i];
                    assert(l == nonempty_trimmed(items)[i]);
                }
                lemma_join_lines_ends(parts);
                crate::text::lemma_trim_fixed(join_lines(parts));
            }
        },
        Json::Str(s) => {
            crate::text::lemma_trim_idempotent(s);
        },
        _ => {},
    }
}

/// Rewriting a keyed collection as an array twice is doing it once: the
/// result is an array (left as it is) unless the value was neither null nor
/// an object.
pub proof fn lemma_named_map_to_array_idempotent(v: Json, name_key: Seq<char>)
    ensures
        named_map_to_array(named_map_to_array(v, name_key), name_key) == named_map_to_array(v, name_key),
        v is Null || v is Obj ==> named_map_to_array(v, name_key) is Arr,
{
}

/// Wrapping in an array twice is wrapping once.
pub proof fn lemma_singleton_array_idempotent(v: Json)
    ensures
        singleton_array(singleton_array(v)) == singleton_array(v),
{
}

/// After dropping unknown top-level fields only plan fields remain, and
/// dropping again changes nothing.
pub proof fn lemma_top_level_fields_only_plan_keys(j: Json)
    ensures
        top_level_fields(j) matches Json::Obj(m) ==> forall|k: Seq<char>| #[trigger] m.contains_key(k)
            ==> is_plan_key(k),
        top_level_fields(top_level_fields(j)) == top_level_fields(j),
{
    match j {
        Json::Obj(m) => {
            let a = Set::new(|k: Seq<char>| is_plan_key(k));
            assert(m.restrict(a).restrict(a) =~= m.restrict(a));
        },
        _ => {},
    }
}

/// After the joint repair, a component attached through an object has no
/// component-level joint.
pub proof fn lemma_component_joint_moved(c: Json)
    ensures
        component_joint(c) matches Json::Obj(o) ==> (o.contains_key("attach_to"@)
            && o["attach_to"@] is Obj ==> !o.contains_key("joint"@)),
{
    reveal_strlit("joint");
    reveal_strlit("attach_to");
    assert("attach_to"@.len() != "joint"@.len());
    match c {
        Json::Obj(o) => {
            if o.contains_key("joint"@) && o.contains_key("attach_to"@) {
                match o["attach_to"@] {
                    Json::Obj(a) => {
                        if !a.contains_key("joint"@) {
                            let r = o.remove("joint"@).insert("attach_to"@, Json::Obj(a.insert("joint"@, o["joint"@])));
                            assert(!r.contains_key("joint"@));
                        }
                    },
                    _ => {},
                }
            }
        },
        _ => {},
    }
}

/// After the rig repair, a rig that is an object has no `named_motions` and
/// is not empty.
pub proof fn lemma_rig_motion_fields_clean(j: Json)
    ensures
        rig_motion_fields(j) matches Json::Obj(m) ==> (m.contains_key("rig"@) && m["rig"@] is Obj ==> {
            let r = m["rig"@]->Obj_0;
            &&& !r.contains_key("named_motions"@)
            &&& r != Map::<Seq<char>, Json>::empty()
        }),
{
    reveal_strlit("rig");
    reveal_strlit("named_motions");
    reveal_strlit("articulation_nodes");
    reveal_strlit("components");
}

} // verus!
