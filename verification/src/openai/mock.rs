//! The decisions of the offline `mock://gen3d` provider used to exercise the
//! pipeline without network access: which canned reply a request gets, and
//! the values it reads back from the request text.
use vstd::prelude::*;

use crate::text::{
    chars_of, contains, contains_str, eq_str, has_prefix, lower, lower_chars, owned,
    sort_distinct_strings, sorted_set, split_lines, split_words, starts_with, string_from_chars,
    strings_view, strip_prefix, strip_prefix_chars, text_lines, trim, trim_vec, words, slice_chars,
    push_str,
};

verus! {

/// The kind of creature or vehicle a mock reply is about.
#[derive(Clone, Copy, Debug, PartialEq, Eq, Structural)]
pub enum MockKind {
    Warcar,
    Snake,
    Octopus,
    Mantis,
}

/// The canned reply a request gets, by its artifact prefix.
#[derive(Clone, Copy, Debug, PartialEq, Eq, Structural)]
pub enum MockReply {
    PromptIntent,
    PlanOps,
    Review,
    DraftOps,
    Plan,
    Component,
    Motion,
    DescriptorMeta,
    Unsupported,
}

// ---------------------------------------------------------------------------
// Specifications
// ---------------------------------------------------------------------------

/// The kind named in a prompt, checked in this order: octopus, mantis,
/// snake; anything else (a warcar, cannon or tank included) is a warcar.
pub open spec fn mock_kind(text: Seq<char>) -> MockKind {
    let t = lower(text);
    if contains(t, "octopus"@) {
        MockKind::Octopus
    } else if contains(t, "mantis"@) {
        MockKind::Mantis
    } else if contains(t, "snake"@) {
        MockKind::Snake
    } else {
        MockKind::Warcar
    }
}

/// The canned reply for an artifact prefix.
pub open spec fn mock_reply(prefix: Seq<char>) -> MockReply {
    if prefix == "prompt_intent"@ {
        MockReply::PromptIntent
    } else if has_prefix(prefix, "tool_plan_ops_"@) {
        MockReply::PlanOps
    } else if has_prefix(prefix, "tool_review_"@) {
        MockReply::Review
    } else if has_prefix(prefix, "tool_draft_ops_"@) {
        MockReply::DraftOps
    } else if has_prefix(prefix, "tool_plan_"@) {
        MockReply::Plan
    } else if has_prefix(prefix, "tool_component"@) {
        MockReply::Component
    } else if has_prefix(prefix, "tool_motion_"@) {
        MockReply::Motion
    } else if prefix == "descriptor_meta"@ {
        MockReply::DescriptorMeta
    } else {
        MockReply::Unsupported
    }
}

/// The value of a run of decimal digits.
pub open spec fn digits_value(s: Seq<char>) -> nat
    decreases s.len(),
{
    if s.len() == 0 {
        0
    } else {
        digits_value(s.drop_last()) * 10 + (s.last() as nat - 48) as nat
    }
}

/// Every character is an ASCII digit.
pub open spec fn all_digits(s: Seq<char>) -> bool {
    forall|i: int| 0 <= i < s.len() ==> '0' <= #[trigger] s[i] && s[i] <= '9'
}

/// `u32::from_str`: an optional `+` and at least one digit, within range.
pub open spec fn parse_u32(s: Seq<char>) -> Option<u32> {
    let d = if s.len() > 0 && s[0] == '+' {
        s.drop_first()
    } else {
        s
    };
    if d.len() > 0 && all_digits(d) && digits_value(d) <= u32::MAX {
        Some(digits_value(d) as u32)
    } else {
        None
    }
}

/// The fields of a request's `applies_to` block read so far.
pub struct AppliesToScan {
    pub run_id: Option<Seq<char>>,
    pub attempt: Option<u32>,
    pub plan_hash: Option<Seq<char>>,
    pub assembly_rev: Option<u32>,
}

/// The `applies_to` fields after reading the lines, the last mention of a
/// field winning.
pub open spec fn applies_to_scan(lines: Seq<Seq<char>>) -> AppliesToScan
    decreases lines.len(),
{
    if lines.len() == 0 {
        AppliesToScan { run_id: None, attempt: None, plan_hash: None, assembly_rev: None }
    } else {
        let a = applies_to_scan(lines.drop_last());
        let l = trim(lines.last());
        match strip_prefix(l, "- run_id:"@) {
            Some(v) => AppliesToScan { run_id: Some(trim(v)), ..a },
            None => match strip_prefix(l, "- attempt:"@) {
                Some(v) => AppliesToScan { attempt: parse_u32(trim(v)), ..a },
                None => match strip_prefix(l, "- plan_hash:"@) {
                    Some(v) => AppliesToScan { plan_hash: Some(trim(v)), ..a },
                    None => match strip_prefix(l, "- assembly_rev:"@) {
                        Some(v) => AppliesToScan { assembly_rev: parse_u32(trim(v)), ..a },
                        None => a,
                    },
                },
            },
        }
    }
}

/// The child names listed as `- child=<name> ...`, in order.
pub open spec fn child_names(lines: Seq<Seq<char>>) -> Seq<Seq<char>>
    decreases lines.len(),
{
    if lines.len() == 0 {
        Seq::empty()
    } else {
        let acc = child_names(lines.drop_last());
        match strip_prefix(trim(lines.last()), "- child="@) {
            Some(rest) => if words(rest).len() > 0 {
                acc.push(words(rest)[0])
            } else {
                acc
            },
            None => acc,
        }
    }
}

/// The header line after which a component request lists its anchors.
pub open spec fn anchors_header() -> Seq<char> {
    "Required anchors for this component (MUST include all in output JSON):"@
}

/// `s` without any number of leading `- `.
pub open spec fn strip_dashes(s: Seq<char>) -> Seq<char>
    decreases s.len(),
{
    if s.len() >= 2 && s[0] == '-' && s[1] == ' ' {
        strip_dashes(s.skip(2))
    } else {
        s
    }
}

/// The text before the first `:`, if there is one.
pub open spec fn before_colon(s: Seq<char>) -> Option<Seq<char>> {
    if exists|i: int| 0 <= i < s.len() && s[i] == ':' {
        let i = choose|i: int| 0 <= i < s.len() && s[i] == ':' && forall|j: int| 0 <= j < i ==> s[j] != ':';
        Some(s.take(i))
    } else {
        None
    }
}

/// The state of reading required anchor names: inside the list, the names
/// found, and whether reading stopped.
pub struct AnchorScan {
    pub inside: bool,
    pub names: Seq<Seq<char>>,
    pub stopped: bool,
}

/// Reads the anchor list: it starts after the header line; items are
/// `- <name>: ...` lines; blank lines are skipped; the first other line after
/// a name ends it.
pub open spec fn anchor_scan(lines: Seq<Seq<char>>) -> AnchorScan
    decreases lines.len(),
{
    if lines.len() == 0 {
        AnchorScan { inside: false, names: Seq::empty(), stopped: false }
    } else {
        let a = anchor_scan(lines.drop_last());
        let l = trim(lines.last());
        if a.stopped {
            a
        } else if l == anchors_header() {
            AnchorScan { inside: true, ..a }
        } else if !a.inside {
            a
        } else if !has_prefix(l, "- "@) {
            if l.len() == 0 || a.names.len() == 0 {
                a
            } else {
                AnchorScan { stopped: true, ..a }
            }
        } else {
            match before_colon(trim(strip_dashes(l))) {
                Some(n) => if trim(n).len() > 0 {
                    AnchorScan { names: a.names.push(trim(n)), ..a }
                } else {
                    a
                },
                None => a,
            }
        }
    }
}

/// The first usable `target_channel:` value.
pub open spec fn target_channel(lines: Seq<Seq<char>>) -> Option<Seq<char>>
    decreases lines.len(),
{
    if lines.len() == 0 {
        None
    } else {
        let c = strip_prefix(trim(lines[0]), "target_channel:"@);
        if c is Some && trim(c->0).len() > 0 && trim(c->0) != "unknown"@ {
            Some(trim(c->0))
        } else {
            target_channel(lines.drop_first())
        }
    }
}

// ---------------------------------------------------------------------------
// Executable decisions
// ---------------------------------------------------------------------------

/// The kind named in a prompt.
pub fn mock_kind_from_text(text: &str) -> (k: MockKind)
    ensures
        k == mock_kind(text@),
{
    let t = lower_chars(&chars_of(text));
    if contains_str(&t, "octopus") {
        MockKind::Octopus
    } else if contains_str(&t, "mantis") {
        MockKind::Mantis
    } else if contains_str(&t, "snake") {
        MockKind::Snake
    } else {
        MockKind::Warcar
    }
}

/// The component names of the mock plan for each kind, root first.
pub open spec fn kind_components(kind: MockKind) -> Seq<Seq<char>> {
    match kind {
        MockKind::Warcar => seq!["chassis"@, "wheels"@, "turret"@, "cannon"@, "details"@],
        MockKind::Snake => seq!["body"@, "seg_0"@, "seg_1"@, "seg_2"@, "seg_3"@, "seg_4"@, "seg_5"@],
        MockKind::Octopus => seq![
            "body"@,
            "tentacle_0"@,
            "tentacle_1"@,
            "tentacle_2"@,
            "tentacle_3"@,
            "tentacle_4"@,
            "tentacle_5"@,
            "tentacle_6"@,
            "tentacle_7"@,
        ],
        MockKind::Mantis => seq![
            "body"@,
            "head"@,
            "arm_l"@,
            "arm_r"@,
            "leg_fl"@,
            "leg_fr"@,
            "leg_ml"@,
            "leg_mr"@,
            "leg_bl"@,
            "leg_br"@,
        ],
    }
}

/// The components of a mock plan for a kind.
pub fn components_for_kind(kind: MockKind) -> (names: Vec<&'static str>)
    ensures
        names@.map_values(|n: &'static str| n@) == kind_components(kind),
{
    let mut v: Vec<&'static str> = Vec::new();
    match kind {
        MockKind::Warcar => {
            v.push("chassis");
            v.push("wheels");
            v.push("turret");
            v.push("cannon");
            v.push("details");
        },
        MockKind::Snake => {
            v.push("body");
            v.push("seg_0");
            v.push("seg_1");
            v.push("seg_2");
            v.push("seg_3");
            v.push("seg_4");
            v.push("seg_5");
        },
        MockKind::Octopus => {
            v.push("body");
            v.push("tentacle_0");
            v.push("tentacle_1");
            v.push("tentacle_2");
            v.push("tentacle_3");
            v.push("tentacle_4");
            v.push("tentacle_5");
            v.push("tentacle_6");
            v.push("tentacle_7");
        },
        MockKind::Mantis => {
            v.push("body");
            v.push("head");
            v.push("arm_l");
            v.push("arm_r");
            v.push("leg_fl");
            v.push("leg_fr");
            v.push("leg_ml");
            v.push("leg_mr");
            v.push("leg_bl");
            v.push("leg_br");
        },
    }
    assert(v@.map_values(|n: &'static str| n@) =~= kind_components(kind));
    v
}

/// Whether a prompt asks for an attacking creature: everything but a snake.
pub fn mock_requires_attack(kind: MockKind) -> (b: bool)
    ensures
        b == (kind != MockKind::Snake),
{
    match kind {
        MockKind::Snake => false,
        _ => true,
    }
}

/// The canned reply for an artifact prefix.
pub fn mock_reply_for_prefix(artifact_prefix: &str) -> (r: MockReply)
    ensures
        r == mock_reply(artifact_prefix@),
{
    let p = chars_of(artifact_prefix);
    if eq_str(&p, "prompt_intent") {
        MockReply::PromptIntent
    } else if starts_with(&p, "tool_plan_ops_") {
        MockReply::PlanOps
    } else if starts_with(&p, "tool_review_") {
        MockReply::Review
    } else if starts_with(&p, "tool_draft_ops_") {
        MockReply::DraftOps
    } else if starts_with(&p, "tool_plan_") {
        MockReply::Plan
    } else if starts_with(&p, "tool_component") {
        MockReply::Component
    } else if starts_with(&p, "tool_motion_") {
        MockReply::Motion
    } else if eq_str(&p, "descriptor_meta") {
        MockReply::DescriptorMeta
    } else {
        MockReply::Unsupported
    }
}


proof fn lemma_digits_value_push(s: Seq<char>, c: char)
    ensures
        digits_value(s.push(c)) == digits_value(s) * 10 + (c as nat - 48) as nat,
{
    assert(s.push(c).drop_last() =~= s);
}

/// A longer run of digits is worth at least as much as its prefix.
proof fn lemma_digits_prefix_bound(d: Seq<char>, k: int)
    requires
        0 <= k <= d.len(),
        all_digits(d.take(k)),
    ensures
        all_digits(d) ==> digits_value(d) >= digits_value(d.take(k)),
    decreases d.len(),
{
    if k < d.len() {
        assert(d.drop_last().take(k) =~= d.take(k));
        lemma_digits_prefix_bound(d.drop_last(), k);
        if all_digits(d) {
            assert(all_digits(d.drop_last()));
        }
    } else {
        assert(d.take(k) =~= d);
    }
}

/// `u32::from_str` on a text.
pub fn parse_u32_text(s: &Vec<char>) -> (r: Option<u32>)
    ensures
        r == parse_u32(s@),
{
    let start: usize = if s.len() > 0 && s[0] == '+' {
        1
    } else {
        0
    };
    let ghost d = if s@.len() > 0 && s@[0] == '+' {
        s@.drop_first()
    } else {
        s@
    };
    proof {
        assert(d =~= s@.skip(start as int));
    }
    if start >= s.len() {
        return None;
    }
    let mut value: u64 = 0;
    let mut i: usize = start;
    proof {
        assert(s@.subrange(start as int, start as int) =~= Seq::<char>::empty());
    }
    while i < s.len()
        invariant
            start <= i <= s@.len(),
            d == (if s@.len() > 0 && s@[0] == '+' {
                s@.drop_first()
            } else {
                s@
            }),
            d == s@.skip(start as int),
            value as nat == digits_value(s@.subrange(start as int, i as int)),
            value <= u32::MAX,
            all_digits(s@.subrange(start as int, i as int)),
        decreases s.len() - i,
    {
        let c = s[i];
        let ghost prev = s@.subrange(start as int, i as int);
        let ghost next = s@.subrange(start as int, i + 1);
        proof {
            assert(next =~= prev.push(c));
            lemma_digits_value_push(prev, c);
        }
        if c < '0' || c > '9' {
            proof {
                assert(d[i - start] == c);
                assert(!all_digits(d));
            }
            return None;
        }
        proof {
            assert forall|k: int| 0 <= k < next.len() implies '0' <= #[trigger] next[k] && next[k] <= '9' by {
                if k < prev.len() {
                    assert(next[k] == prev[k]);
                }
            }
        }
        let digit = (c as u32 - 48) as u64;
        value = value * 10 + digit;
        if value > 0xFFFF_FFFF {
            proof {
                assert(d.take(i + 1 - start) =~= next);
                lemma_digits_prefix_bound(d, i + 1 - start);
            }
            return None;
        }
        i = i + 1;
    }
    proof {
        assert(s@.subrange(start as int, i as int) =~= d);
    }
    Some(value as u32)
}

/// The run id, attempt, plan hash and assembly revision a request's text
/// gives in its `- run_id:`, `- attempt:`, `- plan_hash:` and
/// `- assembly_rev:` lines; `None` unless all four are there (and the
/// numbers read).
pub fn parse_applies_to_from_user_text(user_text: &str) -> (r: Option<(String, u32, String, u32)>)
    ensures
        ({
            let a = applies_to_scan(split_lines(user_text@));
            match r {
                Some((run_id, attempt, plan_hash, rev)) => a.run_id == Some(run_id@) && a.attempt == Some(
                    attempt,
                ) && a.plan_hash == Some(plan_hash@) && a.assembly_rev == Some(rev),
                None => a.run_id is None || a.attempt is None || a.plan_hash is None
                    || a.assembly_rev is None,
            }
        }),
{
    let lines = text_lines(user_text);
    let ghost all = strings_view(lines@);
    let mut run_id: Option<String> = None;
    let mut attempt: Option<u32> = None;
    let mut plan_hash: Option<String> = None;
    let mut assembly_rev: Option<u32> = None;
    let mut i: usize = 0;
    proof {
        assert(all.take(0) =~= Seq::<Seq<char>>::empty());
    }
    while i < lines.len()
        invariant
            i <= lines@.len(),
            all == strings_view(lines@),
            ({
                let a = applies_to_scan(all.take(i as int));
                &&& a.run_id == (match run_id {
                    Some(s) => Some(s@),
                    None => None,
                })
                &&& a.attempt == attempt
                &&& a.plan_hash == (match plan_hash {
                    Some(s) => Some(s@),
                    None => None,
                })
                &&& a.assembly_rev == assembly_rev
            }),
        decreases lines.len() - i,
    {
        proof {
            assert(all.take(i + 1).drop_last() =~= all.take(i as int));
            assert(all.take(i + 1).last() == lines@[i as int]@);
        }
        let l = trim_vec(&chars_of(lines[i].as_str()));
        match strip_prefix_chars(&l, "- run_id:") {
            Some(v) => {
                run_id = Some(string_from_chars(&trim_vec(&v)));
            },
            None => match strip_prefix_chars(&l, "- attempt:") {
                Some(v) => {
                    attempt = parse_u32_text(&trim_vec(&v));
                },
                None => match strip_prefix_chars(&l, "- plan_hash:") {
                    Some(v) => {
                        plan_hash = Some(string_from_chars(&trim_vec(&v)));
                    },
                    None => match strip_prefix_chars(&l, "- assembly_rev:") {
                        Some(v) => {
                            assembly_rev = parse_u32_text(&trim_vec(&v));
                        },
                        None => {},
                    },
                },
            },
        }
        i = i + 1;
    }
    proof {
        assert(all.take(i as int) =~= all);
    }
    match (run_id, attempt, plan_hash, assembly_rev) {
        (Some(r), Some(a), Some(p), Some(v)) => Some((r, a, p, v)),
        _ => None,
    }
}

/// The children a motion-authoring request lists as `- child=<name> ...`,
/// sorted, each once.
pub fn parse_child_components_from_motion_authoring_user_text(user_text: &str) -> (out: Vec<String>)
    ensures
        strings_view(out@) == sorted_set(child_names(split_lines(user_text@)).to_set()),
{
    let lines = text_lines(user_text);
    let ghost all = strings_view(lines@);
    let mut names: Vec<String> = Vec::new();
    let mut i: usize = 0;
    proof {
        assert(all.take(0) =~= Seq::<Seq<char>>::empty());
        assert(strings_view(names@) =~= Seq::<Seq<char>>::empty());
    }
    while i < lines.len()
        invariant
            i <= lines@.len(),
            all == strings_view(lines@),
            strings_view(names@) == child_names(all.take(i as int)),
        decreases lines.len() - i,
    {
        proof {
            assert(all.take(i + 1).drop_last() =~= all.take(i as int));
            assert(all.take(i + 1).last() == lines@[i as int]@);
        }
        let l = trim_vec(&chars_of(lines[i].as_str()));
        match strip_prefix_chars(&l, "- child=") {
            Some(rest) => {
                let rest_text = string_from_chars(&rest);
                let ws = split_words(rest_text.as_str());
                if ws.len() > 0 {
                    let ghost acc = strings_view(names@);
                    let first = owned(ws[0].as_str());
                    proof {
                        assert(strings_view(ws@)[0] == ws@[0]@);
                    }
                    names.push(first);
                    proof {
                        assert(strings_view(names@) =~= acc.push(words(rest@)[0]));
                    }
                }
            },
            None => {},
        }
        i = i + 1;
    }
    proof {
        assert(all.take(i as int) =~= all);
    }
    sort_distinct_strings(names)
}

/// `s` without any number of leading `- `.
fn strip_dashes_chars(s: Vec<char>) -> (out: Vec<char>)
    ensures
        out@ == strip_dashes(s@),
{
    let mut cur = s;
    while cur.len() >= 2 && cur[0] == '-' && cur[1] == ' '
        invariant
            strip_dashes(cur@) == strip_dashes(s@),
        decreases cur.len(),
    {
        let next = slice_chars(&cur, 2, cur.len());
        proof {
            assert(next@ =~= cur@.skip(2));
        }
        cur = next;
    }
    cur
}

/// The text before the first `:` of `s`, if it has one.
fn before_colon_chars(s: &Vec<char>) -> (r: Option<Vec<char>>)
    ensures
        match r {
            Some(n) => before_colon(s@) == Some(n@),
            None => before_colon(s@) is None,
        },
{
    let mut i: usize = 0;
    while i < s.len()
        invariant
            i <= s@.len(),
            forall|j: int| 0 <= j < i ==> s@[j] != ':',
        decreases s.len() - i,
    {
        if s[i] == ':' {
            let n = slice_chars(s, 0, i);
            proof {
                assert(0 <= i < s@.len() && s@[i as int] == ':' && forall|j: int|
                    0 <= j < i ==> s@[j] != ':');
                let k = choose|k: int|
                    0 <= k < s@.len() && s@[k] == ':' && forall|j: int| 0 <= j < k ==> s@[j] != ':';
                if k < i {
                    assert(s@[k] != ':');
                } else if k > i {
                    assert(s@[i as int] != ':');
                }
                assert(n@ =~= s@.take(i as int));
            }
            return Some(n);
        }
        i = i + 1;
    }
    None
}

/// Once the anchor list has ended, further lines change nothing.
proof fn lemma_anchor_scan_stopped(lines: Seq<Seq<char>>, k: int)
    requires
        0 <= k <= lines.len(),
        anchor_scan(lines.take(k)).stopped,
    ensures
        anchor_scan(lines) == anchor_scan(lines.take(k)),
    decreases lines.len(),
{
    if k < lines.len() {
        assert(lines.drop_last().take(k) =~= lines.take(k));
        lemma_anchor_scan_stopped(lines.drop_last(), k);
    } else {
        assert(lines.take(k) =~= lines);
    }
}

/// The anchor names a component request lists after its required-anchors
/// header as `- <name>: ...`, sorted, each once.
pub fn parse_required_anchor_names_from_component_user_text(user_text: &str) -> (out: Vec<String>)
    ensures
        strings_view(out@) == sorted_set(anchor_scan(split_lines(user_text@)).names.to_set()),
{
    let lines = text_lines(user_text);
    let ghost all = strings_view(lines@);
    let mut names: Vec<String> = Vec::new();
    let mut inside = false;
    let mut stopped = false;
    let mut i: usize = 0;
    proof {
        assert(all.take(0) =~= Seq::<Seq<char>>::empty());
        assert(strings_view(names@) =~= Seq::<Seq<char>>::empty());
    }
    while i < lines.len() && !stopped
        invariant
            i <= lines@.len(),
            all == strings_view(lines@),
            ({
                let a = anchor_scan(all.take(i as int));
                &&& a.inside == inside
                &&& a.names == strings_view(names@)
                &&& a.stopped == stopped
            }),
        decreases lines.len() - i,
    {
        proof {
            assert(all.take(i + 1).drop_last() =~= all.take(i as int));
            assert(all.take(i + 1).last() == lines@[i as int]@);
        }
        let l = trim_vec(&chars_of(lines[i].as_str()));
        if eq_str(&l, "Required anchors for this component (MUST include all in output JSON):") {
            inside = true;
        } else if !inside {
        } else if !starts_with(&l, "- ") {
            if l.len() > 0 && names.len() > 0 {
                stopped = true;
            }
        } else {
            let rest = trim_vec(&strip_dashes_chars(l));
            match before_colon_chars(&rest) {
                Some(n) => {
                    let n = trim_vec(&n);
                    if n.len() > 0 {
                        let ghost acc = strings_view(names@);
                        names.push(string_from_chars(&n));
                        proof {
                            assert(strings_view(names@) =~= acc.push(n@));
                        }
                    }
                },
                None => {},
            }
        }
        i = i + 1;
    }
    proof {
        if stopped {
            lemma_anchor_scan_stopped(all, i as int);
        } else {
            assert(all.take(i as int) =~= all);
        }
    }
    sort_distinct_strings(names)
}

/// The first `target_channel:` value of a request that is not empty or
/// `unknown`.
pub fn parse_target_channel_from_motion_authoring_user_text(user_text: &str) -> (r: Option<String>)
    ensures
        match r {
            Some(c) => target_channel(split_lines(user_text@)) == Some(c@),
            None => target_channel(split_lines(user_text@)) is None,
        },
{
    let lines = text_lines(user_text);
    let ghost all = strings_view(lines@);
    let mut i: usize = 0;
    proof {
        assert(all.skip(0) =~= all);
    }
    while i < lines.len()
        invariant
            i <= lines@.len(),
            all == strings_view(lines@),
            all == split_lines(user_text@),
            target_channel(all) == target_channel(all.skip(i as int)),
        decreases lines.len() - i,
    {
        proof {
            assert(all.skip(i as int)[0] == lines@[i as int]@);
            assert(all.skip(i as int).drop_first() =~= all.skip(i + 1));
        }
        let l = trim_vec(&chars_of(lines[i].as_str()));
        match strip_prefix_chars(&l, "target_channel:") {
            Some(rest) => {
                let ch = trim_vec(&rest);
                if ch.len() > 0 && !eq_str(&ch, "unknown") {
                    proof {
                        assert(strip_prefix(trim(all.skip(i as int)[0]), "target_channel:"@) == Some(rest@));
                        assert(target_channel(all.skip(i as int)) == Some(ch@));
                    }
                    return Some(string_from_chars(&ch));
                }
            },
            None => {},
        }
        i = i + 1;
    }
    proof {
        assert(all.skip(i as int) =~= Seq::<Seq<char>>::empty());
    }
    None
}

/// The marker with which a request asks for a draft-ops reply that is
/// never valid JSON.
pub open spec fn invalid_draft_ops_marker() -> Seq<char> {
    "__MOCK_INVALID_DRAFT_OPS_ALWAYS__"@
}

/// The marker with which a request asks for its first reply to be cut short.
pub open spec fn truncate_once_marker() -> Seq<char> {
    "__MOCK_TRUNCATE_ONCE__"@
}

/// What becomes of a canned reply before it is handed back.
#[derive(Clone, Copy, Debug, PartialEq, Eq, Structural)]
pub enum MockOverride {
    /// The reply is replaced by `{`.
    InvalidJson,
    /// The reply is cut to its first 64 characters, the first time this
    /// request is seen.
    TruncateOnce,
    /// The reply is handed back as it is.
    Keep,
}

/// What becomes of the reply to a request, by the markers in its text.
pub fn mock_response_override(artifact_prefix: &str, user_text: &str) -> (o: MockOverride)
    ensures
        o == (if contains(user_text@, invalid_draft_ops_marker()) && has_prefix(
            artifact_prefix@,
            "tool_draft_ops_"@,
        ) {
            MockOverride::InvalidJson
        } else if contains(user_text@, truncate_once_marker()) {
            MockOverride::TruncateOnce
        } else {
            MockOverride::Keep
        }),
{
    let t = chars_of(user_text);
    let p = chars_of(artifact_prefix);
    if contains_str(&t, "__MOCK_INVALID_DRAFT_OPS_ALWAYS__") && starts_with(&p, "tool_draft_ops_") {
        MockOverride::InvalidJson
    } else if contains_str(&t, "__MOCK_TRUNCATE_ONCE__") {
        MockOverride::TruncateOnce
    } else {
        MockOverride::Keep
    }
}

/// The first `n` characters of `text` (all of it when it is shorter).
pub fn take_chars(text: &str, n: usize) -> (out: String)
    ensures
        out@ == text@.take(if n < text@.len() {
            n as int
        } else {
            text@.len() as int
        }),
{
    let cs = chars_of(text);
    let k = if n < cs.len() {
        n
    } else {
        cs.len()
    };
    let head = slice_chars(&cs, 0, k);
    proof {
        assert(head@ =~= text@.take(k as int));
    }
    string_from_chars(&head)
}

/// The reply kind for a request, or the error the mock provider answers
/// with: it takes no images, and knows only the listed artifact prefixes.
pub fn mock_request_reply(image_count: usize, artifact_prefix: &str) -> (r: Result<MockReply, String>)
    ensures
        image_count > 0 ==> (r is Err && r->Err_0@
            == "mock://gen3d does not support images (tests should use prompt-only)"@),
        image_count == 0 && mock_reply(artifact_prefix@) != MockReply::Unsupported ==> r == Ok::<
            MockReply,
            String,
        >(mock_reply(artifact_prefix@)),
        image_count == 0 && mock_reply(artifact_prefix@) == MockReply::Unsupported ==> (r is Err
            && r->Err_0@ == "mock://gen3d has no response for artifact_prefix `"@ + artifact_prefix@
            + "`"@),
{
    if image_count > 0 {
        return Err(owned("mock://gen3d does not support images (tests should use prompt-only)"));
    }
    let reply = mock_reply_for_prefix(artifact_prefix);
    match reply {
        MockReply::Unsupported => {
            let mut msg = owned("mock://gen3d has no response for artifact_prefix `");
            push_str(&mut msg, artifact_prefix);
            push_str(&mut msg, "`");
            Err(msg)
        },
        _ => Ok(reply),
    }
}

/// The children whose edges a mock motion reply animates: the first eight.
pub fn mock_motion_targets(children: Vec<String>) -> (out: Vec<String>)
    ensures
        out@ == children@.take(if children@.len() < 8 {
            children@.len() as int
        } else {
            8
        }),
{
    let mut rest = children;
    let ghost all = rest@;
    let k: usize = if rest.len() < 8 {
        rest.len()
    } else {
        8
    };
    rest.truncate(k);
    proof {
        assert(rest@ =~= all.take(k as int));
    }
    rest
}

/// The driver of the clips a mock motion reply bakes for a channel.
pub fn mock_motion_driver(channel: &str) -> (d: &'static str)
    ensures
        d@ == (if channel@ == "move"@ {
            "move_phase"@
        } else if channel@ == "action"@ {
            "action_time"@
        } else if channel@ == "attack_primary"@ {
            "attack_time"@
        } else {
            "always"@
        }),
{
    let c = chars_of(channel);
    if eq_str(&c, "move") {
        "move_phase"
    } else if eq_str(&c, "action") {
        "action_time"
    } else if eq_str(&c, "attack_primary") {
        "attack_time"
    } else {
        "always"
    }
}

} // verus!
