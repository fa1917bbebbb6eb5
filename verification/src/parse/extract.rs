//! Locating brace-balanced `{...}` objects in free-form model output.
use vstd::prelude::*;

use crate::text::{chars_of, contains, occurs_at, slice_chars, string_from_chars};

verus! {

/// The state of a left-to-right brace scan: the nesting depth (an `i32` that
/// saturates), where the current top-level object started, and the spans
/// `[start, end)` of all top-level objects closed so far.
pub struct BraceScan {
    pub depth: int,
    pub start: Option<int>,
    pub found: Seq<(int, int)>,
}

/// One scan step over the character `c` at position `i`.
pub open spec fn scan_step(st: BraceScan, i: int, c: char) -> BraceScan {
    if c == '{' {
        BraceScan {
            depth: if st.depth == i32::MAX as int { st.depth } else { st.depth + 1 },
            start: if st.depth == 0 { Some(i) } else { st.start },
            found: st.found,
        }
    } else if c == '}' && st.depth > 0 {
        if st.depth - 1 == 0 {
            match st.start {
                Some(s) => BraceScan { depth: 0, start: None, found: st.found.push((s, i + 1)) },
                None => BraceScan { depth: 0, start: None, found: st.found },
            }
        } else {
            BraceScan { depth: st.depth - 1, start: st.start, found: st.found }
        }
    } else {
        st
    }
}

/// The scan state after the first `n` characters of `t`.
pub open spec fn scan(t: Seq<char>, n: nat) -> BraceScan
    decreases n,
{
    if n == 0 {
        BraceScan { depth: 0, start: None, found: Seq::empty() }
    } else {
        scan_step(scan(t, (n - 1) as nat), n - 1, t[n - 1])
    }
}

/// The spans of all top-level objects of `t`, in order.
pub open spec fn object_spans(t: Seq<char>) -> Seq<(int, int)> {
    scan(t, t.len()).found
}

/// The text of the span `sp` of `t`.
pub open spec fn span_text(t: Seq<char>, sp: (int, int)) -> Seq<char> {
    t.subrange(sp.0, sp.1)
}

/// What `extract_json_object` returns: the last top-level object, if any.
pub open spec fn last_object(t: Seq<char>) -> Option<Seq<char>> {
    let f = object_spans(t);
    if f.len() == 0 {
        None
    } else {
        Some(span_text(t, f.last()))
    }
}

/// What `extract_json_objects` returns: the first `max(1, max)` top-level
/// objects, in order.
pub open spec fn first_objects(t: Seq<char>, max: nat) -> Seq<Seq<char>> {
    let m = if max == 0 { 1 } else { max };
    let f = object_spans(t);
    let k = if f.len() < m { f.len() } else { m };
    Seq::new(k, |j: int| span_text(t, f[j]))
}

/// Invariants of the scan: depth stays in range, a pending start exists only
/// inside an object, and every span lies in the scanned prefix, starts with
/// `{` and ends with `}`.
pub open spec fn scan_wf(t: Seq<char>, n: nat, st: BraceScan) -> bool {
    &&& 0 <= st.depth <= i32::MAX as int
    &&& (st.start matches Some(s) ==> 0 <= s < n && st.depth > 0 && t[s] == '{')
    &&& forall|j: int|
        0 <= j < st.found.len() ==> {
            let sp = #[trigger] st.found[j];
            0 <= sp.0 < sp.1 <= n && t[sp.0] == '{' && t[sp.1 - 1] == '}'
        }
}

proof fn lemma_scan_wf(t: Seq<char>, n: nat)
    requires
        n <= t.len(),
    ensures
        scan_wf(t, n, scan(t, n)),
    decreases n,
{
    if n > 0 {
        lemma_scan_wf(t, (n - 1) as nat);
        let prev = scan(t, (n - 1) as nat);
        let cur = scan(t, n);
        assert forall|j: int| 0 <= j < cur.found.len() implies {
            let sp = #[trigger] cur.found[j];
            0 <= sp.0 < sp.1 <= n && t[sp.0] == '{' && t[sp.1 - 1] == '}'
        } by {
            if j < prev.found.len() {
                assert(cur.found[j] == prev.found[j]);
            }
        }
    }
}

/// The spans found after a prefix are a prefix of the spans found later.
proof fn lemma_scan_prefix(t: Seq<char>, n: nat, m: nat)
    requires
        n <= m,
    ensures
        scan(t, n).found.len() <= scan(t, m).found.len(),
        forall|j: int|
            0 <= j < scan(t, n).found.len() ==> #[trigger] scan(t, m).found[j] == scan(
                t,
                n,
            ).found[j],
    decreases m,
{
    if n < m {
        lemma_scan_prefix(t, n, (m - 1) as nat);
        let a = scan(t, (m - 1) as nat);
        let b = scan(t, m);
        assert(a.found.len() <= b.found.len());
        assert forall|j: int| 0 <= j < a.found.len() implies #[trigger] b.found[j] == a.found[j] by {
        }
    }
}

/// Every object returned is a piece of the text that starts with `{` and ends
/// with `}`.
pub proof fn lemma_last_object_braced(t: Seq<char>)
    requires
        last_object(t) is Some,
    ensures
        ({
            let o = last_object(t)->0;
            &&& o.len() >= 2
            &&& o[0] == '{'
            &&& o.last() == '}'
            &&& contains(t, o)
        }),
{
    lemma_scan_wf(t, t.len());
    let f = object_spans(t);
    let sp = f.last();
    assert(f[f.len() - 1] == sp);
    let o = t.subrange(sp.0, sp.1);
    assert(o[0] == t[sp.0]);
    assert(o.last() == t[sp.1 - 1]);
    if o.len() < 2 {
        assert(sp.1 == sp.0 + 1);
        assert(false);
    }
    assert(t.subrange(sp.0, sp.0 + o.len()) == o);
    assert(occurs_at(t, o, sp.0));
}

/// `extract_json_object` returns the last of the objects that
/// `extract_json_objects` returns whenever the latter was not cut short by
/// its limit.
pub proof fn lemma_last_object_is_last_of_objects(t: Seq<char>, max: nat)
    requires
        first_objects(t, max).len() < (if max == 0 { 1 } else { max }),
    ensures
        first_objects(t, max).len() == 0 <==> last_object(t) is None,
        first_objects(t, max).len() > 0 ==> last_object(t) == Some(first_objects(t, max).last()),
{
}

/// The last top-level `{...}` object in `text`, with nested braces balanced.
pub fn extract_json_object(text: &str) -> (out: Option<String>)
    ensures
        match out {
            Some(s) => last_object(text@) == Some(s@),
            None => last_object(text@) is None,
        },
{
    let cs = chars_of(text);
    let mut depth: i32 = 0;
    let mut start: Option<usize> = None;
    let mut last: Option<(usize, usize)> = None;
    let mut i: usize = 0;
    while i < cs.len()
        invariant
            i <= cs.len(),
            cs@ == text@,
            ({
                let st = scan(cs@, i as nat);
                &&& st.depth == depth as int
                &&& st.start == (match start {
                    Some(s) => Some(s as int),
                    None => None,
                })
                &&& (match last {
                    Some(sp) => st.found.len() > 0 && st.found.last() == (sp.0 as int, sp.1 as int),
                    None => st.found.len() == 0,
                })
            }),
            scan_wf(cs@, i as nat, scan(cs@, i as nat)),
        decreases cs.len() - i,
    {
        proof {
            lemma_scan_wf(cs@, (i + 1) as nat);
        }
        let c = cs[i];
        if c == '{' {
            if depth == 0 {
                start = Some(i);
            }
            if depth < i32::MAX {
                depth = depth + 1;
            }
        } else if c == '}' {
            if depth > 0 {
                depth = depth - 1;
                if depth == 0 {
                    match start {
                        Some(s) => {
                            last = Some((s, i + 1));
                            start = None;
                        },
                        None => {},
                    }
                }
            }
        }
        i = i + 1;
    }
    match last {
        Some((s, e)) => {
            proof {
                let st = scan(cs@, cs.len() as nat);
                assert(st.found[st.found.len() - 1] == (s as int, e as int));
            }
            let piece = slice_chars(&cs, s, e);
            Some(string_from_chars(&piece))
        },
        None => None,
    }
}

/// The first `max(1, max_objects)` top-level `{...}` objects in `text`, in order.
pub fn extract_json_objects(text: &str, max_objects: usize) -> (out: Vec<String>)
    ensures
        out@.len() == first_objects(text@, max_objects as nat).len(),
        forall|j: int|
            0 <= j < out@.len() ==> #[trigger] out@[j]@ == first_objects(text@, max_objects as nat)[j],
{
    let max_objects = if max_objects == 0 { 1 } else { max_objects };
    let cs = chars_of(text);
    let mut depth: i32 = 0;
    let mut start: Option<usize> = None;
    let mut out: Vec<String> = Vec::new();
    let mut i: usize = 0;
    while i < cs.len()
        invariant_except_break
            out@.len() < max_objects,
        invariant
            i <= cs.len(),
            cs@ == text@,
            max_objects >= 1,
            out@.len() <= max_objects,
            ({
                let st = scan(cs@, i as nat);
                &&& st.depth == depth as int
                &&& st.start == (match start {
                    Some(s) => Some(s as int),
                    None => None,
                })
                &&& st.found.len() == out@.len()
                &&& forall|j: int|
                    0 <= j < out@.len() ==> #[trigger] out@[j]@ == span_text(cs@, st.found[j])
            }),
            scan_wf(cs@, i as nat, scan(cs@, i as nat)),
        ensures
            ({
                let st = scan(cs@, i as nat);
                &&& st.found.len() == out@.len()
                &&& forall|j: int|
                    0 <= j < out@.len() ==> #[trigger] out@[j]@ == span_text(cs@, st.found[j])
                &&& (i < cs.len() ==> out@.len() == max_objects)
            }),
        decreases cs.len() - i,
    {
        proof {
            lemma_scan_wf(cs@, (i + 1) as nat);
        }
        let ghost before = scan(cs@, i as nat);
        let c = cs[i];
        if c == '{' {
            if depth == 0 {
                start = Some(i);
            }
            if depth < i32::MAX {
                depth = depth + 1;
            }
        } else if c == '}' {
            if depth > 0 {
                depth = depth - 1;
                if depth == 0 {
                    match start {
                        Some(s) => {
                            let piece = slice_chars(&cs, s, i + 1);
                            out.push(string_from_chars(&piece));
                            start = None;
                            proof {
                                let after = scan(cs@, (i + 1) as nat);
                                assert(after.found == before.found.push((s as int, i + 1)));
                                assert forall|j: int| 0 <= j < out@.len() implies #[trigger] out@[j]@
                                    == span_text(cs@, after.found[j]) by {
                                    if j < out@.len() - 1 {
                                        assert(after.found[j] == before.found[j]);
                                    }
                                }
                            }
                            if out.len() >= max_objects {
                                i = i + 1;
                                break ;
                            }
                        },
                        None => {},
                    }
                }
            }
        }
        i = i + 1;
    }
    proof {
        let st = scan(cs@, i as nat);
        let full = scan(cs@, cs.len() as nat);
        lemma_scan_prefix(cs@, i as nat, cs.len() as nat);
        let f = first_objects(text@, max_objects as nat);
        if i < cs.len() {
            assert(f.len() == out@.len());
        } else {
            assert(st == full);
        }
        assert forall|j: int| 0 <= j < out@.len() implies #[trigger] out@[j]@ == f[j] by {
            assert(full.found[j] == st.found[j]);
        }
    }
    out
}

// ---------------------------------------------------------------------------
// Order and balance of the objects found
// ---------------------------------------------------------------------------

/// The spans found are in order and do not overlap, and a pending object
/// starts after all of them.
pub open spec fn scan_ordered(n: nat, st: BraceScan) -> bool {
    &&& forall|j: int, k: int| 0 <= j < k < st.found.len() ==> (#[trigger] st.found[j]).1 <= (#[trigger] st.found[k]).0
    &&& (st.start matches Some(s) ==> forall|j: int| 0 <= j < st.found.len() ==> (#[trigger] st.found[j]).1 <= s)
}

proof fn lemma_scan_ordered(t: Seq<char>, n: nat)
    requires
        n <= t.len(),
    ensures
        scan_ordered(n, scan(t, n)),
    decreases n,
{
    if n > 0 {
        lemma_scan_ordered(t, (n - 1) as nat);
        lemma_scan_wf(t, (n - 1) as nat);
        let prev = scan(t, (n - 1) as nat);
        let cur = scan(t, n);
        if cur.found.len() > prev.found.len() {
            assert forall|j: int, k: int| 0 <= j < k < cur.found.len() implies (#[trigger] cur.found[j]).1 <= (
            #[trigger] cur.found[k]).0 by {
                assert(cur.found[j] == prev.found[j]);
                if k < prev.found.len() {
                    assert(cur.found[k] == prev.found[k]);
                }
            }
        } else {
            assert forall|j: int, k: int| 0 <= j < k < cur.found.len() implies (#[trigger] cur.found[j]).1 <= (
            #[trigger] cur.found[k]).0 by {
                assert(cur.found[j] == prev.found[j]);
                assert(cur.found[k] == prev.found[k]);
            }
        }
        assert forall|j: int| 0 <= j < cur.found.len() && cur.start is Some implies (#[trigger] cur.found[j]).1
            <= cur.start->0 by {
            if j < prev.found.len() {
                assert(cur.found[j] == prev.found[j]);
            }
        }
    }
}

/// The number of `{` minus the number of `}`.
pub open spec fn balance(s: Seq<char>) -> int
    decreases s.len(),
{
    if s.len() == 0 {
        0
    } else {
        balance(s.drop_last()) + (if s.last() == '{' {
            1int
        } else if s.last() == '}' {
            -1int
        } else {
            0int
        })
    }
}

/// A braced object: it starts with `{`, has as many `{` as `}`, and every
/// proper non-empty prefix has more `{` than `}`.
pub open spec fn balanced_object(o: Seq<char>) -> bool {
    &&& o.len() > 0
    &&& o[0] == '{'
    &&& balance(o) == 0
    &&& forall|p: int| 0 < p < o.len() ==> balance(#[trigger] o.take(p)) > 0
}

proof fn lemma_balance_push(s: Seq<char>, c: char)
    ensures
        balance(s.push(c)) == balance(s) + (if c == '{' {
            1int
        } else if c == '}' {
            -1int
        } else {
            0int
        }),
{
    assert(s.push(c).drop_last() =~= s);
}

proof fn lemma_balance_bound(s: Seq<char>)
    ensures
        balance(s) <= s.len(),
    decreases s.len(),
{
    if s.len() > 0 {
        lemma_balance_bound(s.drop_last());
    }
}

/// The scan state in terms of balances: a pending object is open exactly
/// when the depth is positive, the depth is the balance of the pending
/// object so far (whose non-empty prefixes all have positive balance), and
/// every object found is a braced object.
pub open spec fn scan_balanced(t: Seq<char>, n: nat, st: BraceScan) -> bool {
    &&& (st.start is None <==> st.depth == 0)
    &&& (st.start matches Some(s) ==> {
        &&& t[s] == '{'
        &&& st.depth == balance(t.subrange(s, n as int))
        &&& forall|p: int| s < p <= n ==> balance(#[trigger] t.subrange(s, p)) > 0
    })
    &&& forall|j: int| 0 <= j < st.found.len() ==> balanced_object(span_text(t, #[trigger] st.found[j]))
}

proof fn lemma_scan_balanced(t: Seq<char>, n: nat)
    requires
        n <= t.len(),
        t.len() < i32::MAX,
    ensures
        scan_balanced(t, n, scan(t, n)),
    decreases n,
{
    if n > 0 {
        let m = (n - 1) as nat;
        lemma_scan_balanced(t, m);
        lemma_scan_wf(t, m);
        let prev = scan(t, m);
        let cur = scan(t, n);
        let c = t[m as int];
        assert(cur == scan_step(prev, m as int, c));
        if let Some(s) = prev.start {
            assert(t.subrange(s, n as int) =~= t.subrange(s, m as int).push(c));
            lemma_balance_push(t.subrange(s, m as int), c);
            lemma_balance_bound(t.subrange(s, m as int));
            assert(prev.depth < i32::MAX);
        }
        if c == '{' && prev.depth == 0 {
            assert(Seq::<char>::empty().push(c) =~= t.subrange(m as int, n as int));
            lemma_balance_push(Seq::<char>::empty(), c);
            assert(cur.start == Some(m as int));
            assert forall|p: int| m < p <= n implies balance(#[trigger] t.subrange(m as int, p)) > 0 by {
                assert(p == n);
            }
        } else if c == '}' && prev.depth == 1 {
            let s = prev.start->0;
            let o = t.subrange(s, n as int);
            assert(cur.found == prev.found.push((s, n as int)));
            assert(span_text(t, (s, n as int)) == o);
            assert forall|p: int| 0 < p < o.len() implies balance(#[trigger] o.take(p)) > 0 by {
                assert(o.take(p) =~= t.subrange(s, s + p));
                assert(balance(t.subrange(s, s + p)) > 0);
            }
            assert(o[0] == t[s]);
            assert(balanced_object(o));
        } else if let Some(s) = cur.start {
            assert(prev.start == Some(s));
            assert(cur.depth == balance(t.subrange(s, n as int)));
            assert(cur.depth > 0);
            assert forall|p: int| s < p <= n implies balance(#[trigger] t.subrange(s, p)) > 0 by {
                if p < n {
                    assert(p <= m);
                }
            }
        }
        assert forall|j: int| 0 <= j < cur.found.len() implies balanced_object(span_text(t, #[trigger] cur.found[j])) by {
            if j < prev.found.len() {
                assert(cur.found[j] == prev.found[j]);
            }
        }
    }
}

/// Scanning a braced object finds exactly that object.
proof fn lemma_scan_object(o: Seq<char>, k: nat)
    requires
        balanced_object(o),
        o.len() < i32::MAX,
        1 <= k <= o.len(),
    ensures
        k < o.len() ==> scan(o, k) == (BraceScan { depth: balance(o.take(k as int)), start: Some(0), found: Seq::empty() }),
        k == o.len() ==> scan(o, k).found == seq![(0int, o.len() as int)],
    decreases k,
{
    let c = o[k - 1];
    let m = (k - 1) as nat;
    assert(scan(o, k) == scan_step(scan(o, m), m as int, c));
    if k == o.len() {
        assert(o.take(k as int) =~= o);
    }
    if k == 1 {
        assert(scan(o, 0) == BraceScan { depth: 0, start: None, found: Seq::<(int, int)>::empty() });
        assert(Seq::<char>::empty().push(o[0]) =~= o.take(1));
        lemma_balance_push(Seq::<char>::empty(), o[0]);
        assert(balance(o.take(1)) == 1);
    } else {
        lemma_scan_object(o, m);
        assert(o.take(k as int) =~= o.take(m as int).push(c));
        lemma_balance_push(o.take(m as int), c);
        lemma_balance_bound(o.take(m as int));
        assert(balance(o.take(m as int)) > 0);
        let prev = scan(o, m);
        assert(prev.depth == balance(o.take(m as int)));
        if c == '}' && prev.depth == 1 {
            assert(balance(o.take(k as int)) == 0);
            assert(k == o.len());
        }
    }
}

/// The spans of the objects found in `t` lie inside `t`, start with `{`
/// and end with `}`, come in order without overlapping, and are what
/// `extract_json_objects` returns, first to last.
pub proof fn lemma_objects_in_order(t: Seq<char>, max: nat)
    ensures
        forall|j: int|
            0 <= j < object_spans(t).len() ==> {
                let sp = #[trigger] object_spans(t)[j];
                0 <= sp.0 < sp.1 <= t.len() && t[sp.0] == '{' && t[sp.1 - 1] == '}'
            },
        forall|j: int, k: int|
            0 <= j < k < object_spans(t).len() ==> (#[trigger] object_spans(t)[j]).1 <= (#[trigger] object_spans(t)[k]).0,
        first_objects(t, max).len() <= object_spans(t).len(),
        forall|j: int| 0 <= j < first_objects(t, max).len() ==> #[trigger] first_objects(t, max)[j] == span_text(t, object_spans(t)[j]),
{
    lemma_scan_wf(t, t.len());
    lemma_scan_ordered(t, t.len());
}

/// Every object found in a text shorter than `i32::MAX` is a braced object:
/// as many `{` as `}`, and every proper prefix still open.
pub proof fn lemma_objects_balanced(t: Seq<char>)
    requires
        t.len() < i32::MAX,
    ensures
        forall|j: int| 0 <= j < object_spans(t).len() ==> balanced_object(span_text(t, #[trigger] object_spans(t)[j])),
{
    lemma_scan_balanced(t, t.len());
}

/// The law of `extract_json_object` on a text shorter than `i32::MAX`: what
/// it returns is a piece of the text, a braced object with as many `{` as
/// `}`, and extracting from it gives it back.
pub proof fn lemma_extract_json_object_law(t: Seq<char>)
    requires
        t.len() < i32::MAX,
        last_object(t) is Some,
    ensures
        ({
            let o = last_object(t)->0;
            &&& contains(t, o)
            &&& o.last() == '}'
            &&& balanced_object(o)
            &&& last_object(o) == Some(o)
        }),
{
    lemma_last_object_braced(t);
    lemma_objects_balanced(t);
    let f = object_spans(t);
    let o = last_object(t)->0;
    assert(f[f.len() - 1] == f.last());
    assert(balanced_object(o));
    lemma_scan_object(o, o.len());
    assert(object_spans(o) == seq![(0int, o.len() as int)]);
    assert(o.subrange(0, o.len() as int) =~= o);
}

} // verus!
