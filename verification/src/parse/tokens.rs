//! Normalization of free-form identifiers into `snake_case` tokens and
//! descriptor tags.
use vstd::prelude::*;

use crate::text::{
    chars_of, lead_count, lemma_lead_count_char, lemma_trail_count_char, lower_ascii, lower_char,
    string_from_chars, trail_count, trim, trim_chars, trim_char,
};

verus! {

/// Runs of `_` collapsed to a single `_` (what repeatedly replacing `"__"` by
/// `"_"` until none is left produces).
pub open spec fn collapse_underscores(s: Seq<char>) -> Seq<char>
    decreases s.len(),
{
    if s.len() == 0 {
        s
    } else {
        let p = collapse_underscores(s.drop_last());
        if s.last() == '_' && p.len() > 0 && p.last() == '_' {
            p
        } else {
            p.push(s.last())
        }
    }
}

/// A character after lower-casing, with space and `-` turned into `_`.
pub open spec fn snake_char(c: char) -> char {
    let d = lower_char(c);
    if d == ' ' || d == '-' {
        '_'
    } else {
        d
    }
}

/// What `normalize_snake_case_token` returns: trimmed, ASCII-lowered, spaces
/// and dashes turned into underscores, runs of underscores collapsed.
pub open spec fn snake_token(raw: Seq<char>) -> Seq<char> {
    let t = trim(raw);
    collapse_underscores(Seq::new(t.len(), |i: int| snake_char(t[i])))
}

/// Characters allowed in a descriptor tag: `a-z`, `0-9` and `_`.
pub open spec fn tag_char_ok(c: char) -> bool {
    ('a' <= c && c <= 'z') || ('0' <= c && c <= '9') || c == '_'
}

/// What `normalize_descriptor_tag` returns: the snake token with every other
/// character turned into `_`, runs of `_` collapsed, and `_` trimmed from both
/// ends.
pub open spec fn descriptor_tag(raw: Seq<char>) -> Seq<char> {
    let n = snake_token(raw);
    let m = Seq::new(n.len(), |i: int| if tag_char_ok(n[i]) { n[i] } else { '_' });
    trim_char(collapse_underscores(m), '_')
}

/// A collapsed text ends with the last character of the input, and never has
/// two underscores in a row.
proof fn lemma_collapse_shape(s: Seq<char>)
    ensures
        s.len() > 0 ==> collapse_underscores(s).len() > 0 && collapse_underscores(s).last()
            == s.last(),
        forall|i: int|
            0 <= i < collapse_underscores(s).len() - 1 ==> !(#[trigger] collapse_underscores(s)[i]
                == '_' && collapse_underscores(s)[i + 1] == '_'),
        forall|i: int|
            0 <= i < collapse_underscores(s).len() ==> exists|j: int|
                0 <= j < s.len() && #[trigger] collapse_underscores(s)[i] == s[j],
    decreases s.len(),
{
    if s.len() > 0 {
        let p = collapse_underscores(s.drop_last());
        lemma_collapse_shape(s.drop_last());
        let c = collapse_underscores(s);
        assert forall|i: int| 0 <= i < c.len() implies exists|j: int|
            0 <= j < s.len() && #[trigger] c[i] == s[j] by {
            if i < p.len() {
                assert(c[i] == p[i]);
                let j = choose|j: int| 0 <= j < s.drop_last().len() && p[i] == s.drop_last()[j];
                assert(s[j] == s.drop_last()[j]);
            } else {
                assert(c[i] == s[s.len() - 1]);
            }
        }
        if s.drop_last().len() > 0 {
            assert(p.last() == s.drop_last().last());
        }
        assert forall|i: int| 0 <= i < c.len() - 1 implies !(#[trigger] c[i] == '_' && c[i + 1]
            == '_') by {
            if i + 1 < p.len() {
                assert(c[i] == p[i] && c[i + 1] == p[i + 1]);
            }
        }
    }
}

/// Collapses runs of `_` into one.
fn collapse_underscores_exec(s: &Vec<char>) -> (out: Vec<char>)
    ensures
        out@ == collapse_underscores(s@),
{
    let mut out: Vec<char> = Vec::new();
    let mut i: usize = 0;
    while i < s.len()
        invariant
            i <= s.len(),
            out@ == collapse_underscores(s@.take(i as int)),
        decreases s.len() - i,
    {
        let c = s[i];
        proof {
            assert(s@.take(i + 1).drop_last() =~= s@.take(i as int));
        }
        let n = out.len();
        if c == '_' && n > 0 && out[n - 1] == '_' {
        } else {
            out.push(c);
        }
        i = i + 1;
    }
    assert(s@.take(s.len() as int) =~= s@);
    out
}

/// Trims `c` from both ends of `cs`.
fn trim_char_exec(cs: &Vec<char>, c: char) -> (out: Vec<char>)
    ensures
        out@ == trim_char(cs@, c),
{
    let mut a: usize = 0;
    while a < cs.len() && cs[a] == c
        invariant
            a <= cs.len(),
            forall|j: int| 0 <= j < a ==> #[trigger] cs@[j] == c,
        decreases cs.len() - a,
    {
        a = a + 1;
    }
    proof {
        lemma_lead_count_char(cs@, c, a as int);
    }
    let mut b: usize = cs.len();
    while b > a && cs[b - 1] == c
        invariant
            a <= b <= cs.len(),
            forall|j: int| b <= j < cs.len() ==> #[trigger] cs@[j] == c,
        decreases b,
    {
        b = b - 1;
    }
    proof {
        let t = cs@.skip(a as int);
        let k = (cs.len() - b) as int;
        assert forall|j: int| t.len() - k <= j < t.len() implies #[trigger] t[j] == c by {
            assert(t[j] == cs@[j + a]);
        }
        if k < t.len() {
            assert(t[t.len() - k - 1] == cs@[b - 1]);
        }
        lemma_trail_count_char(t, c, k);
        assert(trim_char(cs@, c) =~= cs@.subrange(a as int, b as int));
    }
    crate::text::slice_chars(cs, a, b)
}

fn snake_chars(raw: &str) -> (out: Vec<char>)
    ensures
        out@ == snake_token(raw@),
{
    let t = trim_chars(raw);
    let mut mapped: Vec<char> = Vec::new();
    let mut i: usize = 0;
    while i < t.len()
        invariant
            i <= t.len(),
            t@ == trim(raw@),
            mapped@ =~= Seq::new(i as nat, |k: int| snake_char(t@[k])),
        decreases t.len() - i,
    {
        let d = lower_ascii(t[i]);
        let e = if d == ' ' || d == '-' {
            '_'
        } else {
            d
        };
        mapped.push(e);
        i = i + 1;
    }
    collapse_underscores_exec(&mapped)
}

/// Normalizes a free-form token to `snake_case`: trimmed, ASCII-lowered, with
/// spaces and dashes as single underscores.
pub fn normalize_snake_case_token(raw: &str) -> (out: String)
    ensures
        out@ == snake_token(raw@),
{
    let v = snake_chars(raw);
    string_from_chars(&v)
}

/// Normalizes a descriptor tag: a snake token of `a-z`, `0-9` and single
/// underscores, with no underscore at either end.
pub fn normalize_descriptor_tag(raw: &str) -> (out: String)
    ensures
        out@ == descriptor_tag(raw@),
{
    let n = snake_chars(raw);
    let mut m: Vec<char> = Vec::new();
    let mut i: usize = 0;
    while i < n.len()
        invariant
            i <= n.len(),
            m@ =~= Seq::new(i as nat, |k: int| if tag_char_ok(n@[k]) { n@[k] } else { '_' }),
        decreases n.len() - i,
    {
        let ch = n[i];
        let ok = ('a' <= ch && ch <= 'z') || ('0' <= ch && ch <= '9') || ch == '_';
        m.push(if ok { ch } else { '_' });
        i = i + 1;
    }
    let collapsed = collapse_underscores_exec(&m);
    let trimmed = trim_char_exec(&collapsed, '_');
    string_from_chars(&trimmed)
}

/// A descriptor tag consists of `a-z`, `0-9` and `_` only, never starts or
/// ends with `_`, and never holds two underscores in a row.
pub proof fn lemma_descriptor_tag_shape(raw: Seq<char>)
    ensures
        ({
            let t = descriptor_tag(raw);
            &&& forall|i: int| 0 <= i < t.len() ==> tag_char_ok(#[trigger] t[i])
            &&& t.len() > 0 ==> t[0] != '_' && t.last() != '_'
            &&& forall|i: int| 0 <= i < t.len() - 1 ==> !(#[trigger] t[i] == '_' && t[i + 1] == '_')
        }),
{
    let n = snake_token(raw);
    let m = Seq::new(n.len(), |i: int| if tag_char_ok(n[i]) { n[i] } else { '_' });
    let c = collapse_underscores(m);
    lemma_collapse_shape(m);
    let a = lead_count(c, '_');
    lemma_lead_count_bound(c, '_');
    let u = c.skip(a as int);
    let k = trail_count(u, '_');
    lemma_trail_count_bound(u, '_');
    let t = descriptor_tag(raw);
    assert(t =~= c.subrange(a as int, c.len() - k));
    assert forall|i: int| 0 <= i < t.len() implies tag_char_ok(#[trigger] t[i]) by {
        assert(t[i] == c[i + a]);
        let j = choose|j: int| 0 <= j < m.len() && c[i + a] == m[j];
    }
    if t.len() > 0 {
        assert(t[0] == c[a as int]);
        assert(t.last() == c[c.len() - k - 1]);
        assert(u[u.len() - k - 1] == c[c.len() - k - 1]);
    }
    assert forall|i: int| 0 <= i < t.len() - 1 implies !(#[trigger] t[i] == '_' && t[i + 1] == '_') by {
        assert(t[i] == c[i + a] && t[i + 1] == c[i + 1 + a]);
    }
}

proof fn lemma_lead_count_bound(s: Seq<char>, c: char)
    ensures
        lead_count(s, c) <= s.len(),
        lead_count(s, c) < s.len() ==> s[lead_count(s, c) as int] != c,
    decreases s.len(),
{
    if s.len() > 0 && s[0] == c {
        lemma_lead_count_bound(s.drop_first(), c);
        if lead_count(s, c) < s.len() {
            assert(s[lead_count(s, c) as int] == s.drop_first()[lead_count(s.drop_first(), c) as int]);
        }
    }
}

proof fn lemma_trail_count_bound(s: Seq<char>, c: char)
    ensures
        trail_count(s, c) <= s.len(),
        trail_count(s, c) < s.len() ==> s[s.len() - trail_count(s, c) - 1] != c,
    decreases s.len(),
{
    if s.len() > 0 && s.last() == c {
        lemma_trail_count_bound(s.drop_last(), c);
        if trail_count(s, c) < s.len() {
            let t = s.drop_last();
            assert(s[s.len() - trail_count(s, c) - 1] == t[t.len() - trail_count(t, c) - 1]);
        }
    }
}

/// A text without two underscores in a row is its own collapsed form.
proof fn lemma_collapse_fixed(s: Seq<char>)
    requires
        forall|i: int| 0 <= i < s.len() - 1 ==> !(#[trigger] s[i] == '_' && s[i + 1] == '_'),
    ensures
        collapse_underscores(s) == s,
    decreases s.len(),
{
    if s.len() > 0 {
        let d = s.drop_last();
        assert forall|i: int| 0 <= i < d.len() - 1 implies !(#[trigger] d[i] == '_' && d[i + 1] == '_') by {
            assert(d[i] == s[i] && d[i + 1] == s[i + 1]);
        }
        lemma_collapse_fixed(d);
        if s.len() >= 2 {
            assert(d.last() == s[s.len() - 2]);
        }
        assert(d.push(s.last()) =~= s);
    }
}

/// Normalizing a descriptor tag a second time leaves it unchanged.
pub proof fn lemma_descriptor_tag_idempotent(raw: Seq<char>)
    ensures
        descriptor_tag(descriptor_tag(raw)) == descriptor_tag(raw),
{
    let t = descriptor_tag(raw);
    lemma_descriptor_tag_shape(raw);
    assert forall|i: int| 0 <= i < t.len() implies !crate::text::is_ws(#[trigger] t[i]) by {
        assert(tag_char_ok(t[i]));
    }
    crate::text::lemma_trim_no_ws(t);
    let sn = Seq::new(t.len(), |i: int| snake_char(t[i]));
    assert(sn =~= t) by {
        assert forall|i: int| 0 <= i < t.len() implies sn[i] == t[i] by {
            assert(tag_char_ok(t[i]));
        }
    }
    lemma_collapse_fixed(t);
    assert(snake_token(t) == t);
    let m = Seq::new(t.len(), |i: int| if tag_char_ok(t[i]) { t[i] } else { '_' });
    assert(m =~= t) by {
        assert forall|i: int| 0 <= i < t.len() implies m[i] == t[i] by {
            assert(tag_char_ok(t[i]));
        }
    }
    if t.len() > 0 {
        assert(lead_count(t, '_') == 0);
        assert(trail_count(t.skip(0), '_') == 0) by {
            assert(t.skip(0) =~= t);
        }
    }
    assert(trim_char(t, '_') =~= t);
}

} // verus!
