//! Validation of the articulation nodes of a component draft: node ids,
//! parent links, and the parts each node binds.
use vstd::prelude::*;

use crate::text::{chars_of, decimal, owned, push_decimal, push_str, trim, trim_str};

verus! {

/// An articulation node of a draft, as far as its validation reads it.
#[derive(Clone, Debug, PartialEq, Eq)]
pub struct ArticulationNode {
    pub node_id: String,
    pub parent_node_id: Option<String>,
    pub bind_part_indices: Vec<usize>,
}

// ---------------------------------------------------------------------------
// Phase 1: each node on its own, in order
// ---------------------------------------------------------------------------

/// The normalized parent id: trimmed, and absent when empty.
pub open spec fn norm_parent(p: Option<String>) -> Option<Seq<char>> {
    match p {
        Some(s) => if trim(s@).len() > 0 {
            Some(trim(s@))
        } else {
            None
        },
        None => None,
    }
}

/// The part indices bound by the nodes before `i`.
pub open spec fn bound_before(nodes: Seq<ArticulationNode>, i: int) -> Set<usize>
    decreases i,
{
    if i <= 0 {
        Set::empty()
    } else {
        bound_before(nodes, i - 1).union(nodes[i - 1].bind_part_indices@.to_set())
    }
}

/// A part index of node `i` that fails: out of range, or bound before.
pub open spec fn bad_part(nodes: Seq<ArticulationNode>, parts_len: usize, i: int, p: usize) -> bool {
    nodes[i].bind_part_indices@.contains(p) && (p >= parts_len || bound_before(nodes, i).contains(p))
}

/// A check of one node that failed.
pub enum NodeFault {
    MissingId,
    SelfParent,
    NoParts,
    OutOfRange(usize),
    Reused(usize),
    Duplicate,
}

/// The first failing check of node `i`, when the nodes before it passed.
#[verifier::opaque]
pub open spec fn node_fault(nodes: Seq<ArticulationNode>, parts_len: usize, i: int) -> Option<NodeFault> {
    let id = trim(nodes[i].node_id@);
    if id.len() == 0 {
        Some(NodeFault::MissingId)
    } else if norm_parent(nodes[i].parent_node_id) == Some(id) {
        Some(NodeFault::SelfParent)
    } else if nodes[i].bind_part_indices@.len() == 0 {
        Some(NodeFault::NoParts)
    } else if exists|p: usize| bad_part(nodes, parts_len, i, p) {
        let p = choose|p: usize|
            bad_part(nodes, parts_len, i, p) && forall|q: usize| bad_part(nodes, parts_len, i, q) ==> p <= q;
        if p >= parts_len {
            Some(NodeFault::OutOfRange(p))
        } else {
            Some(NodeFault::Reused(p))
        }
    } else if exists|j: int| 0 <= j < i && #[trigger] trim(nodes[j].node_id@) == id {
        Some(NodeFault::Duplicate)
    } else {
        None
    }
}

/// `i` is the first node with a failing check.
pub open spec fn is_first_faulty(nodes: Seq<ArticulationNode>, parts_len: usize, i: int) -> bool {
    &&& 0 <= i < nodes.len()
    &&& node_fault(nodes, parts_len, i) is Some
    &&& forall|j: int| 0 <= j < i ==> #[trigger] node_fault(nodes, parts_len, j) is None
}

// ---------------------------------------------------------------------------
// Phase 2: parent links, over the normalized nodes
// ---------------------------------------------------------------------------

/// Where a node's parent link leads.
pub enum ParentLink {
    NoParent,
    Missing,
    At(int),
}

/// The position of the node with id `id`, if any (the first one).
#[verifier::opaque]
pub open spec fn index_of_id(ids: Seq<Seq<char>>, id: Seq<char>) -> Option<int> {
    if exists|k: int| 0 <= k < ids.len() && ids[k] == id {
        Some(choose|k: int| 0 <= k < ids.len() && ids[k] == id && forall|l: int| 0 <= l < k ==> ids[l] != id)
    } else {
        None
    }
}

/// The parent link of node `i`, given the node ids and parent ids.
pub open spec fn parent_link(ids: Seq<Seq<char>>, parents: Seq<Option<Seq<char>>>, i: int) -> ParentLink {
    match parents[i] {
        None => ParentLink::NoParent,
        Some(p) => match index_of_id(ids, p) {
            Some(k) => ParentLink::At(k),
            None => ParentLink::Missing,
        },
    }
}

/// How following parent links from a node ends.
pub enum ChainEnd {
    /// At a node without parent.
    Root,
    /// At this node, whose parent id names no node.
    MissingParent(int),
    /// On reaching this node a second time.
    Cycle(int),
}

/// Follows parent links from `cur`, having already passed through `path`.
pub open spec fn walk(
    ids: Seq<Seq<char>>,
    parents: Seq<Option<Seq<char>>>,
    cur: int,
    path: Seq<int>,
) -> ChainEnd
    decreases ids.len() - path.len(),
{
    if path.contains(cur) {
        ChainEnd::Cycle(cur)
    } else if path.len() >= ids.len() {
        ChainEnd::Root
    } else {
        match parent_link(ids, parents, cur) {
            ParentLink::NoParent => ChainEnd::Root,
            ParentLink::Missing => ChainEnd::MissingParent(cur),
            ParentLink::At(k) => walk(ids, parents, k, path.push(cur)),
        }
    }
}

/// `i` is the first node whose parent chain does not end at a root.
pub open spec fn is_first_unrooted(ids: Seq<Seq<char>>, parents: Seq<Option<Seq<char>>>, i: int) -> bool {
    &&& 0 <= i < ids.len()
    &&& !(walk(ids, parents, i, Seq::empty()) is Root)
    &&& forall|j: int| 0 <= j < i ==> #[trigger] walk(ids, parents, j, Seq::empty()) is Root
}

/// The normalized ids of the nodes.
pub open spec fn norm_ids(nodes: Seq<ArticulationNode>) -> Seq<Seq<char>> {
    Seq::new(nodes.len(), |i: int| trim(nodes[i].node_id@))
}

/// The normalized parent ids of the nodes.
pub open spec fn norm_parents(nodes: Seq<ArticulationNode>) -> Seq<Option<Seq<char>>> {
    Seq::new(nodes.len(), |i: int| norm_parent(nodes[i].parent_node_id))
}

// ---------------------------------------------------------------------------
// Messages
// ---------------------------------------------------------------------------

/// The error text for a failing check of node `i` (with normalized id `id`).
pub open spec fn fault_message(i: int, id: Seq<char>, parts_len: usize, f: NodeFault) -> Seq<char> {
    match f {
        NodeFault::MissingId => "AI draft articulation_nodes["@ + decimal(i as nat)
            + "] is missing required `node_id`."@,
        NodeFault::SelfParent => "AI draft articulation node `"@ + id + "` cannot parent itself."@,
        NodeFault::NoParts => "AI draft articulation node `"@ + id
            + "` must bind at least one part index."@,
        NodeFault::OutOfRange(p) => "AI draft articulation node `"@ + id
            + "` references out-of-range bind_part_indices entry "@ + decimal(p as nat)
            + " (parts_total="@ + decimal(parts_len as nat) + ")."@,
        NodeFault::Reused(p) => "AI draft articulation node `"@ + id + "` reuses part index "@
            + decimal(p as nat) + " that is already bound by another articulation node."@,
        NodeFault::Duplicate => "AI draft articulation_nodes contains duplicate node_id `"@ + id
            + "`."@,
    }
}

/// The error text for a parent chain that does not end at a root.
pub open spec fn chain_message(ids: Seq<Seq<char>>, parents: Seq<Option<Seq<char>>>, e: ChainEnd) -> Seq<char> {
    match e {
        ChainEnd::MissingParent(v) => "AI draft articulation node `"@ + ids[v]
            + "` references missing parent_node_id `"@ + parents[v]->0 + "`."@,
        ChainEnd::Cycle(v) => "AI draft articulation_nodes contains a parent cycle involving `"@
            + ids[v] + "`."@,
        ChainEnd::Root => Seq::empty(),
    }
}

/// The error for the first node whose parent chain does not end at a root,
/// if there is one.
pub open spec fn chain_result(ids: Seq<Seq<char>>, parents: Seq<Option<Seq<char>>>) -> Option<Seq<char>> {
    if exists|i: int| is_first_unrooted(ids, parents, i) {
        let i = choose|i: int| is_first_unrooted(ids, parents, i);
        Some(chain_message(ids, parents, walk(ids, parents, i, Seq::empty())))
    } else {
        None
    }
}

/// The outcome of `sanitize_articulation_nodes` on the given nodes.
pub open spec fn sanitize_result(nodes: Seq<ArticulationNode>, parts_len: usize) -> Option<Seq<char>> {
    if exists|i: int| is_first_faulty(nodes, parts_len, i) {
        let i = choose|i: int| is_first_faulty(nodes, parts_len, i);
        Some(fault_message(i, trim(nodes[i].node_id@), parts_len, node_fault(nodes, parts_len, i)->0))
    } else {
        chain_result(norm_ids(nodes), norm_parents(nodes))
    }
}

/// `s` is strictly increasing.
pub open spec fn strictly_increasing(s: Seq<usize>) -> bool {
    forall|a: int, b: int| 0 <= a < b < s.len() ==> s[a] < s[b]
}

// ---------------------------------------------------------------------------
// Lemmas
// ---------------------------------------------------------------------------

proof fn lemma_first_unique_faulty(nodes: Seq<ArticulationNode>, parts_len: usize, i: int)
    requires
        is_first_faulty(nodes, parts_len, i),
    ensures
        (choose|k: int| is_first_faulty(nodes, parts_len, k)) == i,
{
    let k = choose|k: int| is_first_faulty(nodes, parts_len, k);
    assert(is_first_faulty(nodes, parts_len, k));
    if k < i {
        assert(node_fault(nodes, parts_len, k) is None);
    } else if i < k {
        assert(node_fault(nodes, parts_len, i) is None);
    }
}

proof fn lemma_first_unique_unrooted(ids: Seq<Seq<char>>, parents: Seq<Option<Seq<char>>>, i: int)
    requires
        is_first_unrooted(ids, parents, i),
    ensures
        (choose|k: int| is_first_unrooted(ids, parents, k)) == i,
{
    let k = choose|k: int| is_first_unrooted(ids, parents, k);
    assert(is_first_unrooted(ids, parents, k));
    if k < i {
        assert(walk(ids, parents, k, Seq::empty()) is Root);
    } else if i < k {
        assert(walk(ids, parents, i, Seq::empty()) is Root);
    }
}

/// A duplicate-free sequence of positions below `n` has fewer than `n`
/// elements when some position below `n` is missing from it.
proof fn lemma_path_bound(path: Seq<int>, n: int, cur: int)
    requires
        path.no_duplicates(),
        forall|j: int| 0 <= j < path.len() ==> 0 <= #[trigger] path[j] < n,
        0 <= cur < n,
        !path.contains(cur),
    ensures
        path.len() < n,
{
    let p2 = path.push(cur);
    assert(p2.no_duplicates()) by {
        assert forall|a: int, b: int| 0 <= a < b < p2.len() implies p2[a] != p2[b] by {
            if b == p2.len() - 1 {
                assert(p2[a] == path[a]);
            }
        }
    }
    p2.unique_seq_to_set();
    let r = vstd::set_lib::set_int_range(0, n);
    vstd::set_lib::lemma_int_range(0, n);
    assert(p2.to_set().subset_of(r)) by {
        assert forall|x: int| p2.to_set().contains(x) implies r.contains(x) by {
            let j = choose|j: int| 0 <= j < p2.len() && p2[j] == x;
            if j < path.len() {
                assert(p2[j] == path[j]);
            }
        }
    }
    vstd::set_lib::lemma_len_subset(p2.to_set(), r);
}

/// Visited nodes form a set closed under parent links, ranked by a depth
/// that decreases towards the roots.
pub open spec fn ranked(
    ids: Seq<Seq<char>>,
    parents: Seq<Option<Seq<char>>>,
    visited: Seq<bool>,
    depth: Seq<nat>,
) -> bool {
    &&& visited.len() == ids.len()
    &&& depth.len() == ids.len()
    &&& forall|v: int|
        0 <= v < ids.len() && #[trigger] visited[v] ==> match parent_link(ids, parents, v) {
            ParentLink::NoParent => true,
            ParentLink::Missing => false,
            ParentLink::At(k) => 0 <= k < ids.len() && visited[k] && depth[k] < depth[v],
        }
}

/// From a visited node, the walk ends at a root whenever the nodes already
/// passed are unvisited or deeper.
proof fn lemma_walk_visited(
    ids: Seq<Seq<char>>,
    parents: Seq<Option<Seq<char>>>,
    visited: Seq<bool>,
    depth: Seq<nat>,
    cur: int,
    path: Seq<int>,
)
    requires
        ranked(ids, parents, visited, depth),
        0 <= cur < ids.len(),
        visited[cur],
        path.no_duplicates(),
        forall|j: int| 0 <= j < path.len() ==> 0 <= #[trigger] path[j] < ids.len(),
        forall|j: int|
            0 <= j < path.len() ==> !visited[#[trigger] path[j]] || depth[path[j]] > depth[cur],
    ensures
        walk(ids, parents, cur, path) is Root,
    decreases depth[cur],
{
    if path.contains(cur) {
        let j = choose|j: int| 0 <= j < path.len() && path[j] == cur;
        assert(!visited[path[j]] || depth[path[j]] > depth[cur]);
        assert(false);
    }
    lemma_path_bound(path, ids.len() as int, cur);
    match parent_link(ids, parents, cur) {
        ParentLink::NoParent => {},
        ParentLink::Missing => {},
        ParentLink::At(k) => {
            let p2 = path.push(cur);
            assert(p2.no_duplicates()) by {
                assert forall|a: int, b: int| 0 <= a < b < p2.len() implies p2[a] != p2[b] by {
                    if b == p2.len() - 1 {
                        assert(p2[a] == path[a]);
                    }
                }
            }
            assert forall|j: int| 0 <= j < p2.len() implies !visited[#[trigger] p2[j]] || depth[p2[j]]
                > depth[k] by {
                if j < path.len() {
                    assert(p2[j] == path[j]);
                }
            }
            lemma_walk_visited(ids, parents, visited, depth, k, p2);
        },
    }
}

/// The walk from `cur` with `path` passed is the walk from the start of the
/// path.
proof fn lemma_walk_step(
    ids: Seq<Seq<char>>,
    parents: Seq<Option<Seq<char>>>,
    cur: int,
    path: Seq<int>,
    k: int,
)
    requires
        !path.contains(cur),
        path.len() < ids.len(),
        parent_link(ids, parents, cur) == ParentLink::At(k),
    ensures
        walk(ids, parents, cur, path) == walk(ids, parents, k, path.push(cur)),
{
}

// ---------------------------------------------------------------------------
// Executable parts
// ---------------------------------------------------------------------------

/// The distinct values of `v`, in increasing order (`sort_unstable` then
/// `dedup`).
fn sorted_distinct(v: &Vec<usize>) -> (out: Vec<usize>)
    ensures
        strictly_increasing(out@),
        out@.to_set() == v@.to_set(),
        out@.len() == 0 <==> v@.len() == 0,
{
    let mut out: Vec<usize> = Vec::new();
    let mut i: usize = 0;
    while i < v.len()
        invariant
            i <= v.len(),
            strictly_increasing(out@),
            out@.to_set() == v@.take(i as int).to_set(),
            out@.len() == 0 <==> i == 0,
        decreases v.len() - i,
    {
        let x = v[i];
        let mut pos: usize = 0;
        while pos < out.len() && out[pos] < x
            invariant
                pos <= out.len(),
                forall|j: int| 0 <= j < pos ==> out@[j] < x,
            decreases out.len() - pos,
        {
            pos = pos + 1;
        }
        let ghost before = out@;
        let ghost t0 = v@.take(i as int);
        let ghost t1 = v@.take(i + 1);
        assert(t1 =~= t0.push(x));
        if pos < out.len() && out[pos] == x {
            assert(out@.to_set() =~= t1.to_set()) by {
                assert forall|y: usize| t1.to_set().contains(y) implies out@.to_set().contains(y) by {
                    let k = choose|k: int| 0 <= k < t1.len() && #[trigger] t1[k] == y;
                    if k < i {
                        assert(t0[k] == y);
                        assert(t0.to_set().contains(y));
                    } else {
                        assert(out@[pos as int] == y);
                    }
                }
                assert forall|y: usize| out@.to_set().contains(y) implies t1.to_set().contains(y) by {
                    assert(t0.to_set().contains(y));
                    let k = choose|k: int| 0 <= k < t0.len() && #[trigger] t0[k] == y;
                    assert(t1[k] == y);
                }
            }
        } else {
            out.insert(pos, x);
            assert(strictly_increasing(out@)) by {
                assert forall|a: int, b: int| 0 <= a < b < out@.len() implies out@[a] < out@[b] by {
                    if a < pos && b < pos {
                        assert(out@[a] == before[a] && out@[b] == before[b]);
                    } else if a < pos && b == pos {
                        assert(out@[a] == before[a]);
                    } else if a < pos {
                        assert(out@[a] == before[a] && out@[b] == before[b - 1]);
                    } else if a == pos {
                        assert(out@[b] == before[b - 1]);
                        assert(before[pos as int] >= x);
                        if b - 1 > pos {
                            assert(before[pos as int] < before[b - 1]);
                        }
                    } else {
                        assert(out@[a] == before[a - 1] && out@[b] == before[b - 1]);
                    }
                }
            }
            assert(out@.to_set() =~= t1.to_set()) by {
                assert forall|y: usize| t1.to_set().contains(y) implies out@.to_set().contains(y) by {
                    let k = choose|k: int| 0 <= k < t1.len() && #[trigger] t1[k] == y;
                    if k < i {
                        assert(t0[k] == y);
                        assert(t0.to_set().contains(y));
                        assert(before.to_set().contains(y));
                        let m = choose|m: int| 0 <= m < before.len() && #[trigger] before[m] == y;
                        if m < pos {
                            assert(out@[m] == y);
                        } else {
                            assert(out@[m + 1] == y);
                        }
                    } else {
                        assert(out@[pos as int] == y);
                    }
                }
                assert forall|y: usize| out@.to_set().contains(y) implies t1.to_set().contains(y) by {
                    let m = choose|m: int| 0 <= m < out@.len() && #[trigger] out@[m] == y;
                    if m == pos {
                        assert(t1[i as int] == y);
                    } else {
                        let mb = if m < pos { m } else { m - 1 };
                        assert(before[mb] == y);
                        assert(before.to_set().contains(y));
                        let k = choose|k: int| 0 <= k < t0.len() && #[trigger] t0[k] == y;
                        assert(t1[k] == y);
                    }
                }
            }
        }
        i = i + 1;
    }
    assert(v@.take(v.len() as int) =~= v@);
    out
}

fn node_message(prefix: &str, id: &String, suffix: &str) -> (m: String)
    ensures
        m@ == prefix@ + id@ + suffix@,
{
    let mut m = owned(prefix);
    push_str(&mut m, id.as_str());
    push_str(&mut m, suffix);
    m
}

/// The position of the first node with id `id`.
fn find_node(nodes: &Vec<ArticulationNode>, id: &String) -> (r: Option<usize>)
    ensures
        match r {
            Some(k) => k < nodes@.len() && index_of_id(Seq::new(nodes@.len(), |j: int| nodes@[j].node_id@), id@) == Some(
                k as int,
            ),
            None => index_of_id(Seq::new(nodes@.len(), |j: int| nodes@[j].node_id@), id@) is None,
        },
{
    let ghost ids = Seq::new(nodes@.len(), |j: int| nodes@[j].node_id@);
    let mut k: usize = 0;
    while k < nodes.len()
        invariant
            k <= nodes.len(),
            ids == Seq::new(nodes@.len(), |j: int| nodes@[j].node_id@),
            forall|j: int| 0 <= j < k ==> ids[j] != id@,
        decreases nodes.len() - k,
    {
        if nodes[k].node_id == *id {
            proof {
                reveal(index_of_id);
                let c = choose|c: int| 0 <= c < ids.len() && ids[c] == id@ && forall|l: int| 0 <= l < c ==> ids[l] != id@;
                assert(0 <= k < ids.len() && ids[k as int] == id@);
                if c < k {
                } else if k < c {
                    assert(ids[k as int] != id@);
                }
            }
            return Some(k);
        }
        k = k + 1;
    }
    proof {
        reveal(index_of_id);
    }
    None
}

/// The node `j` after phase 1 relates to the node it was made from.
pub open spec fn normalized_node(before: ArticulationNode, after: ArticulationNode) -> bool {
    &&& after.node_id@ == trim(before.node_id@)
    &&& (match after.parent_node_id {
        Some(p) => norm_parent(before.parent_node_id) == Some(p@),
        None => norm_parent(before.parent_node_id) is None,
    })
    &&& strictly_increasing(after.bind_part_indices@)
    &&& after.bind_part_indices@.to_set() == before.bind_part_indices@.to_set()
}

proof fn lemma_bound_before_small(nodes: Seq<ArticulationNode>, parts_len: usize, i: int)
    requires
        0 <= i <= nodes.len(),
        forall|j: int| 0 <= j < i ==> #[trigger] node_fault(nodes, parts_len, j) is None,
    ensures
        forall|p: usize| bound_before(nodes, i).contains(p) ==> p < parts_len,
    decreases i,
{
    if i > 0 {
        lemma_bound_before_small(nodes, parts_len, i - 1);
        assert forall|p: usize| bound_before(nodes, i).contains(p) implies p < parts_len by {
            if !bound_before(nodes, i - 1).contains(p) {
                assert(nodes[i - 1].bind_part_indices@.to_set().contains(p));
                if p >= parts_len {
                    reveal(node_fault);
                    assert(bad_part(nodes, parts_len, i - 1, p));
                    assert(node_fault(nodes, parts_len, i - 1) is Some);
                }
            }
        }
    }
}

/// The ids of the nodes as they stand.
pub open spec fn node_ids(nodes: Seq<ArticulationNode>) -> Seq<Seq<char>> {
    Seq::new(nodes.len(), |j: int| nodes[j].node_id@)
}

/// The parent ids of the nodes as they stand.
pub open spec fn node_parents(nodes: Seq<ArticulationNode>) -> Seq<Option<Seq<char>>> {
    Seq::new(
        nodes.len(),
        |j: int|
            match nodes[j].parent_node_id {
                Some(p) => Some(p@),
                None => None,
            },
    )
}

/// A path of positions as integers.
pub open spec fn int_path(p: Seq<usize>) -> Seq<int> {
    Seq::new(p.len(), |t: int| p[t] as int)
}

/// `g` is a chain of parent links from `idx` through nodes not yet visited.
pub open spec fn chain_from(
    ids: Seq<Seq<char>>,
    parents: Seq<Option<Seq<char>>>,
    visited: Seq<bool>,
    idx: int,
    g: Seq<int>,
) -> bool {
    &&& g.no_duplicates()
    &&& forall|t: int| 0 <= t < g.len() ==> 0 <= #[trigger] g[t] < ids.len() && !visited[g[t]]
    &&& forall|t: int|
        0 <= t < g.len() - 1 ==> parent_link(ids, parents, #[trigger] g[t]) == ParentLink::At(g[t + 1])
    &&& g.len() > 0 ==> g[0] == idx
}

/// How a chain ends: at a node without parent (`None`), or just before the
/// visited node `c`.
pub open spec fn chain_end(
    ids: Seq<Seq<char>>,
    parents: Seq<Option<Seq<char>>>,
    visited: Seq<bool>,
    idx: int,
    g: Seq<int>,
    end: Option<int>,
) -> bool {
    match end {
        None => g.len() > 0 && parent_link(ids, parents, g.last()) == ParentLink::NoParent,
        Some(c) => {
            &&& 0 <= c < ids.len()
            &&& visited[c]
            &&& g.len() > 0 ==> parent_link(ids, parents, g.last()) == ParentLink::At(c)
            &&& g.len() == 0 ==> c == idx
        },
    }
}

proof fn lemma_push_no_dup(g: Seq<int>, x: int)
    requires
        g.no_duplicates(),
        !g.contains(x),
    ensures
        g.push(x).no_duplicates(),
{
    let p2 = g.push(x);
    assert forall|a: int, b: int| 0 <= a < b < p2.len() implies p2[a] != p2[b] by {
        if b == p2.len() - 1 {
            assert(p2[a] == g[a]);
        }
    }
}

/// Extending a chain by the node its last link leads to.
proof fn lemma_extend_chain(
    ids: Seq<Seq<char>>,
    parents: Seq<Option<Seq<char>>>,
    visited: Seq<bool>,
    idx: int,
    g: Seq<int>,
    cur: int,
)
    requires
        chain_from(ids, parents, visited, idx, g),
        0 <= cur < ids.len(),
        !visited[cur],
        !g.contains(cur),
        g.len() > 0 ==> parent_link(ids, parents, g.last()) == ParentLink::At(cur),
        g.len() == 0 ==> cur == idx,
    ensures
        chain_from(ids, parents, visited, idx, g.push(cur)),
{
    let g2 = g.push(cur);
    lemma_push_no_dup(g, cur);
    assert forall|t: int| 0 <= t < g2.len() implies 0 <= #[trigger] g2[t] < ids.len() && !visited[g2[t]] by {
        if t < g.len() {
            assert(g2[t] == g[t]);
        }
    }
    assert forall|t: int| 0 <= t < g2.len() - 1 implies parent_link(ids, parents, #[trigger] g2[t])
        == ParentLink::At(g2[t + 1]) by {
        if t < g.len() - 1 {
            assert(g2[t] == g[t] && g2[t + 1] == g[t + 1]);
        } else {
            assert(g2[t] == g.last());
        }
    }
}

/// Marking `cur` as being visited keeps the marks equal to the chain.
proof fn lemma_mark_visiting(vis0: Seq<bool>, vis1: Seq<bool>, g: Seq<int>, cur: int)
    requires
        0 <= cur < vis0.len(),
        vis1 == vis0.update(cur, true),
        forall|v: int| 0 <= v < vis0.len() ==> (#[trigger] vis0[v] <==> g.contains(v)),
    ensures
        forall|v: int| 0 <= v < vis1.len() ==> (#[trigger] vis1[v] <==> g.push(cur).contains(v)),
{
    let g2 = g.push(cur);
    assert forall|v: int| 0 <= v < vis1.len() implies (#[trigger] vis1[v] <==> g2.contains(v)) by {
        if g2.contains(v) && v != cur {
            let t = choose|t: int| 0 <= t < g2.len() && g2[t] == v;
            assert(g[t] == v);
        }
        if g.contains(v) {
            let t = choose|t: int| 0 <= t < g.len() && g[t] == v;
            assert(g2[t] == v);
        }
        if v == cur {
            assert(g2[g.len() as int] == v);
        }
    }
}

/// Follows parent links from node `idx` until a node without parent or a
/// visited node; fails on a missing parent or a cycle.
#[verifier::rlimit(40)]
fn trace_chain(nodes: &Vec<ArticulationNode>, idx: usize, visiting: &mut Vec<bool>, visited: &Vec<bool>) -> (r:
    Result<(Vec<usize>, Option<usize>), String>)
    requires
        idx < nodes@.len(),
        old(visiting)@.len() == nodes@.len(),
        visited@.len() == nodes@.len(),
        forall|v: int| 0 <= v < nodes@.len() ==> !(#[trigger] old(visiting)@[v]),
    ensures
        final(visiting)@.len() == nodes@.len(),
        match r {
            Err(m) => {
                &&& !(walk(node_ids(nodes@), node_parents(nodes@), idx as int, Seq::empty()) is Root)
                &&& m@ == chain_message(
                    node_ids(nodes@),
                    node_parents(nodes@),
                    walk(node_ids(nodes@), node_parents(nodes@), idx as int, Seq::empty()),
                )
            },
            Ok((path, end)) => {
                &&& chain_from(node_ids(nodes@), node_parents(nodes@), visited@, idx as int, int_path(path@))
                &&& chain_end(
                    node_ids(nodes@),
                    node_parents(nodes@),
                    visited@,
                    idx as int,
                    int_path(path@),
                    match end {
                        Some(c) => Some(c as int),
                        None => None,
                    },
                )
                &&& walk(node_ids(nodes@), node_parents(nodes@), idx as int, Seq::empty()) == (match end {
                    Some(c) => walk(node_ids(nodes@), node_parents(nodes@), c as int, int_path(path@)),
                    None => ChainEnd::Root,
                })
                &&& forall|v: int| 0 <= v < nodes@.len() ==> (#[trigger] final(visiting)@[v] <==> int_path(path@).contains(v))
            },
        },
{
    let ghost ids = node_ids(nodes@);
    let ghost parents = node_parents(nodes@);
    let n = nodes.len();
    let mut path: Vec<usize> = Vec::new();
    let mut cur: usize = idx;
    assert(int_path(path@) =~= Seq::<int>::empty());
    loop
        invariant
            n == nodes@.len(),
            ids == node_ids(nodes@),
            parents == node_parents(nodes@),
            visiting@.len() == n,
            visited@.len() == n,
            cur < n,
            chain_from(ids, parents, visited@, idx as int, int_path(path@)),
            forall|v: int| 0 <= v < n ==> (#[trigger] visiting@[v] <==> int_path(path@).contains(v)),
            path@.len() > 0 ==> parent_link(ids, parents, int_path(path@).last()) == ParentLink::At(cur as int),
            path@.len() == 0 ==> cur == idx,
            walk(ids, parents, idx as int, Seq::empty()) == walk(ids, parents, cur as int, int_path(path@)),
        decreases n - path@.len(),
    {
        let ghost g = int_path(path@);
        if visited[cur] {
            return Ok((path, Some(cur)));
        }
        if visiting[cur] {
            proof {
                assert(walk(ids, parents, cur as int, g) == ChainEnd::Cycle(cur as int));
            }
            return Err(
                node_message(
                    "AI draft articulation_nodes contains a parent cycle involving `",
                    &nodes[cur].node_id,
                    "`.",
                ),
            );
        }
        let ghost vis0 = visiting@;
        proof {
            lemma_path_bound(g, n as int, cur as int);
            lemma_extend_chain(ids, parents, visited@, idx as int, g, cur as int);
        }
        visiting.set(cur, true);
        path.push(cur);
        proof {
            assert(int_path(path@) =~= g.push(cur as int));
            lemma_mark_visiting(vis0, visiting@, g, cur as int);
        }
        match &nodes[cur].parent_node_id {
            None => {
                proof {
                    assert(parents[cur as int] is None);
                    assert(walk(ids, parents, cur as int, g) == ChainEnd::Root);
                }
                return Ok((path, None));
            },
            Some(p) => {
                match find_node(nodes, p) {
                    None => {
                        proof {
                            assert(parents[cur as int] == Some(p@));
                            assert(ids =~= Seq::new(nodes@.len(), |j: int| nodes@[j].node_id@));
                            assert(walk(ids, parents, cur as int, g) == ChainEnd::MissingParent(cur as int));
                        }
                        let mut m = node_message(
                            "AI draft articulation node `",
                            &nodes[cur].node_id,
                            "` references missing parent_node_id `",
                        );
                        push_str(&mut m, p.as_str());
                        push_str(&mut m, "`.");
                        return Err(m);
                    },
                    Some(k) => {
                        proof {
                            assert(parents[cur as int] == Some(p@));
                            assert(ids =~= Seq::new(nodes@.len(), |j: int| nodes@[j].node_id@));
                            assert(parent_link(ids, parents, cur as int) == ParentLink::At(k as int));
                            lemma_walk_step(ids, parents, cur as int, g, k as int);
                            assert(int_path(path@).last() == cur as int);
                        }
                        cur = k;
                    },
                }
            },
        }
    }
}

/// The position of `v` in `g`.
spec fn pos_in(g: Seq<int>, v: int) -> int {
    choose|t: int| 0 <= t < g.len() && g[t] == v
}

/// The depths after a chain is marked visited: the chain's nodes are ranked
/// above `base`, the last one lowest.
spec fn depth_after(depth: Seq<nat>, g: Seq<int>, base: nat) -> Seq<nat> {
    Seq::new(
        depth.len(),
        |v: int|
            if g.contains(v) {
                (base + (g.len() - 1 - pos_in(g, v))) as nat
            } else {
                depth[v]
            },
    )
}

proof fn lemma_pos_in(g: Seq<int>, u: int)
    requires
        g.no_duplicates(),
        0 <= u < g.len(),
    ensures
        g.contains(g[u]),
        pos_in(g, g[u]) == u,
{
    assert(g.contains(g[u]));
    let c = pos_in(g, g[u]);
    if c != u {
        assert(g[c] == g[u]);
    }
}

/// A node of the chain is ranked once the chain is marked visited.
proof fn lemma_rank_on_chain(
    ids: Seq<Seq<char>>,
    parents: Seq<Option<Seq<char>>>,
    visited: Seq<bool>,
    depth: Seq<nat>,
    idx: int,
    g: Seq<int>,
    end: Option<int>,
    u: int,
)
    requires
        ranked(ids, parents, visited, depth),
        chain_from(ids, parents, visited, idx, g),
        chain_end(ids, parents, visited, idx, g, end),
        0 <= u < g.len(),
    ensures
        ({
            let base: nat = match end {
                None => 0,
                Some(c) => depth[c] + 1,
            };
            let nv = Seq::new(ids.len(), |w: int| visited[w] || g.contains(w));
            let d2 = depth_after(depth, g, base);
            match parent_link(ids, parents, g[u]) {
                ParentLink::NoParent => true,
                ParentLink::Missing => false,
                ParentLink::At(k) => 0 <= k < ids.len() && nv[k] && d2[k] < d2[g[u]],
            }
        }),
{
    let base: nat = match end {
        None => 0,
        Some(c) => depth[c] + 1,
    };
    let r = g.len() as int;
    let d2 = depth_after(depth, g, base);
    lemma_pos_in(g, u);
    assert(d2[g[u]] == base + (r - 1 - u));
    if u < r - 1 {
        assert(parent_link(ids, parents, g[u]) == ParentLink::At(g[u + 1]));
        lemma_pos_in(g, u + 1);
        assert(d2[g[u + 1]] == base + (r - 1 - (u + 1)));
    } else {
        assert(g.last() == g[u]);
        match end {
            None => {},
            Some(c) => {
                if g.contains(c) {
                    let w = choose|w: int| 0 <= w < g.len() && g[w] == c;
                    assert(!visited[g[w]]);
                }
                assert(d2[c] == depth[c]);
            },
        }
    }
}

/// A node off the chain that was visited stays ranked.
proof fn lemma_rank_off_chain(
    ids: Seq<Seq<char>>,
    parents: Seq<Option<Seq<char>>>,
    visited: Seq<bool>,
    depth: Seq<nat>,
    idx: int,
    g: Seq<int>,
    base: nat,
    v: int,
)
    requires
        ranked(ids, parents, visited, depth),
        chain_from(ids, parents, visited, idx, g),
        0 <= v < ids.len(),
        visited[v],
        !g.contains(v),
    ensures
        ({
            let nv = Seq::new(ids.len(), |w: int| visited[w] || g.contains(w));
            let d2 = depth_after(depth, g, base);
            match parent_link(ids, parents, v) {
                ParentLink::NoParent => true,
                ParentLink::Missing => false,
                ParentLink::At(k) => 0 <= k < ids.len() && nv[k] && d2[k] < d2[v],
            }
        }),
{
    match parent_link(ids, parents, v) {
        ParentLink::At(k) => {
            assert(visited[k]);
            if g.contains(k) {
                let w = choose|w: int| 0 <= w < g.len() && g[w] == k;
                assert(!visited[g[w]]);
            }
        },
        _ => {},
    }
}

/// After the nodes of a chain are marked visited, a depth exists that
/// ranks the larger visited set.
proof fn lemma_rank_chain(
    ids: Seq<Seq<char>>,
    parents: Seq<Option<Seq<char>>>,
    visited: Seq<bool>,
    depth: Seq<nat>,
    idx: int,
    g: Seq<int>,
    end: Option<int>,
) -> (d2: Seq<nat>)
    requires
        ranked(ids, parents, visited, depth),
        chain_from(ids, parents, visited, idx, g),
        chain_end(ids, parents, visited, idx, g, end),
        0 <= idx < ids.len(),
    ensures
        ranked(ids, parents, Seq::new(ids.len(), |v: int| visited[v] || g.contains(v)), d2),
        visited[idx] || g.contains(idx),
{
    let n = ids.len();
    let base: nat = match end {
        None => 0,
        Some(c) => depth[c] + 1,
    };
    let d2 = depth_after(depth, g, base);
    let nv = Seq::new(n, |v: int| visited[v] || g.contains(v));
    assert forall|v: int| 0 <= v < n && #[trigger] nv[v] implies match parent_link(ids, parents, v) {
        ParentLink::NoParent => true,
        ParentLink::Missing => false,
        ParentLink::At(k) => 0 <= k < n && nv[k] && d2[k] < d2[v],
    } by {
        if g.contains(v) {
            let u = choose|u: int| 0 <= u < g.len() && g[u] == v;
            lemma_rank_on_chain(ids, parents, visited, depth, idx, g, end, u);
        } else {
            lemma_rank_off_chain(ids, parents, visited, depth, idx, g, base, v);
        }
    }
    if g.len() > 0 {
        assert(g[0] == idx);
        assert(g.contains(idx));
    }
    d2
}

/// Checks that every parent chain of the nodes ends at a node without
/// parent.
fn check_parent_chains(nodes: &Vec<ArticulationNode>) -> (r: Result<(), String>)
    ensures
        match r {
            Ok(()) => chain_result(node_ids(nodes@), node_parents(nodes@)) is None,
            Err(m) => chain_result(node_ids(nodes@), node_parents(nodes@)) == Some(m@),
        },
{
    let ghost ids = node_ids(nodes@);
    let ghost parents = node_parents(nodes@);
    let n = nodes.len();
    let mut visiting: Vec<bool> = vec![false; n];
    let mut visited: Vec<bool> = vec![false; n];
    let ghost mut depth: Seq<nat> = Seq::new(n as nat, |v: int| 0nat);
    let mut idx: usize = 0;
    while idx < n
        invariant
            idx <= n,
            n == nodes@.len(),
            ids == node_ids(nodes@),
            parents == node_parents(nodes@),
            visiting@.len() == n,
            ranked(ids, parents, visited@, depth),
            forall|v: int| 0 <= v < n ==> !(#[trigger] visiting@[v]),
            forall|j: int| 0 <= j < idx ==> #[trigger] walk(ids, parents, j, Seq::empty()) is Root,
        decreases n - idx,
    {
        match trace_chain(nodes, idx, &mut visiting, &visited) {
            Err(m) => {
                proof {
                    assert(is_first_unrooted(ids, parents, idx as int));
                    lemma_first_unique_unrooted(ids, parents, idx as int);
                }
                return Err(m);
            },
            Ok((path, end)) => {
                let ghost g = int_path(path@);
                let ghost gend: Option<int> = match end {
                    Some(c) => Some(c as int),
                    None => None,
                };
                let ghost old_visited = visited@;
                let mut t: usize = 0;
                while t < path.len()
                    invariant
                        t <= path.len(),
                        g == int_path(path@),
                        forall|u: int| 0 <= u < g.len() ==> 0 <= #[trigger] g[u] < n,
                        visited@.len() == n,
                        visiting@.len() == n,
                        forall|v: int|
                            0 <= v < n ==> #[trigger] visited@[v] == (old_visited[v] || exists|u: int|
                                0 <= u < t && g[u] == v),
                        forall|v: int|
                            0 <= v < n ==> #[trigger] visiting@[v] == (g.contains(v) && !exists|u: int|
                                0 <= u < t && g[u] == v),
                    decreases path.len() - t,
                {
                    let v = path[t];
                    assert(g[t as int] == v);
                    visited.set(v, true);
                    visiting.set(v, false);
                    proof {
                        assert forall|w: int| 0 <= w < n implies #[trigger] visited@[w] == (old_visited[w]
                            || exists|u: int| 0 <= u < t + 1 && g[u] == w) by {
                            if w == v as int {
                                assert(g[t as int] == w);
                            }
                            if exists|u: int| 0 <= u < t + 1 && g[u] == w {
                                let u = choose|u: int| 0 <= u < t + 1 && g[u] == w;
                                if u < t {
                                    assert(exists|u: int| 0 <= u < t && g[u] == w);
                                }
                            }
                        }
                        assert forall|w: int| 0 <= w < n implies #[trigger] visiting@[w] == (g.contains(w)
                            && !exists|u: int| 0 <= u < t + 1 && g[u] == w) by {
                            if w == v as int {
                                assert(g[t as int] == w);
                            }
                            if exists|u: int| 0 <= u < t + 1 && g[u] == w {
                                let u = choose|u: int| 0 <= u < t + 1 && g[u] == w;
                                if u < t {
                                    assert(exists|u: int| 0 <= u < t && g[u] == w);
                                }
                            }
                        }
                    }
                    t = t + 1;
                }
                proof {
                    assert forall|v: int| 0 <= v < n implies !(#[trigger] visiting@[v]) by {
                        if g.contains(v) {
                            let u = choose|u: int| 0 <= u < g.len() && g[u] == v;
                            assert(exists|u: int| 0 <= u < t && g[u] == v);
                        }
                    }
                    assert(visited@ =~= Seq::new(n as nat, |v: int| old_visited[v] || g.contains(v))) by {
                        assert forall|v: int| 0 <= v < n implies visited@[v] == (old_visited[v] || g.contains(v)) by {
                            if g.contains(v) {
                                let u = choose|u: int| 0 <= u < g.len() && g[u] == v;
                                assert(exists|u: int| 0 <= u < t && g[u] == v);
                            }
                            assert(visited@[v] == (old_visited[v] || exists|u: int| 0 <= u < t && g[u] == v));
                        }
                    }
                    depth = lemma_rank_chain(ids, parents, old_visited, depth, idx as int, g, gend);
                    lemma_walk_visited(ids, parents, visited@, depth, idx as int, Seq::empty());
                }
            },
        }
        idx = idx + 1;
    }
    proof {
        assert(!exists|f: int| is_first_unrooted(ids, parents, f));
    }
    Ok(())
}

/// Checks the articulation nodes of a draft against `parts_len` parts and
/// normalizes them: ids and parent ids are trimmed (an empty parent id means
/// none), bound part indices are sorted and deduplicated. A node needs a
/// non-empty id that no earlier node has, may not be its own parent, and
/// binds at least one part, each in range and bound by no other node; every
/// parent chain must end at a node without parent.
#[verifier::rlimit(40)]
pub fn sanitize_articulation_nodes(nodes: &mut Vec<ArticulationNode>, parts_len: usize) -> (r: Result<
    (),
    String,
>)
    ensures
        final(nodes)@.len() == old(nodes)@.len(),
        match r {
            Ok(()) => {
                &&& sanitize_result(old(nodes)@, parts_len) is None
                &&& forall|j: int|
                    0 <= j < old(nodes)@.len() ==> normalized_node(
                        old(nodes)@[j],
                        #[trigger] final(nodes)@[j],
                    )
            },
            Err(m) => sanitize_result(old(nodes)@, parts_len) == Some(m@),
        },
{
    let ghost orig = nodes@;
    let n = nodes.len();
    let mut seen: Vec<bool> = vec![false; parts_len];
    let mut i: usize = 0;
    while i < n
        invariant
            i <= n,
            n == nodes@.len(),
            n == orig.len(),
            orig == old(nodes)@,
            seen@.len() == parts_len,
            forall|j: int| 0 <= j < i ==> #[trigger] node_fault(orig, parts_len, j) is None,
            forall|j: int| 0 <= j < i ==> normalized_node(orig[j], #[trigger] nodes@[j]),
            forall|j: int| i <= j < n ==> #[trigger] nodes@[j] == orig[j],
            forall|p: int| 0 <= p < parts_len ==> #[trigger] seen@[p] == bound_before(orig, i as int).contains(p as usize),
        decreases n - i,
    {
        proof {
            lemma_bound_before_small(orig, parts_len, i as int);
        }
        let id = trim_str(nodes[i].node_id.as_str());
        if chars_of(id.as_str()).len() == 0 {
            proof {
                reveal(node_fault);
                assert(node_fault(orig, parts_len, i as int) == Some(NodeFault::MissingId));
                assert(is_first_faulty(orig, parts_len, i as int));
                lemma_first_unique_faulty(orig, parts_len, i as int);
            }
            let mut m = owned("AI draft articulation_nodes[");
            push_decimal(&mut m, i as u64);
            push_str(&mut m, "] is missing required `node_id`.");
            return Err(m);
        }
        let parent: Option<String> = match &nodes[i].parent_node_id {
            Some(p) => {
                let t = trim_str(p.as_str());
                if chars_of(t.as_str()).len() > 0 {
                    Some(t)
                } else {
                    None
                }
            },
            None => None,
        };
        let self_parent = match &parent {
            Some(p) => *p == id,
            None => false,
        };
        if self_parent {
            proof {
                reveal(node_fault);
                assert(node_fault(orig, parts_len, i as int) == Some(NodeFault::SelfParent));
                assert(is_first_faulty(orig, parts_len, i as int));
                lemma_first_unique_faulty(orig, parts_len, i as int);
            }
            return Err(node_message("AI draft articulation node `", &id, "` cannot parent itself."));
        }
        if nodes[i].bind_part_indices.len() == 0 {
            proof {
                reveal(node_fault);
                assert(node_fault(orig, parts_len, i as int) == Some(NodeFault::NoParts));
                assert(is_first_faulty(orig, parts_len, i as int));
                lemma_first_unique_faulty(orig, parts_len, i as int);
            }
            return Err(
                node_message(
                    "AI draft articulation node `",
                    &id,
                    "` must bind at least one part index.",
                ),
            );
        }
        let sorted = sorted_distinct(&nodes[i].bind_part_indices);
        let ghost seen0 = seen@;
        let ghost bb = bound_before(orig, i as int);
        let mut k: usize = 0;
        while k < sorted.len()
            invariant
                k <= sorted.len(),
                i < n,
                n == nodes@.len(),
                n == orig.len(),
                orig == old(nodes)@,
                seen@.len() == parts_len,
                forall|j: int| 0 <= j < i ==> #[trigger] node_fault(orig, parts_len, j) is None,
                id@ == trim(orig[i as int].node_id@),
                id@.len() > 0,
                norm_parent(orig[i as int].parent_node_id) != Some(id@),
                orig[i as int].bind_part_indices@.len() > 0,
                strictly_increasing(sorted@),
                sorted@.to_set() == orig[i as int].bind_part_indices@.to_set(),
                bb == bound_before(orig, i as int),
                forall|p: int| 0 <= p < parts_len ==> #[trigger] seen0[p] == bb.contains(p as usize),
                forall|t: int| 0 <= t < k ==> (#[trigger] sorted@[t]) < parts_len && !bb.contains(sorted@[t]),
                forall|p: int|
                    0 <= p < parts_len ==> #[trigger] seen@[p] == (bb.contains(p as usize) || exists|t: int|
                        0 <= t < k && sorted@[t] == p),
            decreases sorted.len() - k,
        {
            let p = sorted[k];
            let bad = p >= parts_len || seen[p];
            if bad {
                proof {
                    if p < parts_len {
                        assert(seen@[p as int]);
                        if !bb.contains(p) {
                            let t = choose|t: int| 0 <= t < k && sorted@[t] == p;
                            assert(sorted@[t] < sorted@[k as int]);
                        }
                    }
                    assert(sorted@.to_set().contains(p));
                    assert(orig[i as int].bind_part_indices@.contains(p));
                    assert(bad_part(orig, parts_len, i as int, p));
                    assert forall|q: usize| bad_part(orig, parts_len, i as int, q) implies p <= q by {
                        if q < p {
                            assert(orig[i as int].bind_part_indices@.to_set().contains(q));
                            assert(sorted@.to_set().contains(q));
                            let t = choose|t: int| 0 <= t < sorted@.len() && sorted@[t] == q;
                            if t >= k {
                                if t > k {
                                    assert(sorted@[k as int] < sorted@[t]);
                                }
                            }
                        }
                    }
                    let c = choose|c: usize|
                        bad_part(orig, parts_len, i as int, c) && forall|q: usize|
                            bad_part(orig, parts_len, i as int, q) ==> c <= q;
                    assert(c == p);
                    reveal(node_fault);
                    assert(is_first_faulty(orig, parts_len, i as int));
                    lemma_first_unique_faulty(orig, parts_len, i as int);
                }
                if p >= parts_len {
                    let mut m = node_message(
                        "AI draft articulation node `",
                        &id,
                        "` references out-of-range bind_part_indices entry ",
                    );
                    push_decimal(&mut m, p as u64);
                    push_str(&mut m, " (parts_total=");
                    push_decimal(&mut m, parts_len as u64);
                    push_str(&mut m, ").");
                    return Err(m);
                } else {
                    let mut m = node_message("AI draft articulation node `", &id, "` reuses part index ");
                    push_decimal(&mut m, p as u64);
                    push_str(&mut m, " that is already bound by another articulation node.");
                    return Err(m);
                }
            }
            seen.set(p, true);
            proof {
                assert forall|q: int| 0 <= q < parts_len implies #[trigger] seen@[q] == (bb.contains(q as usize)
                    || exists|t: int| 0 <= t < k + 1 && sorted@[t] == q) by {
                    if q == p as int {
                        assert(sorted@[k as int] == q);
                    }
                    if exists|t: int| 0 <= t < k + 1 && sorted@[t] == q {
                        let t = choose|t: int| 0 <= t < k + 1 && sorted@[t] == q;
                        if t < k {
                            assert(exists|t: int| 0 <= t < k && sorted@[t] == q);
                        }
                    }
                }
            }
            k = k + 1;
        }
        proof {
            assert(!exists|q: usize| bad_part(orig, parts_len, i as int, q)) by {
                if exists|q: usize| bad_part(orig, parts_len, i as int, q) {
                    let q = choose|q: usize| bad_part(orig, parts_len, i as int, q);
                    assert(orig[i as int].bind_part_indices@.to_set().contains(q));
                    assert(sorted@.to_set().contains(q));
                    let t = choose|t: int| 0 <= t < sorted@.len() && sorted@[t] == q;
                }
            }
        }
        let mut j: usize = 0;
        while j < i
            invariant
                j <= i,
                i < n,
                n == nodes@.len(),
                n == orig.len(),
                orig == old(nodes)@,
                forall|l: int| 0 <= l < i ==> #[trigger] node_fault(orig, parts_len, l) is None,
                forall|l: int| 0 <= l < i ==> normalized_node(orig[l], #[trigger] nodes@[l]),
                id@ == trim(orig[i as int].node_id@),
                id@.len() > 0,
                norm_parent(orig[i as int].parent_node_id) != Some(id@),
                orig[i as int].bind_part_indices@.len() > 0,
                !exists|q: usize| bad_part(orig, parts_len, i as int, q),
                forall|l: int| 0 <= l < j ==> trim(orig[l].node_id@) != id@,
            decreases i - j,
        {
            if nodes[j].node_id == id {
                proof {
                    assert(normalized_node(orig[j as int], nodes@[j as int]));
                    assert(trim(orig[j as int].node_id@) == trim(orig[i as int].node_id@));
                    reveal(node_fault);
                assert(node_fault(orig, parts_len, i as int) == Some(NodeFault::Duplicate));
                    assert(is_first_faulty(orig, parts_len, i as int));
                    lemma_first_unique_faulty(orig, parts_len, i as int);
                }
                return Err(
                    node_message(
                        "AI draft articulation_nodes contains duplicate node_id `",
                        &id,
                        "`.",
                    ),
                );
            }
            proof {
                assert(normalized_node(orig[j as int], nodes@[j as int]));
            }
            j = j + 1;
        }
        proof {
            reveal(node_fault);
            assert(node_fault(orig, parts_len, i as int) is None);
            assert forall|p: int| 0 <= p < parts_len implies #[trigger] seen@[p] == bound_before(
                orig,
                i + 1,
            ).contains(p as usize) by {
                if exists|t: int| 0 <= t < sorted@.len() && sorted@[t] == p {
                    let t = choose|t: int| 0 <= t < sorted@.len() && sorted@[t] == p;
                    assert(sorted@.to_set().contains(p as usize));
                }
                if orig[i as int].bind_part_indices@.to_set().contains(p as usize) {
                    assert(sorted@.to_set().contains(p as usize));
                }
            }
        }
        nodes[i].node_id = id;
        nodes[i].parent_node_id = parent;
        nodes[i].bind_part_indices = sorted;
        i = i + 1;
    }
    proof {
        assert(!exists|f: int| is_first_faulty(orig, parts_len, f));
        assert(node_ids(nodes@) =~= norm_ids(orig));
        assert(node_parents(nodes@) =~= norm_parents(orig)) by {
            assert forall|j: int| 0 <= j < n implies #[trigger] node_parents(nodes@)[j] == norm_parents(orig)[j] by {
                assert(normalized_node(orig[j], nodes@[j]));
            }
        }
    }
    check_parent_chains(nodes)
}

// ---------------------------------------------------------------------------
// What a successful sanitization guarantees
// ---------------------------------------------------------------------------

proof fn lemma_no_fault_upto(nodes: Seq<ArticulationNode>, parts_len: usize, i: int)
    requires
        !exists|k: int| is_first_faulty(nodes, parts_len, k),
        0 <= i < nodes.len(),
    ensures
        forall|j: int| 0 <= j <= i ==> #[trigger] node_fault(nodes, parts_len, j) is None,
    decreases i,
{
    if i > 0 {
        lemma_no_fault_upto(nodes, parts_len, i - 1);
    }
    if node_fault(nodes, parts_len, i) is Some {
        assert forall|j: int| 0 <= j < i implies #[trigger] node_fault(nodes, parts_len, j) is None by {
        }
        assert(is_first_faulty(nodes, parts_len, i));
    }
}

proof fn lemma_all_rooted_upto(ids: Seq<Seq<char>>, parents: Seq<Option<Seq<char>>>, i: int)
    requires
        !exists|k: int| is_first_unrooted(ids, parents, k),
        0 <= i < ids.len(),
    ensures
        forall|j: int| 0 <= j <= i ==> #[trigger] walk(ids, parents, j, Seq::empty()) is Root,
    decreases i,
{
    if i > 0 {
        lemma_all_rooted_upto(ids, parents, i - 1);
    }
    if !(walk(ids, parents, i, Seq::empty()) is Root) {
        assert(is_first_unrooted(ids, parents, i));
    }
}

/// A sanitization that succeeds finds no failing node and no unrooted chain.
proof fn lemma_success_means_clean(nodes: Seq<ArticulationNode>, parts_len: usize)
    requires
        sanitize_result(nodes, parts_len) is None,
    ensures
        forall|i: int| 0 <= i < nodes.len() ==> #[trigger] node_fault(nodes, parts_len, i) is None,
        forall|i: int|
            0 <= i < nodes.len() ==> #[trigger] walk(norm_ids(nodes), norm_parents(nodes), i, Seq::empty()) is Root,
{
    assert forall|i: int| 0 <= i < nodes.len() implies #[trigger] node_fault(nodes, parts_len, i) is None by {
        lemma_no_fault_upto(nodes, parts_len, i);
    }
    assert forall|i: int|
        0 <= i < nodes.len() implies #[trigger] walk(norm_ids(nodes), norm_parents(nodes), i, Seq::empty()) is Root by {
        lemma_all_rooted_upto(norm_ids(nodes), norm_parents(nodes), i);
    }
}

/// The parts bound by the nodes before `j` include those of every earlier
/// node.
proof fn lemma_bound_before_grows(nodes: Seq<ArticulationNode>, i: int, j: int, p: usize)
    requires
        0 <= i < j <= nodes.len(),
        nodes[i].bind_part_indices@.contains(p),
    ensures
        bound_before(nodes, j).contains(p),
    decreases j,
{
    if i < j - 1 {
        lemma_bound_before_grows(nodes, i, j - 1, p);
    } else {
        assert(nodes[i].bind_part_indices@.to_set().contains(p));
    }
}

/// Two nodes with the same part sets give the same bound-before sets.
proof fn lemma_bound_before_same(a: Seq<ArticulationNode>, b: Seq<ArticulationNode>, i: int)
    requires
        a.len() == b.len(),
        0 <= i <= a.len(),
        forall|j: int| 0 <= j < a.len() ==> #[trigger] a[j].bind_part_indices@.to_set() == b[j].bind_part_indices@.to_set(),
    ensures
        bound_before(a, i) == bound_before(b, i),
    decreases i,
{
    if i > 0 {
        lemma_bound_before_same(a, b, i - 1);
        assert(a[i - 1].bind_part_indices@.to_set() == b[i - 1].bind_part_indices@.to_set());
    }
}

/// Two strictly increasing sequences with the same elements are equal.
proof fn lemma_strictly_increasing_unique(a: Seq<usize>, b: Seq<usize>)
    requires
        strictly_increasing(a),
        strictly_increasing(b),
        a.to_set() == b.to_set(),
    ensures
        a == b,
{
    assert forall|k: int| 0 <= k < a.len() && k < b.len() implies a[k] == b[k] by {
        lemma_strictly_increasing_prefix(a, b, k);
    }
    if a.len() < b.len() {
        let x = b[a.len() as int];
        assert(b.to_set().contains(x));
        assert(a.to_set().contains(x));
        let m = choose|m: int| 0 <= m < a.len() && a[m] == x;
        assert(a.contains(x));
        assert(b[m] == a[m]);
    } else if b.len() < a.len() {
        let x = a[b.len() as int];
        assert(a.to_set().contains(x));
        assert(b.to_set().contains(x));
        let m = choose|m: int| 0 <= m < b.len() && b[m] == x;
        assert(b.contains(x));
        assert(a[m] == b[m]);
    }
    assert(a =~= b);
}

proof fn lemma_strictly_increasing_prefix(a: Seq<usize>, b: Seq<usize>, k: int)
    requires
        strictly_increasing(a),
        strictly_increasing(b),
        a.to_set() == b.to_set(),
        0 <= k < a.len(),
        k < b.len(),
    ensures
        a[k] == b[k],
    decreases k,
{
    if k > 0 {
        lemma_strictly_increasing_prefix(a, b, k - 1);
    }
    assert forall|t: int| 0 <= t < k implies a[t] == b[t] by {
        if t < k {
            lemma_strictly_increasing_prefix(a, b, t);
        }
    }
    assert(a.contains(a[k]));
    assert(b.to_set().contains(a[k]));
    let m = choose|m: int| 0 <= m < b.len() && b[m] == a[k];
    assert(b.contains(b[k]));
    assert(a.to_set().contains(b[k]));
    let n = choose|n: int| 0 <= n < a.len() && a[n] == b[k];
    if m < k {
        assert(a[m] == b[m]);
        assert(a[m] < a[k]);
    } else if m > k {
        assert(b[k] < b[m]);
        if n < k {
            assert(b[n] == a[n]);
            assert(b[n] < b[k]);
        } else if n > k {
            assert(a[k] < a[n]);
        }
    }
}

/// The law of a successful sanitization: the sanitized nodes have non-empty,
/// distinct ids; each binds a non-empty, strictly increasing list of part
/// indices below `parts_len`, and no part is bound by two nodes; every
/// parent names another node, and following parents from any node ends at a
/// node without parent (no cycle). Sanitizing them again succeeds, and a
/// second sanitization changes no id, parent or part list.
#[verifier::rlimit(40)]
pub proof fn lemma_sanitized_nodes_valid(before: Seq<ArticulationNode>, after: Seq<ArticulationNode>, parts_len: usize)
    requires
        sanitize_result(before, parts_len) is None,
        after.len() == before.len(),
        forall|j: int| 0 <= j < before.len() ==> normalized_node(before[j], #[trigger] after[j]),
    ensures
        forall|i: int| 0 <= i < after.len() ==> (#[trigger] after[i]).node_id@.len() > 0,
        forall|i: int, j: int| 0 <= i < j < after.len() ==> (#[trigger] after[i]).node_id@ != (#[trigger] after[j]).node_id@,
        forall|i: int|
            0 <= i < after.len() ==> {
                &&& (#[trigger] after[i]).bind_part_indices@.len() > 0
                &&& strictly_increasing(after[i].bind_part_indices@)
                &&& forall|k: int| 0 <= k < after[i].bind_part_indices@.len() ==> #[trigger] after[i].bind_part_indices@[k] < parts_len
            },
        forall|i: int, j: int, p: usize|
            0 <= i < j < after.len() ==> !(#[trigger] after[i].bind_part_indices@.contains(p) && #[trigger] after[j].bind_part_indices@.contains(p)),
        forall|i: int|
            0 <= i < after.len() ==> ((#[trigger] after[i]).parent_node_id matches Some(p) ==> p@ != after[i].node_id@
                && exists|k: int| 0 <= k < after.len() && after[k].node_id@ == p@),
        forall|i: int| 0 <= i < after.len() ==> #[trigger] walk(node_ids(after), node_parents(after), i, Seq::empty()) is Root,
        sanitize_result(after, parts_len) is None,
        forall|j: int, x: ArticulationNode|
            0 <= j < after.len() && #[trigger] normalized_node(after[j], x) ==> x.node_id@ == after[j].node_id@
                && (match x.parent_node_id {
                Some(q) => after[j].parent_node_id matches Some(p) && p@ == q@,
                None => after[j].parent_node_id is None,
            }) && x.bind_part_indices@ == after[j].bind_part_indices@,
{
    lemma_success_means_clean(before, parts_len);
    reveal(node_fault);
    reveal(index_of_id);
    let n = before.len();
    // The views of the sanitized nodes are the normalized views.
    assert(node_ids(after) =~= norm_ids(before));
    assert(node_parents(after) =~= norm_parents(before)) by {
        assert forall|i: int| 0 <= i < n implies node_parents(after)[i] == norm_parents(before)[i] by {
            assert(normalized_node(before[i], after[i]));
        }
    }
    // Ids.
    assert forall|i: int| 0 <= i < after.len() implies (#[trigger] after[i]).node_id@.len() > 0 by {
        assert(normalized_node(before[i], after[i]));
        assert(node_fault(before, parts_len, i) is None);
    }
    assert forall|i: int, j: int| 0 <= i < j < after.len() implies (#[trigger] after[i]).node_id@
        != (#[trigger] after[j]).node_id@ by {
        assert(normalized_node(before[i], after[i]));
        assert(normalized_node(before[j], after[j]));
        assert(node_fault(before, parts_len, j) is None);
        if after[i].node_id@ == after[j].node_id@ {
            assert(trim(before[i].node_id@) == trim(before[j].node_id@));
        }
    }
    // Parts.
    assert forall|i: int| 0 <= i < after.len() implies {
        &&& (#[trigger] after[i]).bind_part_indices@.len() > 0
        &&& strictly_increasing(after[i].bind_part_indices@)
        &&& forall|k: int| 0 <= k < after[i].bind_part_indices@.len() ==> #[trigger] after[i].bind_part_indices@[k] < parts_len
    } by {
        assert(normalized_node(before[i], after[i]));
        assert(node_fault(before, parts_len, i) is None);
        let bs = before[i].bind_part_indices@;
        let as_ = after[i].bind_part_indices@;
        assert(bs.contains(bs[0]));
        assert(bs.to_set().contains(bs[0]));
        if as_.len() == 0 {
            assert(as_.to_set().contains(bs[0]));
        }
        assert forall|k: int| 0 <= k < as_.len() implies #[trigger] as_[k] < parts_len by {
            assert(as_.contains(as_[k]));
            assert(as_.to_set().contains(as_[k]));
            assert(bs.contains(as_[k]));
            if as_[k] >= parts_len {
                assert(bad_part(before, parts_len, i, as_[k]));
            }
        }
    }
    assert forall|i: int, j: int, p: usize| 0 <= i < j < after.len() implies !(#[trigger] after[i].bind_part_indices@.contains(p)
        && #[trigger] after[j].bind_part_indices@.contains(p)) by {
        assert(normalized_node(before[i], after[i]));
        assert(normalized_node(before[j], after[j]));
        if after[i].bind_part_indices@.contains(p) && after[j].bind_part_indices@.contains(p) {
            assert(after[i].bind_part_indices@.to_set().contains(p));
            assert(after[j].bind_part_indices@.to_set().contains(p));
            assert(before[i].bind_part_indices@.contains(p));
            assert(before[j].bind_part_indices@.contains(p));
            lemma_bound_before_grows(before, i, j, p);
            assert(bad_part(before, parts_len, j, p));
            assert(node_fault(before, parts_len, j) is None);
        }
    }
    // Parents and chains.
    assert forall|i: int| 0 <= i < after.len() implies #[trigger] walk(node_ids(after), node_parents(after), i, Seq::empty()) is Root by {
        assert(walk(norm_ids(before), norm_parents(before), i, Seq::empty()) is Root);
    }
    assert forall|i: int| 0 <= i < after.len() implies ((#[trigger] after[i]).parent_node_id matches Some(p) ==> p@
        != after[i].node_id@ && exists|k: int| 0 <= k < after.len() && after[k].node_id@ == p@) by {
        assert(normalized_node(before[i], after[i]));
        assert(node_fault(before, parts_len, i) is None);
        if let Some(p) = after[i].parent_node_id {
            let ids = node_ids(after);
            let ps = node_parents(after);
            assert(ps[i] == Some(p@));
            assert(walk(ids, ps, i, Seq::empty()) is Root);
            assert(!Seq::<int>::empty().contains(i));
            if !(exists|k: int| 0 <= k < ids.len() && ids[k] == p@) {
                assert(parent_link(ids, ps, i) == ParentLink::Missing);
            } else {
                let k = choose|k: int| 0 <= k < ids.len() && ids[k] == p@;
                assert(after[k].node_id@ == p@);
            }
        }
    }
    // A second sanitization.
    assert forall|i: int| 0 <= i < n implies trim(#[trigger] after[i].node_id@) == trim(before[i].node_id@) by {
        assert(normalized_node(before[i], after[i]));
        crate::text::lemma_trim_idempotent(before[i].node_id@);
    }
    assert forall|i: int| 0 <= i < n implies norm_parent(#[trigger] after[i].parent_node_id) == norm_parent(
        before[i].parent_node_id,
    ) by {
        assert(normalized_node(before[i], after[i]));
        if let Some(p) = after[i].parent_node_id {
            let q = before[i].parent_node_id->0;
            crate::text::lemma_trim_idempotent(q@);
        }
    }
    assert forall|j: int| 0 <= j < n implies #[trigger] after[j].bind_part_indices@.to_set() == before[j].bind_part_indices@.to_set() by {
        assert(normalized_node(before[j], after[j]));
    }
    assert(norm_ids(after) =~= norm_ids(before));
    assert(norm_parents(after) =~= norm_parents(before));
    assert forall|i: int| 0 <= i < n implies #[trigger] node_fault(after, parts_len, i) is None by {
        assert(node_fault(before, parts_len, i) is None);
        assert(trim(after[i].node_id@) == trim(before[i].node_id@));
        assert(norm_parent(after[i].parent_node_id) == norm_parent(before[i].parent_node_id));
        lemma_bound_before_same(after, before, i);
        assert forall|p: usize| !bad_part(after, parts_len, i, p) by {
            if after[i].bind_part_indices@.contains(p) {
                assert(after[i].bind_part_indices@.to_set().contains(p));
                assert(before[i].bind_part_indices@.contains(p));
                assert(!bad_part(before, parts_len, i, p));
            }
        }
        assert forall|j: int| 0 <= j < i implies #[trigger] trim(after[j].node_id@) != trim(after[i].node_id@) by {
            assert(trim(after[j].node_id@) == trim(before[j].node_id@));
        }
    }
    assert(!exists|k: int| is_first_faulty(after, parts_len, k));
    assert(!exists|k: int| is_first_unrooted(norm_ids(after), norm_parents(after), k)) by {
        assert forall|k: int| 0 <= k < n implies #[trigger] walk(norm_ids(after), norm_parents(after), k, Seq::empty()) is Root by {
            assert(walk(norm_ids(before), norm_parents(before), k, Seq::empty()) is Root);
        }
    }
    // A second sanitization changes nothing.
    assert forall|j: int, x: ArticulationNode| 0 <= j < after.len() && #[trigger] normalized_node(after[j], x) implies x.node_id@
        == after[j].node_id@ && (match x.parent_node_id {
        Some(q) => after[j].parent_node_id matches Some(p) && p@ == q@,
        None => after[j].parent_node_id is None,
    }) && x.bind_part_indices@ == after[j].bind_part_indices@ by {
        assert(normalized_node(before[j], after[j]));
        crate::text::lemma_trim_idempotent(before[j].node_id@);
        if let Some(p) = after[j].parent_node_id {
            crate::text::lemma_trim_idempotent(before[j].parent_node_id->0@);
        }
        lemma_strictly_increasing_unique(x.bind_part_indices@, after[j].bind_part_indices@);
    }
}

} // verus!
