//! Reverse traversal of the semantic graph: from a set of start identities,
//! edges are followed from their target back to their source, breadth first,
//! optionally bounded in depth and in the number of identities visited.

use vstd::prelude::*;

use crate::graph::{copy_edge, edge_view, edge_views, edges_sorted, sort_edges, GraphEdge};
use crate::identity::{id_views, SemanticId};

verus! {

/// Visits as (identity text, distance from the start set).
pub open spec fn visit_views(f: Seq<(SemanticId, usize)>) -> Seq<(Seq<char>, int)> {
    f.map_values(|x: (SemanticId, usize)| (x.0.0@, x.1 as int))
}

/// `t` was visited.
pub open spec fn visited(fv: Seq<(Seq<char>, int)>, t: Seq<char>) -> bool {
    exists|k: int| 0 <= k < fv.len() && (#[trigger] fv[k]).0 == t
}

/// `t` was visited at distance `bound` or less.
pub open spec fn reached(fv: Seq<(Seq<char>, int)>, t: Seq<char>, bound: int) -> bool {
    exists|k: int| 0 <= k < fv.len() && (#[trigger] fv[k]).0 == t && fv[k].1 <= bound
}

/// No identity is visited twice.
pub open spec fn distinct_visits(fv: Seq<(Seq<char>, int)>) -> bool {
    forall|i: int, j: int| 0 <= i < j < fv.len() ==> (#[trigger] fv[i]).0 != (#[trigger] fv[j]).0
}

/// Visit `k` was reached through edge `m` from the visit `j`, one step further.
pub open spec fn feeds(ev: Seq<(Seq<char>, Seq<char>, int)>, fv: Seq<(Seq<char>, int)>, m: int, j: int, k: int) -> bool {
    ev[m].0 == fv[k].0 && ev[m].1 == fv[j].0 && fv[k].1 == fv[j].1 + 1
}

/// Visit `k` was reached through some edge from an earlier visit.
pub open spec fn witnessed_at(ev: Seq<(Seq<char>, Seq<char>, int)>, fv: Seq<(Seq<char>, int)>, k: int) -> bool {
    exists|m: int, j: int| 0 <= m < ev.len() && 0 <= j < k && #[trigger] feeds(ev, fv, m, j, k)
}

/// Every visit after the first `s` (the start set) was reached through an edge.
pub open spec fn witnessed(ev: Seq<(Seq<char>, Seq<char>, int)>, fv: Seq<(Seq<char>, int)>, s: int) -> bool {
    forall|k: int| s <= k < fv.len() ==> #[trigger] witnessed_at(ev, fv, k)
}

/// A visit at distance `d` may still be extended.
pub open spec fn within_depth(d: int, max_depth: Option<usize>) -> bool {
    match max_depth {
        Some(b) => d < b,
        None => true,
    }
}

/// Every edge into visit `j`, if `j` may be extended, has its source visited
/// at most one step further.
pub open spec fn closed_at(ev: Seq<(Seq<char>, Seq<char>, int)>, fv: Seq<(Seq<char>, int)>, j: int, max_depth: Option<usize>) -> bool {
    within_depth(fv[j].1, max_depth) ==> forall|m: int|
        0 <= m < ev.len() && (#[trigger] ev[m]).1 == fv[j].0 ==> reached(fv, ev[m].0, fv[j].1 + 1)
}

/// The visits are closed under reverse edges (within the depth bound).
pub open spec fn closed(ev: Seq<(Seq<char>, Seq<char>, int)>, fv: Seq<(Seq<char>, int)>, max_depth: Option<usize>) -> bool {
    forall|j: int| 0 <= j < fv.len() ==> #[trigger] closed_at(ev, fv, j, max_depth)
}

/// Some edge leads from an unvisited identity into a visit that may still be
/// extended.
pub open spec fn escapes(ev: Seq<(Seq<char>, Seq<char>, int)>, fv: Seq<(Seq<char>, int)>, max_depth: Option<usize>) -> bool {
    exists|m: int, j: int|
        0 <= m < ev.len() && 0 <= j < fv.len() && within_depth(fv[j].1, max_depth) && (#[trigger] ev[m]).1 == (
        #[trigger] fv[j]).0 && !visited(fv, ev[m].0)
}

/// The state of the breadth-first traversal: the visits so far, the visit
/// being extended, the next edge to look at, and whether the budget stopped
/// it.
pub struct BfsState {
    pub fv: Seq<(Seq<char>, int)>,
    pub head: int,
    pub m: int,
    pub truncated: bool,
}

/// The traversal before its first step: the start identities visited at
/// distance zero, in their order.
pub open spec fn bfs_start(start: Seq<Seq<char>>) -> BfsState {
    BfsState { fv: Seq::new(start.len(), |k: int| (start[k], 0int)), head: 0, m: 0, truncated: false }
}

/// The traversal has stopped: every visit was extended, or the budget ran out.
pub open spec fn bfs_done(st: BfsState) -> bool {
    st.truncated || st.head >= st.fv.len()
}

/// One step of the traversal: look at the next edge into the visit being
/// extended (visiting its source one step further when it is new and the
/// budget allows, stopping when it does not), or move on to the next visit
/// once the edges are exhausted or the visit is at the depth bound.
pub open spec fn bfs_step(
    ev: Seq<(Seq<char>, Seq<char>, int)>,
    st: BfsState,
    max_depth: Option<usize>,
    max_nodes: Option<usize>,
) -> BfsState {
    if bfs_done(st) {
        st
    } else if !within_depth(st.fv[st.head].1, max_depth) || st.m >= ev.len() {
        BfsState { fv: st.fv, head: st.head + 1, m: 0, truncated: false }
    } else if ev[st.m].1 == st.fv[st.head].0 && !visited(st.fv, ev[st.m].0) {
        if max_nodes is Some && st.fv.len() >= max_nodes.unwrap() {
            BfsState { fv: st.fv, head: st.head, m: st.m + 1, truncated: true }
        } else {
            BfsState { fv: st.fv.push((ev[st.m].0, st.fv[st.head].1 + 1)), head: st.head, m: st.m + 1, truncated: false }
        }
    } else {
        BfsState { fv: st.fv, head: st.head, m: st.m + 1, truncated: false }
    }
}

/// The traversal after `n` steps.
pub open spec fn bfs_steps(
    ev: Seq<(Seq<char>, Seq<char>, int)>,
    st: BfsState,
    n: nat,
    max_depth: Option<usize>,
    max_nodes: Option<usize>,
) -> BfsState
    decreases n,
{
    if n == 0 {
        st
    } else {
        bfs_step(ev, bfs_steps(ev, st, (n - 1) as nat, max_depth, max_nodes), max_depth, max_nodes)
    }
}

/// `fv` and `truncated` are where the traversal from `start` stops.
pub open spec fn bfs_outcome(
    ev: Seq<(Seq<char>, Seq<char>, int)>,
    start: Seq<Seq<char>>,
    max_depth: Option<usize>,
    max_nodes: Option<usize>,
    fv: Seq<(Seq<char>, int)>,
    truncated: bool,
) -> bool {
    exists|n: nat|
        {
            let st = #[trigger] bfs_steps(ev, bfs_start(start), n, max_depth, max_nodes);
            bfs_done(st) && st.fv == fv && st.truncated == truncated
        }
}

proof fn lemma_bfs_done_stays(
    ev: Seq<(Seq<char>, Seq<char>, int)>,
    st: BfsState,
    n1: nat,
    n2: nat,
    max_depth: Option<usize>,
    max_nodes: Option<usize>,
)
    requires
        n1 <= n2,
        bfs_done(bfs_steps(ev, st, n1, max_depth, max_nodes)),
    ensures
        bfs_steps(ev, st, n2, max_depth, max_nodes) == bfs_steps(ev, st, n1, max_depth, max_nodes),
    decreases n2 - n1,
{
    if n1 < n2 {
        lemma_bfs_done_stays(ev, st, n1, (n2 - 1) as nat, max_depth, max_nodes);
    }
}

/// The traversal is deterministic: it stops in exactly one place.
pub proof fn lemma_bfs_outcome_unique(
    ev: Seq<(Seq<char>, Seq<char>, int)>,
    start: Seq<Seq<char>>,
    max_depth: Option<usize>,
    max_nodes: Option<usize>,
    fv1: Seq<(Seq<char>, int)>,
    truncated1: bool,
    fv2: Seq<(Seq<char>, int)>,
    truncated2: bool,
)
    requires
        bfs_outcome(ev, start, max_depth, max_nodes, fv1, truncated1),
        bfs_outcome(ev, start, max_depth, max_nodes, fv2, truncated2),
    ensures
        fv1 == fv2,
        truncated1 == truncated2,
{
    let n1 = choose|n: nat|
        {
            let st = #[trigger] bfs_steps(ev, bfs_start(start), n, max_depth, max_nodes);
            bfs_done(st) && st.fv == fv1 && st.truncated == truncated1
        };
    let n2 = choose|n: nat|
        {
            let st = #[trigger] bfs_steps(ev, bfs_start(start), n, max_depth, max_nodes);
            bfs_done(st) && st.fv == fv2 && st.truncated == truncated2
        };
    if n1 <= n2 {
        lemma_bfs_done_stays(ev, bfs_start(start), n1, n2, max_depth, max_nodes);
    } else {
        lemma_bfs_done_stays(ev, bfs_start(start), n2, n1, max_depth, max_nodes);
    }
}

proof fn lemma_extend(
    ev: Seq<(Seq<char>, Seq<char>, int)>,
    fv: Seq<(Seq<char>, int)>,
    x: (Seq<char>, int),
    s: int,
    head: int,
    max_depth: Option<usize>,
    used: Set<int>,
)
    requires
        0 <= head <= fv.len(),
        witnessed(ev, fv, s),
        forall|j: int| 0 <= j < head ==> #[trigger] closed_at(ev, fv, j, max_depth),
        forall|m: int| used.contains(m) ==> visited(fv, ev[m].0),
    ensures
        forall|k: int| s <= k < fv.len() ==> #[trigger] witnessed_at(ev, fv.push(x), k),
        forall|j: int| 0 <= j < head ==> #[trigger] closed_at(ev, fv.push(x), j, max_depth),
        forall|m: int| used.contains(m) ==> visited(fv.push(x), ev[m].0),
        forall|t: Seq<char>, b: int| reached(fv, t, b) ==> #[trigger] reached(fv.push(x), t, b),
        forall|t: Seq<char>| visited(fv, t) ==> #[trigger] visited(fv.push(x), t),
{
    let fw = fv.push(x);
    assert forall|t: Seq<char>, b: int| reached(fv, t, b) implies #[trigger] reached(fw, t, b) by {
        let k = choose|k: int| 0 <= k < fv.len() && (#[trigger] fv[k]).0 == t && fv[k].1 <= b;
        assert(fw[k] == fv[k]);
    }
    assert forall|t: Seq<char>| visited(fv, t) implies #[trigger] visited(fw, t) by {
        let k = choose|k: int| 0 <= k < fv.len() && (#[trigger] fv[k]).0 == t;
        assert(fw[k] == fv[k]);
    }
    assert forall|k: int| s <= k < fv.len() implies #[trigger] witnessed_at(ev, fw, k) by {
        assert(witnessed_at(ev, fv, k));
        let (m, j) = choose|m: int, j: int| 0 <= m < ev.len() && 0 <= j < k && #[trigger] feeds(ev, fv, m, j, k);
        assert(fw[k] == fv[k] && fw[j] == fv[j]);
        assert(feeds(ev, fw, m, j, k));
    }
    assert forall|j: int| 0 <= j < head implies #[trigger] closed_at(ev, fw, j, max_depth) by {
        assert(closed_at(ev, fv, j, max_depth));
        assert(fw[j] == fv[j]);
        if within_depth(fw[j].1, max_depth) {
            assert forall|m: int| 0 <= m < ev.len() && (#[trigger] ev[m]).1 == fw[j].0 implies reached(fw, ev[m].0, fw[j].1 + 1) by {
                assert(reached(fv, ev[m].0, fv[j].1 + 1));
            }
        }
    }
}

/// Whether `identity` was visited.
pub(crate) fn is_visited(found: &Vec<(SemanticId, usize)>, identity: &SemanticId) -> (r: Option<usize>)
    ensures
        r.is_none() <==> !visited(visit_views(found@), identity.0@),
        r.is_some() ==> r.unwrap() < found@.len() && found@[r.unwrap() as int].0.0@ == identity.0@,
{
    let ghost fv = visit_views(found@);
    let mut i: usize = 0;
    while i < found.len()
        invariant
            i <= found@.len(),
            fv == visit_views(found@),
            forall|k: int| 0 <= k < i ==> (#[trigger] fv[k]).0 != identity.0@,
        decreases found@.len() - i,
    {
        if found[i].0.same(identity) {
            assert(fv[i as int].0 == identity.0@);
            return Some(i);
        }
        i = i + 1;
    }
    None
}

/// Breadth-first traversal against the direction of the edges, from the
/// identities of `start` (visited at distance 0, in their order). A visit at
/// distance `d` is extended along every edge that targets it when `d` is below
/// `max_depth`; a new identity is visited only while fewer than `max_nodes`
/// identities were visited, and the traversal stops, truncated, at the first
/// one that would exceed the budget. Returns the visits in the order they
/// were made and whether the traversal was truncated.
pub(crate) fn reverse_traversal(
    edges: &Vec<GraphEdge>,
    start: &Vec<SemanticId>,
    max_depth: Option<usize>,
    max_nodes: Option<usize>,
) -> (r: (Vec<(SemanticId, usize)>, bool))
    requires
        forall|i: int, j: int| 0 <= i < j < start@.len() ==> (#[trigger] start@[i]).0@ != (#[trigger] start@[j]).0@,
    ensures
        visit_views(r.0@).len() >= start@.len(),
        forall|k: int| 0 <= k < start@.len() ==> (#[trigger] visit_views(r.0@)[k]) == (start@[k].0@, 0int),
        distinct_visits(visit_views(r.0@)),
        witnessed(edge_views(edges@), visit_views(r.0@), start@.len() as int),
        forall|k: int| 0 <= k < visit_views(r.0@).len() && max_depth.is_some() ==> (#[trigger] visit_views(r.0@)[k]).1
            <= max_depth.unwrap(),
        max_nodes.is_some() ==> r.0@.len() <= start@.len() || r.0@.len() <= max_nodes.unwrap(),
        max_nodes.is_none() ==> !r.1,
        !r.1 ==> closed(edge_views(edges@), visit_views(r.0@), max_depth),
        r.1 ==> escapes(edge_views(edges@), visit_views(r.0@), max_depth) && max_nodes.is_some() && r.0@.len()
            >= max_nodes.unwrap(),
        bfs_outcome(edge_views(edges@), id_views(start@), max_depth, max_nodes, visit_views(r.0@), r.1),
{
    let ghost ev = edge_views(edges@);
    let ghost s = start@.len() as int;
    let mut found: Vec<(SemanticId, usize)> = Vec::new();
    let mut i: usize = 0;
    while i < start.len()
        invariant
            i <= start@.len(),
            found@.len() == i,
            forall|k: int| 0 <= k < i ==> (#[trigger] visit_views(found@)[k]) == (start@[k].0@, 0int),
        decreases start@.len() - i,
    {
        let ghost before = visit_views(found@);
        found.push((start[i].duplicate(), 0));
        assert(visit_views(found@) =~= before.push((start@[i as int].0@, 0int)));
        i = i + 1;
    }
    proof {
        let fv = visit_views(found@);
        assert forall|a: int, b: int| 0 <= a < b < fv.len() implies (#[trigger] fv[a]).0 != (#[trigger] fv[b]).0 by {
            assert(fv[a] == (start@[a].0@, 0int));
            assert(fv[b] == (start@[b].0@, 0int));
        }
    }
    let ghost init = bfs_start(id_views(start@));
    proof {
        assert(visit_views(found@) =~= init.fv);
    }
    let ghost mut steps: nat = 0;
    let ghost mut gm: int = 0;
    let ghost mut used: Set<int> = Set::empty();
    let mut head: usize = 0;
    let mut truncated = false;
    while head < found.len() && !truncated
        invariant
            bfs_steps(ev, init, steps, max_depth, max_nodes) == (BfsState {
                fv: visit_views(found@),
                head: head as int,
                m: gm,
                truncated,
            }),
            !truncated ==> gm == 0,
            ev == edge_views(edges@),
            s == start@.len(),
            found@.len() >= s,
            forall|k: int| 0 <= k < s ==> (#[trigger] visit_views(found@)[k]) == (start@[k].0@, 0int),
            distinct_visits(visit_views(found@)),
            witnessed(ev, visit_views(found@), s),
            head <= found@.len(),
            forall|k: int| 0 <= k < found@.len() ==> (#[trigger] visit_views(found@)[k]).1 <= k,
            forall|k: int| 0 <= k < found@.len() && max_depth.is_some() ==> (#[trigger] visit_views(found@)[k]).1
                <= max_depth.unwrap(),
            forall|a: int, b: int| 0 <= a < b < found@.len() ==> (#[trigger] visit_views(found@)[a]).1 <= (
            #[trigger] visit_views(found@)[b]).1,
            head < found@.len() ==> forall|k: int| 0 <= k < found@.len() ==> (#[trigger] visit_views(found@)[k]).1
                <= visit_views(found@)[head as int].1 + 1,
            forall|j: int| 0 <= j < head ==> #[trigger] closed_at(ev, visit_views(found@), j, max_depth),
            truncated ==> escapes(ev, visit_views(found@), max_depth) && max_nodes.is_some() && found@.len()
                >= max_nodes.unwrap(),
            used.finite(),
            used.len() == found@.len() - s,
            forall|m: int| #[trigger] used.contains(m) ==> 0 <= m < ev.len() && visited(visit_views(found@), ev[m].0),
            max_nodes.is_some() ==> found@.len() <= s || found@.len() <= max_nodes.unwrap(),
            max_nodes.is_none() ==> !truncated,
        decreases s + ev.len() - head + (if truncated { 0int } else { 1int }),
    {
        proof {
            vstd::set_lib::lemma_int_range(0, ev.len() as int);
            vstd::set_lib::lemma_len_subset(used, vstd::set_lib::set_int_range(0, ev.len() as int));
        }
        let current = found[head].0.duplicate();
        let distance = found[head].1;
        let extend = match max_depth {
            Some(b) => distance < b,
            None => true,
        };
        if extend {
            let mut m: usize = 0;
            while m < edges.len() && !truncated
                invariant
                    bfs_steps(ev, init, steps, max_depth, max_nodes) == (BfsState {
                        fv: visit_views(found@),
                        head: head as int,
                        m: m as int,
                        truncated,
                    }),
                    ev == edge_views(edges@),
                    s == start@.len(),
                    m <= edges@.len(),
                    head < found@.len(),
                    current.0@ == visit_views(found@)[head as int].0,
                    distance == visit_views(found@)[head as int].1,
                    within_depth(distance as int, max_depth),
                    found@.len() >= s,
                    forall|k: int| 0 <= k < s ==> (#[trigger] visit_views(found@)[k]) == (start@[k].0@, 0int),
                    distinct_visits(visit_views(found@)),
                    witnessed(ev, visit_views(found@), s),
                    forall|k: int| 0 <= k < found@.len() ==> (#[trigger] visit_views(found@)[k]).1 <= k,
                    forall|k: int| 0 <= k < found@.len() && max_depth.is_some() ==> (#[trigger] visit_views(found@)[k]).1
                        <= max_depth.unwrap(),
                    forall|a: int, b: int| 0 <= a < b < found@.len() ==> (#[trigger] visit_views(found@)[a]).1 <= (
                    #[trigger] visit_views(found@)[b]).1,
                    forall|k: int| 0 <= k < found@.len() ==> (#[trigger] visit_views(found@)[k]).1 <= distance + 1,
                    forall|j: int| 0 <= j < head ==> #[trigger] closed_at(ev, visit_views(found@), j, max_depth),
                    !truncated ==> forall|q: int| 0 <= q < m && (#[trigger] ev[q]).1 == current.0@ ==> reached(visit_views(found@), ev[q].0, distance + 1),
                    truncated ==> escapes(ev, visit_views(found@), max_depth) && max_nodes.is_some() && found@.len()
                        >= max_nodes.unwrap(),
                    used.finite(),
                    used.len() == found@.len() - s,
                    forall|q: int| #[trigger] used.contains(q) ==> 0 <= q < ev.len() && visited(visit_views(found@), ev[q].0),
                    max_nodes.is_some() ==> found@.len() <= s || found@.len() <= max_nodes.unwrap(),
                    max_nodes.is_none() ==> !truncated,
                decreases edges@.len() - m,
            {
                let edge = &edges[m];
                proof {
                    assert(ev[m as int] == (edge.from.0@, edge.to.0@, crate::graph::edge_rank(edge.kind)));
                }
                if edge.to.same(&current) {
                    match is_visited(&found, &edge.from) {
                        Some(at) => {
                            proof {
                                let fv = visit_views(found@);
                                assert(fv[at as int].0 == edge.from.0@);
                                assert(fv[at as int].1 <= distance + 1);
                                assert(reached(fv, ev[m as int].0, distance + 1));
                            }
                        },
                        None => {
                            let full = match max_nodes {
                                Some(b) => found.len() >= b,
                                None => false,
                            };
                            if full {
                                truncated = true;
                                proof {
                                    let fv = visit_views(found@);
                                    assert(ev[m as int].1 == fv[head as int].0);
                                }
                            } else {
                                let count = found.len();
                                let ghost fv = visit_views(found@);
                                let ghost x = (edge.from.0@, distance + 1);
                                proof {
                                    lemma_extend(ev, fv, x, s, head as int, max_depth, used);
                                    assert(!used.contains(m as int));
                                    vstd::set_lib::lemma_int_range(0, ev.len() as int);
                                    vstd::set_lib::lemma_len_subset(used, vstd::set_lib::set_int_range(0, ev.len() as int));
                                    assert(distance as int <= head as int);
                                    assert(distance < count);
                                }
                                found.push((edge.from.duplicate(), distance + 1));
                                proof {
                                    let fw = visit_views(found@);
                                    assert(fw =~= fv.push(x));
                                    used = used.insert(m as int);
                                    assert(fw[fv.len() as int] == x);
                                    assert(feeds(ev, fw, m as int, head as int, fv.len() as int));
                                    assert(witnessed_at(ev, fw, fv.len() as int));
                                    assert(reached(fw, edge.from.0@, distance + 1));
                                    assert(visited(fw, edge.from.0@));
                                    assert forall|a: int, b: int| 0 <= a < b < fw.len() implies (#[trigger] fw[a]).0 != (#[trigger] fw[b]).0 by {
                                        if b == fv.len() {
                                            assert(fw[a] == fv[a]);
                                        }
                                    }
                                    assert forall|q: int| 0 <= q < m + 1 && (#[trigger] ev[q]).1 == current.0@ implies reached(fw, ev[q].0, distance + 1) by {
                                        if q < m {
                                            assert(reached(fv, ev[q].0, distance + 1));
                                        }
                                    }
                                    assert forall|k: int| 0 <= k < s implies (#[trigger] fw[k]) == (start@[k].0@, 0int) by {
                                        assert(fv[k] == (start@[k].0@, 0int));
                                    }
                                    assert forall|k: int| s <= k < fw.len() implies #[trigger] witnessed_at(ev, fw, k) by {
                                    }
                                }
                            }
                        },
                    }
                }
                m = m + 1;
                proof {
                    steps = steps + 1;
                }
            }
            proof {
                if !truncated {
                    steps = steps + 1;
                    gm = 0;
                } else {
                    gm = m as int;
                }
            }
        } else {
            proof {
                steps = steps + 1;
            }
        }
        proof {
            let fv = visit_views(found@);
            if !truncated {
                assert(closed_at(ev, fv, head as int, max_depth));
            }
        }
        if !truncated {
            head = head + 1;
        }
    }
    proof {
        let fv = visit_views(found@);
        if !truncated {
            assert forall|j: int| 0 <= j < fv.len() implies #[trigger] closed_at(ev, fv, j, max_depth) by {
            }
        }
        assert(bfs_done(bfs_steps(ev, init, steps, max_depth, max_nodes)));
    }
    (found, truncated)
}

/// `t` leads to `root` along at most `n` edges, each followed from its
/// source to its target.
pub open spec fn leads_within(ev: Seq<(Seq<char>, Seq<char>, int)>, root: Seq<char>, t: Seq<char>, n: nat) -> bool
    decreases n,
{
    if n == 0 {
        t == root
    } else {
        leads_within(ev, root, t, (n - 1) as nat) || exists|m: int|
            0 <= m < ev.len() && (#[trigger] ev[m]).0 == t && leads_within(ev, root, ev[m].1, (n - 1) as nat)
    }
}

/// `t` leads to `root` along the edges.
pub open spec fn leads_to(ev: Seq<(Seq<char>, Seq<char>, int)>, root: Seq<char>, t: Seq<char>) -> bool {
    exists|n: nat| #[trigger] leads_within(ev, root, t, n)
}

proof fn lemma_leads_within_grows(ev: Seq<(Seq<char>, Seq<char>, int)>, root: Seq<char>, t: Seq<char>, n: nat, n2: nat)
    requires
        leads_within(ev, root, t, n),
        n <= n2,
    ensures
        leads_within(ev, root, t, n2),
    decreases n2 - n,
{
    if n < n2 {
        lemma_leads_within_grows(ev, root, t, n, (n2 - 1) as nat);
    }
}

/// Every visit of a traversal from the single identity `root` leads to it.
proof fn lemma_visits_lead_to_root(ev: Seq<(Seq<char>, Seq<char>, int)>, fv: Seq<(Seq<char>, int)>, root: Seq<char>, k: int)
    requires
        fv.len() >= 1,
        fv[0].0 == root,
        witnessed(ev, fv, 1),
        0 <= k < fv.len(),
    ensures
        leads_within(ev, root, fv[k].0, k as nat),
    decreases k,
{
    if k > 0 {
        assert(witnessed_at(ev, fv, k));
        let (m, j) = choose|m: int, j: int| 0 <= m < ev.len() && 0 <= j < k && #[trigger] feeds(ev, fv, m, j, k);
        lemma_visits_lead_to_root(ev, fv, root, j);
        lemma_leads_within_grows(ev, root, fv[j].0, j as nat, (k - 1) as nat);
        assert(leads_within(ev, root, ev[m].1, (k - 1) as nat));
    }
}

/// A closed traversal from `root` visits everything that leads to it.
proof fn lemma_closed_visits_leads(ev: Seq<(Seq<char>, Seq<char>, int)>, fv: Seq<(Seq<char>, int)>, root: Seq<char>, t: Seq<char>, n: nat)
    requires
        fv.len() >= 1,
        fv[0].0 == root,
        closed(ev, fv, None),
        leads_within(ev, root, t, n),
    ensures
        visited(fv, t),
    decreases n,
{
    if n == 0 {
        assert(fv[0].0 == t);
    } else if leads_within(ev, root, t, (n - 1) as nat) {
        lemma_closed_visits_leads(ev, fv, root, t, (n - 1) as nat);
    } else {
        let m = choose|m: int| 0 <= m < ev.len() && (#[trigger] ev[m]).0 == t && leads_within(ev, root, ev[m].1, (n - 1) as nat);
        lemma_closed_visits_leads(ev, fv, root, ev[m].1, (n - 1) as nat);
        let j = choose|j: int| 0 <= j < fv.len() && (#[trigger] fv[j]).0 == ev[m].1;
        assert(closed_at(ev, fv, j, None));
        assert(reached(fv, ev[m].0, fv[j].1 + 1));
        let k = choose|k: int| 0 <= k < fv.len() && (#[trigger] fv[k]).0 == ev[m].0 && fv[k].1 <= fv[j].1 + 1;
        assert(fv[k].0 == t);
    }
}

/// For a complete traversal from the single identity `root`: an identity is
/// visited exactly when it leads to `root`.
pub(crate) proof fn lemma_visited_iff_leads(ev: Seq<(Seq<char>, Seq<char>, int)>, fv: Seq<(Seq<char>, int)>, root: Seq<char>)
    requires
        fv.len() >= 1,
        fv[0].0 == root,
        witnessed(ev, fv, 1),
        closed(ev, fv, None),
    ensures
        forall|t: Seq<char>| visited(fv, t) <==> #[trigger] leads_to(ev, root, t),
{
    assert forall|t: Seq<char>| visited(fv, t) <==> #[trigger] leads_to(ev, root, t) by {
        if visited(fv, t) {
            let k = choose|k: int| 0 <= k < fv.len() && (#[trigger] fv[k]).0 == t;
            lemma_visits_lead_to_root(ev, fv, root, k);
            assert(leads_within(ev, root, t, k as nat));
        }
        if leads_to(ev, root, t) {
            let n = choose|n: nat| #[trigger] leads_within(ev, root, t, n);
            lemma_closed_visits_leads(ev, fv, root, t, n);
        }
    }
}

/// Both ends of `e` were visited.
pub open spec fn edge_among(fv: Seq<(Seq<char>, int)>, e: GraphEdge) -> bool {
    visited(fv, e.from.0@) && visited(fv, e.to.0@)
}

/// The edges whose two ends were visited, in canonical order.
pub(crate) fn edges_among(edges: &Vec<GraphEdge>, found: &Vec<(SemanticId, usize)>) -> (r: Vec<GraphEdge>)
    ensures
        edges_sorted(edge_views(r@)),
        edge_views(r@).to_multiset() == edge_views(
            edges@.filter(|e: GraphEdge| edge_among(visit_views(found@), e)),
        ).to_multiset(),
{
    let ghost fv = visit_views(found@);
    let ghost pred = |e: GraphEdge| edge_among(fv, e);
    let mut selected: Vec<GraphEdge> = Vec::new();
    let mut i: usize = 0;
    assert(edges@.subrange(0, 0).filter(pred) =~= Seq::<GraphEdge>::empty()) by {
        reveal(Seq::filter);
    }
    while i < edges.len()
        invariant
            i <= edges@.len(),
            fv == visit_views(found@),
            pred == (|e: GraphEdge| edge_among(fv, e)),
            edge_views(selected@) == edge_views(edges@.subrange(0, i as int).filter(pred)),
        decreases edges@.len() - i,
    {
        let edge = &edges[i];
        let keep = is_visited(found, &edge.from).is_some() && is_visited(found, &edge.to).is_some();
        let ghost before = selected@;
        let ghost prefix = edges@.subrange(0, i as int).filter(pred);
        proof {
            reveal(Seq::filter);
            assert(edges@.subrange(0, i as int + 1).drop_last() =~= edges@.subrange(0, i as int));
            assert(edges@.subrange(0, i as int + 1).last() == edges@[i as int]);
            assert(pred(edges@[i as int]) == keep);
        }
        if keep {
            let copied = copy_edge(edge);
            selected.push(copied);
            proof {
                reveal(Seq::filter);
                assert(edges@.subrange(0, i as int + 1).filter(pred) == prefix.push(edges@[i as int]));
                assert(edge_views(prefix.push(edges@[i as int])) =~= edge_views(prefix).push(edge_view(edges@[i as int])));
                assert(edge_views(before.push(copied)) =~= edge_views(before).push(edge_view(copied)));
            }
        } else {
            proof {
                reveal(Seq::filter);
                assert(edges@.subrange(0, i as int + 1).filter(pred) == prefix);
            }
        }
        i = i + 1;
    }
    assert(edges@.subrange(0, i as int) =~= edges@);
    sort_edges(&selected)
}

/// The identities of the visits, in visit order.
pub(crate) fn visit_ids(found: &Vec<(SemanticId, usize)>) -> (r: Vec<SemanticId>)
    ensures
        r@.len() == found@.len(),
        forall|k: int| 0 <= k < r@.len() ==> (#[trigger] r@[k]).0@ == visit_views(found@)[k].0,
        forall|t: Seq<char>| crate::identity::id_views(r@).contains(t) <==> visited(visit_views(found@), t),
{
    let mut out: Vec<SemanticId> = Vec::new();
    let mut i: usize = 0;
    while i < found.len()
        invariant
            i <= found@.len(),
            out@.len() == i,
            forall|k: int| 0 <= k < i ==> (#[trigger] out@[k]).0@ == visit_views(found@)[k].0,
        decreases found@.len() - i,
    {
        out.push(found[i].0.duplicate());
        i = i + 1;
    }
    proof {
        let fv = visit_views(found@);
        assert forall|t: Seq<char>| crate::identity::id_views(out@).contains(t) <==> visited(fv, t) by {
            if crate::identity::id_views(out@).contains(t) {
                let k = choose|k: int| 0 <= k < out@.len() && crate::identity::id_views(out@)[k] == t;
                assert(fv[k].0 == t);
            }
            if visited(fv, t) {
                let k = choose|k: int| 0 <= k < fv.len() && (#[trigger] fv[k]).0 == t;
                assert(crate::identity::id_views(out@)[k] == t);
            }
        }
    }
    out
}

} // verus!
