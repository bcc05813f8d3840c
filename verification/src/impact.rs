//! Bounded impact projection: the reverse-dependency neighborhood of a set
//! of changed identities, with the tests it exposes and its risk flags.

use vstd::prelude::*;
use vstd::string::*;

use crate::graph_json::graph_identity_of;
use crate::graph::{
    contains_id, copy_ids, edge_rank, edge_views, edges_sorted, EdgeKind, GraphEdge, GraphNode, SemanticGraph,
};
use crate::identity::{id_views, sorted_unique_ids, strictly_sorted, IdentityKind, SemanticId};
use crate::text::lemma_seq_lt_asymmetric;
use crate::traversal::{
    bfs_outcome, closed, distinct_visits, edge_among, edges_among, escapes, is_visited, reverse_traversal, visit_ids,
    visit_views, visited, witnessed,
};

verus! {

pub const SEMANTIC_IMPACT_SCHEMA_VERSION: &'static str = "mncs.semantic-impact/1";

#[derive(Debug, Clone, PartialEq, Eq)]
pub struct SemanticImpact {
    pub schema_version: String,
    pub graph_identity: String,
    pub roots: Vec<SemanticId>,
    pub nodes: Vec<ImpactNode>,
    pub edges: Vec<GraphEdge>,
    pub direct_dependents: Vec<SemanticId>,
    pub test_identities: Vec<SemanticId>,
    pub risk_flags: Vec<ImpactRisk>,
    pub complete: bool,
    pub max_depth: usize,
    pub max_nodes: usize,
    pub limitations: Vec<String>,
}

#[derive(Debug, Clone, PartialEq, Eq)]
pub struct ImpactNode {
    pub identity: SemanticId,
    pub kind: IdentityKind,
    pub distance: usize,
}

#[derive(Debug, Clone, Copy, PartialEq, Eq, PartialOrd, Ord, Structural)]
pub enum ImpactRisk {
    PublicContract,
    SharedType,
    EffectSemantics,
    AbiBoundary,
    HighConnectivity,
    UnknownRoot,
    Truncated,
}

/// The kind recorded for `t`: that of the last node with this identity.
pub open spec fn node_kind_of(nodes: Seq<GraphNode>, t: Seq<char>) -> Option<IdentityKind>
    decreases nodes.len(),
{
    if nodes.len() == 0 {
        None
    } else if nodes.last().identity.0@ == t {
        Some(nodes.last().kind)
    } else {
        node_kind_of(nodes.drop_last(), t)
    }
}

/// The roots (sorted, one of each) that name nodes of the graph, in order.
pub open spec fn known_roots(nodes: Seq<GraphNode>, roots: Seq<Seq<char>>) -> Seq<Seq<char>> {
    roots.filter(|t: Seq<char>| node_kind_of(nodes, t) is Some)
}

impl SemanticGraph {
    pub(crate) fn node_kind(&self, identity: &SemanticId) -> (r: Option<IdentityKind>)
        ensures
            r == node_kind_of(self.nodes@, identity.0@),
    {
        let mut i: usize = self.nodes.len();
        assert(self.nodes@.subrange(0, i as int) =~= self.nodes@);
        while i > 0
            invariant
                i <= self.nodes@.len(),
                node_kind_of(self.nodes@, identity.0@) == node_kind_of(self.nodes@.subrange(0, i as int), identity.0@),
            decreases i,
        {
            let ghost prefix = self.nodes@.subrange(0, i as int);
            assert(prefix.drop_last() =~= self.nodes@.subrange(0, i - 1));
            assert(prefix.last() == self.nodes@[i - 1]);
            if self.nodes[i - 1].identity.same(identity) {
                return Some(self.nodes[i - 1].kind);
            }
            i = i - 1;
        }
        assert(self.nodes@.subrange(0, 0).len() == 0);
        None
    }

    /// The roots, in their (sorted) order, that name nodes of the graph.
    fn known_roots_of(&self, roots: &Vec<SemanticId>) -> (r: Vec<SemanticId>)
        requires
            strictly_sorted(id_views(roots@)),
        ensures
            id_views(r@) == known_roots(self.nodes@, id_views(roots@)),
            strictly_sorted(id_views(r@)),
    {
        let ghost rv = id_views(roots@);
        let ghost pred = |t: Seq<char>| node_kind_of(self.nodes@, t) is Some;
        let mut out: Vec<SemanticId> = Vec::new();
        let mut i: usize = 0;
        assert(rv.subrange(0, 0).filter(pred) =~= Seq::<Seq<char>>::empty()) by {
            reveal(Seq::filter);
        }
        while i < roots.len()
            invariant
                i <= roots@.len(),
                rv == id_views(roots@),
                strictly_sorted(rv),
                pred == (|t: Seq<char>| node_kind_of(self.nodes@, t) is Some),
                id_views(out@) == rv.subrange(0, i as int).filter(pred),
                strictly_sorted(id_views(out@)),
                forall|q: int, j: int| 0 <= q < out@.len() && i <= j < rv.len() ==> crate::text::seq_lt(
                    #[trigger] id_views(out@)[q],
                    #[trigger] rv[j],
                ),
            decreases roots@.len() - i,
        {
            let kind = self.node_kind(&roots[i]);
            let ghost before = out@;
            let ghost prefix = rv.subrange(0, i as int).filter(pred);
            proof {
                reveal(Seq::filter);
                assert(rv.subrange(0, i as int + 1).drop_last() =~= rv.subrange(0, i as int));
                assert(rv.subrange(0, i as int + 1).last() == rv[i as int]);
                assert(pred(rv[i as int]) == kind.is_some());
            }
            if kind.is_some() {
                out.push(roots[i].duplicate());
                proof {
                    reveal(Seq::filter);
                    assert(id_views(out@) =~= id_views(before).push(rv[i as int]));
                    assert(rv.subrange(0, i as int + 1).filter(pred) == prefix.push(rv[i as int]));
                    let ov = id_views(out@);
                    assert forall|a: int, b: int| 0 <= a < b < ov.len() implies crate::text::seq_lt(#[trigger] ov[a], #[trigger] ov[b]) by {
                        if b == ov.len() - 1 {
                            assert(ov[a] == id_views(before)[a]);
                        } else {
                            assert(ov[a] == id_views(before)[a]);
                            assert(ov[b] == id_views(before)[b]);
                        }
                    }
                    assert forall|q: int, j: int| 0 <= q < ov.len() && i + 1 <= j < rv.len() implies crate::text::seq_lt(
                        #[trigger] ov[q],
                        #[trigger] rv[j],
                    ) by {
                        if q == ov.len() - 1 {
                            assert(ov[q] == rv[i as int]);
                        } else {
                            assert(ov[q] == id_views(before)[q]);
                        }
                    }
                }
            } else {
                proof {
                    reveal(Seq::filter);
                    assert(rv.subrange(0, i as int + 1).filter(pred) == prefix);
                }
            }
            i = i + 1;
        }
        assert(rv.subrange(0, i as int) =~= rv);
        out
    }
}

/// `t` was visited at distance `d`.
pub open spec fn visited_at(fv: Seq<(Seq<char>, int)>, t: Seq<char>, d: int) -> bool {
    exists|k: int| 0 <= k < fv.len() && (#[trigger] fv[k]).0 == t && fv[k].1 == d
}

pub open spec fn impact_ids(s: Seq<ImpactNode>) -> Seq<Seq<char>> {
    s.map_values(|n: ImpactNode| n.identity.0@)
}

/// `t` was visited and one of the first `n` edges leads from it into a known root.
pub open spec fn direct_dependent_within(
    ev: Seq<(Seq<char>, Seq<char>, int)>,
    known: Seq<Seq<char>>,
    fv: Seq<(Seq<char>, int)>,
    t: Seq<char>,
    n: int,
) -> bool {
    visited(fv, t) && exists|m: int| 0 <= m < n && (#[trigger] ev[m]).0 == t && known.contains(ev[m].1)
}

/// One of the first `n` edges declares the test `d` from a visited function.
pub open spec fn test_declaration_within(
    nodes: Seq<GraphNode>,
    ev: Seq<(Seq<char>, Seq<char>, int)>,
    fv: Seq<(Seq<char>, int)>,
    d: Seq<char>,
    n: int,
) -> bool {
    exists|m: int|
        0 <= m < n && (#[trigger] ev[m]).1 == d && ev[m].2 == edge_rank(EdgeKind::ContainsTest) && visited(fv, ev[m].0)
            && node_kind_of(nodes, ev[m].0) == Some(IdentityKind::Function)
}

/// `t` is a test case node that one of the first `n` edges attaches to a
/// test declared by a visited function.
pub open spec fn exposed_test_within(
    nodes: Seq<GraphNode>,
    ev: Seq<(Seq<char>, Seq<char>, int)>,
    fv: Seq<(Seq<char>, int)>,
    t: Seq<char>,
    n: int,
) -> bool {
    node_kind_of(nodes, t) == Some(IdentityKind::TestCase) && exists|m: int|
        0 <= m < n && (#[trigger] ev[m]).1 == t && ev[m].2 == edge_rank(EdgeKind::ContainsTestCase)
            && test_declaration_within(nodes, ev, fv, ev[m].0, ev.len() as int)
}

/// The number of edges into `t`.
pub open spec fn in_degree(ev: Seq<(Seq<char>, Seq<char>, int)>, t: Seq<char>) -> nat
    decreases ev.len(),
{
    if ev.len() == 0 {
        0
    } else {
        in_degree(ev.drop_last(), t) + (if ev.last().1 == t { 1nat } else { 0nat })
    }
}

/// Whether a root of kind `kind` (or naming no node) raises `flag`.
pub open spec fn root_risk(kind: Option<IdentityKind>, flag: ImpactRisk) -> bool {
    match kind {
        Some(k) => {
            ||| flag == ImpactRisk::PublicContract && (k == IdentityKind::Contract || k == IdentityKind::Function || k
                == IdentityKind::FiniteType || k == IdentityKind::RecordType || k == IdentityKind::RecordField)
            ||| flag == ImpactRisk::EffectSemantics && (k == IdentityKind::Effect || k == IdentityKind::Capability)
            ||| flag == ImpactRisk::AbiBoundary && (k == IdentityKind::Requirement || k == IdentityKind::Obligation)
        },
        None => flag == ImpactRisk::UnknownRoot,
    }
}

/// Some root raises `flag`.
pub open spec fn roots_raise(nodes: Seq<GraphNode>, roots: Seq<Seq<char>>, flag: ImpactRisk) -> bool {
    roots_raise_within(nodes, roots, flag, roots.len() as int)
}

/// Some known root has more than eight edges into it.
pub open spec fn highly_connected(ev: Seq<(Seq<char>, Seq<char>, int)>, known: Seq<Seq<char>>) -> bool {
    exists|i: int| 0 <= i < known.len() && in_degree(ev, #[trigger] known[i]) > 8
}

/// The raised flags, in their declared order.
pub open spec fn risk_list(public: bool, effect: bool, abi: bool, high: bool, unknown: bool, truncated: bool) -> Seq<ImpactRisk> {
    (if public { seq![ImpactRisk::PublicContract] } else { Seq::empty() })
        + (if effect { seq![ImpactRisk::EffectSemantics] } else { Seq::empty() })
        + (if abi { seq![ImpactRisk::AbiBoundary] } else { Seq::empty() })
        + (if high { seq![ImpactRisk::HighConnectivity] } else { Seq::empty() })
        + (if unknown { seq![ImpactRisk::UnknownRoot] } else { Seq::empty() })
        + (if truncated { seq![ImpactRisk::Truncated] } else { Seq::empty() })
}

/// What the projection states it does not claim.
pub open spec fn impact_limitations(shallow: bool, truncated: bool, unknown: bool) -> Seq<Seq<char>> {
    seq![
        "neighborhood is compiler-exact only for the current semantic graph"@,
        "cross-repository edges and path-sensitive control flow are not represented"@,
    ] + (if shallow { seq!["reverse traversal depth was intentionally bounded"@] } else { Seq::empty() })
        + (if truncated { seq!["node budget truncated the reverse dependency traversal"@] } else { Seq::empty() })
        + (if unknown { seq!["one or more requested roots are not current graph nodes"@] } else { Seq::empty() })
}

impl SemanticGraph {
    /// The visited identities that name nodes, sorted, with their kinds and
    /// distances.
    fn impact_nodes(&self, found: &Vec<(SemanticId, usize)>) -> (r: Vec<ImpactNode>)
        ensures
            strictly_sorted(impact_ids(r@)),
            forall|t: Seq<char>|
                impact_ids(r@).contains(t) <==> visited(visit_views(found@), t) && node_kind_of(self.nodes@, t) is Some,
            forall|q: int|
                0 <= q < r@.len() ==> node_kind_of(self.nodes@, (#[trigger] r@[q]).identity.0@) == Some(r@[q].kind)
                    && visited_at(visit_views(found@), r@[q].identity.0@, r@[q].distance as int),
    {
        let ghost fv = visit_views(found@);
        let ghost pred = |t: Seq<char>| node_kind_of(self.nodes@, t) is Some;
        let ids = visit_ids(found);
        let sorted = sorted_unique_ids(&ids);
        let named = self.known_roots_of(&sorted);
        let ghost sv = id_views(sorted@);
        let ghost nv = id_views(named@);
        let mut out: Vec<ImpactNode> = Vec::new();
        let mut i: usize = 0;
        while i < named.len()
            invariant
                i <= named@.len(),
                out@.len() == i,
                fv == visit_views(found@),
                sv == id_views(sorted@),
                nv == id_views(named@),
                nv == sv.filter(pred),
                pred == (|t: Seq<char>| node_kind_of(self.nodes@, t) is Some),
                forall|t: Seq<char>| sv.contains(t) <==> visited(fv, t),
                forall|q: int|
                    0 <= q < i ==> (#[trigger] out@[q]).identity.0@ == nv[q] && node_kind_of(self.nodes@, nv[q]) == Some(
                        out@[q].kind,
                    ) && visited_at(fv, nv[q], out@[q].distance as int),
            decreases named@.len() - i,
        {
            proof {
                sv.lemma_filter_pred(pred, i as int);
                sv.lemma_filter_contains_rev(pred, nv[i as int]);
                assert(nv[i as int] == named@[i as int].0@);
            }
            let kind = self.node_kind(&named[i]).unwrap();
            let at = is_visited(found, &named[i]).unwrap();
            let distance = found[at].1;
            proof {
                assert(fv[at as int] == (named@[i as int].0@, distance as int));
            }
            out.push(ImpactNode { identity: named[i].duplicate(), kind, distance });
            i = i + 1;
        }
        proof {
            assert(impact_ids(out@) =~= nv);
            assert forall|t: Seq<char>| impact_ids(out@).contains(t) <==> visited(fv, t) && node_kind_of(self.nodes@, t) is Some by {
                if nv.contains(t) {
                    sv.lemma_filter_contains_rev(pred, t);
                    let q = choose|q: int| 0 <= q < nv.len() && nv[q] == t;
                    sv.lemma_filter_pred(pred, q);
                }
                if visited(fv, t) && node_kind_of(self.nodes@, t) is Some {
                    let k = choose|k: int| 0 <= k < sv.len() && sv[k] == t;
                    sv.lemma_filter_contains(pred, k);
                }
            }
            assert forall|q: int| 0 <= q < out@.len() implies node_kind_of(self.nodes@, (#[trigger] out@[q]).identity.0@) == Some(
                out@[q].kind,
            ) && visited_at(fv, out@[q].identity.0@, out@[q].distance as int) by {
                assert(out@[q].identity.0@ == nv[q]);
            }
        }
        out
    }

    /// The visited identities with an edge into a known root, sorted.
    fn direct_dependents_of(&self, known: &Vec<SemanticId>, found: &Vec<(SemanticId, usize)>) -> (r: Vec<SemanticId>)
        ensures
            strictly_sorted(id_views(r@)),
            forall|t: Seq<char>|
                id_views(r@).contains(t) <==> direct_dependent_within(
                    edge_views(self.edges@),
                    id_views(known@),
                    visit_views(found@),
                    t,
                    self.edges@.len() as int,
                ),
    {
        let ghost ev = edge_views(self.edges@);
        let ghost fv = visit_views(found@);
        let ghost kv = id_views(known@);
        let mut sources: Vec<SemanticId> = Vec::new();
        let mut m: usize = 0;
        while m < self.edges.len()
            invariant
                m <= self.edges@.len(),
                ev == edge_views(self.edges@),
                fv == visit_views(found@),
                kv == id_views(known@),
                forall|t: Seq<char>| id_views(sources@).contains(t) <==> direct_dependent_within(ev, kv, fv, t, m as int),
            decreases self.edges@.len() - m,
        {
            let edge = &self.edges[m];
            proof {
                assert(ev[m as int] == (edge.from.0@, edge.to.0@, edge_rank(edge.kind)));
            }
            let ghost before = sources@;
            let in_known = contains_id(known.as_slice(), &edge.to);
            let seen = is_visited(found, &edge.from).is_some();
            if in_known && seen {
                sources.push(edge.from.duplicate());
                proof {
                    assert(id_views(sources@) =~= id_views(before).push(edge.from.0@));
                    assert(kv.contains(ev[m as int].1));
                    assert(visited(fv, edge.from.0@));
                    assert(direct_dependent_within(ev, kv, fv, edge.from.0@, m + 1));
                    assert(id_views(sources@)[id_views(before).len() as int] == edge.from.0@);
                    assert forall|t: Seq<char>| id_views(sources@).contains(t) <==> direct_dependent_within(ev, kv, fv, t, m + 1) by {
                        if id_views(sources@).contains(t) && t != edge.from.0@ {
                            let q = choose|q: int| 0 <= q < id_views(sources@).len() && id_views(sources@)[q] == t;
                            assert(id_views(before)[q] == t);
                            assert(id_views(before).contains(t));
                            assert(direct_dependent_within(ev, kv, fv, t, m as int));
                            let w = choose|w: int| 0 <= w < m && (#[trigger] ev[w]).0 == t && kv.contains(ev[w].1);
                            assert(ev[w].0 == t);
                        }
                        if direct_dependent_within(ev, kv, fv, t, m + 1) && t != edge.from.0@ {
                            let w = choose|w: int| 0 <= w < m + 1 && (#[trigger] ev[w]).0 == t && kv.contains(ev[w].1);
                            assert(direct_dependent_within(ev, kv, fv, t, m as int));
                            assert(id_views(before).contains(t));
                            let q = choose|q: int| 0 <= q < id_views(before).len() && id_views(before)[q] == t;
                            assert(id_views(sources@)[q] == t);
                        }
                    }
                }
            } else {
                proof {
                    assert forall|t: Seq<char>| id_views(sources@).contains(t) <==> direct_dependent_within(ev, kv, fv, t, m + 1) by {
                        if direct_dependent_within(ev, kv, fv, t, m + 1) {
                            if t == edge.from.0@ && kv.contains(ev[m as int].1) {
                                assert(!visited(fv, t));
                            }
                            let w = choose|w: int| 0 <= w < m + 1 && (#[trigger] ev[w]).0 == t && kv.contains(ev[w].1);
                            assert(direct_dependent_within(ev, kv, fv, t, m as int));
                        }
                        if direct_dependent_within(ev, kv, fv, t, m as int) {
                            let w = choose|w: int| 0 <= w < m && (#[trigger] ev[w]).0 == t && kv.contains(ev[w].1);
                            assert(direct_dependent_within(ev, kv, fv, t, m + 1));
                        }
                    }
                }
            }
            m = m + 1;
        }
        sorted_unique_ids(&sources)
    }
}

impl SemanticGraph {
    /// The tests declared by visited functions.
    fn test_declarations_of(&self, found: &Vec<(SemanticId, usize)>) -> (r: Vec<SemanticId>)
        ensures
            forall|t: Seq<char>|
                id_views(r@).contains(t) <==> test_declaration_within(
                    self.nodes@,
                    edge_views(self.edges@),
                    visit_views(found@),
                    t,
                    self.edges@.len() as int,
                ),
    {
        let ghost ev = edge_views(self.edges@);
        let ghost fv = visit_views(found@);
        let mut out: Vec<SemanticId> = Vec::new();
        let mut m: usize = 0;
        while m < self.edges.len()
            invariant
                m <= self.edges@.len(),
                ev == edge_views(self.edges@),
                fv == visit_views(found@),
                forall|t: Seq<char>| id_views(out@).contains(t) <==> test_declaration_within(self.nodes@, ev, fv, t, m as int),
            decreases self.edges@.len() - m,
        {
            let edge = &self.edges[m];
            proof {
                assert(ev[m as int] == (edge.from.0@, edge.to.0@, edge_rank(edge.kind)));
            }
            let declares = edge.kind == EdgeKind::ContainsTest;
            let seen = is_visited(found, &edge.from).is_some();
            let function = match self.node_kind(&edge.from) {
                Some(IdentityKind::Function) => true,
                _ => false,
            };
            let ghost before = out@;
            if declares && seen && function {
                out.push(edge.to.duplicate());
                proof {
                    assert(id_views(out@) =~= id_views(before).push(edge.to.0@));
                    assert(test_declaration_within(self.nodes@, ev, fv, edge.to.0@, m + 1));
                    assert(id_views(out@)[id_views(before).len() as int] == edge.to.0@);
                    assert forall|t: Seq<char>| id_views(out@).contains(t) <==> test_declaration_within(self.nodes@, ev, fv, t, m + 1) by {
                        if id_views(out@).contains(t) && t != edge.to.0@ {
                            let q = choose|q: int| 0 <= q < id_views(out@).len() && id_views(out@)[q] == t;
                            assert(id_views(before)[q] == t);
                            assert(id_views(before).contains(t));
                            let w = choose|w: int|
                                0 <= w < m && (#[trigger] ev[w]).1 == t && ev[w].2 == edge_rank(EdgeKind::ContainsTest) && visited(fv, ev[w].0)
                                    && node_kind_of(self.nodes@, ev[w].0) == Some(IdentityKind::Function);
                            assert(ev[w].1 == t);
                        }
                        if test_declaration_within(self.nodes@, ev, fv, t, m + 1) && t != edge.to.0@ {
                            let w = choose|w: int|
                                0 <= w < m + 1 && (#[trigger] ev[w]).1 == t && ev[w].2 == edge_rank(EdgeKind::ContainsTest) && visited(fv, ev[w].0)
                                    && node_kind_of(self.nodes@, ev[w].0) == Some(IdentityKind::Function);
                            assert(test_declaration_within(self.nodes@, ev, fv, t, m as int));
                            assert(id_views(before).contains(t));
                            let q = choose|q: int| 0 <= q < id_views(before).len() && id_views(before)[q] == t;
                            assert(id_views(out@)[q] == t);
                        }
                    }
                }
            } else {
                proof {
                    assert forall|t: Seq<char>| id_views(out@).contains(t) <==> test_declaration_within(self.nodes@, ev, fv, t, m + 1) by {
                        if test_declaration_within(self.nodes@, ev, fv, t, m + 1) {
                            let w = choose|w: int|
                                0 <= w < m + 1 && (#[trigger] ev[w]).1 == t && ev[w].2 == edge_rank(EdgeKind::ContainsTest) && visited(fv, ev[w].0)
                                    && node_kind_of(self.nodes@, ev[w].0) == Some(IdentityKind::Function);
                            if w == m {
                                assert(edge_rank(edge.kind) == edge_rank(EdgeKind::ContainsTest));
                                assert(edge.kind == EdgeKind::ContainsTest);
                            }
                            assert(test_declaration_within(self.nodes@, ev, fv, t, m as int));
                        }
                        if test_declaration_within(self.nodes@, ev, fv, t, m as int) {
                            let w = choose|w: int|
                                0 <= w < m && (#[trigger] ev[w]).1 == t && ev[w].2 == edge_rank(EdgeKind::ContainsTest) && visited(fv, ev[w].0)
                                    && node_kind_of(self.nodes@, ev[w].0) == Some(IdentityKind::Function);
                            assert(ev[w].1 == t);
                        }
                    }
                }
            }
            m = m + 1;
        }
        out
    }

    /// The test cases exposed by the visited functions, sorted.
    fn exposed_tests_of(&self, found: &Vec<(SemanticId, usize)>) -> (r: Vec<SemanticId>)
        ensures
            strictly_sorted(id_views(r@)),
            forall|t: Seq<char>|
                id_views(r@).contains(t) <==> exposed_test_within(
                    self.nodes@,
                    edge_views(self.edges@),
                    visit_views(found@),
                    t,
                    self.edges@.len() as int,
                ),
    {
        let ghost ev = edge_views(self.edges@);
        let ghost fv = visit_views(found@);
        let declarations = self.test_declarations_of(found);
        let mut out: Vec<SemanticId> = Vec::new();
        let mut m: usize = 0;
        while m < self.edges.len()
            invariant
                m <= self.edges@.len(),
                ev == edge_views(self.edges@),
                fv == visit_views(found@),
                forall|t: Seq<char>|
                    id_views(declarations@).contains(t) <==> test_declaration_within(self.nodes@, ev, fv, t, ev.len() as int),
                forall|t: Seq<char>| id_views(out@).contains(t) <==> exposed_test_within(self.nodes@, ev, fv, t, m as int),
            decreases self.edges@.len() - m,
        {
            let edge = &self.edges[m];
            proof {
                assert(ev[m as int] == (edge.from.0@, edge.to.0@, edge_rank(edge.kind)));
            }
            let attaches = edge.kind == EdgeKind::ContainsTestCase;
            let declared = contains_id(declarations.as_slice(), &edge.from);
            let case = match self.node_kind(&edge.to) {
                Some(IdentityKind::TestCase) => true,
                _ => false,
            };
            let ghost before = out@;
            if attaches && declared && case {
                out.push(edge.to.duplicate());
                proof {
                    assert(id_views(out@) =~= id_views(before).push(edge.to.0@));
                    assert(exposed_test_within(self.nodes@, ev, fv, edge.to.0@, m + 1));
                    assert(id_views(out@)[id_views(before).len() as int] == edge.to.0@);
                    assert forall|t: Seq<char>| id_views(out@).contains(t) <==> exposed_test_within(self.nodes@, ev, fv, t, m + 1) by {
                        if id_views(out@).contains(t) && t != edge.to.0@ {
                            let q = choose|q: int| 0 <= q < id_views(out@).len() && id_views(out@)[q] == t;
                            assert(id_views(before)[q] == t);
                            assert(id_views(before).contains(t));
                            let w = choose|w: int|
                                0 <= w < m && (#[trigger] ev[w]).1 == t && ev[w].2 == edge_rank(EdgeKind::ContainsTestCase)
                                    && test_declaration_within(self.nodes@, ev, fv, ev[w].0, ev.len() as int);
                            assert(ev[w].1 == t);
                        }
                        if exposed_test_within(self.nodes@, ev, fv, t, m + 1) && t != edge.to.0@ {
                            let w = choose|w: int|
                                0 <= w < m + 1 && (#[trigger] ev[w]).1 == t && ev[w].2 == edge_rank(EdgeKind::ContainsTestCase)
                                    && test_declaration_within(self.nodes@, ev, fv, ev[w].0, ev.len() as int);
                            assert(exposed_test_within(self.nodes@, ev, fv, t, m as int));
                            assert(id_views(before).contains(t));
                            let q = choose|q: int| 0 <= q < id_views(before).len() && id_views(before)[q] == t;
                            assert(id_views(out@)[q] == t);
                        }
                    }
                }
            } else {
                proof {
                    assert forall|t: Seq<char>| id_views(out@).contains(t) <==> exposed_test_within(self.nodes@, ev, fv, t, m + 1) by {
                        if exposed_test_within(self.nodes@, ev, fv, t, m + 1) {
                            let w = choose|w: int|
                                0 <= w < m + 1 && (#[trigger] ev[w]).1 == t && ev[w].2 == edge_rank(EdgeKind::ContainsTestCase)
                                    && test_declaration_within(self.nodes@, ev, fv, ev[w].0, ev.len() as int);
                            if w == m {
                                assert(edge_rank(edge.kind) == edge_rank(EdgeKind::ContainsTestCase));
                                assert(edge.kind == EdgeKind::ContainsTestCase);
                                assert(id_views(declarations@).contains(edge.from.0@));
                            }
                            assert(exposed_test_within(self.nodes@, ev, fv, t, m as int));
                        }
                        if exposed_test_within(self.nodes@, ev, fv, t, m as int) {
                            let w = choose|w: int|
                                0 <= w < m && (#[trigger] ev[w]).1 == t && ev[w].2 == edge_rank(EdgeKind::ContainsTestCase)
                                    && test_declaration_within(self.nodes@, ev, fv, ev[w].0, ev.len() as int);
                            assert(ev[w].1 == t);
                        }
                    }
                }
            }
            m = m + 1;
        }
        sorted_unique_ids(&out)
    }
}

/// Some of the first `n` roots raises `flag`.
pub open spec fn roots_raise_within(nodes: Seq<GraphNode>, roots: Seq<Seq<char>>, flag: ImpactRisk, n: int) -> bool {
    exists|i: int| 0 <= i < n && #[trigger] root_risk(node_kind_of(nodes, roots[i]), flag)
}

fn risk_flags_of(public: bool, effect: bool, abi: bool, high: bool, unknown: bool, truncated: bool) -> (r: Vec<ImpactRisk>)
    ensures
        r@ == risk_list(public, effect, abi, high, unknown, truncated),
{
    let mut flags: Vec<ImpactRisk> = Vec::new();
    if public {
        flags.push(ImpactRisk::PublicContract);
    }
    let ghost a = flags@;
    if effect {
        flags.push(ImpactRisk::EffectSemantics);
    }
    let ghost b = flags@;
    if abi {
        flags.push(ImpactRisk::AbiBoundary);
    }
    let ghost c = flags@;
    if high {
        flags.push(ImpactRisk::HighConnectivity);
    }
    let ghost d = flags@;
    if unknown {
        flags.push(ImpactRisk::UnknownRoot);
    }
    let ghost e = flags@;
    if truncated {
        flags.push(ImpactRisk::Truncated);
    }
    proof {
        let p1: Seq<ImpactRisk> = if public { seq![ImpactRisk::PublicContract] } else { Seq::empty() };
        let p2: Seq<ImpactRisk> = if effect { seq![ImpactRisk::EffectSemantics] } else { Seq::empty() };
        let p3: Seq<ImpactRisk> = if abi { seq![ImpactRisk::AbiBoundary] } else { Seq::empty() };
        let p4: Seq<ImpactRisk> = if high { seq![ImpactRisk::HighConnectivity] } else { Seq::empty() };
        let p5: Seq<ImpactRisk> = if unknown { seq![ImpactRisk::UnknownRoot] } else { Seq::empty() };
        let p6: Seq<ImpactRisk> = if truncated { seq![ImpactRisk::Truncated] } else { Seq::empty() };
        assert(a =~= p1);
        assert(b =~= p1 + p2);
        assert(c =~= p1 + p2 + p3);
        assert(d =~= p1 + p2 + p3 + p4);
        assert(e =~= p1 + p2 + p3 + p4 + p5);
        assert(flags@ =~= p1 + p2 + p3 + p4 + p5 + p6);
    }
    flags
}

pub open spec fn texts(s: Seq<String>) -> Seq<Seq<char>> {
    s.map_values(|l: String| l@)
}

fn limitations_of(shallow: bool, truncated: bool, unknown: bool) -> (r: Vec<String>)
    ensures
        texts(r@) == impact_limitations(shallow, truncated, unknown),
{
    let mut out: Vec<String> = Vec::new();
    out.push(String::from_str("neighborhood is compiler-exact only for the current semantic graph"));
    out.push(String::from_str("cross-repository edges and path-sensitive control flow are not represented"));
    let ghost a = texts(out@);
    if shallow {
        out.push(String::from_str("reverse traversal depth was intentionally bounded"));
    }
    let ghost b = texts(out@);
    if truncated {
        out.push(String::from_str("node budget truncated the reverse dependency traversal"));
    }
    let ghost c = texts(out@);
    if unknown {
        out.push(String::from_str("one or more requested roots are not current graph nodes"));
    }
    proof {
        let p0: Seq<Seq<char>> = seq![
            "neighborhood is compiler-exact only for the current semantic graph"@,
            "cross-repository edges and path-sensitive control flow are not represented"@,
        ];
        let p1: Seq<Seq<char>> = if shallow { seq!["reverse traversal depth was intentionally bounded"@] } else { Seq::empty() };
        let p2: Seq<Seq<char>> = if truncated { seq!["node budget truncated the reverse dependency traversal"@] } else { Seq::empty() };
        let p3: Seq<Seq<char>> = if unknown { seq!["one or more requested roots are not current graph nodes"@] } else { Seq::empty() };
        assert(a =~= p0);
        assert(b =~= p0 + p1);
        assert(c =~= p0 + p1 + p2);
        assert(texts(out@) =~= p0 + p1 + p2 + p3);
    }
    out
}

impl SemanticGraph {
    /// Which flags the roots raise: (public contract, effect semantics,
    /// ABI boundary, unknown root).
    fn root_flags(&self, roots: &Vec<SemanticId>) -> (r: (bool, bool, bool, bool))
        ensures
            r.0 == roots_raise(self.nodes@, id_views(roots@), ImpactRisk::PublicContract),
            r.1 == roots_raise(self.nodes@, id_views(roots@), ImpactRisk::EffectSemantics),
            r.2 == roots_raise(self.nodes@, id_views(roots@), ImpactRisk::AbiBoundary),
            r.3 == roots_raise(self.nodes@, id_views(roots@), ImpactRisk::UnknownRoot),
    {
        let ghost rv = id_views(roots@);
        let mut public = false;
        let mut effect = false;
        let mut abi = false;
        let mut unknown = false;
        let mut i: usize = 0;
        while i < roots.len()
            invariant
                i <= roots@.len(),
                rv == id_views(roots@),
                public == roots_raise_within(self.nodes@, rv, ImpactRisk::PublicContract, i as int),
                effect == roots_raise_within(self.nodes@, rv, ImpactRisk::EffectSemantics, i as int),
                abi == roots_raise_within(self.nodes@, rv, ImpactRisk::AbiBoundary, i as int),
                unknown == roots_raise_within(self.nodes@, rv, ImpactRisk::UnknownRoot, i as int),
            decreases roots@.len() - i,
        {
            let kind = self.node_kind(&roots[i]);
            let ghost ki = node_kind_of(self.nodes@, rv[i as int]);
            let ghost old_flags = (public, effect, abi, unknown);
            assert(rv[i as int] == roots@[i as int].0@);
            assert(kind == ki);
            match kind {
                Some(IdentityKind::Contract) | Some(IdentityKind::Function) | Some(IdentityKind::FiniteType) | Some(
                    IdentityKind::RecordType,
                ) | Some(IdentityKind::RecordField) => {
                    public = true;
                },
                Some(IdentityKind::Effect) | Some(IdentityKind::Capability) => {
                    effect = true;
                },
                Some(IdentityKind::Requirement) | Some(IdentityKind::Obligation) => {
                    abi = true;
                },
                Some(_) => {},
                None => {
                    unknown = true;
                },
            }
            proof {
                assert(public == (old_flags.0 || root_risk(ki, ImpactRisk::PublicContract)));
                assert(effect == (old_flags.1 || root_risk(ki, ImpactRisk::EffectSemantics)));
                assert(abi == (old_flags.2 || root_risk(ki, ImpactRisk::AbiBoundary)));
                assert(unknown == (old_flags.3 || root_risk(ki, ImpactRisk::UnknownRoot)));
                assert forall|flag: ImpactRisk| roots_raise_within(self.nodes@, rv, flag, i + 1) <==> (roots_raise_within(
                    self.nodes@,
                    rv,
                    flag,
                    i as int,
                ) || root_risk(ki, flag)) by {
                    if roots_raise_within(self.nodes@, rv, flag, i + 1) {
                        let j = choose|j: int| 0 <= j < i + 1 && #[trigger] root_risk(node_kind_of(self.nodes@, rv[j]), flag);
                        if j < i {
                            assert(roots_raise_within(self.nodes@, rv, flag, i as int));
                        }
                    }
                    if roots_raise_within(self.nodes@, rv, flag, i as int) {
                        let j = choose|j: int| 0 <= j < i && #[trigger] root_risk(node_kind_of(self.nodes@, rv[j]), flag);
                        assert(roots_raise_within(self.nodes@, rv, flag, i + 1));
                    }
                    if root_risk(ki, flag) {
                        assert(root_risk(node_kind_of(self.nodes@, rv[i as int]), flag));
                    }
                }
            }
            i = i + 1;
        }
        (public, effect, abi, unknown)
    }

    fn in_degree_of(&self, identity: &SemanticId) -> (r: usize)
        ensures
            r == in_degree(edge_views(self.edges@), identity.0@),
    {
        let ghost ev = edge_views(self.edges@);
        let mut count: usize = 0;
        let mut m: usize = 0;
        while m < self.edges.len()
            invariant
                m <= self.edges@.len(),
                ev == edge_views(self.edges@),
                count == in_degree(ev.subrange(0, m as int), identity.0@),
                count <= m,
            decreases self.edges@.len() - m,
        {
            proof {
                assert(ev.subrange(0, m + 1).drop_last() =~= ev.subrange(0, m as int));
                assert(ev.subrange(0, m + 1).last() == ev[m as int]);
                assert(ev[m as int].1 == self.edges@[m as int].to.0@);
            }
            if self.edges[m].to.same(identity) {
                count = count + 1;
            }
            m = m + 1;
        }
        assert(ev.subrange(0, m as int) =~= ev);
        count
    }

    fn highly_connected_roots(&self, known: &Vec<SemanticId>) -> (r: bool)
        ensures
            r == highly_connected(edge_views(self.edges@), id_views(known@)),
    {
        let ghost ev = edge_views(self.edges@);
        let ghost kv = id_views(known@);
        let mut i: usize = 0;
        while i < known.len()
            invariant
                i <= known@.len(),
                ev == edge_views(self.edges@),
                kv == id_views(known@),
                forall|j: int| 0 <= j < i ==> in_degree(ev, #[trigger] kv[j]) <= 8,
            decreases known@.len() - i,
        {
            assert(kv[i as int] == known@[i as int].0@);
            if self.in_degree_of(&known[i]) > 8 {
                return true;
            }
            i = i + 1;
        }
        false
    }
}

/// The bounded reverse traversal from the known roots `known`: the visits and
/// the truncation are where the breadth-first traversal stops. Its facts: the
/// roots come first at distance zero, every later visit was reached through
/// an edge one step further, distances stay within `max_depth`, the budget
/// `max_nodes` is kept, and the traversal is closed exactly when it was not
/// truncated.
pub open spec fn impact_traversal(
    ev: Seq<(Seq<char>, Seq<char>, int)>,
    known: Seq<Seq<char>>,
    max_depth: usize,
    max_nodes: usize,
    fv: Seq<(Seq<char>, int)>,
    truncated: bool,
) -> bool {
    &&& fv.len() >= known.len()
    &&& forall|k: int| 0 <= k < known.len() ==> #[trigger] fv[k] == (known[k], 0int)
    &&& distinct_visits(fv)
    &&& witnessed(ev, fv, known.len() as int)
    &&& forall|k: int| 0 <= k < fv.len() ==> (#[trigger] fv[k]).1 <= max_depth
    &&& fv.len() <= known.len() || fv.len() <= max_nodes
    &&& !truncated ==> closed(ev, fv, Some(max_depth))
    &&& truncated ==> escapes(ev, fv, Some(max_depth)) && fv.len() >= max_nodes
    &&& bfs_outcome(ev, known, Some(max_depth), Some(max_nodes), fv, truncated)
}

/// How the fields of the projection derive from the traversal.
pub open spec fn impact_outcome(g: SemanticGraph, r: SemanticImpact, fv: Seq<(Seq<char>, int)>, truncated: bool) -> bool {
    let ev = edge_views(g.edges@);
    let known = known_roots(g.nodes@, id_views(r.roots@));
    let unknown = roots_raise(g.nodes@, id_views(r.roots@), ImpactRisk::UnknownRoot);
    &&& strictly_sorted(impact_ids(r.nodes@))
    &&& forall|t: Seq<char>|
        impact_ids(r.nodes@).contains(t) <==> visited(fv, t) && node_kind_of(g.nodes@, t) is Some
    &&& forall|q: int|
        0 <= q < r.nodes@.len() ==> node_kind_of(g.nodes@, (#[trigger] r.nodes@[q]).identity.0@) == Some(r.nodes@[q].kind)
            && visited_at(fv, r.nodes@[q].identity.0@, r.nodes@[q].distance as int)
    &&& edges_sorted(edge_views(r.edges@))
    &&& edge_views(r.edges@).to_multiset() == edge_views(g.edges@.filter(|e: GraphEdge| edge_among(fv, e))).to_multiset()
    &&& strictly_sorted(id_views(r.direct_dependents@))
    &&& forall|t: Seq<char>|
        id_views(r.direct_dependents@).contains(t) <==> direct_dependent_within(ev, known, fv, t, ev.len() as int)
    &&& strictly_sorted(id_views(r.test_identities@))
    &&& forall|t: Seq<char>|
        id_views(r.test_identities@).contains(t) <==> exposed_test_within(g.nodes@, ev, fv, t, ev.len() as int)
    &&& r.risk_flags@ == risk_list(
        roots_raise(g.nodes@, id_views(r.roots@), ImpactRisk::PublicContract),
        roots_raise(g.nodes@, id_views(r.roots@), ImpactRisk::EffectSemantics),
        roots_raise(g.nodes@, id_views(r.roots@), ImpactRisk::AbiBoundary),
        highly_connected(ev, known),
        unknown,
        truncated,
    )
    &&& r.complete == (!truncated && known.len() == r.roots@.len())
    &&& texts(r.limitations@) == impact_limitations(r.max_depth < 2, truncated, unknown)
}

impl SemanticGraph {
    /// The bounded reverse-dependency neighborhood of `roots`: the roots
    /// sorted with duplicates removed, a breadth-first traversal against the
    /// edges from the roots that name nodes (at most `max_depth` steps, at
    /// most `max_nodes` identities, both at least one), the visited nodes
    /// with their distances, the edges among the visited identities, the
    /// direct dependents of the known roots, the test cases the visited
    /// functions expose, and the risk flags and limitations. The graph's
    /// identity is the digest of its compact JSON.
    pub fn impact_neighborhood(
        &self,
        roots: &[SemanticId],
        max_depth: usize,
        max_nodes: usize,
    ) -> (r: SemanticImpact)
        ensures
            r.schema_version@ == SEMANTIC_IMPACT_SCHEMA_VERSION@,
            r.graph_identity@ == graph_identity_of(*self),
            strictly_sorted(id_views(r.roots@)),
            forall|t: Seq<char>| id_views(r.roots@).contains(t) <==> id_views(roots@).contains(t),
            r.max_depth == (if max_depth == 0 { 1 } else { max_depth }),
            r.max_nodes == (if max_nodes == 0 { 1 } else { max_nodes }),
            exists|fv: Seq<(Seq<char>, int)>, truncated: bool|
                #[trigger] impact_traversal(
                    edge_views(self.edges@),
                    known_roots(self.nodes@, id_views(r.roots@)),
                    r.max_depth,
                    r.max_nodes,
                    fv,
                    truncated,
                ) && impact_outcome(*self, r, fv, truncated),
    {
        let depth = if max_depth == 0 { 1 } else { max_depth };
        let budget = if max_nodes == 0 { 1 } else { max_nodes };
        let listed = copy_ids(roots);
        let sorted_roots = sorted_unique_ids(&listed);
        let known = self.known_roots_of(&sorted_roots);
        proof {
            let kv = id_views(known@);
            assert forall|i: int, j: int| 0 <= i < j < known@.len() implies (#[trigger] known@[i]).0@ != (#[trigger] known@[j]).0@ by {
                assert(crate::text::seq_lt(kv[i], kv[j]));
                lemma_seq_lt_asymmetric(kv[i], kv[i]);
            }
        }
        let (found, truncated) = reverse_traversal(&self.edges, &known, Some(depth), Some(budget));
        let nodes = self.impact_nodes(&found);
        let edges = edges_among(&self.edges, &found);
        let direct_dependents = self.direct_dependents_of(&known, &found);
        let test_identities = self.exposed_tests_of(&found);
        let (public, effect, abi, unknown) = self.root_flags(&sorted_roots);
        let high = self.highly_connected_roots(&known);
        let risk_flags = risk_flags_of(public, effect, abi, high, unknown, truncated);
        let limitations = limitations_of(depth < 2, truncated, unknown);
        let graph_identity = self.graph_identity();
        let complete = !truncated && known.len() == sorted_roots.len();
        let r = SemanticImpact {
            schema_version: String::from_str(SEMANTIC_IMPACT_SCHEMA_VERSION),
            graph_identity,
            roots: sorted_roots,
            nodes,
            edges,
            direct_dependents,
            test_identities,
            risk_flags,
            complete,
            max_depth: depth,
            max_nodes: budget,
            limitations,
        };
        proof {
            let fv = visit_views(found@);
            let ev = edge_views(self.edges@);
            let kv = known_roots(self.nodes@, id_views(r.roots@));
            assert(kv == id_views(known@));
            assert forall|k: int| 0 <= k < kv.len() implies #[trigger] fv[k] == (kv[k], 0int) by {
                assert(fv[k] == (known@[k].0@, 0int));
            }
            assert(impact_traversal(ev, kv, depth, budget, fv, truncated));
            assert(impact_outcome(*self, r, fv, truncated));
            assert(impact_traversal(edge_views(self.edges@), known_roots(self.nodes@, id_views(r.roots@)), r.max_depth, r.max_nodes, fv, truncated));
        }
        r
    }
}

/// A root naming an effect or a capability raises the effect-semantics
/// risk, and only such a root does.
pub proof fn lemma_effect_roots_raise_effect_semantics(nodes: Seq<GraphNode>, roots: Seq<Seq<char>>)
    ensures
        roots_raise(nodes, roots, ImpactRisk::EffectSemantics) <==> exists|i: int|
            0 <= i < roots.len() && (#[trigger] node_kind_of(nodes, roots[i]) == Some(IdentityKind::Effect)
                || node_kind_of(nodes, roots[i]) == Some(IdentityKind::Capability)),
{
    if roots_raise(nodes, roots, ImpactRisk::EffectSemantics) {
        let i = choose|i: int| 0 <= i < roots.len() && #[trigger] root_risk(node_kind_of(nodes, roots[i]), ImpactRisk::EffectSemantics);
        assert(node_kind_of(nodes, roots[i]) == Some(IdentityKind::Effect) || node_kind_of(nodes, roots[i]) == Some(
            IdentityKind::Capability,
        ));
    }
    if exists|i: int|
        0 <= i < roots.len() && (#[trigger] node_kind_of(nodes, roots[i]) == Some(IdentityKind::Effect)
            || node_kind_of(nodes, roots[i]) == Some(IdentityKind::Capability)) {
        let i = choose|i: int|
            0 <= i < roots.len() && (#[trigger] node_kind_of(nodes, roots[i]) == Some(IdentityKind::Effect)
                || node_kind_of(nodes, roots[i]) == Some(IdentityKind::Capability));
        assert(root_risk(node_kind_of(nodes, roots[i]), ImpactRisk::EffectSemantics));
    }
}

/// An impact neighborhood with a root that names an effect or a capability
/// node lists the effect-semantics risk.
pub proof fn lemma_impact_flags_effect_roots(
    g: SemanticGraph,
    r: SemanticImpact,
    fv: Seq<(Seq<char>, int)>,
    truncated: bool,
    i: int,
)
    requires
        impact_outcome(g, r, fv, truncated),
        0 <= i < r.roots@.len(),
        node_kind_of(g.nodes@, r.roots@[i].0@) == Some(IdentityKind::Effect) || node_kind_of(g.nodes@, r.roots@[i].0@)
            == Some(IdentityKind::Capability),
    ensures
        r.risk_flags@.contains(ImpactRisk::EffectSemantics),
{
    let rv = id_views(r.roots@);
    assert(rv[i] == r.roots@[i].0@);
    assert(root_risk(node_kind_of(g.nodes@, rv[i]), ImpactRisk::EffectSemantics));
    assert(roots_raise(g.nodes@, rv, ImpactRisk::EffectSemantics));
    let public = roots_raise(g.nodes@, rv, ImpactRisk::PublicContract);
    let k: int = if public { 1 } else { 0 };
    assert(r.risk_flags@[k] == ImpactRisk::EffectSemantics);
}

/// Which roots raise which risk: a contract, function, finite type, record
/// type or record field raises the public-contract risk; a requirement or
/// an obligation the ABI-boundary risk; a root naming no node the
/// unknown-root risk; no root raises any other risk on its own.
pub proof fn lemma_root_risks(nodes: Seq<GraphNode>, roots: Seq<Seq<char>>)
    ensures
        roots_raise(nodes, roots, ImpactRisk::PublicContract) <==> exists|i: int|
            0 <= i < roots.len() && (#[trigger] node_kind_of(nodes, roots[i]) == Some(IdentityKind::Contract)
                || node_kind_of(nodes, roots[i]) == Some(IdentityKind::Function) || node_kind_of(nodes, roots[i])
                == Some(IdentityKind::FiniteType) || node_kind_of(nodes, roots[i]) == Some(IdentityKind::RecordType)
                || node_kind_of(nodes, roots[i]) == Some(IdentityKind::RecordField)),
        roots_raise(nodes, roots, ImpactRisk::AbiBoundary) <==> exists|i: int|
            0 <= i < roots.len() && (#[trigger] node_kind_of(nodes, roots[i]) == Some(IdentityKind::Requirement)
                || node_kind_of(nodes, roots[i]) == Some(IdentityKind::Obligation)),
        roots_raise(nodes, roots, ImpactRisk::UnknownRoot) <==> exists|i: int|
            0 <= i < roots.len() && #[trigger] node_kind_of(nodes, roots[i]) is None,
        !roots_raise(nodes, roots, ImpactRisk::SharedType),
        !roots_raise(nodes, roots, ImpactRisk::HighConnectivity),
        !roots_raise(nodes, roots, ImpactRisk::Truncated),
{
    assert forall|i: int| 0 <= i < roots.len() implies
        (#[trigger] root_risk(node_kind_of(nodes, roots[i]), ImpactRisk::PublicContract) <==> (node_kind_of(nodes, roots[i])
            == Some(IdentityKind::Contract) || node_kind_of(nodes, roots[i]) == Some(IdentityKind::Function)
            || node_kind_of(nodes, roots[i]) == Some(IdentityKind::FiniteType) || node_kind_of(nodes, roots[i]) == Some(
            IdentityKind::RecordType,
        ) || node_kind_of(nodes, roots[i]) == Some(IdentityKind::RecordField))) by {}
    assert forall|i: int| 0 <= i < roots.len() implies
        (#[trigger] root_risk(node_kind_of(nodes, roots[i]), ImpactRisk::AbiBoundary) <==> (node_kind_of(nodes, roots[i])
            == Some(IdentityKind::Requirement) || node_kind_of(nodes, roots[i]) == Some(IdentityKind::Obligation))) by {}
    assert forall|i: int| 0 <= i < roots.len() implies
        (#[trigger] root_risk(node_kind_of(nodes, roots[i]), ImpactRisk::UnknownRoot) <==> node_kind_of(nodes, roots[i]) is None) by {}
    let pc = ImpactRisk::PublicContract;
    if roots_raise(nodes, roots, pc) {
        let i = choose|i: int| 0 <= i < roots.len() && #[trigger] root_risk(node_kind_of(nodes, roots[i]), pc);
        assert(root_risk(node_kind_of(nodes, roots[i]), pc));
    }
    if exists|i: int|
        0 <= i < roots.len() && (#[trigger] node_kind_of(nodes, roots[i]) == Some(IdentityKind::Contract)
            || node_kind_of(nodes, roots[i]) == Some(IdentityKind::Function) || node_kind_of(nodes, roots[i])
            == Some(IdentityKind::FiniteType) || node_kind_of(nodes, roots[i]) == Some(IdentityKind::RecordType)
            || node_kind_of(nodes, roots[i]) == Some(IdentityKind::RecordField)) {
        let i = choose|i: int|
            0 <= i < roots.len() && (#[trigger] node_kind_of(nodes, roots[i]) == Some(IdentityKind::Contract)
                || node_kind_of(nodes, roots[i]) == Some(IdentityKind::Function) || node_kind_of(nodes, roots[i])
                == Some(IdentityKind::FiniteType) || node_kind_of(nodes, roots[i]) == Some(IdentityKind::RecordType)
                || node_kind_of(nodes, roots[i]) == Some(IdentityKind::RecordField));
        assert(root_risk(node_kind_of(nodes, roots[i]), pc));
    }
    let ab = ImpactRisk::AbiBoundary;
    if roots_raise(nodes, roots, ab) {
        let i = choose|i: int| 0 <= i < roots.len() && #[trigger] root_risk(node_kind_of(nodes, roots[i]), ab);
        assert(root_risk(node_kind_of(nodes, roots[i]), ab));
    }
    if exists|i: int|
        0 <= i < roots.len() && (#[trigger] node_kind_of(nodes, roots[i]) == Some(IdentityKind::Requirement)
            || node_kind_of(nodes, roots[i]) == Some(IdentityKind::Obligation)) {
        let i = choose|i: int|
            0 <= i < roots.len() && (#[trigger] node_kind_of(nodes, roots[i]) == Some(IdentityKind::Requirement)
                || node_kind_of(nodes, roots[i]) == Some(IdentityKind::Obligation));
        assert(root_risk(node_kind_of(nodes, roots[i]), ab));
    }
    let ur = ImpactRisk::UnknownRoot;
    if roots_raise(nodes, roots, ur) {
        let i = choose|i: int| 0 <= i < roots.len() && #[trigger] root_risk(node_kind_of(nodes, roots[i]), ur);
        assert(root_risk(node_kind_of(nodes, roots[i]), ur));
    }
    if exists|i: int| 0 <= i < roots.len() && #[trigger] node_kind_of(nodes, roots[i]) is None {
        let i = choose|i: int| 0 <= i < roots.len() && #[trigger] node_kind_of(nodes, roots[i]) is None;
        assert(root_risk(node_kind_of(nodes, roots[i]), ur));
    }
    assert forall|i: int| 0 <= i < roots.len() implies !#[trigger] root_risk(node_kind_of(nodes, roots[i]), ImpactRisk::SharedType) by {}
    assert forall|i: int| 0 <= i < roots.len() implies !#[trigger] root_risk(node_kind_of(nodes, roots[i]), ImpactRisk::HighConnectivity) by {}
    assert forall|i: int| 0 <= i < roots.len() implies !#[trigger] root_risk(node_kind_of(nodes, roots[i]), ImpactRisk::Truncated) by {}
}

} // verus!
