//! The semantic graph: identities as nodes, semantic dependencies as edges,
//! and the evidence invalidation and impact projections computed over it.

use vstd::prelude::*;
use vstd::string::*;

use crate::identity::{
    id_views, sorted_unique_ids, strictly_sorted, IdentityKind, SemanticId,
};
use crate::text::{lemma_seq_lt_asymmetric, lemma_seq_lt_total, lemma_seq_lt_transitive, seq_lt};

verus! {

#[derive(Debug, Clone, Copy, PartialEq, Eq, PartialOrd, Ord, Structural)]
pub enum EdgeKind {
    ContainsFiniteType,
    ContainsFiniteVariant,
    ContainsFunction,
    ContainsBody,
    ContainsIteration,
    IterationContainsBlock,
    CarriesValue,
    ContainsBlock,
    ContainsOperation,
    ContainsValue,
    OwnsContract,
    DeclaresEffect,
    DeclaresCapability,
    RequiresCapability,
    ConsumesAssumption,
    SupportsProperty,
    HasSubject,
    DependsOn,
    ConsumesValue,
    ProducesValue,
    PerformsEffect,
    UsesCapability,
    Calls,
    ConstructsVariant,
    TestsVariant,
    RequiresObligation,
    EstablishesFact,
    ReferencesContract,
    TransitionsTo,
    ContainsTest,
    ContainsTestCase,
}

/// The position of an edge kind in its declared order (the derived `Ord`).
pub open spec fn edge_rank(kind: EdgeKind) -> int {
    match kind {
        EdgeKind::ContainsFiniteType => 0,
        EdgeKind::ContainsFiniteVariant => 1,
        EdgeKind::ContainsFunction => 2,
        EdgeKind::ContainsBody => 3,
        EdgeKind::ContainsIteration => 4,
        EdgeKind::IterationContainsBlock => 5,
        EdgeKind::CarriesValue => 6,
        EdgeKind::ContainsBlock => 7,
        EdgeKind::ContainsOperation => 8,
        EdgeKind::ContainsValue => 9,
        EdgeKind::OwnsContract => 10,
        EdgeKind::DeclaresEffect => 11,
        EdgeKind::DeclaresCapability => 12,
        EdgeKind::RequiresCapability => 13,
        EdgeKind::ConsumesAssumption => 14,
        EdgeKind::SupportsProperty => 15,
        EdgeKind::HasSubject => 16,
        EdgeKind::DependsOn => 17,
        EdgeKind::ConsumesValue => 18,
        EdgeKind::ProducesValue => 19,
        EdgeKind::PerformsEffect => 20,
        EdgeKind::UsesCapability => 21,
        EdgeKind::Calls => 22,
        EdgeKind::ConstructsVariant => 23,
        EdgeKind::TestsVariant => 24,
        EdgeKind::RequiresObligation => 25,
        EdgeKind::EstablishesFact => 26,
        EdgeKind::ReferencesContract => 27,
        EdgeKind::TransitionsTo => 28,
        EdgeKind::ContainsTest => 29,
        EdgeKind::ContainsTestCase => 30,
    }
}

impl EdgeKind {
    /// The position of this kind in its declared order.
    pub fn rank(self) -> (r: u8)
        ensures
            r == edge_rank(self),
    {
        match self {
            EdgeKind::ContainsFiniteType => 0,
            EdgeKind::ContainsFiniteVariant => 1,
            EdgeKind::ContainsFunction => 2,
            EdgeKind::ContainsBody => 3,
            EdgeKind::ContainsIteration => 4,
            EdgeKind::IterationContainsBlock => 5,
            EdgeKind::CarriesValue => 6,
            EdgeKind::ContainsBlock => 7,
            EdgeKind::ContainsOperation => 8,
            EdgeKind::ContainsValue => 9,
            EdgeKind::OwnsContract => 10,
            EdgeKind::DeclaresEffect => 11,
            EdgeKind::DeclaresCapability => 12,
            EdgeKind::RequiresCapability => 13,
            EdgeKind::ConsumesAssumption => 14,
            EdgeKind::SupportsProperty => 15,
            EdgeKind::HasSubject => 16,
            EdgeKind::DependsOn => 17,
            EdgeKind::ConsumesValue => 18,
            EdgeKind::ProducesValue => 19,
            EdgeKind::PerformsEffect => 20,
            EdgeKind::UsesCapability => 21,
            EdgeKind::Calls => 22,
            EdgeKind::ConstructsVariant => 23,
            EdgeKind::TestsVariant => 24,
            EdgeKind::RequiresObligation => 25,
            EdgeKind::EstablishesFact => 26,
            EdgeKind::ReferencesContract => 27,
            EdgeKind::TransitionsTo => 28,
            EdgeKind::ContainsTest => 29,
            EdgeKind::ContainsTestCase => 30,
        }
    }
}


#[derive(Debug, Clone, PartialEq, Eq)]
pub struct GraphNode {
    pub identity: SemanticId,
    pub kind: IdentityKind,
    pub fingerprint: String,
}

#[derive(Debug, Clone, PartialEq, Eq)]
pub struct GraphEdge {
    pub from: SemanticId,
    pub to: SemanticId,
    pub kind: EdgeKind,
}

#[derive(Debug, Clone, PartialEq, Eq)]
pub struct SemanticGraph {
    pub schema_version: String,
    pub nodes: Vec<GraphNode>,
    pub edges: Vec<GraphEdge>,
}

#[derive(Debug, Clone, PartialEq, Eq)]
pub struct InvalidationReport {
    pub changed: Vec<SemanticId>,
    pub invalidated_evidence: Vec<SemanticId>,
    pub reasons: Vec<InvalidationReason>,
}

#[derive(Debug, Clone, PartialEq, Eq)]
pub struct InvalidationReason {
    pub evidence: SemanticId,
    pub dependency: SemanticId,
    pub edge: EdgeKind,
}

/// An edge as its endpoint texts and kind position.
pub open spec fn edge_view(e: GraphEdge) -> (Seq<char>, Seq<char>, int) {
    (e.from.0@, e.to.0@, edge_rank(e.kind))
}

pub open spec fn edge_views(s: Seq<GraphEdge>) -> Seq<(Seq<char>, Seq<char>, int)> {
    s.map_values(|e: GraphEdge| edge_view(e))
}

/// Edges order by source, then target, then kind.
pub open spec fn edge_lt(a: (Seq<char>, Seq<char>, int), b: (Seq<char>, Seq<char>, int)) -> bool {
    seq_lt(a.0, b.0) || (a.0 == b.0 && (seq_lt(a.1, b.1) || (a.1 == b.1 && a.2 < b.2)))
}

/// No edge is strictly below an earlier one.
pub open spec fn edges_sorted(s: Seq<(Seq<char>, Seq<char>, int)>) -> bool {
    forall|i: int, k: int| 0 <= i < k < s.len() ==> !edge_lt(#[trigger] s[k], #[trigger] s[i])
}

proof fn lemma_edge_lt_asymmetric(a: (Seq<char>, Seq<char>, int), b: (Seq<char>, Seq<char>, int))
    ensures
        !(edge_lt(a, b) && edge_lt(b, a)),
{
    lemma_seq_lt_asymmetric(a.0, b.0);
    lemma_seq_lt_asymmetric(a.1, b.1);
    lemma_seq_lt_asymmetric(a.0, a.0);
    lemma_seq_lt_asymmetric(a.1, a.1);
}

proof fn lemma_edge_lt_transitive(a: (Seq<char>, Seq<char>, int), b: (Seq<char>, Seq<char>, int), c: (Seq<char>, Seq<char>, int))
    requires
        edge_lt(a, b),
        edge_lt(b, c),
    ensures
        edge_lt(a, c),
{
    if seq_lt(a.0, b.0) && seq_lt(b.0, c.0) {
        lemma_seq_lt_transitive(a.0, b.0, c.0);
    }
    if a.0 == b.0 && b.0 == c.0 && seq_lt(a.1, b.1) && seq_lt(b.1, c.1) {
        lemma_seq_lt_transitive(a.1, b.1, c.1);
    }
}

proof fn lemma_edge_lt_total(a: (Seq<char>, Seq<char>, int), b: (Seq<char>, Seq<char>, int))
    requires
        a != b,
    ensures
        edge_lt(a, b) || edge_lt(b, a),
{
    if a.0 != b.0 {
        lemma_seq_lt_total(a.0, b.0);
    } else if a.1 != b.1 {
        lemma_seq_lt_total(a.1, b.1);
    }
}

fn edge_less(a: &GraphEdge, b: &GraphEdge) -> (r: bool)
    ensures
        r == edge_lt(edge_view(*a), edge_view(*b)),
{
    if a.from.precedes(&b.from) {
        return true;
    }
    if !a.from.same(&b.from) {
        return false;
    }
    if a.to.precedes(&b.to) {
        return true;
    }
    a.to.same(&b.to) && a.kind.rank() < b.kind.rank()
}

pub(crate) fn copy_edge(e: &GraphEdge) -> (r: GraphEdge)
    ensures
        edge_view(r) == edge_view(*e),
        r.kind == e.kind,
{
    GraphEdge { from: e.from.duplicate(), to: e.to.duplicate(), kind: e.kind }
}

/// The edges in canonical (sorted) order.
pub(crate) fn sort_edges(edges: &Vec<GraphEdge>) -> (r: Vec<GraphEdge>)
    ensures
        edges_sorted(edge_views(r@)),
        edge_views(r@).to_multiset() == edge_views(edges@).to_multiset(),
{
    let mut out: Vec<GraphEdge> = Vec::new();
    let mut i: usize = 0;
    assert(edge_views(out@) =~= edge_views(edges@.subrange(0, 0)));
    while i < edges.len()
        invariant
            i <= edges@.len(),
            edges_sorted(edge_views(out@)),
            edge_views(out@).to_multiset() == edge_views(edges@.subrange(0, i as int)).to_multiset(),
        decreases edges@.len() - i,
    {
        let x = copy_edge(&edges[i]);
        let ghost xv = edge_view(x);
        let mut j: usize = 0;
        while j < out.len() && !edge_less(&x, &out[j])
            invariant
                j <= out@.len(),
                xv == edge_view(x),
                forall|k: int| 0 <= k < j ==> !edge_lt(xv, #[trigger] edge_views(out@)[k]),
            decreases out@.len() - j,
        {
            j = j + 1;
        }
        let ghost ov = edge_views(out@);
        out.insert(j, x);
        proof {
            let nv = edge_views(out@);
            assert(nv =~= ov.insert(j as int, xv));
            assert forall|a: int, b: int| 0 <= a < b < nv.len() implies !edge_lt(#[trigger] nv[b], #[trigger] nv[a]) by {
                if a < j && b > j {
                    assert(nv[b] == ov[b - 1]);
                } else if a == j && b > j {
                    let y = ov[b - 1];
                    assert(nv[b] == y);
                    assert(edge_lt(xv, ov[j as int]));
                    if b - 1 != j {
                        assert(!edge_lt(ov[b - 1], ov[j as int]));
                        if y != ov[j as int] {
                            lemma_edge_lt_total(y, ov[j as int]);
                            lemma_edge_lt_transitive(xv, ov[j as int], y);
                        }
                    }
                    lemma_edge_lt_asymmetric(xv, y);
                } else if a > j {
                    assert(nv[a] == ov[a - 1]);
                    assert(nv[b] == ov[b - 1]);
                }
            }
            vstd::seq_lib::to_multiset_insert(ov, j as int, xv);
            assert(edge_views(edges@.subrange(0, i as int + 1)) =~= edge_views(edges@.subrange(0, i as int)).push(edge_view(edges@[i as int])));
            vstd::seq_lib::to_multiset_build(edge_views(edges@.subrange(0, i as int)), xv);
        }
        i = i + 1;
    }
    assert(edges@.subrange(0, i as int) =~= edges@);
    out
}

/// `identity` names an evidence node of the graph.
pub open spec fn is_evidence_node(nodes: Seq<GraphNode>, identity: Seq<char>) -> bool {
    exists|i: int| 0 <= i < nodes.len() && (#[trigger] nodes[i]).identity.0@ == identity && nodes[i].kind == IdentityKind::Evidence
}

/// A dependency edge from evidence to a changed identity.
pub open spec fn invalidating(nodes: Seq<GraphNode>, changed: Seq<Seq<char>>, e: GraphEdge) -> bool {
    (e.kind == EdgeKind::SupportsProperty || e.kind == EdgeKind::HasSubject || e.kind == EdgeKind::DependsOn)
        && changed.contains(e.to.0@) && is_evidence_node(nodes, e.from.0@)
}

pub(crate) fn contains_id(ids: &[SemanticId], identity: &SemanticId) -> (r: bool)
    ensures
        r == id_views(ids@).contains(identity.0@),
{
    let mut i: usize = 0;
    while i < ids.len()
        invariant
            i <= ids@.len(),
            forall|k: int| 0 <= k < i ==> ids@[k].0@ != identity.0@,
        decreases ids@.len() - i,
    {
        if ids[i].same(identity) {
            assert(id_views(ids@)[i as int] == identity.0@);
            return true;
        }
        i = i + 1;
    }
    proof {
        if id_views(ids@).contains(identity.0@) {
            let k = choose|k: int| 0 <= k < id_views(ids@).len() && id_views(ids@)[k] == identity.0@;
            assert(ids@[k].0@ == identity.0@);
        }
    }
    false
}

pub(crate) fn copy_ids(ids: &[SemanticId]) -> (r: Vec<SemanticId>)
    ensures
        id_views(r@) == id_views(ids@),
{
    let mut out: Vec<SemanticId> = Vec::new();
    let mut i: usize = 0;
    while i < ids.len()
        invariant
            i <= ids@.len(),
            out@.len() == i,
            forall|k: int| 0 <= k < i ==> (#[trigger] out@[k]).0@ == ids@[k].0@,
        decreases ids@.len() - i,
    {
        out.push(ids[i].duplicate());
        i = i + 1;
    }
    assert(id_views(out@) =~= id_views(ids@));
    out
}

/// Some listed edge leaves `t`.
pub open spec fn has_source(s: Seq<GraphEdge>, t: Seq<char>) -> bool {
    exists|k: int| 0 <= k < s.len() && (#[trigger] s[k]).from.0@ == t
}

/// Some invalidating edge among the first `n` leaves `t`.
pub open spec fn invalidated_source(nodes: Seq<GraphNode>, changed: Seq<Seq<char>>, edges: Seq<GraphEdge>, n: int, t: Seq<char>) -> bool {
    exists|m: int| 0 <= m < n && invalidating(nodes, changed, #[trigger] edges[m]) && edges[m].from.0@ == t
}

pub open spec fn reason_view(r: InvalidationReason) -> (Seq<char>, Seq<char>, int) {
    (r.evidence.0@, r.dependency.0@, edge_rank(r.edge))
}

impl SemanticGraph {
    fn is_evidence(&self, identity: &SemanticId) -> (r: bool)
        ensures
            r == is_evidence_node(self.nodes@, identity.0@),
    {
        let mut i: usize = 0;
        while i < self.nodes.len()
            invariant
                i <= self.nodes@.len(),
                forall|k: int| 0 <= k < i ==> !((#[trigger] self.nodes@[k]).identity.0@ == identity.0@ && self.nodes@[k].kind
                    == IdentityKind::Evidence),
            decreases self.nodes@.len() - i,
        {
            if self.nodes[i].identity.same(identity) && self.nodes[i].kind == IdentityKind::Evidence {
                return true;
            }
            i = i + 1;
        }
        false
    }

    /// The evidence invalidated by a set of changed identities: every
    /// support, subject or dependency edge from an evidence node to a changed
    /// identity is a reason, in canonical order, and the invalidated
    /// evidence is the sorted set of their sources.
    pub fn invalidate(&self, changed: &[SemanticId]) -> (r: InvalidationReport)
        ensures
            id_views(r.changed@) == id_views(changed@),
            edges_sorted(r.reasons@.map_values(|x: InvalidationReason| reason_view(x))),
            r.reasons@.map_values(|x: InvalidationReason| reason_view(x)).to_multiset() == edge_views(
                self.edges@.filter(|e: GraphEdge| invalidating(self.nodes@, id_views(changed@), e)),
            ).to_multiset(),
            strictly_sorted(id_views(r.invalidated_evidence@)),
            forall|t: Seq<char>|
                id_views(r.invalidated_evidence@).contains(t) <==> invalidated_source(
                    self.nodes@,
                    id_views(changed@),
                    self.edges@,
                    self.edges@.len() as int,
                    t,
                ),
    {
        let ghost cv = id_views(changed@);
        let ghost pred = |e: GraphEdge| invalidating(self.nodes@, cv, e);
        let mut selected: Vec<GraphEdge> = Vec::new();
        let mut i: usize = 0;
        assert(self.edges@.subrange(0, 0).filter(pred) =~= Seq::<GraphEdge>::empty()) by {
            reveal(Seq::filter);
        }
        while i < self.edges.len()
            invariant
                i <= self.edges@.len(),
                cv == id_views(changed@),
                pred == (|e: GraphEdge| invalidating(self.nodes@, cv, e)),
                edge_views(selected@) == edge_views(self.edges@.subrange(0, i as int).filter(pred)),
                forall|k: int| 0 <= k < selected@.len() ==> invalidating(self.nodes@, cv, #[trigger] selected@[k]),
                forall|t: Seq<char>| #[trigger] has_source(selected@, t) <==> invalidated_source(self.nodes@, cv, self.edges@, i as int, t),
            decreases self.edges@.len() - i,
        {
            let edge = &self.edges[i];
            let dependency_edge = edge.kind == EdgeKind::SupportsProperty || edge.kind == EdgeKind::HasSubject || edge.kind
                == EdgeKind::DependsOn;
            let keep = dependency_edge && contains_id(changed, &edge.to) && self.is_evidence(&edge.from);
            let ghost before = selected@;
            proof {
                reveal(Seq::filter);
                assert(self.edges@.subrange(0, i as int + 1).drop_last() =~= self.edges@.subrange(0, i as int));
                assert(self.edges@.subrange(0, i as int + 1).last() == self.edges@[i as int]);
                assert(pred(self.edges@[i as int]) == keep);
            }
            let ghost prefix = self.edges@.subrange(0, i as int).filter(pred);
            if keep {
                let copied = copy_edge(edge);
                selected.push(copied);
                proof {
                    reveal(Seq::filter);
                    assert(self.edges@.subrange(0, i as int + 1).filter(pred) == prefix.push(self.edges@[i as int]));
                    assert(edge_views(prefix.push(self.edges@[i as int])) =~= edge_views(prefix).push(edge_view(self.edges@[i as int])));
                    assert(edge_views(before.push(copied)) =~= edge_views(before).push(edge_view(copied)));
                }
                assert(edge_views(selected@) =~= edge_views(self.edges@.subrange(0, i as int + 1).filter(pred)));
                assert forall|t: Seq<char>| #[trigger] has_source(selected@, t) <==> invalidated_source(self.nodes@, cv, self.edges@, i + 1, t) by {
                    if has_source(selected@, t) {
                        let k = choose|k: int| 0 <= k < selected@.len() && (#[trigger] selected@[k]).from.0@ == t;
                        if k < before.len() {
                            assert(before[k] == selected@[k]);
                            assert(has_source(before, t));
                            let m = choose|m: int| 0 <= m < i && invalidating(self.nodes@, cv, #[trigger] self.edges@[m]) && self.edges@[m].from.0@ == t;
                            assert(invalidating(self.nodes@, cv, self.edges@[m]));
                        } else {
                            assert(self.edges@[i as int].from.0@ == t);
                        }
                    }
                    if invalidated_source(self.nodes@, cv, self.edges@, i + 1, t) {
                        let m = choose|m: int| 0 <= m < i + 1 && invalidating(self.nodes@, cv, #[trigger] self.edges@[m]) && self.edges@[m].from.0@ == t;
                        if m < i {
                            assert(invalidated_source(self.nodes@, cv, self.edges@, i as int, t));
                            assert(has_source(before, t));
                            let k = choose|k: int| 0 <= k < before.len() && (#[trigger] before[k]).from.0@ == t;
                            assert(selected@[k] == before[k]);
                        } else {
                            assert(selected@[before.len() as int].from.0@ == t);
                        }
                    }
                }
            } else {
                assert(edge_views(selected@) =~= edge_views(self.edges@.subrange(0, i as int + 1).filter(pred)));
                assert forall|t: Seq<char>| #[trigger] has_source(selected@, t) <==> invalidated_source(self.nodes@, cv, self.edges@, i + 1, t) by {
                    if invalidated_source(self.nodes@, cv, self.edges@, i + 1, t) {
                        let m = choose|m: int| 0 <= m < i + 1 && invalidating(self.nodes@, cv, #[trigger] self.edges@[m]) && self.edges@[m].from.0@ == t;
                        assert(invalidated_source(self.nodes@, cv, self.edges@, i as int, t));
                    }
                    if has_source(selected@, t) {
                        let m = choose|m: int| 0 <= m < i && invalidating(self.nodes@, cv, #[trigger] self.edges@[m]) && self.edges@[m].from.0@ == t;
                        assert(invalidating(self.nodes@, cv, self.edges@[m]));
                    }
                }
            }
            i = i + 1;
        }
        assert(self.edges@.subrange(0, i as int) =~= self.edges@);
        let sorted = sort_edges(&selected);
        let mut reasons: Vec<InvalidationReason> = Vec::new();
        let mut sources: Vec<SemanticId> = Vec::new();
        let mut k: usize = 0;
        while k < sorted.len()
            invariant
                k <= sorted@.len(),
                reasons@.len() == k,
                sources@.len() == k,
                forall|q: int| 0 <= q < k ==> reason_view(#[trigger] reasons@[q]) == edge_view(sorted@[q]),
                forall|q: int| 0 <= q < k ==> (#[trigger] sources@[q]).0@ == sorted@[q].from.0@,
            decreases sorted@.len() - k,
        {
            reasons.push(InvalidationReason {
                evidence: sorted[k].from.duplicate(),
                dependency: sorted[k].to.duplicate(),
                edge: sorted[k].kind,
            });
            sources.push(sorted[k].from.duplicate());
            k = k + 1;
        }
        assert(reasons@.map_values(|x: InvalidationReason| reason_view(x)) =~= edge_views(sorted@));
        let invalidated_evidence = sorted_unique_ids(&sources);
        proof {
            assert forall|t: Seq<char>|
                id_views(sources@).contains(t) <==> #[trigger] invalidated_source(self.nodes@, cv, self.edges@, self.edges@.len() as int, t) by {
                if id_views(sources@).contains(t) {
                    let q = choose|q: int| 0 <= q < id_views(sources@).len() && id_views(sources@)[q] == t;
                    assert(sources@[q].0@ == sorted@[q].from.0@);
                    assert(edge_views(sorted@)[q].0 == t);
                    assert(edge_views(sorted@).to_multiset().count(edge_views(sorted@)[q]) > 0) by {
                        vstd::seq_lib::to_multiset_contains(edge_views(sorted@), edge_views(sorted@)[q]);
                    }
                    vstd::seq_lib::to_multiset_contains(edge_views(selected@), edge_views(sorted@)[q]);
                    let w = choose|w: int| 0 <= w < edge_views(selected@).len() && edge_views(selected@)[w] == edge_views(sorted@)[q];
                    assert(selected@[w].from.0@ == t);
                    assert(has_source(selected@, t));
                }
                if invalidated_source(self.nodes@, cv, self.edges@, self.edges@.len() as int, t) {
                    assert(has_source(selected@, t));
                    let w = choose|w: int| 0 <= w < selected@.len() && (#[trigger] selected@[w]).from.0@ == t;
                    vstd::seq_lib::to_multiset_contains(edge_views(selected@), edge_views(selected@)[w]);
                    vstd::seq_lib::to_multiset_contains(edge_views(sorted@), edge_views(selected@)[w]);
                    let q = choose|q: int| 0 <= q < edge_views(sorted@).len() && edge_views(sorted@)[q] == edge_views(selected@)[w];
                    assert(id_views(sources@)[q] == t);
                }
            }
        }
        InvalidationReport { changed: copy_ids(changed), invalidated_evidence, reasons }
    }
}


/// `identity` names a node of the graph.
pub open spec fn is_node(nodes: Seq<GraphNode>, identity: Seq<char>) -> bool {
    exists|i: int| 0 <= i < nodes.len() && (#[trigger] nodes[i]).identity.0@ == identity
}

impl SemanticGraph {
    pub(crate) fn has_node(&self, identity: &SemanticId) -> (r: bool)
        ensures
            r == is_node(self.nodes@, identity.0@),
    {
        let mut i: usize = 0;
        while i < self.nodes.len()
            invariant
                i <= self.nodes@.len(),
                forall|k: int| 0 <= k < i ==> (#[trigger] self.nodes@[k]).identity.0@ != identity.0@,
            decreases self.nodes@.len() - i,
        {
            if self.nodes[i].identity.same(identity) {
                return true;
            }
            i = i + 1;
        }
        false
    }
}

} // verus!
