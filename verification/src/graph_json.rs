//! The compact JSON form of a semantic graph, the serialization its
//! identity is the digest of.

use vstd::prelude::*;
use vstd::string::*;

use crate::digest::{sha256_hex, sha256_hex_of};
use crate::graph::{EdgeKind, GraphEdge, GraphNode, SemanticGraph};
use crate::identity::IdentityKind;
use crate::machine_intent::{json_string, push_json_string};

verus! {

/// The snake-case name an identity kind serializes as.
pub open spec fn identity_kind_name(kind: IdentityKind) -> Seq<char> {
    match kind {
        IdentityKind::Program => "program"@,
        IdentityKind::Module => "module"@,
        IdentityKind::FiniteType => "finite_type"@,
        IdentityKind::FiniteVariant => "finite_variant"@,
        IdentityKind::RecordType => "record_type"@,
        IdentityKind::RecordField => "record_field"@,
        IdentityKind::Function => "function"@,
        IdentityKind::Contract => "contract"@,
        IdentityKind::Assumption => "assumption"@,
        IdentityKind::Effect => "effect"@,
        IdentityKind::Capability => "capability"@,
        IdentityKind::Evidence => "evidence"@,
        IdentityKind::Body => "body"@,
        IdentityKind::Iteration => "iteration"@,
        IdentityKind::Block => "block"@,
        IdentityKind::Operation => "operation"@,
        IdentityKind::Value => "value"@,
        IdentityKind::RuntimeCheck => "runtime_check"@,
        IdentityKind::MachineIntent => "machine_intent"@,
        IdentityKind::Fact => "fact"@,
        IdentityKind::Requirement => "requirement"@,
        IdentityKind::Obligation => "obligation"@,
        IdentityKind::Realization => "realization"@,
        IdentityKind::Transformation => "transformation"@,
        IdentityKind::TestCase => "test_case"@,
    }
}

/// The snake-case name an edge kind serializes as.
pub open spec fn edge_kind_name(kind: EdgeKind) -> Seq<char> {
    match kind {
        EdgeKind::ContainsFiniteType => "contains_finite_type"@,
        EdgeKind::ContainsFiniteVariant => "contains_finite_variant"@,
        EdgeKind::ContainsFunction => "contains_function"@,
        EdgeKind::ContainsBody => "contains_body"@,
        EdgeKind::ContainsIteration => "contains_iteration"@,
        EdgeKind::IterationContainsBlock => "iteration_contains_block"@,
        EdgeKind::CarriesValue => "carries_value"@,
        EdgeKind::ContainsBlock => "contains_block"@,
        EdgeKind::ContainsOperation => "contains_operation"@,
        EdgeKind::ContainsValue => "contains_value"@,
        EdgeKind::OwnsContract => "owns_contract"@,
        EdgeKind::DeclaresEffect => "declares_effect"@,
        EdgeKind::DeclaresCapability => "declares_capability"@,
        EdgeKind::RequiresCapability => "requires_capability"@,
        EdgeKind::ConsumesAssumption => "consumes_assumption"@,
        EdgeKind::SupportsProperty => "supports_property"@,
        EdgeKind::HasSubject => "has_subject"@,
        EdgeKind::DependsOn => "depends_on"@,
        EdgeKind::ConsumesValue => "consumes_value"@,
        EdgeKind::ProducesValue => "produces_value"@,
        EdgeKind::PerformsEffect => "performs_effect"@,
        EdgeKind::UsesCapability => "uses_capability"@,
        EdgeKind::Calls => "calls"@,
        EdgeKind::ConstructsVariant => "constructs_variant"@,
        EdgeKind::TestsVariant => "tests_variant"@,
        EdgeKind::RequiresObligation => "requires_obligation"@,
        EdgeKind::EstablishesFact => "establishes_fact"@,
        EdgeKind::ReferencesContract => "references_contract"@,
        EdgeKind::TransitionsTo => "transitions_to"@,
        EdgeKind::ContainsTest => "contains_test"@,
        EdgeKind::ContainsTestCase => "contains_test_case"@,
    }
}

fn identity_kind_text(kind: IdentityKind) -> (r: &'static str)
    ensures
        r@ == identity_kind_name(kind),
{
    match kind {
        IdentityKind::Program => "program",
        IdentityKind::Module => "module",
        IdentityKind::FiniteType => "finite_type",
        IdentityKind::FiniteVariant => "finite_variant",
        IdentityKind::RecordType => "record_type",
        IdentityKind::RecordField => "record_field",
        IdentityKind::Function => "function",
        IdentityKind::Contract => "contract",
        IdentityKind::Assumption => "assumption",
        IdentityKind::Effect => "effect",
        IdentityKind::Capability => "capability",
        IdentityKind::Evidence => "evidence",
        IdentityKind::Body => "body",
        IdentityKind::Iteration => "iteration",
        IdentityKind::Block => "block",
        IdentityKind::Operation => "operation",
        IdentityKind::Value => "value",
        IdentityKind::RuntimeCheck => "runtime_check",
        IdentityKind::MachineIntent => "machine_intent",
        IdentityKind::Fact => "fact",
        IdentityKind::Requirement => "requirement",
        IdentityKind::Obligation => "obligation",
        IdentityKind::Realization => "realization",
        IdentityKind::Transformation => "transformation",
        IdentityKind::TestCase => "test_case",
    }
}

fn edge_kind_text(kind: EdgeKind) -> (r: &'static str)
    ensures
        r@ == edge_kind_name(kind),
{
    match kind {
        EdgeKind::ContainsFiniteType => "contains_finite_type",
        EdgeKind::ContainsFiniteVariant => "contains_finite_variant",
        EdgeKind::ContainsFunction => "contains_function",
        EdgeKind::ContainsBody => "contains_body",
        EdgeKind::ContainsIteration => "contains_iteration",
        EdgeKind::IterationContainsBlock => "iteration_contains_block",
        EdgeKind::CarriesValue => "carries_value",
        EdgeKind::ContainsBlock => "contains_block",
        EdgeKind::ContainsOperation => "contains_operation",
        EdgeKind::ContainsValue => "contains_value",
        EdgeKind::OwnsContract => "owns_contract",
        EdgeKind::DeclaresEffect => "declares_effect",
        EdgeKind::DeclaresCapability => "declares_capability",
        EdgeKind::RequiresCapability => "requires_capability",
        EdgeKind::ConsumesAssumption => "consumes_assumption",
        EdgeKind::SupportsProperty => "supports_property",
        EdgeKind::HasSubject => "has_subject",
        EdgeKind::DependsOn => "depends_on",
        EdgeKind::ConsumesValue => "consumes_value",
        EdgeKind::ProducesValue => "produces_value",
        EdgeKind::PerformsEffect => "performs_effect",
        EdgeKind::UsesCapability => "uses_capability",
        EdgeKind::Calls => "calls",
        EdgeKind::ConstructsVariant => "constructs_variant",
        EdgeKind::TestsVariant => "tests_variant",
        EdgeKind::RequiresObligation => "requires_obligation",
        EdgeKind::EstablishesFact => "establishes_fact",
        EdgeKind::ReferencesContract => "references_contract",
        EdgeKind::TransitionsTo => "transitions_to",
        EdgeKind::ContainsTest => "contains_test",
        EdgeKind::ContainsTestCase => "contains_test_case",
    }
}

/// A node as a JSON object, its fields in declaration order.
pub open spec fn node_json(n: GraphNode) -> Seq<char> {
    "{\"identity\":"@ + json_string(n.identity.0@) + ",\"kind\":\""@ + identity_kind_name(n.kind) + "\",\"fingerprint\":"@
        + json_string(n.fingerprint@) + "}"@
}

/// An edge as a JSON object, its fields in declaration order.
pub open spec fn edge_json(e: GraphEdge) -> Seq<char> {
    "{\"from\":"@ + json_string(e.from.0@) + ",\"to\":"@ + json_string(e.to.0@) + ",\"kind\":\""@ + edge_kind_name(e.kind)
        + "\"}"@
}

/// The items of a JSON array, separated by commas.
pub open spec fn comma_joined(items: Seq<Seq<char>>) -> Seq<char>
    decreases items.len(),
{
    if items.len() == 0 {
        seq![]
    } else if items.len() == 1 {
        items[0]
    } else {
        comma_joined(items.drop_last()) + ","@ + items.last()
    }
}

pub open spec fn nodes_json(nodes: Seq<GraphNode>) -> Seq<char> {
    "["@ + comma_joined(nodes.map_values(|n: GraphNode| node_json(n))) + "]"@
}

pub open spec fn edges_json(edges: Seq<GraphEdge>) -> Seq<char> {
    "["@ + comma_joined(edges.map_values(|e: GraphEdge| edge_json(e))) + "]"@
}

/// The graph as compact JSON: `schema_version`, `nodes` and `edges`, in
/// that order, identities as plain strings and kinds by their snake-case
/// names.
pub open spec fn graph_json(g: SemanticGraph) -> Seq<char> {
    "{\"schema_version\":"@ + json_string(g.schema_version@) + ",\"nodes\":"@ + nodes_json(g.nodes@) + ",\"edges\":"@
        + edges_json(g.edges@) + "}"@
}

/// The graph's identity: the SHA-256 digest of its compact JSON.
pub open spec fn graph_identity_of(g: SemanticGraph) -> Seq<char> {
    sha256_hex_of(vstd::utf8::encode_utf8(graph_json(g)))
}

proof fn lemma_joined_step(items: Seq<Seq<char>>, i: int)
    requires
        0 <= i < items.len(),
    ensures
        comma_joined(items.take(i + 1)) == (if i == 0 { items[0] } else { comma_joined(items.take(i)) + ","@ + items[i] }),
{
    assert(items.take(i + 1).drop_last() =~= items.take(i));
}

fn push_node_json(out: &mut String, n: &GraphNode)
    ensures
        final(out)@ == old(out)@ + node_json(*n),
{
    out.append("{\"identity\":");
    push_json_string(out, n.identity.0.as_str());
    out.append(",\"kind\":\"");
    out.append(identity_kind_text(n.kind));
    out.append("\",\"fingerprint\":");
    push_json_string(out, n.fingerprint.as_str());
    out.append("}");
    assert(final(out)@ =~= old(out)@ + node_json(*n));
}

fn push_edge_json(out: &mut String, e: &GraphEdge)
    ensures
        final(out)@ == old(out)@ + edge_json(*e),
{
    out.append("{\"from\":");
    push_json_string(out, e.from.0.as_str());
    out.append(",\"to\":");
    push_json_string(out, e.to.0.as_str());
    out.append(",\"kind\":\"");
    out.append(edge_kind_text(e.kind));
    out.append("\"}");
    assert(final(out)@ =~= old(out)@ + edge_json(*e));
}

fn push_nodes_json(out: &mut String, nodes: &Vec<GraphNode>)
    ensures
        final(out)@ == old(out)@ + nodes_json(nodes@),
{
    let ghost start = out@;
    let ghost items = nodes@.map_values(|n: GraphNode| node_json(n));
    out.append("[");
    let mut i: usize = 0;
    while i < nodes.len()
        invariant
            i <= nodes.len(),
            items == nodes@.map_values(|n: GraphNode| node_json(n)),
            out@ == start + "["@ + comma_joined(items.take(i as int)),
        decreases nodes.len() - i,
    {
        if i > 0 {
            out.append(",");
        }
        push_node_json(out, &nodes[i]);
        proof {
            lemma_joined_step(items, i as int);
        }
        assert(out@ =~= start + "["@ + comma_joined(items.take(i + 1)));
        i = i + 1;
    }
    out.append("]");
    assert(items.take(nodes.len() as int) =~= items);
    assert(out@ =~= start + nodes_json(nodes@));
}

fn push_edges_json(out: &mut String, edges: &Vec<GraphEdge>)
    ensures
        final(out)@ == old(out)@ + edges_json(edges@),
{
    let ghost start = out@;
    let ghost items = edges@.map_values(|e: GraphEdge| edge_json(e));
    out.append("[");
    let mut i: usize = 0;
    while i < edges.len()
        invariant
            i <= edges.len(),
            items == edges@.map_values(|e: GraphEdge| edge_json(e)),
            out@ == start + "["@ + comma_joined(items.take(i as int)),
        decreases edges.len() - i,
    {
        if i > 0 {
            out.append(",");
        }
        push_edge_json(out, &edges[i]);
        proof {
            lemma_joined_step(items, i as int);
        }
        assert(out@ =~= start + "["@ + comma_joined(items.take(i + 1)));
        i = i + 1;
    }
    out.append("]");
    assert(items.take(edges.len() as int) =~= items);
    assert(out@ =~= start + edges_json(edges@));
}

impl SemanticGraph {
    /// The graph as compact JSON (see [`graph_json`]).
    pub fn canonical_json(&self) -> (r: String)
        ensures
            r@ == graph_json(*self),
    {
        let mut out = String::new();
        out.append("{\"schema_version\":");
        push_json_string(&mut out, self.schema_version.as_str());
        out.append(",\"nodes\":");
        push_nodes_json(&mut out, &self.nodes);
        out.append(",\"edges\":");
        push_edges_json(&mut out, &self.edges);
        out.append("}");
        assert(out@ =~= graph_json(*self));
        out
    }

    /// The graph's identity: the digest of its compact JSON.
    pub fn graph_identity(&self) -> (r: String)
        ensures
            r@ == graph_identity_of(*self),
    {
        let json = self.canonical_json();
        sha256_hex(json.as_str().as_bytes())
    }
}

} // verus!
