use mncs_model::{
    EdgeKind, GraphEdge, GraphNode, IdentityKind, ImpactRisk, InvalidationReason, SemanticGraph,
    SemanticId, SEMANTIC_IMPACT_SCHEMA_VERSION,
};

use sha2::Digest;

fn digest_of(text: &str) -> String {
    format!("{:x}", sha2::Sha256::digest(text.as_bytes()))
}

fn id(text: &str) -> SemanticId {
    SemanticId(text.to_owned())
}

fn node(identity: &str, kind: IdentityKind) -> GraphNode {
    GraphNode { identity: id(identity), kind, fingerprint: "f".to_owned() }
}

fn edge(from: &str, to: &str, kind: EdgeKind) -> GraphEdge {
    GraphEdge { from: id(from), to: id(to), kind }
}

fn evidence_graph() -> SemanticGraph {
    SemanticGraph {
        schema_version: "graph".to_owned(),
        nodes: vec![
            node("ev2", IdentityKind::Evidence),
            node("ev1", IdentityKind::Evidence),
            node("c1", IdentityKind::Contract),
            node("n1", IdentityKind::Function),
        ],
        edges: vec![
            edge("ev2", "c1", EdgeKind::HasSubject),
            edge("ev1", "c1", EdgeKind::SupportsProperty),
            edge("ev2", "x", EdgeKind::DependsOn),
            edge("n1", "c1", EdgeKind::DependsOn),
            edge("ev1", "c1", EdgeKind::Calls),
            edge("ev2", "c1", EdgeKind::DependsOn),
        ],
    }
}

#[test]
fn contract_change_invalidates_only_dependent_evidence() {
    let graph = evidence_graph();
    let report = graph.invalidate(&[id("c1")]);
    assert_eq!(report.changed, vec![id("c1")]);
    assert_eq!(report.invalidated_evidence, vec![id("ev1"), id("ev2")]);
    assert_eq!(
        report.reasons,
        vec![
            InvalidationReason { evidence: id("ev1"), dependency: id("c1"), edge: EdgeKind::SupportsProperty },
            InvalidationReason { evidence: id("ev2"), dependency: id("c1"), edge: EdgeKind::HasSubject },
            InvalidationReason { evidence: id("ev2"), dependency: id("c1"), edge: EdgeKind::DependsOn },
        ]
    );
}

#[test]
fn unrelated_changes_invalidate_nothing() {
    let graph = evidence_graph();
    let report = graph.invalidate(&[id("n1"), id("zzz")]);
    assert!(report.reasons.is_empty());
    assert!(report.invalidated_evidence.is_empty());
    assert_eq!(report.changed, vec![id("n1"), id("zzz")]);
    let other = graph.invalidate(&[id("x")]);
    assert_eq!(other.invalidated_evidence, vec![id("ev2")]);
}

fn impact_graph() -> SemanticGraph {
    SemanticGraph {
        schema_version: "graph".to_owned(),
        nodes: vec![
            node("c1", IdentityKind::Contract),
            node("f1", IdentityKind::Function),
            node("op", IdentityKind::Operation),
            node("t1", IdentityKind::Body),
            node("tc1", IdentityKind::TestCase),
            node("tc2", IdentityKind::Value),
        ],
        edges: vec![
            edge("f1", "c1", EdgeKind::OwnsContract),
            edge("op", "f1", EdgeKind::Calls),
            edge("f1", "t1", EdgeKind::ContainsTest),
            edge("t1", "tc1", EdgeKind::ContainsTestCase),
            edge("t1", "tc2", EdgeKind::ContainsTestCase),
        ],
    }
}

#[test]
fn impact_neighborhood_is_bounded_and_exposes_tests() {
    let graph = impact_graph();
    let impact = graph.impact_neighborhood(&[id("c1"), id("c1")], 2, 10);
    assert_eq!(impact.schema_version, SEMANTIC_IMPACT_SCHEMA_VERSION);
    assert_eq!(impact.graph_identity, digest_of(&graph.canonical_json()));
    assert_eq!(impact.roots, vec![id("c1")]);
    let nodes: Vec<(String, IdentityKind, usize)> =
        impact.nodes.iter().map(|n| (n.identity.0.clone(), n.kind, n.distance)).collect();
    assert_eq!(
        nodes,
        vec![
            ("c1".to_owned(), IdentityKind::Contract, 0),
            ("f1".to_owned(), IdentityKind::Function, 1),
            ("op".to_owned(), IdentityKind::Operation, 2),
        ]
    );
    assert_eq!(impact.edges, vec![edge("f1", "c1", EdgeKind::OwnsContract), edge("op", "f1", EdgeKind::Calls)]);
    assert_eq!(impact.direct_dependents, vec![id("f1")]);
    assert_eq!(impact.test_identities, vec![id("tc1")]);
    assert_eq!(impact.risk_flags, vec![ImpactRisk::PublicContract]);
    assert!(impact.complete);
    assert_eq!(impact.max_depth, 2);
    assert_eq!(impact.max_nodes, 10);
    assert_eq!(impact.limitations.len(), 2);
}

#[test]
fn shallow_traversal_is_reported() {
    let graph = impact_graph();
    let impact = graph.impact_neighborhood(&[id("c1")], 0, 0);
    assert_eq!(impact.max_depth, 1);
    assert_eq!(impact.max_nodes, 1);
    assert!(!impact.complete);
    assert_eq!(impact.risk_flags, vec![ImpactRisk::PublicContract, ImpactRisk::Truncated]);
    assert_eq!(impact.nodes.len(), 1);
    assert_eq!(
        impact.limitations,
        vec![
            "neighborhood is compiler-exact only for the current semantic graph".to_owned(),
            "cross-repository edges and path-sensitive control flow are not represented".to_owned(),
            "reverse traversal depth was intentionally bounded".to_owned(),
            "node budget truncated the reverse dependency traversal".to_owned(),
        ]
    );
    let depth_one = graph.impact_neighborhood(&[id("c1")], 1, 10);
    assert!(depth_one.complete);
    assert_eq!(depth_one.nodes.len(), 2);
    assert_eq!(depth_one.test_identities, vec![id("tc1")]);
}

#[test]
fn unknown_roots_are_flagged_and_withhold_completeness() {
    let graph = impact_graph();
    let impact = graph.impact_neighborhood(&[id("ghost"), id("op")], 3, 10);
    assert_eq!(impact.graph_identity, graph.graph_identity());
    assert_eq!(impact.graph_identity, digest_of(&graph.canonical_json()));
    assert_eq!(impact.roots, vec![id("ghost"), id("op")]);
    assert_eq!(impact.risk_flags, vec![ImpactRisk::UnknownRoot]);
    assert!(!impact.complete);
    assert_eq!(impact.nodes.len(), 1);
    assert_eq!(impact.limitations.last().unwrap(), "one or more requested roots are not current graph nodes");
}

#[test]
fn many_dependents_raise_high_connectivity() {
    let mut graph = impact_graph();
    for i in 0..9 {
        graph.edges.push(edge(&format!("user{i}"), "c1", EdgeKind::DependsOn));
    }
    let impact = graph.impact_neighborhood(&[id("c1")], 1, 100);
    assert_eq!(impact.risk_flags, vec![ImpactRisk::PublicContract, ImpactRisk::HighConnectivity]);
    assert_eq!(impact.direct_dependents.len(), 10);
    assert_eq!(impact.nodes.len(), 2);
}

#[test]
fn node_budget_keeps_the_first_dependents_in_edge_order() {
    let graph = SemanticGraph {
        schema_version: "graph".to_owned(),
        nodes: vec![
            node("c1", IdentityKind::Contract),
            node("x1", IdentityKind::Function),
            node("x2", IdentityKind::Function),
            node("x3", IdentityKind::Function),
        ],
        edges: vec![
            edge("x3", "c1", EdgeKind::DependsOn),
            edge("x1", "c1", EdgeKind::DependsOn),
            edge("x2", "c1", EdgeKind::DependsOn),
        ],
    };
    let impact = graph.impact_neighborhood(&[id("c1")], 4, 3);
    let visited: Vec<String> = impact.nodes.iter().map(|n| n.identity.0.clone()).collect();
    assert_eq!(visited, vec!["c1".to_owned(), "x1".to_owned(), "x3".to_owned()]);
    assert!(!impact.complete);
    assert!(impact.risk_flags.contains(&ImpactRisk::Truncated));
    assert_eq!(impact.direct_dependents, vec![id("x1"), id("x3")]);
}

#[test]
fn graph_json_is_compact_and_in_declaration_order() {
    let graph = SemanticGraph {
        schema_version: "0.2".to_owned(),
        nodes: vec![
            GraphNode { identity: id("mncs:0.2:function:m::f"), kind: IdentityKind::Function, fingerprint: "a\"b".to_owned() },
            node("tc", IdentityKind::TestCase),
        ],
        edges: vec![edge("t", "tc", EdgeKind::ContainsTestCase), edge("a", "b", EdgeKind::IterationContainsBlock)],
    };
    let json = graph.canonical_json();
    assert_eq!(
        json,
        [
            r#"{"schema_version":"0.2","nodes":[{"identity":"mncs:0.2:function:m::f","kind":"function","fingerprint":"a\"b"},"#,
            r#"{"identity":"tc","kind":"test_case","fingerprint":"f"}],"edges":[{"from":"t","to":"tc","kind":"contains_test_case"},"#,
            r#"{"from":"a","to":"b","kind":"iteration_contains_block"}]}"#,
        ]
        .concat()
    );
    assert_eq!(graph.graph_identity(), digest_of(&json));
    let empty = SemanticGraph { schema_version: String::new(), nodes: Vec::new(), edges: Vec::new() };
    assert_eq!(empty.canonical_json(), r#"{"schema_version":"","nodes":[],"edges":[]}"#);
}
