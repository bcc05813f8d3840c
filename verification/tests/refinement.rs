use mncs_model::{
    AuthorityCapability, AuthorityKind, AuthorityScope, EdgeKind, GraphEdge, GraphNode,
    IdentityKind, PromotionDecision, PromotionDisposition, RefinementBudget, RepairProposal,
    SemanticGraph, SemanticId, VerificationPlan, REFINEMENT_SCHEMA_VERSION,
};

fn id(text: &str) -> SemanticId {
    SemanticId(text.to_owned())
}

#[test]
fn authority_kinds_do_not_imply_each_other_and_scope_broadening_is_visible() {
    let subject = SemanticId("mncs:0.2:function:Banking.Transfer::transfer".to_owned());
    let observe = AuthorityCapability {
        identity: SemanticId("authority:observe".to_owned()),
        kind: AuthorityKind::Observe,
        scope: AuthorityScope::Exact(subject.clone()),
    };
    assert!(observe.permits(AuthorityKind::Observe, &subject));
    assert!(!observe.permits(AuthorityKind::Mutate, &subject));
    let broad = AuthorityCapability {
        identity: SemanticId("authority:module-observe".to_owned()),
        kind: AuthorityKind::Observe,
        scope: AuthorityScope::Module(SemanticId("mncs:0.2:function:Banking.Transfer".to_owned())),
    };
    assert!(broad.broadens_from(&observe));
}

#[test]
fn default_budget_is_finite_and_proposals_are_untrusted() {
    let budget = RefinementBudget::default();
    assert_eq!(budget.max_iterations, 1);
    let proposal = RepairProposal {
        schema_version: REFINEMENT_SCHEMA_VERSION.to_owned(),
        identity: SemanticId("proposal:one".to_owned()),
        generator: SemanticId("generator:one".to_owned()),
        baseline_identity: SemanticId("program:one".to_owned()),
        baseline_fingerprint: "fingerprint".to_owned(),
        objective: "repair".to_owned(),
        protected_properties: Vec::new(),
        permitted_mutation_region: Vec::new(),
        required_capabilities: Vec::new(),
        changes: Vec::new(),
        predicted_invalidation: Vec::new(),
        verification_plan: VerificationPlan {
            verifier_classes: vec!["deterministic".to_owned()],
            required_obligations: Vec::new(),
            independent_authority_required: true,
        },
        budget,
        trusted: false,
        patches: Vec::new(),
    };
    assert!(proposal.is_untrusted());
    let mut trusted = proposal.clone();
    trusted.trusted = true;
    assert!(!trusted.is_untrusted());
}

#[test]
fn scopes_cover_only_what_they_name() {
    let function = id("mncs:0.2:function:M::f");
    let nested = id("mncs:0.2:function:M::f::inner");
    let exact = AuthorityCapability { identity: id("a"), kind: AuthorityKind::Mutate, scope: AuthorityScope::Exact(function.clone()) };
    assert!(exact.permits(AuthorityKind::Mutate, &function));
    assert!(!exact.permits(AuthorityKind::Mutate, &nested));
    let scoped = AuthorityCapability { identity: id("b"), kind: AuthorityKind::Mutate, scope: AuthorityScope::Function(function.clone()) };
    assert!(scoped.permits(AuthorityKind::Mutate, &nested));
    assert!(!scoped.permits(AuthorityKind::Mutate, &function));
    assert!(!scoped.permits(AuthorityKind::Mutate, &id("mncs:0.2:function:M::fg")));
    let global = AuthorityCapability { identity: id("c"), kind: AuthorityKind::Verify, scope: AuthorityScope::Global };
    assert!(global.permits(AuthorityKind::Verify, &function));
    assert!(!global.permits(AuthorityKind::Promote, &function));
    assert!(global.broadens_from(&scoped) == false);
    let global_mutate = AuthorityCapability { identity: id("d"), kind: AuthorityKind::Mutate, scope: AuthorityScope::Global };
    assert!(global_mutate.broadens_from(&scoped));
    assert!(!scoped.broadens_from(&global_mutate));
    assert!(!exact.broadens_from(&exact));
}

#[test]
fn promotion_needs_acceptance_and_promote_authority() {
    let authority = AuthorityCapability { identity: id("p"), kind: AuthorityKind::Promote, scope: AuthorityScope::Global };
    let mut decision = PromotionDecision {
        schema_version: REFINEMENT_SCHEMA_VERSION.to_owned(),
        baseline_identity: id("program:one"),
        candidate_identity: id("candidate:one"),
        policy_identity: id("policy:one"),
        evidence_consumed: Vec::new(),
        protected_property_result: "pass".to_owned(),
        accepted_tradeoffs: Vec::new(),
        approving_authority: Some(authority.clone()),
        disposition: PromotionDisposition::Accepted,
        reasons: Vec::new(),
    };
    assert!(decision.is_explicitly_authorized());
    decision.disposition = PromotionDisposition::AcceptedWithConstraints;
    assert!(decision.is_explicitly_authorized());
    decision.disposition = PromotionDisposition::ReviewRequired;
    assert!(!decision.is_explicitly_authorized());
    decision.disposition = PromotionDisposition::Accepted;
    decision.approving_authority = Some(AuthorityCapability { kind: AuthorityKind::Mutate, ..authority });
    assert!(!decision.is_explicitly_authorized());
    decision.approving_authority = None;
    assert!(!decision.is_explicitly_authorized());
}

fn node(identity: &str, kind: IdentityKind) -> GraphNode {
    GraphNode { identity: id(identity), kind, fingerprint: "f".to_owned() }
}

fn edge(from: &str, to: &str, kind: EdgeKind) -> GraphEdge {
    GraphEdge { from: id(from), to: id(to), kind }
}

fn small_graph() -> SemanticGraph {
    SemanticGraph {
        schema_version: "graph".to_owned(),
        nodes: vec![
            node("contract", IdentityKind::Contract),
            node("function", IdentityKind::Function),
            node("value", IdentityKind::Value),
            node("unrelated", IdentityKind::Value),
        ],
        edges: vec![
            edge("value", "contract", EdgeKind::ConsumesValue),
            edge("function", "contract", EdgeKind::OwnsContract),
            edge("contract", "unrelated", EdgeKind::DependsOn),
            edge("module", "function", EdgeKind::ContainsFunction),
        ],
    }
}

#[test]
fn causal_slice_follows_edges_backwards_and_marks_incompleteness() {
    let graph = small_graph();
    let slice = graph.causal_slice(&id("contract"));
    assert_eq!(slice, graph.causal_slice(&id("contract")));
    assert!(!slice.complete);
    assert_eq!(slice.root, id("contract"));
    assert_eq!(slice.schema_version, REFINEMENT_SCHEMA_VERSION);
    assert_eq!(slice.nodes, vec![id("contract"), id("function"), id("module"), id("value")]);
    let edges: Vec<(String, String, EdgeKind)> =
        slice.edges.iter().map(|e| (e.from.0.clone(), e.to.0.clone(), e.kind)).collect();
    assert_eq!(
        edges,
        vec![
            ("function".to_owned(), "contract".to_owned(), EdgeKind::OwnsContract),
            ("module".to_owned(), "function".to_owned(), EdgeKind::ContainsFunction),
            ("value".to_owned(), "contract".to_owned(), EdgeKind::ConsumesValue),
        ]
    );
    assert_eq!(slice.limitations.len(), 2);
}

#[test]
fn causal_slice_of_an_unknown_root_says_so() {
    let graph = small_graph();
    let slice = graph.causal_slice(&id("missing"));
    assert_eq!(slice.nodes, vec![id("missing")]);
    assert!(slice.edges.is_empty());
    assert_eq!(slice.limitations.len(), 3);
    assert_eq!(slice.limitations[2], "root is not a current semantic graph node");
    let leaf = graph.causal_slice(&id("module"));
    assert_eq!(leaf.nodes, vec![id("module")]);
    assert_eq!(leaf.limitations.len(), 3);
}

#[test]
fn causal_slice_handles_cycles() {
    let graph = SemanticGraph {
        schema_version: "graph".to_owned(),
        nodes: vec![node("a", IdentityKind::Value), node("b", IdentityKind::Value)],
        edges: vec![edge("a", "b", EdgeKind::DependsOn), edge("b", "a", EdgeKind::DependsOn), edge("c", "d", EdgeKind::DependsOn)],
    };
    let slice = graph.causal_slice(&id("a"));
    assert_eq!(slice.nodes, vec![id("a"), id("b")]);
    assert_eq!(slice.edges.len(), 2);
}
