//! Refinement: diagnostics, authority capabilities, budgets, repair
//! proposals and promotion decisions. Proposals are untrusted by default and
//! authority kinds never imply each other.

use vstd::prelude::*;
use vstd::string::*;

use crate::evidence::EvidenceState;
use crate::graph::{edge_rank, edge_views, edges_sorted, is_node, EdgeKind, GraphEdge, SemanticGraph};
use crate::identity::{id_views, sorted_unique_ids, strictly_sorted, SemanticId};
use crate::traversal::{
    edge_among, edges_among, lemma_visited_iff_leads, leads_to, reverse_traversal, visit_ids,
    visit_views,
};
use crate::machine_intent::ArithmeticIntent;
use crate::text::has_prefix;

verus! {

pub const REFINEMENT_SCHEMA_VERSION: &'static str = "0.2";

#[derive(Debug, Clone, Copy, PartialEq, Eq, PartialOrd, Ord, Structural)]
pub enum DiagnosticCategory {
    Validation,
    Authority,
    Verification,
    Evidence,
    Lowering,
}

#[derive(Debug, Clone, Copy, PartialEq, Eq, PartialOrd, Ord, Structural)]
pub enum Confidence {
    Low,
    Medium,
    High,
}

#[derive(Debug, Clone, PartialEq, Eq)]
pub struct DiagnosticObligation {
    pub schema_version: String,
    pub identity: SemanticId,
    pub subject: SemanticId,
    pub property: Option<SemanticId>,
    pub obligation: Option<SemanticId>,
    pub category: DiagnosticCategory,
    pub evidence_state: EvidenceState,
    pub assumptions: Vec<SemanticId>,
    pub dependencies: Vec<SemanticId>,
    pub severity: u8,
    pub confidence: Confidence,
    pub fallback: Option<String>,
    pub message: String,
}

impl DiagnosticObligation {
    /// A fresh diagnostic: unknown evidence, low confidence, severity one,
    /// and nothing else claimed.
    pub fn new(identity: SemanticId, subject: SemanticId, category: DiagnosticCategory) -> (r: Self)
        ensures
            r.schema_version@ == REFINEMENT_SCHEMA_VERSION@,
            r.identity == identity,
            r.subject == subject,
            r.property is None,
            r.obligation is None,
            r.category == category,
            r.evidence_state == EvidenceState::Unknown,
            r.assumptions@.len() == 0,
            r.dependencies@.len() == 0,
            r.severity == 1,
            r.confidence == Confidence::Low,
            r.fallback is None,
            r.message@.len() == 0,
    {
        Self {
            schema_version: REFINEMENT_SCHEMA_VERSION.to_owned(),
            identity,
            subject,
            property: None,
            obligation: None,
            category,
            evidence_state: EvidenceState::Unknown,
            assumptions: Vec::new(),
            dependencies: Vec::new(),
            severity: 1,
            confidence: Confidence::Low,
            fallback: None,
            message: String::new(),
        }
    }
}

#[derive(Debug, Clone, PartialEq, Eq)]
pub struct CausalSlice {
    pub schema_version: String,
    pub root: SemanticId,
    pub nodes: Vec<SemanticId>,
    pub edges: Vec<CausalSliceEdge>,
    pub complete: bool,
    pub limitations: Vec<String>,
}

#[derive(Debug, Clone, PartialEq, Eq)]
pub struct CausalSliceEdge {
    pub from: SemanticId,
    pub to: SemanticId,
    pub kind: EdgeKind,
}

pub open spec fn slice_edge_views(s: Seq<CausalSliceEdge>) -> Seq<(Seq<char>, Seq<char>, int)> {
    s.map_values(|e: CausalSliceEdge| (e.from.0@, e.to.0@, edge_rank(e.kind)))
}

/// Both ends of `e` lead to `root`.
pub open spec fn slice_edge(ev: Seq<(Seq<char>, Seq<char>, int)>, root: Seq<char>, e: GraphEdge) -> bool {
    leads_to(ev, root, e.from.0@) && leads_to(ev, root, e.to.0@)
}

impl SemanticGraph {
    /// The backward semantic neighborhood of `root`: every identity that
    /// leads to it along the edges (the root included, whether or not it is
    /// a node), and the edges among them in canonical order. The slice never
    /// claims completeness.
    pub fn causal_slice(&self, root: &SemanticId) -> (r: CausalSlice)
        ensures
            r.schema_version@ == REFINEMENT_SCHEMA_VERSION@,
            r.root.0@ == root.0@,
            strictly_sorted(id_views(r.nodes@)),
            forall|t: Seq<char>| id_views(r.nodes@).contains(t) <==> leads_to(edge_views(self.edges@), root.0@, t),
            edges_sorted(slice_edge_views(r.edges@)),
            slice_edge_views(r.edges@).to_multiset() == edge_views(
                self.edges@.filter(|e: GraphEdge| slice_edge(edge_views(self.edges@), root.0@, e)),
            ).to_multiset(),
            !r.complete,
            r.limitations@.len() == (if is_node(self.nodes@, root.0@) { 2int } else { 3int }),
            r.limitations@[0]@ == "slice follows conservative backward semantic dependencies"@,
            r.limitations@[1]@ == "path-sensitive control-flow and complete verifier/artifact causality are not represented"@,
            !is_node(self.nodes@, root.0@) ==> r.limitations@[2]@ == "root is not a current semantic graph node"@,
    {
        let ghost ev = edge_views(self.edges@);
        let mut start: Vec<SemanticId> = Vec::new();
        start.push(root.duplicate());
        let (found, truncated) = reverse_traversal(&self.edges, &start, None, None);
        let ghost fv = visit_views(found@);
        proof {
            assert(fv[0] == (start@[0].0@, 0int));
            lemma_visited_iff_leads(ev, fv, root.0@);
            assert((|e: GraphEdge| edge_among(fv, e)) =~= (|e: GraphEdge| slice_edge(ev, root.0@, e)));
        }
        let ids = visit_ids(&found);
        let nodes = sorted_unique_ids(&ids);
        let among = edges_among(&self.edges, &found);
        let mut edges: Vec<CausalSliceEdge> = Vec::new();
        let mut k: usize = 0;
        while k < among.len()
            invariant
                k <= among@.len(),
                edges@.len() == k,
                forall|q: int| 0 <= q < k ==> slice_edge_views(edges@)[q] == edge_views(among@)[q],
            decreases among@.len() - k,
        {
            edges.push(CausalSliceEdge { from: among[k].from.duplicate(), to: among[k].to.duplicate(), kind: among[k].kind });
            proof {
                assert(slice_edge_views(edges@)[k as int] == edge_views(among@)[k as int]);
            }
            k = k + 1;
        }
        assert(slice_edge_views(edges@) =~= edge_views(among@));
        let mut limitations: Vec<String> = Vec::new();
        limitations.push(String::from_str("slice follows conservative backward semantic dependencies"));
        limitations.push(
            String::from_str("path-sensitive control-flow and complete verifier/artifact causality are not represented"),
        );
        if !self.has_node(root) {
            limitations.push(String::from_str("root is not a current semantic graph node"));
        }
        CausalSlice {
            schema_version: String::from_str(REFINEMENT_SCHEMA_VERSION),
            root: root.duplicate(),
            nodes,
            edges,
            complete: false,
            limitations,
        }
    }
}

#[derive(Debug, Clone, PartialEq, Eq, Structural)]
pub struct ResourceLimits {
    pub max_steps: Option<u64>,
    pub max_bytes: Option<u64>,
    pub max_wall_time_ms: Option<u64>,
}

#[derive(Debug, Clone, PartialEq, Eq)]
pub struct RefinementBudget {
    pub max_iterations: u32,
    pub max_candidates: u32,
    pub max_verifier_calls: u32,
    pub mutation_scope: Vec<SemanticId>,
    pub allowed_capabilities: Vec<AuthorityCapability>,
    pub resources: ResourceLimits,
}

impl Default for RefinementBudget {
    /// The default budget is finite: one iteration, one candidate, one
    /// verifier call, no mutation scope, no capabilities, bounded resources.
    fn default() -> (r: Self)
        ensures
            r.max_iterations == 1,
            r.max_candidates == 1,
            r.max_verifier_calls == 1,
            r.mutation_scope@.len() == 0,
            r.allowed_capabilities@.len() == 0,
            r.resources == (ResourceLimits {
                max_steps: Some(10_000u64),
                max_bytes: Some(16777216u64),
                max_wall_time_ms: Some(30_000u64),
            }),
    {
        Self {
            max_iterations: 1,
            max_candidates: 1,
            max_verifier_calls: 1,
            mutation_scope: Vec::new(),
            allowed_capabilities: Vec::new(),
            resources: ResourceLimits {
                max_steps: Some(10_000),
                max_bytes: Some(16 * 1024 * 1024),
                max_wall_time_ms: Some(30_000),
            },
        }
    }
}

#[derive(Debug, Clone, Copy, PartialEq, Eq, PartialOrd, Ord, Structural)]
pub enum AuthorityKind {
    Observe,
    Mutate,
    Execute,
    Verify,
    Generate,
    Promote,
}

#[derive(Debug, Clone, PartialEq, Eq, PartialOrd, Ord)]
pub enum AuthorityScope {
    Exact(SemanticId),
    Function(SemanticId),
    Module(SemanticId),
    Global,
}

#[derive(Debug, Clone, PartialEq, Eq)]
pub struct AuthorityCapability {
    pub identity: SemanticId,
    pub kind: AuthorityKind,
    pub scope: AuthorityScope,
}

/// How broad a scope is: exact, function, module, global.
pub open spec fn scope_rank(scope: AuthorityScope) -> u8 {
    match scope {
        AuthorityScope::Exact(_) => 0,
        AuthorityScope::Function(_) => 1,
        AuthorityScope::Module(_) => 2,
        AuthorityScope::Global => 3,
    }
}

/// `subject` lies under the namespace `owner` (its text then `::`).
pub open spec fn under(subject: Seq<char>, owner: Seq<char>) -> bool {
    let prefix = owner + "::"@;
    prefix.len() <= subject.len() && subject.subrange(0, prefix.len() as int) == prefix
}

/// Whether a scope covers a subject: the exact identity, anything under a
/// function or module namespace, or anything at all.
pub open spec fn scope_covers(scope: AuthorityScope, subject: Seq<char>) -> bool {
    match scope {
        AuthorityScope::Exact(value) => value.0@ == subject,
        AuthorityScope::Function(value) => under(subject, value.0@),
        AuthorityScope::Module(value) => under(subject, value.0@),
        AuthorityScope::Global => true,
    }
}

impl AuthorityScope {
    fn rank(&self) -> (r: u8)
        ensures
            r == scope_rank(*self),
    {
        match self {
            Self::Exact(_) => 0,
            Self::Function(_) => 1,
            Self::Module(_) => 2,
            Self::Global => 3,
        }
    }

    fn covers(&self, subject: &SemanticId) -> (r: bool)
        ensures
            r == scope_covers(*self, subject.0@),
    {
        match self {
            Self::Exact(value) => value.same(subject),
            Self::Function(value) => {
                let prefix = value.0.clone().concat("::");
                has_prefix(subject.0.as_str(), prefix.as_str())
            },
            Self::Module(value) => {
                let prefix = value.0.clone().concat("::");
                has_prefix(subject.0.as_str(), prefix.as_str())
            },
            Self::Global => true,
        }
    }
}

impl AuthorityCapability {
    /// A capability permits exactly its own kind over its scope: kinds never
    /// imply each other.
    pub fn permits(&self, kind: AuthorityKind, subject: &SemanticId) -> (r: bool)
        ensures
            r == (self.kind == kind && scope_covers(self.scope, subject.0@)),
    {
        self.kind == kind && self.scope.covers(subject)
    }

    /// The capability keeps the kind of `previous` and widens its scope.
    pub fn broadens_from(&self, previous: &AuthorityCapability) -> (r: bool)
        ensures
            r == (self.kind == previous.kind && scope_rank(self.scope) > scope_rank(previous.scope)),
    {
        self.kind == previous.kind && self.scope.rank() > previous.scope.rank()
    }
}

/// No capability permits a kind other than its own.
pub proof fn lemma_kinds_do_not_imply(capability: AuthorityCapability, kind: AuthorityKind, subject: Seq<char>)
    requires
        kind != capability.kind,
    ensures
        !(capability.kind == kind && scope_covers(capability.scope, subject)),
{
}

#[derive(Debug, Clone, PartialEq, Eq)]
pub struct SemanticChange {
    pub kind: String,
    pub subject: SemanticId,
    pub before: Option<String>,
    pub after: Option<String>,
}

#[derive(Debug, Clone, PartialEq, Eq)]
pub struct SemanticPatch {
    pub schema_version: String,
    pub identity: SemanticId,
    pub subject: SemanticId,
    pub precondition: Option<String>,
    pub operation: PatchOperation,
    pub required_authority: AuthorityCapability,
    pub expected_invalidation: Vec<SemanticId>,
}

#[derive(Debug, Clone, PartialEq, Eq)]
pub enum PatchOperation {
    ReplaceContractExpression { before: String, after: String },
    AddAssumptionReference { function: String, assumption: String },
    RemoveAssumptionReference { function: String, assumption: String },
    ChangeIntegerIntent { before: ArithmeticIntent, after: ArithmeticIntent },
    SelectRealization { realization: SemanticId },
}

#[derive(Debug, Clone, Copy, PartialEq, Eq, Structural)]
pub enum ProtectedPropertyStatus {
    Preserved,
    Regressed,
    Unknown,
    NotEvaluated,
}

#[derive(Debug, Clone, PartialEq, Eq)]
pub struct ProtectedPropertyResult {
    pub property: SemanticId,
    pub status: ProtectedPropertyStatus,
    pub reason: String,
}

#[derive(Debug, Clone, PartialEq, Eq)]
pub struct ProtectedPropertyEvaluation {
    pub schema_version: String,
    pub results: Vec<ProtectedPropertyResult>,
}

#[derive(Debug, Clone, PartialEq, Eq)]
pub struct VerificationPlan {
    pub verifier_classes: Vec<String>,
    pub required_obligations: Vec<SemanticId>,
    pub independent_authority_required: bool,
}

#[derive(Debug, Clone, PartialEq, Eq)]
pub struct RepairProposal {
    pub schema_version: String,
    pub identity: SemanticId,
    pub generator: SemanticId,
    pub baseline_identity: SemanticId,
    pub baseline_fingerprint: String,
    pub objective: String,
    pub protected_properties: Vec<SemanticId>,
    pub permitted_mutation_region: Vec<SemanticId>,
    pub required_capabilities: Vec<AuthorityCapability>,
    pub changes: Vec<SemanticChange>,
    pub predicted_invalidation: Vec<SemanticId>,
    pub verification_plan: VerificationPlan,
    pub budget: RefinementBudget,
    pub trusted: bool,
    pub patches: Vec<SemanticPatch>,
}

impl RepairProposal {
    pub fn is_untrusted(&self) -> (r: bool)
        ensures
            r == !self.trusted,
    {
        !self.trusted
    }
}

#[derive(Debug, Clone, Copy, PartialEq, Eq, Structural)]
pub enum PromotionDisposition {
    Rejected,
    ReviewRequired,
    AcceptedWithConstraints,
    Accepted,
}

#[derive(Debug, Clone, PartialEq, Eq)]
pub struct PromotionDecision {
    pub schema_version: String,
    pub baseline_identity: SemanticId,
    pub candidate_identity: SemanticId,
    pub policy_identity: SemanticId,
    pub evidence_consumed: Vec<SemanticId>,
    pub protected_property_result: String,
    pub accepted_tradeoffs: Vec<String>,
    pub approving_authority: Option<AuthorityCapability>,
    pub disposition: PromotionDisposition,
    pub reasons: Vec<String>,
}

impl PromotionDecision {
    /// Promotion stands only on an accepting disposition approved by a
    /// promote capability.
    pub fn is_explicitly_authorized(&self) -> (r: bool)
        ensures
            r == ((self.disposition == PromotionDisposition::Accepted || self.disposition
                == PromotionDisposition::AcceptedWithConstraints) && match self.approving_authority {
                Some(authority) => authority.kind == AuthorityKind::Promote,
                None => false,
            }),
    {
        matches!(self.disposition, PromotionDisposition::Accepted | PromotionDisposition::AcceptedWithConstraints)
            && match &self.approving_authority {
            Some(authority) => authority.kind == AuthorityKind::Promote,
            None => false,
        }
    }
}

/// A module or function scope covers every subject in its namespace (its
/// identity, then `::`, then anything).
pub proof fn lemma_namespace_scope_covers_its_namespace(owner: SemanticId, rest: Seq<char>)
    ensures
        scope_covers(AuthorityScope::Module(owner), owner.0@ + "::"@ + rest),
        scope_covers(AuthorityScope::Function(owner), owner.0@ + "::"@ + rest),
{
    reveal_strlit("::");
    let subject = owner.0@ + "::"@ + rest;
    assert(subject.subrange(0, (owner.0@ + "::"@).len() as int) =~= owner.0@ + "::"@);
}

/// ... and nothing else: a subject a module scope covers lies in its
/// namespace.
pub proof fn lemma_module_scope_covers_only_its_namespace(owner: SemanticId, subject: Seq<char>)
    requires
        scope_covers(AuthorityScope::Module(owner), subject),
    ensures
        exists|rest: Seq<char>| subject == owner.0@ + "::"@ + rest,
{
    reveal_strlit("::");
    let n = (owner.0@ + "::"@).len() as int;
    let rest = subject.subrange(n, subject.len() as int);
    assert(subject =~= owner.0@ + "::"@ + rest);
}

/// An exact scope covers its identity alone, a function scope exactly the
/// subjects in its namespace, and the global scope everything.
pub proof fn lemma_scope_coverage(owner: SemanticId, subject: Seq<char>)
    ensures
        scope_covers(AuthorityScope::Exact(owner), subject) <==> subject == owner.0@,
        scope_covers(AuthorityScope::Function(owner), subject) <==> exists|rest: Seq<char>|
            subject == owner.0@ + "::"@ + rest,
        scope_covers(AuthorityScope::Module(owner), subject) <==> exists|rest: Seq<char>|
            subject == owner.0@ + "::"@ + rest,
        scope_covers(AuthorityScope::Global, subject),
{
    reveal_strlit("::");
    let n = (owner.0@ + "::"@).len() as int;
    if n <= subject.len() && subject.subrange(0, n) == owner.0@ + "::"@ {
        let rest = subject.subrange(n, subject.len() as int);
        assert(subject =~= owner.0@ + "::"@ + rest);
    }
    if exists|rest: Seq<char>| subject == owner.0@ + "::"@ + rest {
        let rest = choose|rest: Seq<char>| subject == owner.0@ + "::"@ + rest;
        lemma_namespace_scope_covers_its_namespace(owner, rest);
    }
}

} // verus!
